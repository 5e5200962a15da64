//! The evaluator of the smallest dialect, `Py0i`: values, the store they
//! live in, and the statements and expressions that compute on them. The
//! host prints, computes on floating-point numbers and reads source files.

use vstd::prelude::*;
use vstd::string::{StrSliceExecFns, StringExecFns};

use crate::ast::{Expr, Items, Op, Stmt};
use crate::py4::dec;
use crate::basic::{Num, Stop};
use crate::control::{block_goes_on, seq_index, Status};
use crate::ops::{int_binop, IntOut};
use crate::py4::refs;
use crate::scopes::Scopes;
use crate::text::{append_chars, chars_of, push_decimal, str_eq, string_from_chars};
use crate::value::{display, Value};

verus! {

/// What the evaluator asks of the program that runs it. Floats travel as
/// the bits of an `f64`.
pub trait Host {
    /// Prints one line.
    fn print(&mut self, line: String);

    /// The number that a float literal's text denotes.
    fn float_literal(&mut self, text: &str) -> u64;

    /// The printed form of a float.
    fn float_text(&mut self, bits: u64) -> String;

    /// `a op b` on the two operands taken as floats (`+ - * /`).
    fn float_arith(&mut self, op: Op, a: Num, b: Num) -> u64;

    /// `a op b` for a comparison operator, on the operands taken as floats.
    fn float_compare(&mut self, op: Op, a: Num, b: Num) -> bool;

    /// `-a`, with `a` taken as a float.
    fn float_neg(&mut self, a: Num) -> u64;

    /// `a` as a float.
    fn to_float(&mut self, a: Num) -> u64;

    /// A float cut to an integer, as Rust's `as` does.
    fn float_to_int(&mut self, bits: u64) -> i64;

    /// The text of the source file at `path`, where there is one.
    fn read_source(&mut self, path: &str) -> Option<String>;
}

/// A value. Lists and functions live in the store; `Sys` is the `sys`
/// module, which holds the list `sys.argv`.
pub enum Val {
    NoneVal,
    Bool(bool),
    Int(i64),
    Float(u64),
    Str(String),
    List(usize),
    Sys(usize),
    Function(usize),
    Builtin(String),
}

impl Val {
    /// A copy of the value (a list stays shared).
    pub fn duplicate(&self) -> (r: Val)
        ensures
            r == *self,
    {
        match self {
            Val::NoneVal => Val::NoneVal,
            Val::Bool(b) => Val::Bool(*b),
            Val::Int(i) => Val::Int(*i),
            Val::Float(f) => Val::Float(*f),
            Val::Str(s) => Val::Str(s.clone()),
            Val::List(i) => Val::List(*i),
            Val::Sys(i) => Val::Sys(*i),
            Val::Function(i) => Val::Function(*i),
            Val::Builtin(n) => Val::Builtin(n.clone()),
        }
    }
}

/// A function made by `def`.
pub struct Func {
    pub name: String,
    pub params: Vec<String>,
    pub body: Items<Stmt>,
    pub closure: usize,
}

/// Everything a run has made.
pub struct Store {
    pub scopes: Scopes<Val>,
    pub lists: Vec<Vec<Val>>,
    pub funcs: Vec<Func>,
    /// The global scope.
    pub globals: usize,
}

impl Store {
    /// The scopes are well nested and the global scope is one of them.
    pub open spec fn wf(&self) -> bool {
        &&& self.scopes.wf()
        &&& self.globals < self.scopes.count()
    }
}

/// The items of every list of the store.
pub open spec fn lists_of(st: &Store) -> Seq<Seq<Val>> {
    st.lists@.map_values(|v: Vec<Val>| v@)
}

/// An error with the given text.
fn error(msg: &str) -> (s: Stop)
    ensures
        s matches Stop::Error(m) && m@ == msg@,
{
    Stop::Error(String::from_str(msg))
}

/// The fault when evaluation nests deeper than `DEPTH`.
fn too_deep() -> (s: Stop)
    ensures
        s is Panic,
{
    Stop::Panic(String::from_str("maximum recursion depth exceeded"))
}

/// How deep evaluation may nest: every nested evaluation spends one unit,
/// so no script that fits in memory reaches it.
pub const DEPTH: u64 = 0xffff_ffff_ffff_ffffu64;

/// `a` followed by `b`.
fn concat2(a: &str, b: &str) -> (s: String)
    ensures
        s@ == a@ + b@,
{
    let mut s = String::from_str(a);
    s.append(b);
    s
}

/// What `n` reads as in scope `env`, or the error for an unbound name.
pub fn lookup(st: &Store, env: usize, n: &str) -> (r: Result<Val, Stop>)
    requires
        st.wf(),
        env < st.scopes.count(),
    ensures
        match st.scopes.lookup(env as int, n@) {
            Some(v) => r == Ok::<Val, Stop>(v),
            None => r matches Err(Stop::Error(m)) && m@ == "name '"@ + n@ + "' is not defined"@,
        },
{
    match st.scopes.get(env, n) {
        Some(v) => Ok(v.duplicate()),
        None => {
            let mut m = concat2("name '", n);
            m.append("' is not defined");
            Err(Stop::Error(m))
        },
    }
}

/// Whether a value counts as true: `None`, `False`, zero, and empty strings
/// and lists are false.
pub open spec fn truthy_spec(st: &Store, v: &Val) -> bool {
    match *v {
        Val::NoneVal => false,
        Val::Bool(x) => x,
        Val::Int(i) => i != 0,
        Val::Float(f) => !(f == 0 || f == 0x8000_0000_0000_0000u64),
        Val::Str(s) => s@.len() != 0,
        Val::List(l) => !(l < st.lists@.len()) || st.lists@[l as int]@.len() != 0,
        _ => true,
    }
}

/// Whether a value counts as true: `None`, `False`, zero, and empty strings
/// and lists are false.
pub fn truthy(st: &Store, v: &Val) -> (b: bool)
    ensures
        b == truthy_spec(st, v),
{
    match v {
        Val::NoneVal => false,
        Val::Bool(x) => *x,
        Val::Int(i) => *i != 0,
        Val::Float(f) => !(*f == 0 || *f == 0x8000_0000_0000_0000u64),
        Val::Str(s) => s.as_str().unicode_len() != 0,
        Val::List(l) => {
            if *l < st.lists.len() {
                st.lists[*l].len() != 0
            } else {
                true
            }
        },
        _ => true,
    }
}

/// A value as a number, or the error for one that is not.
pub fn as_num(v: &Val) -> (r: Result<Num, Stop>)
    ensures
        match *v {
            Val::Int(i) => r matches Ok(Num::Int(j)) && j == i,
            Val::Float(f) => r matches Ok(Num::Float(g)) && g == f,
            Val::Bool(b) => r matches Ok(Num::Bool(c)) && c == b,
            _ => r matches Err(Stop::Error(m)) && m@ == "expected number"@,
        },
{
    match v {
        Val::Int(i) => Ok(Num::Int(*i)),
        Val::Float(f) => Ok(Num::Float(*f)),
        Val::Bool(b) => Ok(Num::Bool(*b)),
        _ => Err(error("expected number")),
    }
}

/// The printed form of a value.
pub fn show<H: Host>(h: &mut H, v: &Val) -> (s: String)
    ensures
        v is Int ==> s@ == crate::value::show(Value::Int(v->Int_0)),
        v is Str ==> s@ == v->Str_0@,
{
    match v {
        Val::NoneVal => display(&Value::NoneVal),
        Val::Bool(b) => display(&Value::Bool(*b)),
        Val::Int(i) => display(&Value::Int(*i)),
        Val::Float(f) => h.float_text(*f),
        Val::Str(s) => display(&Value::Str(s.clone())),
        Val::List(_) => String::from_str("<list>"),
        Val::Sys(_) => String::from_str("<sys>"),
        Val::Function(_) => String::from_str("<function>"),
        Val::Builtin(n) => {
            let mut s = String::from_str("<builtin-function ");
            s.append(n.as_str());
            s.append(">");
            s
        },
    }
}

/// Whether `a` comes before `b` in the order of their characters' codes,
/// a proper prefix first.
pub open spec fn text_less(a: Seq<char>, b: Seq<char>) -> bool
    decreases a.len(),
{
    if b.len() == 0 {
        false
    } else if a.len() == 0 {
        true
    } else if a[0] != b[0] {
        (a[0] as u32) < (b[0] as u32)
    } else {
        text_less(a.drop_first(), b.drop_first())
    }
}

/// `a < b` on two texts (see `text_less`).
pub fn str_less(a: &str, b: &str) -> (r: bool)
    ensures
        r == text_less(a@, b@),
{
    let x = chars_of(a);
    let y = chars_of(b);
    let mut i: usize = 0;
    assert(x@.subrange(0, x@.len() as int) =~= x@);
    assert(y@.subrange(0, y@.len() as int) =~= y@);
    while i < x.len() && i < y.len() && x[i] == y[i]
        invariant
            i <= x@.len(),
            i <= y@.len(),
            x@ == a@,
            y@ == b@,
            x@.subrange(0, i as int) == y@.subrange(0, i as int),
            text_less(a@, b@) == text_less(x@.subrange(i as int, x@.len() as int), y@.subrange(i as int, y@.len() as int)),
        decreases x@.len() - i,
    {
        proof {
            let xs = x@.subrange(i as int, x@.len() as int);
            let ys = y@.subrange(i as int, y@.len() as int);
            assert(xs.drop_first() =~= x@.subrange(i + 1, x@.len() as int));
            assert(ys.drop_first() =~= y@.subrange(i + 1, y@.len() as int));
            assert(x@.subrange(0, i + 1) =~= x@.subrange(0, i as int).push(x@[i as int]));
            assert(y@.subrange(0, i + 1) =~= y@.subrange(0, i as int).push(y@[i as int]));
        }
        i = i + 1;
    }
    proof {
        let xs = x@.subrange(i as int, x@.len() as int);
        let ys = y@.subrange(i as int, y@.len() as int);
        if i < x@.len() && i < y@.len() {
            assert(xs[0] == x@[i as int]);
            assert(ys[0] == y@[i as int]);
        }
    }
    if i >= y.len() {
        false
    } else if i >= x.len() {
        true
    } else {
        (x[i] as u32) < (y[i] as u32)
    }
}

/// What `binop` gives on `l op r`.
pub open spec fn bin_post(op: Op, l: Val, r: Val, res: Result<Val, Stop>) -> bool {
    &&& ((op == Op::Add && l is Str && r is Str) ==> (res matches Ok(Val::Str(s)) && s@ == l->Str_0@ + r->Str_0@))
    &&& ((l is Int && r is Int && (op == Op::Add || op == Op::Sub || op == Op::Mul)) ==> match res {
        Ok(Val::Int(x)) => x == (if op == Op::Add {
            l->Int_0 + r->Int_0
        } else if op == Op::Sub {
            l->Int_0 - r->Int_0
        } else {
            l->Int_0 * r->Int_0
        }),
        Err(Stop::Panic(_)) => !(i64::MIN <= (if op == Op::Add {
            l->Int_0 + r->Int_0
        } else if op == Op::Sub {
            l->Int_0 - r->Int_0
        } else {
            l->Int_0 * r->Int_0
        }) <= i64::MAX),
        _ => false,
    })
    &&& ((l is Int && r is Int && op == Op::Mod && r->Int_0 == 0) ==> res matches Err(Stop::Panic(_)))
}

/// `a op b` for an arithmetic operator: strings join under `+`; two integers
/// stay integers under `+ - * %` (a result outside 64 bits, or `%` by zero,
/// stops the program) and divide as floats under `/`; anything else is
/// computed on floats by the host.
pub fn binop<H: Host>(h: &mut H, op: Op, l: &Val, r: &Val) -> (res: Result<Val, Stop>)
    ensures
        bin_post(op, *l, *r, res),
{
    if op == Op::Add {
        match (l, r) {
            (Val::Str(a), Val::Str(b)) => {
                let mut s = a.clone();
                s.append(b.as_str());
                return Ok(Val::Str(s));
            },
            _ => {},
        }
    }
    match (l, r) {
        (Val::Int(a), Val::Int(b)) => {
            let (a, b) = (*a, *b);
            if op == Op::Div {
                return Ok(Val::Float(h.float_arith(Op::Div, Num::Int(a), Num::Int(b))));
            }
            if op == Op::Mod && b == 0 {
                return Err(Stop::Panic(String::from_str("attempt to calculate the remainder with a divisor of zero")));
            }
            if !(op == Op::Add || op == Op::Sub || op == Op::Mul || op == Op::Mod) {
                return Err(error("unsupported binop"));
            }
            return match int_binop(op, a, b) {
                Ok(IntOut::Int(x)) => Ok(Val::Int(x)),
                Ok(IntOut::Overflow) => Err(Stop::Panic(String::from_str(crate::basic::overflow_text(op)))),
                _ => Err(error("unsupported binop")),
            };
        },
        _ => {},
    }
    let a = as_num(l)?;
    let b = as_num(r)?;
    if op == Op::Mod {
        let fa = h.to_float(a);
        let fb = h.to_float(b);
        let x = h.float_to_int(fa);
        let y = h.float_to_int(fb);
        if y == 0 {
            return Err(Stop::Panic(String::from_str("attempt to calculate the remainder with a divisor of zero")));
        }
        return match int_binop(Op::Mod, x, y) {
            Ok(IntOut::Int(v)) => Ok(Val::Float(h.to_float(Num::Int(v)))),
            _ => Err(Stop::Panic(String::from_str(crate::basic::overflow_text(Op::Mod)))),
        };
    }
    if op == Op::Add || op == Op::Sub || op == Op::Mul || op == Op::Div {
        Ok(Val::Float(h.float_arith(op, a, b)))
    } else {
        Err(error("unsupported binop"))
    }
}

/// What `compare` gives on `l op r`.
pub open spec fn compare_post(op: Op, l: Val, r: Val, res: Result<Val, Stop>) -> bool {
    &&& ((l is Str && r is Str) ==> (res matches Ok(Val::Bool(b)) && b == ({
        let (a, c) = (l->Str_0@, r->Str_0@);
        if op == Op::Eq {
            a == c
        } else if op == Op::Ne {
            a != c
        } else if op == Op::Lt {
            text_less(a, c)
        } else if op == Op::Le {
            !text_less(c, a)
        } else if op == Op::Gt {
            text_less(c, a)
        } else if op == Op::Ge {
            !text_less(a, c)
        } else {
            false
        }
    })))
}

/// `a op b` for a comparison operator: strings compare by their characters'
/// codes; anything else as floats (by the host).
pub fn compare<H: Host>(h: &mut H, op: Op, l: &Val, r: &Val) -> (res: Result<Val, Stop>)
    ensures
        compare_post(op, *l, *r, res),
{
    match (l, r) {
        (Val::Str(a), Val::Str(b)) => {
            let v = if op == Op::Eq {
                str_eq(a.as_str(), b.as_str())
            } else if op == Op::Ne {
                !str_eq(a.as_str(), b.as_str())
            } else if op == Op::Lt {
                str_less(a.as_str(), b.as_str())
            } else if op == Op::Le {
                !str_less(b.as_str(), a.as_str())
            } else if op == Op::Gt {
                str_less(b.as_str(), a.as_str())
            } else if op == Op::Ge {
                !str_less(a.as_str(), b.as_str())
            } else {
                false
            };
            return Ok(Val::Bool(v));
        },
        _ => {},
    }
    let a = as_num(l)?;
    let b = as_num(r)?;
    let v = if op == Op::Eq || op == Op::Ne || op == Op::Lt || op == Op::Le || op == Op::Gt || op == Op::Ge {
        h.float_compare(op, a, b)
    } else {
        false
    };
    Ok(Val::Bool(v))
}

/// What `subscript` gives on `obj[idx]`.
pub open spec fn sub_post(st: Store, obj: Val, idx: Val, r: Result<Val, Stop>) -> bool {
    &&& ((obj is List && obj->List_0 < st.lists@.len() && idx is Int) ==> ({
        let items = st.lists@[obj->List_0 as int]@;
        let i = idx->Int_0;
        if 0 <= i < items.len() {
            r == Ok::<Val, Stop>(items[i as int])
        } else {
            r matches Err(Stop::Error(m)) && m@ == "list index out of range"@
        }
    }))
    &&& (!(idx is Int) ==> (r matches Err(Stop::Error(m)) && m@ == "subscript index must be int"@))
}

/// `obj[idx]`: an item of a list or a character of a string (an index
/// counts bytes of the string, as the original's bound check does).
pub fn subscript(st: &Store, obj: &Val, idx: &Val) -> (r: Result<Val, Stop>)
    ensures
        sub_post(*st, *obj, *idx, r),
{
    let i = match idx {
        Val::Int(i) => *i,
        _ => {
            return Err(error("subscript index must be int"));
        },
    };
    match obj {
        Val::List(l) => {
            if *l >= st.lists.len() {
                return Err(error("unsupported subscript target"));
            }
            match seq_index(i, st.lists[*l].len()) {
                Some(k) => Ok(st.lists[*l][k].duplicate()),
                None => Err(error("list index out of range")),
            }
        },
        Val::Str(s) => match seq_index(i, s.as_str().len()) {
            Some(k) => {
                let cs = chars_of(s.as_str());
                if k < cs.len() {
                    let one: Vec<char> = vec![cs[k]];
                    Ok(Val::Str(string_from_chars(one.as_slice())))
                } else {
                    Err(Stop::Panic(String::from_str("called `Option::unwrap()` on a `None` value")))
                }
            },
            None => Err(error("string index out of range")),
        },
        _ => Err(error("unsupported subscript target")),
    }
}

/// The error for a call with the wrong number of arguments.
fn arity_text(name: &str, want: usize, got: usize) -> (s: String) {
    let mut out: Vec<char> = chars_of(name);
    let a = chars_of("() expected ");
    append_chars(&mut out, a.as_slice());
    push_decimal(&mut out, want as u64);
    let b = chars_of(" arguments, got ");
    append_chars(&mut out, b.as_slice());
    push_decimal(&mut out, got as u64);
    string_from_chars(out.as_slice())
}

/// A copy of a list of values.
fn copy_vals(src: &Vec<Val>) -> (out: Vec<Val>)
    ensures
        out@ == src@,
{
    let mut out: Vec<Val> = Vec::new();
    let mut k: usize = 0;
    while k < src.len()
        invariant
            k <= src@.len(),
            out@ == src@.take(k as int),
        decreases src@.len() - k,
    {
        out.push(src[k].duplicate());
        k = k + 1;
        assert(out@ =~= src@.take(k as int));
    }
    assert(src@.take(src@.len() as int) =~= src@);
    out
}

/// A trigger for the store and result between two steps of an evaluation.
pub open spec fn step(s: Store, r: Result<Val, Stop>) -> bool {
    true
}

/// A trigger for the store and results between two steps of an evaluation.
pub open spec fn steps(s: Store, r: Result<Seq<Val>, Stop>) -> bool {
    true
}

/// A trigger for the store and outcome between two statements.
pub open spec fn stepb(s: Store, r: Result<Status<Val>, Stop>) -> bool {
    true
}

/// A result whose value is a sequence of values, as a `Seq`.
pub open spec fn seq_res(r: Result<Vec<Val>, Stop>) -> Result<Seq<Val>, Stop> {
    match r {
        Ok(v) => Ok(v@),
        Err(f) => Err(f),
    }
}

/// What evaluating the expressions `items` in order, each at `depth - 1`,
/// gives from store `pre` in scope `env`, and the store `post` it leaves:
/// their values, or the first error.
pub open spec fn items_sem(depth: u64, pre: Store, post: Store, env: usize, items: Items<Expr>, r: Result<Seq<Val>, Stop>) -> bool
    decreases depth,
{
    if depth == 0 {
        (r matches Err(Stop::Panic(_))) && post == pre
    } else {
        match items {
            Items::Nil => r == Ok::<Seq<Val>, Stop>(seq![]) && post == pre,
            Items::Cons(x, t) => match r {
                Err(f) => expr_sem(dec(depth), pre, post, env, *x, Err::<Val, Stop>(f)) || exists|mid: Store, a: Val|
                    #![trigger step(mid, Ok::<Val, Stop>(a))]
                    expr_sem(dec(depth), pre, mid, env, *x, Ok::<Val, Stop>(a)) && items_sem(
                        dec(depth),
                        mid,
                        post,
                        env,
                        *t,
                        Err::<Seq<Val>, Stop>(f),
                    ),
                Ok(vs) => vs.len() > 0 && exists|mid: Store|
                    #![trigger step(mid, Ok::<Val, Stop>(vs[0]))]
                    expr_sem(dec(depth), pre, mid, env, *x, Ok::<Val, Stop>(vs[0])) && items_sem(
                        dec(depth),
                        mid,
                        post,
                        env,
                        *t,
                        Ok::<Seq<Val>, Stop>(vs.drop_first()),
                    ),
            },
        }
    }
}

/// What a call gives once the function's body ran with outcome `rb`: the
/// returned value, `None` where the body ended otherwise, or the error.
pub open spec fn returned(rb: Result<Status<Val>, Stop>) -> Result<Val, Stop> {
    match rb {
        Ok(Status::Return(v)) => Ok(v),
        Ok(_) => Ok(Val::NoneVal),
        Err(f) => Err(f),
    }
}

/// The error with message `m`.
pub open spec fn fails(r: Result<Val, Stop>, m: Seq<char>) -> bool {
    r matches Err(Stop::Error(x)) && x@ == m
}

/// What the built-in `n` gives on `args` at `depth` from store `pre`, as far
/// as it does not come from the host (printing, floats, files): `len`,
/// `int`, `bool`, `__import__` of `sys`, the errors of each, and `run_path`,
/// which gives `sys.argv` back as it found it once the script has run.
pub open spec fn builtin_sem(depth: u64, pre: Store, post: Store, n: Seq<char>, args: Seq<Val>, r: Result<Val, Stop>) -> bool {
    if depth == 0 {
        (r matches Err(Stop::Panic(_))) && post == pre
    } else if n == "print"@ {
        r == Ok::<Val, Stop>(Val::NoneVal) && post == pre
    } else if n == "len"@ {
        len_post(pre, args, r) && post == pre
    } else if n == "int"@ {
        post == pre && if args.len() != 1 {
            fails(r, "int() expects 1 argument"@)
        } else {
            match args[0] {
                Val::Int(i) => r == Ok::<Val, Stop>(Val::Int(i)),
                Val::Float(_) => r matches Ok(Val::Int(_)),
                Val::Bool(b) => r == Ok::<Val, Stop>(Val::Int(if b { 1 } else { 0 })),
                _ => fails(r, "int() unsupported for this type"@),
            }
        }
    } else if n == "float"@ {
        post == pre && (args.len() != 1 ==> fails(r, "float() expects 1 argument"@))
    } else if n == "str"@ {
        post == pre && if args.len() != 1 {
            fails(r, "str() expects 1 argument"@)
        } else {
            r matches Ok(Val::Str(_))
        }
    } else if n == "bool"@ {
        post == pre && if args.len() != 1 {
            fails(r, "bool() expects 1 argument"@)
        } else {
            r == Ok::<Val, Stop>(Val::Bool(truthy_spec(&pre, &args[0])))
        }
    } else if n == "__import__"@ {
        post == pre && if args.len() != 1 || !(args[0] is Str) {
            fails(r, "__import__() expects one string argument"@)
        } else if args[0]->Str_0@ == "sys"@ && (pre.scopes.lookup(pre.globals as int, "sys"@) matches Some(Val::Sys(l))) {
            r == Ok::<Val, Stop>(pre.scopes.lookup(pre.globals as int, "sys"@)->Some_0)
        } else {
            fails(r, "unsupported import: "@ + args[0]->Str_0@)
        }
    } else if n == "run_path"@ {
        if args.len() != 1 || !(args[0] is Str) {
            fails(r, "run_path() expects one string argument"@) && post == pre
        } else {
            (r is Ok ==> r == Ok::<Val, Stop>(Val::NoneVal)) && (r is Ok && (pre.scopes.lookup(pre.globals as int, "sys"@) matches Some(Val::Sys(l)))
                && pre.scopes.lookup(pre.globals as int, "sys"@)->Some_0->Sys_0 < pre.lists@.len()
                && pre.scopes.lookup(pre.globals as int, "sys"@)->Some_0->Sys_0 < post.lists@.len() ==> post.lists@[pre.scopes.lookup(pre.globals as int, "sys"@)->Some_0->Sys_0 as int]@ == pre.lists@[pre.scopes.lookup(pre.globals as int, "sys"@)->Some_0->Sys_0 as int]@)
        }
    } else {
        fails(r, "object is not callable"@) && post == pre
    }
}

/// The variables `vars` bind each parameter name to the argument at its
/// position (a name given twice to the one given last), and nothing else.
pub open spec fn binds_params(vars: Map<Seq<char>, Val>, params: Seq<String>, args: Seq<Val>) -> bool {
    &&& forall|i: int|
        #![trigger params[i]]
        0 <= i < params.len() && 0 <= i < args.len() && (forall|j: int| i < j < params.len() ==> params[j]@ != params[i]@)
            ==> vars.dom().contains(params[i]@) && vars[params[i]@] == args[i]
    &&& forall|k: Seq<char>| vars.dom().contains(k) ==> exists|i: int| 0 <= i < params.len() && #[trigger] params[i]@ == k
}

/// What calling `f` on `args` at `depth` gives from store `pre`: a built-in
/// (`builtin_sem`), a function made by `def` (its body, run at `depth - 1` in
/// a new scope nested in the one it was made in, with one argument per
/// parameter), or the error for anything else.
pub open spec fn call_sem(depth: u64, pre: Store, post: Store, f: Val, args: Seq<Val>, r: Result<Val, Stop>) -> bool
    decreases depth,
{
    if depth == 0 {
        (r matches Err(Stop::Panic(_))) && post == pre
    } else {
        match f {
            Val::Builtin(n) => builtin_sem(dec(depth), pre, post, n@, args, r),
            Val::Function(fi) => if fi >= pre.funcs@.len() {
                fails(r, "object is not callable"@) && post == pre
            } else if args.len() != pre.funcs@[fi as int].params@.len() {
                (r matches Err(Stop::Error(_))) && post == pre
            } else if pre.funcs@[fi as int].closure >= pre.scopes.count() {
                fails(r, "object is not callable"@) && post == pre
            } else {
                exists|mid: Store, rb: Result<Status<Val>, Stop>|
                    #![trigger stepb(mid, rb)]
                    mid.scopes.count() == pre.scopes.count() + 1 && mid.scopes.parent_of(pre.scopes.count() as int)
                        == Some(pre.funcs@[fi as int].closure) && binds_params(
                        mid.scopes.vars_of(pre.scopes.count() as int),
                        pre.funcs@[fi as int].params@,
                        args,
                    ) && block_sem(
                        dec(depth),
                        mid,
                        post,
                        pre.scopes.count() as usize,
                        pre.funcs@[fi as int].body,
                        rb,
                    ) && r == returned(rb)
            },
            _ => fails(r, "object is not callable"@) && post == pre,
        }
    }
}

/// Calling a function made by `def` with one argument per parameter runs its
/// body in a new scope, nested in the one the function was made in, where
/// each parameter name reads as the argument at its position; the call gives
/// what the body returned.
pub proof fn law_call_binds_arguments(depth: u64, pre: Store, post: Store, fi: usize, args: Seq<Val>, r: Result<Val, Stop>)
    requires
        depth > 0,
        fi < pre.funcs@.len(),
        args.len() == pre.funcs@[fi as int].params@.len(),
        pre.funcs@[fi as int].closure < pre.scopes.count(),
        call_sem(depth, pre, post, Val::Function(fi), args, r),
    ensures
        exists|mid: Store, rb: Result<Status<Val>, Stop>|
            #![trigger stepb(mid, rb)]
            {
                let ps = pre.funcs@[fi as int].params@;
                let local = pre.scopes.count() as int;
                &&& mid.scopes.parent_of(local) == Some(pre.funcs@[fi as int].closure)
                &&& forall|i: int|
                    #![trigger ps[i]]
                    0 <= i < ps.len() && (forall|j: int| i < j < ps.len() ==> ps[j]@ != ps[i]@) ==> mid.scopes.lookup(local, ps[i]@)
                        == Some(args[i])
                &&& block_sem(dec(depth), mid, post, local as usize, pre.funcs@[fi as int].body, rb)
                &&& r == returned(rb)
            },
{
    let (mid, rb) = choose|mid: Store, rb: Result<Status<Val>, Stop>|
        mid.scopes.count() == pre.scopes.count() + 1 && mid.scopes.parent_of(pre.scopes.count() as int) == Some(
            pre.funcs@[fi as int].closure,
        ) && binds_params(mid.scopes.vars_of(pre.scopes.count() as int), pre.funcs@[fi as int].params@, args) && block_sem(
            dec(depth),
            mid,
            post,
            pre.scopes.count() as usize,
            pre.funcs@[fi as int].body,
            rb,
        ) && r == returned(rb);
    let ps = pre.funcs@[fi as int].params@;
    let local = pre.scopes.count() as int;
    assert forall|i: int|
        #![trigger ps[i]]
        0 <= i < ps.len() && (forall|j: int| i < j < ps.len() ==> ps[j]@ != ps[i]@) implies mid.scopes.lookup(local, ps[i]@)
            == Some(args[i]) by {
        assert(mid.scopes.vars_of(local).dom().contains(ps[i]@));
    }
    assert(stepb(mid, rb));
}

/// What evaluating `e` at `depth` in scope `env` gives from store `pre`, and
/// the store `post` it leaves. Each part is evaluated at `depth - 1`, left to
/// right, and the first error is the result; the last step is the function
/// named after the form (`bin_post`, `compare_post`, `sub_post`, `call_sem`).
pub open spec fn expr_sem(depth: u64, pre: Store, post: Store, env: usize, e: Expr, r: Result<Val, Stop>) -> bool
    decreases depth,
{
    if depth == 0 {
        (r matches Err(Stop::Panic(_))) && post == pre
    } else {
        match e {
            Expr::Name(n) => post == pre && match pre.scopes.lookup(env as int, n@) {
                Some(v) => r == Ok::<Val, Stop>(v),
                None => fails(r, "name '"@ + n@ + "' is not defined"@),
            },
            Expr::Int(i) => r == Ok::<Val, Stop>(Val::Int(i)) && post == pre,
            Expr::Float(_) => (r matches Ok(Val::Float(_))) && post == pre,
            Expr::Str(s) => (r matches Ok(Val::Str(t)) && t@ == s@) && post == pre,
            Expr::BinOp(op, l, x) => exists|mid: Store, ra: Result<Val, Stop>|
                #![trigger step(mid, ra)]
                expr_sem(dec(depth), pre, mid, env, *l, ra) && match ra {
                    Err(f) => r == Err::<Val, Stop>(f) && post == mid,
                    Ok(a) => exists|mid2: Store, rb: Result<Val, Stop>|
                        #![trigger step(mid2, rb)]
                        expr_sem(dec(depth), mid, mid2, env, *x, rb) && post == mid2 && match rb {
                            Err(f) => r == Err::<Val, Stop>(f),
                            Ok(b) => bin_post(op, a, b, r),
                        },
                },
            Expr::UnaryOp(op, x) => exists|mid: Store, ra: Result<Val, Stop>|
                #![trigger step(mid, ra)]
                expr_sem(dec(depth), pre, mid, env, *x, ra) && post == mid && match ra {
                    Err(f) => r == Err::<Val, Stop>(f),
                    Ok(v) => if op != Op::Neg {
                        fails(r, "unsupported unary operator"@)
                    } else {
                        match v {
                            Val::Int(i) => if i == i64::MIN {
                                r matches Err(Stop::Panic(_))
                            } else {
                                r == Ok::<Val, Stop>(Val::Int((-i) as i64))
                            },
                            _ => !(r matches Ok(w) && !(w is Float)),
                        }
                    },
                },
            Expr::Compare(op, l, x) => exists|mid: Store, ra: Result<Val, Stop>|
                #![trigger step(mid, ra)]
                expr_sem(dec(depth), pre, mid, env, *l, ra) && match ra {
                    Err(f) => r == Err::<Val, Stop>(f) && post == mid,
                    Ok(a) => exists|mid2: Store, rb: Result<Val, Stop>|
                        #![trigger step(mid2, rb)]
                        expr_sem(dec(depth), mid, mid2, env, *x, rb) && post == mid2 && match rb {
                            Err(f) => r == Err::<Val, Stop>(f),
                            Ok(b) => compare_post(op, a, b, r),
                        },
                },
            Expr::Call(f, args, _) => exists|mid: Store, rf: Result<Val, Stop>|
                #![trigger step(mid, rf)]
                expr_sem(dec(depth), pre, mid, env, *f, rf) && match rf {
                    Err(x) => r == Err::<Val, Stop>(x) && post == mid,
                    Ok(fv) => exists|mid2: Store, ra: Result<Seq<Val>, Stop>|
                        #![trigger steps(mid2, ra)]
                        items_sem(dec(depth), mid, mid2, env, args, ra) && match ra {
                            Err(x) => r == Err::<Val, Stop>(x) && post == mid2,
                            Ok(av) => call_sem(dec(depth), mid2, post, fv, av, r),
                        },
                },
            Expr::Attribute(x, attr) => exists|mid: Store, ra: Result<Val, Stop>|
                #![trigger step(mid, ra)]
                expr_sem(dec(depth), pre, mid, env, *x, ra) && post == mid && match ra {
                    Err(f) => r == Err::<Val, Stop>(f),
                    Ok(o) => if (o is Sys && attr@ == "argv"@) {
                        r == Ok::<Val, Stop>(Val::List(o->Sys_0))
                    } else {
                        fails(r, "unsupported attribute access: "@ + attr@)
                    },
                },
            Expr::Subscript(x, i) => exists|mid: Store, ra: Result<Val, Stop>|
                #![trigger step(mid, ra)]
                expr_sem(dec(depth), pre, mid, env, *x, ra) && match ra {
                    Err(f) => r == Err::<Val, Stop>(f) && post == mid,
                    Ok(o) => exists|mid2: Store, rb: Result<Val, Stop>|
                        #![trigger step(mid2, rb)]
                        expr_sem(dec(depth), mid, mid2, env, *i, rb) && post == mid2 && match rb {
                            Err(f) => r == Err::<Val, Stop>(f),
                            Ok(iv) => sub_post(mid2, o, iv, r),
                        },
                },
            _ => fails(r, "unsupported expression"@) && post == pre,
        }
    }
}

/// What running the statements `stmts` in order at `depth` in scope `env`
/// gives from store `pre`, and the store `post` it leaves: each statement
/// runs at `depth - 1`, and the block stops at the first one that does not
/// end normally, with its outcome.
pub open spec fn block_sem(depth: u64, pre: Store, post: Store, env: usize, stmts: Items<Stmt>, r: Result<Status<Val>, Stop>) -> bool
    decreases depth,
{
    if depth == 0 {
        (r matches Err(Stop::Panic(_))) && post == pre
    } else {
        match stmts {
            Items::Nil => r == Ok::<Status<Val>, Stop>(Status::Normal) && post == pre,
            Items::Cons(s, t) => (!(r matches Ok(Status::Normal)) && stmt_sem(dec(depth), pre, post, env, *s, r))
                || exists|mid: Store|
                #![trigger stepb(mid, Ok::<Status<Val>, Stop>(Status::Normal))]
                stmt_sem(dec(depth), pre, mid, env, *s, Ok::<Status<Val>, Stop>(Status::Normal)) && block_sem(
                    dec(depth),
                    mid,
                    post,
                    env,
                    *t,
                    r,
                ),
        }
    }
}

/// What `while c: b` gives from store `pre` with at most `n` more runs of
/// its body allowed, each part at `depth - 1`: `c` is evaluated first, and
/// where it is false the loop ends normally with the store that evaluating
/// it left; otherwise the body runs, and the loop ends on an error or a
/// `return`, or starts again, as `if c: (b; while c: b)`. With no run left,
/// the loop stops as the program does.
pub open spec fn while_run(
    depth: u64,
    n: nat,
    pre: Store,
    post: Store,
    env: usize,
    c: Expr,
    b: Items<Stmt>,
    r: Result<Status<Val>, Stop>,
) -> bool
    decreases depth, n,
{
    if depth == 0 {
        (r matches Err(Stop::Panic(_))) && post == pre
    } else {
        exists|mid: Store, ra: Result<Val, Stop>|
            #![trigger step(mid, ra)]
            expr_sem(dec(depth), pre, mid, env, c, ra) && match ra {
                Err(f) => r == Err::<Status<Val>, Stop>(f) && post == mid,
                Ok(v) => if !truthy_spec(&mid, &v) {
                    r == Ok::<Status<Val>, Stop>(Status::Normal) && post == mid
                } else {
                    exists|mid2: Store, rb: Result<Status<Val>, Stop>|
                        #![trigger stepb(mid2, rb)]
                        block_sem(dec(depth), mid, mid2, env, b, rb) && match rb {
                            Err(f) => r == Err::<Status<Val>, Stop>(f) && post == mid2,
                            Ok(Status::Return(x)) => r == Ok::<Status<Val>, Stop>(Status::Return(x)) && post == mid2,
                            Ok(_) => if n == 0 {
                                (r matches Err(Stop::Panic(_))) && post == mid2
                            } else {
                                while_run(depth, (n - 1) as nat, mid2, post, env, c, b, r)
                            },
                        }
                },
            }
    }
}

/// `while c: b` whose condition is false from the store it starts in ends
/// normally, without running its body, with the store that evaluating the
/// condition left.
pub proof fn law_while_false_condition(
    depth: u64,
    pre: Store,
    mid: Store,
    env: usize,
    c: Expr,
    b: Items<Stmt>,
    v: Val,
)
    requires
        depth > 1,
        expr_sem(dec(dec(depth)), pre, mid, env, c, Ok::<Val, Stop>(v)),
        !truthy_spec(&mid, &v),
    ensures
        stmt_sem(depth, pre, mid, env, Stmt::While(c, b), Ok::<Status<Val>, Stop>(Status::Normal)),
{
    assert(step(mid, Ok::<Val, Stop>(v)));
}

/// The names of a list of parameters, in order.
pub open spec fn param_texts(ps: Items<crate::ast::Param>) -> Seq<Seq<char>> {
    ps.to_seq().map_values(|p: crate::ast::Param| p.name@)
}

/// `post` is `pre` with a new function named `n`, with the parameters `ps`
/// and the body `body`, made in scope `env` and bound to `n` there.
pub open spec fn defines(pre: Store, post: Store, env: usize, n: Seq<char>, ps: Items<crate::ast::Param>, body: Items<Stmt>) -> bool {
    let i = pre.funcs@.len();
    &&& post.lists == pre.lists && post.globals == pre.globals
    &&& post.funcs@.len() == i + 1 && post.funcs@.subrange(0, i as int) == pre.funcs@
    &&& post.funcs@[i as int].name@ == n && crate::call::names(post.funcs@[i as int].params@) == param_texts(ps)
    &&& post.funcs@[i as int].body == body && post.funcs@[i as int].closure == env
    &&& post.scopes.count() == pre.scopes.count()
    &&& post.scopes.vars_of(env as int) == pre.scopes.vars_of(env as int).insert(n, Val::Function(i as usize))
    &&& forall|j: int| 0 <= j < pre.scopes.count() && j != env ==> #[trigger] post.scopes.vars_of(j) == pre.scopes.vars_of(j)
    &&& forall|j: int| 0 <= j < pre.scopes.count() ==> #[trigger] post.scopes.parent_of(j) == pre.scopes.parent_of(j)
}

/// What running the statement `s` at `depth` in scope `env` gives from store
/// `pre`, and the store `post` it leaves. Its expressions are evaluated and
/// its blocks run at `depth - 1`; `while` is `while_run`.
pub open spec fn stmt_sem(depth: u64, pre: Store, post: Store, env: usize, s: Stmt, r: Result<Status<Val>, Stop>) -> bool
    decreases depth,
{
    if depth == 0 {
        (r matches Err(Stop::Panic(_))) && post == pre
    } else {
        match s {
            Stmt::Expr(x) => exists|mid: Store, ra: Result<Val, Stop>|
                #![trigger step(mid, ra)]
                expr_sem(dec(depth), pre, mid, env, x, ra) && post == mid && match ra {
                    Err(f) => r == Err::<Status<Val>, Stop>(f),
                    Ok(_) => r == Ok::<Status<Val>, Stop>(Status::Normal),
                },
            Stmt::Assign(Expr::Name(_), x) => exists|mid: Store, ra: Result<Val, Stop>|
                #![trigger step(mid, ra)]
                expr_sem(dec(depth), pre, mid, env, x, ra) && match ra {
                    Err(f) => r == Err::<Status<Val>, Stop>(f) && post == mid,
                    Ok(_) => r == Ok::<Status<Val>, Stop>(Status::Normal),
                },
            Stmt::If(c, b, o) => exists|mid: Store, ra: Result<Val, Stop>|
                #![trigger step(mid, ra)]
                expr_sem(dec(depth), pre, mid, env, c, ra) && match ra {
                    Err(f) => r == Err::<Status<Val>, Stop>(f) && post == mid,
                    Ok(v) => if truthy_spec(&mid, &v) {
                        block_sem(dec(depth), mid, post, env, b, r)
                    } else {
                        block_sem(dec(depth), mid, post, env, o, r)
                    },
                },
            Stmt::While(c, b) => if dec(depth) == 0 {
                (r matches Err(Stop::Panic(_))) && post == pre
            } else {
                while_run(dec(depth), u64::MAX as nat, pre, post, env, c, b, r)
            },
            Stmt::FunctionDef(n, ps, _, _, body) => r == Ok::<Status<Val>, Stop>(Status::Normal) && defines(
                pre,
                post,
                env,
                n@,
                ps,
                body,
            ),
            Stmt::Return(None) => r == Ok::<Status<Val>, Stop>(Status::Return(Val::NoneVal)) && post == pre,
            Stmt::Return(Some(x)) => exists|mid: Store, ra: Result<Val, Stop>|
                #![trigger step(mid, ra)]
                expr_sem(dec(depth), pre, mid, env, x, ra) && post == mid && match ra {
                    Err(f) => r == Err::<Status<Val>, Stop>(f),
                    Ok(v) => r == Ok::<Status<Val>, Stop>(Status::Return(v)),
                },
            Stmt::Pass => r == Ok::<Status<Val>, Stop>(Status::Normal) && post == pre,
            _ => fails_s(r, "unsupported statement"@) && post == pre,
        }
    }
}

/// The error with message `m`, as the outcome of a statement.
pub open spec fn fails_s(r: Result<Status<Val>, Stop>, m: Seq<char>) -> bool {
    r matches Err(Stop::Error(x)) && x@ == m
}

/// Evaluates `items` in order (see `items_sem`).
fn eval_items<H: Host>(h: &mut H, st: &mut Store, env: usize, items: &Items<Expr>, depth: u64) -> (r: Result<Vec<Val>, Stop>)
    requires
        old(st).wf(),
        env < old(st).scopes.count(),
    ensures
        final(st).wf(),
        old(st).scopes.count() <= final(st).scopes.count(),
        items_sem(depth, *old(st), *final(st), env, *items, seq_res(r)),
    decreases depth,
{
    if depth == 0 {
        return Err(too_deep());
    }
    match items {
        Items::Nil => Ok(Vec::new()),
        Items::Cons(x, t) => {
            let a = match eval_expr(h, st, env, x, depth - 1) {
                Ok(a) => a,
                Err(f) => {
                    return Err(f);
                },
            };
            let ghost s1 = *st;
            let mut rest = match eval_items(h, st, env, t, depth - 1) {
                Ok(v) => v,
                Err(f) => {
                    proof {
                        assert(step(s1, Ok::<Val, Stop>(a)));
                    }
                    return Err(f);
                },
            };
            let ghost rv = rest@;
            let mut out: Vec<Val> = Vec::new();
            out.push(a);
            out.append(&mut rest);
            proof {
                let w = seq![a] + rv;
                assert(out@ =~= w);
                assert(w.len() > 0 && w[0] == a);
                assert(w.drop_first() =~= rv);
                assert(step(s1, Ok::<Val, Stop>(w[0])));
            }
            Ok(out)
        },
    }
}

/// Evaluates `e` in scope `env`: names, numbers and strings, arithmetic
/// (`binop`), `-`, comparisons (`compare`), calls (`call_function`),
/// `sys.argv` and subscripts (`subscript`); any other form is an error.
#[verifier::loop_isolation(false)]
pub fn eval_expr<H: Host>(h: &mut H, st: &mut Store, env: usize, e: &Expr, depth: u64) -> (r: Result<Val, Stop>)
    requires
        old(st).wf(),
        env < old(st).scopes.count(),
    ensures
        final(st).wf(),
        old(st).scopes.count() <= final(st).scopes.count(),
        expr_sem(depth, *old(st), *final(st), env, *e, r),
    decreases depth,
{
    if depth == 0 {
        return Err(too_deep());
    }
    let d = depth - 1;
    match e {
        Expr::Name(n) => lookup(st, env, n.as_str()),
        Expr::Int(i) => Ok(Val::Int(*i)),
        Expr::Float(t) => Ok(Val::Float(h.float_literal(t.as_str()))),
        Expr::Str(s) => Ok(Val::Str(s.clone())),
        Expr::BinOp(op, l, r) => {
            let a = match eval_expr(h, st, env, l, d) {
                Ok(v) => {
                    proof {
                        assert(step(*st, Ok::<Val, Stop>(v)));
                    }
                    v
                },
                Err(f) => {
                    proof {
                        assert(step(*st, Err::<Val, Stop>(f)));
                    }
                    return Err(f);
                },
            };
            let b = match eval_expr(h, st, env, r, d) {
                Ok(v) => {
                    proof {
                        assert(step(*st, Ok::<Val, Stop>(v)));
                    }
                    v
                },
                Err(f) => {
                    proof {
                        assert(step(*st, Err::<Val, Stop>(f)));
                    }
                    return Err(f);
                },
            };
            binop(h, *op, &a, &b)
        },
        Expr::UnaryOp(op, x) => {
            let v = match eval_expr(h, st, env, x, d) {
                Ok(v) => {
                    proof {
                        assert(step(*st, Ok::<Val, Stop>(v)));
                    }
                    v
                },
                Err(f) => {
                    proof {
                        assert(step(*st, Err::<Val, Stop>(f)));
                    }
                    return Err(f);
                },
            };
            if *op == Op::Neg {
                match v {
                    Val::Int(i) => {
                        if i == i64::MIN {
                            Err(Stop::Panic(String::from_str("attempt to negate with overflow")))
                        } else {
                            Ok(Val::Int(-i))
                        }
                    },
                    _ => {
                        let n = as_num(&v)?;
                        Ok(Val::Float(h.float_neg(n)))
                    },
                }
            } else {
                Err(error("unsupported unary operator"))
            }
        },
        Expr::Compare(op, l, r) => {
            let a = match eval_expr(h, st, env, l, d) {
                Ok(v) => {
                    proof {
                        assert(step(*st, Ok::<Val, Stop>(v)));
                    }
                    v
                },
                Err(f) => {
                    proof {
                        assert(step(*st, Err::<Val, Stop>(f)));
                    }
                    return Err(f);
                },
            };
            let b = match eval_expr(h, st, env, r, d) {
                Ok(v) => {
                    proof {
                        assert(step(*st, Ok::<Val, Stop>(v)));
                    }
                    v
                },
                Err(f) => {
                    proof {
                        assert(step(*st, Err::<Val, Stop>(f)));
                    }
                    return Err(f);
                },
            };
            compare(h, *op, &a, &b)
        },
        Expr::Call(f, args, _) => {
            let fv = match eval_expr(h, st, env, f, d) {
                Ok(v) => {
                    proof {
                        assert(step(*st, Ok::<Val, Stop>(v)));
                    }
                    v
                },
                Err(f) => {
                    proof {
                        assert(step(*st, Err::<Val, Stop>(f)));
                    }
                    return Err(f);
                },
            };
            let av = match eval_items(h, st, env, args, d) {
                Ok(v) => {
                    proof {
                        assert(steps(*st, Ok::<Seq<Val>, Stop>(v@)));
                    }
                    v
                },
                Err(f) => {
                    proof {
                        assert(steps(*st, Err::<Seq<Val>, Stop>(f)));
                    }
                    return Err(f);
                },
            };
            call_function(h, st, fv, av, d)
        },
        Expr::Attribute(x, attr) => {
            let v = match eval_expr(h, st, env, x, d) {
                Ok(v) => {
                    proof {
                        assert(step(*st, Ok::<Val, Stop>(v)));
                    }
                    v
                },
                Err(f) => {
                    proof {
                        assert(step(*st, Err::<Val, Stop>(f)));
                    }
                    return Err(f);
                },
            };
            match v {
                Val::Sys(l) => {
                    if str_eq(attr.as_str(), "argv") {
                        return Ok(Val::List(l));
                    }
                },
                _ => {},
            }
            Err(Stop::Error(concat2("unsupported attribute access: ", attr.as_str())))
        },
        Expr::Subscript(x, i) => {
            let v = match eval_expr(h, st, env, x, d) {
                Ok(v) => {
                    proof {
                        assert(step(*st, Ok::<Val, Stop>(v)));
                    }
                    v
                },
                Err(f) => {
                    proof {
                        assert(step(*st, Err::<Val, Stop>(f)));
                    }
                    return Err(f);
                },
            };
            let iv = match eval_expr(h, st, env, i, d) {
                Ok(v) => {
                    proof {
                        assert(step(*st, Ok::<Val, Stop>(v)));
                    }
                    v
                },
                Err(f) => {
                    proof {
                        assert(step(*st, Err::<Val, Stop>(f)));
                    }
                    return Err(f);
                },
            };
            subscript(st, &v, &iv)
        },
        _ => Err(error("unsupported expression")),
    }
}

/// Runs one statement in scope `env`: an expression, an assignment to a
/// name (its nearest binding), `if`, `while`, `def`, `return` or `pass`.
#[verifier::loop_isolation(false)]
pub fn exec_stmt<H: Host>(h: &mut H, st: &mut Store, env: usize, s: &Stmt, depth: u64) -> (r: Result<Status<Val>, Stop>)
    requires
        old(st).wf(),
        env < old(st).scopes.count(),
    ensures
        final(st).wf(),
        old(st).scopes.count() <= final(st).scopes.count(),
        stmt_sem(depth, *old(st), *final(st), env, *s, r),
    decreases depth,
{
    if depth == 0 {
        return Err(too_deep());
    }
    let d = depth - 1;
    match s {
        Stmt::Expr(x) => {
            let _v = match eval_expr(h, st, env, x, d) {
                Ok(v) => {
                    proof {
                        assert(step(*st, Ok::<Val, Stop>(v)));
                    }
                    v
                },
                Err(f) => {
                    proof {
                        assert(step(*st, Err::<Val, Stop>(f)));
                    }
                    return Err(f);
                },
            };
            Ok(Status::Normal)
        },
        Stmt::Assign(target, x) => match target {
            Expr::Name(n) => {
                let v = match eval_expr(h, st, env, x, d) {
                    Ok(v) => {
                        proof {
                            assert(step(*st, Ok::<Val, Stop>(v)));
                        }
                        v
                    },
                    Err(f) => {
                        proof {
                            assert(step(*st, Err::<Val, Stop>(f)));
                        }
                        return Err(f);
                    },
                };
                st.scopes.assign(env, n.as_str(), v);
                Ok(Status::Normal)
            },
            _ => Err(error("unsupported statement")),
        },
        Stmt::If(c, b, o) => {
            let cv = match eval_expr(h, st, env, c, d) {
                Ok(v) => {
                    proof {
                        assert(step(*st, Ok::<Val, Stop>(v)));
                    }
                    v
                },
                Err(f) => {
                    proof {
                        assert(step(*st, Err::<Val, Stop>(f)));
                    }
                    return Err(f);
                },
            };
            if truthy(st, &cv) {
                exec_block(h, st, env, b, d)
            } else {
                exec_block(h, st, env, o, d)
            }
        },
        Stmt::While(c, b) => run_while(h, st, env, c, b, d),
        Stmt::FunctionDef(n, params, _, _, body) => {
            let ps = refs(params);
            let mut names: Vec<String> = Vec::new();
            let mut k: usize = 0;
            while k < ps.len()
                invariant
                    k <= ps@.len(),
                    ps@.len() == params.to_seq().len(),
                    forall|i: int| 0 <= i < ps@.len() ==> *#[trigger] ps@[i] == params.to_seq()[i],
                    names@.len() == k,
                    forall|i: int| 0 <= i < k ==> #[trigger] names@[i]@ == params.to_seq()[i].name@,
                decreases ps@.len() - k,
            {
                names.push(ps[k].name.clone());
                k = k + 1;
            }
            proof {
                assert(crate::call::names(names@) =~= param_texts(*params));
            }
            let f = Func { name: n.clone(), params: names, body: crate::ast::dup_stmts(body), closure: env };
            let i = st.funcs.len();
            let ghost s0 = *st;
            st.funcs.push(f);
            st.scopes.set(env, n.as_str(), Val::Function(i));
            proof {
                assert(st.funcs@.subrange(0, i as int) =~= s0.funcs@);
            }
            Ok(Status::Normal)
        },
        Stmt::Return(x) => match x {
            Some(x) => {
                let v = match eval_expr(h, st, env, x, d) {
                    Ok(v) => {
                        proof {
                            assert(step(*st, Ok::<Val, Stop>(v)));
                        }
                        v
                    },
                    Err(f) => {
                        proof {
                            assert(step(*st, Err::<Val, Stop>(f)));
                        }
                        return Err(f);
                    },
                };
                Ok(Status::Return(v))
            },
            None => Ok(Status::Return(Val::NoneVal)),
        },
        Stmt::Pass => Ok(Status::Normal),
        _ => Err(error("unsupported statement")),
    }
}

/// `while c: body` (see `while_run`): the loop ends with the body's
/// `return` or error. A loop runs at most `u64::MAX` times.
fn run_while<H: Host>(
    h: &mut H,
    st: &mut Store,
    env: usize,
    c: &Expr,
    body: &Items<Stmt>,
    depth: u64,
) -> (r: Result<Status<Val>, Stop>)
    requires
        old(st).wf(),
        env < old(st).scopes.count(),
    ensures
        final(st).wf(),
        old(st).scopes.count() <= final(st).scopes.count(),
        depth == 0 ==> (r matches Err(Stop::Panic(_))) && *final(st) == *old(st),
        depth > 0 ==> while_run(depth, u64::MAX as nat, *old(st), *final(st), env, *c, *body, r),
    decreases depth,
{
    if depth == 0 {
        return Err(too_deep());
    }
    let mut spins: u64 = u64::MAX;
    loop
        invariant
            st.wf(),
            env < st.scopes.count(),
            old(st).scopes.count() <= st.scopes.count(),
            depth > 0,
            forall|post: Store, r: Result<Status<Val>, Stop>|
                #![trigger while_run(depth, spins as nat, *st, post, env, *c, *body, r)]
                while_run(depth, spins as nat, *st, post, env, *c, *body, r) ==> while_run(
                    depth,
                    u64::MAX as nat,
                    *old(st),
                    post,
                    env,
                    *c,
                    *body,
                    r,
                ),
        decreases spins,
    {
        let ghost s_it = *st;
        let cv = match eval_expr(h, st, env, c, depth - 1) {
            Ok(v) => {
                proof {
                    assert(step(*st, Ok::<Val, Stop>(v)));
                }
                v
            },
            Err(f) => {
                proof {
                    assert(step(*st, Err::<Val, Stop>(f)));
                    assert(while_run(depth, spins as nat, s_it, *st, env, *c, *body, Err::<Status<Val>, Stop>(f)));
                }
                return Err(f);
            },
        };
        let ghost s_mid = *st;
        if !truthy(st, &cv) {
            proof {
                assert(while_run(depth, spins as nat, s_it, *st, env, *c, *body, Ok::<Status<Val>, Stop>(Status::Normal)));
            }
            return Ok(Status::Normal);
        }
        let rb = exec_block(h, st, env, body, depth - 1);
        proof {
            assert(stepb(*st, rb));
        }
        let status = match rb {
            Ok(s) => s,
            Err(f) => {
                proof {
                    assert(while_run(depth, spins as nat, s_it, *st, env, *c, *body, Err::<Status<Val>, Stop>(f)));
                }
                return Err(f);
            },
        };
        match status {
            Status::Return(v) => {
                proof {
                    assert(while_run(depth, spins as nat, s_it, *st, env, *c, *body, Ok::<Status<Val>, Stop>(Status::Return(v))));
                }
                return Ok(Status::Return(v));
            },
            _ => {},
        }
        if spins == 0 {
            let f = Stop::Panic(String::from_str("loop ran too long"));
            proof {
                assert(while_run(depth, spins as nat, s_it, *st, env, *c, *body, Err::<Status<Val>, Stop>(f)));
            }
            return Err(f);
        }
        let ghost sp = spins;
        spins = spins - 1;
        proof {
            assert forall|post: Store, r: Result<Status<Val>, Stop>|
                #![trigger while_run(depth, spins as nat, *st, post, env, *c, *body, r)]
                while_run(depth, spins as nat, *st, post, env, *c, *body, r) implies while_run(
                    depth,
                    u64::MAX as nat,
                    *old(st),
                    post,
                    env,
                    *c,
                    *body,
                    r,
                ) by {
                assert(step(s_mid, Ok::<Val, Stop>(cv)));
                assert(stepb(*st, rb));
                assert(while_run(depth, sp as nat, s_it, post, env, *c, *body, r));
            }
        }
    }
}

/// Runs the statements of a block in order, stopping at the first that does
/// not end normally (`block_goes_on`).
pub fn exec_block<H: Host>(h: &mut H, st: &mut Store, env: usize, stmts: &Items<Stmt>, depth: u64) -> (r: Result<Status<Val>, Stop>)
    requires
        old(st).wf(),
        env < old(st).scopes.count(),
    ensures
        final(st).wf(),
        old(st).scopes.count() <= final(st).scopes.count(),
        block_sem(depth, *old(st), *final(st), env, *stmts, r),
    decreases depth,
{
    if depth == 0 {
        return Err(too_deep());
    }
    match stmts {
        Items::Nil => Ok(Status::Normal),
        Items::Cons(s, t) => {
            let status = exec_stmt(h, st, env, s, depth - 1)?;
            if !block_goes_on(&status) {
                return Ok(status);
            }
            proof {
                assert(stepb(*st, Ok::<Status<Val>, Stop>(Status::Normal)));
            }
            exec_block(h, st, env, t, depth - 1)
        },
    }
}

/// Calls `f` on `args`: a built-in, or a function made by `def`, whose
/// parameters bind in a new scope nested in the one it was made in (the
/// number of arguments must match).
pub fn call_function<H: Host>(h: &mut H, st: &mut Store, f: Val, args: Vec<Val>, depth: u64) -> (r: Result<Val, Stop>)
    requires
        old(st).wf(),
    ensures
        final(st).wf(),
        old(st).scopes.count() <= final(st).scopes.count(),
        call_sem(depth, *old(st), *final(st), f, args@, r),
    decreases depth,
{
    if depth == 0 {
        return Err(too_deep());
    }
    let d = depth - 1;
    match f {
        Val::Builtin(name) => call_builtin(h, st, name.as_str(), args, d),
        Val::Function(fi) => {
            if fi >= st.funcs.len() {
                return Err(error("object is not callable"));
            }
            let np = st.funcs[fi].params.len();
            if args.len() != np {
                return Err(Stop::Error(arity_text(st.funcs[fi].name.as_str(), np, args.len())));
            }
            let closure = st.funcs[fi].closure;
            if closure >= st.scopes.len() {
                return Err(error("object is not callable"));
            }
            let mut params: Vec<String> = Vec::new();
            let mut k: usize = 0;
            while k < np
                invariant
                    fi < st.funcs@.len(),
                    np == st.funcs@[fi as int].params@.len(),
                    params@.len() == k,
                    k <= np,
                    forall|j: int| 0 <= j < k ==> #[trigger] params@[j]@ == st.funcs@[fi as int].params@[j]@,
                decreases np - k,
            {
                params.push(st.funcs[fi].params[k].clone());
                k = k + 1;
            }
            let body = crate::ast::dup_stmts(&st.funcs[fi].body);
            let local = st.scopes.push(Some(closure));
            let mut k: usize = 0;
            while k < np
                invariant
                    st.wf(),
                    local < st.scopes.count(),
                    old(st).scopes.count() <= st.scopes.count(),
                    local == old(st).scopes.count(),
                    st.scopes.count() == old(st).scopes.count() + 1,
                    st.scopes.parent_of(local as int) == Some(closure),
                    st.funcs == old(st).funcs,
                    forall|j: int| 0 <= j < np ==> #[trigger] params@[j]@ == old(st).funcs@[fi as int].params@[j]@,
                    forall|i: int|
                        #![trigger params@[i]]
                        0 <= i < k && (forall|j: int| i < j < k ==> params@[j]@ != params@[i]@) ==> st.scopes.vars_of(
                            local as int,
                        ).dom().contains(params@[i]@) && st.scopes.vars_of(local as int)[params@[i]@] == args@[i],
                    forall|n: Seq<char>|
                        st.scopes.vars_of(local as int).dom().contains(n) ==> exists|i: int| 0 <= i < k && #[trigger] params@[i]@ == n,
                    params@.len() == np,
                    args@.len() == np,
                    k <= np,
                decreases np - k,
            {
                st.scopes.set(local, params[k].as_str(), args[k].duplicate());
                k = k + 1;
            }
            proof {
                let ps = old(st).funcs@[fi as int].params@;
                let vars = st.scopes.vars_of(local as int);
                assert forall|i: int|
                    #![trigger ps[i]]
                    0 <= i < ps.len() && 0 <= i < args@.len() && (forall|j: int| i < j < ps.len() ==> ps[j]@ != ps[i]@)
                        implies vars.dom().contains(ps[i]@) && vars[ps[i]@] == args@[i] by {
                    assert(params@[i]@ == ps[i]@);
                    assert forall|j: int| i < j < k implies params@[j]@ != params@[i]@ by {
                        assert(params@[j]@ == ps[j]@);
                    }
                }
                assert forall|n: Seq<char>| vars.dom().contains(n) implies exists|i: int| 0 <= i < ps.len() && #[trigger] ps[i]@ == n by {
                    let i = choose|i: int| 0 <= i < k && #[trigger] params@[i]@ == n;
                    assert(params@[i]@ == ps[i]@);
                }
                assert(binds_params(vars, ps, args@));
            }
            let ghost mid = *st;
            let rb = exec_block(h, st, local, &body, d);
            proof {
                assert(stepb(mid, rb));
            }
            match rb {
                Ok(Status::Return(v)) => Ok(v),
                Ok(_) => Ok(Val::NoneVal),
                Err(f) => Err(f),
            }
        },
        _ => Err(error("object is not callable")),
    }
}

/// The statements of a source text in the `Py0i` dialect, or the message
/// of the scanner's or the parser's refusal (two refusals stop the program,
/// as the interpreter's arithmetic does).
fn read_program(source: &str, file: &str) -> (r: Result<Items<Stmt>, Stop>) {
    if source.unicode_len() >= usize::MAX / 8 {
        return Err(Stop::Panic(String::from_str("source text too large")));
    }
    let ts = match crate::lexer::lex_source(source, crate::token::Dialect::Py0i) {
        Ok(ts) => ts,
        Err(crate::lexer::LexError::IntLiteralTooLarge(_)) => {
            return Err(Stop::Panic(String::from_str(
                "called `Result::unwrap()` on an `Err` value: ParseIntError { kind: PosOverflow }",
            )));
        },
        Err(crate::lexer::LexError::BracketDepthOverflow(_)) => {
            return Err(Stop::Panic(String::from_str("attempt to add with overflow")));
        },
        Err(e) => {
            return Err(Stop::Error(e.message(crate::token::Dialect::Py0i)));
        },
    };
    let n = ts.len();
    if n == 0 || !ts[n - 1].kind.sym_is(crate::token::Sym::Eof) {
        return Err(error("unexpected end of input"));
    }
    match crate::parser::parse_program(ts.as_slice(), crate::token::Dialect::Py0i) {
        Ok(m) => Ok(m),
        Err(e) => Err(Stop::Error(e.message(file))),
    }
}

/// Calls the built-in function `name`: `print`, `len`, `int`, `float`,
/// `str`, `bool`, `__import__` (of `sys` only) or `run_path`, which runs
/// another script with `sys.argv` shifted by one.
#[verifier::loop_isolation(false)]
pub fn call_builtin<H: Host>(h: &mut H, st: &mut Store, name: &str, args: Vec<Val>, depth: u64) -> (r: Result<Val, Stop>)
    requires
        old(st).wf(),
    ensures
        final(st).wf(),
        old(st).scopes.count() <= final(st).scopes.count(),
        builtin_sem(depth, *old(st), *final(st), name@, args@, r),
    decreases depth,
{
    if depth == 0 {
        return Err(too_deep());
    }
    let d = depth - 1;
    let n = args.len();
    if str_eq(name, "print") {
        let mut line = String::from_str("");
        let mut k: usize = 0;
        while k < n
            invariant
                k <= n,
                n == args@.len(),
            decreases n - k,
        {
            if k > 0 {
                line.append(" ");
            }
            let t = show(h, &args[k]);
            line.append(t.as_str());
            k = k + 1;
        }
        h.print(line);
        return Ok(Val::NoneVal);
    }
    if str_eq(name, "len") {
        return builtin_len(st, &args);
    }
    if str_eq(name, "int") {
        if n != 1 {
            return Err(error("int() expects 1 argument"));
        }
        return match &args[0] {
            Val::Int(i) => Ok(Val::Int(*i)),
            Val::Float(f) => Ok(Val::Int(h.float_to_int(*f))),
            Val::Bool(b) => Ok(Val::Int(
                if *b {
                    1
                } else {
                    0
                },
            )),
            _ => Err(error("int() unsupported for this type")),
        };
    }
    if str_eq(name, "float") {
        if n != 1 {
            return Err(error("float() expects 1 argument"));
        }
        let x = as_num(&args[0])?;
        return Ok(Val::Float(h.to_float(x)));
    }
    if str_eq(name, "str") {
        if n != 1 {
            return Err(error("str() expects 1 argument"));
        }
        return Ok(Val::Str(show(h, &args[0])));
    }
    if str_eq(name, "bool") {
        if n != 1 {
            return Err(error("bool() expects 1 argument"));
        }
        return Ok(Val::Bool(truthy(st, &args[0])));
    }
    if str_eq(name, "__import__") {
        if n != 1 {
            return Err(error("__import__() expects one string argument"));
        }
        return match &args[0] {
            Val::Str(m) => {
                if str_eq(m.as_str(), "sys") {
                    let g = st.globals;
                    match st.scopes.get(g, "sys") {
                        Some(Val::Sys(l)) => Ok(Val::Sys(*l)),
                        _ => Err(Stop::Error(concat2("unsupported import: ", m.as_str()))),
                    }
                } else {
                    Err(Stop::Error(concat2("unsupported import: ", m.as_str())))
                }
            },
            _ => Err(error("__import__() expects one string argument")),
        };
    }
    if str_eq(name, "run_path") {
        if n != 1 {
            return Err(error("run_path() expects one string argument"));
        }
        let path = match &args[0] {
            Val::Str(p) => p.clone(),
            _ => {
                return Err(error("run_path() expects one string argument"));
            },
        };
        let source = match h.read_source(path.as_str()) {
            Some(t) => t,
            None => {
                return Err(Stop::Error(concat2("cannot open ", path.as_str())));
            },
        };
        let module = read_program(source.as_str(), path.as_str())?;
        let g = st.globals;
        let argv: Option<usize> = match st.scopes.get(g, "sys") {
            Some(Val::Sys(l)) => {
                if *l < st.lists.len() {
                    Some(*l)
                } else {
                    None
                }
            },
            _ => None,
        };
        let old_argv: Vec<Val> = match argv {
            Some(l) => copy_vals(&st.lists[l]),
            None => Vec::new(),
        };
        match argv {
            Some(l) => {
                let mut shifted: Vec<Val> = Vec::new();
                let mut k: usize = 1;
                while k < old_argv.len()
                    invariant
                        1 <= k,
                    decreases old_argv@.len() - k,
                {
                    shifted.push(old_argv[k].duplicate());
                    k = k + 1;
                }
                st.lists.set(l, shifted);
            },
            None => {},
        }
        let module_env = st.scopes.push(Some(g));
        st.scopes.set(module_env, "__name__", Val::Str(String::from_str("__main__")));
        st.scopes.set(module_env, "__file__", Val::Str(path.clone()));
        exec_block(h, st, module_env, &module, d)?;
        match argv {
            Some(l) => {
                if l < st.lists.len() {
                    st.lists.set(l, old_argv);
                }
            },
            None => {},
        }
        return Ok(Val::NoneVal);
    }
    Err(error("object is not callable"))
}

/// What `len` gives on `args`.
pub open spec fn len_post(st: Store, args: Seq<Val>, r: Result<Val, Stop>) -> bool {
    &&& (args.len() != 1 ==> (r matches Err(Stop::Error(m)) && m@ == "len() expects 1 argument"@))
    &&& ((args.len() == 1 && args[0] is Str) ==> r == Ok::<Val, Stop>(
        Val::Int((crate::py4::byte_len(args[0]->Str_0@) as usize) as i64),
    ))
    &&& ((args.len() == 1 && args[0] is List && args[0]->List_0 < st.lists@.len()) ==> r == Ok::<Val, Stop>(
        Val::Int(st.lists@[args[0]->List_0 as int]@.len() as i64),
    ))
    &&& ((args.len() == 1 && !(args[0] is List || args[0] is Str)) ==> (r matches Err(Stop::Error(m)) && m@
        == "len() unsupported for this type"@))
}

/// `len(x)`: the bytes of a string or the items of a list.
pub fn builtin_len(st: &Store, args: &Vec<Val>) -> (r: Result<Val, Stop>)
    ensures
        len_post(*st, args@, r),
{
    if args.len() != 1 {
        return Err(error("len() expects 1 argument"));
    }
    match &args[0] {
        Val::Str(x) => Ok(Val::Int(x.as_str().len() as i64)),
        Val::List(l) => {
            if *l < st.lists.len() {
                Ok(Val::Int(st.lists[*l].len() as i64))
            } else {
                Err(error("len() unsupported for this type"))
            }
        },
        _ => Err(error("len() unsupported for this type")),
    }
}

/// A trigger for the stores and outcome of a run.
pub open spec fn run_step(pre: Store, post: Store, rb: Result<Status<Val>, Stop>) -> bool {
    true
}

/// The store a script starts from: one global scope, the first, that binds
/// `sys`, whose `argv` (the one list made) holds the texts of `args`.
pub open spec fn run_start(pre: Store, args: Seq<String>) -> bool {
    &&& pre.wf()
    &&& pre.globals == 0
    &&& pre.scopes.count() == 1
    &&& pre.scopes.parent_of(0) is None
    &&& pre.scopes.vars_of(0).dom().contains("sys"@)
    &&& pre.scopes.vars_of(0)["sys"@] == Val::Sys(0)
    &&& pre.lists@.len() == 1
    &&& pre.lists@[0]@.len() == args.len()
    &&& forall|i: int| 0 <= i < args.len() ==> (#[trigger] pre.lists@[0]@[i] is Str) && pre.lists@[0]@[i]->Str_0@ == args[i]@
}

/// Runs a script: `args` are the command-line arguments from the script's
/// path on, which become `sys.argv`.
pub fn run<H: Host>(h: &mut H, module: &Items<Stmt>, script_path: &str, args: &Vec<String>) -> (r: Result<(), Stop>)
    ensures
        *module is Nil ==> r is Ok,
        exists|pre: Store, post: Store, rb: Result<Status<Val>, Stop>|
            #![trigger run_step(pre, post, rb)]
            run_start(pre, args@) && block_sem(DEPTH, pre, post, 0, *module, rb) && match rb {
                Ok(_) => r is Ok,
                Err(e) => r == Err::<(), Stop>(e),
            },
{
    proof {
        reveal_strlit("sys");
        reveal_strlit("__name__");
        reveal_strlit("__file__");
    }
    let mut scopes: Scopes<Val> = Scopes::new();
    let g = scopes.push(None);
    let mut st = Store { scopes, lists: Vec::new(), funcs: Vec::new(), globals: g };
    st.scopes.set(g, "print", Val::Builtin(String::from_str("print")));
    st.scopes.set(g, "len", Val::Builtin(String::from_str("len")));
    st.scopes.set(g, "int", Val::Builtin(String::from_str("int")));
    st.scopes.set(g, "float", Val::Builtin(String::from_str("float")));
    st.scopes.set(g, "str", Val::Builtin(String::from_str("str")));
    st.scopes.set(g, "bool", Val::Builtin(String::from_str("bool")));
    st.scopes.set(g, "__import__", Val::Builtin(String::from_str("__import__")));
    st.scopes.set(g, "run_path", Val::Builtin(String::from_str("run_path")));
    let mut argv: Vec<Val> = Vec::new();
    let mut k: usize = 0;
    while k < args.len()
        invariant
            k <= args@.len(),
            argv@.len() == k,
            forall|i: int| 0 <= i < k ==> (#[trigger] argv@[i] is Str) && argv@[i]->Str_0@ == args@[i]@,
        decreases args@.len() - k,
    {
        argv.push(Val::Str(args[k].clone()));
        k = k + 1;
    }
    let l = st.lists.len();
    st.lists.push(argv);
    st.scopes.set(g, "sys", Val::Sys(l));
    st.scopes.set(g, "__name__", Val::Str(String::from_str("__main__")));
    st.scopes.set(g, "__file__", Val::Str(String::from_str(script_path)));
    let ghost pre = st;
    let rb = exec_block(h, &mut st, g, module, DEPTH);
    proof {
        assert("sys"@.len() == 3 && "__name__"@.len() == 8 && "__file__"@.len() == 8);
        assert("sys"@ != "__name__"@ && "sys"@ != "__file__"@);
        assert(pre.lists@[0]@.len() == args@.len());
        assert(run_step(pre, st, rb));
    }
    match rb {
        Ok(_) => Ok(()),
        Err(e) => Err(e),
    }
}

} // verus!
