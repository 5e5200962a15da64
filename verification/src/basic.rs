//! The evaluator of the `Basic` dialect: values, the store they live in, and
//! the statements and expressions that compute on them. Printing and the
//! arithmetic of floating-point numbers are the host's.

use vstd::prelude::*;
use vstd::string::{StrSliceExecFns, StringExecFns};

use crate::ast::{Expr, Items, LogicOp, Op, Param, Stmt};
use crate::py4::dec;
use crate::control::{after_body, block_goes_on, keeps_left, keeps_left_spec, seq_index, Status};
use crate::ops::{int_binop, IntOut};
use crate::runtime::range_values;
use crate::scopes::Scopes;
use crate::text::{append_chars, chars_of, push_decimal, push_signed_decimal, str_eq, string_from_chars};
use crate::value::{display, Value};
use crate::vars::VarTable;

verus! {

/// A number as floating-point arithmetic reads it.
pub enum Num {
    Int(i64),
    Float(u64),
    Bool(bool),
}

/// What the evaluator asks of the program that runs it: printing a line, and
/// the work on floating-point numbers, which travel as the bits of an `f64`.
pub trait Host {
    /// Prints one line.
    fn print(&mut self, line: String);

    /// The number that a float literal's text denotes.
    fn float_literal(&mut self, text: &str) -> u64;

    /// The printed form of a float.
    fn float_text(&mut self, bits: u64) -> String;

    /// `a op b` on the two operands taken as floats (`+ - * /`).
    fn float_arith(&mut self, op: Op, a: Num, b: Num) -> u64;

    /// `a` taken as a float, then cut to an integer as Rust's `as` does.
    fn float_to_int(&mut self, a: Num) -> i64;

    /// The float nearest to `i`.
    fn int_to_float(&mut self, i: i64) -> u64;

    /// `a op b` for a comparison operator, on the operands taken as floats.
    fn float_compare(&mut self, op: Op, a: Num, b: Num) -> bool;

    /// `-a`, with `a` taken as a float.
    fn float_neg(&mut self, a: Num) -> u64;
}

/// The functions that every script can call.
#[derive(Clone, Copy, PartialEq, Eq, Structural, Debug)]
pub enum Builtin {
    Print,
    Len,
    Range,
}

/// A value. Lists, dictionaries and functions are shared: a value names
/// them by their index in the store.
pub enum BVal {
    NoneVal,
    Bool(bool),
    Int(i64),
    Float(u64),
    Str(String),
    List(usize),
    Dict(usize),
    Function(usize),
    Builtin(Builtin),
    /// The method `append` of a list.
    Append(usize),
}

impl BVal {
    /// A copy of the value (a shared list stays shared).
    pub fn duplicate(&self) -> (r: BVal)
        ensures
            r == *self,
    {
        match self {
            BVal::NoneVal => BVal::NoneVal,
            BVal::Bool(b) => BVal::Bool(*b),
            BVal::Int(i) => BVal::Int(*i),
            BVal::Float(f) => BVal::Float(*f),
            BVal::Str(s) => BVal::Str(s.clone()),
            BVal::List(i) => BVal::List(*i),
            BVal::Dict(i) => BVal::Dict(*i),
            BVal::Function(i) => BVal::Function(*i),
            BVal::Builtin(b) => BVal::Builtin(*b),
            BVal::Append(i) => BVal::Append(*i),
        }
    }
}

/// Why a run stopped: an error the script reports, or a fault on which the
/// program stops as Rust's arithmetic does (the text says which).
pub enum Stop {
    Error(String),
    Panic(String),
}

/// A function made by `def`: its parameters, its body and the scope it was
/// defined in.
pub struct Func<'a> {
    pub name: String,
    pub params: Vec<String>,
    pub body: &'a Items<Stmt>,
    pub closure: usize,
}

/// Everything a run has made: its scopes, lists, dictionaries and functions.
pub struct Store<'a> {
    pub scopes: Scopes<BVal>,
    pub lists: Vec<Vec<BVal>>,
    pub dicts: Vec<VarTable<BVal>>,
    pub funcs: Vec<Func<'a>>,
}

impl<'a> Store<'a> {
    /// The scopes are well nested and every dictionary binds each key once.
    pub open spec fn wf(&self) -> bool {
        &&& self.scopes.wf()
        &&& forall|i: int| 0 <= i < self.dicts@.len() ==> (#[trigger] self.dicts@[i]).wf()
    }
}

/// The items of every list of the store.
pub open spec fn lists_of(st: &Store) -> Seq<Seq<BVal>> {
    st.lists@.map_values(|v: Vec<BVal>| v@)
}

/// An error with the given text.
pub fn error(msg: &str) -> (s: Stop)
    ensures
        s matches Stop::Error(m) && m@ == msg@,
{
    Stop::Error(String::from_str(msg))
}

/// `a`, `b` and `c` one after the other.
fn concat3(a: &str, b: &str, c: &str) -> (s: String)
    ensures
        s@ == a@ + b@ + c@,
{
    let mut s = String::from_str(a);
    s.append(b);
    s.append(c);
    s
}

/// What `n` reads as in scope `env`, or the error for an unbound name.
pub fn lookup(st: &Store, env: usize, n: &str) -> (r: Result<BVal, Stop>)
    requires
        st.wf(),
        env < st.scopes.count(),
    ensures
        match st.scopes.lookup(env as int, n@) {
            Some(v) => r == Ok::<BVal, Stop>(v),
            None => r matches Err(Stop::Error(m)) && m@ == "name '"@ + n@ + "' is not defined"@,
        },
{
    match st.scopes.get(env, n) {
        Some(v) => Ok(v.duplicate()),
        None => Err(Stop::Error(concat3("name '", n, "' is not defined"))),
    }
}

/// Whether a value counts as true: `None`, `False`, zero, and empty strings,
/// lists and dictionaries are false.
pub fn truthy(st: &Store, v: &BVal) -> (b: bool)
    requires
        st.wf(),
    ensures
        b == truthy_spec(st, v),
{
    match v {
        BVal::NoneVal => false,
        BVal::Bool(x) => *x,
        BVal::Int(i) => *i != 0,
        BVal::Float(f) => !(*f == 0 || *f == 0x8000_0000_0000_0000u64),
        BVal::Str(s) => s.as_str().unicode_len() != 0,
        BVal::List(l) => {
            if *l < st.lists.len() {
                st.lists[*l].len() != 0
            } else {
                true
            }
        },
        BVal::Dict(d) => {
            if *d < st.dicts.len() {
                !st.dicts[*d].is_empty()
            } else {
                true
            }
        },
        _ => true,
    }
}

/// A value as a number, or the error for one that is not.
pub fn as_num(v: &BVal) -> (r: Result<Num, Stop>)
    ensures
        match *v {
            BVal::Int(i) => r matches Ok(Num::Int(j)) && j == i,
            BVal::Float(f) => r matches Ok(Num::Float(g)) && g == f,
            BVal::Bool(b) => r matches Ok(Num::Bool(c)) && c == b,
            _ => r matches Err(Stop::Error(m)) && m@ == "expected number"@,
        },
{
    match v {
        BVal::Int(i) => Ok(Num::Int(*i)),
        BVal::Float(f) => Ok(Num::Float(*f)),
        BVal::Bool(b) => Ok(Num::Bool(*b)),
        _ => Err(error("expected number")),
    }
}

/// The key that a value indexes a dictionary by: a string itself, an
/// integer its decimal form.
pub fn dict_key(v: &BVal) -> (r: Result<String, Stop>)
    ensures
        match *v {
            BVal::Str(s) => r matches Ok(k) && k@ == s@,
            BVal::Int(i) => r matches Ok(k) && k@ == crate::text::signed_decimal(i as int),
            _ => r matches Err(Stop::Error(m)) && m@ == "unhashable type for dict key"@,
        },
{
    match v {
        BVal::Str(s) => Ok(s.clone()),
        BVal::Int(i) => {
            let mut out: Vec<char> = Vec::new();
            push_signed_decimal(&mut out, *i);
            assert(out@ =~= crate::text::signed_decimal(*i as int));
            Ok(string_from_chars(out.as_slice()))
        },
        _ => Err(error("unhashable type for dict key")),
    }
}

pub open spec fn bin_post(op: Op, l: BVal, r: BVal, res: Result<BVal, Stop>) -> bool {
    &&& (op == Op::Add && l is Str && r is Str) ==> (res matches Ok(BVal::Str(s)) && s@ == l->Str_0@
        + r->Str_0@)
    &&& (l is Int && r is Int && (op == Op::Add || op == Op::Sub || op == Op::Mul)) ==> match res {
        Ok(BVal::Int(x)) => x == (if op == Op::Add {
            l->Int_0 + r->Int_0
        } else if op == Op::Sub {
            l->Int_0 - r->Int_0
        } else {
            l->Int_0 * r->Int_0
        }),
        Err(Stop::Panic(_)) => !(i64::MIN <= (if op == Op::Add {
            l->Int_0 + r->Int_0
        } else if op == Op::Sub {
            l->Int_0 - r->Int_0
        } else {
            l->Int_0 * r->Int_0
        }) <= i64::MAX),
        _ => false,
    }
    &&& (l is Int && r is Int && op == Op::Mod && r->Int_0 == 0) ==> res is Err
    &&& (l is Int && r is Int && op == Op::Div) ==> (res matches Ok(BVal::Float(_)))
}

/// `a op b` for an arithmetic operator. Strings join under `+`; two integers
/// stay integers under `+ - * %` and divide as floats under `/`; anything
/// else is computed on floats by the host.
pub fn binop<H: Host>(h: &mut H, op: Op, l: BVal, r: BVal) -> (res: Result<BVal, Stop>)
    ensures
        bin_post(op, l, r, res),
{
    if op == Op::Add {
        match (&l, &r) {
            (BVal::Str(a), BVal::Str(b)) => {
                let mut s = a.clone();
                s.append(b.as_str());
                return Ok(BVal::Str(s));
            },
            _ => {},
        }
    }
    match (&l, &r) {
        (BVal::Int(a), BVal::Int(b)) => {
            let (a, b) = (*a, *b);
            if op == Op::Div {
                return Ok(BVal::Float(h.float_arith(Op::Div, Num::Int(a), Num::Int(b))));
            }
            if op == Op::Mod && b == 0 {
                return Err(Stop::Panic(String::from_str("attempt to calculate the remainder with a divisor of zero")));
            }
            if !(op == Op::Add || op == Op::Sub || op == Op::Mul || op == Op::Mod) {
                return Err(error("bad binop"));
            }
            return match int_binop(op, a, b) {
                Ok(IntOut::Int(x)) => Ok(BVal::Int(x)),
                Ok(IntOut::Overflow) => Err(Stop::Panic(String::from_str(overflow_text(op)))),
                _ => Err(error("bad binop")),
            };
        },
        _ => {},
    }
    let a = as_num(&l)?;
    let b = as_num(&r)?;
    if op == Op::Mod {
        let x = h.float_to_int(a);
        let y = h.float_to_int(b);
        if y == 0 {
            return Err(Stop::Panic(String::from_str("attempt to calculate the remainder with a divisor of zero")));
        }
        return match int_binop(Op::Mod, x, y) {
            Ok(IntOut::Int(v)) => Ok(BVal::Float(h.int_to_float(v))),
            _ => Err(Stop::Panic(String::from_str(overflow_text(Op::Mod)))),
        };
    }
    if op == Op::Add || op == Op::Sub || op == Op::Mul || op == Op::Div {
        Ok(BVal::Float(h.float_arith(op, a, b)))
    } else {
        Err(error("bad binop"))
    }
}

/// The text Rust stops with when integer `op` overflows.
pub open spec fn overflow_spec(op: Op) -> Seq<char> {
    if op == Op::Add {
        "attempt to add with overflow"@
    } else if op == Op::Sub {
        "attempt to subtract with overflow"@
    } else if op == Op::Mul {
        "attempt to multiply with overflow"@
    } else if op == Op::Mod {
        "attempt to calculate the remainder with overflow"@
    } else {
        "arithmetic overflow"@
    }
}

/// The text Rust stops with when integer `op` overflows.
pub fn overflow_text(op: Op) -> (s: &'static str)
    ensures
        s@ == overflow_spec(op),
{
    match op {
        Op::Add => "attempt to add with overflow",
        Op::Sub => "attempt to subtract with overflow",
        Op::Mul => "attempt to multiply with overflow",
        Op::Mod => "attempt to calculate the remainder with overflow",
        _ => "arithmetic overflow",
    }
}

pub open spec fn compare_post(op: Op, l: BVal, r: BVal, res: Result<BVal, Stop>) -> bool {
    &&& (l is Str && r is Str) ==> (res matches Ok(BVal::Bool(b)) && b == (if op == Op::Eq {
        l->Str_0@ == r->Str_0@
    } else if op == Op::Ne {
        l->Str_0@ != r->Str_0@
    } else {
        false
    }))
    &&& (!(l is Str && r is Str) && !(l is Int || l is Float || l is Bool)) ==> (res matches Err(
        Stop::Error(m),
    ) && m@ == "expected number"@)
}

/// `a op b` for a comparison operator: strings compare for equality only
/// (any other comparison of strings is false); anything else is compared as
/// floats by the host.
pub fn compare<H: Host>(h: &mut H, op: Op, l: BVal, r: BVal) -> (res: Result<BVal, Stop>)
    ensures
        compare_post(op, l, r, res),
{
    match (&l, &r) {
        (BVal::Str(a), BVal::Str(b)) => {
            let eq = str_eq(a.as_str(), b.as_str());
            let v = if op == Op::Eq {
                eq
            } else if op == Op::Ne {
                !eq
            } else {
                false
            };
            return Ok(BVal::Bool(v));
        },
        _ => {},
    }
    let a = as_num(&l)?;
    let b = as_num(&r)?;
    if op == Op::Eq || op == Op::Ne || op == Op::Lt || op == Op::Le || op == Op::Gt || op == Op::Ge {
        Ok(BVal::Bool(h.float_compare(op, a, b)))
    } else {
        Ok(BVal::Bool(false))
    }
}

pub open spec fn un_post(st: Store, op: Op, v: BVal, res: Result<BVal, Stop>) -> bool {
    &&& (op == Op::Not) ==> (res matches Ok(BVal::Bool(_)))
    &&& (op == Op::Neg && v is Int && v->Int_0 != i64::MIN) ==> (res matches Ok(BVal::Int(x)) && x == -v->Int_0)
    &&& (op == Op::Neg && v is Int && v->Int_0 == i64::MIN) ==> (res matches Err(Stop::Panic(_)))
    &&& (op != Op::Neg && op != Op::Not) ==> (res matches Err(Stop::Error(m)) && m@ == "unsupported unary operator"@)
}

/// `-v` and `not v`.
pub fn unary<H: Host>(h: &mut H, st: &Store, op: Op, v: BVal) -> (res: Result<BVal, Stop>)
    requires
        st.wf(),
    ensures
        un_post(*st, op, v, res),
{
    if op == Op::Neg {
        match v {
            BVal::Int(i) => {
                if i == i64::MIN {
                    Err(Stop::Panic(String::from_str("attempt to negate with overflow")))
                } else {
                    Ok(BVal::Int(-i))
                }
            },
            _ => {
                let n = as_num(&v)?;
                Ok(BVal::Float(h.float_neg(n)))
            },
        }
    } else if op == Op::Not {
        Ok(BVal::Bool(!truthy(st, &v)))
    } else {
        Err(error("unsupported unary operator"))
    }
}

pub open spec fn sub_post(st: Store, obj: BVal, idx: BVal, r: Result<BVal, Stop>) -> bool {
    &&& (obj matches BVal::List(l) && l < st.lists@.len()) ==> match idx {
        BVal::Int(i) => if 0 <= i < st.lists@[obj->List_0 as int]@.len() {
            r == Ok::<BVal, Stop>(st.lists@[obj->List_0 as int]@[i as int])
        } else {
            r matches Err(Stop::Error(m)) && m@ == "list index out of range"@
        },
        _ => r matches Err(Stop::Error(m)) && m@ == "list indices must be int"@,
    }
    &&& (obj matches BVal::Dict(d) && d < st.dicts@.len() && idx is Str) ==> ({
        let t = st.dicts@[obj->Dict_0 as int]@;
        let k = idx->Str_0@;
        if t.dom().contains(k) {
            r == Ok::<BVal, Stop>(t[k])
        } else {
            r matches Err(Stop::Error(m)) && m@ == "KeyError: '"@ + k + "'"@
        }
    })
    &&& !(obj is List || obj is Dict) ==> (r matches Err(Stop::Error(m)) && m@ == "unsupported subscript target"@)
}

/// `obj[idx]`: an item of a list, where the index lies inside it, or the
/// value of a key of a dictionary.
pub fn subscript(st: &Store, obj: &BVal, idx: &BVal) -> (r: Result<BVal, Stop>)
    requires
        st.wf(),
    ensures
        sub_post(*st, *obj, *idx, r),
{
    match obj {
        BVal::List(l) => {
            if *l >= st.lists.len() {
                return Err(error("unsupported subscript target"));
            }
            match idx {
                BVal::Int(i) => match seq_index(*i, st.lists[*l].len()) {
                    Some(k) => Ok(st.lists[*l][k].duplicate()),
                    None => Err(error("list index out of range")),
                },
                _ => Err(error("list indices must be int")),
            }
        },
        BVal::Dict(d) => {
            if *d >= st.dicts.len() {
                return Err(error("unsupported subscript target"));
            }
            let k = dict_key(idx)?;
            match st.dicts[*d].get(k.as_str()) {
                Some(v) => Ok(v.duplicate()),
                None => Err(Stop::Error(concat3("KeyError: '", k.as_str(), "'"))),
            }
        },
        _ => Err(error("unsupported subscript target")),
    }
}

pub open spec fn attr_post(obj: BVal, attr: Seq<char>, r: Result<BVal, Stop>) -> bool {
    &&& (obj is List && attr == "append"@) ==> r == Ok::<BVal, Stop>(BVal::Append(obj->List_0))
    &&& !(obj is List && attr == "append"@) ==> (r matches Err(Stop::Error(m)) && m@
        == "unsupported attribute access: "@ + attr)
}

/// `obj.attr`: only a list's `append` exists.
pub fn attribute(obj: &BVal, attr: &str) -> (r: Result<BVal, Stop>)
    ensures
        attr_post(*obj, attr@, r),
{
    match obj {
        BVal::List(l) => {
            if str_eq(attr, "append") {
                proof {
                    reveal_strlit("append");
                }
                return Ok(BVal::Append(*l));
            }
        },
        _ => {},
    }
    proof {
        reveal_strlit("append");
    }
    let mut m = String::from_str("unsupported attribute access: ");
    m.append(attr);
    Err(Stop::Error(m))
}

/// How deep evaluation may nest: every nested evaluation spends one unit,
/// so no script that fits in memory reaches it.
pub const DEPTH: u64 = 0xffff_ffff_ffff_ffffu64;

/// The text of the fault when evaluation nests deeper than `DEPTH`.
fn too_deep() -> (s: Stop)
    ensures
        s is Panic,
{
    Stop::Panic(String::from_str("maximum recursion depth exceeded"))
}

/// The value as the library's printing code sees it: functions and methods
/// print as plain objects.
pub fn to_value<H: Host>(h: &mut H, st: &Store, v: &BVal, depth: u64) -> (r: Value)
    requires
        st.wf(),
    ensures
        match *v {
            BVal::NoneVal => r == Value::NoneVal,
            BVal::Bool(b) => r == Value::Bool(b),
            BVal::Int(i) => r == Value::Int(i),
            BVal::Str(s) => r matches Value::Str(t) && t@ == s@,
            BVal::Float(_) => r is Float,
            BVal::List(_) => r is List || r is Instance,
            BVal::Dict(_) => r is Dict || r is Instance,
            _ => r == Value::Instance(None),
        },
    decreases depth,
{
    match v {
        BVal::NoneVal => Value::NoneVal,
        BVal::Bool(b) => Value::Bool(*b),
        BVal::Int(i) => Value::Int(*i),
        BVal::Float(f) => Value::Float(h.float_text(*f)),
        BVal::Str(s) => Value::Str(s.clone()),
        BVal::List(l) => {
            if depth == 0 || *l >= st.lists.len() {
                return Value::Instance(None);
            }
            let l = *l;
            let n = st.lists[l].len();
            let mut out: Vec<Value> = Vec::new();
            let mut k: usize = 0;
            while k < n
                invariant
                    st.wf(),
                    l < st.lists@.len(),
                    n == st.lists@[l as int]@.len(),
                    k <= n,
                    depth > 0,
                decreases n - k,
            {
                let x = to_value(h, st, &st.lists[l][k], depth - 1);
                out.push(x);
                k = k + 1;
            }
            Value::List(out)
        },
        BVal::Dict(d) => {
            if depth == 0 || *d >= st.dicts.len() {
                return Value::Instance(None);
            }
            let d = *d;
            let entries = st.dicts[d].entries();
            let n = entries.len();
            let mut out: Vec<(String, Value)> = Vec::new();
            let mut k: usize = 0;
            while k < n
                invariant
                    st.wf(),
                    n == entries@.len(),
                    k <= n,
                    depth > 0,
                decreases n - k,
            {
                let x = to_value(h, st, &entries[k].1, depth - 1);
                out.push((entries[k].0.clone(), x));
                k = k + 1;
            }
            Value::Dict(out)
        },
        _ => Value::Instance(None),
    }
}

/// The printed form of a value.
pub fn show<H: Host>(h: &mut H, st: &Store, v: &BVal) -> (s: String)
    requires
        st.wf(),
    ensures
        (v is Int || v is Bool || v is NoneVal) ==> s@ == crate::value::show(
            match *v {
                BVal::Int(i) => Value::Int(i),
                BVal::Bool(b) => Value::Bool(b),
                _ => Value::NoneVal,
            },
        ),
{
    let x = to_value(h, st, v, DEPTH);
    display(&x)
}

/// The names of the parameters.
fn param_names(ps: &Items<Param>) -> (r: Vec<String>)
    ensures
        crate::call::names(r@) == param_texts(*ps),
    decreases ps,
{
    match ps {
        Items::Nil => {
            let r: Vec<String> = Vec::new();
            proof {
                assert(crate::call::names(r@) =~= param_texts(*ps));
            }
            r
        },
        Items::Cons(p, t) => {
            let mut r: Vec<String> = Vec::new();
            r.push(p.name.clone());
            let mut rest = param_names(t);
            let ghost rv = rest@;
            r.append(&mut rest);
            proof {
                let whole = *ps;
                assert(whole.to_seq() == seq![**p] + (**t).to_seq());
                assert(param_texts(whole) =~= seq![p.name@] + param_texts(**t));
                assert(crate::call::names(r@) =~= seq![p.name@] + crate::call::names(rv));
            }
            r
        },
    }
}

/// A new list in the store.
fn new_list<'a>(st: &mut Store<'a>, items: Vec<BVal>) -> (v: BVal)
    requires
        old(st).wf(),
    ensures
        final(st).wf(),
        final(st).scopes == old(st).scopes,
        final(st).dicts == old(st).dicts,
        final(st).funcs == old(st).funcs,
        final(st).lists@ == old(st).lists@.push(items),
        lists_of(final(st)) == lists_of(old(st)).push(items@),
        v matches BVal::List(i) && i == old(st).lists@.len(),
{
    let i = st.lists.len();
    let ghost iv = items@;
    st.lists.push(items);
    proof {
        assert(lists_of(st) =~= lists_of(old(st)).push(iv));
    }
    BVal::List(i)
}

/// A new dictionary in the store.
fn new_dict<'a>(st: &mut Store<'a>, t: VarTable<BVal>) -> (v: BVal)
    requires
        old(st).wf(),
        t.wf(),
    ensures
        final(st).wf(),
        final(st).scopes == old(st).scopes,
        final(st).lists == old(st).lists,
        final(st).funcs == old(st).funcs,
        final(st).dicts@ == old(st).dicts@.push(t),
        v matches BVal::Dict(i) && i == old(st).dicts@.len(),
{
    let i = st.dicts.len();
    st.dicts.push(t);
    proof {
        assert forall|j: int| 0 <= j < st.dicts@.len() implies (#[trigger] st.dicts@[j]).wf() by {
            if j < i {
                assert(st.dicts@[j] == old(st).dicts@[j]);
            }
        }
    }
    BVal::Dict(i)
}

/// `obj[idx] = v`: a list item inside the list, or a key of a dictionary.
pub fn set_item<'a>(st: &mut Store<'a>, obj: &BVal, idx: &BVal, v: BVal) -> (r: Result<(), Stop>)
    requires
        old(st).wf(),
    ensures
        final(st).wf(),
        final(st).scopes == old(st).scopes,
        (obj is List && obj->List_0 < old(st).lists@.len() && idx is Int) ==> ({
            let l = obj->List_0 as int;
            let i = idx->Int_0 as int;
            if 0 <= i < old(st).lists@[l]@.len() {
                r is Ok && lists_of(final(st)) == lists_of(old(st)).update(l, lists_of(old(st))[l].update(i, v))
            } else {
                (r matches Err(Stop::Error(m)) && m@ == "list assignment index out of range"@)
                    && lists_of(final(st)) == lists_of(old(st))
            }
        }),
        (obj is Dict && obj->Dict_0 < old(st).dicts@.len() && idx is Str) ==> (r is Ok
            && final(st).dicts@[obj->Dict_0 as int]@ == old(st).dicts@[obj->Dict_0 as int]@.insert(idx->Str_0@, v)),
        !(obj is List || obj is Dict) ==> (r matches Err(Stop::Error(m)) && m@ == "unsupported item assignment target"@),
{
    match obj {
        BVal::List(l) => {
            let l = *l;
            if l >= st.lists.len() {
                return Err(error("unsupported item assignment target"));
            }
            let i = match idx {
                BVal::Int(i) => *i,
                _ => {
                    return Err(error("list index must be int"));
                },
            };
            match seq_index(i, st.lists[l].len()) {
                Some(k) => {
                    let mut items: Vec<BVal> = Vec::new();
                    st.lists.set_and_swap(l, &mut items);
                    items.set(k, v);
                    st.lists.set_and_swap(l, &mut items);
                    proof {
                        assert(lists_of(st) =~= lists_of(old(st)).update(l as int, lists_of(old(st))[l as int].update(i as int, v)));
                    }
                    Ok(())
                },
                None => Err(error("list assignment index out of range")),
            }
        },
        BVal::Dict(d) => {
            let d = *d;
            if d >= st.dicts.len() {
                return Err(error("unsupported item assignment target"));
            }
            let k = dict_key(idx)?;
            let mut t: VarTable<BVal> = VarTable::new();
            st.dicts.set_and_swap(d, &mut t);
            assert(t == old(st).dicts@[d as int]);
            t.set(k.as_str(), v);
            st.dicts.set_and_swap(d, &mut t);
            proof {
                assert forall|j: int| 0 <= j < st.dicts@.len() implies (#[trigger] st.dicts@[j]).wf() by {
                    if j != d {
                        assert(st.dicts@[j] == old(st).dicts@[j]);
                    }
                }
            }
            Ok(())
        },
        _ => Err(error("unsupported item assignment target")),
    }
}

/// Appends `v` to list `l`.
fn append_item<'a>(st: &mut Store<'a>, l: usize, v: BVal)
    requires
        old(st).wf(),
        l < old(st).lists@.len(),
    ensures
        final(st).wf(),
        final(st).scopes == old(st).scopes,
        lists_of(final(st)) == lists_of(old(st)).update(l as int, lists_of(old(st))[l as int].push(v)),
{
    let mut items: Vec<BVal> = Vec::new();
    st.lists.set_and_swap(l, &mut items);
    items.push(v);
    st.lists.set_and_swap(l, &mut items);
    proof {
        assert(lists_of(st) =~= lists_of(old(st)).update(l as int, lists_of(old(st))[l as int].push(v)));
    }
}

/// The items a `for` loop walks: those of a list, or the characters of a
/// string, each as a string.
pub fn iter_items(st: &Store, v: &BVal) -> (r: Result<Vec<BVal>, Stop>)
    requires
        st.wf(),
    ensures
        (v is List && v->List_0 < st.lists@.len()) ==> (r matches Ok(items) && items@ == st.lists@[v->List_0 as int]@),
        (v is List && v->List_0 >= st.lists@.len()) ==> (r matches Err(Stop::Error(m)) && m@ == "object is not iterable"@),
        v is Str ==> (r matches Ok(items) && items@.len() == v->Str_0@.len() && forall|i: int|
            0 <= i < items@.len() ==> (#[trigger] items@[i] matches BVal::Str(c) && c@ == seq![v->Str_0@[i]])),
        !(v is List || v is Str) ==> (r matches Err(Stop::Error(m)) && m@ == "object is not iterable"@),
{
    match v {
        BVal::List(l) => {
            if *l >= st.lists.len() {
                return Err(error("object is not iterable"));
            }
            let src = &st.lists[*l];
            let mut out: Vec<BVal> = Vec::new();
            let mut k: usize = 0;
            while k < src.len()
                invariant
                    k <= src@.len(),
                    out@ == src@.take(k as int),
                decreases src@.len() - k,
            {
                out.push(src[k].duplicate());
                k = k + 1;
                assert(out@ =~= src@.take(k as int));
            }
            assert(src@.take(src@.len() as int) =~= src@);
            Ok(out)
        },
        BVal::Str(s) => {
            let cs = chars_of(s.as_str());
            let mut out: Vec<BVal> = Vec::new();
            let mut k: usize = 0;
            while k < cs.len()
                invariant
                    k <= cs@.len(),
                    cs@ == s@,
                    out@.len() == k,
                    forall|i: int| 0 <= i < k ==> (#[trigger] out@[i] matches BVal::Str(c) && c@ == seq![cs@[i]]),
                decreases cs@.len() - k,
            {
                let one: Vec<char> = vec![cs[k]];
                let c = string_from_chars(one.as_slice());
                assert(c@ =~= seq![cs@[k as int]]);
                out.push(BVal::Str(c));
                k = k + 1;
            }
            Ok(out)
        },
        _ => Err(error("object is not iterable")),
    }
}

/// The error for a call with the wrong number of arguments.
fn arity_text(name: &str, want: usize, got: usize) -> (s: String) {
    let mut out: Vec<char> = chars_of(name);
    let a = chars_of("() expected ");
    append_chars(&mut out, a.as_slice());
    push_decimal(&mut out, want as u64);
    let b = chars_of(" args, got ");
    append_chars(&mut out, b.as_slice());
    push_decimal(&mut out, got as u64);
    string_from_chars(out.as_slice())
}

/// A copy of a list of names.
fn copy_names(v: &Vec<String>) -> (r: Vec<String>)
    ensures
        r@.len() == v@.len(),
        forall|j: int| 0 <= j < v@.len() ==> #[trigger] r@[j]@ == v@[j]@,
{
    let mut r: Vec<String> = Vec::new();
    let mut k: usize = 0;
    while k < v.len()
        invariant
            k <= v@.len(),
            r@.len() == k,
            forall|j: int| 0 <= j < k ==> #[trigger] r@[j]@ == v@[j]@,
        decreases v@.len() - k,
    {
        r.push(v[k].clone());
        k = k + 1;
    }
    r
}

pub open spec fn builtin_post(b: Builtin, pre: Store, post: Store, args: Seq<BVal>, r: Result<BVal, Stop>) -> bool {
    &&& post.scopes == pre.scopes
    &&& b == Builtin::Print ==> r == Ok::<BVal, Stop>(BVal::NoneVal)
    &&& (b == Builtin::Len && args.len() == 1 && args[0] is Str) ==> r == Ok::<BVal, Stop>(
        BVal::Int((crate::py4::byte_len(args[0]->Str_0@) as usize) as i64),
    )
    &&& (b == Builtin::Len && args.len() == 1 && args[0] is List && args[0]->List_0 < pre.lists@.len())
        ==> r == Ok::<BVal, Stop>(BVal::Int(pre.lists@[args[0]->List_0 as int]@.len() as i64))
    &&& (b == Builtin::Len && args.len() != 1) ==> (r matches Err(Stop::Error(m)) && m@ == "len() expects 1 arg"@)
    &&& (b == Builtin::Range && args.len() == 1 && args[0] is Int) ==> (r matches Ok(BVal::List(l)) && l
        == pre.lists@.len() && ({
        let end = args[0]->Int_0;
        let items = lists_of(&post)[l as int];
        &&& items.len() == (if end > 0 {
            end as nat
        } else {
            0
        })
        &&& forall|i: int| 0 <= i < items.len() ==> #[trigger] items[i] == BVal::Int(i as i64)
    }))
    &&& (b == Builtin::Range && args.len() != 1) ==> (r matches Err(Stop::Error(m)) && m@ == "range() expects 1 arg"@)
}

/// Calls one of the built-in functions.
pub fn call_builtin<'a, H: Host>(h: &mut H, st: &mut Store<'a>, b: Builtin, args: Vec<BVal>) -> (r: Result<BVal, Stop>)
    requires
        old(st).wf(),
    ensures
        final(st).wf(),
        builtin_post(b, *old(st), *final(st), args@, r),
{
    match b {
        Builtin::Print => {
            let mut line = String::from_str("");
            let mut k: usize = 0;
            while k < args.len()
                invariant
                    st.wf(),
                    k <= args@.len(),
                decreases args@.len() - k,
            {
                if k > 0 {
                    line.append(" ");
                }
                let s = show(h, st, &args[k]);
                line.append(s.as_str());
                k = k + 1;
            }
            h.print(line);
            Ok(BVal::NoneVal)
        },
        Builtin::Len => {
            if args.len() != 1 {
                return Err(error("len() expects 1 arg"));
            }
            match &args[0] {
                BVal::Str(s) => Ok(BVal::Int(s.as_str().len() as i64)),
                BVal::List(l) => {
                    if *l < st.lists.len() {
                        Ok(BVal::Int(st.lists[*l].len() as i64))
                    } else {
                        Err(error("len() unsupported type"))
                    }
                },
                BVal::Dict(d) => {
                    if *d < st.dicts.len() {
                        Ok(BVal::Int(st.dicts[*d].entries().len() as i64))
                    } else {
                        Err(error("len() unsupported type"))
                    }
                },
                _ => Err(error("len() unsupported type")),
            }
        },
        Builtin::Range => {
            if args.len() != 1 {
                return Err(error("range() expects 1 arg"));
            }
            match &args[0] {
                BVal::Int(end) => {
                    let vs = range_values(*end);
                    let mut items: Vec<BVal> = Vec::new();
                    let mut k: usize = 0;
                    while k < vs.len()
                        invariant
                            k <= vs@.len(),
                            items@.len() == k,
                            forall|i: int| 0 <= i < vs@.len() ==> vs@[i] == i,
                            vs@.len() == (if *end > 0 {
                                *end as nat
                            } else {
                                0
                            }),
                            forall|i: int| 0 <= i < k ==> #[trigger] items@[i] == BVal::Int(i as i64),
                        decreases vs@.len() - k,
                    {
                        items.push(BVal::Int(vs[k]));
                        k = k + 1;
                    }
                    let v = new_list(st, items);
                    proof {
                        assert(lists_of(st)[old(st).lists@.len() as int] == items@);
                        assert(args@[0] == BVal::Int(*end));
                        assert(items@.len() == vs@.len());
                    }
                    Ok(v)
                },
                _ => Err(error("range() requires int")),
            }
        },
    }
}

/// A trigger for the store and result between two steps of an evaluation.
pub open spec fn step(s: Store, r: Result<BVal, Stop>) -> bool {
    true
}

/// A trigger for the store and results between two steps of an evaluation.
pub open spec fn steps(s: Store, r: Result<Seq<BVal>, Stop>) -> bool {
    true
}

/// A trigger for the store and outcome between two statements.
pub open spec fn stepb(s: Store, r: Result<Status<BVal>, Stop>) -> bool {
    true
}

/// What evaluating the expressions `items` in order, each at `depth - 1`,
/// gives from store `pre` in scope `env`, and the store `post` it leaves:
/// their values, or the first error.
pub open spec fn items_sem(depth: u64, pre: Store, post: Store, env: usize, items: Items<Expr>, r: Result<Seq<BVal>, Stop>) -> bool
    decreases depth,
{
    if depth == 0 {
        (r matches Err(Stop::Panic(_))) && post == pre
    } else {
        match items {
            Items::Nil => r == Ok::<Seq<BVal>, Stop>(seq![]) && post == pre,
            Items::Cons(x, t) => match r {
                Err(f) => expr_sem(dec(depth), pre, post, env, *x, Err::<BVal, Stop>(f)) || exists|mid: Store, a: BVal|
                    #![trigger step(mid, Ok::<BVal, Stop>(a))]
                    expr_sem(dec(depth), pre, mid, env, *x, Ok::<BVal, Stop>(a)) && items_sem(
                        dec(depth),
                        mid,
                        post,
                        env,
                        *t,
                        Err::<Seq<BVal>, Stop>(f),
                    ),
                Ok(vs) => vs.len() > 0 && exists|mid: Store|
                    #![trigger step(mid, Ok::<BVal, Stop>(vs[0]))]
                    expr_sem(dec(depth), pre, mid, env, *x, Ok::<BVal, Stop>(vs[0])) && items_sem(
                        dec(depth),
                        mid,
                        post,
                        env,
                        *t,
                        Ok::<Seq<BVal>, Stop>(vs.drop_first()),
                    ),
            },
        }
    }
}

/// The key that a value gives in a dictionary: a string's text, or an
/// integer's decimal form.
pub open spec fn bkey(v: BVal) -> Option<Seq<char>> {
    match v {
        BVal::Str(s) => Some(s@),
        BVal::Int(i) => Some(crate::text::signed_decimal(i as int)),
        _ => None,
    }
}

/// A trigger for the store and bindings between two steps of an evaluation.
pub open spec fn stepm(s: Store, r: Result<Map<Seq<char>, BVal>, Stop>) -> bool {
    true
}

/// What evaluating the pairs of a dictionary display in order, each key
/// then its value at `depth - 1`, gives from store `pre`: the bindings of
/// `m` with the pairs added (a later key replacing an earlier one), or the
/// first error.
pub open spec fn pairs_sem(
    depth: u64,
    pre: Store,
    post: Store,
    env: usize,
    pairs: Items<(Expr, Expr)>,
    m: Map<Seq<char>, BVal>,
    r: Result<Map<Seq<char>, BVal>, Stop>,
) -> bool
    decreases depth,
{
    if depth == 0 {
        (r matches Err(Stop::Panic(_))) && post == pre
    } else {
        match pairs {
            Items::Nil => r == Ok::<Map<Seq<char>, BVal>, Stop>(m) && post == pre,
            Items::Cons(p, t) => exists|mid: Store, rk: Result<BVal, Stop>|
                #![trigger step(mid, rk)]
                expr_sem(dec(depth), pre, mid, env, p.0, rk) && match rk {
                    Err(f) => r == Err::<Map<Seq<char>, BVal>, Stop>(f) && post == mid,
                    Ok(k) => match bkey(k) {
                        None => (r matches Err(Stop::Error(msg)) && msg@ == "unhashable type for dict key"@) && post == mid,
                        Some(key) => exists|mid2: Store, rv: Result<BVal, Stop>|
                            #![trigger step(mid2, rv)]
                            expr_sem(dec(depth), mid, mid2, env, p.1, rv) && match rv {
                                Err(f) => r == Err::<Map<Seq<char>, BVal>, Stop>(f) && post == mid2,
                                Ok(v) => pairs_sem(dec(depth), mid2, post, env, *t, m.insert(key, v), r),
                            },
                    },
                },
        }
    }
}

/// A result whose value is a sequence of values, as a `Seq`.
pub open spec fn seq_res(r: Result<Vec<BVal>, Stop>) -> Result<Seq<BVal>, Stop> {
    match r {
        Ok(v) => Ok(v@),
        Err(f) => Err(f),
    }
}

/// What a call gives once the function's body ran with outcome `rb`: the
/// returned value, `None` where the body ended otherwise, or the error.
pub open spec fn returned(rb: Result<Status<BVal>, Stop>) -> Result<BVal, Stop> {
    match rb {
        Ok(Status::Return(v)) => Ok(v),
        Ok(_) => Ok(BVal::NoneVal),
        Err(f) => Err(f),
    }
}

/// The variables `vars` bind each parameter name to the argument at its
/// position (a name given twice to the one given last), and nothing else.
pub open spec fn binds_params(vars: Map<Seq<char>, BVal>, params: Seq<String>, args: Seq<BVal>) -> bool {
    &&& forall|i: int|
        #![trigger params[i]]
        0 <= i < params.len() && 0 <= i < args.len() && (forall|j: int| i < j < params.len() ==> params[j]@ != params[i]@)
            ==> vars.dom().contains(params[i]@) && vars[params[i]@] == args[i]
    &&& forall|k: Seq<char>| vars.dom().contains(k) ==> exists|i: int| 0 <= i < params.len() && #[trigger] params[i]@ == k
}

/// What calling `f` on `args` at `depth` gives from store `pre`: a built-in
/// (`builtin_post`), a list's `append`, a function made by `def` (its body,
/// run at `depth - 1` in a new scope nested in the one it was defined in,
/// with one argument per parameter), or the error for anything else.
pub open spec fn call_sem(depth: u64, pre: Store, post: Store, f: BVal, args: Seq<BVal>, r: Result<BVal, Stop>) -> bool
    decreases depth,
{
    if depth == 0 {
        (r matches Err(Stop::Panic(_))) && post == pre
    } else {
        match f {
            BVal::Builtin(b) => builtin_post(b, pre, post, args, r),
            BVal::Append(l) => if args.len() != 1 {
                (r matches Err(Stop::Error(m)) && m@ == "append() takes 1 argument"@) && post == pre
            } else if l >= pre.lists@.len() {
                (r matches Err(Stop::Error(m)) && m@ == "object is not callable"@) && post == pre
            } else {
                r == Ok::<BVal, Stop>(BVal::NoneVal) && post.scopes == pre.scopes && lists_of(&post) == lists_of(
                    &pre,
                ).update(l as int, lists_of(&pre)[l as int].push(args[0]))
            },
            BVal::Function(fi) => if fi >= pre.funcs@.len() {
                (r matches Err(Stop::Error(m)) && m@ == "object is not callable"@) && post == pre
            } else if args.len() != pre.funcs@[fi as int].params@.len() {
                (r matches Err(Stop::Error(_))) && post == pre
            } else if pre.funcs@[fi as int].closure >= pre.scopes.count() {
                (r matches Err(Stop::Error(m)) && m@ == "object is not callable"@) && post == pre
            } else {
                exists|mid: Store, rb: Result<Status<BVal>, Stop>|
                    #![trigger stepb(mid, rb)]
                    mid.scopes.count() == pre.scopes.count() + 1 && mid.scopes.parent_of(pre.scopes.count() as int)
                        == Some(pre.funcs@[fi as int].closure) && binds_params(
                        mid.scopes.vars_of(pre.scopes.count() as int),
                        pre.funcs@[fi as int].params@,
                        args,
                    ) && block_sem(
                        dec(depth),
                        mid,
                        post,
                        pre.scopes.count() as usize,
                        *pre.funcs@[fi as int].body,
                        rb,
                    ) && r == returned(rb)
            },
            _ => (r matches Err(Stop::Error(m)) && m@ == "object is not callable"@) && post == pre,
        }
    }
}

/// Calling a function made by `def` with one argument per parameter runs its
/// body in a new scope, nested in the one the function was made in, where
/// each parameter name reads as the argument at its position; the call gives
/// what the body returned.
pub proof fn law_call_binds_arguments(depth: u64, pre: Store, post: Store, fi: usize, args: Seq<BVal>, r: Result<BVal, Stop>)
    requires
        depth > 0,
        fi < pre.funcs@.len(),
        args.len() == pre.funcs@[fi as int].params@.len(),
        pre.funcs@[fi as int].closure < pre.scopes.count(),
        call_sem(depth, pre, post, BVal::Function(fi), args, r),
    ensures
        exists|mid: Store, rb: Result<Status<BVal>, Stop>|
            #![trigger stepb(mid, rb)]
            {
                let ps = pre.funcs@[fi as int].params@;
                let local = pre.scopes.count() as int;
                &&& mid.scopes.parent_of(local) == Some(pre.funcs@[fi as int].closure)
                &&& forall|i: int|
                    #![trigger ps[i]]
                    0 <= i < ps.len() && (forall|j: int| i < j < ps.len() ==> ps[j]@ != ps[i]@) ==> mid.scopes.lookup(local, ps[i]@)
                        == Some(args[i])
                &&& block_sem(dec(depth), mid, post, local as usize, *pre.funcs@[fi as int].body, rb)
                &&& r == returned(rb)
            },
{
    let (mid, rb) = choose|mid: Store, rb: Result<Status<BVal>, Stop>|
        mid.scopes.count() == pre.scopes.count() + 1 && mid.scopes.parent_of(pre.scopes.count() as int) == Some(
            pre.funcs@[fi as int].closure,
        ) && binds_params(mid.scopes.vars_of(pre.scopes.count() as int), pre.funcs@[fi as int].params@, args) && block_sem(
            dec(depth),
            mid,
            post,
            pre.scopes.count() as usize,
            *pre.funcs@[fi as int].body,
            rb,
        ) && r == returned(rb);
    let ps = pre.funcs@[fi as int].params@;
    let local = pre.scopes.count() as int;
    assert forall|i: int|
        #![trigger ps[i]]
        0 <= i < ps.len() && (forall|j: int| i < j < ps.len() ==> ps[j]@ != ps[i]@) implies mid.scopes.lookup(local, ps[i]@)
            == Some(args[i]) by {
        assert(mid.scopes.vars_of(local).dom().contains(ps[i]@));
    }
    assert(stepb(mid, rb));
}

/// What evaluating `e` at `depth` in scope `env` gives from store `pre`, and
/// the store `post` it leaves. Each part is evaluated at `depth - 1`, left to
/// right, and the first error is the result; the last step is the function
/// named after the form (`bin_post`, `compare_post`, `un_post`, `sub_post`,
/// `attr_post`, `call_sem`). Floats and dictionary displays are stated only
/// by the kind of their value.
pub open spec fn expr_sem(depth: u64, pre: Store, post: Store, env: usize, e: Expr, r: Result<BVal, Stop>) -> bool
    decreases depth,
{
    if depth == 0 {
        (r matches Err(Stop::Panic(_))) && post == pre
    } else {
        match e {
            Expr::NoneVal => r == Ok::<BVal, Stop>(BVal::NoneVal) && post == pre,
            Expr::Bool(b) => r == Ok::<BVal, Stop>(BVal::Bool(b)) && post == pre,
            Expr::Int(i) => r == Ok::<BVal, Stop>(BVal::Int(i)) && post == pre,
            Expr::Float(_) => (r matches Ok(BVal::Float(_))) && post == pre,
            Expr::Str(s) => (r matches Ok(BVal::Str(t)) && t@ == s@) && post == pre,
            Expr::Name(n) => post == pre && match pre.scopes.lookup(env as int, n@) {
                Some(v) => r == Ok::<BVal, Stop>(v),
                None => r matches Err(Stop::Error(m)) && m@ == "name '"@ + n@ + "' is not defined"@,
            },
            Expr::List(items) => exists|mid: Store, rs: Result<Seq<BVal>, Stop>|
                #![trigger steps(mid, rs)]
                items_sem(dec(depth), pre, mid, env, items, rs) && match rs {
                    Err(f) => r == Err::<BVal, Stop>(f) && post == mid,
                    Ok(vs) => r == Ok::<BVal, Stop>(BVal::List(mid.lists@.len() as usize)) && post.scopes == mid.scopes
                        && post.dicts == mid.dicts && post.funcs == mid.funcs && lists_of(&post) == lists_of(&mid).push(vs),
                },
            Expr::Dict(pairs) => exists|mid: Store, rm: Result<Map<Seq<char>, BVal>, Stop>|
                #![trigger stepm(mid, rm)]
                pairs_sem(dec(depth), pre, mid, env, pairs, Map::<Seq<char>, BVal>::empty(), rm) && match rm {
                    Err(f) => r == Err::<BVal, Stop>(f) && post == mid,
                    Ok(m) => r == Ok::<BVal, Stop>(BVal::Dict(mid.dicts@.len() as usize)) && post.scopes == mid.scopes
                        && post.lists == mid.lists && post.funcs == mid.funcs && post.dicts@.len() == mid.dicts@.len() + 1
                        && post.dicts@.subrange(0, mid.dicts@.len() as int) == mid.dicts@ && post.dicts@[mid.dicts@.len() as int]@
                        == m,
                },
            Expr::BinOp(op, l, x) => exists|mid: Store, ra: Result<BVal, Stop>|
                #![trigger step(mid, ra)]
                expr_sem(dec(depth), pre, mid, env, *l, ra) && match ra {
                    Err(f) => r == Err::<BVal, Stop>(f) && post == mid,
                    Ok(a) => exists|mid2: Store, rb: Result<BVal, Stop>|
                        #![trigger step(mid2, rb)]
                        expr_sem(dec(depth), mid, mid2, env, *x, rb) && post == mid2 && match rb {
                            Err(f) => r == Err::<BVal, Stop>(f),
                            Ok(b) => bin_post(op, a, b, r),
                        },
                },
            Expr::UnaryOp(op, x) => exists|mid: Store, ra: Result<BVal, Stop>|
                #![trigger step(mid, ra)]
                expr_sem(dec(depth), pre, mid, env, *x, ra) && post == mid && match ra {
                    Err(f) => r == Err::<BVal, Stop>(f),
                    Ok(v) => un_post(mid, op, v, r),
                },
            Expr::Compare(op, l, x) => exists|mid: Store, ra: Result<BVal, Stop>|
                #![trigger step(mid, ra)]
                expr_sem(dec(depth), pre, mid, env, *l, ra) && match ra {
                    Err(f) => r == Err::<BVal, Stop>(f) && post == mid,
                    Ok(a) => exists|mid2: Store, rb: Result<BVal, Stop>|
                        #![trigger step(mid2, rb)]
                        expr_sem(dec(depth), mid, mid2, env, *x, rb) && post == mid2 && match rb {
                            Err(f) => r == Err::<BVal, Stop>(f),
                            Ok(b) => compare_post(op, a, b, r),
                        },
                },
            Expr::Logical(op, l, x) => exists|mid: Store, ra: Result<BVal, Stop>|
                #![trigger step(mid, ra)]
                expr_sem(dec(depth), pre, mid, env, *l, ra) && match ra {
                    Err(f) => r == Err::<BVal, Stop>(f) && post == mid,
                    Ok(a) => if keeps_left_spec(op, truthy_spec(&mid, &a)) {
                        r == Ok::<BVal, Stop>(a) && post == mid
                    } else {
                        expr_sem(dec(depth), mid, post, env, *x, r)
                    },
                },
            Expr::Call(f, args, _) => exists|mid: Store, rf: Result<BVal, Stop>|
                #![trigger step(mid, rf)]
                expr_sem(dec(depth), pre, mid, env, *f, rf) && match rf {
                    Err(x) => r == Err::<BVal, Stop>(x) && post == mid,
                    Ok(fv) => exists|mid2: Store, ra: Result<Seq<BVal>, Stop>|
                        #![trigger steps(mid2, ra)]
                        items_sem(dec(depth), mid, mid2, env, args, ra) && match ra {
                            Err(x) => r == Err::<BVal, Stop>(x) && post == mid2,
                            Ok(av) => call_sem(dec(depth), mid2, post, fv, av, r),
                        },
                },
            Expr::Attribute(x, attr) => exists|mid: Store, ra: Result<BVal, Stop>|
                #![trigger step(mid, ra)]
                expr_sem(dec(depth), pre, mid, env, *x, ra) && post == mid && match ra {
                    Err(f) => r == Err::<BVal, Stop>(f),
                    Ok(o) => attr_post(o, attr@, r),
                },
            Expr::Subscript(x, i) => exists|mid: Store, ra: Result<BVal, Stop>|
                #![trigger step(mid, ra)]
                expr_sem(dec(depth), pre, mid, env, *x, ra) && match ra {
                    Err(f) => r == Err::<BVal, Stop>(f) && post == mid,
                    Ok(o) => exists|mid2: Store, rb: Result<BVal, Stop>|
                        #![trigger step(mid2, rb)]
                        expr_sem(dec(depth), mid, mid2, env, *i, rb) && post == mid2 && match rb {
                            Err(f) => r == Err::<BVal, Stop>(f),
                            Ok(iv) => sub_post(mid2, o, iv, r),
                        },
                },
            _ => (r matches Err(Stop::Error(m)) && m@ == "unsupported expression"@) && post == pre,
        }
    }
}

/// What running the statements `stmts` in order at `depth` in scope `env`
/// gives from store `pre`, and the store `post` it leaves: each statement
/// runs at `depth - 1`, and the block stops at the first one that does not
/// end normally, with its outcome.
pub open spec fn block_sem(depth: u64, pre: Store, post: Store, env: usize, stmts: Items<Stmt>, r: Result<Status<BVal>, Stop>) -> bool
    decreases depth,
{
    if depth == 0 {
        (r matches Err(Stop::Panic(_))) && post == pre
    } else {
        match stmts {
            Items::Nil => r == Ok::<Status<BVal>, Stop>(Status::Normal) && post == pre,
            Items::Cons(s, t) => (!(r matches Ok(Status::Normal)) && stmt_sem(dec(depth), pre, post, env, *s, r))
                || exists|mid: Store|
                #![trigger stepb(mid, Ok::<Status<BVal>, Stop>(Status::Normal))]
                stmt_sem(dec(depth), pre, mid, env, *s, Ok::<Status<BVal>, Stop>(Status::Normal)) && block_sem(
                    dec(depth),
                    mid,
                    post,
                    env,
                    *t,
                    r,
                ),
        }
    }
}

/// What `while c: b` gives from store `pre` with at most `n` more runs of
/// its body allowed, each part at `depth - 1`: `c` is evaluated first, and
/// where it is false the loop ends normally with the store that evaluating
/// it left; otherwise the body runs, and the loop ends on an error, a
/// `return` or a `break`, or starts again (after a normal end or a
/// `continue`), as `if c: (b; while c: b)`. With no run left, the loop
/// stops as the program does.
pub open spec fn while_run(
    depth: u64,
    n: nat,
    pre: Store,
    post: Store,
    env: usize,
    c: Expr,
    b: Items<Stmt>,
    r: Result<Status<BVal>, Stop>,
) -> bool
    decreases depth, n,
{
    if depth == 0 {
        (r matches Err(Stop::Panic(_))) && post == pre
    } else {
        exists|mid: Store, ra: Result<BVal, Stop>|
            #![trigger step(mid, ra)]
            expr_sem(dec(depth), pre, mid, env, c, ra) && match ra {
                Err(f) => r == Err::<Status<BVal>, Stop>(f) && post == mid,
                Ok(v) => if !truthy_spec(&mid, &v) {
                    r == Ok::<Status<BVal>, Stop>(Status::Normal) && post == mid
                } else {
                    exists|mid2: Store, rb: Result<Status<BVal>, Stop>|
                        #![trigger stepb(mid2, rb)]
                        block_sem(dec(depth), mid, mid2, env, b, rb) && match rb {
                            Err(f) => r == Err::<Status<BVal>, Stop>(f) && post == mid2,
                            Ok(Status::Return(x)) => r == Ok::<Status<BVal>, Stop>(Status::Return(x)) && post == mid2,
                            Ok(Status::Break) => r == Ok::<Status<BVal>, Stop>(Status::Normal) && post == mid2,
                            Ok(_) => if n == 0 {
                                (r matches Err(Stop::Panic(_))) && post == mid2
                            } else {
                                while_run(depth, (n - 1) as nat, mid2, post, env, c, b, r)
                            },
                        }
                },
            }
    }
}

/// `while c: b` whose condition is false from the store it starts in ends
/// normally, without running its body, with the store that evaluating the
/// condition left.
pub proof fn law_while_false_condition(
    depth: u64,
    pre: Store,
    mid: Store,
    env: usize,
    c: Expr,
    b: Items<Stmt>,
    v: BVal,
)
    requires
        depth > 1,
        expr_sem(dec(dec(depth)), pre, mid, env, c, Ok::<BVal, Stop>(v)),
        !truthy_spec(&mid, &v),
    ensures
        stmt_sem(depth, pre, mid, env, Stmt::While(c, b), Ok::<Status<BVal>, Stop>(Status::Normal)),
{
    assert(step(mid, Ok::<BVal, Stop>(v)));
}

/// `while c: b` is `if c: (b; while c: b)`: where the condition is true and
/// the body then ends normally or with `continue`, the loop goes on from the
/// store the body left, with one run fewer allowed.
pub proof fn law_while_unrolls(
    depth: u64,
    n: nat,
    pre: Store,
    mid: Store,
    mid2: Store,
    post: Store,
    env: usize,
    c: Expr,
    b: Items<Stmt>,
    v: BVal,
    s: Status<BVal>,
    r: Result<Status<BVal>, Stop>,
)
    requires
        depth > 0,
        n > 0,
        expr_sem(dec(depth), pre, mid, env, c, Ok::<BVal, Stop>(v)),
        truthy_spec(&mid, &v),
        block_sem(dec(depth), mid, mid2, env, b, Ok::<Status<BVal>, Stop>(s)),
        s is Normal || s is Next,
        while_run(depth, (n - 1) as nat, mid2, post, env, c, b, r),
    ensures
        while_run(depth, n, pre, post, env, c, b, r),
{
    assert(step(mid, Ok::<BVal, Stop>(v)));
    assert(stepb(mid2, Ok::<Status<BVal>, Stop>(s)));
}

/// `while c: b` ends on the first error, `return` or `break` of its body:
/// an error or a `return` is the loop's outcome, and a `break` ends it
/// normally, with the store the body left.
pub proof fn law_while_body_ends_loop(
    depth: u64,
    n: nat,
    pre: Store,
    mid: Store,
    mid2: Store,
    env: usize,
    c: Expr,
    b: Items<Stmt>,
    v: BVal,
    rb: Result<Status<BVal>, Stop>,
)
    requires
        depth > 0,
        expr_sem(dec(depth), pre, mid, env, c, Ok::<BVal, Stop>(v)),
        truthy_spec(&mid, &v),
        block_sem(dec(depth), mid, mid2, env, b, rb),
        !(rb matches Ok(s) && (s is Normal || s is Next)),
    ensures
        while_run(depth, n, pre, mid2, env, c, b, match rb {
            Ok(Status::Break) => Ok::<Status<BVal>, Stop>(Status::Normal),
            _ => rb,
        }),
{
    assert(step(mid, Ok::<BVal, Stop>(v)));
    assert(stepb(mid2, rb));
}

/// `post` is `pre` with `n` assigned `v` from scope `env`: in the nearest
/// scope that binds it, or in `env` itself where none does.
pub open spec fn assigned(pre: Store, post: Store, env: usize, n: Seq<char>, v: BVal) -> bool {
    let target = match pre.scopes.holder(env as int, n) {
        Some(s) => s,
        None => env as int,
    };
    &&& post.lists == pre.lists && post.dicts == pre.dicts && post.funcs == pre.funcs
    &&& post.scopes.count() == pre.scopes.count()
    &&& post.scopes.vars_of(target) == pre.scopes.vars_of(target).insert(n, v)
    &&& forall|j: int| 0 <= j < pre.scopes.count() && j != target ==> #[trigger] post.scopes.vars_of(j) == pre.scopes.vars_of(j)
    &&& forall|j: int| 0 <= j < pre.scopes.count() ==> #[trigger] post.scopes.parent_of(j) == pre.scopes.parent_of(j)
}

/// A trigger for the store after a loop variable is assigned.
pub open spec fn step_assign(s: Store) -> bool {
    true
}

/// What `for var in ...: b` gives from store `pre` once its items are
/// `items`, each part at `depth - 1`: `var` is assigned each item in turn
/// and the body runs; the loop ends on the body's error, `return` or
/// `break`, and normally once the items run out.
pub open spec fn for_items(
    depth: u64,
    pre: Store,
    post: Store,
    env: usize,
    var: Seq<char>,
    items: Seq<BVal>,
    b: Items<Stmt>,
    r: Result<Status<BVal>, Stop>,
) -> bool
    decreases depth, items.len(),
{
    if depth == 0 {
        (r matches Err(Stop::Panic(_))) && post == pre
    } else if items.len() == 0 {
        r == Ok::<Status<BVal>, Stop>(Status::Normal) && post == pre
    } else {
        exists|mid: Store|
            #![trigger step_assign(mid)]
            assigned(pre, mid, env, var, items[0]) && exists|mid2: Store, rb: Result<Status<BVal>, Stop>|
                #![trigger stepb(mid2, rb)]
                block_sem(dec(depth), mid, mid2, env, b, rb) && match rb {
                    Err(f) => r == Err::<Status<BVal>, Stop>(f) && post == mid2,
                    Ok(Status::Return(x)) => r == Ok::<Status<BVal>, Stop>(Status::Return(x)) && post == mid2,
                    Ok(Status::Break) => r == Ok::<Status<BVal>, Stop>(Status::Normal) && post == mid2,
                    Ok(_) => for_items(depth, mid2, post, env, var, items.drop_first(), b, r),
                }
    }
}

/// In each run of a `for` body the loop variable reads as that run's item.
pub proof fn law_for_variable_reads_item(pre: Store, mid: Store, env: usize, var: Seq<char>, v: BVal)
    requires
        env < pre.scopes.count(),
        assigned(pre, mid, env, var, v),
    ensures
        mid.scopes.lookup(env as int, var) == Some(v),
{
    crate::scopes::lemma_read_after_assign(&pre.scopes, &mid.scopes, env as int, var, v);
}

/// A `for` loop walks its items in order: it assigns the first, runs the
/// body, and where the body ends normally or with `continue` goes on with
/// the rest from the store the body left; with no items it ends normally.
pub proof fn law_for_visits_in_order(
    depth: u64,
    pre: Store,
    mid: Store,
    mid2: Store,
    post: Store,
    env: usize,
    var: Seq<char>,
    items: Seq<BVal>,
    b: Items<Stmt>,
    s: Status<BVal>,
    r: Result<Status<BVal>, Stop>,
)
    requires
        depth > 0,
        items.len() > 0,
        assigned(pre, mid, env, var, items[0]),
        block_sem(dec(depth), mid, mid2, env, b, Ok::<Status<BVal>, Stop>(s)),
        s is Normal || s is Next,
        for_items(depth, mid2, post, env, var, items.drop_first(), b, r),
    ensures
        for_items(depth, pre, post, env, var, items, b, r),
        for_items(depth, pre, pre, env, var, Seq::<BVal>::empty(), b, Ok::<Status<BVal>, Stop>(Status::Normal)),
{
    assert(step_assign(mid));
    assert(stepb(mid2, Ok::<Status<BVal>, Stop>(s)));
}

/// The items that `for` walks in the value `v`: a list's items, or each
/// character of a string as a string.
pub open spec fn iter_view(st: Store, v: BVal, items: Seq<BVal>) -> bool {
    match v {
        BVal::List(l) => l < st.lists@.len() && items == st.lists@[l as int]@,
        BVal::Str(t) => items.len() == t@.len() && forall|i: int|
            0 <= i < items.len() ==> (#[trigger] items[i] matches BVal::Str(c) && c@ == seq![t@[i]]),
        _ => false,
    }
}

/// A trigger for the items a `for` loop walks.
pub open spec fn step_items(items: Seq<BVal>) -> bool {
    true
}

/// The names of a list of parameters, in order.
pub open spec fn param_texts(ps: Items<Param>) -> Seq<Seq<char>> {
    ps.to_seq().map_values(|p: Param| p.name@)
}

/// `post` is `pre` with a new function named `n`, with the parameters `ps`
/// and the body `body`, made in scope `env` and bound to `n` there.
pub open spec fn defines(pre: Store, post: Store, env: usize, n: Seq<char>, ps: Items<Param>, body: Items<Stmt>) -> bool {
    let i = pre.funcs@.len();
    &&& post.lists == pre.lists && post.dicts == pre.dicts
    &&& post.funcs@.len() == i + 1 && post.funcs@.subrange(0, i as int) == pre.funcs@
    &&& post.funcs@[i as int].name@ == n && crate::call::names(post.funcs@[i as int].params@) == param_texts(ps)
    &&& *post.funcs@[i as int].body == body && post.funcs@[i as int].closure == env
    &&& post.scopes.count() == pre.scopes.count()
    &&& post.scopes.vars_of(env as int) == pre.scopes.vars_of(env as int).insert(n, BVal::Function(i as usize))
    &&& forall|j: int| 0 <= j < pre.scopes.count() && j != env ==> #[trigger] post.scopes.vars_of(j) == pre.scopes.vars_of(j)
    &&& forall|j: int| 0 <= j < pre.scopes.count() ==> #[trigger] post.scopes.parent_of(j) == pre.scopes.parent_of(j)
}

/// What running the statement `s` at `depth` in scope `env` gives from store
/// `pre`, and the store `post` it leaves. Its expressions are evaluated and
/// its blocks run at `depth - 1`; `while` is `while_run`, and `for` loops
/// and item assignments are stated as far as how they can end.
pub open spec fn stmt_sem(depth: u64, pre: Store, post: Store, env: usize, s: Stmt, r: Result<Status<BVal>, Stop>) -> bool
    decreases depth,
{
    if depth == 0 {
        (r matches Err(Stop::Panic(_))) && post == pre
    } else {
        match s {
            Stmt::Expr(x) => exists|mid: Store, ra: Result<BVal, Stop>|
                #![trigger step(mid, ra)]
                expr_sem(dec(depth), pre, mid, env, x, ra) && post == mid && match ra {
                    Err(f) => r == Err::<Status<BVal>, Stop>(f),
                    Ok(_) => r == Ok::<Status<BVal>, Stop>(Status::Normal),
                },
            Stmt::Assign(Expr::Name(_), x) => exists|mid: Store, ra: Result<BVal, Stop>|
                #![trigger step(mid, ra)]
                expr_sem(dec(depth), pre, mid, env, x, ra) && match ra {
                    Err(f) => r == Err::<Status<BVal>, Stop>(f) && post == mid,
                    Ok(_) => r == Ok::<Status<BVal>, Stop>(Status::Normal),
                },
            Stmt::Assign(Expr::Subscript(_, _), _) => !(r matches Ok(st) && !(st is Normal)),
            Stmt::Assign(Expr::Attribute(_, _), _) => (r matches Err(Stop::Error(m)) && m@
                == "Attribute assignment not implemented"@) && post == pre,
            Stmt::Assign(_, _) => (r matches Err(Stop::Error(m)) && m@ == "invalid assignment target"@) && post == pre,
            Stmt::If(c, b, o) => exists|mid: Store, ra: Result<BVal, Stop>|
                #![trigger step(mid, ra)]
                expr_sem(dec(depth), pre, mid, env, c, ra) && match ra {
                    Err(f) => r == Err::<Status<BVal>, Stop>(f) && post == mid,
                    Ok(v) => if truthy_spec(&mid, &v) {
                        block_sem(dec(depth), mid, post, env, b, r)
                    } else {
                        block_sem(dec(depth), mid, post, env, o, r)
                    },
                },
            Stmt::While(c, b) => if dec(depth) == 0 {
                (r matches Err(Stop::Panic(_))) && post == pre
            } else {
                while_run(dec(depth), u64::MAX as nat, pre, post, env, c, b, r)
            },
            Stmt::For(Expr::Name(var), it, b) => if dec(depth) == 0 {
                (r matches Err(Stop::Panic(_))) && post == pre
            } else {
                exists|mid: Store, ra: Result<BVal, Stop>|
                    #![trigger step(mid, ra)]
                    step(mid, ra) && expr_sem(dec(dec(depth)), pre, mid, env, it, ra) && match ra {
                        Err(f) => r == Err::<Status<BVal>, Stop>(f) && post == mid,
                        Ok(v) => if v is List && v->List_0 >= mid.lists@.len() || !(v is List || v is Str) {
                            (r matches Err(Stop::Error(m)) && m@ == "object is not iterable"@) && post == mid
                        } else {
                            exists|items: Seq<BVal>|
                                #![trigger step_items(items)]
                                step_items(items) && iter_view(mid, v, items) && for_items(dec(depth), mid, post, env, var@, items, b, r)
                        },
                    }
            },
            Stmt::FunctionDef(n, ps, _, _, body) => r == Ok::<Status<BVal>, Stop>(Status::Normal) && defines(
                pre,
                post,
                env,
                n@,
                ps,
                body,
            ),
            Stmt::Return(None) => r == Ok::<Status<BVal>, Stop>(Status::Return(BVal::NoneVal)) && post == pre,
            Stmt::Return(Some(x)) => exists|mid: Store, ra: Result<BVal, Stop>|
                #![trigger step(mid, ra)]
                expr_sem(dec(depth), pre, mid, env, x, ra) && post == mid && match ra {
                    Err(f) => r == Err::<Status<BVal>, Stop>(f),
                    Ok(v) => r == Ok::<Status<BVal>, Stop>(Status::Return(v)),
                },
            Stmt::Break => r == Ok::<Status<BVal>, Stop>(Status::Break) && post == pre,
            Stmt::Continue => r == Ok::<Status<BVal>, Stop>(Status::Next) && post == pre,
            Stmt::Pass => r == Ok::<Status<BVal>, Stop>(Status::Normal) && post == pre,
            _ => (r matches Err(Stop::Error(m)) && m@ == "unsupported statement"@) && post == pre,
        }
    }
}

/// Evaluates `e` in scope `env`. A name reads as its nearest binding; the
/// right operand of `and` / `or` is evaluated only where the left one does
/// not decide (`keeps_left`); the last step of each form is the function
/// above named after it (`binop`, `compare`, `unary`, `subscript`,
/// `attribute`, `call_function`).
pub fn eval_expr<'a, H: Host>(h: &mut H, st: &mut Store<'a>, env: usize, e: &'a Expr, depth: u64) -> (r: Result<BVal, Stop>)
    requires
        old(st).wf(),
        env < old(st).scopes.count(),
    ensures
        final(st).wf(),
        old(st).scopes.count() <= final(st).scopes.count(),
        expr_sem(depth, *old(st), *final(st), env, *e, r),
    decreases depth,
{
    if depth == 0 {
        return Err(too_deep());
    }
    let d = depth - 1;
    match e {
        Expr::NoneVal => Ok(BVal::NoneVal),
        Expr::Bool(b) => Ok(BVal::Bool(*b)),
        Expr::Int(i) => Ok(BVal::Int(*i)),
        Expr::Float(t) => Ok(BVal::Float(h.float_literal(t.as_str()))),
        Expr::Str(s) => Ok(BVal::Str(s.clone())),
        Expr::Name(n) => lookup(st, env, n.as_str()),
        Expr::List(items) => {
            let out = match eval_items(h, st, env, items, d) {
                Ok(v) => {
                    proof {
                        assert(steps(*st, Ok::<Seq<BVal>, Stop>(v@)));
                    }
                    v
                },
                Err(f) => {
                    proof {
                        assert(steps(*st, Err::<Seq<BVal>, Stop>(f)));
                    }
                    return Err(f);
                },
            };
            Ok(new_list(st, out))
        },
        Expr::Dict(pairs) => {
            let mut t: VarTable<BVal> = VarTable::new();
            match eval_pairs(h, st, env, pairs, &mut t, d) {
                Ok(_) => {
                    proof {
                        assert(stepm(*st, Ok::<Map<Seq<char>, BVal>, Stop>(t@)));
                    }
                },
                Err(f) => {
                    proof {
                        assert(stepm(*st, Err::<Map<Seq<char>, BVal>, Stop>(f)));
                    }
                    return Err(f);
                },
            }
            let ghost s2 = *st;
            let ghost m = t@;
            let v = new_dict(st, t);
            proof {
                assert(st.dicts@.subrange(0, s2.dicts@.len() as int) =~= s2.dicts@);
                assert(st.dicts@[s2.dicts@.len() as int]@ == m);
            }
            Ok(v)
        },
        Expr::BinOp(op, l, r) => {
            let a = match eval_expr(h, st, env, l, d) {
                Ok(v) => {
                    proof {
                        assert(step(*st, Ok::<BVal, Stop>(v)));
                    }
                    v
                },
                Err(f) => {
                    proof {
                        assert(step(*st, Err::<BVal, Stop>(f)));
                    }
                    return Err(f);
                },
            };
            let b = match eval_expr(h, st, env, r, d) {
                Ok(v) => {
                    proof {
                        assert(step(*st, Ok::<BVal, Stop>(v)));
                    }
                    v
                },
                Err(f) => {
                    proof {
                        assert(step(*st, Err::<BVal, Stop>(f)));
                    }
                    return Err(f);
                },
            };
            binop(h, *op, a, b)
        },
        Expr::UnaryOp(op, x) => {
            let v = match eval_expr(h, st, env, x, d) {
                Ok(v) => {
                    proof {
                        assert(step(*st, Ok::<BVal, Stop>(v)));
                    }
                    v
                },
                Err(f) => {
                    proof {
                        assert(step(*st, Err::<BVal, Stop>(f)));
                    }
                    return Err(f);
                },
            };
            unary(h, st, *op, v)
        },
        Expr::Compare(op, l, r) => {
            let a = match eval_expr(h, st, env, l, d) {
                Ok(v) => {
                    proof {
                        assert(step(*st, Ok::<BVal, Stop>(v)));
                    }
                    v
                },
                Err(f) => {
                    proof {
                        assert(step(*st, Err::<BVal, Stop>(f)));
                    }
                    return Err(f);
                },
            };
            let b = match eval_expr(h, st, env, r, d) {
                Ok(v) => {
                    proof {
                        assert(step(*st, Ok::<BVal, Stop>(v)));
                    }
                    v
                },
                Err(f) => {
                    proof {
                        assert(step(*st, Err::<BVal, Stop>(f)));
                    }
                    return Err(f);
                },
            };
            compare(h, *op, a, b)
        },
        Expr::Logical(op, l, r) => {
            let a = match eval_expr(h, st, env, l, d) {
                Ok(v) => {
                    proof {
                        assert(step(*st, Ok::<BVal, Stop>(v)));
                    }
                    v
                },
                Err(f) => {
                    proof {
                        assert(step(*st, Err::<BVal, Stop>(f)));
                    }
                    return Err(f);
                },
            };
            if keeps_left(*op, truthy(st, &a)) {
                Ok(a)
            } else {
                eval_expr(h, st, env, r, d)
            }
        },
        Expr::Call(f, args, _) => {
            let fv = match eval_expr(h, st, env, f, d) {
                Ok(v) => {
                    proof {
                        assert(step(*st, Ok::<BVal, Stop>(v)));
                    }
                    v
                },
                Err(f) => {
                    proof {
                        assert(step(*st, Err::<BVal, Stop>(f)));
                    }
                    return Err(f);
                },
            };
            let av = match eval_items(h, st, env, args, d) {
                Ok(v) => {
                    proof {
                        assert(steps(*st, Ok::<Seq<BVal>, Stop>(v@)));
                    }
                    v
                },
                Err(f) => {
                    proof {
                        assert(steps(*st, Err::<Seq<BVal>, Stop>(f)));
                    }
                    return Err(f);
                },
            };
            call_function(h, st, fv, av, d)
        },
        Expr::Attribute(x, attr) => {
            let v = match eval_expr(h, st, env, x, d) {
                Ok(v) => {
                    proof {
                        assert(step(*st, Ok::<BVal, Stop>(v)));
                    }
                    v
                },
                Err(f) => {
                    proof {
                        assert(step(*st, Err::<BVal, Stop>(f)));
                    }
                    return Err(f);
                },
            };
            attribute(&v, attr.as_str())
        },
        Expr::Subscript(x, i) => {
            let v = match eval_expr(h, st, env, x, d) {
                Ok(v) => {
                    proof {
                        assert(step(*st, Ok::<BVal, Stop>(v)));
                    }
                    v
                },
                Err(f) => {
                    proof {
                        assert(step(*st, Err::<BVal, Stop>(f)));
                    }
                    return Err(f);
                },
            };
            let iv = match eval_expr(h, st, env, i, d) {
                Ok(v) => {
                    proof {
                        assert(step(*st, Ok::<BVal, Stop>(v)));
                    }
                    v
                },
                Err(f) => {
                    proof {
                        assert(step(*st, Err::<BVal, Stop>(f)));
                    }
                    return Err(f);
                },
            };
            subscript(st, &v, &iv)
        },
        _ => Err(error("unsupported expression")),
    }
}

/// Whether a value counts as true (see `truthy`).
pub open spec fn truthy_spec(st: &Store, v: &BVal) -> bool {
    match *v {
        BVal::NoneVal => false,
        BVal::Bool(x) => x,
        BVal::Int(i) => i != 0,
        BVal::Float(f) => !(f == 0 || f == 0x8000_0000_0000_0000u64),
        BVal::Str(s) => s@.len() != 0,
        BVal::List(l) => !(l < st.lists@.len()) || st.lists@[l as int]@.len() != 0,
        BVal::Dict(d) => !(d < st.dicts@.len()) || st.dicts@[d as int]@ != Map::<Seq<char>, BVal>::empty(),
        _ => true,
    }
}

/// Evaluates `items` in order (see `items_sem`).
fn eval_items<'a, H: Host>(h: &mut H, st: &mut Store<'a>, env: usize, items: &'a Items<Expr>, depth: u64) -> (r: Result<Vec<BVal>, Stop>)
    requires
        old(st).wf(),
        env < old(st).scopes.count(),
    ensures
        final(st).wf(),
        old(st).scopes.count() <= final(st).scopes.count(),
        items_sem(depth, *old(st), *final(st), env, *items, seq_res(r)),
    decreases depth,
{
    if depth == 0 {
        return Err(too_deep());
    }
    match items {
        Items::Nil => Ok(Vec::new()),
        Items::Cons(x, t) => {
            let ghost s0 = *st;
            let a = match eval_expr(h, st, env, x, depth - 1) {
                Ok(a) => a,
                Err(f) => {
                    return Err(f);
                },
            };
            let ghost s1 = *st;
            let mut rest = match eval_items(h, st, env, t, depth - 1) {
                Ok(v) => v,
                Err(f) => {
                    proof {
                        assert(step(s1, Ok::<BVal, Stop>(a)));
                    }
                    return Err(f);
                },
            };
            let ghost rv = rest@;
            let mut out: Vec<BVal> = Vec::new();
            out.push(a);
            out.append(&mut rest);
            proof {
                let w = seq![a] + rv;
                assert(out@ =~= w);
                assert(w.len() > 0 && w[0] == a);
                assert(w.drop_first() =~= rv);
                assert(step(s1, Ok::<BVal, Stop>(w[0])));
            }
            Ok(out)
        },
    }
}

/// Evaluates the pairs of a dictionary display in order into `t`: each key,
/// then its value.
fn eval_pairs<'a, H: Host>(
    h: &mut H,
    st: &mut Store<'a>,
    env: usize,
    pairs: &'a Items<(Expr, Expr)>,
    t: &mut VarTable<BVal>,
    depth: u64,
) -> (r: Result<(), Stop>)
    requires
        old(st).wf(),
        env < old(st).scopes.count(),
        old(t).wf(),
    ensures
        final(st).wf(),
        old(st).scopes.count() <= final(st).scopes.count(),
        final(t).wf(),
        pairs_sem(
            depth,
            *old(st),
            *final(st),
            env,
            *pairs,
            old(t)@,
            match r {
                Ok(_) => Ok::<Map<Seq<char>, BVal>, Stop>(final(t)@),
                Err(f) => Err::<Map<Seq<char>, BVal>, Stop>(f),
            },
        ),
    decreases depth,
{
    if depth == 0 {
        return Err(too_deep());
    }
    match pairs {
        Items::Nil => Ok(()),
        Items::Cons(p, rest) => {
            let k = match eval_expr(h, st, env, &p.0, depth - 1) {
                Ok(v) => {
                    proof {
                        assert(step(*st, Ok::<BVal, Stop>(v)));
                    }
                    v
                },
                Err(f) => {
                    proof {
                        assert(step(*st, Err::<BVal, Stop>(f)));
                    }
                    return Err(f);
                },
            };
            let key = dict_key(&k)?;
            let v = match eval_expr(h, st, env, &p.1, depth - 1) {
                Ok(v) => {
                    proof {
                        assert(step(*st, Ok::<BVal, Stop>(v)));
                    }
                    v
                },
                Err(f) => {
                    proof {
                        assert(step(*st, Err::<BVal, Stop>(f)));
                    }
                    return Err(f);
                },
            };
            t.set(key.as_str(), v);
            eval_pairs(h, st, env, rest, t, depth - 1)
        },
    }
}

/// Runs one statement in scope `env` and says how it ended.
pub fn exec_stmt<'a, H: Host>(h: &mut H, st: &mut Store<'a>, env: usize, s: &'a Stmt, depth: u64) -> (r: Result<Status<BVal>, Stop>)
    requires
        old(st).wf(),
        env < old(st).scopes.count(),
    ensures
        final(st).wf(),
        old(st).scopes.count() <= final(st).scopes.count(),
        stmt_sem(depth, *old(st), *final(st), env, *s, r),
    decreases depth,
{
    if depth == 0 {
        return Err(too_deep());
    }
    let d = depth - 1;
    match s {
        Stmt::Expr(x) => {
            let _v = match eval_expr(h, st, env, x, d) {
                Ok(v) => {
                    proof {
                        assert(step(*st, Ok::<BVal, Stop>(v)));
                    }
                    v
                },
                Err(f) => {
                    proof {
                        assert(step(*st, Err::<BVal, Stop>(f)));
                    }
                    return Err(f);
                },
            };
            Ok(Status::Normal)
        },
        Stmt::Assign(target, x) => match target {
            Expr::Name(n) => {
                let v = match eval_expr(h, st, env, x, d) {
                    Ok(v) => {
                        proof {
                            assert(step(*st, Ok::<BVal, Stop>(v)));
                        }
                        v
                    },
                    Err(f) => {
                        proof {
                            assert(step(*st, Err::<BVal, Stop>(f)));
                        }
                        return Err(f);
                    },
                };
                st.scopes.assign(env, n.as_str(), v);
                Ok(Status::Normal)
            },
            Expr::Subscript(t, i) => {
                let tv = eval_expr(h, st, env, t, d)?;
                let iv = eval_expr(h, st, env, i, d)?;
                let v = eval_expr(h, st, env, x, d)?;
                set_item(st, &tv, &iv, v)?;
                Ok(Status::Normal)
            },
            Expr::Attribute(_, _) => Err(error("Attribute assignment not implemented")),
            _ => Err(error("invalid assignment target")),
        },
        Stmt::If(c, b, o) => {
            let cv = match eval_expr(h, st, env, c, d) {
                Ok(v) => {
                    proof {
                        assert(step(*st, Ok::<BVal, Stop>(v)));
                    }
                    v
                },
                Err(f) => {
                    proof {
                        assert(step(*st, Err::<BVal, Stop>(f)));
                    }
                    return Err(f);
                },
            };
            if truthy(st, &cv) {
                exec_block(h, st, env, b, d)
            } else {
                exec_block(h, st, env, o, d)
            }
        },
        Stmt::While(c, b) => run_while(h, st, env, c, b, d),
        Stmt::For(target, it, b) => match target {
            Expr::Name(n) => run_for(h, st, env, n.as_str(), it, b, d),
            _ => Err(error("unsupported statement")),
        },
        Stmt::FunctionDef(name, params, _, _, body) => {
            let f = Func { name: name.clone(), params: param_names(params), body, closure: env };
            let i = st.funcs.len();
            let ghost s0 = *st;
            st.funcs.push(f);
            st.scopes.set(env, name.as_str(), BVal::Function(i));
            proof {
                assert(st.funcs@.subrange(0, i as int) =~= s0.funcs@);
            }
            Ok(Status::Normal)
        },
        Stmt::Return(x) => match x {
            Some(x) => {
                let v = match eval_expr(h, st, env, x, d) {
                    Ok(v) => {
                        proof {
                            assert(step(*st, Ok::<BVal, Stop>(v)));
                        }
                        v
                    },
                    Err(f) => {
                        proof {
                            assert(step(*st, Err::<BVal, Stop>(f)));
                        }
                        return Err(f);
                    },
                };
                Ok(Status::Return(v))
            },
            None => Ok(Status::Return(BVal::NoneVal)),
        },
        Stmt::Break => Ok(Status::Break),
        Stmt::Continue => Ok(Status::Next),
        Stmt::Pass => Ok(Status::Normal),
        _ => Err(error("unsupported statement")),
    }
}

/// Runs the statements of a block in order, stopping at the first that does
/// not end normally (`block_goes_on`).
pub fn exec_block<'a, H: Host>(
    h: &mut H,
    st: &mut Store<'a>,
    env: usize,
    stmts: &'a Items<Stmt>,
    depth: u64,
) -> (r: Result<Status<BVal>, Stop>)
    requires
        old(st).wf(),
        env < old(st).scopes.count(),
    ensures
        final(st).wf(),
        old(st).scopes.count() <= final(st).scopes.count(),
        block_sem(depth, *old(st), *final(st), env, *stmts, r),
    decreases depth,
{
    if depth == 0 {
        return Err(too_deep());
    }
    match stmts {
        Items::Nil => Ok(Status::Normal),
        Items::Cons(s, t) => {
            let status = exec_stmt(h, st, env, s, depth - 1)?;
            if !block_goes_on(&status) {
                return Ok(status);
            }
            proof {
                assert(stepb(*st, Ok::<Status<BVal>, Stop>(Status::Normal)));
            }
            exec_block(h, st, env, t, depth - 1)
        },
    }
}

/// `while c: body`. After each run of the body the loop goes on, ends, or
/// returns as `after_body` says. A loop runs at most `u64::MAX` times.
fn run_while<'a, H: Host>(
    h: &mut H,
    st: &mut Store<'a>,
    env: usize,
    c: &'a Expr,
    body: &'a Items<Stmt>,
    depth: u64,
) -> (r: Result<Status<BVal>, Stop>)
    requires
        old(st).wf(),
        env < old(st).scopes.count(),
    ensures
        final(st).wf(),
        old(st).scopes.count() <= final(st).scopes.count(),
        !(r matches Ok(st) && (st is Break || st is Next)),
        depth == 0 ==> (r matches Err(Stop::Panic(_))) && *final(st) == *old(st),
        depth > 0 ==> while_run(depth, u64::MAX as nat, *old(st), *final(st), env, *c, *body, r),
    decreases depth,
{
    if depth == 0 {
        return Err(too_deep());
    }
    let mut spins: u64 = u64::MAX;
    loop
        invariant
            st.wf(),
            env < st.scopes.count(),
            old(st).scopes.count() <= st.scopes.count(),
            depth > 0,
            forall|post: Store, r: Result<Status<BVal>, Stop>|
                #![trigger while_run(depth, spins as nat, *st, post, env, *c, *body, r)]
                while_run(depth, spins as nat, *st, post, env, *c, *body, r) ==> while_run(
                    depth,
                    u64::MAX as nat,
                    *old(st),
                    post,
                    env,
                    *c,
                    *body,
                    r,
                ),
        decreases spins,
    {
        let ghost s_it = *st;
        let cv = match eval_expr(h, st, env, c, depth - 1) {
            Ok(v) => {
                proof {
                    assert(step(*st, Ok::<BVal, Stop>(v)));
                }
                v
            },
            Err(f) => {
                proof {
                    assert(step(*st, Err::<BVal, Stop>(f)));
                    assert(while_run(depth, spins as nat, s_it, *st, env, *c, *body, Err::<Status<BVal>, Stop>(f)));
                }
                return Err(f);
            },
        };
        let ghost s_mid = *st;
        if !truthy(st, &cv) {
            proof {
                assert(while_run(depth, spins as nat, s_it, *st, env, *c, *body, Ok::<Status<BVal>, Stop>(Status::Normal)));
            }
            return Ok(Status::Normal);
        }
        let rb = exec_block(h, st, env, body, depth - 1);
        proof {
            assert(stepb(*st, rb));
        }
        let status = match rb {
            Ok(s) => s,
            Err(f) => {
                proof {
                    assert(while_run(depth, spins as nat, s_it, *st, env, *c, *body, Err::<Status<BVal>, Stop>(f)));
                }
                return Err(f);
            },
        };
        match after_body(status) {
            Some(done) => {
                proof {
                    assert(while_run(depth, spins as nat, s_it, *st, env, *c, *body, Ok::<Status<BVal>, Stop>(done)));
                }
                return Ok(done);
            },
            None => {},
        }
        if spins == 0 {
            let f = Stop::Panic(String::from_str("loop ran too long"));
            proof {
                assert(while_run(depth, spins as nat, s_it, *st, env, *c, *body, Err::<Status<BVal>, Stop>(f)));
            }
            return Err(f);
        }
        let ghost sp = spins;
        spins = spins - 1;
        proof {
            assert forall|post: Store, r: Result<Status<BVal>, Stop>|
                #![trigger while_run(depth, spins as nat, *st, post, env, *c, *body, r)]
                while_run(depth, spins as nat, *st, post, env, *c, *body, r) implies while_run(
                    depth,
                    u64::MAX as nat,
                    *old(st),
                    post,
                    env,
                    *c,
                    *body,
                    r,
                ) by {
                assert(step(s_mid, Ok::<BVal, Stop>(cv)));
                assert(stepb(*st, rb));
                assert(while_run(depth, sp as nat, s_it, post, env, *c, *body, r));
            }
        }
    }
}

/// `for var in it: body`: `var` is bound to each item in turn (as an
/// assignment) before the body runs.
fn run_for<'a, H: Host>(
    h: &mut H,
    st: &mut Store<'a>,
    env: usize,
    var: &str,
    it: &'a Expr,
    body: &'a Items<Stmt>,
    depth: u64,
) -> (r: Result<Status<BVal>, Stop>)
    requires
        old(st).wf(),
        env < old(st).scopes.count(),
    ensures
        final(st).wf(),
        old(st).scopes.count() <= final(st).scopes.count(),
        !(r matches Ok(st) && (st is Break || st is Next)),
        depth == 0 ==> (r matches Err(Stop::Panic(_))) && *final(st) == *old(st),
        depth > 0 ==> exists|mid: Store, ra: Result<BVal, Stop>|
            #![trigger step(mid, ra)]
            step(mid, ra) && expr_sem(dec(depth), *old(st), mid, env, *it, ra) && match ra {
                Err(f) => r == Err::<Status<BVal>, Stop>(f) && *final(st) == mid,
                Ok(v) => if v is List && v->List_0 >= mid.lists@.len() || !(v is List || v is Str) {
                    (r matches Err(Stop::Error(m)) && m@ == "object is not iterable"@) && *final(st) == mid
                } else {
                    exists|items: Seq<BVal>|
                        #![trigger step_items(items)]
                        step_items(items) && iter_view(mid, v, items) && for_items(depth, mid, *final(st), env, var@, items, *body, r)
                },
            },
    decreases depth,
{
    if depth == 0 {
        return Err(too_deep());
    }
    let iv = match eval_expr(h, st, env, it, depth - 1) {
        Ok(v) => {
            proof {
                assert(step(*st, Ok::<BVal, Stop>(v)));
            }
            v
        },
        Err(f) => {
            proof {
                assert(step(*st, Err::<BVal, Stop>(f)));
            }
            return Err(f);
        },
    };
    let ghost s0 = *st;
    let items = match iter_items(st, &iv) {
        Ok(v) => v,
        Err(f) => {
            return Err(f);
        },
    };
    proof {
        assert(iter_view(s0, iv, items@));
        assert(step_items(items@));
        assert(items@.skip(0) =~= items@);
    }
    let n = items.len();
    let mut k: usize = 0;
    while k < n
        invariant
            st.wf(),
            env < st.scopes.count(),
            old(st).scopes.count() <= st.scopes.count(),
            depth > 0,
            n == items@.len(),
            k <= n,
            expr_sem(dec(depth), *old(st), s0, env, *it, Ok::<BVal, Stop>(iv)),
            step(s0, Ok::<BVal, Stop>(iv)),
            step_items(items@),
            iter_view(s0, iv, items@),
            !(iv is List && iv->List_0 >= s0.lists@.len() || !(iv is List || iv is Str)),
            forall|post: Store, r: Result<Status<BVal>, Stop>|
                #![trigger for_items(depth, *st, post, env, var@, items@.skip(k as int), *body, r)]
                for_items(depth, *st, post, env, var@, items@.skip(k as int), *body, r) ==> for_items(
                    depth,
                    s0,
                    post,
                    env,
                    var@,
                    items@,
                    *body,
                    r,
                ),
        decreases n - k,
    {
        let ghost s_it = *st;
        st.scopes.assign(env, var, items[k].duplicate());
        let ghost s_as = *st;
        proof {
            assert(step_assign(s_as));
            assert(items@.skip(k as int)[0] == items@[k as int]);
        }
        let rb = exec_block(h, st, env, body, depth - 1);
        proof {
            assert(stepb(*st, rb));
        }
        let status = match rb {
            Ok(s) => s,
            Err(f) => {
                proof {
                    assert(for_items(depth, s_it, *st, env, var@, items@.skip(k as int), *body, Err::<Status<BVal>, Stop>(f)));
                }
                return Err(f);
            },
        };
        match after_body(status) {
            Some(done) => {
                proof {
                    assert(for_items(depth, s_it, *st, env, var@, items@.skip(k as int), *body, Ok::<Status<BVal>, Stop>(done)));
                }
                return Ok(done);
            },
            None => {},
        }
        let ghost kk = k;
        k = k + 1;
        proof {
            assert(items@.skip(kk as int).drop_first() =~= items@.skip(k as int));
            assert forall|post: Store, r: Result<Status<BVal>, Stop>|
                #![trigger for_items(depth, *st, post, env, var@, items@.skip(k as int), *body, r)]
                for_items(depth, *st, post, env, var@, items@.skip(k as int), *body, r) implies for_items(
                    depth,
                    s0,
                    post,
                    env,
                    var@,
                    items@,
                    *body,
                    r,
                ) by {
                assert(step_assign(s_as));
                assert(stepb(*st, rb));
                assert(for_items(depth, s_it, post, env, var@, items@.skip(kk as int), *body, r));
            }
        }
    }
    proof {
        assert(items@.skip(k as int).len() == 0);
        assert(for_items(depth, *st, *st, env, var@, items@.skip(k as int), *body, Ok::<Status<BVal>, Stop>(Status::Normal)));
        assert(items@.skip(0) =~= items@);
    }
    Ok(Status::Normal)
}

/// Calls `f` on `args`: a built-in, a list's `append`, or a function made by
/// `def`, whose parameters are bound in a new scope nested in the one it was
/// defined in (the number of arguments must match).
pub fn call_function<'a, H: Host>(h: &mut H, st: &mut Store<'a>, f: BVal, args: Vec<BVal>, depth: u64) -> (r: Result<BVal, Stop>)
    requires
        old(st).wf(),
    ensures
        final(st).wf(),
        old(st).scopes.count() <= final(st).scopes.count(),
        call_sem(depth, *old(st), *final(st), f, args@, r),
    decreases depth,
{
    if depth == 0 {
        return Err(too_deep());
    }
    match f {
        BVal::Builtin(b) => call_builtin(h, st, b, args),
        BVal::Append(l) => {
            if args.len() != 1 {
                return Err(error("append() takes 1 argument"));
            }
            if l >= st.lists.len() {
                return Err(error("object is not callable"));
            }
            let v = args[0].duplicate();
            append_item(st, l, v);
            Ok(BVal::NoneVal)
        },
        BVal::Function(fi) => {
            if fi >= st.funcs.len() {
                return Err(error("object is not callable"));
            }
            let np = st.funcs[fi].params.len();
            if args.len() != np {
                return Err(Stop::Error(arity_text(st.funcs[fi].name.as_str(), np, args.len())));
            }
            let closure = st.funcs[fi].closure;
            let body: &'a Items<Stmt> = st.funcs[fi].body;
            if closure >= st.scopes.len() {
                return Err(error("object is not callable"));
            }
            let params = copy_names(&st.funcs[fi].params);
            let local = st.scopes.push(Some(closure));
            let mut k: usize = 0;
            while k < np
                invariant
                    st.wf(),
                    local < st.scopes.count(),
                    old(st).scopes.count() <= st.scopes.count(),
                    local == old(st).scopes.count(),
                    st.scopes.count() == old(st).scopes.count() + 1,
                    st.scopes.parent_of(local as int) == Some(closure),
                    params@.len() == np,
                    args@.len() == np,
                    k <= np,
                    fi < old(st).funcs@.len(),
                    st.funcs == old(st).funcs,
                    np == old(st).funcs@[fi as int].params@.len(),
                    forall|j: int| 0 <= j < np ==> #[trigger] params@[j]@ == old(st).funcs@[fi as int].params@[j]@,
                    forall|i: int|
                        #![trigger params@[i]]
                        0 <= i < k && (forall|j: int| i < j < k ==> params@[j]@ != params@[i]@) ==> st.scopes.vars_of(
                            local as int,
                        ).dom().contains(params@[i]@) && st.scopes.vars_of(local as int)[params@[i]@] == args@[i],
                    forall|n: Seq<char>|
                        st.scopes.vars_of(local as int).dom().contains(n) ==> exists|i: int| 0 <= i < k && #[trigger] params@[i]@ == n,
                decreases np - k,
            {
                st.scopes.set(local, params[k].as_str(), args[k].duplicate());
                k = k + 1;
            }
            proof {
                let ps = old(st).funcs@[fi as int].params@;
                let vars = st.scopes.vars_of(local as int);
                assert forall|i: int|
                    #![trigger ps[i]]
                    0 <= i < ps.len() && 0 <= i < args@.len() && (forall|j: int| i < j < ps.len() ==> ps[j]@ != ps[i]@)
                        implies vars.dom().contains(ps[i]@) && vars[ps[i]@] == args@[i] by {
                    assert(params@[i]@ == ps[i]@);
                    assert forall|j: int| i < j < k implies params@[j]@ != params@[i]@ by {
                        assert(params@[j]@ == ps[j]@);
                    }
                }
                assert forall|n: Seq<char>| vars.dom().contains(n) implies exists|i: int| 0 <= i < ps.len() && #[trigger] ps[i]@ == n by {
                    let i = choose|i: int| 0 <= i < k && #[trigger] params@[i]@ == n;
                    assert(params@[i]@ == ps[i]@);
                }
                assert(binds_params(vars, ps, args@));
            }
            let ghost mid = *st;
            let rb = exec_block(h, st, local, body, depth - 1);
            proof {
                assert(stepb(mid, rb));
            }
            match rb {
                Ok(Status::Return(v)) => Ok(v),
                Ok(_) => Ok(BVal::NoneVal),
                Err(f) => Err(f),
            }
        },
        _ => Err(error("object is not callable")),
    }
}

/// A trigger for the stores and outcome of a run.
pub open spec fn run_step(pre: Store, post: Store, rb: Result<Status<BVal>, Stop>) -> bool {
    true
}

/// The store a script starts from: one global scope that binds `print`,
/// `len` and `range` to the built-ins of those names, and nothing else made.
pub open spec fn run_start(pre: Store) -> bool {
    &&& pre.wf()
    &&& pre.scopes.count() == 1
    &&& pre.scopes.parent_of(0) is None
    &&& pre.scopes.vars_of(0) == Map::<Seq<char>, BVal>::empty().insert("print"@, BVal::Builtin(Builtin::Print)).insert(
        "len"@,
        BVal::Builtin(Builtin::Len),
    ).insert("range"@, BVal::Builtin(Builtin::Range))
    &&& pre.lists@.len() == 0 && pre.dicts@.len() == 0 && pre.funcs@.len() == 0
}

/// Runs a script: its names are looked up in one global scope that holds
/// `print`, `len` and `range`.
pub fn run<'a, H: Host>(h: &mut H, module: &'a Items<Stmt>) -> (r: Result<(), Stop>)
    ensures
        *module is Nil ==> r is Ok,
        exists|pre: Store, post: Store, rb: Result<Status<BVal>, Stop>|
            #![trigger run_step(pre, post, rb)]
            run_start(pre) && block_sem(DEPTH, pre, post, 0, *module, rb) && match rb {
                Ok(_) => r is Ok,
                Err(e) => r == Err::<(), Stop>(e),
            },
{
    let mut st = Store { scopes: Scopes::new(), lists: Vec::new(), dicts: Vec::new(), funcs: Vec::new() };
    let g = st.scopes.push(None);
    st.scopes.set(g, "print", BVal::Builtin(Builtin::Print));
    st.scopes.set(g, "len", BVal::Builtin(Builtin::Len));
    st.scopes.set(g, "range", BVal::Builtin(Builtin::Range));
    let ghost pre = st;
    let rb = exec_block(h, &mut st, g, module, DEPTH);
    proof {
        assert(run_step(pre, st, rb));
    }
    match rb {
        Ok(_) => Ok(()),
        Err(e) => Err(e),
    }
}

} // verus!
