//! The evaluator of the `Py4` dialect: values, the store they live in, and
//! the statements and expressions that compute on them. The host prints,
//! computes on floating-point numbers, and reaches files, the clock, the
//! environment and other programs.

use vstd::prelude::*;
use vstd::string::{StrSliceExecFns, StringExecFns};

use crate::ast::{Expr, Handler, Items, LogicOp, Op, Stmt};
use crate::basic::Num;
use crate::call::{bind_args, Source};
use crate::control::{after_body, block_goes_on, first_handler, keeps_left, keeps_left_spec, search_dirs, seq_index, with_receiver, Status};
use crate::ops::{int_binop, str_compare, trunc_rem, IntOut};
use crate::runtime::{check_unpack, fstring_parts, join_strs, json_literals, module_file_paths, range_values, split_str, FPart};
use crate::scopes::Scopes;
use crate::text::{chars_of, string_from_chars, str_eq};
use crate::value::{as_key, display, json_dumps, type_of, Value};
use crate::vars::VarTable;

verus! {

/// What the evaluator asks of the program that runs it. Floats travel as
/// the bits of an `f64`; files as the handles the host gave out.
pub trait Host {
    /// Prints one line.
    fn print(&mut self, line: String);

    /// The number that a float literal's text denotes.
    fn float_literal(&mut self, text: &str) -> u64;

    /// The printed form of a float.
    fn float_text(&mut self, bits: u64) -> String;

    /// `a op b` on the two operands taken as floats (`+ - * /`).
    fn float_arith(&mut self, op: Op, a: Num, b: Num) -> u64;

    /// `a` taken as a float, then cut to an integer as Rust's `as` does.
    fn float_to_int(&mut self, a: Num) -> i64;

    /// The float nearest to `i`.
    fn int_to_float(&mut self, i: i64) -> u64;

    /// `a op b` for a comparison operator, on the operands taken as floats.
    fn float_compare(&mut self, op: Op, a: Num, b: Num) -> bool;

    /// `-a`, with `a` taken as a float.
    fn float_neg(&mut self, a: Num) -> u64;

    /// The square root of `a`, taken as a float.
    fn float_sqrt(&mut self, a: Num) -> u64;

    /// Seconds since the epoch.
    fn now(&mut self) -> u64;

    /// Waits for `secs` seconds.
    fn sleep(&mut self, secs: Num);

    /// An environment variable.
    fn getenv(&mut self, key: &str) -> Option<String>;

    /// Runs a shell command: its exit status, or the error's text.
    fn system(&mut self, cmd: &str) -> Result<i64, String>;

    /// The command-line arguments, from the script's path on.
    fn argv(&mut self) -> Vec<String>;

    /// Ends the program with an exit status.
    fn exit(&mut self, code: Num);

    /// Opens a file (`mode` is `r`, `w` or `a`): a handle, or the error's text.
    fn open(&mut self, path: &str, mode: &str) -> Result<u64, String>;

    /// The rest of an open file.
    fn read(&mut self, file: u64) -> Result<String, String>;

    /// Writes to an open file.
    fn write(&mut self, file: u64, text: &str) -> Result<(), String>;

    /// Closes a file.
    fn close(&mut self, file: u64);

    /// The text of the source file at `path`, where there is one.
    fn read_source(&mut self, path: &str) -> Option<String>;
}

/// A value. Lists, dictionaries, functions, classes, objects and files are
/// shared: a value names them by their index in the store; a module names
/// its scope.
pub enum PVal {
    NoneVal,
    Bool(bool),
    Int(i64),
    Float(u64),
    Str(String),
    /// A tuple: its items never change once it is made.
    Tuple(usize),
    List(usize),
    Dict(usize),
    Function(usize),
    Builtin(String),
    /// A method of a list, a dictionary, a string or a file.
    Method(Box<PVal>, String),
    Class(usize),
    Instance(usize),
    BoundMethod(Box<PVal>, Box<PVal>),
    Exception(String, Box<PVal>),
    Module(String, usize),
    File(usize),
}

impl PVal {
    /// A copy of the value (what it shares stays shared).
    pub fn duplicate(&self) -> (r: PVal)
        ensures
            r == *self,
        decreases self,
    {
        match self {
            PVal::NoneVal => PVal::NoneVal,
            PVal::Bool(b) => PVal::Bool(*b),
            PVal::Int(i) => PVal::Int(*i),
            PVal::Float(f) => PVal::Float(*f),
            PVal::Str(s) => PVal::Str(s.clone()),
            PVal::Tuple(i) => PVal::Tuple(*i),
            PVal::List(i) => PVal::List(*i),
            PVal::Dict(i) => PVal::Dict(*i),
            PVal::Function(i) => PVal::Function(*i),
            PVal::Builtin(n) => PVal::Builtin(n.clone()),
            PVal::Method(o, n) => PVal::Method(Box::new((**o).duplicate()), n.clone()),
            PVal::Class(i) => PVal::Class(*i),
            PVal::Instance(i) => PVal::Instance(*i),
            PVal::BoundMethod(r, f) => PVal::BoundMethod(Box::new((**r).duplicate()), Box::new((**f).duplicate())),
            PVal::Exception(t, a) => PVal::Exception(t.clone(), Box::new((**a).duplicate())),
            PVal::Module(n, e) => PVal::Module(n.clone(), *e),
            PVal::File(i) => PVal::File(*i),
        }
    }
}

/// Why evaluation stopped: an exception the script may catch, or a fault on
/// which the program stops as Rust's arithmetic does.
pub enum Fault {
    Raise(PVal),
    Panic(String),
}

/// A function: its parameters, defaults, body and the scope it was made in.
pub struct Func {
    pub name: String,
    pub params: Vec<String>,
    pub defaults: Vec<(String, PVal)>,
    pub vararg: Option<String>,
    pub kwarg: Option<String>,
    pub body: Items<Stmt>,
    pub closure: usize,
}

/// A class: its name, its base class and its table of methods (nested in the
/// base's table).
pub struct Class {
    pub name: String,
    pub base: Option<usize>,
    pub table: usize,
}

/// An object: its class and its attributes.
pub struct Object {
    pub class: usize,
    pub attrs: VarTable<PVal>,
}

/// Everything a run has made.
pub struct Store {
    pub scopes: Scopes<PVal>,
    pub methods: Scopes<PVal>,
    pub tuples: Vec<Vec<PVal>>,
    pub lists: Vec<Vec<PVal>>,
    pub dicts: Vec<VarTable<PVal>>,
    pub funcs: Vec<Func>,
    pub classes: Vec<Class>,
    pub objects: Vec<Object>,
    /// The host's handle of each file, and whether it is still open.
    pub files: Vec<(u64, bool)>,
    /// The modules loaded so far, by name.
    pub modules: VarTable<PVal>,
}

impl Store {
    /// The scopes and method tables are well nested, and every table binds
    /// each name once.
    pub open spec fn wf(&self) -> bool {
        &&& self.scopes.wf()
        &&& self.methods.wf()
        &&& self.modules.wf()
        &&& forall|i: int| 0 <= i < self.dicts@.len() ==> (#[trigger] self.dicts@[i]).wf()
        &&& forall|i: int| 0 <= i < self.objects@.len() ==> (#[trigger] self.objects@[i]).attrs.wf()
    }

    /// An empty store.
    pub fn new() -> (s: Store)
        ensures
            s.wf(),
            s.scopes.count() == 0,
    {
        Store {
            scopes: Scopes::new(),
            methods: Scopes::new(),
            tuples: Vec::new(),
            lists: Vec::new(),
            dicts: Vec::new(),
            funcs: Vec::new(),
            classes: Vec::new(),
            objects: Vec::new(),
            files: Vec::new(),
            modules: VarTable::new(),
        }
    }
}

/// An exception of type `typ` with the message `msg`.
pub fn exc(typ: &str, msg: &str) -> (v: PVal)
    ensures
        v matches PVal::Exception(t, a) && t@ == typ@ && (*a matches PVal::Str(m) && m@ == msg@),
{
    PVal::Exception(String::from_str(typ), Box::new(PVal::Str(String::from_str(msg))))
}

/// Raises an exception of type `typ` with the message `msg`.
pub fn raise(typ: &str, msg: &str) -> (f: Fault)
    ensures
        f matches Fault::Raise(PVal::Exception(t, a)) && t@ == typ@ && (*a matches PVal::Str(m) && m@ == msg@),
{
    Fault::Raise(exc(typ, msg))
}

/// `f` raises the exception `typ` with the message `msg`.
pub open spec fn raised(f: Fault, typ: Seq<char>, msg: Seq<char>) -> bool {
    f matches Fault::Raise(PVal::Exception(t, a)) && t@ == typ && (*a matches PVal::Str(m) && m@ == msg)
}

/// `r` is a failure that raises the exception `typ` with the message `msg`.
pub open spec fn raises<T>(r: Result<T, Fault>, typ: Seq<char>, msg: Seq<char>) -> bool {
    r matches Err(f) && raised(f, typ, msg)
}

/// An exception made by the library's shared code, as a value.
pub fn from_error(v: Value) -> (p: PVal)
    ensures
        v matches Value::Exception(t, a) ==> (p matches PVal::Exception(u, _) && u@ == t@),
        forall|typ: Seq<char>, msg: Seq<char>| crate::value::is_error(v, typ, msg) ==> #[trigger] raised(Fault::Raise(p), typ, msg),
{
    match v {
        Value::Exception(t, a) => match *a {
            Value::Str(m) => PVal::Exception(t, Box::new(PVal::Str(m))),
            _ => PVal::Exception(t, Box::new(PVal::NoneVal)),
        },
        _ => PVal::NoneVal,
    }
}

/// `a`, `b` and `c` one after the other.
fn concat3(a: &str, b: &str, c: &str) -> (s: String)
    ensures
        s@ == a@ + b@ + c@,
{
    let mut s = String::from_str(a);
    s.append(b);
    s.append(c);
    s
}

/// The fault when evaluation nests deeper than `DEPTH`.
fn too_deep() -> (f: Fault)
    ensures
        f is Panic,
{
    Fault::Panic(String::from_str("maximum recursion depth exceeded"))
}

/// How deep evaluation may nest: every nested evaluation spends one unit,
/// so no script that fits in memory reaches it.
pub const DEPTH: u64 = 0xffff_ffff_ffff_ffffu64;

/// What `n` reads as in scope `env`, or the `NameError` for an unbound name.
pub fn lookup(st: &Store, env: usize, n: &str) -> (r: Result<PVal, Fault>)
    requires
        st.wf(),
        env < st.scopes.count(),
    ensures
        match st.scopes.lookup(env as int, n@) {
            Some(v) => r == Ok::<PVal, Fault>(v),
            None => r matches Err(Fault::Raise(PVal::Exception(t, a))) && t@ == "NameError"@ && (*a matches PVal::Str(
                m,
            ) && m@ == "name '"@ + n@ + "' is not defined"@),
        },
{
    match st.scopes.get(env, n) {
        Some(v) => Ok(v.duplicate()),
        None => Err(Fault::Raise(PVal::Exception(String::from_str("NameError"), Box::new(PVal::Str(concat3("name '", n, "' is not defined")))))),
    }
}

/// Whether a value counts as true: `None`, `False`, zero, and empty strings,
/// tuples, lists and dictionaries are false.
pub fn truthy(st: &Store, v: &PVal) -> (b: bool)
    requires
        st.wf(),
    ensures
        b == truthy_spec(st, v),
{
    match v {
        PVal::NoneVal => false,
        PVal::Bool(x) => *x,
        PVal::Int(i) => *i != 0,
        PVal::Float(f) => !(*f == 0 || *f == 0x8000_0000_0000_0000u64),
        PVal::Str(s) => s.as_str().unicode_len() != 0,
        PVal::Tuple(t) => {
            if *t < st.tuples.len() {
                st.tuples[*t].len() != 0
            } else {
                true
            }
        },
        PVal::List(l) => {
            if *l < st.lists.len() {
                st.lists[*l].len() != 0
            } else {
                true
            }
        },
        PVal::Dict(d) => {
            if *d < st.dicts.len() {
                !st.dicts[*d].is_empty()
            } else {
                true
            }
        },
        _ => true,
    }
}

/// A value as a number, or the `TypeError` for one that is not.
pub fn as_num(v: &PVal) -> (r: Result<Num, Fault>)
    ensures
        match *v {
            PVal::Int(i) => r matches Ok(Num::Int(j)) && j == i,
            PVal::Float(f) => r matches Ok(Num::Float(g)) && g == f,
            PVal::Bool(b) => r matches Ok(Num::Bool(c)) && c == b,
            _ => raises(r, "TypeError"@, "expected number"@),
        },
{
    match v {
        PVal::Int(i) => Ok(Num::Int(*i)),
        PVal::Float(f) => Ok(Num::Float(*f)),
        PVal::Bool(b) => Ok(Num::Bool(*b)),
        _ => Err(raise("TypeError", "expected number")),
    }
}

/// Whether a number is zero.
fn num_is_zero(n: &Num) -> (b: bool)
    ensures
        b == match *n {
            Num::Int(i) => i == 0,
            Num::Float(f) => f == 0 || f == 0x8000_0000_0000_0000u64,
            Num::Bool(x) => !x,
        },
{
    match n {
        Num::Int(i) => *i == 0,
        Num::Float(f) => *f == 0 || *f == 0x8000_0000_0000_0000u64,
        Num::Bool(b) => !*b,
    }
}

/// The value as the library's printing, JSON and typing code sees it.
pub fn to_value<H: Host>(h: &mut H, st: &Store, v: &PVal, depth: u64) -> (r: Value)
    requires
        st.wf(),
    ensures
        depth > 0 ==> match *v {
            PVal::NoneVal => r == Value::NoneVal,
            PVal::Bool(b) => r == Value::Bool(b),
            PVal::Int(i) => r == Value::Int(i),
            PVal::Str(s) => r matches Value::Str(t) && t@ == s@,
            _ => !(r is Str) && !(r is Int),
        },
    decreases depth,
{
    if depth == 0 {
        return Value::NoneVal;
    }
    let d = depth - 1;
    match v {
        PVal::NoneVal => Value::NoneVal,
        PVal::Bool(b) => Value::Bool(*b),
        PVal::Int(i) => Value::Int(*i),
        PVal::Float(f) => Value::Float(h.float_text(*f)),
        PVal::Str(s) => Value::Str(s.clone()),
        PVal::Tuple(t) => {
            if *t < st.tuples.len() {
                Value::Tuple(values_of(h, st, &st.tuples[*t], d))
            } else {
                Value::Tuple(Vec::new())
            }
        },
        PVal::List(l) => {
            if *l < st.lists.len() {
                Value::List(values_of(h, st, &st.lists[*l], d))
            } else {
                Value::List(Vec::new())
            }
        },
        PVal::Dict(i) => {
            if *i >= st.dicts.len() {
                return Value::Dict(Vec::new());
            }
            let entries = st.dicts[*i].entries();
            let n = entries.len();
            let mut out: Vec<(String, Value)> = Vec::new();
            let mut k: usize = 0;
            while k < n
                invariant
                    st.wf(),
                    n == entries@.len(),
                    k <= n,
                    d < depth,
                decreases n - k,
            {
                let x = to_value(h, st, &entries[k].1, d);
                out.push((entries[k].0.clone(), x));
                k = k + 1;
            }
            Value::Dict(out)
        },
        PVal::Function(f) => {
            if *f < st.funcs.len() {
                Value::Function(st.funcs[*f].name.clone())
            } else {
                Value::Function(String::from_str("?"))
            }
        },
        PVal::Builtin(n) => Value::Builtin(n.clone()),
        PVal::Method(_, n) => Value::Method(n.clone()),
        PVal::Class(c) => Value::Class(class_name(st, *c)),
        PVal::Instance(o) => {
            if *o < st.objects.len() {
                Value::Instance(Some(class_name(st, st.objects[*o].class)))
            } else {
                Value::Instance(None)
            }
        },
        PVal::BoundMethod(_, _) => Value::BoundMethod,
        PVal::Exception(t, a) => Value::Exception(t.clone(), Box::new(to_value(h, st, a, d))),
        PVal::Module(n, _) => Value::Module(n.clone()),
        PVal::File(f) => Value::File(*f < st.files.len() && st.files[*f].1),
    }
}

/// The values of `items`, as the library's printing code sees them.
fn values_of<H: Host>(h: &mut H, st: &Store, items: &Vec<PVal>, depth: u64) -> (r: Vec<Value>)
    requires
        st.wf(),
    decreases depth,
{
    let mut out: Vec<Value> = Vec::new();
    if depth == 0 {
        return out;
    }
    let mut k: usize = 0;
    while k < items.len()
        invariant
            st.wf(),
            k <= items@.len(),
            depth > 0,
        decreases items@.len() - k,
    {
        let x = to_value(h, st, &items[k], depth - 1);
        out.push(x);
        k = k + 1;
    }
    out
}

/// The name of class `c`.
fn class_name(st: &Store, c: usize) -> (s: String)
    ensures
        s@ == class_name_spec(st, c as int),
{
    if c < st.classes.len() {
        st.classes[c].name.clone()
    } else {
        String::from_str("?")
    }
}

/// The outermost layer of a value: enough for its type and for its key.
fn shallow<H: Host>(h: &mut H, st: &Store, v: &PVal) -> (r: Value)
    requires
        st.wf(),
    ensures
        v is Str ==> (r matches Value::Str(t) && t@ == v->Str_0@),
        v is Int ==> r == Value::Int(v->Int_0),
        !(v is Str) ==> !(r is Str),
        !(v is Int) ==> !(r is Int),
        v is NoneVal ==> r == Value::NoneVal,
        v is Bool ==> r == Value::Bool(v->Bool_0),
        v is List ==> r is List,
        v is Tuple ==> r is Tuple,
        v is Dict ==> r is Dict,
{
    match v {
        PVal::Tuple(_) => Value::Tuple(Vec::new()),
        PVal::List(_) => Value::List(Vec::new()),
        PVal::Dict(_) => Value::Dict(Vec::new()),
        PVal::Exception(t, _) => Value::Exception(t.clone(), Box::new(Value::NoneVal)),
        _ => to_value(h, st, v, 1),
    }
}

/// The key of a value: a string itself, an integer its decimal digits.
pub open spec fn pkey(v: PVal) -> Option<Seq<char>> {
    match v {
        PVal::Str(s) => Some(s@),
        PVal::Int(i) => Some(crate::text::signed_decimal(i as int)),
        _ => None,
    }
}

/// The key that a value indexes a dictionary by (a `TypeError` for an
/// unhashable value).
pub fn key_of<H: Host>(h: &mut H, st: &Store, v: &PVal) -> (r: Result<String, Fault>)
    requires
        st.wf(),
    ensures
        match pkey(*v) {
            Some(k) => r matches Ok(s) && s@ == k,
            None => raises(r, "TypeError"@, "unhashable type"@),
        },
{
    let x = shallow(h, st, v);
    match as_key(&x) {
        Ok(k) => Ok(k),
        Err(e) => Err(Fault::Raise(from_error(e))),
    }
}

/// The name of the type of a value of a built-in kind.
pub open spec fn kind_of_value(v: PVal) -> Option<Seq<char>> {
    match v {
        PVal::NoneVal => Some("NoneType"@),
        PVal::Bool(_) => Some("bool"@),
        PVal::Int(_) => Some("int"@),
        PVal::Str(_) => Some("str"@),
        PVal::List(_) => Some("list"@),
        PVal::Tuple(_) => Some("tuple"@),
        PVal::Dict(_) => Some("dict"@),
        _ => None,
    }
}

/// The type name of a value, as `type()` gives it.
fn type_text<H: Host>(h: &mut H, st: &Store, v: &PVal) -> (s: String)
    requires
        st.wf(),
    ensures
        kind_of_value(*v) matches Some(n) ==> s@ == "<class '"@ + n + "'>"@,
{
    let x = shallow(h, st, v);
    type_of(&x)
}

/// The method `n` of class `c` or of one of its bases: the nearest binding
/// of `n` in the chain of method tables.
pub open spec fn method_spec(st: &Store, c: int, n: Seq<char>) -> Option<PVal> {
    if 0 <= c < st.classes@.len() && st.classes@[c].table < st.methods.count() {
        st.methods.lookup(st.classes@[c].table as int, n)
    } else {
        None
    }
}

/// The name of class `c`.
pub open spec fn class_name_spec(st: &Store, c: int) -> Seq<char> {
    if 0 <= c < st.classes@.len() {
        st.classes@[c].name@
    } else {
        "?"@
    }
}

/// The method `n` of class `c` or of one of its bases.
pub fn class_method(st: &Store, c: usize, n: &str) -> (r: Option<PVal>)
    requires
        st.wf(),
    ensures
        r == method_spec(st, c as int, n@),
{
    if c >= st.classes.len() {
        return None;
    }
    let t = st.classes[c].table;
    if t >= st.methods.len() {
        return None;
    }
    match st.methods.get(t, n) {
        Some(v) => Some(v.duplicate()),
        None => None,
    }
}

/// The method `n` of the class of an object.
pub open spec fn method_of_spec(st: &Store, v: PVal, n: Seq<char>) -> Option<PVal> {
    match v {
        PVal::Instance(o) => if o < st.objects@.len() {
            method_spec(st, st.objects@[o as int].class as int, n)
        } else {
            None
        },
        _ => None,
    }
}

/// The method `n` of the class of a value that is an object.
fn method_of(st: &Store, v: &PVal, n: &str) -> (r: Option<PVal>)
    requires
        st.wf(),
    ensures
        r == method_of_spec(st, *v, n@),
{
    match v {
        PVal::Instance(o) => {
            if *o < st.objects.len() {
                class_method(st, st.objects[*o].class, n)
            } else {
                None
            }
        },
        _ => None,
    }
}

/// Whether class `c` is named `target` or has a base that is.
fn is_subclass(st: &Store, c: usize, target: &str) -> (b: bool)
    ensures
        b == subclass_spec(st, c as int, target@),
{
    let mut cur = c;
    loop
        invariant
            subclass_spec(st, c as int, target@) == subclass_spec(st, cur as int, target@),
        decreases cur,
    {
        if cur >= st.classes.len() {
            return false;
        }
        if str_eq(st.classes[cur].name.as_str(), target) {
            return true;
        }
        match st.classes[cur].base {
            Some(b) => {
                if b >= cur {
                    return false;
                }
                cur = b;
            },
            None => {
                return false;
            },
        }
    }
}

/// `b` is `a` with at most its lists changed.
pub open spec fn only_lists(a: &Store, b: &Store) -> bool {
    &&& a.scopes == b.scopes && a.methods == b.methods && a.tuples == b.tuples && a.dicts == b.dicts
    &&& a.funcs == b.funcs && a.classes == b.classes && a.objects == b.objects && a.files == b.files
    &&& a.modules == b.modules
}

/// `b` is `a` with at most its tuples changed.
pub open spec fn only_tuples(a: &Store, b: &Store) -> bool {
    &&& a.scopes == b.scopes && a.methods == b.methods && a.lists == b.lists && a.dicts == b.dicts
    &&& a.funcs == b.funcs && a.classes == b.classes && a.objects == b.objects && a.files == b.files
    &&& a.modules == b.modules
}

/// `b` is `a` with at most its dictionaries changed.
pub open spec fn only_dicts(a: &Store, b: &Store) -> bool {
    &&& a.scopes == b.scopes && a.methods == b.methods && a.lists == b.lists && a.tuples == b.tuples
    &&& a.funcs == b.funcs && a.classes == b.classes && a.objects == b.objects && a.files == b.files
    &&& a.modules == b.modules
}

/// `b` is `a` with at most its functions changed.
pub open spec fn only_funcs(a: &Store, b: &Store) -> bool {
    &&& a.scopes == b.scopes && a.methods == b.methods && a.lists == b.lists && a.tuples == b.tuples
    &&& a.dicts == b.dicts && a.classes == b.classes && a.objects == b.objects && a.files == b.files
    &&& a.modules == b.modules
}

/// `b` is `a` with at most its scopes changed.
pub open spec fn only_scopes(a: &Store, b: &Store) -> bool {
    &&& a.methods == b.methods && a.lists == b.lists && a.tuples == b.tuples && a.dicts == b.dicts
    &&& a.funcs == b.funcs && a.classes == b.classes && a.objects == b.objects && a.files == b.files
    &&& a.modules == b.modules
}

/// The items of every tuple of the store.
pub open spec fn tuples_of(st: &Store) -> Seq<Seq<PVal>> {
    st.tuples@.map_values(|v: Vec<PVal>| v@)
}

/// The items of every list of the store.
pub open spec fn lists_of(st: &Store) -> Seq<Seq<PVal>> {
    st.lists@.map_values(|v: Vec<PVal>| v@)
}

/// A new list in the store.
pub fn new_list(st: &mut Store, items: Vec<PVal>) -> (v: PVal)
    requires
        old(st).wf(),
    ensures
        final(st).wf(),
        final(st).scopes == old(st).scopes,
        only_lists(old(st), final(st)),
        lists_of(final(st)) == lists_of(old(st)).push(items@),
        v matches PVal::List(i) && i == old(st).lists@.len(),
{
    let i = st.lists.len();
    st.lists.push(items);
    proof {
        assert(lists_of(st) =~= lists_of(old(st)).push(items@));
    }
    PVal::List(i)
}

/// A new tuple in the store.
pub fn new_tuple(st: &mut Store, items: Vec<PVal>) -> (v: PVal)
    requires
        old(st).wf(),
    ensures
        final(st).wf(),
        final(st).scopes == old(st).scopes,
        final(st).tuples@ == old(st).tuples@.push(items),
        only_tuples(old(st), final(st)),
        tuples_of(final(st)) == tuples_of(old(st)).push(items@),
        v matches PVal::Tuple(i) && i == old(st).tuples@.len(),
{
    let i = st.tuples.len();
    st.tuples.push(items);
    proof {
        assert(tuples_of(st) =~= tuples_of(old(st)).push(items@));
    }
    PVal::Tuple(i)
}

/// A new dictionary in the store.
pub fn new_dict(st: &mut Store, t: VarTable<PVal>) -> (v: PVal)
    requires
        old(st).wf(),
        t.wf(),
    ensures
        final(st).wf(),
        final(st).scopes == old(st).scopes,
        v matches PVal::Dict(i) && i == old(st).dicts@.len() && final(st).dicts@[i as int] == t,
        only_dicts(old(st), final(st)),
        final(st).dicts@ == old(st).dicts@.push(t),
{
    let i = st.dicts.len();
    st.dicts.push(t);
    proof {
        assert forall|j: int| 0 <= j < st.dicts@.len() implies (#[trigger] st.dicts@[j]).wf() by {
            if j < i {
                assert(st.dicts@[j] == old(st).dicts@[j]);
            }
        }
    }
    PVal::Dict(i)
}

/// Binds key `k` of dictionary `d` to `v`.
pub fn dict_set(st: &mut Store, d: usize, k: &str, v: PVal)
    requires
        old(st).wf(),
        d < old(st).dicts@.len(),
    ensures
        final(st).wf(),
        final(st).scopes == old(st).scopes,
        final(st).dicts@.len() == old(st).dicts@.len(),
        final(st).dicts@[d as int]@ == old(st).dicts@[d as int]@.insert(k@, v),
{
    let mut t: VarTable<PVal> = VarTable::new();
    st.dicts.set_and_swap(d, &mut t);
    assert(t == old(st).dicts@[d as int]);
    t.set(k, v);
    st.dicts.set_and_swap(d, &mut t);
    proof {
        assert forall|j: int| 0 <= j < st.dicts@.len() implies (#[trigger] st.dicts@[j]).wf() by {
            if j != d {
                assert(st.dicts@[j] == old(st).dicts@[j]);
            }
        }
    }
}

/// Sets attribute `k` of object `o` to `v`.
pub fn attr_set(st: &mut Store, o: usize, k: &str, v: PVal)
    requires
        old(st).wf(),
        o < old(st).objects@.len(),
    ensures
        final(st).wf(),
        final(st).scopes == old(st).scopes,
        final(st).objects@.len() == old(st).objects@.len(),
        final(st).objects@[o as int].attrs@ == old(st).objects@[o as int].attrs@.insert(k@, v),
{
    let mut obj = Object { class: 0, attrs: VarTable::new() };
    st.objects.set_and_swap(o, &mut obj);
    assert(obj == old(st).objects@[o as int]);
    obj.attrs.set(k, v);
    st.objects.set_and_swap(o, &mut obj);
    proof {
        assert forall|j: int| 0 <= j < st.objects@.len() implies (#[trigger] st.objects@[j]).attrs.wf() by {
            if j != o {
                assert(st.objects@[j] == old(st).objects@[j]);
            }
        }
    }
}

/// A new object of class `c`, with no attributes.
fn new_object(st: &mut Store, c: usize) -> (v: PVal)
    requires
        old(st).wf(),
    ensures
        final(st).wf(),
        final(st).scopes == old(st).scopes,
        v matches PVal::Instance(i) && i == old(st).objects@.len(),
        final(st).objects@.len() == old(st).objects@.len() + 1,
{
    let i = st.objects.len();
    st.objects.push(Object { class: c, attrs: VarTable::new() });
    proof {
        assert forall|j: int| 0 <= j < st.objects@.len() implies (#[trigger] st.objects@[j]).attrs.wf() by {
            if j < i {
                assert(st.objects@[j] == old(st).objects@[j]);
            }
        }
    }
    PVal::Instance(i)
}

/// `op` applied to two integers, for `+`, `-` and `*`.
pub open spec fn int_arith(op: Op, a: int, b: int) -> int {
    if op == Op::Add {
        a + b
    } else if op == Op::Sub {
        a - b
    } else {
        a * b
    }
}

/// A number: an integer, a float or a boolean.
pub open spec fn is_num(v: PVal) -> bool {
    v is Int || v is Float || v is Bool
}

/// A number that is zero.
pub open spec fn num_zero(v: PVal) -> bool {
    match v {
        PVal::Int(i) => i == 0,
        PVal::Float(f) => f == 0 || f == 0x8000_0000_0000_0000u64,
        PVal::Bool(b) => !b,
        _ => false,
    }
}

/// What `l op r` gives for an arithmetic operator, where `l` is not an
/// object with `__add__`. Floats are the host's, so only their kind is fixed.
pub open spec fn binop_post(op: Op, l: PVal, r: PVal, res: Result<PVal, Fault>) -> bool {
    if op == Op::Add && l is Str && r is Str {
        res matches Ok(PVal::Str(s)) && s@ == l->Str_0@ + r->Str_0@
    } else if l is Int && r is Int {
        let a = l->Int_0 as int;
        let b = r->Int_0 as int;
        if op == Op::Add || op == Op::Sub || op == Op::Mul {
            let x = int_arith(op, a, b);
            if i64::MIN <= x <= i64::MAX {
                res == Ok::<PVal, Fault>(PVal::Int(x as i64))
            } else {
                res matches Err(Fault::Panic(m)) && m@ == crate::basic::overflow_spec(op)
            }
        } else if op == Op::Div {
            if b == 0 {
                raises(res, "ZeroDivisionError"@, "division by zero"@)
            } else {
                res matches Ok(PVal::Float(_))
            }
        } else if op == Op::Mod {
            if b == 0 {
                raises(res, "ZeroDivisionError"@, "modulo by zero"@)
            } else if a == i64::MIN && b == -1 {
                res matches Err(Fault::Panic(m)) && m@ == crate::basic::overflow_spec(op)
            } else {
                res == Ok::<PVal, Fault>(PVal::Int(trunc_rem(a, b) as i64))
            }
        } else {
            raises(res, "TypeError"@, "unsupported operand"@)
        }
    } else if !is_num(l) || !is_num(r) {
        raises(res, "TypeError"@, "expected number"@)
    } else if op == Op::Add || op == Op::Sub || op == Op::Mul {
        res matches Ok(PVal::Float(_))
    } else if op == Op::Div {
        if num_zero(r) {
            raises(res, "ZeroDivisionError"@, "division by zero"@)
        } else {
            res matches Ok(PVal::Float(_))
        }
    } else if op == Op::Mod {
        res matches Ok(PVal::Float(_)) || res matches Err(Fault::Panic(_))
    } else {
        raises(res, "TypeError"@, "unsupported operand"@)
    }
}

/// `a op b` for an arithmetic operator, where `a` is not an object with
/// `__add__` (see `binop_post`). `%` on floats cuts both operands to
/// integers first, as the interpreter always has.
pub fn binop<H: Host>(h: &mut H, op: Op, l: &PVal, r: &PVal) -> (res: Result<PVal, Fault>)
    ensures
        binop_post(op, *l, *r, res),
{
    if op == Op::Add {
        match (l, r) {
            (PVal::Str(a), PVal::Str(b)) => {
                let mut s = a.clone();
                s.append(b.as_str());
                return Ok(PVal::Str(s));
            },
            _ => {},
        }
    }
    match (l, r) {
        (PVal::Int(a), PVal::Int(b)) => {
            return match int_binop(op, *a, *b) {
                Ok(IntOut::Int(x)) => Ok(PVal::Int(x)),
                Ok(IntOut::Ratio(x, y)) => Ok(PVal::Float(h.float_arith(Op::Div, Num::Int(x), Num::Int(y)))),
                Ok(IntOut::Overflow) => Err(Fault::Panic(String::from_str(crate::basic::overflow_text(op)))),
                Err(e) => Err(Fault::Raise(from_error(e))),
            };
        },
        _ => {},
    }
    let a = as_num(l)?;
    let b = as_num(r)?;
    match op {
        Op::Add | Op::Sub | Op::Mul => Ok(PVal::Float(h.float_arith(op, a, b))),
        Op::Mod => {
            let x = h.float_to_int(a);
            let y = h.float_to_int(b);
            if y == 0 {
                return Err(Fault::Panic(String::from_str("attempt to calculate the remainder with a divisor of zero")));
            }
            match int_binop(Op::Mod, x, y) {
                Ok(IntOut::Int(v)) => Ok(PVal::Float(h.int_to_float(v))),
                _ => Err(Fault::Panic(String::from_str(crate::basic::overflow_text(Op::Mod)))),
            }
        },
        Op::Div => {
            if num_is_zero(&b) {
                return Err(raise("ZeroDivisionError", "division by zero"));
            }
            Ok(PVal::Float(h.float_arith(op, a, b)))
        },
        _ => Err(raise("TypeError", "unsupported operand")),
    }
}

/// Whether `op` is a comparison operator.
pub open spec fn is_comparison(op: Op) -> bool {
    op == Op::Eq || op == Op::Ne || op == Op::Lt || op == Op::Le || op == Op::Gt || op == Op::Ge
}

/// What `l op r` gives for a comparison operator: strings compare for
/// equality only (any other comparison of strings is false); numbers compare
/// as floats, by the host.
pub open spec fn compare_post(op: Op, l: PVal, r: PVal, res: Result<PVal, Fault>) -> bool {
    if l is Str && r is Str {
        res == Ok::<PVal, Fault>(PVal::Bool(op == Op::Eq && l->Str_0@ == r->Str_0@ || op == Op::Ne && l->Str_0@ != r->Str_0@))
    } else if !is_num(l) || !is_num(r) {
        raises(res, "TypeError"@, "expected number"@)
    } else if is_comparison(op) {
        res matches Ok(PVal::Bool(_))
    } else {
        res == Ok::<PVal, Fault>(PVal::Bool(false))
    }
}

/// `a op b` for a comparison operator (see `compare_post`).
pub fn compare<H: Host>(h: &mut H, op: Op, l: &PVal, r: &PVal) -> (res: Result<PVal, Fault>)
    ensures
        compare_post(op, *l, *r, res),
{
    match (l, r) {
        (PVal::Str(a), PVal::Str(b)) => {
            return Ok(PVal::Bool(str_compare(op, a, b)));
        },
        _ => {},
    }
    let a = as_num(l)?;
    let b = as_num(r)?;
    let v = match op {
        Op::Eq | Op::Ne | Op::Lt | Op::Le | Op::Gt | Op::Ge => h.float_compare(op, a, b),
        _ => false,
    };
    Ok(PVal::Bool(v))
}

/// What `op v` gives: `not` the opposite of the value's truth, `-` of an
/// integer its negation (stopping on the one that overflows), `-` of another
/// number a float by the host.
pub open spec fn unary_post(st: &Store, op: Op, v: PVal, res: Result<PVal, Fault>) -> bool {
    if op == Op::Not {
        res == Ok::<PVal, Fault>(PVal::Bool(!truthy_spec(st, &v)))
    } else if op == Op::Neg {
        if v is Int {
            if v->Int_0 == i64::MIN {
                res matches Err(Fault::Panic(m)) && m@ == "attempt to negate with overflow"@
            } else {
                res == Ok::<PVal, Fault>(PVal::Int((-v->Int_0) as i64))
            }
        } else if is_num(v) {
            res matches Ok(PVal::Float(_))
        } else {
            raises(res, "TypeError"@, "expected number"@)
        }
    } else {
        raises(res, "TypeError"@, "bad unary op"@)
    }
}

/// `-v` and `not v` (see `unary_post`).
pub fn unary<H: Host>(h: &mut H, st: &Store, op: Op, v: &PVal) -> (res: Result<PVal, Fault>)
    requires
        st.wf(),
    ensures
        unary_post(st, op, *v, res),
{
    if op == Op::Neg {
        match v {
            PVal::Int(i) => {
                if *i == i64::MIN {
                    Err(Fault::Panic(String::from_str("attempt to negate with overflow")))
                } else {
                    Ok(PVal::Int(-*i))
                }
            },
            _ => {
                let n = as_num(v)?;
                Ok(PVal::Float(h.float_neg(n)))
            },
        }
    } else if op == Op::Not {
        Ok(PVal::Bool(!truthy(st, v)))
    } else {
        Err(raise("TypeError", "bad unary op"))
    }
}

/// Whether a value counts as true (see `truthy`).
pub open spec fn truthy_spec(st: &Store, v: &PVal) -> bool {
    match *v {
        PVal::NoneVal => false,
        PVal::Bool(x) => x,
        PVal::Int(i) => i != 0,
        PVal::Float(f) => !(f == 0 || f == 0x8000_0000_0000_0000u64),
        PVal::Str(s) => s@.len() != 0,
        PVal::Tuple(t) => !(t < st.tuples@.len()) || st.tuples@[t as int]@.len() != 0,
        PVal::List(l) => !(l < st.lists@.len()) || st.lists@[l as int]@.len() != 0,
        PVal::Dict(d) => !(d < st.dicts@.len()) || st.dicts@[d as int]@ != Map::<Seq<char>, PVal>::empty(),
        _ => true,
    }
}

/// What `items[idx]` gives for the items of a tuple or a list: the item
/// where the index lies inside (negative indices are not counted from the
/// end), `IndexError` with `msg` where it does not.
pub open spec fn index_post(items: Seq<PVal>, idx: PVal, msg: Seq<char>, r: Result<PVal, Fault>) -> bool {
    match idx {
        PVal::Int(i) => if 0 <= i < items.len() {
            r == Ok::<PVal, Fault>(items[i as int])
        } else {
            raises(r, "IndexError"@, msg)
        },
        _ => raises(r, "TypeError"@, "index must be int"@),
    }
}

/// What `obj[idx]` gives where `obj` is not an object: an item of a tuple
/// or a list, the value of a key of a dictionary (`KeyError` carrying the
/// index itself where the key is missing).
pub open spec fn subscript_post(st: &Store, obj: PVal, idx: PVal, r: Result<PVal, Fault>) -> bool {
    match obj {
        PVal::Tuple(t) => if t < st.tuples@.len() {
            index_post(st.tuples@[t as int]@, idx, "tuple index out of range"@, r)
        } else {
            raises(r, "TypeError"@, "object is not subscriptable"@)
        },
        PVal::List(l) => if l < st.lists@.len() {
            index_post(st.lists@[l as int]@, idx, "list index out of range"@, r)
        } else {
            raises(r, "TypeError"@, "object is not subscriptable"@)
        },
        PVal::Dict(d) => if d < st.dicts@.len() {
            match pkey(idx) {
                Some(k) => if st.dicts@[d as int]@.dom().contains(k) {
                    r == Ok::<PVal, Fault>(st.dicts@[d as int]@[k])
                } else {
                    r matches Err(Fault::Raise(PVal::Exception(n, a))) && n@ == "KeyError"@ && *a == idx
                },
                None => raises(r, "TypeError"@, "unhashable type"@),
            }
        } else {
            raises(r, "TypeError"@, "object is not subscriptable"@)
        },
        _ => raises(r, "TypeError"@, "object is not subscriptable"@),
    }
}

/// `obj[idx]` where `obj` is not an object: an item of a tuple or a list,
/// where the index lies inside it, or the value of a key of a dictionary.
pub fn subscript<H: Host>(h: &mut H, st: &Store, obj: &PVal, idx: &PVal) -> (r: Result<PVal, Fault>)
    requires
        st.wf(),
    ensures
        subscript_post(st, *obj, *idx, r),
{
    match obj {
        PVal::Tuple(t) => {
            if *t >= st.tuples.len() {
                return Err(raise("TypeError", "object is not subscriptable"));
            }
            match idx {
                PVal::Int(i) => match seq_index(*i, st.tuples[*t].len()) {
                    Some(k) => Ok(st.tuples[*t][k].duplicate()),
                    None => Err(raise("IndexError", "tuple index out of range")),
                },
                _ => Err(raise("TypeError", "index must be int")),
            }
        },
        PVal::List(l) => {
            if *l >= st.lists.len() {
                return Err(raise("TypeError", "object is not subscriptable"));
            }
            match idx {
                PVal::Int(i) => match seq_index(*i, st.lists[*l].len()) {
                    Some(k) => Ok(st.lists[*l][k].duplicate()),
                    None => Err(raise("IndexError", "list index out of range")),
                },
                _ => Err(raise("TypeError", "index must be int")),
            }
        },
        PVal::Dict(d) => {
            if *d >= st.dicts.len() {
                return Err(raise("TypeError", "object is not subscriptable"));
            }
            let k = key_of(h, st, idx)?;
            match st.dicts[*d].get(k.as_str()) {
                Some(v) => Ok(v.duplicate()),
                None => Err(Fault::Raise(PVal::Exception(String::from_str("KeyError"), Box::new(idx.duplicate())))),
            }
        },
        _ => Err(raise("TypeError", "object is not subscriptable")),
    }
}

/// What `set_item` does for `obj[idx] = v`.
pub open spec fn set_item_post<T>(pre: Store, post: Store, obj: PVal, idx: PVal, v: PVal, r: Result<T, Fault>) -> bool {
    &&& (post.scopes == pre.scopes)
    &&& ((obj is List && obj->List_0 < pre.lists@.len() && idx is Int) ==> ({
        let l = obj->List_0 as int;
        let i = idx->Int_0 as int;
        if 0 <= i < pre.lists@[l]@.len() {
            r is Ok && lists_of(&post) == lists_of(&pre).update(l, lists_of(&pre)[l].update(i, v))
        } else {
            (r matches Err(Fault::Raise(PVal::Exception(t, _))) && t@ == "IndexError"@) && lists_of(&post)
                == lists_of(&pre)
        }
    }))
    &&& ((obj is Dict && obj->Dict_0 < pre.dicts@.len() && idx is Str) ==> (r is Ok
        && post.dicts@[obj->Dict_0 as int]@ == pre.dicts@[obj->Dict_0 as int]@.insert(idx->Str_0@, v)))
}

/// `obj[idx] = v` where `obj` is not an object: an item of a list inside
/// it, or a key of a dictionary.
pub fn set_item<H: Host>(h: &mut H, st: &mut Store, obj: &PVal, idx: &PVal, v: PVal) -> (r: Result<(), Fault>)
    requires
        old(st).wf(),
    ensures
        final(st).wf(),
        set_item_post(*old(st), *final(st), *obj, *idx, v, r),
{
    match obj {
        PVal::List(l) => {
            let l = *l;
            if l >= st.lists.len() {
                return Err(raise("TypeError", "object does not support item assignment"));
            }
            let i = match idx {
                PVal::Int(i) => *i,
                _ => {
                    return Err(raise("TypeError", "list indices must be integers"));
                },
            };
            match seq_index(i, st.lists[l].len()) {
                Some(k) => {
                    let mut items: Vec<PVal> = Vec::new();
                    st.lists.set_and_swap(l, &mut items);
                    items.set(k, v);
                    st.lists.set_and_swap(l, &mut items);
                    proof {
                        assert(lists_of(st) =~= lists_of(old(st)).update(l as int, lists_of(old(st))[l as int].update(i as int, v)));
                    }
                    Ok(())
                },
                None => Err(raise("IndexError", "list assignment index out of range")),
            }
        },
        PVal::Dict(d) => {
            if *d >= st.dicts.len() {
                return Err(raise("TypeError", "object does not support item assignment"));
            }
            let k = key_of(h, st, idx)?;
            dict_set(st, *d, k.as_str(), v);
            Ok(())
        },
        PVal::Tuple(_) => Err(raise("TypeError", "tuple object does not support item assignment")),
        _ => Err(raise("TypeError", "object does not support item assignment")),
    }
}

/// The items that a `for` loop, an unpacking or a comprehension walks: those
/// of a tuple or a list, or the characters of a string, each as a string.
pub fn iter_items(st: &Store, v: &PVal) -> (r: Option<Vec<PVal>>)
    requires
        st.wf(),
    ensures
        (v is List && v->List_0 < st.lists@.len()) ==> (r matches Some(items) && items@ == st.lists@[v->List_0 as int]@),
        (v is Tuple && v->Tuple_0 < st.tuples@.len()) ==> (r matches Some(items) && items@ == st.tuples@[v->Tuple_0 as int]@),
        v is Str ==> (r matches Some(items) && items@.len() == v->Str_0@.len() && forall|i: int|
            0 <= i < items@.len() ==> (#[trigger] items@[i] matches PVal::Str(c) && c@ == seq![v->Str_0@[i]])),
        !(v is List || v is Str || v is Tuple) ==> r is None,
        (v is List && v->List_0 >= st.lists@.len()) ==> r is None,
        (v is Tuple && v->Tuple_0 >= st.tuples@.len()) ==> r is None,
{
    match v {
        PVal::List(l) => {
            if *l >= st.lists.len() {
                return None;
            }
            Some(copy_vals(&st.lists[*l]))
        },
        PVal::Tuple(t) => {
            if *t >= st.tuples.len() {
                return None;
            }
            Some(copy_vals(&st.tuples[*t]))
        },
        PVal::Str(s) => {
            let cs = chars_of(s.as_str());
            let mut out: Vec<PVal> = Vec::new();
            let mut k: usize = 0;
            while k < cs.len()
                invariant
                    k <= cs@.len(),
                    cs@ == s@,
                    out@.len() == k,
                    forall|i: int| 0 <= i < k ==> (#[trigger] out@[i] matches PVal::Str(c) && c@ == seq![cs@[i]]),
                decreases cs@.len() - k,
            {
                let one: Vec<char> = vec![cs[k]];
                let c = string_from_chars(one.as_slice());
                assert(c@ =~= seq![cs@[k as int]]);
                out.push(PVal::Str(c));
                k = k + 1;
            }
            Some(out)
        },
        _ => None,
    }
}

/// A copy of a list of values.
pub fn copy_vals(src: &Vec<PVal>) -> (out: Vec<PVal>)
    ensures
        out@ == src@,
{
    let mut out: Vec<PVal> = Vec::new();
    let mut k: usize = 0;
    while k < src.len()
        invariant
            k <= src@.len(),
            out@ == src@.take(k as int),
        decreases src@.len() - k,
    {
        out.push(src[k].duplicate());
        k = k + 1;
        assert(out@ =~= src@.take(k as int));
    }
    assert(src@.take(src@.len() as int) =~= src@);
    out
}

/// What `obj.attr` gives (see `attribute`).
pub open spec fn attribute_post(st: &Store, obj: PVal, attr: Seq<char>, r: Result<PVal, Fault>) -> bool {
    match obj {
        PVal::Module(_, e) => if e < st.scopes.count() {
            match st.scopes.lookup(e as int, attr) {
                Some(v) => r == Ok::<PVal, Fault>(v),
                None => raises(r, "NameError"@, "name '"@ + attr + "' is not defined"@),
            }
        } else {
            raises(r, "AttributeError"@, "object has no attribute"@)
        },
        PVal::Instance(o) => if o < st.objects@.len() {
            let attrs = st.objects@[o as int].attrs@;
            if attrs.dom().contains(attr) {
                r == Ok::<PVal, Fault>(attrs[attr])
            } else {
                match method_spec(st, st.objects@[o as int].class as int, attr) {
                    Some(m) => r == Ok::<PVal, Fault>(PVal::BoundMethod(Box::new(obj), Box::new(m))),
                    None => raises(r, "AttributeError"@, "object has no attribute '"@ + attr + "'"@),
                }
            }
        } else {
            raises(r, "AttributeError"@, "object has no attribute"@)
        },
        PVal::Class(c) => match method_spec(st, c as int, attr) {
            Some(m) => r == Ok::<PVal, Fault>(m),
            None => raises(
                r,
                "AttributeError"@,
                "type object '"@ + class_name_spec(st, c as int) + "' has no attribute '"@ + attr + "'"@,
            ),
        },
        PVal::List(_) | PVal::Dict(_) | PVal::Str(_) | PVal::File(_) => r matches Ok(PVal::Method(o, n)) && *o == obj
            && n@ == attr,
        _ => raises(r, "AttributeError"@, "object has no attribute"@),
    }
}

/// `obj.attr`: a module's variable, an object's attribute or its class's
/// method (bound to the object), a class's method, or a method of a list,
/// a dictionary, a string or a file.
pub fn attribute(st: &Store, obj: &PVal, attr: &str) -> (r: Result<PVal, Fault>)
    requires
        st.wf(),
    ensures
        attribute_post(st, *obj, attr@, r),
{
    match obj {
        PVal::Module(_, e) => {
            if *e >= st.scopes.len() {
                return Err(raise("AttributeError", "object has no attribute"));
            }
            lookup(st, *e, attr)
        },
        PVal::Instance(o) => {
            if *o >= st.objects.len() {
                return Err(raise("AttributeError", "object has no attribute"));
            }
            match st.objects[*o].attrs.get(attr) {
                Some(v) => {
                    return Ok(v.duplicate());
                },
                None => {},
            }
            match class_method(st, st.objects[*o].class, attr) {
                Some(m) => Ok(PVal::BoundMethod(Box::new(obj.duplicate()), Box::new(m))),
                None => Err(Fault::Raise(exc_string("AttributeError", concat3("object has no attribute '", attr, "'")))),
            }
        },
        PVal::Class(c) => match class_method(st, *c, attr) {
            Some(m) => Ok(m),
            None => {
                let name = class_name(st, *c);
                let mut m = concat3("type object '", name.as_str(), "' has no attribute '");
                m.append(attr);
                m.append("'");
                Err(Fault::Raise(exc_string("AttributeError", m)))
            },
        },
        PVal::List(_) | PVal::Dict(_) | PVal::Str(_) | PVal::File(_) => Ok(PVal::Method(Box::new(obj.duplicate()), String::from_str(attr))),
        _ => Err(raise("AttributeError", "object has no attribute")),
    }
}

/// An exception of type `typ` whose message is `msg`.
fn exc_string(typ: &str, msg: String) -> (v: PVal)
    ensures
        v matches PVal::Exception(t, a) && t@ == typ@ && (*a matches PVal::Str(m) && m@ == msg@),
{
    PVal::Exception(String::from_str(typ), Box::new(PVal::Str(msg)))
}

/// The items of a list of the syntax tree, in order.
pub fn refs<'a, T>(l: &'a Items<T>) -> (r: Vec<&'a T>)
    ensures
        (*l is Nil) == (r@.len() == 0),
        r@.len() == l.to_seq().len(),
        forall|i: int| 0 <= i < r@.len() ==> *#[trigger] r@[i] == l.to_seq()[i],
    decreases l,
{
    match l {
        Items::Nil => Vec::new(),
        Items::Cons(h, t) => {
            let mut r: Vec<&'a T> = Vec::new();
            r.push(&**h);
            let mut rest = refs(&**t);
            let ghost rv = rest@;
            r.append(&mut rest);
            proof {
                assert forall|i: int| 0 <= i < r@.len() implies *#[trigger] r@[i] == l.to_seq()[i] by {
                    if i > 0 {
                        assert(r@[i] == rv[i - 1]);
                    }
                }
            }
            r
        },
    }
}

/// The names of a list of the syntax tree, copied.
fn names_of(l: &Items<String>) -> (r: Vec<String>)
    ensures
        crate::call::names(r@) == texts_view(l.to_seq()),
{
    let v = refs(l);
    let mut out: Vec<String> = Vec::new();
    let mut k: usize = 0;
    while k < v.len()
        invariant
            k <= v@.len(),
            v@.len() == l.to_seq().len(),
            out@.len() == k,
            forall|i: int| 0 <= i < v@.len() ==> *#[trigger] v@[i] == l.to_seq()[i],
            forall|i: int| 0 <= i < k ==> #[trigger] out@[i]@ == l.to_seq()[i]@,
        decreases v@.len() - k,
    {
        out.push(v[k].clone());
        k = k + 1;
    }
    proof {
        assert(crate::call::names(out@) =~= texts_view(l.to_seq()));
    }
    out
}

/// The texts of a sequence of names.
pub open spec fn texts_view(v: Seq<String>) -> Seq<Seq<char>> {
    v.map_values(|s: String| s@)
}

/// The names of the keys of a list of pairs.
fn keys_of(v: &Vec<(String, PVal)>) -> (r: Vec<String>)
    ensures
        r@.len() == v@.len(),
        crate::call::names(r@) == keys_view(v@),
{
    let mut out: Vec<String> = Vec::new();
    let mut k: usize = 0;
    while k < v.len()
        invariant
            k <= v@.len(),
            out@.len() == k,
            forall|i: int| 0 <= i < k ==> #[trigger] out@[i]@ == v@[i].0@,
        decreases v@.len() - k,
    {
        out.push(v[k].0.clone());
        k = k + 1;
    }
    proof {
        assert(crate::call::names(out@) =~= keys_view(v@));
    }
    out
}

/// Binds `k` to `v` in a list of pairs: in place where `k` is there already,
/// at the end where it is not.
fn put_pair(pairs: &mut Vec<(String, PVal)>, k: &str, v: PVal) {
    let mut i: usize = 0;
    while i < pairs.len()
        invariant
            i <= pairs@.len(),
        decreases pairs@.len() - i,
    {
        if str_eq(pairs[i].0.as_str(), k) {
            pairs.set(i, (String::from_str(k), v));
            return;
        }
        i = i + 1;
    }
    pairs.push((String::from_str(k), v));
}

/// The value bound to `k` in a list of pairs.
fn get_pair(pairs: &Vec<(String, PVal)>, k: &str) -> (r: Option<PVal>)
    ensures
        r == first_pair(pairs@, k@),
{
    let mut i: usize = 0;
    proof {
        assert(pairs@.skip(0) =~= pairs@);
    }
    while i < pairs.len()
        invariant
            i <= pairs@.len(),
            first_pair(pairs@, k@) == first_pair(pairs@.skip(i as int), k@),
        decreases pairs@.len() - i,
    {
        if str_eq(pairs[i].0.as_str(), k) {
            return Some(pairs[i].1.duplicate());
        }
        proof {
            assert(pairs@.skip(i as int).drop_first() =~= pairs@.skip(i + 1));
        }
        i = i + 1;
    }
    proof {
        assert(pairs@.skip(i as int).len() == 0);
    }
    None
}

/// Whether `name` is one of the built-in exception types.
fn is_exception_name(name: &str) -> (b: bool)
    ensures
        b == exception_name(name@),
{
    str_eq(name, "Exception") || str_eq(name, "TypeError") || str_eq(name, "ValueError") || str_eq(name, "NameError")
        || str_eq(name, "IndexError") || str_eq(name, "AttributeError") || str_eq(name, "KeyError") || str_eq(
        name,
        "IOError",
    ) || str_eq(name, "ImportError") || str_eq(name, "ZeroDivisionError") || str_eq(name, "SyntaxError")
}

/// The names that `install_builtins` binds.
pub open spec fn builtin_names() -> Set<Seq<char>> {
    set!["print"@, "str"@, "len"@, "range"@, "open"@, "type"@, "isinstance"@, "Exception"@, "TypeError"@, "ValueError"@, "NameError"@, "IndexError"@, "AttributeError"@, "KeyError"@, "IOError"@, "ImportError"@, "ZeroDivisionError"@, "SyntaxError"@]
}

/// `b` is `a` with only the variables of scope `g` changed.
pub open spec fn only_scope_vars(a: &Store, b: &Store, g: int) -> bool {
    &&& only_scopes(a, b)
    &&& b.scopes.count() == a.scopes.count()
    &&& forall|j: int| 0 <= j < a.scopes.count() ==> #[trigger] b.scopes.parent_of(j) == a.scopes.parent_of(j)
    &&& forall|j: int| 0 <= j < a.scopes.count() && j != g ==> #[trigger] b.scopes.vars_of(j) == a.scopes.vars_of(j)
}

/// Binds the built-in function `name` in scope `g`.
fn bind_builtin(st: &mut Store, g: usize, name: &str)
    requires
        old(st).wf(),
        g < old(st).scopes.count(),
    ensures
        final(st).wf(),
        only_scope_vars(old(st), final(st), g as int),
        final(st).scopes.vars_of(g as int) == old(st).scopes.vars_of(g as int).insert(name@, final(st).scopes.vars_of(g as int)[name@]),
        final(st).scopes.vars_of(g as int)[name@] matches PVal::Builtin(s) && s@ == name@,
{
    st.scopes.set(g, name, PVal::Builtin(String::from_str(name)));
}

/// Binds every built-in function and exception type in scope `g`: each
/// name of `builtin_names` to the built-in of that name.
pub fn install_builtins(st: &mut Store, g: usize)
    requires
        old(st).wf(),
        g < old(st).scopes.count(),
    ensures
        final(st).wf(),
        only_scope_vars(old(st), final(st), g as int),
        final(st).scopes.vars_of(g as int).dom() == old(st).scopes.vars_of(g as int).dom() + builtin_names(),
        forall|k: Seq<char>| #[trigger] builtin_names().contains(k) ==> (final(st).scopes.vars_of(g as int)[k] matches PVal::Builtin(s) && s@ == k),
        forall|k: Seq<char>| #![trigger final(st).scopes.vars_of(g as int)[k]] old(st).scopes.vars_of(g as int).dom().contains(k) && !builtin_names().contains(k)
            ==> final(st).scopes.vars_of(g as int)[k] == old(st).scopes.vars_of(g as int)[k],
{
    proof {
        reveal_strlit("print");
        reveal_strlit("str");
        reveal_strlit("len");
        reveal_strlit("range");
        reveal_strlit("open");
        reveal_strlit("type");
        reveal_strlit("isinstance");
        reveal_strlit("Exception");
        reveal_strlit("TypeError");
        reveal_strlit("ValueError");
        reveal_strlit("NameError");
        reveal_strlit("IndexError");
        reveal_strlit("AttributeError");
        reveal_strlit("KeyError");
        reveal_strlit("IOError");
        reveal_strlit("ImportError");
        reveal_strlit("ZeroDivisionError");
        reveal_strlit("SyntaxError");
    }
    bind_builtin(st, g, "print");
    bind_builtin(st, g, "str");
    bind_builtin(st, g, "len");
    bind_builtin(st, g, "range");
    bind_builtin(st, g, "open");
    bind_builtin(st, g, "type");
    bind_builtin(st, g, "isinstance");
    bind_builtin(st, g, "Exception");
    bind_builtin(st, g, "TypeError");
    bind_builtin(st, g, "ValueError");
    bind_builtin(st, g, "NameError");
    bind_builtin(st, g, "IndexError");
    bind_builtin(st, g, "AttributeError");
    bind_builtin(st, g, "KeyError");
    bind_builtin(st, g, "IOError");
    bind_builtin(st, g, "ImportError");
    bind_builtin(st, g, "ZeroDivisionError");
    bind_builtin(st, g, "SyntaxError");
    proof {
        assert(st.scopes.vars_of(g as int).dom() =~= old(st).scopes.vars_of(g as int).dom() + builtin_names());
    }
}

/// The names of the modules built into the interpreter.
pub open spec fn native_name(n: Seq<char>) -> bool {
    n == "math"@ || n == "time"@ || n == "os"@ || n == "sys"@ || n == "json"@
}

/// Whether `name` is a module built into the interpreter.
fn is_native(name: &str) -> (b: bool)
    ensures
        b == native_name(name@),
{
    str_eq(name, "math") || str_eq(name, "time") || str_eq(name, "os") || str_eq(name, "sys") || str_eq(name, "json")
}

/// The module `name` built into the interpreter: `math`, `time`, `os`,
/// `sys` or `json`.
fn native_module<H: Host>(h: &mut H, st: &mut Store, name: &str) -> (m: PVal)
    requires
        old(st).wf(),
    ensures
        final(st).wf(),
        old(st).scopes.count() <= final(st).scopes.count(),
        m matches PVal::Module(n, _) && n@ == name@,
        final(st).modules == old(st).modules,
        forall|j: int|
            0 <= j < old(st).scopes.count() ==> #[trigger] final(st).scopes.vars_of(j) == old(st).scopes.vars_of(j)
                && final(st).scopes.parent_of(j) == old(st).scopes.parent_of(j),
{
    let e = st.scopes.push(None);
    let ghost s1 = *st;
    if str_eq(name, "math") {
        st.scopes.set(e, "pi", PVal::Float(0x400921FB54442D18u64));
        bind_builtin(st, e, "sqrt");
    } else if str_eq(name, "time") {
        bind_builtin(st, e, "time");
        bind_builtin(st, e, "sleep");
    } else if str_eq(name, "os") {
        bind_builtin(st, e, "getenv");
        bind_builtin(st, e, "system");
    } else if str_eq(name, "sys") {
        let args = h.argv();
        let mut items: Vec<PVal> = Vec::new();
        let mut k: usize = 0;
        while k < args.len()
            invariant
                k <= args@.len(),
            decreases args@.len() - k,
        {
            items.push(PVal::Str(args[k].clone()));
            k = k + 1;
        }
        let l = new_list(st, items);
        st.scopes.set(e, "argv", l);
        bind_builtin(st, e, "exit");
    } else {
        bind_builtin(st, e, "loads");
        bind_builtin(st, e, "dumps");
    }
    proof {
        assert forall|j: int| 0 <= j < old(st).scopes.count() implies #[trigger] st.scopes.vars_of(j) == s1.scopes.vars_of(j)
            && st.scopes.parent_of(j) == s1.scopes.parent_of(j) by {
            assert(j != e);
        }
    }
    PVal::Module(String::from_str(name), e)
}

/// The tokens of `source` in the `Py4` dialect, as the interpreter reads
/// code at run time: a refusal of the scanner is the error's message, but
/// the two the interpreter meets as arithmetic failures stop the program.
fn scan(source: &str) -> (r: Result<Vec<crate::token::Token<String>>, Result<String, Fault>>) {
    if source.unicode_len() >= usize::MAX / 8 {
        return Err(Err(Fault::Panic(String::from_str("source text too large"))));
    }
    match crate::lexer::lex_source(source, crate::token::Dialect::Py4) {
        Ok(ts) => Ok(ts),
        Err(crate::lexer::LexError::IntLiteralTooLarge(_)) => Err(Err(Fault::Panic(String::from_str(
            "called `Result::unwrap()` on an `Err` value: ParseIntError { kind: PosOverflow }",
        )))),
        Err(crate::lexer::LexError::BracketDepthOverflow(_)) => Err(Err(Fault::Panic(String::from_str("attempt to add with overflow")))),
        Err(e) => Err(Ok(e.message(crate::token::Dialect::Py4))),
    }
}

/// One expression read from the start of `ts`, or the parser's message.
fn parse_code(ts: &Vec<crate::token::Token<String>>, file: &str) -> (r: Result<Expr, String>) {
    let n = ts.len();
    if n == 0 || !ts[n - 1].kind.sym_is(crate::token::Sym::Eof) {
        return Err(String::from_str("unexpected end of input"));
    }
    match crate::parser::parse_expression(ts.as_slice(), crate::token::Dialect::Py4) {
        Ok(e) => Ok(e),
        Err(e) => Err(e.message(file)),
    }
}

/// A result whose value is a sequence of values, as a `Seq`.
pub open spec fn seq_res(r: Result<Vec<PVal>, Fault>) -> Result<Seq<PVal>, Fault> {
    match r {
        Ok(v) => Ok(v@),
        Err(f) => Err(f),
    }
}

/// One less than `n`, for the depth of a nested evaluation.
pub open spec fn dec(n: u64) -> u64 {
    (n - 1) as u64
}

/// A trigger for the store and result between two steps of an evaluation.
pub open spec fn step(s: Store, r: Result<PVal, Fault>) -> bool {
    true
}

/// A trigger for the store and results between two steps of an evaluation.
pub open spec fn steps(s: Store, r: Result<Seq<PVal>, Fault>) -> bool {
    true
}

/// A trigger for the store and bindings between two steps of an evaluation.
pub open spec fn stepm(s: Store, r: Result<Map<Seq<char>, PVal>, Fault>) -> bool {
    true
}

/// What evaluating the expressions `items` in order, each at `depth - 1`,
/// gives from store `pre` in scope `env`, and the store `post` it leaves:
/// their values, or the first failure.
pub open spec fn list_sem(depth: u64, pre: Store, post: Store, env: usize, items: Items<Expr>, r: Result<Seq<PVal>, Fault>) -> bool
    decreases depth,
{
    if depth == 0 {
        (r matches Err(Fault::Panic(_))) && post == pre
    } else {
        match items {
            Items::Nil => r == Ok::<Seq<PVal>, Fault>(seq![]) && post == pre,
            Items::Cons(x, t) => match r {
                Err(f) => expr_sem(dec(depth), pre, post, env, *x, Err::<PVal, Fault>(f)) || exists|mid: Store, a: PVal|
                    #![trigger step(mid, Ok::<PVal, Fault>(a))]
                    expr_sem(dec(depth), pre, mid, env, *x, Ok::<PVal, Fault>(a)) && list_sem(
                        dec(depth),
                        mid,
                        post,
                        env,
                        *t,
                        Err::<Seq<PVal>, Fault>(f),
                    ),
                Ok(vs) => vs.len() > 0 && exists|mid: Store|
                    #![trigger step(mid, Ok::<PVal, Fault>(vs[0]))]
                    expr_sem(dec(depth), pre, mid, env, *x, Ok::<PVal, Fault>(vs[0])) && list_sem(
                        dec(depth),
                        mid,
                        post,
                        env,
                        *t,
                        Ok::<Seq<PVal>, Fault>(vs.drop_first()),
                    ),
            },
        }
    }
}

/// What evaluating the pairs of a dictionary display in order, each key
/// then its value, gives from store `pre`: the bindings of `m` with the
/// pairs added, or the first failure.
pub open spec fn pairs_sem(
    depth: u64,
    pre: Store,
    post: Store,
    env: usize,
    pairs: Items<(Expr, Expr)>,
    m: Map<Seq<char>, PVal>,
    r: Result<Map<Seq<char>, PVal>, Fault>,
) -> bool
    decreases depth,
{
    if depth == 0 {
        r matches Err(Fault::Panic(_)) && post == pre
    } else {
        match pairs {
            Items::Nil => r == Ok::<Map<Seq<char>, PVal>, Fault>(m) && post == pre,
            Items::Cons(p, t) => exists|mid: Store, rk: Result<PVal, Fault>|
                #![trigger step(mid, rk)]
                expr_sem(dec(depth), pre, mid, env, p.0, rk) && match rk {
                    Err(f) => r == Err::<Map<Seq<char>, PVal>, Fault>(f) && post == mid,
                    Ok(k) => match pkey(k) {
                        None => raises(r, "TypeError"@, "unhashable type"@) && post == mid,
                        Some(key) => exists|mid2: Store, rv: Result<PVal, Fault>|
                            #![trigger step(mid2, rv)]
                            expr_sem(dec(depth), mid, mid2, env, p.1, rv) && match rv {
                                Err(f) => r == Err::<Map<Seq<char>, PVal>, Fault>(f) && post == mid2,
                                Ok(v) => pairs_sem(dec(depth), mid2, post, env, *t, m.insert(key, v), r),
                            },
                    },
                },
        }
    }
}

/// Class `c` or one of its bases, nearest first, is named `target`. A base
/// is always made before the class that names it.
pub open spec fn subclass_spec(st: &Store, c: int, target: Seq<char>) -> bool
    decreases c,
{
    if c < 0 || c >= st.classes@.len() {
        false
    } else if st.classes@[c].name@ == target {
        true
    } else {
        match st.classes@[c].base {
            Some(b) => if b < c {
                subclass_spec(st, b as int, target)
            } else {
                false
            },
            None => false,
        }
    }
}

/// The names of the exception types that are built in.
pub open spec fn exception_name(n: Seq<char>) -> bool {
    n == "Exception"@ || n == "TypeError"@ || n == "ValueError"@ || n == "NameError"@ || n == "IndexError"@
        || n == "AttributeError"@ || n == "KeyError"@ || n == "IOError"@ || n == "ImportError"@
        || n == "ZeroDivisionError"@ || n == "SyntaxError"@
}

/// The list that `range(end)` makes: `0, 1, ..., end - 1`.
pub open spec fn range_seq(end: i64) -> Seq<PVal> {
    Seq::new(if end > 0 { end as nat } else { 0 }, |i: int| PVal::Int(i as i64))
}

/// The number of bytes of the UTF-8 encoding of `s`.
pub open spec fn byte_len(s: Seq<char>) -> nat {
    vstd::utf8::encode_utf8(s).len()
}

/// A text of ASCII characters takes one byte per character.
pub proof fn law_ascii_byte_len(s: Seq<char>)
    requires
        vstd::utf8::is_ascii_chars(s),
    ensures
        byte_len(s) == s.len(),
{
    vstd::utf8::is_ascii_chars_encode_utf8(s);
}

/// What the built-in `n` gives on `args` at `depth`, from store `pre`: its
/// argument errors, and its result as far as it does not come from the host
/// (printing, files, floats, the clock, the environment, programs).
pub open spec fn builtin_outline(depth: u64, pre: Store, post: Store, n: Seq<char>, args: Seq<PVal>, r: Result<PVal, Fault>) -> bool {
    if depth == 0 {
        (r matches Err(Fault::Panic(_))) && post == pre
    } else if n == "print"@ {
        r is Ok ==> r == Ok::<PVal, Fault>(PVal::NoneVal)
    } else if n == "str"@ {
        if args.len() != 1 {
            raises(r, "TypeError"@, "str() takes exactly one argument"@) && post == pre
        } else {
            &&& (dec(depth) > 0 && args[0] is Str) ==> (r matches Ok(PVal::Str(t)) && t@ == args[0]->Str_0@)
            &&& (dec(depth) > 0 && plain_value(args[0]) is Some) ==> (r matches Ok(PVal::Str(t)) && t@ == crate::value::show(
                plain_value(args[0])->Some_0,
            ))
        }
    } else if n == "len"@ {
        post == pre && if args.len() == 0 {
            raises(r, "TypeError"@, "len() takes exactly one argument (0 given)"@)
        } else {
            match args[0] {
                PVal::Str(t) => r == Ok::<PVal, Fault>(PVal::Int((byte_len(t@) as usize) as i64)),
                PVal::List(l) => if l < pre.lists@.len() {
                    r == Ok::<PVal, Fault>(PVal::Int(pre.lists@[l as int]@.len() as i64))
                } else {
                    raises(r, "TypeError"@, "object has no len()"@)
                },
                PVal::Tuple(t) => if t < pre.tuples@.len() {
                    r == Ok::<PVal, Fault>(PVal::Int(pre.tuples@[t as int]@.len() as i64))
                } else {
                    raises(r, "TypeError"@, "object has no len()"@)
                },
                PVal::Dict(i) => if i < pre.dicts@.len() {
                    r matches Ok(PVal::Int(_))
                } else {
                    raises(r, "TypeError"@, "object has no len()"@)
                },
                _ => raises(r, "TypeError"@, "object has no len()"@),
            }
        }
    } else if n == "range"@ {
        if args.len() == 0 {
            raises(r, "TypeError"@, "range expected 1 argument, got 0"@) && post == pre
        } else {
            match args[0] {
                PVal::Int(end) => r == Ok::<PVal, Fault>(PVal::List(pre.lists@.len() as usize)) && only_lists(&pre, &post)
                    && lists_of(&post) == lists_of(&pre).push(range_seq(end)),
                _ => raises(r, "TypeError"@, "range() integer argument expected"@) && post == pre,
            }
        }
    } else if n == "open"@ {
        if args.len() == 0 {
            raises(r, "TypeError"@, "open() expected at least 1 argument"@) && post == pre
        } else if !(args[0] is Str) {
            raises(r, "TypeError"@, "expected string as path"@) && post == pre
        } else if args.len() > 1 && !(args[1] is Str) {
            raises(r, "TypeError"@, "expected string as mode"@) && post == pre
        } else if args.len() > 1 && !(args[1]->Str_0@ == "r"@ || args[1]->Str_0@ == "w"@ || args[1]->Str_0@ == "a"@) {
            raises(r, "ValueError"@, "invalid mode"@) && post == pre
        } else {
            r is Ok ==> r == Ok::<PVal, Fault>(PVal::File(pre.files@.len() as usize))
        }
    } else if n == "type"@ {
        post == pre && if args.len() != 1 {
            raises(r, "TypeError"@, "type() takes 1 argument"@)
        } else {
            r matches Ok(PVal::Str(t)) && (kind_of_value(args[0]) matches Some(n) ==> t@ == "<class '"@ + n + "'>"@)
        }
    } else if n == "isinstance"@ {
        post == pre && if args.len() != 2 {
            raises(r, "TypeError"@, "isinstance expected 2 arguments"@)
        } else {
            match (args[0], args[1]) {
                (PVal::Instance(o), PVal::Class(c)) => r == Ok::<PVal, Fault>(
                    PVal::Bool(
                        o < pre.objects@.len() && subclass_spec(
                            &pre,
                            pre.objects@[o as int].class as int,
                            class_name_spec(&pre, c as int),
                        ),
                    ),
                ),
                (_, PVal::Class(_)) => r == Ok::<PVal, Fault>(PVal::Bool(false)),
                _ => raises(r, "TypeError"@, "isinstance() arg 2 must be a type"@),
            }
        }
    } else if exception_name(n) {
        post == pre && (r matches Ok(PVal::Exception(t, a)) && t@ == n && *a == if args.len() > 0 {
            args[0]
        } else {
            PVal::NoneVal
        })
    } else if n == "sqrt"@ {
        args.len() == 0 ==> raises(r, "TypeError"@, "sqrt() takes exactly 1 argument"@) && post == pre
    } else if n == "time"@ {
        r matches Ok(PVal::Float(_))
    } else if n == "sleep"@ {
        args.len() == 0 ==> raises(r, "TypeError"@, "sleep() takes exactly 1 argument"@) && post == pre
    } else if n == "getenv"@ {
        post == pre && if args.len() == 0 {
            raises(r, "TypeError"@, "getenv() takes at least 1 argument"@)
        } else if !(args[0] is Str) {
            raises(r, "TypeError"@, "key must be string"@)
        } else {
            r matches Ok(v) && (v is Str || v == if args.len() > 1 {
                args[1]
            } else {
                PVal::NoneVal
            })
        }
    } else if n == "system"@ {
        post == pre && if args.len() == 0 {
            raises(r, "TypeError"@, "system() takes exactly 1 argument"@)
        } else if !(args[0] is Str) {
            raises(r, "TypeError"@, "command must be string"@)
        } else {
            !(r matches Ok(v) && !(v is Int))
        }
    } else if n == "exit"@ {
        r is Ok ==> r == Ok::<PVal, Fault>(PVal::NoneVal)
    } else if n == "loads"@ {
        if args.len() == 0 {
            raises(r, "TypeError"@, "loads() takes exactly 1 argument"@) && post == pre
        } else if !(args[0] is Str) {
            raises(r, "TypeError"@, "expected string"@) && post == pre
        } else {
            true
        }
    } else if n == "dumps"@ {
        args.len() == 0 ==> raises(r, "TypeError"@, "dumps() takes exactly 1 argument"@) && post == pre
    } else {
        raises(r, "TypeError"@, "object is not callable"@) && post == pre
    }
}

/// `len` of a string of ASCII characters is its number of characters, and
/// the store is left as it was.
pub proof fn law_len_of_ascii_string(depth: u64, pre: Store, post: Store, t: String, r: Result<PVal, Fault>)
    requires
        depth > 0,
        vstd::utf8::is_ascii_chars(t@),
        t@.len() <= i64::MAX,
        t@.len() <= usize::MAX,
        builtin_outline(depth, pre, post, "len"@, seq![PVal::Str(t)], r),
    ensures
        r == Ok::<PVal, Fault>(PVal::Int(t@.len() as i64)),
        post == pre,
{
    reveal_strlit("len");
    reveal_strlit("print");
    reveal_strlit("str");
    assert("len"@ != "print"@ && "len"@ != "str"@) by {
        assert("len"@.len() != "print"@.len());
        assert("len"@[0] != "str"@[0]);
    }
    law_ascii_byte_len(t@);
    let args = seq![PVal::Str(t)];
    assert(args.len() == 1 && args[0] == PVal::Str(t));
}

/// The texts of a sequence of values that are all strings.
pub open spec fn texts_of(vs: Seq<PVal>) -> Seq<Seq<char>> {
    vs.map_values(|v: PVal| v->Str_0@)
}

/// The separator that `split` uses: its argument, or a space.
pub open spec fn split_sep(args: Seq<PVal>) -> Seq<char> {
    if args.len() == 0 {
        " "@
    } else {
        args[0]->Str_0@
    }
}

/// Whether the value `o` has a method `n`.
pub open spec fn has_method(pre: Store, o: PVal, n: Seq<char>) -> bool {
    match o {
        PVal::List(l) => l < pre.lists@.len() && (n == "append"@ || n == "pop"@),
        PVal::Dict(i) => i < pre.dicts@.len() && (n == "keys"@ || n == "values"@ || n == "items"@),
        PVal::Str(_) => n == "split"@ || n == "join"@,
        PVal::File(f) => f < pre.files@.len() && (n == "read"@ || n == "write"@ || n == "close"@),
        _ => false,
    }
}

/// A trigger for the entries of a dictionary, in the order they were made.
pub open spec fn dict_entries(es: Seq<(String, PVal)>) -> bool {
    true
}

/// What a dictionary's `keys`, `values` or `items` (the method `n`) holds
/// for the entry `e`: the key as a string, the value, or a tuple of the two,
/// key first.
pub open spec fn view_item(st: &Store, n: Seq<char>, e: (String, PVal), x: PVal) -> bool {
    if n == "keys"@ {
        x is Str && x->Str_0@ == e.0@
    } else if n == "values"@ {
        x == e.1
    } else {
        &&& x is Tuple
        &&& x->Tuple_0 < st.tuples@.len()
        &&& tuples_of(st)[x->Tuple_0 as int].len() == 2
        &&& tuples_of(st)[x->Tuple_0 as int][0] is Str
        &&& tuples_of(st)[x->Tuple_0 as int][0]->Str_0@ == e.0@
        &&& tuples_of(st)[x->Tuple_0 as int][1] == e.1
    }
}

/// What calling the method `n` of `o` on `args` at `depth` gives from store
/// `pre`: a list's `append` and `pop`, a string's `split` and `join`, and the
/// `AttributeError` for a method that does not exist; a dictionary's views
/// and a file's methods give what the host gave.
pub open spec fn method_outline(depth: u64, pre: Store, post: Store, o: PVal, n: Seq<char>, args: Seq<PVal>, r: Result<PVal, Fault>) -> bool {
    if depth == 0 {
        (r matches Err(Fault::Panic(_))) && post == pre
    } else if !has_method(pre, o, n) {
        raises(r, "AttributeError"@, "unknown method '"@ + n + "'"@) && post == pre
    } else {
        match o {
            PVal::List(l) => if n == "append"@ {
                if args.len() == 0 {
                    (r matches Err(Fault::Panic(_))) && post == pre
                } else {
                    r == Ok::<PVal, Fault>(PVal::NoneVal) && only_lists(&pre, &post) && lists_of(&post) == lists_of(
                        &pre,
                    ).update(l as int, lists_of(&pre)[l as int].push(args[0]))
                }
            } else {
                let items = lists_of(&pre)[l as int];
                only_lists(&pre, &post) && if items.len() == 0 {
                    r == Ok::<PVal, Fault>(PVal::NoneVal) && lists_of(&post) == lists_of(&pre)
                } else {
                    r == Ok::<PVal, Fault>(items.last()) && lists_of(&post) == lists_of(&pre).update(
                        l as int,
                        items.drop_last(),
                    )
                }
            },
            PVal::Str(t) => if n == "split"@ {
                if args.len() > 0 && !(args[0] is Str) {
                    raises(r, "TypeError"@, "separator must be str"@) && post == pre
                } else {
                    r == Ok::<PVal, Fault>(PVal::List(pre.lists@.len() as usize)) && only_lists(&pre, &post)
                        && lists_of(&post).len() == pre.lists@.len() + 1 && lists_of(&post).drop_last() == lists_of(&pre)
                        && (forall|i: int| 0 <= i < lists_of(&post).last().len() ==> #[trigger] lists_of(&post).last()[i] is Str)
                        && texts_of(lists_of(&post).last()) == crate::runtime::split_spec(t@, split_sep(args))
                }
            } else {
                post == pre && if args.len() == 0 {
                    raises(r, "TypeError"@, "join() takes exactly one argument"@)
                } else if (args[0] matches PVal::List(l) && l < pre.lists@.len() && (forall|i: int|
                    0 <= i < lists_of(&pre)[l as int].len() ==> #[trigger] lists_of(&pre)[l as int][i] is Str)) {
                    r matches Ok(PVal::Str(x)) && x@ == crate::runtime::join_spec(t@, texts_of(lists_of(&pre)[args[0]->List_0 as int]))
                } else {
                    raises(r, "TypeError"@, "join() expects list of strings"@)
                }
            },
            PVal::Dict(d) => exists|es: Seq<(String, PVal)>|
                #![trigger dict_entries(es)]
                crate::vars::keys_unique(es) && crate::vars::table_map(es) == pre.dicts@[d as int]@ && r == Ok::<
                    PVal,
                    Fault,
                >(PVal::List(pre.lists@.len() as usize)) && post.scopes == pre.scopes && post.dicts == pre.dicts
                    && lists_of(&post).len() == pre.lists@.len() + 1 && lists_of(&post).drop_last() == lists_of(&pre)
                    && lists_of(&post).last().len() == es.len() && forall|j: int|
                    0 <= j < es.len() ==> #[trigger] view_item(&post, n, es[j], lists_of(&post).last()[j]),
            _ => true,
        }
    }
}

/// The key of the item `j` of a list made by `items`.
pub open spec fn item_key(post: &Store, out: Seq<PVal>, j: int) -> Seq<char> {
    tuples_of(post)[out[j]->Tuple_0 as int][0]->Str_0@
}

/// The list made last by `post` holds, for the dictionary `d` of `pre`, one
/// tuple per entry, key first and then the value the dictionary maps it to;
/// every key occurs, and none twice.
pub open spec fn dict_items_hold(pre: &Store, post: &Store, d: usize) -> bool {
    let out = lists_of(post)[pre.lists@.len() as int];
    let m = pre.dicts@[d as int]@;
    &&& forall|j: int|
        #![trigger out[j]]
        0 <= j < out.len() ==> {
            &&& out[j] is Tuple
            &&& tuples_of(post)[out[j]->Tuple_0 as int].len() == 2
            &&& tuples_of(post)[out[j]->Tuple_0 as int][0] is Str
            &&& m.dom().contains(item_key(post, out, j))
            &&& tuples_of(post)[out[j]->Tuple_0 as int][1] == m[item_key(post, out, j)]
        }
    &&& forall|k: Seq<char>| m.dom().contains(k) ==> exists|j: int| 0 <= j < out.len() && #[trigger] item_key(post, out, j) == k
    &&& forall|i: int, j: int| 0 <= i < j < out.len() ==> item_key(post, out, i) != item_key(post, out, j)
}

/// A dictionary's `items()` is a new list with one tuple per entry: each is
/// the entry's key as a string and the value the dictionary maps it to, key
/// first; every key occurs, and none twice.
pub proof fn law_dict_items(depth: u64, pre: Store, post: Store, d: usize, args: Seq<PVal>, r: Result<PVal, Fault>)
    requires
        depth > 0,
        d < pre.dicts@.len(),
        method_outline(depth, pre, post, PVal::Dict(d), "items"@, args, r),
    ensures
        r == Ok::<PVal, Fault>(PVal::List(pre.lists@.len() as usize)),
        dict_items_hold(&pre, &post, d),
{
    reveal_strlit("items");
    reveal_strlit("keys");
    reveal_strlit("values");
    assert("items"@ != "keys"@ && "items"@ != "values"@) by {
        assert("items"@.len() != "keys"@.len() && "items"@.len() != "values"@.len());
    }
    let es = choose|es: Seq<(String, PVal)>|
        crate::vars::keys_unique(es) && crate::vars::table_map(es) == pre.dicts@[d as int]@ && r == Ok::<PVal, Fault>(
            PVal::List(pre.lists@.len() as usize),
        ) && post.scopes == pre.scopes && post.dicts == pre.dicts && lists_of(&post).len() == pre.lists@.len() + 1
            && lists_of(&post).drop_last() == lists_of(&pre) && lists_of(&post).last().len() == es.len() && forall|j: int|
            0 <= j < es.len() ==> #[trigger] view_item(&post, "items"@, es[j], lists_of(&post).last()[j]);
    let out = lists_of(&post)[pre.lists@.len() as int];
    let m = pre.dicts@[d as int]@;
    assert(out == lists_of(&post).last());
    assert forall|j: int| #![trigger out[j]] 0 <= j < out.len() implies {
        &&& out[j] is Tuple
        &&& tuples_of(&post)[out[j]->Tuple_0 as int].len() == 2
        &&& tuples_of(&post)[out[j]->Tuple_0 as int][0] is Str
        &&& m.dom().contains(item_key(&post, out, j))
        &&& tuples_of(&post)[out[j]->Tuple_0 as int][1] == m[item_key(&post, out, j)]
    } by {
        assert(view_item(&post, "items"@, es[j], out[j]));
        crate::vars::lemma_table_index(es, j);
    }
    assert forall|k: Seq<char>| m.dom().contains(k) implies exists|j: int| 0 <= j < out.len() && #[trigger] item_key(&post, out, j) == k by {
        crate::vars::lemma_table_dom(es, k);
        let i = choose|i: int| 0 <= i < es.len() && (#[trigger] es[i]).0@ == k;
        assert(view_item(&post, "items"@, es[i], out[i]));
        assert(item_key(&post, out, i) == k);
    }
    assert forall|i: int, j: int| 0 <= i < j < out.len() implies item_key(&post, out, i) != item_key(&post, out, j) by {
        assert(view_item(&post, "items"@, es[i], out[i]));
        assert(view_item(&post, "items"@, es[j], out[j]));
    }
    assert(dict_items_hold(&pre, &post, d));
}

/// The names of a list of keyword arguments, in order.
pub open spec fn keys_view(v: Seq<(String, PVal)>) -> Seq<Seq<char>> {
    v.map_values(|p: (String, PVal)| p.0@)
}

/// An optional name, as text.
pub open spec fn opt_view(o: Option<String>) -> Option<Seq<char>> {
    match o {
        Some(v) => Some(v@),
        None => None,
    }
}

/// What a function call gives once its body ran with outcome `rb`: the
/// returned value, `None` where the body ended otherwise, or the failure.
pub open spec fn returned(rb: Result<Status<PVal>, Fault>) -> Result<PVal, Fault> {
    match rb {
        Ok(Status::Return(v)) => Ok(v),
        Ok(_) => Ok(PVal::NoneVal),
        Err(f) => Err(f),
    }
}

/// The value of the first pair of `pairs` named `k`, if any.
pub open spec fn first_pair(pairs: Seq<(String, PVal)>, k: Seq<char>) -> Option<PVal>
    decreases pairs.len(),
{
    if pairs.len() == 0 {
        None
    } else if pairs[0].0@ == k {
        Some(pairs[0].1)
    } else {
        first_pair(pairs.drop_first(), k)
    }
}

/// Two lists of pairs with the same names and values in the same order
/// give the same first value for each name.
proof fn lemma_first_pair_same(p: Seq<(String, PVal)>, q: Seq<(String, PVal)>, k: Seq<char>)
    requires
        p.len() == q.len(),
        forall|i: int| 0 <= i < p.len() ==> (#[trigger] p[i]).0@ == q[i].0@ && p[i].1 == q[i].1,
    ensures
        first_pair(p, k) == first_pair(q, k),
    decreases p.len(),
{
    if p.len() > 0 {
        assert(p[0].0@ == q[0].0@);
        assert forall|i: int| 0 <= i < p.drop_first().len() implies (#[trigger] p.drop_first()[i]).0@
            == q.drop_first()[i].0@ && p.drop_first()[i].1 == q.drop_first()[i].1 by {
            assert(p[i + 1].0@ == q[i + 1].0@);
        }
        lemma_first_pair_same(p.drop_first(), q.drop_first(), k);
    }
}

/// The value `v` bound to `name` from the source `src` of a call: the
/// positional argument or keyword argument it names, the parameter's
/// default, or a new tuple or dictionary of the rest.
pub open spec fn bound_value(
    src: crate::call::Source,
    args: Seq<PVal>,
    kw: Seq<(String, PVal)>,
    defaults: Seq<(String, PVal)>,
    name: Seq<char>,
    v: PVal,
) -> bool {
    match src {
        crate::call::Source::Arg(i) => v == if i < args.len() {
            args[i as int]
        } else {
            PVal::NoneVal
        },
        crate::call::Source::Kw(j) => v == if j < kw.len() {
            kw[j as int].1
        } else {
            PVal::NoneVal
        },
        crate::call::Source::Default => v == match first_pair(defaults, name) {
            Some(x) => x,
            None => PVal::NoneVal,
        },
        crate::call::Source::Rest(_) => v is Tuple,
        crate::call::Source::KwRest => v is Dict,
    }
}

/// The variables `vars` bind each name of `a` (a name given twice as its
/// last entry says) to its value (`bound_value`), and nothing else.
pub open spec fn binds_assigns(
    vars: Map<Seq<char>, PVal>,
    a: Seq<(Seq<char>, crate::call::Source)>,
    args: Seq<PVal>,
    kw: Seq<(String, PVal)>,
    defaults: Seq<(String, PVal)>,
) -> bool {
    &&& forall|i: int|
        #![trigger a[i]]
        0 <= i < a.len() && (forall|j: int| i < j < a.len() ==> a[j].0 != a[i].0) ==> vars.dom().contains(a[i].0)
            && bound_value(a[i].1, args, kw, defaults, a[i].0, vars[a[i].0])
    &&& forall|k: Seq<char>| vars.dom().contains(k) ==> exists|i: int| 0 <= i < a.len() && #[trigger] a[i].0 == k
}

/// What calling the function `fi` of the store (made by `def` or `lambda`)
/// on `args` and the keyword arguments `kw` at `depth` gives: the
/// `TypeError` of `bind_spec` where the arguments do not fit its parameters,
/// else what its body gives (`returned`), run at `depth - 1` in a new scope
/// nested in the one the function was made in, which binds each name as
/// `bind_spec` says (`binds_assigns`).
pub open spec fn user_call(depth: u64, pre: Store, post: Store, fi: usize, args: Seq<PVal>, kw: Seq<(String, PVal)>, r: Result<PVal, Fault>) -> bool
    decreases depth,
{
    if depth == 0 {
        (r matches Err(Fault::Panic(_))) && post == pre
    } else if fi >= pre.funcs@.len() {
        raises(r, "TypeError"@, "object is not callable"@) && post == pre
    } else {
        let fun = pre.funcs@[fi as int];
        match crate::call::bind_spec(
            fun.name@,
            crate::call::names(fun.params@),
            keys_view(fun.defaults@),
            opt_view(fun.vararg),
            opt_view(fun.kwarg),
            args.len(),
            keys_view(kw),
        ) {
            Err(m) => raises(r, "TypeError"@, m) && post == pre,
            Ok((a, _)) => if fun.closure >= pre.scopes.count() {
                raises(r, "TypeError"@, "object is not callable"@) && post == pre
            } else {
                exists|mid: Store, rb: Result<Status<PVal>, Fault>|
                    #![trigger stepb(mid, rb)]
                    mid.scopes.count() == pre.scopes.count() + 1 && mid.scopes.parent_of(pre.scopes.count() as int) == Some(
                        fun.closure,
                    ) && binds_assigns(mid.scopes.vars_of(pre.scopes.count() as int), a, args, kw, fun.defaults@)
                        && block_sem(dec(depth), mid, post, pre.scopes.count() as usize, fun.body, rb) && r == returned(rb)
            },
        }
    }
}

/// Calling a function made by `def` or `lambda` whose arguments fit its
/// parameters runs its body in a new scope nested in the one it was made in,
/// where each name that `bind_spec` binds to a positional argument reads as
/// that argument, and to a keyword argument as that argument's value; the call
/// gives what the body returned.
pub proof fn law_call_binds_arguments(
    depth: u64,
    pre: Store,
    post: Store,
    fi: usize,
    args: Seq<PVal>,
    kw: Seq<(String, PVal)>,
    a: Seq<(Seq<char>, crate::call::Source)>,
    left: Seq<usize>,
    r: Result<PVal, Fault>,
)
    requires
        depth > 0,
        fi < pre.funcs@.len(),
        pre.funcs@[fi as int].closure < pre.scopes.count(),
        crate::call::bind_spec(
            pre.funcs@[fi as int].name@,
            crate::call::names(pre.funcs@[fi as int].params@),
            keys_view(pre.funcs@[fi as int].defaults@),
            opt_view(pre.funcs@[fi as int].vararg),
            opt_view(pre.funcs@[fi as int].kwarg),
            args.len(),
            keys_view(kw),
        ) == Ok::<(Seq<(Seq<char>, crate::call::Source)>, Seq<usize>), Seq<char>>((a, left)),
        user_call(depth, pre, post, fi, args, kw, r),
    ensures
        exists|mid: Store, rb: Result<Status<PVal>, Fault>|
            #![trigger stepb(mid, rb)]
            {
                let local = pre.scopes.count() as int;
                &&& mid.scopes.parent_of(local) == Some(pre.funcs@[fi as int].closure)
                &&& forall|i: int|
                    #![trigger a[i]]
                    0 <= i < a.len() && (forall|j: int| i < j < a.len() ==> a[j].0 != a[i].0) ==> ((a[i].1 is Arg && a[i].1->Arg_0 < args.len()) ==> mid.scopes.lookup(local, a[i].0) == Some(
                        args[a[i].1->Arg_0 as int],
                    )) && ((a[i].1 is Kw && a[i].1->Kw_0 < kw.len()) ==> mid.scopes.lookup(local, a[i].0) == Some(
                        kw[a[i].1->Kw_0 as int].1,
                    ))
                &&& block_sem(dec(depth), mid, post, local as usize, pre.funcs@[fi as int].body, rb)
                &&& r == returned(rb)
            },
{
    let fun = pre.funcs@[fi as int];
    let (mid, rb) = choose|mid: Store, rb: Result<Status<PVal>, Fault>|
        mid.scopes.count() == pre.scopes.count() + 1 && mid.scopes.parent_of(pre.scopes.count() as int) == Some(fun.closure)
            && binds_assigns(mid.scopes.vars_of(pre.scopes.count() as int), a, args, kw, fun.defaults@) && block_sem(
            dec(depth),
            mid,
            post,
            pre.scopes.count() as usize,
            fun.body,
            rb,
        ) && r == returned(rb);
    let local = pre.scopes.count() as int;
    assert forall|i: int|
        #![trigger a[i]]
        0 <= i < a.len() && (forall|j: int| i < j < a.len() ==> a[j].0 != a[i].0) implies ((a[i].1 is Arg && a[i].1->Arg_0 < args.len()) ==> mid.scopes.lookup(local, a[i].0) == Some(
            args[a[i].1->Arg_0 as int],
        )) && ((a[i].1 is Kw && a[i].1->Kw_0 < kw.len()) ==> mid.scopes.lookup(local, a[i].0) == Some(
            kw[a[i].1->Kw_0 as int].1,
        )) by {
        assert(mid.scopes.vars_of(local).dom().contains(a[i].0));
    }
    assert(stepb(mid, rb));
}

/// What the call of `f` on `args` and the keyword arguments `kw` gives:
/// built-ins, methods, a class (a new object), a bound method (its function
/// with the receiver first), a function (`user_call`), and the `TypeError`
/// for anything else.
pub open spec fn call_outline(depth: u64, pre: Store, post: Store, f: PVal, args: Seq<PVal>, kw: Seq<(String, PVal)>, r: Result<PVal, Fault>) -> bool
    decreases depth,
{
    if depth == 0 {
        r matches Err(Fault::Panic(_)) && post == pre
    } else {
        match f {
            PVal::Builtin(n) => builtin_outline(dec(depth), pre, post, n@, args, r),
            PVal::Method(o, n) => method_outline(dec(depth), pre, post, *o, n@, args, r),
            PVal::Class(_) => r is Ok ==> r == Ok::<PVal, Fault>(PVal::Instance(pre.objects@.len() as usize)),
            PVal::BoundMethod(rv, g) => call_outline(dec(depth), pre, post, *g, seq![*rv] + args, kw, r),
            PVal::Function(fi) => user_call(dec(depth), pre, post, fi, args, kw, r),
            _ => raises(r, "TypeError"@, "object is not callable"@) && post == pre,
        }
    }
}

/// A trigger for the store and choice after a comprehension's condition.
pub open spec fn step_keep(s: Store, keep: Result<bool, Fault>) -> bool {
    true
}

/// A trigger for the stores and items of a comprehension.
pub open spec fn comp_step(items: Seq<PVal>, a: Store, b: Store, rs: Result<Seq<PVal>, Fault>) -> bool {
    true
}

/// `b` is `a` with one new, empty scope, nested in `env`.
pub open spec fn fresh_scope(a: Store, b: Store, env: usize) -> bool {
    &&& only_scopes(&a, &b)
    &&& b.scopes.count() == a.scopes.count() + 1
    &&& b.scopes.parent_of(a.scopes.count() as int) == Some(env)
    &&& b.scopes.vars_of(a.scopes.count() as int) == Map::<Seq<char>, PVal>::empty()
    &&& forall|j: int|
        0 <= j < a.scopes.count() ==> #[trigger] b.scopes.vars_of(j) == a.scopes.vars_of(j) && b.scopes.parent_of(j)
            == a.scopes.parent_of(j)
}

/// Whether a comprehension keeps an item: its condition, evaluated at
/// `depth - 1` in scope `loc`, is true (every item is kept without one).
pub open spec fn cond_sem(depth: u64, pre: Store, post: Store, loc: usize, cond: Option<Box<Expr>>, keep: Result<bool, Fault>) -> bool
    decreases depth, 0nat,
{
    if depth == 0 {
        (keep matches Err(Fault::Panic(_))) && post == pre
    } else {
        match cond {
            None => keep == Ok::<bool, Fault>(true) && post == pre,
            Some(c) => exists|rc: Result<PVal, Fault>|
                #![trigger step(post, rc)]
                expr_sem(dec(depth), pre, post, loc, *c, rc) && match rc {
                    Err(f) => keep == Err::<bool, Fault>(f),
                    Ok(cv) => keep == Ok::<bool, Fault>(truthy_spec(&post, &cv)),
                },
        }
    }
}

/// What a comprehension `[x for t in ... if cond]` gives once its items are
/// `items` and the values kept so far are `acc`, each part at `depth - 1` in
/// its own scope `loc`: each item in turn is assigned to `t`, and where the
/// condition keeps it, `x` is evaluated and its value added, in order.
pub open spec fn comp_items(
    depth: u64,
    pre: Store,
    post: Store,
    loc: usize,
    t: Expr,
    x: Expr,
    cond: Option<Box<Expr>>,
    items: Seq<PVal>,
    acc: Seq<PVal>,
    r: Result<Seq<PVal>, Fault>,
) -> bool
    decreases depth, items.len() + 1,
{
    if depth == 0 {
        (r matches Err(Fault::Panic(_))) && post == pre
    } else if items.len() == 0 {
        r == Ok::<Seq<PVal>, Fault>(acc) && post == pre
    } else {
        exists|m1: Store, ra: Result<(), Fault>|
            #![trigger step_assign(m1, ra)]
            (dec(depth) > 0 ==> assign_post(pre, m1, loc, t, items[0], ra)) && match ra {
                Err(f) => r == Err::<Seq<PVal>, Fault>(f) && post == m1,
                Ok(_) => exists|m2: Store, keep: Result<bool, Fault>|
                    #![trigger step_keep(m2, keep)]
                    cond_sem(depth, m1, m2, loc, cond, keep) && match keep {
                        Err(f) => r == Err::<Seq<PVal>, Fault>(f) && post == m2,
                        Ok(false) => comp_items(depth, m2, post, loc, t, x, cond, items.drop_first(), acc, r),
                        Ok(true) => exists|m3: Store, rx: Result<PVal, Fault>|
                            #![trigger step(m3, rx)]
                            expr_sem(dec(depth), m2, m3, loc, x, rx) && match rx {
                                Err(f) => r == Err::<Seq<PVal>, Fault>(f) && post == m3,
                                Ok(xv) => comp_items(depth, m3, post, loc, t, x, cond, items.drop_first(), acc.push(xv), r),
                            },
                    },
            }
    }
}

/// A comprehension walks its items in order: it assigns the first to the
/// target; where the condition drops it, it goes on with the rest, and where
/// the condition keeps it, the value of the element expression comes next
/// in the list, before the values of the later items.
pub proof fn law_comp_in_order(
    depth: u64,
    pre: Store,
    m1: Store,
    m2: Store,
    m3: Store,
    post: Store,
    loc: usize,
    var: String,
    x: Expr,
    cond: Option<Box<Expr>>,
    items: Seq<PVal>,
    acc: Seq<PVal>,
    keep: bool,
    xv: PVal,
    r: Result<Seq<PVal>, Fault>,
)
    requires
        depth > 1,
        items.len() > 0,
        m1.scopes.lookup(loc as int, var@) == Some(items[0]),
        cond_sem(depth, m1, m2, loc, cond, Ok::<bool, Fault>(keep)),
        keep ==> expr_sem(dec(depth), m2, m3, loc, x, Ok::<PVal, Fault>(xv)),
        keep ==> comp_items(depth, m3, post, loc, Expr::Name(var), x, cond, items.drop_first(), acc.push(xv), r),
        !keep ==> comp_items(depth, m2, post, loc, Expr::Name(var), x, cond, items.drop_first(), acc, r),
    ensures
        comp_items(depth, pre, post, loc, Expr::Name(var), x, cond, items, acc, r),
{
    assert(assign_post(pre, m1, loc, Expr::Name(var), items[0], Ok::<(), Fault>(())));
    assert(step_assign(m1, Ok::<(), Fault>(())));
    assert(step_keep(m2, Ok::<bool, Fault>(keep)));
    if keep {
        assert(step(m3, Ok::<PVal, Fault>(xv)));
    }
}

/// What a comprehension gives once its items gave `rs`: a new list of the
/// values kept, or the failure.
pub open spec fn comp_result(m2: Store, post: Store, rs: Result<Seq<PVal>, Fault>, r: Result<PVal, Fault>) -> bool {
    match rs {
        Err(f) => r == Err::<PVal, Fault>(f) && post == m2,
        Ok(vs) => r == Ok::<PVal, Fault>(PVal::List(m2.lists@.len() as usize)) && only_lists(&m2, &post) && lists_of(&post)
            == lists_of(&m2).push(vs),
    }
}

/// What evaluating `e` at `depth` in scope `env` gives from store `pre`, and
/// the store `post` it leaves. Each part is evaluated at `depth - 1`, left to
/// right, and the first failure is the result; an object's `__add__` and
/// `__getitem__` are called where they exist, and a comprehension is
/// `comp_items`. Floats and the host's replies are stated by kind, f-strings
/// by the kind of their value, and a call with keyword arguments not at all.
pub open spec fn expr_sem(depth: u64, pre: Store, post: Store, env: usize, e: Expr, r: Result<PVal, Fault>) -> bool
    decreases depth,
{
    if depth == 0 {
        r matches Err(Fault::Panic(_)) && post == pre
    } else {
        match e {
            Expr::NoneVal => r == Ok::<PVal, Fault>(PVal::NoneVal) && post == pre,
            Expr::Bool(b) => r == Ok::<PVal, Fault>(PVal::Bool(b)) && post == pre,
            Expr::Int(i) => r == Ok::<PVal, Fault>(PVal::Int(i)) && post == pre,
            Expr::Float(_) => r matches Ok(PVal::Float(_)) && post == pre,
            Expr::Str(s) => (r matches Ok(PVal::Str(t)) && t@ == s@) && post == pre,
            Expr::Name(n) => post == pre && match pre.scopes.lookup(env as int, n@) {
                Some(v) => r == Ok::<PVal, Fault>(v),
                None => raises(r, "NameError"@, "name '"@ + n@ + "' is not defined"@),
            },
            Expr::FString(_) => !(r matches Ok(v) && !(v is Str)),
            Expr::Tuple(items) => exists|mid: Store, rs: Result<Seq<PVal>, Fault>|
                #![trigger steps(mid, rs)]
                list_sem(dec(depth), pre, mid, env, items, rs) && match rs {
                    Err(f) => r == Err::<PVal, Fault>(f) && post == mid,
                    Ok(vs) => r == Ok::<PVal, Fault>(PVal::Tuple(mid.tuples@.len() as usize)) && only_tuples(&mid, &post)
                        && tuples_of(&post) == tuples_of(&mid).push(vs),
                },
            Expr::List(items) => exists|mid: Store, rs: Result<Seq<PVal>, Fault>|
                #![trigger steps(mid, rs)]
                list_sem(dec(depth), pre, mid, env, items, rs) && match rs {
                    Err(f) => r == Err::<PVal, Fault>(f) && post == mid,
                    Ok(vs) => r == Ok::<PVal, Fault>(PVal::List(mid.lists@.len() as usize)) && only_lists(&mid, &post)
                        && lists_of(&post) == lists_of(&mid).push(vs),
                },
            Expr::Dict(pairs) => exists|mid: Store, rm: Result<Map<Seq<char>, PVal>, Fault>|
                #![trigger stepm(mid, rm)]
                pairs_sem(dec(depth), pre, mid, env, pairs, Map::<Seq<char>, PVal>::empty(), rm) && match rm {
                    Err(f) => r == Err::<PVal, Fault>(f) && post == mid,
                    Ok(m) => r == Ok::<PVal, Fault>(PVal::Dict(mid.dicts@.len() as usize)) && only_dicts(&mid, &post)
                        && post.dicts@.len() == mid.dicts@.len() + 1 && post.dicts@.subrange(0, mid.dicts@.len() as int)
                        == mid.dicts@ && post.dicts@[mid.dicts@.len() as int]@ == m,
                },
            Expr::ListComp(x, t, iter, cond) => if dec(depth) == 0 {
                (r matches Err(Fault::Panic(_))) && post == pre
            } else {
                exists|mid: Store, ra: Result<PVal, Fault>|
                    #![trigger step(mid, ra)]
                    step(mid, ra) && expr_sem(dec(dec(depth)), pre, mid, env, *iter, ra) && match ra {
                        Err(f) => r == Err::<PVal, Fault>(f) && post == mid,
                        Ok(v) => if !((v is List && v->List_0 < mid.lists@.len()) || (v is Tuple && v->Tuple_0
                            < mid.tuples@.len()) || v is Str) {
                            raises(r, "TypeError"@, "not iterable"@) && post == mid
                        } else {
                            exists|items: Seq<PVal>, m1: Store, m2: Store, rs: Result<Seq<PVal>, Fault>|
                                #![trigger comp_step(items, m1, m2, rs)]
                                comp_step(items, m1, m2, rs) && iter_view(mid, v, items) && fresh_scope(mid, m1, env)
                                    && comp_items(dec(depth), m1, m2, mid.scopes.count() as usize, *t, *x, cond, items, seq![], rs)
                                    && comp_result(m2, post, rs, r)
                        },
                    }
            },
            Expr::Lambda(_, _) => r == Ok::<PVal, Fault>(PVal::Function(pre.funcs@.len() as usize)) && only_funcs(&pre, &post)
                && post.funcs@.len() == pre.funcs@.len() + 1 && post.funcs@.subrange(0, pre.funcs@.len() as int)
                == pre.funcs@ && post.funcs@[pre.funcs@.len() as int].closure == env
                && post.funcs@[pre.funcs@.len() as int].name@ == "<lambda>"@,
            Expr::BinOp(op, l, x) => exists|mid: Store, ra: Result<PVal, Fault>|
                #![trigger step(mid, ra)]
                expr_sem(dec(depth), pre, mid, env, *l, ra) && match ra {
                    Err(f) => r == Err::<PVal, Fault>(f) && post == mid,
                    Ok(a) => exists|mid2: Store, rb: Result<PVal, Fault>|
                        #![trigger step(mid2, rb)]
                        expr_sem(dec(depth), mid, mid2, env, *x, rb) && match rb {
                            Err(f) => r == Err::<PVal, Fault>(f) && post == mid2,
                            Ok(b) => if op == Op::Add && method_of_spec(&mid2, a, "__add__"@) is Some {
                                call_outline(
                                    dec(depth),
                                    mid2,
                                    post,
                                    PVal::BoundMethod(Box::new(a), Box::new(method_of_spec(&mid2, a, "__add__"@)->Some_0)),
                                    seq![b],
                                    seq![],
                                    r,
                                )
                            } else {
                                binop_post(op, a, b, r) && post == mid2
                            },
                        },
                },
            Expr::UnaryOp(op, x) => exists|mid: Store, ra: Result<PVal, Fault>|
                #![trigger step(mid, ra)]
                expr_sem(dec(depth), pre, mid, env, *x, ra) && match ra {
                    Err(f) => r == Err::<PVal, Fault>(f) && post == mid,
                    Ok(v) => unary_post(&mid, op, v, r) && post == mid,
                },
            Expr::Compare(op, l, x) => exists|mid: Store, ra: Result<PVal, Fault>|
                #![trigger step(mid, ra)]
                expr_sem(dec(depth), pre, mid, env, *l, ra) && match ra {
                    Err(f) => r == Err::<PVal, Fault>(f) && post == mid,
                    Ok(a) => exists|mid2: Store, rb: Result<PVal, Fault>|
                        #![trigger step(mid2, rb)]
                        expr_sem(dec(depth), mid, mid2, env, *x, rb) && match rb {
                            Err(f) => r == Err::<PVal, Fault>(f) && post == mid2,
                            Ok(b) => compare_post(op, a, b, r) && post == mid2,
                        },
                },
            Expr::Logical(op, l, x) => exists|mid: Store, ra: Result<PVal, Fault>|
                #![trigger step(mid, ra)]
                expr_sem(dec(depth), pre, mid, env, *l, ra) && match ra {
                    Err(f) => r == Err::<PVal, Fault>(f) && post == mid,
                    Ok(a) => if keeps_left_spec(op, truthy_spec(&mid, &a)) {
                        r == Ok::<PVal, Fault>(a) && post == mid
                    } else {
                        expr_sem(dec(depth), mid, post, env, *x, r)
                    },
                },
            Expr::Call(f, args, kws) => exists|mid: Store, rf: Result<PVal, Fault>|
                #![trigger step(mid, rf)]
                expr_sem(dec(depth), pre, mid, env, *f, rf) && match rf {
                    Err(x) => r == Err::<PVal, Fault>(x) && post == mid,
                    Ok(fv) => exists|mid2: Store, ra: Result<Seq<PVal>, Fault>|
                        #![trigger steps(mid2, ra)]
                        list_sem(dec(depth), mid, mid2, env, args, ra) && match ra {
                            Err(x) => r == Err::<PVal, Fault>(x) && post == mid2,
                            Ok(av) => kws is Nil ==> call_outline(dec(depth), mid2, post, fv, av, seq![], r),
                        },
                },
            Expr::Attribute(x, attr) => exists|mid: Store, ra: Result<PVal, Fault>|
                #![trigger step(mid, ra)]
                expr_sem(dec(depth), pre, mid, env, *x, ra) && match ra {
                    Err(f) => r == Err::<PVal, Fault>(f) && post == mid,
                    Ok(o) => attribute_post(&mid, o, attr@, r) && post == mid,
                },
            Expr::Subscript(x, i) => exists|mid: Store, ra: Result<PVal, Fault>|
                #![trigger step(mid, ra)]
                expr_sem(dec(depth), pre, mid, env, *x, ra) && match ra {
                    Err(f) => r == Err::<PVal, Fault>(f) && post == mid,
                    Ok(o) => exists|mid2: Store, rb: Result<PVal, Fault>|
                        #![trigger step(mid2, rb)]
                        expr_sem(dec(depth), mid, mid2, env, *i, rb) && match rb {
                            Err(f) => r == Err::<PVal, Fault>(f) && post == mid2,
                            Ok(iv) => if o is Instance {
                                match method_of_spec(&mid2, o, "__getitem__"@) {
                                    None => raises(r, "TypeError"@, "object is not subscriptable"@) && post == mid2,
                                    Some(m) => call_outline(
                                        dec(depth),
                                        mid2,
                                        post,
                                        PVal::BoundMethod(Box::new(o), Box::new(m)),
                                        seq![iv],
                                        seq![],
                                        r,
                                    ),
                                }
                            } else {
                                subscript_post(&mid2, o, iv, r) && post == mid2
                            },
                        },
                },
        }
    }
}

/// Calling a bound method is calling its function with the receiver put in
/// front of the arguments.
pub proof fn law_bound_method_call(
    depth: u64,
    pre: Store,
    post: Store,
    recv: PVal,
    g: PVal,
    args: Seq<PVal>,
    kw: Seq<(String, PVal)>,
    r: Result<PVal, Fault>,
)
    requires
        depth > 0,
        call_outline(depth, pre, post, PVal::BoundMethod(Box::new(recv), Box::new(g)), args, kw, r),
    ensures
        call_outline(dec(depth), pre, post, g, seq![recv] + args, kw, r),
{
}

/// Evaluates `e` in scope `env`. A name reads as its nearest binding; the
/// right operand of `and` / `or` is evaluated only where the left one does
/// not decide (`keeps_left`); an object's `__add__`, `__getitem__` and
/// `__str__` are called where they exist; every other last step is the
/// function named after it (`binop`, `compare`, `unary`, `subscript`,
/// `attribute`, `call_func`).
#[verifier::loop_isolation(false)]
pub fn eval_expr<H: Host>(h: &mut H, st: &mut Store, env: usize, e: &Expr, depth: u64) -> (r: Result<PVal, Fault>)
    requires
        old(st).wf(),
        env < old(st).scopes.count(),
    ensures
        final(st).wf(),
        old(st).scopes.count() <= final(st).scopes.count(),
        expr_sem(depth, *old(st), *final(st), env, *e, r),
    decreases depth,
{
    if depth == 0 {
        return Err(too_deep());
    }
    let d = depth - 1;
    match e {
        Expr::NoneVal => Ok(PVal::NoneVal),
        Expr::Bool(b) => Ok(PVal::Bool(*b)),
        Expr::Int(i) => Ok(PVal::Int(*i)),
        Expr::Float(t) => Ok(PVal::Float(h.float_literal(t.as_str()))),
        Expr::Str(s) => Ok(PVal::Str(s.clone())),
        Expr::Name(n) => lookup(st, env, n.as_str()),
        Expr::FString(text) => {
            let parts = fstring_parts(text.as_str());
            let mut out = String::from_str("");
            let mut k: usize = 0;
            while k < parts.len()
                invariant
            st.wf(),
            env < st.scopes.count(),
            old(st).scopes.count() <= st.scopes.count(),
            d < depth,
                decreases parts@.len() - k,
            {
                match &parts[k] {
                    FPart::Text(t) => {
                        out.append(t.as_str());
                    },
                    FPart::Code(code) => {
                        let ts = match scan(code.as_str()) {
                            Ok(ts) => ts,
                            Err(Ok(m)) => {
                                return Err(Fault::Raise(exc_string("SyntaxError", m)));
                            },
                            Err(Err(f)) => {
                                return Err(f);
                            },
                        };
                        let x = match parse_code(&ts, "<fstring>") {
                            Ok(x) => x,
                            Err(m) => {
                                return Err(Fault::Raise(exc_string("SyntaxError", m)));
                            },
                        };
                        let v = match eval_expr(h, st, env, &x, d) {
                            Ok(v) => {
                                proof {
                                    assert(step(*st, Ok::<PVal, Fault>(v)));
                                }
                                v
                            },
                            Err(f) => {
                                proof {
                                    assert(step(*st, Err::<PVal, Fault>(f)));
                                }
                                return Err(f);
                            },
                        };
                        let t = py_to_string(h, st, &v, d)?;
                        out.append(t.as_str());
                    },
                }
                k = k + 1;
            }
            Ok(PVal::Str(out))
        },
        Expr::Tuple(items) => {
            let vs = match eval_list(h, st, env, items, d) {
                Ok(v) => {
                    proof {
                        assert(steps(*st, Ok::<Seq<PVal>, Fault>(v@)));
                    }
                    v
                },
                Err(f) => {
                    proof {
                        assert(steps(*st, Err::<Seq<PVal>, Fault>(f)));
                    }
                    return Err(f);
                },
            };
            Ok(new_tuple(st, vs))
        },
        Expr::List(items) => {
            let vs = match eval_list(h, st, env, items, d) {
                Ok(v) => {
                    proof {
                        assert(steps(*st, Ok::<Seq<PVal>, Fault>(v@)));
                    }
                    v
                },
                Err(f) => {
                    proof {
                        assert(steps(*st, Err::<Seq<PVal>, Fault>(f)));
                    }
                    return Err(f);
                },
            };
            Ok(new_list(st, vs))
        },
        Expr::Dict(pairs) => {
            let mut t: VarTable<PVal> = VarTable::new();
            match eval_pairs(h, st, env, pairs, &mut t, d) {
                Ok(_) => {
                    proof {
                        assert(stepm(*st, Ok::<Map<Seq<char>, PVal>, Fault>(t@)));
                    }
                },
                Err(f) => {
                    proof {
                        assert(stepm(*st, Err::<Map<Seq<char>, PVal>, Fault>(f)));
                    }
                    return Err(f);
                },
            }
            let ghost s2 = *st;
            let ghost m = t@;
            let v = new_dict(st, t);
            proof {
                assert(st.dicts@.subrange(0, s2.dicts@.len() as int) =~= s2.dicts@);
                assert(st.dicts@[s2.dicts@.len() as int]@ == m);
            }
            Ok(v)
        },
        Expr::ListComp(x, target, iter, cond) => run_comp(h, st, env, x, target, iter, cond, d),
        Expr::Lambda(params, body) => {
            let f = Func {
                name: String::from_str("<lambda>"),
                params: names_of(params),
                defaults: Vec::new(),
                vararg: None,
                kwarg: None,
                body: Items::Cons(Box::new(Stmt::Return(Some((**body).duplicate()))), Box::new(Items::Nil)),
                closure: env,
            };
            let i = st.funcs.len();
            let ghost s2 = *st;
            st.funcs.push(f);
            proof {
                assert(st.funcs@.subrange(0, s2.funcs@.len() as int) =~= s2.funcs@);
            }
            Ok(PVal::Function(i))
        },
        Expr::BinOp(op, l, r) => {
            let a = match eval_expr(h, st, env, l, d) {
                Ok(v) => {
                    proof {
                        assert(step(*st, Ok::<PVal, Fault>(v)));
                    }
                    v
                },
                Err(f) => {
                    proof {
                        assert(step(*st, Err::<PVal, Fault>(f)));
                    }
                    return Err(f);
                },
            };
            let b = match eval_expr(h, st, env, r, d) {
                Ok(v) => {
                    proof {
                        assert(step(*st, Ok::<PVal, Fault>(v)));
                    }
                    v
                },
                Err(f) => {
                    proof {
                        assert(step(*st, Err::<PVal, Fault>(f)));
                    }
                    return Err(f);
                },
            };
            if *op == Op::Add {
                match method_of(st, &a, "__add__") {
                    Some(m) => {
                        let mut args: Vec<PVal> = Vec::new();
                        args.push(b);
                        let kw0: Vec<(String, PVal)> = Vec::new();
                        proof {
                            assert(args@ =~= seq![b]);
                            assert(kw0@ =~= seq![]);
                        }
                        return call_func(h, st, PVal::BoundMethod(Box::new(a), Box::new(m)), args, kw0, d);
                    },
                    None => {},
                }
            }
            binop(h, *op, &a, &b)
        },
        Expr::UnaryOp(op, x) => {
            let v = match eval_expr(h, st, env, x, d) {
                Ok(v) => {
                    proof {
                        assert(step(*st, Ok::<PVal, Fault>(v)));
                    }
                    v
                },
                Err(f) => {
                    proof {
                        assert(step(*st, Err::<PVal, Fault>(f)));
                    }
                    return Err(f);
                },
            };
            unary(h, st, *op, &v)
        },
        Expr::Compare(op, l, r) => {
            let a = match eval_expr(h, st, env, l, d) {
                Ok(v) => {
                    proof {
                        assert(step(*st, Ok::<PVal, Fault>(v)));
                    }
                    v
                },
                Err(f) => {
                    proof {
                        assert(step(*st, Err::<PVal, Fault>(f)));
                    }
                    return Err(f);
                },
            };
            let b = match eval_expr(h, st, env, r, d) {
                Ok(v) => {
                    proof {
                        assert(step(*st, Ok::<PVal, Fault>(v)));
                    }
                    v
                },
                Err(f) => {
                    proof {
                        assert(step(*st, Err::<PVal, Fault>(f)));
                    }
                    return Err(f);
                },
            };
            compare(h, *op, &a, &b)
        },
        Expr::Logical(op, l, r) => {
            let a = match eval_expr(h, st, env, l, d) {
                Ok(v) => {
                    proof {
                        assert(step(*st, Ok::<PVal, Fault>(v)));
                    }
                    v
                },
                Err(f) => {
                    proof {
                        assert(step(*st, Err::<PVal, Fault>(f)));
                    }
                    return Err(f);
                },
            };
            if keeps_left(*op, truthy(st, &a)) {
                Ok(a)
            } else {
                eval_expr(h, st, env, r, d)
            }
        },
        Expr::Call(f, args, kwargs) => {
            let fv = match eval_expr(h, st, env, f, d) {
                Ok(v) => {
                    proof {
                        assert(step(*st, Ok::<PVal, Fault>(v)));
                    }
                    v
                },
                Err(f) => {
                    proof {
                        assert(step(*st, Err::<PVal, Fault>(f)));
                    }
                    return Err(f);
                },
            };
            let av = match eval_list(h, st, env, args, d) {
                Ok(v) => {
                    proof {
                        assert(steps(*st, Ok::<Seq<PVal>, Fault>(v@)));
                    }
                    v
                },
                Err(f) => {
                    proof {
                        assert(steps(*st, Err::<Seq<PVal>, Fault>(f)));
                    }
                    return Err(f);
                },
            };
            let ks = refs(kwargs);
            let ghost s2 = *st;
            let mut kv: Vec<(String, PVal)> = Vec::new();
            let mut k: usize = 0;
            while k < ks.len()
                invariant
                    st.wf(),
                    env < st.scopes.count(),
                    old(st).scopes.count() <= st.scopes.count(),
                    d < depth,
                    k <= ks@.len(),
                    k == 0 ==> *st == s2 && kv@.len() == 0,
                decreases ks@.len() - k,
            {
                let v = match eval_expr(h, st, env, &ks[k].1, d) {
                    Ok(v) => {
                        proof {
                            assert(step(*st, Ok::<PVal, Fault>(v)));
                        }
                        v
                    },
                    Err(f) => {
                        proof {
                            assert(step(*st, Err::<PVal, Fault>(f)));
                        }
                        return Err(f);
                    },
                };
                put_pair(&mut kv, ks[k].0.as_str(), v);
                k = k + 1;
            }
            proof {
                if kv@.len() == 0 {
                    assert(kv@ =~= seq![]);
                }
            }
            call_func(h, st, fv, av, kv, d)
        },
        Expr::Attribute(x, attr) => {
            let o = match eval_expr(h, st, env, x, d) {
                Ok(v) => {
                    proof {
                        assert(step(*st, Ok::<PVal, Fault>(v)));
                    }
                    v
                },
                Err(f) => {
                    proof {
                        assert(step(*st, Err::<PVal, Fault>(f)));
                    }
                    return Err(f);
                },
            };
            attribute(st, &o, attr.as_str())
        },
        Expr::Subscript(x, i) => {
            let o = match eval_expr(h, st, env, x, d) {
                Ok(v) => {
                    proof {
                        assert(step(*st, Ok::<PVal, Fault>(v)));
                    }
                    v
                },
                Err(f) => {
                    proof {
                        assert(step(*st, Err::<PVal, Fault>(f)));
                    }
                    return Err(f);
                },
            };
            let iv = match eval_expr(h, st, env, i, d) {
                Ok(v) => {
                    proof {
                        assert(step(*st, Ok::<PVal, Fault>(v)));
                    }
                    v
                },
                Err(f) => {
                    proof {
                        assert(step(*st, Err::<PVal, Fault>(f)));
                    }
                    return Err(f);
                },
            };
            match o {
                PVal::Instance(_) => match method_of(st, &o, "__getitem__") {
                    Some(m) => {
                        let mut args: Vec<PVal> = Vec::new();
                        args.push(iv);
                        let kw0: Vec<(String, PVal)> = Vec::new();
                        proof {
                            assert(args@ =~= seq![iv]);
                            assert(kw0@ =~= seq![]);
                        }
                        call_func(h, st, PVal::BoundMethod(Box::new(o), Box::new(m)), args, kw0, d)
                    },
                    None => Err(raise("TypeError", "object is not subscriptable")),
                },
                _ => subscript(h, st, &o, &iv),
            }
        },
    }
}

/// `[x for target in iter if cond]` (see `comp_items`): the items of `iter`
/// are walked in a scope of the comprehension's own, and the values kept
/// make a new list.
#[verifier::loop_isolation(false)]
fn run_comp<H: Host>(
    h: &mut H,
    st: &mut Store,
    env: usize,
    x: &Expr,
    target: &Expr,
    iter: &Expr,
    cond: &Option<Box<Expr>>,
    depth: u64,
) -> (r: Result<PVal, Fault>)
    requires
        old(st).wf(),
        env < old(st).scopes.count(),
    ensures
        final(st).wf(),
        old(st).scopes.count() <= final(st).scopes.count(),
        depth == 0 ==> (r matches Err(Fault::Panic(_))) && *final(st) == *old(st),
        depth > 0 ==> exists|mid: Store, ra: Result<PVal, Fault>|
            #![trigger step(mid, ra)]
            step(mid, ra) && expr_sem(dec(depth), *old(st), mid, env, *iter, ra) && match ra {
                Err(f) => r == Err::<PVal, Fault>(f) && *final(st) == mid,
                Ok(v) => if !((v is List && v->List_0 < mid.lists@.len()) || (v is Tuple && v->Tuple_0 < mid.tuples@.len())
                    || v is Str) {
                    raises(r, "TypeError"@, "not iterable"@) && *final(st) == mid
                } else {
                    exists|items: Seq<PVal>, m1: Store, m2: Store, rs: Result<Seq<PVal>, Fault>|
                        #![trigger comp_step(items, m1, m2, rs)]
                        comp_step(items, m1, m2, rs) && iter_view(mid, v, items) && fresh_scope(mid, m1, env) && comp_items(
                            depth,
                            m1,
                            m2,
                            mid.scopes.count() as usize,
                            *target,
                            *x,
                            *cond,
                            items,
                            seq![],
                            rs,
                        ) && comp_result(m2, *final(st), rs, r)
                },
            },
    decreases depth,
{
    if depth == 0 {
        return Err(too_deep());
    }
    let d = depth - 1;
    let it = match eval_expr(h, st, env, iter, d) {
        Ok(v) => {
            proof {
                assert(step(*st, Ok::<PVal, Fault>(v)));
            }
            v
        },
        Err(f) => {
            proof {
                assert(step(*st, Err::<PVal, Fault>(f)));
            }
            return Err(f);
        },
    };
    let ghost s0 = *st;
    let items = match iter_items(st, &it) {
        Some(v) => v,
        None => {
            return Err(raise("TypeError", "not iterable"));
        },
    };
    let loc = st.scopes.push(Some(env));
    let ghost s1 = *st;
    proof {
        assert(iter_view(s0, it, items@));
        assert(fresh_scope(s0, s1, env));
        assert(items@.skip(0) =~= items@);
    }
    let mut res: Vec<PVal> = Vec::new();
    let mut k: usize = 0;
    while k < items.len()
        invariant
            st.wf(),
            env < st.scopes.count(),
            loc < st.scopes.count(),
            old(st).scopes.count() <= st.scopes.count(),
            d < depth,
            k <= items@.len(),
            loc == s0.scopes.count(),
            forall|post: Store, rr: Result<Seq<PVal>, Fault>|
                #![trigger comp_items(depth, *st, post, loc, *target, *x, *cond, items@.skip(k as int), res@, rr)]
                comp_items(depth, *st, post, loc, *target, *x, *cond, items@.skip(k as int), res@, rr) ==> comp_items(
                    depth,
                    s1,
                    post,
                    loc,
                    *target,
                    *x,
                    *cond,
                    items@,
                    seq![],
                    rr,
                ),
        decreases items@.len() - k,
    {
        let ghost s_it = *st;
        let ghost item = items@[k as int];
        let ra = assign_target(h, st, loc, target, items[k].duplicate(), d);
        proof {
            assert(step_assign(*st, ra));
            assert(items@.skip(k as int)[0] == item);
        }
        let ghost m1 = *st;
        match ra {
            Ok(()) => {},
            Err(f) => {
                proof {
                    assert(comp_items(depth, s_it, *st, loc, *target, *x, *cond, items@.skip(k as int), res@, Err::<Seq<PVal>, Fault>(f)));
                    assert(comp_step(items@, s1, *st, Err::<Seq<PVal>, Fault>(f)));
                }
                return Err(f);
            },
        }
        let ok = match cond {
            Some(c) => {
                let rc = eval_expr(h, st, loc, c, d);
                proof {
                    assert(step(*st, rc));
                }
                match rc {
                    Ok(cv) => truthy(st, &cv),
                    Err(f) => {
                        proof {
                            assert(cond_sem(depth, m1, *st, loc, *cond, Err::<bool, Fault>(f)));
                            assert(step_keep(*st, Err::<bool, Fault>(f)));
                            assert(comp_items(depth, s_it, *st, loc, *target, *x, *cond, items@.skip(k as int), res@, Err::<Seq<PVal>, Fault>(f)));
                    assert(comp_step(items@, s1, *st, Err::<Seq<PVal>, Fault>(f)));
                        }
                        return Err(f);
                    },
                }
            },
            None => true,
        };
        let ghost m2 = *st;
        proof {
            assert(cond_sem(depth, m1, m2, loc, *cond, Ok::<bool, Fault>(ok)));
            assert(step_keep(m2, Ok::<bool, Fault>(ok)));
        }
        let ghost acc = res@;
        let ghost kk = k;
        if ok {
            let rx = eval_expr(h, st, loc, x, d);
            proof {
                assert(step(*st, rx));
            }
            match rx {
                Ok(v) => {
                    res.push(v);
                },
                Err(f) => {
                    proof {
                        assert(comp_items(depth, s_it, *st, loc, *target, *x, *cond, items@.skip(k as int), res@, Err::<Seq<PVal>, Fault>(f)));
                    assert(comp_step(items@, s1, *st, Err::<Seq<PVal>, Fault>(f)));
                    }
                    return Err(f);
                },
            }
        }
        k = k + 1;
        proof {
            assert(items@.skip(kk as int).drop_first() =~= items@.skip(k as int));
            assert forall|post: Store, rr: Result<Seq<PVal>, Fault>|
                #![trigger comp_items(depth, *st, post, loc, *target, *x, *cond, items@.skip(k as int), res@, rr)]
                comp_items(depth, *st, post, loc, *target, *x, *cond, items@.skip(k as int), res@, rr) implies comp_items(
                    depth,
                    s1,
                    post,
                    loc,
                    *target,
                    *x,
                    *cond,
                    items@,
                    seq![],
                    rr,
                ) by {
                assert(step_assign(m1, ra));
                assert(step_keep(m2, Ok::<bool, Fault>(ok)));
                assert(comp_items(depth, s_it, post, loc, *target, *x, *cond, items@.skip(kk as int), acc, rr));
            }
        }
    }
    proof {
        assert(items@.skip(k as int).len() == 0);
        assert(comp_items(depth, *st, *st, loc, *target, *x, *cond, items@.skip(k as int), res@, Ok::<Seq<PVal>, Fault>(res@)));
    }
    let ghost m2 = *st;
    let ghost rv = res@;
    let v = new_list(st, res);
    proof {
        assert(comp_step(items@, s1, m2, Ok::<Seq<PVal>, Fault>(rv)));
    }
    Ok(v)
}

/// `list_sem` at depth zero, and for the empty list.
proof fn lemma_list_base(depth: u64, pre: Store, env: usize, items: Items<Expr>, r: Result<Seq<PVal>, Fault>)
    requires
        (depth == 0 && r is Err && r->Err_0 is Panic) || (depth > 0 && items is Nil && r == Ok::<Seq<PVal>, Fault>(seq![])),
    ensures
        list_sem(depth, pre, pre, env, items, r),
{
}

/// The first expression of a list fails: so does the list.
proof fn lemma_list_err_head(depth: u64, pre: Store, post: Store, env: usize, items: Items<Expr>, f: Fault)
    requires
        depth > 0,
        items is Cons,
        expr_sem(dec(depth), pre, post, env, *items->Cons_0, Err::<PVal, Fault>(f)),
    ensures
        list_sem(depth, pre, post, env, items, Err::<Seq<PVal>, Fault>(f)),
{
}

/// The first expression of a list succeeds and the rest fails.
proof fn lemma_list_err_tail(depth: u64, pre: Store, mid: Store, post: Store, env: usize, items: Items<Expr>, a: PVal, f: Fault)
    requires
        depth > 0,
        items is Cons,
        expr_sem(dec(depth), pre, mid, env, *items->Cons_0, Ok::<PVal, Fault>(a)),
        list_sem(dec(depth), mid, post, env, *items->Cons_1, Err::<Seq<PVal>, Fault>(f)),
    ensures
        list_sem(depth, pre, post, env, items, Err::<Seq<PVal>, Fault>(f)),
{
    assert(step(mid, Ok::<PVal, Fault>(a)));
}

/// The first expression of a list and then the rest succeed.
#[verifier::spinoff_prover]
proof fn lemma_list_ok(depth: u64, pre: Store, mid: Store, post: Store, env: usize, items: Items<Expr>, a: PVal, vs: Seq<PVal>)
    requires
        depth > 0,
        items is Cons,
        expr_sem(dec(depth), pre, mid, env, *items->Cons_0, Ok::<PVal, Fault>(a)),
        list_sem(dec(depth), mid, post, env, *items->Cons_1, Ok::<Seq<PVal>, Fault>(vs)),
    ensures
        list_sem(depth, pre, post, env, items, Ok::<Seq<PVal>, Fault>(seq![a] + vs)),
{
    reveal_with_fuel(list_sem, 2);
    let w = seq![a] + vs;
    assert(w.len() > 0 && w[0] == a);
    assert(w.drop_first() =~= vs);
    assert(step(mid, Ok::<PVal, Fault>(w[0])));
    assert(expr_sem(dec(depth), pre, mid, env, *items->Cons_0, Ok::<PVal, Fault>(w[0])) && list_sem(
        dec(depth),
        mid,
        post,
        env,
        *items->Cons_1,
        Ok::<Seq<PVal>, Fault>(w.drop_first()),
    ));
    assert(w.len() > 0 && exists|m: Store|
        #![trigger step(m, Ok::<PVal, Fault>(w[0]))]
        expr_sem(dec(depth), pre, m, env, *items->Cons_0, Ok::<PVal, Fault>(w[0])) && list_sem(
            dec(depth),
            m,
            post,
            env,
            *items->Cons_1,
            Ok::<Seq<PVal>, Fault>(w.drop_first()),
        ));
}

/// Evaluates the expressions of `items` in order (see `list_sem`).
#[verifier::spinoff_prover]
fn eval_list<H: Host>(h: &mut H, st: &mut Store, env: usize, items: &Items<Expr>, depth: u64) -> (r: Result<Vec<PVal>, Fault>)
    requires
        old(st).wf(),
        env < old(st).scopes.count(),
    ensures
        final(st).wf(),
        old(st).scopes.count() <= final(st).scopes.count(),
        list_sem(depth, *old(st), *final(st), env, *items, seq_res(r)),
    decreases depth,
{
    if depth == 0 {
        let f = too_deep();
        proof {
            lemma_list_base(depth, *st, env, *items, Err::<Seq<PVal>, Fault>(f));
        }
        return Err(f);
    }
    match items {
        Items::Nil => {
            proof {
                lemma_list_base(depth, *st, env, *items, Ok::<Seq<PVal>, Fault>(seq![]));
            }
            Ok(Vec::new())
        },
        Items::Cons(x, t) => {
            let ghost s0 = *st;
            let a = match eval_expr(h, st, env, x, depth - 1) {
                Ok(a) => a,
                Err(f) => {
                    proof {
                        lemma_list_err_head(depth, s0, *st, env, *items, f);
                    }
                    return Err(f);
                },
            };
            let ghost s1 = *st;
            let mut rest = match eval_list(h, st, env, t, depth - 1) {
                Ok(v) => v,
                Err(f) => {
                    proof {
                        lemma_list_err_tail(depth, s0, s1, *st, env, *items, a, f);
                    }
                    return Err(f);
                },
            };
            let ghost rv = rest@;
            let mut out: Vec<PVal> = Vec::new();
            out.push(a);
            out.append(&mut rest);
            proof {
                lemma_list_ok(depth, s0, s1, *st, env, *items, a, rv);
                assert(out@ =~= seq![a] + rv);
            }
            Ok(out)
        },
    }
}

/// Evaluates the pairs of a dictionary display in order into `t` (see
/// `pairs_sem`).
#[verifier::spinoff_prover]
fn eval_pairs<H: Host>(
    h: &mut H,
    st: &mut Store,
    env: usize,
    pairs: &Items<(Expr, Expr)>,
    t: &mut VarTable<PVal>,
    depth: u64,
) -> (r: Result<(), Fault>)
    requires
        old(st).wf(),
        env < old(st).scopes.count(),
        old(t).wf(),
    ensures
        final(st).wf(),
        final(t).wf(),
        old(st).scopes.count() <= final(st).scopes.count(),
        pairs_sem(
            depth,
            *old(st),
            *final(st),
            env,
            *pairs,
            old(t)@,
            match r {
                Ok(_) => Ok::<Map<Seq<char>, PVal>, Fault>(final(t)@),
                Err(f) => Err::<Map<Seq<char>, PVal>, Fault>(f),
            },
        ),
    decreases depth,
{
    if depth == 0 {
        return Err(too_deep());
    }
    match pairs {
        Items::Nil => Ok(()),
        Items::Cons(p, rest) => {
            let kv = match eval_expr(h, st, env, &p.0, depth - 1) {
                Ok(v) => {
                    proof {
                        assert(step(*st, Ok::<PVal, Fault>(v)));
                    }
                    v
                },
                Err(f) => {
                    proof {
                        assert(step(*st, Err::<PVal, Fault>(f)));
                    }
                    return Err(f);
                },
            };
            let ghost s1 = *st;
            let key = match key_of(h, st, &kv) {
                Ok(k) => k,
                Err(f) => {
                    proof {
                        assert(step(s1, Ok::<PVal, Fault>(kv)));
                    }
                    return Err(f);
                },
            };
            let v = match eval_expr(h, st, env, &p.1, depth - 1) {
                Ok(v) => {
                    proof {
                        assert(step(*st, Ok::<PVal, Fault>(v)));
                    }
                    v
                },
                Err(f) => {
                    proof {
                        assert(step(*st, Err::<PVal, Fault>(f)));
                    }
                    return Err(f);
                },
            };
            t.set(key.as_str(), v);
            eval_pairs(h, st, env, rest, t, depth - 1)
        },
    }
}

/// The value that prints a `None`, a boolean or an integer.
pub open spec fn plain_value(v: PVal) -> Option<Value> {
    match v {
        PVal::NoneVal => Some(Value::NoneVal),
        PVal::Bool(b) => Some(Value::Bool(b)),
        PVal::Int(i) => Some(Value::Int(i)),
        _ => None,
    }
}

/// The printed form of a value: an object's `__str__` where it has one that
/// gives a string, else the library's printing of the value.
pub fn py_to_string<H: Host>(h: &mut H, st: &mut Store, v: &PVal, depth: u64) -> (r: Result<String, Fault>)
    requires
        old(st).wf(),
    ensures
        final(st).wf(),
        old(st).scopes.count() <= final(st).scopes.count(),
        (depth > 0 && v is Str) ==> (r matches Ok(s) && s@ == v->Str_0@),
        (depth > 0 && plain_value(*v) is Some) ==> (r matches Ok(s) && s@ == crate::value::show(plain_value(*v)->Some_0)),
        (depth > 0 && v is Instance && method_of_spec(old(st), *v, "__str__"@) is Some) ==> exists|
            mid: Store,
            rc: Result<PVal, Fault>,
        |
            #![trigger step(mid, rc)]
            call_outline(
                dec(depth),
                *old(st),
                mid,
                PVal::BoundMethod(Box::new(*v), Box::new(method_of_spec(old(st), *v, "__str__"@)->Some_0)),
                seq![],
                seq![],
                rc,
            ) && match rc {
                Err(f) => r == Err::<String, Fault>(f) && *final(st) == mid,
                Ok(PVal::Str(s)) => (r matches Ok(t) && t@ == s@) && *final(st) == mid,
                Ok(_) => r is Ok,
            },
    decreases depth,
{
    if depth == 0 {
        return Err(too_deep());
    }
    match v {
        PVal::Instance(_) => match method_of(st, v, "__str__") {
            Some(m) => {
                let args0: Vec<PVal> = Vec::new();
                let kw0: Vec<(String, PVal)> = Vec::new();
                proof {
                    assert(kw0@ =~= seq![]);
                    assert(args0@ =~= seq![]);
                }
                let rc = call_func(h, st, PVal::BoundMethod(Box::new(v.duplicate()), Box::new(m)), args0, kw0, depth - 1);
                proof {
                    assert(step(*st, rc));
                }
                let res = match rc {
                    Ok(x) => x,
                    Err(f) => {
                        return Err(f);
                    },
                };
                match res {
                    PVal::Str(s) => {
                        return Ok(s);
                    },
                    _ => {},
                }
            },
            None => {},
        },
        PVal::Str(s) => {
            return Ok(s.clone());
        },
        _ => {},
    }
    let x = to_value(h, st, v, DEPTH);
    Ok(display(&x))
}

/// The targets of an unpacking assignment.
pub open spec fn targets_of(target: Expr) -> Option<Seq<Expr>> {
    match target {
        Expr::Tuple(items) => Some(items.to_seq()),
        Expr::List(items) => Some(items.to_seq()),
        _ => None,
    }
}

/// The items of a tuple or a list.
pub open spec fn items_of(st: &Store, v: PVal) -> Option<Seq<PVal>> {
    match v {
        PVal::Tuple(t) => if t < st.tuples@.len() {
            Some(st.tuples@[t as int]@)
        } else {
            None
        },
        PVal::List(l) => if l < st.lists@.len() {
            Some(st.lists@[l as int]@)
        } else {
            None
        },
        _ => None,
    }
}

/// What `o[i] = val` does at `depth` in scope `env` from store `pre`: `o`
/// then `i` are evaluated at `depth - 1`, the first error is the result, and the
/// item is stored as `set_item` says, unless `o` is an object (whose
/// `__setitem__` is called).
pub open spec fn subscript_assign<T>(depth: u64, pre: Store, post: Store, env: usize, o: Expr, i: Expr, val: PVal, r: Result<T, Fault>) -> bool
    decreases depth,
{
    depth > 0 && exists|mid: Store, ra: Result<PVal, Fault>|
        #![trigger step(mid, ra)]
        expr_sem(dec(depth), pre, mid, env, o, ra) && match ra {
            Err(f) => r == Err::<T, Fault>(f) && post == mid,
            Ok(ov) => exists|mid2: Store, rb: Result<PVal, Fault>|
                #![trigger step(mid2, rb)]
                expr_sem(dec(depth), mid, mid2, env, i, rb) && match rb {
                    Err(f) => r == Err::<T, Fault>(f) && post == mid2,
                    Ok(iv) => !(ov is Instance) ==> set_item_post(mid2, post, ov, iv, val, r),
                },
        }
}

/// Assigns `val` to `target` in scope `env`: a name (to its nearest
/// binding), an item, an attribute of an object, or a tuple or list of
/// targets, which unpacks `val` after checking that the counts agree.
#[verifier::loop_isolation(false)]
pub fn assign_target<H: Host>(h: &mut H, st: &mut Store, env: usize, target: &Expr, val: PVal, depth: u64) -> (r: Result<(), Fault>)
    requires
        old(st).wf(),
        env < old(st).scopes.count(),
    ensures
        final(st).wf(),
        old(st).scopes.count() <= final(st).scopes.count(),
        (depth > 0 && target is Name) ==> (r is Ok && final(st).scopes.lookup(env as int, target->Name_0@) == Some(val)),
        (depth > 0 && target is Subscript) ==> subscript_assign(
            depth,
            *old(st),
            *final(st),
            env,
            *target->Subscript_0,
            *target->Subscript_1,
            val,
            r,
        ),
        (depth > 0 && targets_of(*target) is Some && items_of(old(st), val) is Some && targets_of(*target)->Some_0.len()
            != items_of(old(st), val)->Some_0.len()) ==> (*final(st) == *old(st) && raises(
            r,
            "ValueError"@,
            crate::runtime::unpack_msg(targets_of(*target)->Some_0.len(), items_of(old(st), val)->Some_0.len()),
        )),
        (depth > 0 && targets_of(*target) is Some && !(val is Tuple || val is List || val is Str)) ==> (*final(st)
            == *old(st) && (r matches Err(Fault::Raise(PVal::Exception(t, _))) && t@ == "TypeError"@)),
    decreases depth,
{
    if depth == 0 {
        return Err(too_deep());
    }
    let d = depth - 1;
    match target {
        Expr::Name(n) => {
            let ghost before = st.scopes;
            st.scopes.assign(env, n.as_str(), val);
            proof {
                crate::scopes::lemma_read_after_assign(&before, &st.scopes, env as int, n@, val);
            }
            Ok(())
        },
        Expr::Subscript(o, i) => {
            let obj = match eval_expr(h, st, env, o, d) {
                Ok(v) => {
                    proof {
                        assert(step(*st, Ok::<PVal, Fault>(v)));
                    }
                    v
                },
                Err(f) => {
                    proof {
                        assert(step(*st, Err::<PVal, Fault>(f)));
                    }
                    return Err(f);
                },
            };
            let idx = match eval_expr(h, st, env, i, d) {
                Ok(v) => {
                    proof {
                        assert(step(*st, Ok::<PVal, Fault>(v)));
                    }
                    v
                },
                Err(f) => {
                    proof {
                        assert(step(*st, Err::<PVal, Fault>(f)));
                    }
                    return Err(f);
                },
            };
            match obj {
                PVal::Instance(_) => match method_of(st, &obj, "__setitem__") {
                    Some(m) => {
                        let mut args: Vec<PVal> = Vec::new();
                        args.push(idx);
                        args.push(val);
                        call_func(h, st, PVal::BoundMethod(Box::new(obj), Box::new(m)), args, Vec::new(), d)?;
                        Ok(())
                    },
                    None => Err(raise("TypeError", "object does not support item assignment")),
                },
                _ => set_item(h, st, &obj, &idx, val),
            }
        },
        Expr::Attribute(o, attr) => {
            let obj = eval_expr(h, st, env, o, d)?;
            match obj {
                PVal::Instance(oi) => {
                    if oi < st.objects.len() {
                        attr_set(st, oi, attr.as_str(), val);
                        Ok(())
                    } else {
                        Err(raise("AttributeError", "cannot assign attribute"))
                    }
                },
                _ => Err(raise("AttributeError", "cannot assign attribute")),
            }
        },
        Expr::Tuple(items) | Expr::List(items) => {
            let vals = match val {
                PVal::Tuple(_) | PVal::List(_) | PVal::Str(_) => match iter_items(st, &val) {
                    Some(v) => v,
                    None => Vec::new(),
                },
                _ => {
                    return Err(raise("TypeError", "cannot unpack non-iterable object"));
                },
            };
            let ts = refs(items);
            match check_unpack(ts.len(), vals.len()) {
                Ok(()) => {},
                Err(e) => {
                    return Err(Fault::Raise(from_error(e)));
                },
            }
            let mut k: usize = 0;
            while k < ts.len()
                invariant
            st.wf(),
            env < st.scopes.count(),
            old(st).scopes.count() <= st.scopes.count(),
            d < depth,
                    ts@.len() == vals@.len(),
                decreases ts@.len() - k,
            {
                assign_target(h, st, env, ts[k], vals[k].duplicate(), d)?;
                k = k + 1;
            }
            Ok(())
        },
        _ => Err(raise("SyntaxError", "invalid assign target")),
    }
}

/// A trigger for the handler that runs and the store it starts from.
pub open spec fn handler_step(j: int, s: Store) -> bool {
    true
}

/// The type name of an exception value, which handlers are matched against.
pub open spec fn exc_type_of(x: PVal) -> Option<Seq<char>> {
    match x {
        PVal::Exception(t, _) => Some(t@),
        _ => None,
    }
}

/// A trigger for the store and outcome between two statements.
pub open spec fn stepb(s: Store, r: Result<Status<PVal>, Fault>) -> bool {
    true
}

/// What running the statements `stmts` in order at `depth` in scope `env`
/// gives from store `pre`, and the store `post` it leaves: each statement
/// runs at `depth - 1`, and the block stops at the first one that does not
/// end normally (`block_goes_on`), with its outcome.
pub open spec fn block_sem(depth: u64, pre: Store, post: Store, env: usize, stmts: Items<Stmt>, r: Result<Status<PVal>, Fault>) -> bool
    decreases depth,
{
    if depth == 0 {
        (r matches Err(Fault::Panic(_))) && post == pre
    } else {
        match stmts {
            Items::Nil => r == Ok::<Status<PVal>, Fault>(Status::Normal) && post == pre,
            Items::Cons(s, t) => (!(r matches Ok(Status::Normal)) && stmt_sem(dec(depth), pre, post, env, *s, r))
                || exists|mid: Store|
                #![trigger stepb(mid, Ok::<Status<PVal>, Fault>(Status::Normal))]
                stmt_sem(dec(depth), pre, mid, env, *s, Ok::<Status<PVal>, Fault>(Status::Normal)) && block_sem(
                    dec(depth),
                    mid,
                    post,
                    env,
                    *t,
                    r,
                ),
        }
    }
}

/// What `while c: b` gives from store `pre` with at most `n` more runs of
/// its body allowed, each part at `depth - 1`: `c` is evaluated first, and
/// where it is false the loop ends normally with the store that evaluating
/// it left; otherwise the body runs, and the loop ends on an error, a
/// `return` or a `break`, or starts again (after a normal end or a
/// `continue`), as `if c: (b; while c: b)`. With no run left, the loop
/// stops as the program does.
pub open spec fn while_run(
    depth: u64,
    n: nat,
    pre: Store,
    post: Store,
    env: usize,
    c: Expr,
    b: Items<Stmt>,
    r: Result<Status<PVal>, Fault>,
) -> bool
    decreases depth, n,
{
    if depth == 0 {
        (r matches Err(Fault::Panic(_))) && post == pre
    } else {
        exists|mid: Store, ra: Result<PVal, Fault>|
            #![trigger step(mid, ra)]
            expr_sem(dec(depth), pre, mid, env, c, ra) && match ra {
                Err(f) => r == Err::<Status<PVal>, Fault>(f) && post == mid,
                Ok(v) => if !truthy_spec(&mid, &v) {
                    r == Ok::<Status<PVal>, Fault>(Status::Normal) && post == mid
                } else {
                    exists|mid2: Store, rb: Result<Status<PVal>, Fault>|
                        #![trigger stepb(mid2, rb)]
                        block_sem(dec(depth), mid, mid2, env, b, rb) && match rb {
                            Err(f) => r == Err::<Status<PVal>, Fault>(f) && post == mid2,
                            Ok(Status::Return(x)) => r == Ok::<Status<PVal>, Fault>(Status::Return(x)) && post == mid2,
                            Ok(Status::Break) => r == Ok::<Status<PVal>, Fault>(Status::Normal) && post == mid2,
                            Ok(_) => if n == 0 {
                                (r matches Err(Fault::Panic(_))) && post == mid2
                            } else {
                                while_run(depth, (n - 1) as nat, mid2, post, env, c, b, r)
                            },
                        }
                },
            }
    }
}

/// `while c: b` whose condition is false from the store it starts in ends
/// normally, without running its body, with the store that evaluating the
/// condition left.
pub proof fn law_while_false_condition(
    depth: u64,
    pre: Store,
    mid: Store,
    env: usize,
    c: Expr,
    b: Items<Stmt>,
    v: PVal,
)
    requires
        depth > 1,
        expr_sem(dec(dec(depth)), pre, mid, env, c, Ok::<PVal, Fault>(v)),
        !truthy_spec(&mid, &v),
    ensures
        stmt_sem(depth, pre, mid, env, Stmt::While(c, b), Ok::<Status<PVal>, Fault>(Status::Normal)),
{
    assert(step(mid, Ok::<PVal, Fault>(v)));
}

/// `while c: b` is `if c: (b; while c: b)`: where the condition is true and
/// the body then ends normally or with `continue`, the loop goes on from the
/// store the body left, with one run fewer allowed.
pub proof fn law_while_unrolls(
    depth: u64,
    n: nat,
    pre: Store,
    mid: Store,
    mid2: Store,
    post: Store,
    env: usize,
    c: Expr,
    b: Items<Stmt>,
    v: PVal,
    s: Status<PVal>,
    r: Result<Status<PVal>, Fault>,
)
    requires
        depth > 0,
        n > 0,
        expr_sem(dec(depth), pre, mid, env, c, Ok::<PVal, Fault>(v)),
        truthy_spec(&mid, &v),
        block_sem(dec(depth), mid, mid2, env, b, Ok::<Status<PVal>, Fault>(s)),
        s is Normal || s is Next,
        while_run(depth, (n - 1) as nat, mid2, post, env, c, b, r),
    ensures
        while_run(depth, n, pre, post, env, c, b, r),
{
    assert(step(mid, Ok::<PVal, Fault>(v)));
    assert(stepb(mid2, Ok::<Status<PVal>, Fault>(s)));
}

/// `while c: b` ends on the first error, `return` or `break` of its body:
/// an error or a `return` is the loop's outcome, and a `break` ends it
/// normally, with the store the body left.
pub proof fn law_while_body_ends_loop(
    depth: u64,
    n: nat,
    pre: Store,
    mid: Store,
    mid2: Store,
    env: usize,
    c: Expr,
    b: Items<Stmt>,
    v: PVal,
    rb: Result<Status<PVal>, Fault>,
)
    requires
        depth > 0,
        expr_sem(dec(depth), pre, mid, env, c, Ok::<PVal, Fault>(v)),
        truthy_spec(&mid, &v),
        block_sem(dec(depth), mid, mid2, env, b, rb),
        !(rb matches Ok(s) && (s is Normal || s is Next)),
    ensures
        while_run(depth, n, pre, mid2, env, c, b, match rb {
            Ok(Status::Break) => Ok::<Status<PVal>, Fault>(Status::Normal),
            _ => rb,
        }),
{
    assert(step(mid, Ok::<PVal, Fault>(v)));
    assert(stepb(mid2, rb));
}

/// What assigning `val` to the target `target` from scope `env` is known
/// to do, apart from item assignment (see `subscript_assign`): a name then
/// reads as `val`; a tuple or list of targets refuses a value of another
/// length or one that is not a sequence, leaving the store as it was.
pub open spec fn assign_post(pre: Store, post: Store, env: usize, target: Expr, val: PVal, r: Result<(), Fault>) -> bool {
    &&& target is Name ==> (r is Ok && post.scopes.lookup(env as int, target->Name_0@) == Some(val))
    &&& (targets_of(target) is Some && items_of(&pre, val) is Some && targets_of(target)->Some_0.len() != items_of(
        &pre,
        val,
    )->Some_0.len()) ==> (post == pre && raises(
        r,
        "ValueError"@,
        crate::runtime::unpack_msg(targets_of(target)->Some_0.len(), items_of(&pre, val)->Some_0.len()),
    ))
    &&& (targets_of(target) is Some && !(val is Tuple || val is List || val is Str)) ==> (post == pre && (r matches Err(
        Fault::Raise(PVal::Exception(t, _)),
    ) && t@ == "TypeError"@))
}

/// A trigger for the store and outcome after a loop target is assigned.
pub open spec fn step_assign(s: Store, r: Result<(), Fault>) -> bool {
    true
}

/// A trigger for the items a `for` loop walks.
pub open spec fn step_items(items: Seq<PVal>) -> bool {
    true
}

/// The items that `for` walks in `v`: a list's or a tuple's items, or each
/// character of a string as a string.
pub open spec fn iter_view(st: Store, v: PVal, items: Seq<PVal>) -> bool {
    match v {
        PVal::List(l) => l < st.lists@.len() && items == st.lists@[l as int]@,
        PVal::Tuple(t) => t < st.tuples@.len() && items == st.tuples@[t as int]@,
        PVal::Str(x) => items.len() == x@.len() && forall|i: int|
            0 <= i < items.len() ==> (#[trigger] items[i] matches PVal::Str(c) && c@ == seq![x@[i]]),
        _ => false,
    }
}

/// What `for target in ...: b` gives from store `pre` once its items are
/// `items`, each part at `depth - 1`: each item in turn is assigned to
/// `target` (`assign_post`) and the body runs; the loop ends on the
/// assignment's or the body's failure, a `return` or a `break`, and
/// normally once the items run out.
pub open spec fn for_items(
    depth: u64,
    pre: Store,
    post: Store,
    env: usize,
    target: Expr,
    items: Seq<PVal>,
    b: Items<Stmt>,
    r: Result<Status<PVal>, Fault>,
) -> bool
    decreases depth, items.len(),
{
    if depth == 0 {
        (r matches Err(Fault::Panic(_))) && post == pre
    } else if items.len() == 0 {
        r == Ok::<Status<PVal>, Fault>(Status::Normal) && post == pre
    } else {
        exists|mid: Store, ra: Result<(), Fault>|
            #![trigger step_assign(mid, ra)]
            (dec(depth) > 0 ==> assign_post(pre, mid, env, target, items[0], ra)) && match ra {
                Err(f) => r == Err::<Status<PVal>, Fault>(f) && post == mid,
                Ok(_) => exists|mid2: Store, rb: Result<Status<PVal>, Fault>|
                    #![trigger stepb(mid2, rb)]
                    block_sem(dec(depth), mid, mid2, env, b, rb) && match rb {
                        Err(f) => r == Err::<Status<PVal>, Fault>(f) && post == mid2,
                        Ok(Status::Return(x)) => r == Ok::<Status<PVal>, Fault>(Status::Return(x)) && post == mid2,
                        Ok(Status::Break) => r == Ok::<Status<PVal>, Fault>(Status::Normal) && post == mid2,
                        Ok(_) => for_items(depth, mid2, post, env, target, items.drop_first(), b, r),
                    },
            }
    }
}

/// A `for` loop walks its items in order: it assigns the first to its
/// target, runs the body, and where the body ends normally or with
/// `continue` goes on with the rest from the store the body left; a name
/// as target reads as the item in that run; with no items it ends normally.
pub proof fn law_for_visits_in_order(
    depth: u64,
    pre: Store,
    mid: Store,
    mid2: Store,
    post: Store,
    env: usize,
    var: String,
    items: Seq<PVal>,
    b: Items<Stmt>,
    s: Status<PVal>,
    r: Result<Status<PVal>, Fault>,
)
    requires
        depth > 1,
        items.len() > 0,
        mid.scopes.lookup(env as int, var@) == Some(items[0]),
        block_sem(dec(depth), mid, mid2, env, b, Ok::<Status<PVal>, Fault>(s)),
        s is Normal || s is Next,
        for_items(depth, mid2, post, env, Expr::Name(var), items.drop_first(), b, r),
    ensures
        for_items(depth, pre, post, env, Expr::Name(var), items, b, r),
        for_items(depth, pre, pre, env, Expr::Name(var), Seq::<PVal>::empty(), b, Ok::<Status<PVal>, Fault>(Status::Normal)),
{
    assert(assign_post(pre, mid, env, Expr::Name(var), items[0], Ok::<(), Fault>(())));
    assert(step_assign(mid, Ok::<(), Fault>(())));
    assert(stepb(mid2, Ok::<Status<PVal>, Fault>(s)));
}

/// What `for target in it: b` gives at `depth`: `it` is evaluated at
/// `depth - 1`, a value that cannot be walked is a `TypeError`, and then the
/// loop walks its items (`for_items`).
pub open spec fn for_sem(
    depth: u64,
    pre: Store,
    post: Store,
    env: usize,
    target: Expr,
    it: Expr,
    b: Items<Stmt>,
    r: Result<Status<PVal>, Fault>,
) -> bool {
    exists|mid: Store, ra: Result<PVal, Fault>|
        #![trigger step(mid, ra)]
        step(mid, ra) && expr_sem(dec(depth), pre, mid, env, it, ra) && match ra {
            Err(f) => r == Err::<Status<PVal>, Fault>(f) && post == mid,
            Ok(v) => if !((v is List && v->List_0 < mid.lists@.len()) || (v is Tuple && v->Tuple_0 < mid.tuples@.len())
                || v is Str) {
                raises(r, "TypeError"@, "object is not iterable"@) && post == mid
            } else {
                exists|items: Seq<PVal>|
                    #![trigger step_items(items)]
                    step_items(items) && iter_view(mid, v, items) && for_items(depth, mid, post, env, target, items, b, r)
            },
        }
}

/// The names of a list of parameters, in order.
pub open spec fn param_texts(ps: Items<crate::ast::Param>) -> Seq<Seq<char>> {
    ps.to_seq().map_values(|p: crate::ast::Param| p.name@)
}

/// What running the statement `s` at `depth` in scope `env` gives from store
/// `pre`, and the store `post` it leaves. Its expressions are evaluated and
/// its blocks run at `depth - 1`; a `try` runs its first matching handler
/// (`catches`), a class's base must be a class, `while` is `while_run` and
/// `for` is `for_sem`. Definitions, imports and assignments to anything but
/// a name are stated as far as how they can end.
pub open spec fn stmt_sem(depth: u64, pre: Store, post: Store, env: usize, s: Stmt, r: Result<Status<PVal>, Fault>) -> bool
    decreases depth,
{
    if depth == 0 {
        (r matches Err(Fault::Panic(_))) && post == pre
    } else {
        match s {
            Stmt::Expr(x) => exists|mid: Store, ra: Result<PVal, Fault>|
                #![trigger step(mid, ra)]
                expr_sem(dec(depth), pre, mid, env, x, ra) && post == mid && match ra {
                    Err(f) => r == Err::<Status<PVal>, Fault>(f),
                    Ok(_) => r == Ok::<Status<PVal>, Fault>(Status::Normal),
                },
            Stmt::Assign(t, x) => exists|mid: Store, ra: Result<PVal, Fault>|
                #![trigger step(mid, ra)]
                expr_sem(dec(depth), pre, mid, env, x, ra) && match ra {
                    Err(f) => r == Err::<Status<PVal>, Fault>(f) && post == mid,
                    Ok(v) => !(r matches Ok(st) && !(st is Normal)) && ((t is Name && dec(depth) > 0) ==> (r is Ok && post.scopes.lookup(
                        env as int,
                        t->Name_0@,
                    ) == Some(v))),
                },
            Stmt::If(c, b, o) => exists|mid: Store, ra: Result<PVal, Fault>|
                #![trigger step(mid, ra)]
                expr_sem(dec(depth), pre, mid, env, c, ra) && match ra {
                    Err(f) => r == Err::<Status<PVal>, Fault>(f) && post == mid,
                    Ok(v) => if truthy_spec(&mid, &v) {
                        block_sem(dec(depth), mid, post, env, b, r)
                    } else {
                        block_sem(dec(depth), mid, post, env, o, r)
                    },
                },
            Stmt::While(c, b) => if dec(depth) == 0 {
                (r matches Err(Fault::Panic(_))) && post == pre
            } else {
                while_run(dec(depth), u64::MAX as nat, pre, post, env, c, b, r)
            },
            Stmt::For(t, it, b) => if dec(depth) == 0 {
                (r matches Err(Fault::Panic(_))) && post == pre
            } else {
                exists|mid: Store, ra: Result<PVal, Fault>|
                    #![trigger step(mid, ra)]
                    step(mid, ra) && expr_sem(dec(dec(depth)), pre, mid, env, it, ra) && match ra {
                        Err(f) => r == Err::<Status<PVal>, Fault>(f) && post == mid,
                        Ok(v) => if !((v is List && v->List_0 < mid.lists@.len()) || (v is Tuple && v->Tuple_0
                            < mid.tuples@.len()) || v is Str) {
                            raises(r, "TypeError"@, "object is not iterable"@) && post == mid
                        } else {
                            exists|items: Seq<PVal>|
                                #![trigger step_items(items)]
                                step_items(items) && iter_view(mid, v, items) && for_items(
                                    dec(depth),
                                    mid,
                                    post,
                                    env,
                                    t,
                                    items,
                                    b,
                                    r,
                                )
                        },
                    }
            },
            Stmt::Try(body, hs) => exists|mid: Store, rb: Result<Status<PVal>, Fault>|
                #![trigger stepb(mid, rb)]
                block_sem(dec(depth), pre, mid, env, body, rb) && match rb {
                    Err(Fault::Raise(x)) => if (forall|j: int|
                        0 <= j < hs.to_seq().len() ==> !#[trigger] crate::runtime::catches(
                            texts_view(hs.to_seq()[j].types.to_seq()),
                            exc_type_of(x),
                        )) {
                        r == rb && post == mid
                    } else {
                        exists|j: int, mid2: Store|
                            #![trigger handler_step(j, mid2)]
                            0 <= j < hs.to_seq().len() && crate::runtime::catches(
                                texts_view(hs.to_seq()[j].types.to_seq()),
                                exc_type_of(x),
                            ) && (forall|i: int|
                                0 <= i < j ==> !#[trigger] crate::runtime::catches(
                                    texts_view(hs.to_seq()[i].types.to_seq()),
                                    exc_type_of(x),
                                )) && mid2.scopes.count() == mid.scopes.count() + 1 && mid2.scopes.parent_of(
                                mid.scopes.count() as int,
                            ) == Some(env) && block_sem(
                                dec(depth),
                                mid2,
                                post,
                                mid.scopes.count() as usize,
                                hs.to_seq()[j].body,
                                r,
                            )
                    },
                    _ => r == rb && post == mid,
                },
            Stmt::Raise(x) => exists|mid: Store, ra: Result<PVal, Fault>|
                #![trigger step(mid, ra)]
                expr_sem(dec(depth), pre, mid, env, x, ra) && post == mid && match ra {
                    Err(f) => r == Err::<Status<PVal>, Fault>(f),
                    Ok(v) => r == Err::<Status<PVal>, Fault>(Fault::Raise(v)),
                },
            Stmt::Return(None) => r == Ok::<Status<PVal>, Fault>(Status::Return(PVal::NoneVal)) && post == pre,
            Stmt::Return(Some(x)) => exists|mid: Store, ra: Result<PVal, Fault>|
                #![trigger step(mid, ra)]
                expr_sem(dec(depth), pre, mid, env, x, ra) && post == mid && match ra {
                    Err(f) => r == Err::<Status<PVal>, Fault>(f),
                    Ok(v) => r == Ok::<Status<PVal>, Fault>(Status::Return(v)),
                },
            Stmt::Break => r == Ok::<Status<PVal>, Fault>(Status::Break) && post == pre,
            Stmt::Continue => r == Ok::<Status<PVal>, Fault>(Status::Next) && post == pre,
            Stmt::Pass => r == Ok::<Status<PVal>, Fault>(Status::Normal) && post == pre,
            Stmt::FunctionDef(n, ps, va, kwa, body) => !(r matches Ok(st) && !(st is Normal)) && (r is Ok ==> {
                let i = post.funcs@.len() - 1;
                &&& post.funcs@.len() > 0
                &&& post.funcs@[i].name@ == n@ && crate::call::names(post.funcs@[i].params@) == param_texts(ps)
                &&& opt_view(post.funcs@[i].vararg) == opt_view(va) && opt_view(post.funcs@[i].kwarg) == opt_view(kwa)
                &&& post.funcs@[i].body == body && post.funcs@[i].closure == env
                &&& post.scopes.vars_of(env as int).dom().contains(n@)
                &&& post.scopes.vars_of(env as int)[n@] == PVal::Function(i as usize)
            }),
            Stmt::ClassDef(_, Some(b), _) => exists|mid: Store, ra: Result<PVal, Fault>|
                #![trigger step(mid, ra)]
                expr_sem(dec(depth), pre, mid, env, b, ra) && match ra {
                    Err(f) => r == Err::<Status<PVal>, Fault>(f) && post == mid,
                    Ok(v) => if v is Class {
                        !(r matches Ok(st) && !(st is Normal))
                    } else {
                        raises(r, "TypeError"@, "base is not a class"@) && post == mid
                    },
                },
            _ => !(r matches Ok(st) && !(st is Normal)),
        }
    }
}

/// Runs one statement in scope `env` and says how it ended; an exception
/// that a `try` does not catch, or a fault, ends it early.
#[verifier::loop_isolation(false)]
pub fn exec_stmt<H: Host>(h: &mut H, st: &mut Store, env: usize, s: &Stmt, depth: u64) -> (r: Result<Status<PVal>, Fault>)
    requires
        old(st).wf(),
        env < old(st).scopes.count(),
    ensures
        final(st).wf(),
        old(st).scopes.count() <= final(st).scopes.count(),
        stmt_sem(depth, *old(st), *final(st), env, *s, r),
    decreases depth,
{
    if depth == 0 {
        return Err(too_deep());
    }
    let d = depth - 1;
    match s {
        Stmt::Expr(x) => {
            let _v = match eval_expr(h, st, env, x, d) {
                Ok(v) => {
                    proof {
                        assert(step(*st, Ok::<PVal, Fault>(v)));
                    }
                    v
                },
                Err(f) => {
                    proof {
                        assert(step(*st, Err::<PVal, Fault>(f)));
                    }
                    return Err(f);
                },
            };
            Ok(Status::Normal)
        },
        Stmt::Assign(target, x) => {
            let v = match eval_expr(h, st, env, x, d) {
                Ok(v) => {
                    proof {
                        assert(step(*st, Ok::<PVal, Fault>(v)));
                    }
                    v
                },
                Err(f) => {
                    proof {
                        assert(step(*st, Err::<PVal, Fault>(f)));
                    }
                    return Err(f);
                },
            };
            let ra2 = assign_target(h, st, env, target, v, d);
            match ra2 {
                Ok(()) => Ok(Status::Normal),
                Err(f) => Err(f),
            }
        },
        Stmt::If(c, b, o) => {
            let cv = match eval_expr(h, st, env, c, d) {
                Ok(v) => {
                    proof {
                        assert(step(*st, Ok::<PVal, Fault>(v)));
                    }
                    v
                },
                Err(f) => {
                    proof {
                        assert(step(*st, Err::<PVal, Fault>(f)));
                    }
                    return Err(f);
                },
            };
            if truthy(st, &cv) {
                exec_block(h, st, env, b, d)
            } else {
                exec_block(h, st, env, o, d)
            }
        },
        Stmt::While(c, b) => run_while(h, st, env, c, b, d),
        Stmt::For(target, it, b) => run_for(h, st, env, target, it, b, d),
        Stmt::FunctionDef(n, params, vararg, kwarg, body) => {
            let ps = refs(params);
            let mut names: Vec<String> = Vec::new();
            let mut defaults: Vec<(String, PVal)> = Vec::new();
            let mut k: usize = 0;
            while k < ps.len()
                invariant
                    st.wf(),
                    env < st.scopes.count(),
                    old(st).scopes.count() <= st.scopes.count(),
                    d < depth,
                    k <= ps@.len(),
                    ps@.len() == params.to_seq().len(),
                    forall|i: int| 0 <= i < ps@.len() ==> *#[trigger] ps@[i] == params.to_seq()[i],
                    names@.len() == k,
                    forall|i: int| 0 <= i < k ==> #[trigger] names@[i]@ == params.to_seq()[i].name@,
                decreases ps@.len() - k,
            {
                names.push(ps[k].name.clone());
                match &ps[k].default {
                    Some(x) => {
                        let v = eval_expr(h, st, env, x, d)?;
                        put_pair(&mut defaults, ps[k].name.as_str(), v);
                    },
                    None => {},
                }
                k = k + 1;
            }
            let f = Func {
                name: n.clone(),
                params: names,
                defaults,
                vararg: match vararg {
                    Some(v) => Some(v.clone()),
                    None => None,
                },
                kwarg: match kwarg {
                    Some(v) => Some(v.clone()),
                    None => None,
                },
                body: crate::ast::dup_stmts(body),
                closure: env,
            };
            proof {
                assert(crate::call::names(f.params@) =~= param_texts(*params));
            }
            let i = st.funcs.len();
            let ghost fv = f;
            st.funcs.push(f);
            st.scopes.set(env, n.as_str(), PVal::Function(i));
            proof {
                assert(st.funcs@[i as int] == fv);
                assert(opt_view(fv.vararg) == opt_view(*vararg));
                assert(opt_view(fv.kwarg) == opt_view(*kwarg));
                assert(fv.body == *body);
                assert(st.scopes.vars_of(env as int)[n@] == PVal::Function(i));
            }
            Ok(Status::Normal)
        },
        Stmt::ClassDef(n, base, body) => {
            let base_class: Option<usize> = match base {
                Some(x) => {
                    let v = match eval_expr(h, st, env, x, d) {
                        Ok(v) => {
                            proof {
                                assert(step(*st, Ok::<PVal, Fault>(v)));
                            }
                            v
                        },
                        Err(f) => {
                            proof {
                                assert(step(*st, Err::<PVal, Fault>(f)));
                            }
                            return Err(f);
                        },
                    };
                    match v {
                        PVal::Class(c) => Some(c),
                        _ => {
                            return Err(raise("TypeError", "base is not a class"));
                        },
                    }
                },
                None => None,
            };
            let class_env = st.scopes.push(Some(env));
            exec_block(h, st, class_env, body, d)?;
            let base_table: Option<usize> = match base_class {
                Some(c) => {
                    if c < st.classes.len() && st.classes[c].table < st.methods.len() {
                        Some(st.classes[c].table)
                    } else {
                        None
                    }
                },
                None => None,
            };
            let table = st.methods.push(base_table);
            let entries = copy_pairs(st.scopes.entries(class_env));
            let mut k: usize = 0;
            while k < entries.len()
                invariant
                    st.wf(),
                    env < st.scopes.count(),
                    table < st.methods.count(),
                    old(st).scopes.count() <= st.scopes.count(),
                decreases entries@.len() - k,
            {
                st.methods.set(table, entries[k].0.as_str(), entries[k].1.duplicate());
                k = k + 1;
            }
            let ci = st.classes.len();
            st.classes.push(Class { name: n.clone(), base: base_class, table });
            st.scopes.set(env, n.as_str(), PVal::Class(ci));
            Ok(Status::Normal)
        },
        Stmt::Try(body, handlers) => {
            let rb = exec_block(h, st, env, body, d);
            proof {
                assert(stepb(*st, rb));
            }
            match rb {
            Err(Fault::Raise(x)) => {
                let ghost mid = *st;
                let exc_type = match &x {
                    PVal::Exception(t, _) => Some(t.clone()),
                    _ => None,
                };
                assert(match exc_type {
                    Some(t) => Some(t@),
                    None => None::<Seq<char>>,
                } == exc_type_of(x));
                let hs = refs(handlers);
                let mut types: Vec<Vec<String>> = Vec::new();
                let mut k: usize = 0;
                while k < hs.len()
                    invariant
                        k <= hs@.len(),
                        types@.len() == k,
                        hs@.len() == handlers.to_seq().len(),
                        forall|i: int| 0 <= i < hs@.len() ==> *#[trigger] hs@[i] == handlers.to_seq()[i],
                        forall|i: int|
                            0 <= i < k ==> #[trigger] crate::call::names(types@[i]@) == texts_view(
                                handlers.to_seq()[i].types.to_seq(),
                            ),
                    decreases hs@.len() - k,
                {
                    types.push(names_of(&hs[k].types));
                    k = k + 1;
                }
                match first_handler(&types, &exc_type) {
                    Some(j) => {
                        let hd: &Handler = hs[j];
                        let except_env = st.scopes.push(Some(env));
                        match &hd.alias {
                            Some(a) => {
                                st.scopes.set(except_env, a.as_str(), x);
                            },
                            None => {},
                        }
                        proof {
                            assert(crate::call::names(types@[j as int]@) == texts_view(handlers.to_seq()[j as int].types.to_seq()));
                            assert(crate::runtime::catches(texts_view(handlers.to_seq()[j as int].types.to_seq()), exc_type_of(x)));
                            assert(st.scopes.count() == mid.scopes.count() + 1);
                            assert forall|i: int| 0 <= i < j implies !#[trigger] crate::runtime::catches(
                                texts_view(handlers.to_seq()[i].types.to_seq()),
                                exc_type_of(x),
                            ) by {
                                assert(crate::call::names(types@[i]@) == texts_view(handlers.to_seq()[i].types.to_seq()));
                            }
                            assert(handler_step(j as int, *st));
                        }
                        let ghost ms = *st;
                        let rr = exec_block(h, st, except_env, &hd.body, d);
                        proof {
                            assert(ms.scopes.parent_of(mid.scopes.count() as int) == Some(env));
                            assert(block_sem(dec(depth), ms, *st, mid.scopes.count() as usize, handlers.to_seq()[j as int].body, rr));
                        }
                        rr
                    },
                    None => {
                        proof {
                            assert(*st == mid);
                            assert forall|jj: int| 0 <= jj < handlers.to_seq().len() implies !#[trigger] crate::runtime::catches(
                                texts_view(handlers.to_seq()[jj].types.to_seq()),
                                exc_type_of(x),
                            ) by {
                                assert(crate::call::names(types@[jj]@) == texts_view(handlers.to_seq()[jj].types.to_seq()));
                            }
                        }
                        Err(Fault::Raise(x))
                    },
                }
            },
            other => other,
        }
        },
        Stmt::Raise(x) => {
            let v = match eval_expr(h, st, env, x, d) {
                Ok(v) => {
                    proof {
                        assert(step(*st, Ok::<PVal, Fault>(v)));
                    }
                    v
                },
                Err(f) => {
                    proof {
                        assert(step(*st, Err::<PVal, Fault>(f)));
                    }
                    return Err(f);
                },
            };
            Err(Fault::Raise(v))
        },
        Stmt::Import(segs) => {
            let parts = names_of(segs);
            let name = join_strs(".", &parts);
            let module = load_module(h, st, name.as_str(), &parts, d)?;
            if parts.len() > 0 {
                st.scopes.assign(env, parts[parts.len() - 1].as_str(), module);
            } else {
                st.scopes.assign(env, "", module);
            }
            Ok(Status::Normal)
        },
        Stmt::FromImport(segs, names) => {
            let parts = names_of(segs);
            let name = join_strs(".", &parts);
            let module = load_module(h, st, name.as_str(), &parts, d)?;
            match module {
                PVal::Module(_, me) => {
                    if me < st.scopes.len() {
                        let ns = names_of(names);
                        let mut k: usize = 0;
                        while k < ns.len()
                            invariant
                                st.wf(),
                                env < st.scopes.count(),
                                me < st.scopes.count(),
                                old(st).scopes.count() <= st.scopes.count(),
                            decreases ns@.len() - k,
                        {
                            let v = lookup(st, me, ns[k].as_str())?;
                            st.scopes.assign(env, ns[k].as_str(), v);
                            k = k + 1;
                        }
                    }
                },
                _ => {},
            }
            Ok(Status::Normal)
        },
        Stmt::Return(x) => match x {
            Some(x) => {
                let v = match eval_expr(h, st, env, x, d) {
                    Ok(v) => {
                        proof {
                            assert(step(*st, Ok::<PVal, Fault>(v)));
                        }
                        v
                    },
                    Err(f) => {
                        proof {
                            assert(step(*st, Err::<PVal, Fault>(f)));
                        }
                        return Err(f);
                    },
                };
                Ok(Status::Return(v))
            },
            None => Ok(Status::Return(PVal::NoneVal)),
        },
        Stmt::Break => Ok(Status::Break),
        Stmt::Continue => Ok(Status::Next),
        Stmt::Pass => Ok(Status::Normal),
    }
}

/// A copy of a list of bindings.
fn copy_pairs(v: &Vec<(String, PVal)>) -> (r: Vec<(String, PVal)>)
    ensures
        r@.len() == v@.len(),
        forall|k: int| 0 <= k < v@.len() ==> (#[trigger] r@[k]).0@ == v@[k].0@ && r@[k].1 == v@[k].1,
{
    let mut out: Vec<(String, PVal)> = Vec::new();
    let mut k: usize = 0;
    while k < v.len()
        invariant
            k <= v@.len(),
            out@.len() == k,
            forall|j: int| 0 <= j < k ==> (#[trigger] out@[j]).0@ == v@[j].0@ && out@[j].1 == v@[j].1,
        decreases v@.len() - k,
    {
        out.push((v[k].0.clone(), v[k].1.duplicate()));
        k = k + 1;
    }
    out
}

/// `while c: body`. After each run of the body the loop goes on, ends, or
/// returns as `after_body` says. A loop runs at most `u64::MAX` times.
fn run_while<H: Host>(
    h: &mut H,
    st: &mut Store,
    env: usize,
    c: &Expr,
    body: &Items<Stmt>,
    depth: u64,
) -> (r: Result<Status<PVal>, Fault>)
    requires
        old(st).wf(),
        env < old(st).scopes.count(),
    ensures
        final(st).wf(),
        old(st).scopes.count() <= final(st).scopes.count(),
        !(r matches Ok(st) && (st is Break || st is Next)),
        depth == 0 ==> (r matches Err(Fault::Panic(_))) && *final(st) == *old(st),
        depth > 0 ==> while_run(depth, u64::MAX as nat, *old(st), *final(st), env, *c, *body, r),
    decreases depth,
{
    if depth == 0 {
        return Err(too_deep());
    }
    let mut spins: u64 = u64::MAX;
    loop
        invariant
            st.wf(),
            env < st.scopes.count(),
            old(st).scopes.count() <= st.scopes.count(),
            depth > 0,
            forall|post: Store, r: Result<Status<PVal>, Fault>|
                #![trigger while_run(depth, spins as nat, *st, post, env, *c, *body, r)]
                while_run(depth, spins as nat, *st, post, env, *c, *body, r) ==> while_run(
                    depth,
                    u64::MAX as nat,
                    *old(st),
                    post,
                    env,
                    *c,
                    *body,
                    r,
                ),
        decreases spins,
    {
        let ghost s_it = *st;
        let cv = match eval_expr(h, st, env, c, depth - 1) {
            Ok(v) => {
                proof {
                    assert(step(*st, Ok::<PVal, Fault>(v)));
                }
                v
            },
            Err(f) => {
                proof {
                    assert(step(*st, Err::<PVal, Fault>(f)));
                    assert(while_run(depth, spins as nat, s_it, *st, env, *c, *body, Err::<Status<PVal>, Fault>(f)));
                }
                return Err(f);
            },
        };
        let ghost s_mid = *st;
        if !truthy(st, &cv) {
            proof {
                assert(while_run(depth, spins as nat, s_it, *st, env, *c, *body, Ok::<Status<PVal>, Fault>(Status::Normal)));
            }
            return Ok(Status::Normal);
        }
        let rb = exec_block(h, st, env, body, depth - 1);
        proof {
            assert(stepb(*st, rb));
        }
        let status = match rb {
            Ok(s) => s,
            Err(f) => {
                proof {
                    assert(while_run(depth, spins as nat, s_it, *st, env, *c, *body, Err::<Status<PVal>, Fault>(f)));
                }
                return Err(f);
            },
        };
        match after_body(status) {
            Some(done) => {
                proof {
                    assert(while_run(depth, spins as nat, s_it, *st, env, *c, *body, Ok::<Status<PVal>, Fault>(done)));
                }
                return Ok(done);
            },
            None => {},
        }
        if spins == 0 {
            let f = Fault::Panic(String::from_str("loop ran too long"));
            proof {
                assert(while_run(depth, spins as nat, s_it, *st, env, *c, *body, Err::<Status<PVal>, Fault>(f)));
            }
            return Err(f);
        }
        let ghost sp = spins;
        spins = spins - 1;
        proof {
            assert forall|post: Store, r: Result<Status<PVal>, Fault>|
                #![trigger while_run(depth, spins as nat, *st, post, env, *c, *body, r)]
                while_run(depth, spins as nat, *st, post, env, *c, *body, r) implies while_run(
                    depth,
                    u64::MAX as nat,
                    *old(st),
                    post,
                    env,
                    *c,
                    *body,
                    r,
                ) by {
                assert(step(s_mid, Ok::<PVal, Fault>(cv)));
                assert(stepb(*st, rb));
                assert(while_run(depth, sp as nat, s_it, post, env, *c, *body, r));
            }
        }
    }
}

/// `for target in it: body` (see `for_sem`).
#[verifier::loop_isolation(false)]
fn run_for<H: Host>(h: &mut H, st: &mut Store, env: usize, target: &Expr, it: &Expr, body: &Items<Stmt>, depth: u64) -> (r:
    Result<Status<PVal>, Fault>)
    requires
        old(st).wf(),
        env < old(st).scopes.count(),
    ensures
        final(st).wf(),
        old(st).scopes.count() <= final(st).scopes.count(),
        depth == 0 ==> (r matches Err(Fault::Panic(_))) && *final(st) == *old(st),
        depth > 0 ==> for_sem(depth, *old(st), *final(st), env, *target, *it, *body, r),
    decreases depth,
{
    if depth == 0 {
        return Err(too_deep());
    }
    let iv = match eval_expr(h, st, env, it, depth - 1) {
        Ok(v) => {
            proof {
                assert(step(*st, Ok::<PVal, Fault>(v)));
            }
            v
        },
        Err(f) => {
            proof {
                assert(step(*st, Err::<PVal, Fault>(f)));
            }
            return Err(f);
        },
    };
    let ghost s0 = *st;
    let items = match iter_items(st, &iv) {
        Some(v) => v,
        None => {
            return Err(raise("TypeError", "object is not iterable"));
        },
    };
    proof {
        assert(iter_view(s0, iv, items@));
        assert(step_items(items@));
        assert(items@.skip(0) =~= items@);
    }
    let mut k: usize = 0;
    while k < items.len()
        invariant
            st.wf(),
            env < st.scopes.count(),
            old(st).scopes.count() <= st.scopes.count(),
            depth > 0,
            k <= items@.len(),
            expr_sem(dec(depth), *old(st), s0, env, *it, Ok::<PVal, Fault>(iv)),
            step(s0, Ok::<PVal, Fault>(iv)),
            step_items(items@),
            iter_view(s0, iv, items@),
            (iv is List && iv->List_0 < s0.lists@.len()) || (iv is Tuple && iv->Tuple_0 < s0.tuples@.len()) || iv is Str,
            forall|post: Store, r: Result<Status<PVal>, Fault>|
                #![trigger for_items(depth, *st, post, env, *target, items@.skip(k as int), *body, r)]
                for_items(depth, *st, post, env, *target, items@.skip(k as int), *body, r) ==> for_items(
                    depth,
                    s0,
                    post,
                    env,
                    *target,
                    items@,
                    *body,
                    r,
                ),
        decreases items@.len() - k,
    {
        let ghost s_it = *st;
        let ghost item = items@[k as int];
        let ra = assign_target(h, st, env, target, items[k].duplicate(), depth - 1);
        proof {
            assert(step_assign(*st, ra));
            assert(items@.skip(k as int)[0] == item);
        }
        let ghost s_as = *st;
        match ra {
            Ok(()) => {},
            Err(f) => {
                proof {
                    assert(for_items(depth, s_it, *st, env, *target, items@.skip(k as int), *body, Err::<Status<PVal>, Fault>(f)));
                }
                return Err(f);
            },
        }
        let rb = exec_block(h, st, env, body, depth - 1);
        proof {
            assert(stepb(*st, rb));
        }
        let status = match rb {
            Ok(s) => s,
            Err(f) => {
                proof {
                    assert(for_items(depth, s_it, *st, env, *target, items@.skip(k as int), *body, Err::<Status<PVal>, Fault>(f)));
                }
                return Err(f);
            },
        };
        match after_body(status) {
            Some(done) => {
                proof {
                    assert(for_items(depth, s_it, *st, env, *target, items@.skip(k as int), *body, Ok::<Status<PVal>, Fault>(done)));
                }
                return Ok(done);
            },
            None => {},
        }
        let ghost kk = k;
        k = k + 1;
        proof {
            assert(items@.skip(kk as int).drop_first() =~= items@.skip(k as int));
            assert forall|post: Store, r: Result<Status<PVal>, Fault>|
                #![trigger for_items(depth, *st, post, env, *target, items@.skip(k as int), *body, r)]
                for_items(depth, *st, post, env, *target, items@.skip(k as int), *body, r) implies for_items(
                    depth,
                    s0,
                    post,
                    env,
                    *target,
                    items@,
                    *body,
                    r,
                ) by {
                assert(step_assign(s_as, ra));
                assert(stepb(*st, rb));
                assert(for_items(depth, s_it, post, env, *target, items@.skip(kk as int), *body, r));
            }
        }
    }
    proof {
        assert(items@.skip(k as int).len() == 0);
        assert(for_items(depth, *st, *st, env, *target, items@.skip(k as int), *body, Ok::<Status<PVal>, Fault>(Status::Normal)));
    }
    Ok(Status::Normal)
}

/// Runs the statements of a block in order, stopping at the first that does
/// not end normally (`block_goes_on`).
#[verifier::loop_isolation(false)]
pub fn exec_block<H: Host>(h: &mut H, st: &mut Store, env: usize, stmts: &Items<Stmt>, depth: u64) -> (r: Result<Status<PVal>, Fault>)
    requires
        old(st).wf(),
        env < old(st).scopes.count(),
    ensures
        final(st).wf(),
        old(st).scopes.count() <= final(st).scopes.count(),
        block_sem(depth, *old(st), *final(st), env, *stmts, r),
    decreases depth,
{
    if depth == 0 {
        return Err(too_deep());
    }
    match stmts {
        Items::Nil => Ok(Status::Normal),
        Items::Cons(s, t) => {
            let status = exec_stmt(h, st, env, s, depth - 1);
            match status {
                Ok(Status::Normal) => {
                    proof {
                        assert(stepb(*st, Ok::<Status<PVal>, Fault>(Status::Normal)));
                    }
                    exec_block(h, st, env, t, depth - 1)
                },
                other => other,
            }
        },
    }
}

/// Calls `f` with positional arguments `args` and keyword arguments `kw`: a
/// built-in, a method of a list, dictionary, string or file, a class (which
/// makes an object and runs its `__init__` on it), a bound method (the
/// receiver first), or a function, whose parameters bind as `bind_args` says.
pub fn call_func<H: Host>(h: &mut H, st: &mut Store, f: PVal, args: Vec<PVal>, kw: Vec<(String, PVal)>, depth: u64) -> (r: Result<PVal, Fault>)
    requires
        old(st).wf(),
    ensures
        final(st).wf(),
        old(st).scopes.count() <= final(st).scopes.count(),
        call_outline(depth, *old(st), *final(st), f, args@, kw@, r),
        (depth > 0 && !(f is Builtin || f is Method || f is Class || f is BoundMethod || f is Function)) ==> (r matches Err(
            Fault::Raise(PVal::Exception(t, _)),
        ) && t@ == "TypeError"@),
    decreases depth,
{
    if depth == 0 {
        return Err(too_deep());
    }
    let d = depth - 1;
    match f {
        PVal::Builtin(name) => call_builtin(h, st, name.as_str(), args, d),
        PVal::Method(obj, name) => call_method(h, st, &obj, name.as_str(), args, d),
        PVal::Class(c) => {
            let inst = new_object(st, c);
            match class_method(st, c, "__init__") {
                Some(init) => {
                    call_func(h, st, init, with_receiver(inst.duplicate(), args), kw, d)?;
                },
                None => {},
            }
            Ok(inst)
        },
        PVal::BoundMethod(recv, func) => call_func(h, st, *func, with_receiver(*recv, args), kw, d),
        PVal::Function(fi) => call_user(h, st, fi, args, kw, d),
        _ => Err(raise("TypeError", "object is not callable")),
    }
}

/// Calls the function `fi` made by `def` or `lambda`: its parameters bind in
/// a new scope nested in the one it was made in, then its body runs.
#[verifier::loop_isolation(false)]
fn call_user<H: Host>(h: &mut H, st: &mut Store, fi: usize, args: Vec<PVal>, kw: Vec<(String, PVal)>, depth: u64) -> (r: Result<PVal, Fault>)
    requires
        old(st).wf(),
    ensures
        final(st).wf(),
        old(st).scopes.count() <= final(st).scopes.count(),
        user_call(depth, *old(st), *final(st), fi, args@, kw@, r),
    decreases depth,
{
    if depth == 0 {
        return Err(too_deep());
    }
    let d = depth - 1;
    if fi >= st.funcs.len() {
        return Err(raise("TypeError", "object is not callable"));
    }
    let kw_names = keys_of(&kw);
    let default_names = keys_of(&st.funcs[fi].defaults);
    let binding = match bind_args(
        st.funcs[fi].name.as_str(),
        &st.funcs[fi].params,
        &default_names,
        &st.funcs[fi].vararg,
        &st.funcs[fi].kwarg,
        args.len(),
        &kw_names,
    ) {
        Ok(b) => b,
        Err(e) => {
            return Err(Fault::Raise(from_error(e)));
        },
    };
    let closure = st.funcs[fi].closure;
    if closure >= st.scopes.len() {
        return Err(raise("TypeError", "object is not callable"));
    }
    let defaults = copy_pairs(&st.funcs[fi].defaults);
    let body = crate::ast::dup_stmts(&st.funcs[fi].body);
    let local = st.scopes.push(Some(closure));
    let ghost a = crate::call::assigns_view(binding.assigns@);
    let ghost fdefaults = old(st).funcs@[fi as int].defaults@;
    let mut k: usize = 0;
    while k < binding.assigns.len()
        invariant
            a == crate::call::assigns_view(binding.assigns@),
            k <= binding.assigns@.len(),
            fi < old(st).funcs@.len(),
            fdefaults == old(st).funcs@[fi as int].defaults@,
            defaults@.len() == fdefaults.len(),
            forall|i: int| 0 <= i < fdefaults.len() ==> (#[trigger] defaults@[i]).0@ == fdefaults[i].0@ && defaults@[i].1
                == fdefaults[i].1,
            local == old(st).scopes.count(),
            st.scopes.count() == old(st).scopes.count() + 1,
            st.scopes.parent_of(local as int) == Some(closure),
            forall|i: int|
                #![trigger a[i]]
                0 <= i < k && (forall|j: int| i < j < k ==> a[j].0 != a[i].0) ==> st.scopes.vars_of(local as int).dom().contains(
                    a[i].0,
                ) && bound_value(a[i].1, args@, kw@, fdefaults, a[i].0, st.scopes.vars_of(local as int)[a[i].0]),
            forall|n: Seq<char>| st.scopes.vars_of(local as int).dom().contains(n) ==> exists|i: int| 0 <= i < k && #[trigger] a[i].0 == n,
            st.wf(),
            local < st.scopes.count(),
            old(st).scopes.count() <= st.scopes.count(),
            kw_names@.len() == kw@.len(),
            local == old(st).scopes.count(),
            st.scopes.count() == old(st).scopes.count() + 1,
            st.scopes.parent_of(local as int) == Some(closure),
        decreases binding.assigns@.len() - k,
    {
        let v = match &binding.assigns[k].1 {
            Source::Arg(i) => {
                if *i < args.len() {
                    args[*i].duplicate()
                } else {
                    PVal::NoneVal
                }
            },
            Source::Rest(i) => {
                let mut rest: Vec<PVal> = Vec::new();
                let mut j: usize = *i;
                while j < args.len()
                    invariant
                        j <= args@.len() || j == *i,
                    decreases args@.len() - j,
                {
                    rest.push(args[j].duplicate());
                    j = j + 1;
                }
                new_tuple(st, rest)
            },
            Source::Kw(j) => {
                if *j < kw.len() {
                    kw[*j].1.duplicate()
                } else {
                    PVal::NoneVal
                }
            },
            Source::KwRest => {
                let mut t: VarTable<PVal> = VarTable::new();
                let mut j: usize = 0;
                while j < binding.leftover.len()
                    invariant
                        t.wf(),
                        kw_names@.len() == kw@.len(),
                    decreases binding.leftover@.len() - j,
                {
                    let ix = binding.leftover[j];
                    if ix < kw.len() {
                        t.set(kw_names[ix].as_str(), kw[ix].1.duplicate());
                    }
                    j = j + 1;
                }
                new_dict(st, t)
            },
            Source::Default => match get_pair(&defaults, binding.assigns[k].0.as_str()) {
                Some(v) => v,
                None => PVal::NoneVal,
            },
        };
        proof {
            assert(a[k as int].0 == binding.assigns@[k as int].0@ && a[k as int].1 == binding.assigns@[k as int].1);
            if a[k as int].1 is Default {
                lemma_first_pair_same(defaults@, fdefaults, a[k as int].0);
            }
            assert(bound_value(a[k as int].1, args@, kw@, fdefaults, a[k as int].0, v));
        }
        let ghost vars0 = st.scopes.vars_of(local as int);
        st.scopes.set(local, binding.assigns[k].0.as_str(), v);
        proof {
            assert forall|i: int|
                #![trigger a[i]]
                0 <= i < k + 1 && (forall|j: int| i < j < k + 1 ==> a[j].0 != a[i].0) implies st.scopes.vars_of(
                    local as int,
                ).dom().contains(a[i].0) && bound_value(a[i].1, args@, kw@, fdefaults, a[i].0, st.scopes.vars_of(local as int)[a[i].0]) by {
                if i < k {
                    assert(a[k as int].0 != a[i].0);
                }
            }
            assert forall|n: Seq<char>| st.scopes.vars_of(local as int).dom().contains(n) implies exists|i: int|
                0 <= i < k + 1 && #[trigger] a[i].0 == n by {
                if n != a[k as int].0 {
                    assert(vars0.dom().contains(n));
                }
            }
        }
        k = k + 1;
    }
    proof {
        assert(k as int == a.len());
        let vars = st.scopes.vars_of(local as int);
        assert forall|i: int|
            #![trigger a[i]]
            0 <= i < a.len() && (forall|j: int| i < j < a.len() ==> a[j].0 != a[i].0) implies vars.dom().contains(a[i].0)
                && bound_value(a[i].1, args@, kw@, fdefaults, a[i].0, vars[a[i].0]) by {
            assert(0 <= i < k);
        }
        assert forall|n: Seq<char>| vars.dom().contains(n) implies exists|i: int| 0 <= i < a.len() && #[trigger] a[i].0 == n by {
            let i = choose|i: int| 0 <= i < k && #[trigger] a[i].0 == n;
        }
        assert(binds_assigns(vars, a, args@, kw@, fdefaults));
    }
    let ghost mid = *st;
    let rb = exec_block(h, st, local, &body, d);
    proof {
        assert(stepb(mid, rb));
    }
    match rb {
        Ok(Status::Return(v)) => Ok(v),
        Ok(_) => Ok(PVal::NoneVal),
        Err(f) => Err(f),
    }
}

/// Calls method `name` of a list, a dictionary, a string or a file.
#[verifier::loop_isolation(false)]
pub fn call_method<H: Host>(h: &mut H, st: &mut Store, obj: &PVal, name: &str, args: Vec<PVal>, depth: u64) -> (r: Result<PVal, Fault>)
    requires
        old(st).wf(),
    ensures
        final(st).wf(),
        old(st).scopes.count() <= final(st).scopes.count(),
        method_outline(depth, *old(st), *final(st), *obj, name@, args@, r),
    decreases depth,
{
    if depth == 0 {
        return Err(too_deep());
    }
    let d = depth - 1;
    proof {
        reveal_strlit("append");
    }
    match obj {
        PVal::List(l) => {
            let l = *l;
            if l < st.lists.len() && str_eq(name, "append") {
                if args.len() == 0 {
                    return Err(Fault::Panic(String::from_str("index out of bounds: the len is 0 but the index is 0")));
                }
                let mut items: Vec<PVal> = Vec::new();
                st.lists.set_and_swap(l, &mut items);
                items.push(args[0].duplicate());
                st.lists.set_and_swap(l, &mut items);
                proof {
                    assert(lists_of(st) =~= lists_of(old(st)).update(l as int, lists_of(old(st))[l as int].push(args@[0])));
                }
                return Ok(PVal::NoneVal);
            }
            if l < st.lists.len() && str_eq(name, "pop") {
                let mut items: Vec<PVal> = Vec::new();
                st.lists.set_and_swap(l, &mut items);
                let ghost before = items@;
                let last = items.pop();
                st.lists.set_and_swap(l, &mut items);
                proof {
                    if before.len() == 0 {
                        assert(lists_of(st) =~= lists_of(old(st)));
                    } else {
                        assert(lists_of(st) =~= lists_of(old(st)).update(l as int, before.drop_last()));
                    }
                }
                return Ok(
                    match last {
                        Some(v) => v,
                        None => PVal::NoneVal,
                    },
                );
            }
        },
        PVal::Dict(i) => {
            let i = *i;
            if i < st.dicts.len() && (str_eq(name, "keys") || str_eq(name, "values") || str_eq(name, "items")) {
                let src = st.dicts[i].entries();
                let ghost es = src@;
                let entries = copy_pairs(src);
                let mut out: Vec<PVal> = Vec::new();
                let mut k: usize = 0;
                while k < entries.len()
                    invariant
                        st.wf(),
                        old(st).scopes.count() <= st.scopes.count(),
                        i < old(st).dicts@.len(),
                        only_tuples(old(st), st),
                        entries@.len() == es.len(),
                        forall|j: int| 0 <= j < es.len() ==> (#[trigger] entries@[j]).0@ == es[j].0@ && entries@[j].1 == es[j].1,
                        k <= entries@.len(),
                        out@.len() == k,
                        name@ == "keys"@ || name@ == "values"@ || name@ == "items"@,
                        forall|j: int| 0 <= j < k ==> #[trigger] view_item(st, name@, es[j], out@[j]),
                    decreases entries@.len() - k,
                {
                    if str_eq(name, "keys") {
                        out.push(PVal::Str(entries[k].0.clone()));
                    } else if str_eq(name, "values") {
                        out.push(entries[k].1.duplicate());
                    } else {
                        let mut pair: Vec<PVal> = Vec::new();
                        pair.push(PVal::Str(entries[k].0.clone()));
                        pair.push(entries[k].1.duplicate());
                        let ghost before = *st;
                        let ghost pv = pair@;
                        let t = new_tuple(st, pair);
                        proof {
                            assert(tuples_of(st)[t->Tuple_0 as int] == pv);
                            assert forall|j: int| 0 <= j < k implies #[trigger] view_item(st, name@, es[j], out@[j]) by {
                                assert(view_item(&before, name@, es[j], out@[j]));
                                assert(tuples_of(st)[out@[j]->Tuple_0 as int] == tuples_of(&before)[out@[j]->Tuple_0 as int]);
                            }
                        }
                        out.push(t);
                    }
                    proof {
                        assert(view_item(st, name@, es[k as int], out@[k as int]));
                    }
                    k = k + 1;
                }
                let ghost ov = out@;
                let ghost mid = *st;
                let v = new_list(st, out);
                proof {
                    assert(dict_entries(es));
                    assert(lists_of(st).drop_last() =~= lists_of(old(st)));
                    assert(lists_of(st).last() == ov);
                    assert(crate::vars::keys_unique(es) && crate::vars::table_map(es) == old(st).dicts@[i as int]@);
                    assert forall|j: int| 0 <= j < es.len() implies #[trigger] view_item(st, name@, es[j], lists_of(st).last()[j]) by {
                        assert(view_item(&mid, name@, es[j], ov[j]));
                    }
                }
                return Ok(v);
            }
        },
        PVal::Str(text) => {
            if str_eq(name, "split") {
                let sep = if args.len() == 0 {
                    String::from_str(" ")
                } else {
                    match &args[0] {
                        PVal::Str(x) => x.clone(),
                        _ => {
                            return Err(raise("TypeError", "separator must be str"));
                        },
                    }
                };
                let parts = split_str(text.as_str(), sep.as_str());
                let mut out: Vec<PVal> = Vec::new();
                let mut k: usize = 0;
                while k < parts.len()
                    invariant
                        k <= parts@.len(),
                        out@.len() == k,
                        forall|i: int| 0 <= i < k ==> (#[trigger] out@[i] is Str) && out@[i]->Str_0@ == parts@[i]@,
                    decreases parts@.len() - k,
                {
                    out.push(PVal::Str(parts[k].clone()));
                    k = k + 1;
                }
                let ghost ov = out@;
                let v = new_list(st, out);
                proof {
                    assert(texts_of(ov) =~= crate::call::names(parts@));
                    assert(lists_of(st).drop_last() =~= lists_of(old(st)));
                }
                return Ok(v);
            }
            if str_eq(name, "join") {
                if args.len() == 0 {
                    return Err(raise("TypeError", "join() takes exactly one argument"));
                }
                match &args[0] {
                    PVal::List(l) => {
                        if *l < st.lists.len() {
                            let items = &st.lists[*l];
                            let mut strings: Vec<String> = Vec::new();
                            let mut all = true;
                            let mut k: usize = 0;
                            while k < items.len()
                                invariant
                                    k <= items@.len(),
                                    all <==> (forall|i: int| 0 <= i < k ==> #[trigger] items@[i] is Str),
                                    all ==> strings@.len() == k,
                                    all ==> forall|i: int| 0 <= i < k ==> #[trigger] strings@[i]@ == items@[i]->Str_0@,
                                decreases items@.len() - k,
                            {
                                match &items[k] {
                                    PVal::Str(x) => strings.push(x.clone()),
                                    _ => {
                                        all = false;
                                    },
                                }
                                k = k + 1;
                            }
                            if all {
                                proof {
                                    assert(crate::call::names(strings@) =~= texts_of(items@));
                                }
                                return Ok(PVal::Str(join_strs(text.as_str(), &strings)));
                            }
                        }
                    },
                    _ => {},
                }
                return Err(raise("TypeError", "join() expects list of strings"));
            }
        },
        PVal::File(fi) => {
            let fi = *fi;
            if fi < st.files.len() {
                let (handle, open) = st.files[fi];
                if str_eq(name, "read") {
                    if !open {
                        return Err(raise("ValueError", "I/O operation on closed file."));
                    }
                    return match h.read(handle) {
                        Ok(t) => Ok(PVal::Str(t)),
                        Err(m) => Err(Fault::Raise(exc_string("IOError", m))),
                    };
                }
                if str_eq(name, "write") {
                    if !open {
                        return Err(raise("ValueError", "I/O operation on closed file."));
                    }
                    if args.len() == 0 {
                        return Err(raise("TypeError", "write() takes exactly one argument"));
                    }
                    let t = py_to_string(h, st, &args[0], d)?;
                    return match h.write(handle, t.as_str()) {
                        Ok(()) => Ok(PVal::Int(t.as_str().len() as i64)),
                        Err(m) => Err(Fault::Raise(exc_string("IOError", m))),
                    };
                }
                if str_eq(name, "close") {
                    if open {
                        h.close(handle);
                    }
                    st.files.set(fi, (handle, false));
                    return Ok(PVal::NoneVal);
                }
            }
        },
        _ => {},
    }
    let mut m = String::from_str("unknown method '");
    m.append(name);
    m.append("'");
    Err(Fault::Raise(exc_string("AttributeError", m)))
}

/// The argument at position `k`, where there is one.
fn arg(args: &Vec<PVal>, k: usize) -> (r: Option<PVal>)
    ensures
        k < args@.len() ==> r == Some(args@[k as int]),
        k >= args@.len() ==> r is None,
{
    if k < args.len() {
        Some(args[k].duplicate())
    } else {
        None
    }
}

/// Calls the built-in function `name`.
#[verifier::loop_isolation(false)]
pub fn call_builtin<H: Host>(h: &mut H, st: &mut Store, name: &str, args: Vec<PVal>, depth: u64) -> (r: Result<PVal, Fault>)
    requires
        old(st).wf(),
    ensures
        final(st).wf(),
        old(st).scopes.count() <= final(st).scopes.count(),
        builtin_outline(depth, *old(st), *final(st), name@, args@, r),
    decreases depth,
{
    if depth == 0 {
        return Err(too_deep());
    }
    let d = depth - 1;
    let n = args.len();
    if str_eq(name, "print") {
        let mut line = String::from_str("");
        let mut k: usize = 0;
        while k < n
            invariant
                st.wf(),
                old(st).scopes.count() <= st.scopes.count(),
                n == args@.len(),
                d < depth,
            decreases n - k,
        {
            if k > 0 {
                line.append(" ");
            }
            let t = py_to_string(h, st, &args[k], d)?;
            line.append(t.as_str());
            k = k + 1;
        }
        h.print(line);
        return Ok(PVal::NoneVal);
    }
    if str_eq(name, "str") {
        if n != 1 {
            return Err(raise("TypeError", "str() takes exactly one argument"));
        }
        let t = py_to_string(h, st, &args[0], d)?;
        return Ok(PVal::Str(t));
    }
    if str_eq(name, "len") {
        if n == 0 {
            return Err(raise("TypeError", "len() takes exactly one argument (0 given)"));
        }
        return match &args[0] {
            PVal::Str(x) => Ok(PVal::Int(x.as_str().len() as i64)),
            PVal::List(l) => {
                if *l < st.lists.len() {
                    Ok(PVal::Int(st.lists[*l].len() as i64))
                } else {
                    Err(raise("TypeError", "object has no len()"))
                }
            },
            PVal::Tuple(t) => {
                if *t < st.tuples.len() {
                    Ok(PVal::Int(st.tuples[*t].len() as i64))
                } else {
                    Err(raise("TypeError", "object has no len()"))
                }
            },
            PVal::Dict(i) => {
                if *i < st.dicts.len() {
                    Ok(PVal::Int(st.dicts[*i].entries().len() as i64))
                } else {
                    Err(raise("TypeError", "object has no len()"))
                }
            },
            _ => Err(raise("TypeError", "object has no len()")),
        };
    }
    if str_eq(name, "range") {
        if n == 0 {
            return Err(raise("TypeError", "range expected 1 argument, got 0"));
        }
        return match &args[0] {
            PVal::Int(end) => {
                let vs = range_values(*end);
                let mut items: Vec<PVal> = Vec::new();
                let mut k: usize = 0;
                while k < vs.len()
                    invariant
                        k <= vs@.len(),
                        items@.len() == k,
                        forall|i: int| 0 <= i < k ==> #[trigger] items@[i] == PVal::Int(vs@[i]),
                    decreases vs@.len() - k,
                {
                    items.push(PVal::Int(vs[k]));
                    k = k + 1;
                }
                proof {
                    assert(items@ =~= range_seq(*end));
                }
                Ok(new_list(st, items))
            },
            _ => Err(raise("TypeError", "range() integer argument expected")),
        };
    }
    if str_eq(name, "open") {
        if n == 0 {
            return Err(raise("TypeError", "open() expected at least 1 argument"));
        }
        let path = match &args[0] {
            PVal::Str(x) => x.clone(),
            _ => {
                return Err(raise("TypeError", "expected string as path"));
            },
        };
        let mode = if n > 1 {
            match &args[1] {
                PVal::Str(x) => x.clone(),
                _ => {
                    return Err(raise("TypeError", "expected string as mode"));
                },
            }
        } else {
            String::from_str("r")
        };
        if !(str_eq(mode.as_str(), "r") || str_eq(mode.as_str(), "w") || str_eq(mode.as_str(), "a")) {
            return Err(raise("ValueError", "invalid mode"));
        }
        return match h.open(path.as_str(), mode.as_str()) {
            Ok(handle) => {
                let i = st.files.len();
                st.files.push((handle, true));
                Ok(PVal::File(i))
            },
            Err(m) => Err(Fault::Raise(exc_string("IOError", m))),
        };
    }
    if str_eq(name, "type") {
        if n != 1 {
            return Err(raise("TypeError", "type() takes 1 argument"));
        }
        return Ok(PVal::Str(type_text(h, st, &args[0])));
    }
    if str_eq(name, "isinstance") {
        if n != 2 {
            return Err(raise("TypeError", "isinstance expected 2 arguments"));
        }
        return match (&args[0], &args[1]) {
            (PVal::Instance(o), PVal::Class(c)) => {
                if *o < st.objects.len() {
                    let target = class_name(st, *c);
                    Ok(PVal::Bool(is_subclass(st, st.objects[*o].class, target.as_str())))
                } else {
                    Ok(PVal::Bool(false))
                }
            },
            (_, PVal::Class(_)) => Ok(PVal::Bool(false)),
            _ => Err(raise("TypeError", "isinstance() arg 2 must be a type")),
        };
    }
    if is_exception_name(name) {
        let a = match arg(&args, 0) {
            Some(v) => v,
            None => PVal::NoneVal,
        };
        return Ok(PVal::Exception(String::from_str(name), Box::new(a)));
    }
    if str_eq(name, "sqrt") {
        if n == 0 {
            return Err(raise("TypeError", "sqrt() takes exactly 1 argument"));
        }
        let x = as_num(&args[0])?;
        return Ok(PVal::Float(h.float_sqrt(x)));
    }
    if str_eq(name, "time") {
        return Ok(PVal::Float(h.now()));
    }
    if str_eq(name, "sleep") {
        if n == 0 {
            return Err(raise("TypeError", "sleep() takes exactly 1 argument"));
        }
        let x = as_num(&args[0])?;
        h.sleep(x);
        return Ok(PVal::NoneVal);
    }
    if str_eq(name, "getenv") {
        if n == 0 {
            return Err(raise("TypeError", "getenv() takes at least 1 argument"));
        }
        let key = match &args[0] {
            PVal::Str(x) => x.clone(),
            _ => {
                return Err(raise("TypeError", "key must be string"));
            },
        };
        return match h.getenv(key.as_str()) {
            Some(v) => Ok(PVal::Str(v)),
            None => Ok(
                match arg(&args, 1) {
                    Some(v) => v,
                    None => PVal::NoneVal,
                },
            ),
        };
    }
    if str_eq(name, "system") {
        if n == 0 {
            return Err(raise("TypeError", "system() takes exactly 1 argument"));
        }
        let cmd = match &args[0] {
            PVal::Str(x) => x.clone(),
            _ => {
                return Err(raise("TypeError", "command must be string"));
            },
        };
        return match h.system(cmd.as_str()) {
            Ok(code) => Ok(PVal::Int(code)),
            Err(m) => Err(Fault::Raise(exc_string("OSError", m))),
        };
    }
    if str_eq(name, "exit") {
        let code = if n == 0 {
            Num::Int(0)
        } else {
            as_num(&args[0])?
        };
        h.exit(code);
        return Ok(PVal::NoneVal);
    }
    if str_eq(name, "loads") {
        if n == 0 {
            return Err(raise("TypeError", "loads() takes exactly 1 argument"));
        }
        let text = match &args[0] {
            PVal::Str(x) => x.clone(),
            _ => {
                return Err(raise("TypeError", "expected string"));
            },
        };
        let mut ts = match scan(text.as_str()) {
            Ok(ts) => ts,
            Err(Ok(m)) => {
                return Err(Fault::Raise(exc_string("ValueError", m)));
            },
            Err(Err(f)) => {
                return Err(f);
            },
        };
        json_literals(&mut ts);
        let x = match parse_code(&ts, "<json>") {
            Ok(x) => x,
            Err(m) => {
                let mut msg = String::from_str("Invalid JSON: ");
                msg.append(m.as_str());
                return Err(Fault::Raise(exc_string("ValueError", msg)));
            },
        };
        let scope = st.scopes.push(None);
        return eval_expr(h, st, scope, &x, d);
    }
    if str_eq(name, "dumps") {
        if n == 0 {
            return Err(raise("TypeError", "dumps() takes exactly 1 argument"));
        }
        let v = to_value(h, st, &args[0], DEPTH);
        return match json_dumps(&v) {
            Ok(t) => Ok(PVal::Str(t)),
            Err(e) => Err(Fault::Raise(from_error(e))),
        };
    }
    Err(raise("TypeError", "object is not callable"))
}

/// The module `name` (its path `segs`): one loaded before, one built into
/// the interpreter, or the first source file found for it in the search
/// directories (`search_dirs`, `module_file_paths`), run in a scope of its
/// own.
#[verifier::loop_isolation(false)]
pub fn load_module<H: Host>(h: &mut H, st: &mut Store, name: &str, segs: &Vec<String>, depth: u64) -> (r: Result<PVal, Fault>)
    requires
        old(st).wf(),
    ensures
        final(st).wf(),
        old(st).scopes.count() <= final(st).scopes.count(),
        depth == 0 ==> (r matches Err(Fault::Panic(_))) && *final(st) == *old(st),
        (depth > 0 && old(st).modules@.contains_key(name@)) ==> r == Ok::<PVal, Fault>(old(st).modules@[name@])
            && *final(st) == *old(st),
        (depth > 0 && !old(st).modules@.contains_key(name@) && native_name(name@)) ==> (r matches Ok(
            PVal::Module(n, _),
        ) && n@ == name@),
        r matches Ok(m) ==> final(st).modules@.contains_key(name@) && final(st).modules@[name@] == m,
    decreases depth,
{
    if depth == 0 {
        return Err(too_deep());
    }
    let d = depth - 1;
    match st.modules.get(name) {
        Some(m) => {
            return Ok(m.duplicate());
        },
        None => {},
    }
    if is_native(name) {
        let m = native_module(h, st, name);
        st.modules.set(name, m.duplicate());
        return Ok(m);
    }
    let mut sys_path: Option<Vec<Option<String>>> = None;
    match st.modules.get("sys") {
        Some(PVal::Module(_, e)) => {
            if *e < st.scopes.len() {
                match st.scopes.get(*e, "path") {
                    Some(PVal::List(l)) => {
                        if *l < st.lists.len() {
                            let items = &st.lists[*l];
                            let mut out: Vec<Option<String>> = Vec::new();
                            let mut k: usize = 0;
                            while k < items.len()
                                invariant
                                    k <= items@.len(),
                                decreases items@.len() - k,
                            {
                                match &items[k] {
                                    PVal::Str(x) => out.push(Some(x.clone())),
                                    _ => out.push(None),
                                }
                                k = k + 1;
                            }
                            sys_path = Some(out);
                        }
                    },
                    _ => {},
                }
            }
        },
        _ => {},
    }
    let dirs = search_dirs(sys_path);
    let mut found: Option<(String, String)> = None;
    let mut k: usize = 0;
    while k < dirs.len()
        invariant
            k <= dirs@.len(),
        decreases dirs@.len() - k,
    {
        let (file_path, pkg_path) = module_file_paths(dirs[k].as_str(), segs);
        match h.read_source(file_path.as_str()) {
            Some(src) => {
                found = Some((src, file_path));
                break;
            },
            None => {},
        }
        match h.read_source(pkg_path.as_str()) {
            Some(src) => {
                found = Some((src, pkg_path));
                break;
            },
            None => {},
        }
        k = k + 1;
    }
    let (src, path) = match found {
        Some(f) => f,
        None => {
            return Err(Fault::Raise(exc_string("ImportError", concat3("No module named '", name, "'"))));
        },
    };
    let ts = match scan(src.as_str()) {
        Ok(ts) => ts,
        Err(Ok(m)) => {
            return Err(Fault::Raise(exc_string("SyntaxError", m)));
        },
        Err(Err(f)) => {
            return Err(f);
        },
    };
    let count = ts.len();
    if count == 0 || !ts[count - 1].kind.sym_is(crate::token::Sym::Eof) {
        return Err(raise("SyntaxError", "unexpected end of input"));
    }
    let ast = match crate::parser::parse_program(ts.as_slice(), crate::token::Dialect::Py4) {
        Ok(a) => a,
        Err(e) => {
            return Err(Fault::Raise(exc_string("SyntaxError", e.message(path.as_str()))));
        },
    };
    let mod_env = st.scopes.push(None);
    install_builtins(st, mod_env);
    exec_block(h, st, mod_env, &ast, d)?;
    let m = PVal::Module(String::from_str(name), mod_env);
    st.modules.set(name, m.duplicate());
    Ok(m)
}

/// A trigger for the stores and outcome of a run.
pub open spec fn run_step(pre: Store, post: Store, rb: Result<Status<PVal>, Fault>) -> bool {
    true
}

/// The store a script starts from: its global scope, the first, binds the
/// built-in names.
pub open spec fn run_start(pre: Store) -> bool {
    &&& pre.wf()
    &&& pre.scopes.count() >= 1
    &&& pre.scopes.parent_of(0) is None
    &&& builtin_names().subset_of(pre.scopes.vars_of(0).dom())
    &&& forall|k: Seq<char>| #[trigger] builtin_names().contains(k) ==> (pre.scopes.vars_of(0)[k] matches PVal::Builtin(s) && s@ == k)
}

/// How a run ends after its module's block gave `rb`: normally; on a fault
/// with its message; on an exception that nothing caught, with an error
/// (its printed form) or with the fault that printing it met.
pub open spec fn run_outcome(rb: Result<Status<PVal>, Fault>, r: Result<(), crate::basic::Stop>) -> bool {
    match rb {
        Ok(_) => r is Ok,
        Err(Fault::Panic(p)) => r matches Err(crate::basic::Stop::Panic(q)) && q@ == p@,
        Err(Fault::Raise(_)) => r is Err,
    }
}

/// Runs a script: its names are looked up in one global scope that holds the
/// built-in functions, with `sys` loaded. An exception that nothing catches
/// ends the run with its printed form.
pub fn run<H: Host>(h: &mut H, module: &Items<Stmt>) -> (r: Result<(), crate::basic::Stop>)
    ensures
        *module is Nil ==> r is Ok,
        exists|pre: Store, post: Store, rb: Result<Status<PVal>, Fault>|
            #![trigger run_step(pre, post, rb)]
            run_start(pre) && block_sem(DEPTH, pre, post, 0, *module, rb) && run_outcome(rb, r),
{
    let mut st = Store::new();
    let g = st.scopes.push(None);
    install_builtins(&mut st, g);
    let sys = native_module(h, &mut st, "sys");
    st.modules.set("sys", sys);
    let ghost pre = st;
    let rb = exec_block(h, &mut st, g, module, DEPTH);
    proof {
        assert(run_step(pre, st, rb));
        assert(builtin_names().subset_of(pre.scopes.vars_of(0).dom()));
    }
    match rb {
        Ok(_) => Ok(()),
        Err(Fault::Panic(p)) => Err(crate::basic::Stop::Panic(p)),
        Err(Fault::Raise(x)) => match py_to_string(h, &mut st, &x, DEPTH) {
            Ok(t) => Err(crate::basic::Stop::Error(t)),
            Err(Fault::Panic(p)) => Err(crate::basic::Stop::Panic(p)),
            Err(Fault::Raise(_)) => Err(crate::basic::Stop::Error(String::from_str(""))),
        },
    }
}

} // verus!
