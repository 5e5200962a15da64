use vstd::prelude::*;

use crate::text::{append_chars, chars_of, push_signed_decimal, signed_decimal, string_from_chars};

verus! {

/// A runtime value as far as its printed form, its JSON form, its type name
/// and its use as a dictionary key go. A float holds the text it prints as;
/// a dictionary holds its entries in the order they are walked.
pub enum Value {
    NoneVal,
    Bool(bool),
    Int(i64),
    Float(String),
    Str(String),
    Tuple(Vec<Value>),
    List(Vec<Value>),
    Dict(Vec<(String, Value)>),
    Function(String),
    Builtin(String),
    Method(String),
    BoundMethod,
    Class(String),
    /// An instance, with the name of its class where the class is known.
    Instance(Option<String>),
    Exception(String, Box<Value>),
    Module(String),
    /// A file handle, open or closed.
    File(bool),
}

/// `v` is the exception `typ` raised with the message `msg`.
pub open spec fn is_error(v: Value, typ: Seq<char>, msg: Seq<char>) -> bool {
    match v {
        Value::Exception(t, a) => t@ == typ && match *a {
            Value::Str(m) => m@ == msg,
            _ => false,
        },
        _ => false,
    }
}

/// The exception `typ(msg)`.
pub fn py_err_val(typ: &str, msg: &str) -> (e: Value)
    ensures
        is_error(e, typ@, msg@),
{
    Value::Exception(typ.to_owned(), Box::new(Value::Str(msg.to_owned())))
}

/// Fails with the exception `typ(msg)`.
pub fn py_err<T>(typ: &str, msg: &str) -> (r: Result<T, Value>)
    ensures
        r matches Err(e) && is_error(e, typ@, msg@),
{
    Err(py_err_val(typ, msg))
}

/// The dictionary key a value stands for: a string itself, an integer its
/// decimal digits; other values are not keys.
pub open spec fn key_of(v: Value) -> Option<Seq<char>> {
    match v {
        Value::Str(s) => Some(s@),
        Value::Int(i) => Some(signed_decimal(i as int)),
        _ => None,
    }
}

/// The dictionary key of `v`, or `TypeError: unhashable type`.
pub fn as_key(v: &Value) -> (r: Result<String, Value>)
    ensures
        match key_of(*v) {
            Some(k) => r matches Ok(s) && s@ == k,
            None => r matches Err(e) && is_error(e, "TypeError"@, "unhashable type"@),
        },
{
    match v {
        Value::Str(s) => Ok(s.clone()),
        Value::Int(i) => {
            let mut out: Vec<char> = Vec::new();
            push_signed_decimal(&mut out, *i);
            assert(out@ =~= signed_decimal(*i as int));
            Ok(string_from_chars(out.as_slice()))
        },
        _ => py_err("TypeError", "unhashable type"),
    }
}

/// The name `type()` reports for a value.
pub open spec fn kind_name(v: Value) -> Seq<char> {
    match v {
        Value::Int(_) => "int"@,
        Value::Float(_) => "float"@,
        Value::Str(_) => "str"@,
        Value::Bool(_) => "bool"@,
        Value::List(_) => "list"@,
        Value::Dict(_) => "dict"@,
        Value::Tuple(_) => "tuple"@,
        Value::NoneVal => "NoneType"@,
        Value::Instance(Some(n)) => n@,
        Value::Class(_) => "type"@,
        Value::Function(_) => "function"@,
        Value::Builtin(_) => "function"@,
        Value::BoundMethod => "function"@,
        Value::Method(_) => "function"@,
        _ => "object"@,
    }
}

/// What `type(v)` evaluates to: `<class 'name'>`.
pub fn type_of(v: &Value) -> (s: String)
    ensures
        s@ == "<class '"@ + kind_name(*v) + "'>"@,
{
    let name: String = match v {
        Value::Int(_) => "int".to_owned(),
        Value::Float(_) => "float".to_owned(),
        Value::Str(_) => "str".to_owned(),
        Value::Bool(_) => "bool".to_owned(),
        Value::List(_) => "list".to_owned(),
        Value::Dict(_) => "dict".to_owned(),
        Value::Tuple(_) => "tuple".to_owned(),
        Value::NoneVal => "NoneType".to_owned(),
        Value::Instance(Some(n)) => n.clone(),
        Value::Class(_) => "type".to_owned(),
        Value::Function(_) => "function".to_owned(),
        Value::Builtin(_) => "function".to_owned(),
        Value::BoundMethod => "function".to_owned(),
        Value::Method(_) => "function".to_owned(),
        _ => "object".to_owned(),
    };
    let mut out = chars_of("<class '");
    append_chars(&mut out, chars_of(name.as_str()).as_slice());
    append_chars(&mut out, chars_of("'>").as_slice());
    string_from_chars(out.as_slice())
}

/// The printed form of a value (what `print` and `str` show for it).
pub open spec fn show(v: Value) -> Seq<char>
    decreases v, 1int,
{
    match v {
        Value::NoneVal => "None"@,
        Value::Bool(b) => if b {
            "True"@
        } else {
            "False"@
        },
        Value::Int(i) => signed_decimal(i as int),
        Value::Float(s) => s@,
        Value::Str(s) => s@,
        Value::Tuple(items) => if items@.len() == 1 {
            "("@ + repr(items@[0]) + ",)"@
        } else {
            "("@ + show_items(items@) + ")"@
        },
        Value::List(items) => "["@ + show_items(items@) + "]"@,
        Value::Dict(pairs) => "{"@ + show_pairs(pairs@) + "}"@,
        Value::Function(n) => "<function "@ + n@ + ">"@,
        Value::Builtin(n) => "<built-in function "@ + n@ + ">"@,
        Value::Method(n) => "<built-in method "@ + n@ + ">"@,
        Value::BoundMethod => "<bound method>"@,
        Value::Class(n) => "<class '"@ + n@ + "'>"@,
        Value::Instance(Some(n)) => "<"@ + n@ + " object>"@,
        Value::Instance(None) => "<object>"@,
        Value::Exception(t, a) => t@ + "("@ + show(*a) + ")"@,
        Value::Module(n) => "<module '"@ + n@ + "'>"@,
        Value::File(open) => if open {
            "<open file>"@
        } else {
            "<closed file>"@
        },
    }
}

/// How an item of a tuple or a list is shown: a string in single quotes,
/// anything else as it prints.
pub open spec fn repr(v: Value) -> Seq<char>
    decreases v, 2int,
{
    match v {
        Value::Str(s) => "'"@ + s@ + "'"@,
        _ => show(v),
    }
}

/// Items shown one after another, separated by `, `.
pub open spec fn show_items(s: Seq<Value>) -> Seq<char>
    decreases s, 0int,
{
    if s.len() == 0 {
        seq![]
    } else if s.len() == 1 {
        repr(s[0])
    } else {
        show_items(s.subrange(0, s.len() - 1)) + ", "@ + repr(s[s.len() - 1])
    }
}

/// One dictionary entry: `'key': value`.
pub open spec fn show_pair(p: (String, Value)) -> Seq<char>
    decreases p, 0int,
{
    "'"@ + p.0@ + "': "@ + show(p.1)
}

/// Dictionary entries shown one after another, separated by `, `.
pub open spec fn show_pairs(s: Seq<(String, Value)>) -> Seq<char>
    decreases s, 0int,
{
    if s.len() == 0 {
        seq![]
    } else if s.len() == 1 {
        show_pair(s[0])
    } else {
        show_pairs(s.subrange(0, s.len() - 1)) + ", "@ + show_pair(s[s.len() - 1])
    }
}

fn push_str(out: &mut Vec<char>, s: &str)
    ensures
        final(out)@ == old(out)@ + s@,
{
    append_chars(out, chars_of(s).as_slice());
}

/// Appends the printed form of `v` to `out`.
fn show_into(v: &Value, out: &mut Vec<char>)
    ensures
        final(out)@ == old(out)@ + show(*v),
    decreases v, 1int,
{
    let ghost o = out@;
    match v {
        Value::NoneVal => push_str(out, "None"),
        Value::Bool(b) => if *b {
            push_str(out, "True")
        } else {
            push_str(out, "False")
        },
        Value::Int(i) => push_signed_decimal(out, *i),
        Value::Float(s) => push_str(out, s.as_str()),
        Value::Str(s) => push_str(out, s.as_str()),
        Value::Tuple(items) => {
            if items.len() == 1 {
                push_str(out, "(");
                repr_into(&items[0], out);
                push_str(out, ",)");
                assert(out@ =~= o + show(*v));
            } else {
                push_str(out, "(");
                items_into(items, out);
                push_str(out, ")");
                assert(out@ =~= o + show(*v));
            }
        },
        Value::List(items) => {
            push_str(out, "[");
            items_into(items, out);
            push_str(out, "]");
            assert(out@ =~= o + show(*v));
        },
        Value::Dict(pairs) => {
            push_str(out, "{");
            pairs_into(pairs, out);
            push_str(out, "}");
            assert(out@ =~= o + show(*v));
        },
        Value::Function(n) => {
            push_str(out, "<function ");
            push_str(out, n.as_str());
            push_str(out, ">");
            assert(out@ =~= o + show(*v));
        },
        Value::Builtin(n) => {
            push_str(out, "<built-in function ");
            push_str(out, n.as_str());
            push_str(out, ">");
            assert(out@ =~= o + show(*v));
        },
        Value::Method(n) => {
            push_str(out, "<built-in method ");
            push_str(out, n.as_str());
            push_str(out, ">");
            assert(out@ =~= o + show(*v));
        },
        Value::BoundMethod => push_str(out, "<bound method>"),
        Value::Class(n) => {
            push_str(out, "<class '");
            push_str(out, n.as_str());
            push_str(out, "'>");
            assert(out@ =~= o + show(*v));
        },
        Value::Instance(Some(n)) => {
            push_str(out, "<");
            push_str(out, n.as_str());
            push_str(out, " object>");
            assert(out@ =~= o + show(*v));
        },
        Value::Instance(None) => push_str(out, "<object>"),
        Value::Exception(t, a) => {
            push_str(out, t.as_str());
            push_str(out, "(");
            show_into(a, out);
            push_str(out, ")");
            assert(out@ =~= o + show(*v));
        },
        Value::Module(n) => {
            push_str(out, "<module '");
            push_str(out, n.as_str());
            push_str(out, "'>");
            assert(out@ =~= o + show(*v));
        },
        Value::File(open) => if *open {
            push_str(out, "<open file>")
        } else {
            push_str(out, "<closed file>")
        },
    }
}

fn repr_into(v: &Value, out: &mut Vec<char>)
    ensures
        final(out)@ == old(out)@ + repr(*v),
    decreases v, 2int,
{
    let ghost o = out@;
    match v {
        Value::Str(s) => {
            push_str(out, "'");
            push_str(out, s.as_str());
            push_str(out, "'");
            assert(out@ =~= o + repr(*v));
        },
        _ => show_into(v, out),
    }
}

fn items_into(items: &Vec<Value>, out: &mut Vec<char>)
    ensures
        final(out)@ == old(out)@ + show_items(items@),
    decreases items@, 0int,
{
    let ghost o = out@;
    let mut i: usize = 0;
    while i < items.len()
        invariant
            i <= items@.len(),
            out@ == o + show_items(items@.subrange(0, i as int)),
        decreases items@.len() - i,
    {
        let ghost before = out@;
        if i > 0 {
            push_str(out, ", ");
        }
        repr_into(&items[i], out);
        proof {
            let s = items@.subrange(0, i + 1);
            assert(s.subrange(0, s.len() - 1) =~= items@.subrange(0, i as int));
            assert(s[s.len() - 1] == items@[i as int]);
        }
        i = i + 1;
        assert(out@ =~= o + show_items(items@.subrange(0, i as int)));
    }
    assert(items@.subrange(0, items@.len() as int) =~= items@);
}

fn pairs_into(pairs: &Vec<(String, Value)>, out: &mut Vec<char>)
    ensures
        final(out)@ == old(out)@ + show_pairs(pairs@),
    decreases pairs@, 0int,
{
    let ghost o = out@;
    let mut i: usize = 0;
    while i < pairs.len()
        invariant
            i <= pairs@.len(),
            out@ == o + show_pairs(pairs@.subrange(0, i as int)),
        decreases pairs@.len() - i,
    {
        if i > 0 {
            push_str(out, ", ");
        }
        let ghost mid = out@;
        push_str(out, "'");
        push_str(out, pairs[i].0.as_str());
        push_str(out, "': ");
        show_into(&pairs[i].1, out);
        assert(out@ =~= mid + show_pair(pairs@[i as int]));
        proof {
            let s = pairs@.subrange(0, i + 1);
            assert(s.subrange(0, s.len() - 1) =~= pairs@.subrange(0, i as int));
            assert(s[s.len() - 1] == pairs@[i as int]);
        }
        i = i + 1;
        assert(out@ =~= o + show_pairs(pairs@.subrange(0, i as int)));
    }
    assert(pairs@.subrange(0, pairs@.len() as int) =~= pairs@);
}

/// The printed form of `v`.
pub fn display(v: &Value) -> (s: String)
    ensures
        s@ == show(*v),
{
    let mut out: Vec<char> = Vec::new();
    show_into(v, &mut out);
    assert(out@ =~= show(*v));
    string_from_chars(out.as_slice())
}

/// `s` with each double quote preceded by a backslash.
pub open spec fn escape_quotes(s: Seq<char>) -> Seq<char>
    decreases s.len(),
{
    if s.len() == 0 {
        seq![]
    } else {
        escape_quotes(s.drop_last()) + if s.last() == '"' {
            seq!['\\', '"']
        } else {
            seq![s.last()]
        }
    }
}

/// The JSON text of a value; `None` where some part of it has no JSON form
/// (a function, a class, an instance, ...). Tuples become arrays; keys are
/// written as they are.
pub open spec fn dump(v: Value) -> Option<Seq<char>>
    decreases v, 1int,
{
    match v {
        Value::NoneVal => Some("null"@),
        Value::Bool(b) => Some(
            if b {
                "true"@
            } else {
                "false"@
            },
        ),
        Value::Int(i) => Some(signed_decimal(i as int)),
        Value::Float(s) => Some(s@),
        Value::Str(s) => Some(seq!['"'] + escape_quotes(s@) + seq!['"']),
        Value::List(items) => match dump_items(items@) {
            Some(x) => Some("["@ + x + "]"@),
            None => None,
        },
        Value::Tuple(items) => match dump_items(items@) {
            Some(x) => Some("["@ + x + "]"@),
            None => None,
        },
        Value::Dict(pairs) => match dump_pairs(pairs@) {
            Some(x) => Some("{"@ + x + "}"@),
            None => None,
        },
        _ => None,
    }
}

pub open spec fn dump_items(s: Seq<Value>) -> Option<Seq<char>>
    decreases s, 0int,
{
    if s.len() == 0 {
        Some(seq![])
    } else if s.len() == 1 {
        dump(s[0])
    } else {
        match (dump_items(s.subrange(0, s.len() - 1)), dump(s[s.len() - 1])) {
            (Some(a), Some(b)) => Some(a + ", "@ + b),
            _ => None,
        }
    }
}

pub open spec fn dump_pair(p: (String, Value)) -> Option<Seq<char>>
    decreases p, 0int,
{
    match dump(p.1) {
        Some(x) => Some(seq!['"'] + p.0@ + "\": "@ + x),
        None => None,
    }
}

pub open spec fn dump_pairs(s: Seq<(String, Value)>) -> Option<Seq<char>>
    decreases s, 0int,
{
    if s.len() == 0 {
        Some(seq![])
    } else if s.len() == 1 {
        dump_pair(s[0])
    } else {
        match (dump_pairs(s.subrange(0, s.len() - 1)), dump_pair(s[s.len() - 1])) {
            (Some(a), Some(b)) => Some(a + ", "@ + b),
            _ => None,
        }
    }
}

fn escape_into(s: &str, out: &mut Vec<char>)
    ensures
        final(out)@ == old(out)@ + escape_quotes(s@),
{
    let cs = chars_of(s);
    let ghost o = out@;
    let mut i: usize = 0;
    while i < cs.len()
        invariant
            i <= cs@.len(),
            cs@ == s@,
            out@ == o + escape_quotes(cs@.subrange(0, i as int)),
        decreases cs@.len() - i,
    {
        let c = cs[i];
        if c == '"' {
            out.push('\\');
            out.push('"');
        } else {
            out.push(c);
        }
        proof {
            let t = cs@.subrange(0, i + 1);
            assert(t.drop_last() =~= cs@.subrange(0, i as int));
        }
        i = i + 1;
        assert(out@ =~= o + escape_quotes(cs@.subrange(0, i as int)));
    }
    assert(cs@.subrange(0, cs@.len() as int) =~= cs@);
}

/// Appends the JSON text of `v` to `out` and answers `true`, or answers
/// `false` where `v` has none.
fn dump_into(v: &Value, out: &mut Vec<char>) -> (ok: bool)
    ensures
        ok == dump(*v) is Some,
        ok ==> final(out)@ == old(out)@ + dump(*v)->0,
    decreases v, 1int,
{
    let ghost o = out@;
    match v {
        Value::NoneVal => {
            push_str(out, "null");
            true
        },
        Value::Bool(b) => {
            if *b {
                push_str(out, "true");
            } else {
                push_str(out, "false");
            }
            true
        },
        Value::Int(i) => {
            push_signed_decimal(out, *i);
            true
        },
        Value::Float(s) => {
            push_str(out, s.as_str());
            true
        },
        Value::Str(s) => {
            out.push('"');
            escape_into(s.as_str(), out);
            out.push('"');
            assert(out@ =~= o + dump(*v)->0);
            true
        },
        Value::List(items) => {
            push_str(out, "[");
            if !dump_items_into(items, out) {
                return false;
            }
            push_str(out, "]");
            assert(out@ =~= o + dump(*v)->0);
            true
        },
        Value::Tuple(items) => {
            push_str(out, "[");
            if !dump_items_into(items, out) {
                return false;
            }
            push_str(out, "]");
            assert(out@ =~= o + dump(*v)->0);
            true
        },
        Value::Dict(pairs) => {
            push_str(out, "{");
            if !dump_pairs_into(pairs, out) {
                return false;
            }
            push_str(out, "}");
            assert(out@ =~= o + dump(*v)->0);
            true
        },
        _ => false,
    }
}

fn dump_items_into(items: &Vec<Value>, out: &mut Vec<char>) -> (ok: bool)
    ensures
        ok == dump_items(items@) is Some,
        ok ==> final(out)@ == old(out)@ + dump_items(items@)->0,
    decreases items@, 0int,
{
    let ghost o = out@;
    let mut i: usize = 0;
    while i < items.len()
        invariant
            i <= items@.len(),
            dump_items(items@.subrange(0, i as int)) is Some,
            out@ == o + dump_items(items@.subrange(0, i as int))->0,
        decreases items@.len() - i,
    {
        if i > 0 {
            push_str(out, ", ");
        }
        let ok = dump_into(&items[i], out);
        proof {
            let t = items@.subrange(0, i + 1);
            assert(t.subrange(0, t.len() - 1) =~= items@.subrange(0, i as int));
            assert(t[t.len() - 1] == items@[i as int]);
        }
        if !ok {
            proof {
                lemma_dump_items_prefix(items@, i as int + 1);
            }
            return false;
        }
        i = i + 1;
        assert(out@ =~= o + dump_items(items@.subrange(0, i as int))->0);
    }
    assert(items@.subrange(0, items@.len() as int) =~= items@);
    true
}

/// A failing prefix makes the whole list fail.
proof fn lemma_dump_items_prefix(s: Seq<Value>, k: int)
    requires
        0 < k <= s.len(),
        dump_items(s.subrange(0, k)) is None,
    ensures
        dump_items(s) is None,
    decreases s.len() - k,
{
    if k < s.len() {
        let t = s.subrange(0, k + 1);
        assert(t.subrange(0, t.len() - 1) =~= s.subrange(0, k));
        lemma_dump_items_prefix(s, k + 1);
    } else {
        assert(s.subrange(0, k) =~= s);
    }
}

/// A failing prefix makes all the entries fail.
proof fn lemma_dump_pairs_prefix(s: Seq<(String, Value)>, k: int)
    requires
        0 < k <= s.len(),
        dump_pairs(s.subrange(0, k)) is None,
    ensures
        dump_pairs(s) is None,
    decreases s.len() - k,
{
    if k < s.len() {
        let t = s.subrange(0, k + 1);
        assert(t.subrange(0, t.len() - 1) =~= s.subrange(0, k));
        lemma_dump_pairs_prefix(s, k + 1);
    } else {
        assert(s.subrange(0, k) =~= s);
    }
}

fn dump_pairs_into(pairs: &Vec<(String, Value)>, out: &mut Vec<char>) -> (ok: bool)
    ensures
        ok == dump_pairs(pairs@) is Some,
        ok ==> final(out)@ == old(out)@ + dump_pairs(pairs@)->0,
    decreases pairs@, 0int,
{
    let ghost o = out@;
    let mut i: usize = 0;
    while i < pairs.len()
        invariant
            i <= pairs@.len(),
            dump_pairs(pairs@.subrange(0, i as int)) is Some,
            out@ == o + dump_pairs(pairs@.subrange(0, i as int))->0,
        decreases pairs@.len() - i,
    {
        if i > 0 {
            push_str(out, ", ");
        }
        let ghost mid = out@;
        out.push('"');
        push_str(out, pairs[i].0.as_str());
        push_str(out, "\": ");
        let ok = dump_into(&pairs[i].1, out);
        proof {
            let t = pairs@.subrange(0, i + 1);
            assert(t.subrange(0, t.len() - 1) =~= pairs@.subrange(0, i as int));
            assert(t[t.len() - 1] == pairs@[i as int]);
        }
        if !ok {
            proof {
                lemma_dump_pairs_prefix(pairs@, i as int + 1);
            }
            return false;
        }
        assert(out@ =~= mid + dump_pair(pairs@[i as int])->0);
        i = i + 1;
        assert(out@ =~= o + dump_pairs(pairs@.subrange(0, i as int))->0);
    }
    assert(pairs@.subrange(0, pairs@.len() as int) =~= pairs@);
    true
}

/// What `json.dumps(v)` returns, or its `TypeError`.
pub fn json_dumps(v: &Value) -> (r: Result<String, Value>)
    ensures
        match dump(*v) {
            Some(t) => r matches Ok(s) && s@ == t,
            None => r matches Err(e) && is_error(
                e,
                "TypeError"@,
                "Object of this type is not JSON serializable"@,
            ),
        },
{
    let mut out: Vec<char> = Vec::new();
    if dump_into(v, &mut out) {
        assert(out@ =~= dump(*v)->0);
        Ok(string_from_chars(out.as_slice()))
    } else {
        py_err("TypeError", "Object of this type is not JSON serializable")
    }
}

/// A value that can be a dictionary key is keyed by what it prints as; so an
/// integer key names the same entry as the string of its digits.
pub proof fn lemma_key_is_printed_form(v: Value)
    ensures
        key_of(v) matches Some(k) ==> k == show(v),
        v matches Value::Int(i) ==> forall|s: String|
            s@ == signed_decimal(i as int) ==> #[trigger] key_of(Value::Str(s)) == key_of(v),
{
}

} // verus!
