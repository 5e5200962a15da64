use lib::ast::Op;
use lib::ops::{int_binop, str_compare, IntOut};
use lib::value::{as_key, display, json_dumps, py_err, py_err_val, type_of, Value};


fn ok<T>(r: Result<T, Value>) -> T {
    match r {
        Ok(v) => v,
        Err(_) => panic!("unexpected error value"),
    }
}

fn s(x: &str) -> Value {
    Value::Str(x.to_string())
}

fn exc_parts(v: &Value) -> (String, String) {
    match v {
        Value::Exception(t, a) => match &**a {
            Value::Str(m) => (t.clone(), m.clone()),
            _ => panic!("exception argument is not a string"),
        },
        _ => panic!("not an exception"),
    }
}

#[test]
fn py_err_builds_exception_with_message() {
    let r: Result<i64, Value> = py_err("TypeError", "unhashable type");
    let e = r.unwrap_err();
    assert_eq!(exc_parts(&e), ("TypeError".to_string(), "unhashable type".to_string()));
    assert_eq!(display(&e), "TypeError(unhashable type)");
    let v = py_err_val("KeyError", "k");
    assert_eq!(exc_parts(&v), ("KeyError".to_string(), "k".to_string()));
}

#[test]
fn display_scalars() {
    assert_eq!(display(&Value::NoneVal), "None");
    assert_eq!(display(&Value::Bool(true)), "True");
    assert_eq!(display(&Value::Bool(false)), "False");
    assert_eq!(display(&Value::Int(-42)), "-42");
    assert_eq!(display(&Value::Int(i64::MIN)), "-9223372036854775808");
    assert_eq!(display(&Value::Float("2.5".to_string())), "2.5");
    assert_eq!(display(&s("hi")), "hi");
}

#[test]
fn display_containers_quote_strings() {
    let l = Value::List(vec![Value::Int(1), s("a"), Value::List(vec![s("b")])]);
    assert_eq!(display(&l), "[1, 'a', ['b']]");
    assert_eq!(display(&Value::List(vec![])), "[]");
    assert_eq!(display(&Value::Tuple(vec![s("x")])), "('x',)");
    assert_eq!(display(&Value::Tuple(vec![Value::Int(1), Value::Int(2)])), "(1, 2)");
    assert_eq!(display(&Value::Tuple(vec![])), "()");
    let d = Value::Dict(vec![("a".to_string(), s("x")), ("b".to_string(), Value::Int(2))]);
    assert_eq!(display(&d), "{'a': x, 'b': 2}");
}

#[test]
fn display_objects() {
    assert_eq!(display(&Value::Class("A".to_string())), "<class 'A'>");
    assert_eq!(display(&Value::Instance(Some("A".to_string()))), "<A object>");
    assert_eq!(display(&Value::Instance(None)), "<object>");
    assert_eq!(display(&Value::Function("f".to_string())), "<function f>");
    assert_eq!(display(&Value::Builtin("len".to_string())), "<built-in function len>");
    assert_eq!(display(&Value::Method("append".to_string())), "<built-in method append>");
    assert_eq!(display(&Value::BoundMethod), "<bound method>");
    assert_eq!(display(&Value::Module("math".to_string())), "<module 'math'>");
    assert_eq!(display(&Value::File(true)), "<open file>");
    assert_eq!(display(&Value::File(false)), "<closed file>");
    let e = Value::Exception("ValueError".to_string(), Box::new(Value::Int(3)));
    assert_eq!(display(&e), "ValueError(3)");
}

#[test]
fn json_dumps_values() {
    let v = Value::Dict(vec![
        ("a".to_string(), Value::List(vec![Value::Int(1), Value::Bool(true), Value::NoneVal])),
        ("b".to_string(), s("say \"hi\"")),
        ("c".to_string(), Value::Tuple(vec![Value::Float("0.5".to_string())])),
    ]);
    assert_eq!(
        ok(json_dumps(&v)),
        "{\"a\": [1, true, null], \"b\": \"say \\\"hi\\\"\", \"c\": [0.5]}"
    );
    assert_eq!(ok(json_dumps(&Value::Bool(false))), "false");
}

#[test]
fn json_dumps_rejects_objects() {
    let v = Value::List(vec![Value::Int(1), Value::Function("f".to_string())]);
    let e = json_dumps(&v).unwrap_err();
    assert_eq!(
        exc_parts(&e),
        ("TypeError".to_string(), "Object of this type is not JSON serializable".to_string())
    );
}

#[test]
fn keys_of_values() {
    assert_eq!(ok(as_key(&s("k"))), "k");
    assert_eq!(ok(as_key(&Value::Int(-7))), "-7");
    let e = as_key(&Value::List(vec![])).unwrap_err();
    assert_eq!(exc_parts(&e), ("TypeError".to_string(), "unhashable type".to_string()));
}

#[test]
fn int_key_equals_printed_form() {
    for i in [0i64, 5, -5, i64::MAX, i64::MIN] {
        assert_eq!(ok(as_key(&Value::Int(i))), display(&Value::Int(i)));
    }
}

#[test]
fn type_names() {
    assert_eq!(type_of(&Value::Int(1)), "<class 'int'>");
    assert_eq!(type_of(&Value::Float("1.0".to_string())), "<class 'float'>");
    assert_eq!(type_of(&s("")), "<class 'str'>");
    assert_eq!(type_of(&Value::NoneVal), "<class 'NoneType'>");
    assert_eq!(type_of(&Value::Instance(Some("Dog".to_string()))), "<class 'Dog'>");
    assert_eq!(type_of(&Value::Instance(None)), "<class 'object'>");
    assert_eq!(type_of(&Value::Class("Dog".to_string())), "<class 'type'>");
    assert_eq!(type_of(&Value::BoundMethod), "<class 'function'>");
    assert_eq!(type_of(&Value::Module("m".to_string())), "<class 'object'>");
}

#[test]
fn integer_arithmetic() {
    assert_eq!(ok(int_binop(Op::Add, 2, 3)), IntOut::Int(5));
    assert_eq!(ok(int_binop(Op::Sub, 2, 3)), IntOut::Int(-1));
    assert_eq!(ok(int_binop(Op::Mul, -4, 3)), IntOut::Int(-12));
    assert_eq!(ok(int_binop(Op::Div, 7, 2)), IntOut::Ratio(7, 2));
    assert_eq!(ok(int_binop(Op::Mod, -7, 3)), IntOut::Int(-1));
    assert_eq!(ok(int_binop(Op::Mod, 7, -3)), IntOut::Int(1));
    assert_eq!(ok(int_binop(Op::Add, i64::MAX, 1)), IntOut::Overflow);
    assert_eq!(ok(int_binop(Op::Mod, i64::MIN, -1)), IntOut::Overflow);
}

#[test]
fn integer_arithmetic_errors() {
    let e = int_binop(Op::Div, 1, 0).unwrap_err();
    assert_eq!(exc_parts(&e), ("ZeroDivisionError".to_string(), "division by zero".to_string()));
    let e = int_binop(Op::Mod, 1, 0).unwrap_err();
    assert_eq!(exc_parts(&e), ("ZeroDivisionError".to_string(), "modulo by zero".to_string()));
    let e = int_binop(Op::Lt, 1, 2).unwrap_err();
    assert_eq!(exc_parts(&e), ("TypeError".to_string(), "unsupported operand".to_string()));
}

#[test]
fn string_comparison() {
    let a = "x".to_string();
    let b = "y".to_string();
    assert!(str_compare(Op::Eq, &a, &a.clone()));
    assert!(!str_compare(Op::Eq, &a, &b));
    assert!(str_compare(Op::Ne, &a, &b));
    assert!(!str_compare(Op::Lt, &a, &b));
}
