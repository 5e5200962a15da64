use lib::call::{bind_args, Binding, Source};
use lib::lexer::lex_source;
use lib::parser::parse_expression;
use lib::runtime::{
    check_unpack, fstring_parts, handler_catches, join_strs, json_literals, module_file_paths,
    name_error, range_values, split_str, FPart,
};
use lib::token::{Dialect, Sym, TokenKind};
use lib::value::Value;
use lib::vars::VarTable;
use lib::scopes::Scopes;
use lib::control::{after_body, block_goes_on, first_handler, keeps_left, search_dirs, seq_index, with_receiver, Status};
use lib::ast::LogicOp;


fn ok<T>(r: Result<T, Value>) -> T {
    match r {
        Ok(v) => v,
        Err(_) => panic!("unexpected error value"),
    }
}

fn strs(xs: &[&str]) -> Vec<String> {
    xs.iter().map(|x| x.to_string()).collect()
}

fn err_msg(r: Result<Binding, Value>) -> String {
    match r {
        Err(Value::Exception(t, a)) => match *a {
            Value::Str(m) => format!("{}: {}", t, m),
            _ => panic!("exception argument is not a string"),
        },
        _ => panic!("expected an error"),
    }
}

fn plan(b: &Binding) -> Vec<String> {
    b.assigns.iter().map(|(n, s)| format!("{}<-{:?}", n, s)).collect()
}

#[test]
fn bind_positional_and_defaults() {
    let b = ok(bind_args("f", &strs(&["a", "b", "c"]), &strs(&["c"]), &None, &None, 2, &vec![]));
    assert_eq!(plan(&b), vec!["a<-Arg(0)", "b<-Arg(1)", "c<-Default"]);
    assert!(b.leftover.is_empty());
}

#[test]
fn bind_keywords_vararg_and_kwarg() {
    let b = bind_args(
        "f",
        &strs(&["a", "b"]),
        &vec![],
        &Some("rest".to_string()),
        &Some("kw".to_string()),
        4,
        &strs(&["x"]),
    );
    let b = ok(b);
    assert_eq!(plan(&b), vec!["a<-Arg(0)", "b<-Arg(1)", "rest<-Rest(2)", "kw<-KwRest"]);
    assert_eq!(b.leftover, vec![0]);
    let b2 = ok(bind_args(
        "f",
        &strs(&["a", "b"]),
        &vec![],
        &None,
        &Some("kw".to_string()),
        1,
        &strs(&["x", "b"]),
    ));
    assert_eq!(plan(&b2), vec!["a<-Arg(0)", "b<-Kw(1)", "kw<-KwRest"]);
    assert_eq!(b2.leftover, vec![0]);
}

#[test]
fn bind_errors() {
    let p = strs(&["a", "b"]);
    assert_eq!(
        err_msg(bind_args("f", &p, &vec![], &None, &None, 3, &vec![])),
        "TypeError: f() takes 2 positional arguments but 3 were given"
    );
    assert_eq!(
        err_msg(bind_args("f", &p, &vec![], &None, &None, 1, &strs(&["a"]))),
        "TypeError: f() got multiple values for argument 'a'"
    );
    assert_eq!(
        err_msg(bind_args("f", &p, &vec![], &None, &None, 2, &strs(&["z"]))),
        "TypeError: f() got an unexpected keyword argument 'z'"
    );
    assert_eq!(
        err_msg(bind_args("f", &p, &vec![], &None, &None, 1, &vec![])),
        "TypeError: f() missing required argument: 'b'"
    );
}

#[test]
fn bind_gives_every_parameter_a_value() {
    let p = strs(&["a", "b", "c", "d"]);
    let b = ok(bind_args("g", &p, &strs(&["d"]), &None, &None, 1, &strs(&["c", "b"])));
    for name in &p {
        assert!(b.assigns.iter().any(|(n, _)| n == name));
    }
    assert_eq!(b.assigns.iter().filter(|(_, s)| *s == Source::Default).count(), 1);
}

#[test]
fn except_clause_matching() {
    let exc = Some("KeyError".to_string());
    assert!(handler_catches(&vec![], &exc));
    assert!(handler_catches(&vec![], &None));
    assert!(handler_catches(&strs(&["ValueError", "KeyError"]), &exc));
    assert!(handler_catches(&strs(&["Exception"]), &exc));
    assert!(!handler_catches(&strs(&["ValueError"]), &exc));
    assert!(!handler_catches(&strs(&["Exception"]), &None));
}

#[test]
fn range_of_integers() {
    assert_eq!(range_values(4), vec![0, 1, 2, 3]);
    assert_eq!(range_values(0), Vec::<i64>::new());
    assert_eq!(range_values(-3), Vec::<i64>::new());
}

#[test]
fn module_search_files() {
    let (f, p) = module_file_paths("lib", &strs(&["pkg", "mod"]));
    assert_eq!(f, "lib/pkg/mod.py");
    assert_eq!(p, "lib/pkg/mod/__init__.py");
    let (f, p) = module_file_paths("", &strs(&["m"]));
    assert_eq!(f, "m.py");
    assert_eq!(p, "m/__init__.py");
}

#[test]
fn json_words_become_literals() {
    let mut ts = lex_source("[true, false, null, nil]", Dialect::Py4).unwrap();
    json_literals(&mut ts);
    assert!(matches!(ts[1].kind, TokenKind::Sym(Sym::TrueVal)));
    assert!(matches!(ts[3].kind, TokenKind::Sym(Sym::FalseVal)));
    assert!(matches!(ts[5].kind, TokenKind::Sym(Sym::NoneVal)));
    assert!(matches!(&ts[7].kind, TokenKind::Name(n) if n == "nil"));
    assert_eq!((ts[3].line, ts[3].col), (1, 8));
    assert!(parse_expression(&ts, Dialect::Py4).is_ok());
}

#[test]
fn split_and_join() {
    assert_eq!(split_str("a,b,,c", ","), strs(&["a", "b", "", "c"]));
    assert_eq!(split_str("a b", " "), strs(&["a", "b"]));
    assert_eq!(split_str("", ","), strs(&[""]));
    assert_eq!(split_str("aaa", "aa"), strs(&["", "a"]));
    assert_eq!(split_str("ab", ""), strs(&["", "a", "b", ""]));
    assert_eq!(join_strs("-", &strs(&["x", "y", "z"])), "x-y-z");
    assert_eq!(join_strs(", ", &vec![]), "");
}

#[test]
fn join_undoes_split() {
    for (text, sep) in [("a,b,,c", ","), ("", ","), ("aaa", "aa"), ("ab", ""), ("x--y--", "--")] {
        assert_eq!(join_strs(sep, &split_str(text, sep)), text);
    }
}

#[test]
fn fstring_template_parts() {
    let parts = fstring_parts("x={x}, y={ y + 1 }!{");
    let got: Vec<String> = parts
        .iter()
        .map(|p| match p {
            FPart::Text(t) => format!("T:{}", t),
            FPart::Code(c) => format!("C:{}", c),
        })
        .collect();
    assert_eq!(got, vec!["T:x=", "C:x", "T:, y=", "C: y + 1 ", "T:!", "C:"]);
    assert!(fstring_parts("").is_empty());
}

fn exc_text(v: Value) -> String {
    match v {
        Value::Exception(t, a) => match *a {
            Value::Str(m) => format!("{}: {}", t, m),
            _ => panic!("exception argument is not a string"),
        },
        _ => panic!("not an exception"),
    }
}

#[test]
fn unpack_counts() {
    assert!(check_unpack(2, 2).is_ok());
    assert_eq!(
        exc_text(check_unpack(2, 3).unwrap_err()),
        "ValueError: too many/few values to unpack (expected 2, got 3)"
    );
}

#[test]
fn undefined_names() {
    assert_eq!(exc_text(name_error("spam")), "NameError: name 'spam' is not defined");
}

#[test]
fn variable_table_reads_back_writes() {
    let mut t: VarTable<i64> = VarTable::new();
    assert!(t.get("x").is_none());
    t.set("x", 1);
    t.set("y", 2);
    t.set("x", 3);
    assert_eq!(t.get("x"), Some(&3));
    assert_eq!(t.get("y"), Some(&2));
    assert!(t.contains_key("y"));
    assert!(!t.contains_key("z"));
    let names: Vec<&str> = t.entries().iter().map(|(k, _)| k.as_str()).collect();
    assert_eq!(names, vec!["x", "y"]);
}

#[test]
fn scopes_lookup_walks_the_chain_of_parents() {
    let mut s: Scopes<i64> = Scopes::new();
    let g = s.push(None);
    s.set(g, "x", 1);
    let f = s.push(Some(g));
    assert_eq!(s.get(f, "x"), Some(&1));
    assert_eq!(s.get(f, "y"), None);
    s.set(f, "x", 5);
    assert_eq!(s.get(f, "x"), Some(&5));
    assert_eq!(s.get(g, "x"), Some(&1));
    assert_eq!(s.parent(f), Some(g));
    assert_eq!(s.len(), 2);
}

#[test]
fn scopes_assign_writes_the_nearest_binding() {
    let mut s: Scopes<i64> = Scopes::new();
    let g = s.push(None);
    s.set(g, "x", 1);
    let f = s.push(Some(g));
    s.assign(f, "x", 2);
    assert_eq!(s.get(g, "x"), Some(&2));
    assert!(!s.binds_here(f, "x"));
    s.assign(f, "z", 3);
    assert!(s.binds_here(f, "z"));
    assert_eq!(s.get(g, "z"), None);
    assert_eq!(s.find_holder(f, "x"), Some(g));
    assert_eq!(s.entries(g).len(), 1);
}

#[test]
fn scopes_read_after_assign_gives_the_value() {
    let mut s: Scopes<&str> = Scopes::new();
    let a = s.push(None);
    let b = s.push(Some(a));
    let c = s.push(Some(b));
    s.set(b, "n", "old");
    s.assign(c, "n", "new");
    assert_eq!(s.get(c, "n"), Some(&"new"));
    assert_eq!(s.get(b, "n"), Some(&"new"));
    assert_eq!(s.get(a, "n"), None);
}

#[test]
fn seq_index_is_inside_or_an_index_error() {
    assert_eq!(seq_index(0, 3), Some(0));
    assert_eq!(seq_index(2, 3), Some(2));
    assert_eq!(seq_index(3, 3), None);
    assert_eq!(seq_index(-1, 3), None);
    assert_eq!(seq_index(0, 0), None);
}

#[test]
fn and_or_keep_the_left_operand() {
    assert!(keeps_left(LogicOp::And, false));
    assert!(!keeps_left(LogicOp::And, true));
    assert!(keeps_left(LogicOp::Or, true));
    assert!(!keeps_left(LogicOp::Or, false));
}

#[test]
fn loop_status_after_a_body() {
    assert!(after_body::<i64>(Status::Normal).is_none());
    assert!(after_body::<i64>(Status::Next).is_none());
    assert!(matches!(after_body::<i64>(Status::Break), Some(Status::Normal)));
    assert!(matches!(after_body(Status::Return(7)), Some(Status::Return(7))));
    assert!(block_goes_on::<i64>(&Status::Normal));
    assert!(!block_goes_on::<i64>(&Status::Break));
    assert!(!block_goes_on::<i64>(&Status::Next));
    assert!(!block_goes_on(&Status::Return(1)));
}

#[test]
fn the_first_matching_handler_catches() {
    let hs = vec![
        vec!["KeyError".to_string()],
        vec!["ValueError".to_string(), "IndexError".to_string()],
        vec![],
    ];
    assert_eq!(first_handler(&hs, &Some("IndexError".to_string())), Some(1));
    assert_eq!(first_handler(&hs, &Some("KeyError".to_string())), Some(0));
    assert_eq!(first_handler(&hs, &Some("TypeError".to_string())), Some(2));
    let narrow = vec![vec!["KeyError".to_string()]];
    assert_eq!(first_handler(&narrow, &Some("TypeError".to_string())), None);
    assert_eq!(first_handler(&narrow, &None), None);
    let broad = vec![vec!["Exception".to_string()]];
    assert_eq!(first_handler(&broad, &Some("TypeError".to_string())), Some(0));
}

#[test]
fn a_bound_method_gets_its_receiver_first() {
    assert_eq!(with_receiver(0, vec![1, 2]), vec![0, 1, 2]);
    assert_eq!(with_receiver("self", vec![]), vec!["self"]);
}

#[test]
fn module_search_dirs_come_from_sys_path() {
    assert_eq!(search_dirs(None), vec![".".to_string()]);
    let path = vec![Some("lib".to_string()), None, Some("/tmp".to_string())];
    assert_eq!(search_dirs(Some(path)), vec!["lib".to_string(), "/tmp".to_string()]);
    assert!(search_dirs(Some(vec![])).is_empty());
}
