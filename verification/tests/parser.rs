use lib::ast::{Expr, Items, LogicOp, Op, Stmt};
use lib::lexer::lex_source;
use lib::parser::{parse_expression, parse_program, ErrMsg, PErr};
use lib::source::{parse_source, SyntaxError};
use lib::token::Dialect;

fn items<T>(xs: &Items<T>, f: &dyn Fn(&T) -> String) -> String {
    let mut out = Vec::new();
    let mut cur = xs;
    while let Items::Cons(h, t) = cur {
        out.push(f(h));
        cur = t;
    }
    out.join(" ")
}

fn op(o: &Op) -> &'static str {
    match o {
        Op::Add => "+",
        Op::Sub => "-",
        Op::Mul => "*",
        Op::Div => "/",
        Op::Mod => "%",
        Op::Eq => "==",
        Op::Ne => "!=",
        Op::Lt => "<",
        Op::Le => "<=",
        Op::Gt => ">",
        Op::Ge => ">=",
        Op::Neg => "neg",
        Op::Not => "not",
    }
}

fn ex(e: &Expr) -> String {
    match e {
        Expr::NoneVal => "None".into(),
        Expr::Bool(b) => format!("{}", b),
        Expr::Int(i) => format!("{}", i),
        Expr::Float(s) => format!("f{}", s),
        Expr::Str(s) => format!("{:?}", s),
        Expr::FString(s) => format!("f{:?}", s),
        Expr::Name(n) => n.clone(),
        Expr::List(xs) => format!("[{}]", items(xs, &ex)),
        Expr::Dict(xs) => format!("{{{}}}", items(xs, &|p: &(Expr, Expr)| format!("{}:{}", ex(&p.0), ex(&p.1)))),
        Expr::Tuple(xs) => format!("(tuple {})", items(xs, &ex)),
        Expr::ListComp(a, b, c, d) => match d {
            Some(d) => format!("(comp {} {} {} {})", ex(a), ex(b), ex(c), ex(d)),
            None => format!("(comp {} {} {})", ex(a), ex(b), ex(c)),
        },
        Expr::Lambda(ps, b) => format!("(lambda ({}) {})", items(ps, &|s: &String| s.clone()), ex(b)),
        Expr::BinOp(o, a, b) => format!("({} {} {})", op(o), ex(a), ex(b)),
        Expr::UnaryOp(o, a) => format!("({} {})", op(o), ex(a)),
        Expr::Compare(o, a, b) => format!("({} {} {})", op(o), ex(a), ex(b)),
        Expr::Logical(LogicOp::And, a, b) => format!("(and {} {})", ex(a), ex(b)),
        Expr::Logical(LogicOp::Or, a, b) => format!("(or {} {})", ex(a), ex(b)),
        Expr::Call(f, a, k) => {
            let kw = items(k, &|p: &(String, Expr)| format!("{}={}", p.0, ex(&p.1)));
            if kw.is_empty() {
                format!("(call {} [{}])", ex(f), items(a, &ex))
            } else {
                format!("(call {} [{}] {})", ex(f), items(a, &ex), kw)
            }
        }
        Expr::Attribute(o, n) => format!("(. {} {})", ex(o), n),
        Expr::Subscript(o, i) => format!("(idx {} {})", ex(o), ex(i)),
    }
}

fn block(b: &Items<Stmt>) -> String {
    format!("{{{}}}", items(b, &st))
}

fn st(s: &Stmt) -> String {
    match s {
        Stmt::Expr(e) => ex(e),
        Stmt::Assign(t, v) => format!("(= {} {})", ex(t), ex(v)),
        Stmt::If(c, a, b) => format!("(if {} {} {})", ex(c), block(a), block(b)),
        Stmt::While(c, b) => format!("(while {} {})", ex(c), block(b)),
        Stmt::For(t, i, b) => format!("(for {} {} {})", ex(t), ex(i), block(b)),
        Stmt::FunctionDef(n, ps, va, kw, b) => {
            let p = items(ps, &|p: &lib::ast::Param| match &p.default {
                Some(d) => format!("{}={}", p.name, ex(d)),
                None => p.name.clone(),
            });
            format!("(def {} ({}) {:?} {:?} {})", n, p, va, kw, block(b))
        }
        Stmt::ClassDef(n, base, b) => match base {
            Some(x) => format!("(class {} {} {})", n, ex(x), block(b)),
            None => format!("(class {} {})", n, block(b)),
        },
        Stmt::Try(b, hs) => format!(
            "(try {} {})",
            block(b),
            items(hs, &|h: &lib::ast::Handler| format!(
                "(except [{}] {:?} {})",
                items(&h.types, &|s: &String| s.clone()),
                h.alias,
                block(&h.body)
            ))
        ),
        Stmt::Raise(e) => format!("(raise {})", ex(e)),
        Stmt::Import(p) => format!("(import {})", items(p, &|s: &String| s.clone())),
        Stmt::FromImport(m, ns) => format!(
            "(from {} {})",
            items(m, &|s: &String| s.clone()),
            items(ns, &|s: &String| s.clone())
        ),
        Stmt::Return(Some(e)) => format!("(return {})", ex(e)),
        Stmt::Return(None) => "(return)".into(),
        Stmt::Break => "break".into(),
        Stmt::Continue => "continue".into(),
        Stmt::Pass => "pass".into(),
    }
}

fn prog(src: &str, d: Dialect) -> Result<String, PErr> {
    let ts = lex_source(src, d).unwrap();
    parse_program(&ts, d).map(|b| items(&b, &st))
}

fn expr(src: &str, d: Dialect) -> Result<String, PErr> {
    let ts = lex_source(src, d).unwrap();
    parse_expression(&ts, d).map(|e| ex(&e))
}

#[test]
fn parse_precedence_of_arithmetic() {
    for d in [Dialect::Py0i, Dialect::Basic, Dialect::Py4] {
        assert_eq!(expr("1 + 2 * 3 - -4 % 5", d).unwrap(), "(- (+ 1 (* 2 3)) (% (neg 4) 5))");
        assert_eq!(expr("a < b + 1", d).unwrap(), "(< a (+ b 1))");
        assert_eq!(expr("a - b - c", d).unwrap(), "(- (- a b) c)");
        assert_eq!(expr("f(x).y[2]", d).unwrap(), "(idx (. (call f [x]) y) 2)");
    }
}

#[test]
fn parse_boolean_operators() {
    assert_eq!(
        expr("not a or b and c == d", Dialect::Basic).unwrap(),
        "(or (not a) (and b (== c d)))"
    );
    assert_eq!(expr("a or b or c", Dialect::Py4).unwrap(), "(or (or a b) c)");
    // The smallest dialect has no boolean operators: `or` is just a name.
    assert_eq!(expr("a or b", Dialect::Py0i).unwrap(), "a");
}

#[test]
fn parse_collections_and_trailing_commas() {
    assert_eq!(expr("[1, 2,]", Dialect::Basic).unwrap(), "[1 2]");
    assert_eq!(expr("{'a': 1, 2: [],}", Dialect::Basic).unwrap(), "{\"a\":1 2:[]}");
    assert_eq!(expr("f(1, 2,)", Dialect::Basic).unwrap(), "(call f [1 2])");
    assert_eq!(expr("f(1, 2,)", Dialect::Py4).unwrap(), "(call f [1 2])");
    assert_eq!(expr("(1, 2,)", Dialect::Py4).unwrap(), "(tuple 1 2)");
    assert_eq!(expr("(1,)", Dialect::Py4).unwrap(), "(tuple 1)");
    assert_eq!(expr("()", Dialect::Py4).unwrap(), "(tuple )");
    assert_eq!(expr("[]", Dialect::Basic).unwrap(), "[]");
    assert_eq!(expr("[1][0]", Dialect::Basic).unwrap(), "(idx [1] 0)");
}

#[test]
fn parse_py0i_rejects_trailing_comma_in_call() {
    assert_eq!(expr("f(1,)", Dialect::Py0i).unwrap_err(), PErr::At(1, 5, ErrMsg::ExpectedExpression));
    assert_eq!(expr("f(1, 2)", Dialect::Py0i).unwrap(), "(call f [1 2])");
}

#[test]
fn parse_literals_take_postfix_in_every_dialect() {
    assert_eq!(expr("'ab'[0]", Dialect::Py4).unwrap(), "(idx \"ab\" 0)");
    assert_eq!(expr("'ab'[0]", Dialect::Basic).unwrap(), "(idx \"ab\" 0)");
    assert_eq!(expr("'ab'[0]", Dialect::Py0i).unwrap(), "(idx \"ab\" 0)");
    assert_eq!(expr("1(2)", Dialect::Py0i).unwrap(), "(call 1 [2])");
    assert_eq!(expr("None.x", Dialect::Basic).unwrap(), "(. None x)");
    assert_eq!(expr("(x)(1)", Dialect::Py0i).unwrap(), "(call x [1])");
}

#[test]
fn parse_py4_expression_forms() {
    assert_eq!(expr("lambda x, y: x + y", Dialect::Py4).unwrap(), "(lambda (x y) (+ x y))");
    assert_eq!(expr("lambda: 1", Dialect::Py4).unwrap(), "(lambda () 1)");
    assert_eq!(
        expr("[x * 2 for x in xs if x > 1]", Dialect::Py4).unwrap(),
        "(comp (* x 2) x xs (> x 1))"
    );
    assert_eq!(expr("f(1, k=2)", Dialect::Py4).unwrap(), "(call f [1] k=2)");
    assert_eq!(expr("f'x={x}'", Dialect::Py4).unwrap(), "f\"x={x}\"");
    assert_eq!(expr("None", Dialect::Py4).unwrap(), "None");
}

#[test]
fn parse_elif_chain_nests_into_else() {
    let src = "if a:\n    x = 1\nelif b:\n    x = 2\nelse:\n    x = 3\n";
    let want = "(if a {(= x 1)} {(if b {(= x 2)} {(= x 3)})})";
    assert_eq!(prog(src, Dialect::Basic).unwrap(), want);
    assert_eq!(prog(src, Dialect::Py4).unwrap(), want);
}

#[test]
fn parse_augmented_assignment_desugars() {
    assert_eq!(prog("x += 1\n", Dialect::Py4).unwrap(), "(= x (+ x 1))");
    assert_eq!(prog("x -= y\n", Dialect::Basic).unwrap(), "(= x (- x y))");
    assert_eq!(prog("a[0] += 1\n", Dialect::Py4).unwrap(), "(= (idx a 0) (+ (idx a 0) 1))");
    assert_eq!(prog("a, b += 1\n", Dialect::Py4).unwrap_err(), PErr::Plain(ErrMsg::IllegalAugTarget));
    assert_eq!(prog("a[0] += 1\n", Dialect::Basic).unwrap(), "(= (idx a 0) (+ (idx a 0) 1))");
    assert_eq!(prog("o.n -= 2\n", Dialect::Basic).unwrap(), "(= (. o n) (- (. o n) 2))");
    assert_eq!(prog("1 += 2\n", Dialect::Basic).unwrap_err(), PErr::Plain(ErrMsg::AugAssignNeedsName));
}

#[test]
fn parse_assignment_targets() {
    assert_eq!(prog("a, b = b, a\n", Dialect::Py4).unwrap(), "(= (tuple a b) (tuple b a))");
    assert_eq!(prog("a.b = 1\n", Dialect::Basic).unwrap(), "(= (. a b) 1)");
    assert_eq!(prog("1 = 2\n", Dialect::Basic).unwrap_err(), PErr::Plain(ErrMsg::InvalidAssignTarget));
    assert_eq!(prog("x = 5\n", Dialect::Py0i).unwrap(), "(= x 5)");
}

#[test]
fn parse_function_definitions() {
    assert_eq!(
        prog("def f(a, b=2, *rest, **kw):\n    return a\n", Dialect::Py4).unwrap(),
        "(def f (a b=2) Some(\"rest\") Some(\"kw\") {(return a)})"
    );
    assert_eq!(
        prog("def g(a, b):\n    pass\n", Dialect::Py0i).unwrap(),
        "(def g (a b) None None {pass})"
    );
    assert_eq!(prog("def h(): return 1\n", Dialect::Py4).unwrap(), "(def h () None None {(return 1)})");
    assert_eq!(
        prog("def h(): return 1\n", Dialect::Basic).unwrap_err(),
        PErr::At(1, 10, ErrMsg::ExpectedNewlineAfterColon)
    );
}

#[test]
fn parse_loops() {
    assert_eq!(
        prog("for i in range(3):\n    print(i)\n", Dialect::Basic).unwrap(),
        "(for i (call range [3]) {(call print [i])})"
    );
    assert_eq!(
        prog("for k, v in d:\n    break\n", Dialect::Py4).unwrap(),
        "(for (tuple k v) d {break})"
    );
    assert_eq!(
        prog("while x:\n    x = x - 1\n    continue\n", Dialect::Basic).unwrap(),
        "(while x {(= x (- x 1)) continue})"
    );
    assert_eq!(
        prog("for 1 in x:\n    pass\n", Dialect::Basic).unwrap_err(),
        PErr::At(1, 5, ErrMsg::ExpectedLoopVar)
    );
}

#[test]
fn parse_classes_exceptions_and_imports() {
    assert_eq!(
        prog("class A(B):\n    def m(self):\n        return 1\n", Dialect::Py4).unwrap(),
        "(class A B {(def m (self) None None {(return 1)})})"
    );
    assert_eq!(
        prog("try:\n    f()\nexcept (E, F) as e:\n    pass\nexcept:\n    raise e\n", Dialect::Py4).unwrap(),
        "(try {(call f [])} (except [E F] Some(\"e\") {pass}) (except [] None {(raise e)}))"
    );
    assert_eq!(prog("import a.b.c\n", Dialect::Py4).unwrap(), "(import a b c)");
    assert_eq!(prog("from m import x, y\n", Dialect::Py4).unwrap(), "(from m x y)");
    assert_eq!(
        prog("try:\n    pass\nx = 1\n", Dialect::Py4).unwrap_err(),
        PErr::Plain(ErrMsg::ExpectedExceptBlock)
    );
}

#[test]
fn parse_return_forms() {
    assert_eq!(prog("return\n", Dialect::Py0i).unwrap(), "(return)");
    assert_eq!(prog("return 1, 2\n", Dialect::Py4).unwrap(), "(return (tuple 1 2))");
    assert_eq!(
        prog("return 1, 2\n", Dialect::Basic).unwrap_err(),
        PErr::At(1, 9, ErrMsg::ExpectedNewline)
    );
}

#[test]
fn parse_error_messages_by_dialect() {
    assert_eq!(expr("f(1", Dialect::Py4).unwrap_err(), PErr::At(2, 1, ErrMsg::ExpectedRparen));
    assert_eq!(expr("f(1", Dialect::Basic).unwrap_err(), PErr::At(1, 4, ErrMsg::ExpectedRparen));
    assert_eq!(expr("a.1", Dialect::Py4).unwrap_err(), PErr::At(1, 3, ErrMsg::ExpectedAttr));
    assert_eq!(expr("a.1", Dialect::Basic).unwrap_err(), PErr::At(1, 3, ErrMsg::ExpectedAttribute));
    assert_eq!(expr("a.1", Dialect::Py0i).unwrap_err(), PErr::At(1, 3, ErrMsg::ExpectedAttributeName));
    assert_eq!(expr("{1 2}", Dialect::Basic).unwrap_err(), PErr::At(1, 4, ErrMsg::ExpectedColonInDict));
    assert_eq!(expr("{1 2}", Dialect::Py4).unwrap_err(), PErr::At(1, 4, ErrMsg::ExpectedColon));
    assert_eq!(expr(")", Dialect::Py4).unwrap_err(), PErr::At(1, 1, ErrMsg::ExpectedExpr));
    assert_eq!(
        prog("x = 1 2\n", Dialect::Py0i).unwrap_err(),
        PErr::At(1, 7, ErrMsg::ExpectedNewlineAfterAssignment)
    );
    assert_eq!(
        prog("f() g\n", Dialect::Py0i).unwrap_err(),
        PErr::At(1, 5, ErrMsg::ExpectedNewlineAfterExpression)
    );
    let e = PErr::At(1, 5, ErrMsg::ExpectedNewlineAfterExpression);
    assert_eq!(e.message("prog.py"), "prog.py:1:5: expected newline after expression");
    assert_eq!(
        PErr::Plain(ErrMsg::IllegalAugTarget).message("prog.py"),
        "SyntaxError: illegal target for augmentation"
    );
}

#[test]
fn parse_blocks_skip_blank_lines() {
    let src = "\n\nif a:\n\n    b\n\n    c\n\nd\n";
    assert_eq!(prog(src, Dialect::Py0i).unwrap(), "(if a {b c} {}) d");
}

#[test]
fn parse_source_reports_either_stage() {
    match parse_source("x = (\n", Dialect::Basic) {
        Err(SyntaxError::Parse(e)) => assert_eq!(e, PErr::At(1, 6, ErrMsg::ExpectedExpression)),
        _ => panic!("expected a parse error"),
    }
    match parse_source("x = 'a\n", Dialect::Py4) {
        Err(SyntaxError::Lex(e)) => assert_eq!(e.message(Dialect::Py4), "unterminated string line 1"),
        _ => panic!("expected a lexing error"),
    }
    match parse_source("x = 1\nprint(x)\n", Dialect::Py0i) {
        Ok(b) => assert_eq!(items(&b, &st), "(= x 1) (call print [x])"),
        Err(_) => panic!("expected a program"),
    }
}

#[test]
fn parse_py0i_has_only_plain_assignment() {
    assert_eq!(prog("a += 1\n", Dialect::Py0i).unwrap_err(), PErr::At(1, 4, ErrMsg::ExpectedExpression));
    assert_eq!(prog("a = b = 1\n", Dialect::Py0i).unwrap_err(), PErr::At(1, 7, ErrMsg::ExpectedNewlineAfterAssignment));
}

#[test]
fn parse_block_of_a_blank_looking_line() {
    // A line holding only a form feed is not blank to the scanner: it opens a
    // block with no statement in it.
    assert_eq!(prog("if a:\n  \x0c\nb\n", Dialect::Py4).unwrap(), "(if a {} {}) b");
}

#[test]
fn parse_trailing_comma_in_parameters() {
    assert_eq!(
        prog("def f(a, b,):\n    pass\n", Dialect::Basic).unwrap(),
        "(def f (a b) None None {pass})"
    );
    assert_eq!(
        prog("def f(a, b,):\n    pass\n", Dialect::Py0i).unwrap_err(),
        PErr::At(1, 12, ErrMsg::ExpectedParamName)
    );
}
