use lib::lexer::{lex_source, LexError};
use lib::token::{Dialect, Sym, Token, TokenKind};

fn show(t: &Token<String>) -> String {
    let k = match &t.kind {
        TokenKind::Name(n) => format!("Name({})", n),
        TokenKind::Int(i) => format!("Int({})", i),
        TokenKind::Float(s) => format!("Float({})", s),
        TokenKind::Str(s) => format!("Str({:?})", s),
        TokenKind::FString(s) => format!("FString({:?})", s),
        TokenKind::Sym(s) => format!("{:?}", s),
    };
    format!("{}@{}:{}", k, t.line, t.col)
}

fn kinds(src: &str, d: Dialect) -> Vec<String> {
    lex_source(src, d)
        .unwrap()
        .iter()
        .map(|t| {
            let s = show(t);
            s.split('@').next().unwrap().to_string()
        })
        .collect()
}

fn count(ts: &[Token<String>], k: Sym) -> usize {
    ts.iter().filter(|t| matches!(t.kind, TokenKind::Sym(s) if s == k)).count()
}

#[test]
fn lex_simple_assignment_positions() {
    let ts = lex_source("x = 1\n", Dialect::Py4).unwrap();
    let got: Vec<String> = ts.iter().map(show).collect();
    assert_eq!(got, vec!["Name(x)@1:1", "Equal@1:3", "Int(1)@1:5", "Newline@1:6", "Eof@2:1"]);
}

#[test]
fn lex_blocks_open_and_close() {
    let got = kinds("if x:\n    y = 1\nz = 2\n", Dialect::Py4);
    assert_eq!(
        got,
        vec![
            "If", "Name(x)", "Colon", "Newline", "Indent", "Name(y)", "Equal", "Int(1)",
            "Newline", "Dedent", "Name(z)", "Equal", "Int(2)", "Newline", "Eof"
        ]
    );
}

#[test]
fn lex_dedent_positions_at_next_line() {
    let ts = lex_source("if x:\n    y\nz\n", Dialect::Basic).unwrap();
    let d: Vec<String> = ts
        .iter()
        .filter(|t| matches!(t.kind, TokenKind::Sym(Sym::Dedent)))
        .map(show)
        .collect();
    assert_eq!(d, vec!["Dedent@3:1"]);
}

#[test]
fn lex_open_blocks_closed_at_end() {
    let ts = lex_source("def f():\n  if a:\n    return 1\n", Dialect::Py0i).unwrap();
    let tail: Vec<String> = ts[ts.len() - 3..].iter().map(show).collect();
    assert_eq!(tail, vec!["Dedent@4:1", "Dedent@4:1", "Eof@4:1"]);
}

#[test]
fn lex_tab_counts_as_four_spaces() {
    let got = kinds("if a:\n\tb\n    c\n", Dialect::Py4);
    assert_eq!(
        got,
        vec!["If", "Name(a)", "Colon", "Newline", "Indent", "Name(b)", "Newline", "Name(c)", "Newline", "Dedent", "Eof"]
    );
}

#[test]
fn lex_crlf_line_endings() {
    let ts = lex_source("a = 1\r\nb = 2\r\n", Dialect::Py4).unwrap();
    let got: Vec<String> = ts.iter().map(show).collect();
    assert_eq!(
        got,
        vec![
            "Name(a)@1:1", "Equal@1:3", "Int(1)@1:5", "Newline@1:6", "Name(b)@2:1", "Equal@2:3",
            "Int(2)@2:5", "Newline@2:6", "Eof@3:1"
        ]
    );
}

#[test]
fn lex_comments_and_blank_lines_skipped() {
    let ts = lex_source("# head\n\n   \nx = 1  # tail\n", Dialect::Py4).unwrap();
    let got: Vec<String> = ts.iter().map(show).collect();
    assert_eq!(got, vec!["Name(x)@4:1", "Equal@4:3", "Int(1)@4:5", "Newline@4:14", "Eof@5:1"]);
}

#[test]
fn lex_inconsistent_indent() {
    let r = lex_source("if a:\n    b\n  c\n", Dialect::Py4);
    assert_eq!(r.unwrap_err(), LexError::IndentMismatch(3));
    assert_eq!(LexError::IndentMismatch(3).message(Dialect::Py4), "inconsistent indent at line 3");
    assert_eq!(
        LexError::IndentMismatch(3).message(Dialect::Py0i),
        "inconsistent indentation at line 3"
    );
}

#[test]
fn lex_unterminated_string() {
    let e = lex_source("s = 'abc\n", Dialect::Basic).unwrap_err();
    assert_eq!(e, LexError::UnterminatedString(1));
    assert_eq!(e.message(Dialect::Basic), "unterminated string at line 1");
    assert_eq!(e.message(Dialect::Py4), "unterminated string line 1");
}

#[test]
fn lex_unterminated_fstring() {
    let e = lex_source("x = 1\ny = f'a{x}\n", Dialect::Py4).unwrap_err();
    assert_eq!(e, LexError::UnterminatedFString(2));
    assert_eq!(e.message(Dialect::Py4), "unterminated f-string line 2");
}

#[test]
fn lex_unexpected_character() {
    let e = lex_source("a = $\n", Dialect::Py4).unwrap_err();
    assert_eq!(e, LexError::UnexpectedChar('$', 1));
    assert_eq!(e.message(Dialect::Py4), "unexpected '$' line 1");
    assert_eq!(e.message(Dialect::Py0i), "unexpected character '$' at line 1");
}

#[test]
fn lex_braces_unknown_to_py0i() {
    let e = lex_source("d = {}\n", Dialect::Py0i).unwrap_err();
    assert_eq!(e, LexError::UnexpectedChar('{', 1));
}

#[test]
fn lex_integer_literal_too_large() {
    let e = lex_source("x = 99999999999999999999\n", Dialect::Py4).unwrap_err();
    assert_eq!(e, LexError::IntLiteralTooLarge(1));
    let ok = lex_source("x = 9223372036854775807\n", Dialect::Py4).unwrap();
    assert!(matches!(ok[2].kind, TokenKind::Int(i64::MAX)));
}

#[test]
fn lex_brackets_suppress_layout_in_py4() {
    let got = kinds("f(1,\n  2)\nx\n", Dialect::Py4);
    assert_eq!(
        got,
        vec!["Name(f)", "Lparen", "Int(1)", "Comma", "Int(2)", "Rparen", "Newline", "Name(x)", "Newline", "Eof"]
    );
}

#[test]
fn lex_brackets_do_not_suppress_layout_in_basic() {
    let got = kinds("f(1,\n2)\n", Dialect::Basic);
    assert_eq!(
        got,
        vec!["Name(f)", "Lparen", "Int(1)", "Comma", "Newline", "Int(2)", "Rparen", "Newline", "Eof"]
    );
}

#[test]
fn lex_keywords_by_dialect() {
    assert_eq!(
        kinds("for x in y\n", Dialect::Py0i),
        vec!["Name(for)", "Name(x)", "Name(in)", "Name(y)", "Newline", "Eof"]
    );
    assert_eq!(kinds("for x in y\n", Dialect::Basic), vec!["For", "Name(x)", "In", "Name(y)", "Newline", "Eof"]);
    assert_eq!(kinds("class try\n", Dialect::Basic), vec!["Name(class)", "Name(try)", "Newline", "Eof"]);
    assert_eq!(kinds("class try\n", Dialect::Py4), vec!["Class", "Try", "Newline", "Eof"]);
    assert_eq!(kinds("None True\n", Dialect::Py0i), vec!["Name(None)", "Name(True)", "Newline", "Eof"]);
    assert_eq!(kinds("None True\n", Dialect::Basic), vec!["NoneVal", "TrueVal", "Newline", "Eof"]);
}

#[test]
fn lex_fstrings_only_in_py4() {
    assert_eq!(kinds("f\"a{b}\"\n", Dialect::Py4), vec!["FString(\"a{b}\")", "Newline", "Eof"]);
    assert_eq!(kinds("f\"a{b}\"\n", Dialect::Basic), vec!["Name(f)", "Str(\"a{b}\")", "Newline", "Eof"]);
}

#[test]
fn lex_numbers_and_escapes() {
    assert_eq!(
        kinds("1.5 2. 30 'a\\nb' \"q\\\"\"\n", Dialect::Py4),
        vec!["Float(1.5)", "Float(2.)", "Int(30)", "Str(\"a\\nb\")", "Str(\"q\\\"\")", "Newline", "Eof"]
    );
}

#[test]
fn lex_two_char_operators() {
    assert_eq!(
        kinds("a == b != c <= d >= e += f -= g\n", Dialect::Basic),
        vec![
            "Name(a)", "Eqeq", "Name(b)", "Ne", "Name(c)", "Le", "Name(d)", "Ge", "Name(e)", "PlusEq",
            "Name(f)", "MinusEq", "Name(g)", "Newline", "Eof"
        ]
    );
    assert_eq!(
        kinds("a += 1\n", Dialect::Py0i),
        vec!["Name(a)", "Plus", "Equal", "Int(1)", "Newline", "Eof"]
    );
}

#[test]
fn lex_layout_is_balanced_with_one_eof() {
    let src = "def f(a):\n  if a:\n    while a:\n      a = a - 1\n  return a\nprint(f(3))\n";
    for d in [Dialect::Py0i, Dialect::Basic, Dialect::Py4] {
        let ts = lex_source(src, d).unwrap();
        assert_eq!(count(&ts, Sym::Indent), 3);
        assert_eq!(count(&ts, Sym::Dedent), 3);
        assert_eq!(count(&ts, Sym::Eof), 1);
        assert!(matches!(ts.last().unwrap().kind, TokenKind::Sym(Sym::Eof)));
        let mut depth: i64 = 0;
        for t in &ts {
            match t.kind {
                TokenKind::Sym(Sym::Indent) => depth += 1,
                TokenKind::Sym(Sym::Dedent) => depth -= 1,
                _ => {}
            }
            assert!(depth >= 0);
        }
        assert_eq!(depth, 0);
        assert!(ts.windows(2).all(|w| w[0].line <= w[1].line));
        assert!(ts.iter().all(|t| t.line >= 1));
    }
}

#[test]
fn lex_empty_source() {
    assert_eq!(kinds("", Dialect::Py4), vec!["Eof"]);
    assert_eq!(kinds("\n\n", Dialect::Py0i), vec!["Eof"]);
}

#[test]
fn lex_messages_of_arithmetic_limits() {
    assert_eq!(
        LexError::IntLiteralTooLarge(4).message(Dialect::Py4),
        "integer literal too large at line 4"
    );
    assert_eq!(
        LexError::BracketDepthOverflow(2).message(Dialect::Basic),
        "brackets nested too deeply at line 2"
    );
}
