use lib::ast::Op;
use lib::basic::{Num, Stop};
use lib::lexer::lex_source;
use lib::parser::parse_program;
use lib::py0i::{run, str_less, Host};
use lib::token::Dialect;

struct Recorder {
    lines: Vec<String>,
    sources: Vec<(String, String)>,
}

fn as_f64(n: Num) -> f64 {
    match n {
        Num::Int(i) => i as f64,
        Num::Float(bits) => f64::from_bits(bits),
        Num::Bool(b) => {
            if b {
                1.0
            } else {
                0.0
            }
        }
    }
}

impl Host for Recorder {
    fn print(&mut self, line: String) {
        self.lines.push(line);
    }
    fn float_literal(&mut self, text: &str) -> u64 {
        let f: f64 = text.parse().unwrap();
        f.to_bits()
    }
    fn float_text(&mut self, bits: u64) -> String {
        f64::from_bits(bits).to_string()
    }
    fn float_arith(&mut self, op: Op, a: Num, b: Num) -> u64 {
        let (x, y) = (as_f64(a), as_f64(b));
        let r = match op {
            Op::Add => x + y,
            Op::Sub => x - y,
            Op::Mul => x * y,
            Op::Div => x / y,
            _ => f64::NAN,
        };
        r.to_bits()
    }
    fn float_compare(&mut self, op: Op, a: Num, b: Num) -> bool {
        let (x, y) = (as_f64(a), as_f64(b));
        match op {
            Op::Eq => x == y,
            Op::Ne => x != y,
            Op::Lt => x < y,
            Op::Le => x <= y,
            Op::Gt => x > y,
            Op::Ge => x >= y,
            _ => false,
        }
    }
    fn float_neg(&mut self, a: Num) -> u64 {
        (-as_f64(a)).to_bits()
    }
    fn to_float(&mut self, a: Num) -> u64 {
        as_f64(a).to_bits()
    }
    fn float_to_int(&mut self, bits: u64) -> i64 {
        f64::from_bits(bits) as i64
    }
    fn read_source(&mut self, path: &str) -> Option<String> {
        self.sources.iter().find(|(p, _)| p == path).map(|(_, s)| s.clone())
    }
}

fn run_py0i(src: &str, sources: Vec<(String, String)>, args: &[&str]) -> (Vec<String>, Result<(), String>) {
    let ts = match lex_source(src, Dialect::Py0i) {
        Ok(t) => t,
        Err(_) => panic!("the script does not scan"),
    };
    let m = match parse_program(&ts, Dialect::Py0i) {
        Ok(m) => m,
        Err(_) => panic!("the script does not parse"),
    };
    let mut h = Recorder { lines: vec![], sources };
    let argv: Vec<String> = args.iter().map(|s| s.to_string()).collect();
    let r = match run(&mut h, &m, "main.py", &argv) {
        Ok(()) => Ok(()),
        Err(Stop::Error(e)) => Err(e),
        Err(Stop::Panic(p)) => Err(format!("panic: {}", p)),
    };
    (h.lines, r)
}

fn strs(xs: &[&str]) -> Vec<String> {
    xs.iter().map(|s| s.to_string()).collect()
}

#[test]
fn py0i_functions_recursion_and_while() {
    let src = "def fact(n):\n    if n < 2:\n        return 1\n    return n * fact(n - 1)\nprint(fact(10))\ni = 0\ntotal = 0\nwhile i < 5:\n    total = total + i\n    i = i + 1\nprint(total, i)\n";
    let (out, r) = run_py0i(src, vec![], &["main.py"]);
    assert_eq!(r, Ok(()));
    assert_eq!(out, strs(&["3628800", "10 5"]));
}

#[test]
fn py0i_builtins_and_conversions() {
    let src = "print(len(\"abc\"), int(3.9), int(3 > 2), float(2), str(5) + \"!\", bool(0), bool(\"x\"))\nprint(7 / 2, 7 % 3, -2)\n";
    let (out, r) = run_py0i(src, vec![], &["main.py"]);
    assert_eq!(r, Ok(()));
    assert_eq!(out, strs(&["3 3 1 2 5! False True", "3.5 1 -2"]));
}

#[test]
fn py0i_strings_compare_and_index() {
    let src = "print(\"abc\" < \"abd\", \"b\" > \"abc\", \"ab\" <= \"ab\", \"x\" == \"x\")\ns = \"hey\"\nprint(s[1])\nprint(s[3])\n";
    let (out, r) = run_py0i(src, vec![], &["main.py"]);
    assert_eq!(out, strs(&["True True True True", "e"]));
    assert_eq!(r, Err("string index out of range".to_string()));
}

#[test]
fn py0i_sys_argv_and_run_path() {
    let sources = vec![("other.py".to_string(), "print(sys.argv[0], __name__, __file__)\n".to_string())];
    let src = "s = __import__(\"sys\")\nprint(s.argv[1], len(sys.argv))\nrun_path(sys.argv[1])\nprint(len(sys.argv))\n";
    let (out, r) = run_py0i(src, sources, &["main.py", "other.py"]);
    assert_eq!(r, Ok(()));
    assert_eq!(out, strs(&["other.py 2", "other.py __main__ other.py", "2"]));
}

#[test]
fn py0i_errors_name_their_cause() {
    let (_, r) = run_py0i("print(y)\n", vec![], &["main.py"]);
    assert_eq!(r, Err("name 'y' is not defined".to_string()));
    let (_, r) = run_py0i("def f(a):\n    return a\nf(1, 2)\n", vec![], &["main.py"]);
    assert_eq!(r, Err("f() expected 1 arguments, got 2".to_string()));
    let (_, r) = run_py0i("run_path(\"nope.py\")\n", vec![], &["main.py"]);
    assert_eq!(r, Err("cannot open nope.py".to_string()));
    let (_, r) = run_py0i("x = __import__(\"os\")\n", vec![], &["main.py"]);
    assert_eq!(r, Err("unsupported import: os".to_string()));
    let (_, r) = run_py0i("print(1 % 0)\n", vec![], &["main.py"]);
    assert_eq!(r, Err("panic: attempt to calculate the remainder with a divisor of zero".to_string()));
}

#[test]
fn text_order_is_by_character_codes() {
    assert!(str_less("a", "b"));
    assert!(str_less("ab", "abc"));
    assert!(!str_less("abc", "ab"));
    assert!(!str_less("", ""));
    assert!(str_less("", "a"));
    assert!(str_less("Z", "a"));
}
