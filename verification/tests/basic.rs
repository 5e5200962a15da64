use lib::ast::Op;
use lib::basic::{run, Host, Num, Stop};
use lib::lexer::lex_source;
use lib::parser::parse_program;
use lib::token::Dialect;

struct Recorder {
    lines: Vec<String>,
}

fn as_f64(n: Num) -> f64 {
    match n {
        Num::Int(i) => i as f64,
        Num::Float(bits) => f64::from_bits(bits),
        Num::Bool(b) => {
            if b {
                1.0
            } else {
                0.0
            }
        }
    }
}

impl Host for Recorder {
    fn print(&mut self, line: String) {
        self.lines.push(line);
    }
    fn float_literal(&mut self, text: &str) -> u64 {
        let f: f64 = text.parse().unwrap();
        f.to_bits()
    }
    fn float_text(&mut self, bits: u64) -> String {
        f64::from_bits(bits).to_string()
    }
    fn float_arith(&mut self, op: Op, a: Num, b: Num) -> u64 {
        let (x, y) = (as_f64(a), as_f64(b));
        let r = match op {
            Op::Add => x + y,
            Op::Sub => x - y,
            Op::Mul => x * y,
            Op::Div => x / y,
            _ => f64::NAN,
        };
        r.to_bits()
    }
    fn float_to_int(&mut self, a: Num) -> i64 {
        as_f64(a) as i64
    }
    fn int_to_float(&mut self, i: i64) -> u64 {
        (i as f64).to_bits()
    }
    fn float_compare(&mut self, op: Op, a: Num, b: Num) -> bool {
        let (x, y) = (as_f64(a), as_f64(b));
        match op {
            Op::Eq => x == y,
            Op::Ne => x != y,
            Op::Lt => x < y,
            Op::Le => x <= y,
            Op::Gt => x > y,
            Op::Ge => x >= y,
            _ => false,
        }
    }
    fn float_neg(&mut self, a: Num) -> u64 {
        (-as_f64(a)).to_bits()
    }
}

fn run_basic(src: &str) -> (Vec<String>, Result<(), String>) {
    let ts = match lex_source(src, Dialect::Basic) {
        Ok(t) => t,
        Err(_) => panic!("the script does not scan"),
    };
    let m = match parse_program(&ts, Dialect::Basic) {
        Ok(m) => m,
        Err(_) => panic!("the script does not parse"),
    };
    let mut h = Recorder { lines: vec![] };
    let r = match run(&mut h, &m) {
        Ok(()) => Ok(()),
        Err(Stop::Error(e)) => Err(e),
        Err(Stop::Panic(p)) => Err(format!("panic: {}", p)),
    };
    (h.lines, r)
}

#[test]
fn basic_for_break_continue_and_range() {
    let src = "total = 0\nfor i in range(10):\n    if i == 3:\n        continue\n    if i == 6:\n        break\n    total += i\nprint(total)\n";
    let (out, r) = run_basic(src);
    assert!(r.is_ok());
    assert_eq!(out, vec!["12".to_string()]);
}

#[test]
fn basic_and_or_short_circuit() {
    let src = "def f():\n    print(\"called\")\n    return 1\nprint(0 and f())\nprint(1 or f())\nprint(1 and f())\n";
    let (out, r) = run_basic(src);
    assert!(r.is_ok());
    assert_eq!(out, vec!["0".to_string(), "1".to_string(), "called".to_string(), "1".to_string()]);
}

#[test]
fn basic_lists_append_len_and_items() {
    let src = "a = [1, 2]\na.append(3)\na[0] += 5\nprint(a, len(a))\nprint(a[2])\n";
    let (out, r) = run_basic(src);
    assert!(r.is_ok());
    assert_eq!(out, vec!["[6, 2, 3] 3".to_string(), "3".to_string()]);
}

#[test]
fn basic_list_index_out_of_range() {
    let (out, r) = run_basic("a = [1]\nprint(a[1])\n");
    assert!(out.is_empty());
    assert_eq!(r, Err("list index out of range".to_string()));
    let (_, r) = run_basic("a = [1]\nprint(a[0 - 1])\n");
    assert_eq!(r, Err("list index out of range".to_string()));
    let (_, r) = run_basic("a = [1]\na[5] = 2\n");
    assert_eq!(r, Err("list assignment index out of range".to_string()));
}

#[test]
fn basic_dict_missing_key_names_it() {
    let (out, r) = run_basic("d = {\"a\": 1}\nd[\"b\"] = 2\nprint(d[\"b\"], len(d))\nprint(d[\"c\"])\n");
    assert_eq!(out, vec!["2 2".to_string()]);
    assert_eq!(r, Err("KeyError: 'c'".to_string()));
    let (_, r) = run_basic("d = {1: 2}\nprint(d[1])\nprint(d[[]])\n");
    assert_eq!(r, Err("unhashable type for dict key".to_string()));
}

#[test]
fn basic_unbound_name_and_calls() {
    let (_, r) = run_basic("print(x)\n");
    assert_eq!(r, Err("name 'x' is not defined".to_string()));
    let (_, r) = run_basic("def f(a, b):\n    return a\nf(1)\n");
    assert_eq!(r, Err("f() expected 2 args, got 1".to_string()));
    let (_, r) = run_basic("x = 3\nx()\n");
    assert_eq!(r, Err("object is not callable".to_string()));
}

#[test]
fn basic_functions_see_enclosing_scopes() {
    let src = "count = 0\ndef bump():\n    count = count + 1\n    return count\nbump()\nbump()\nprint(count)\ndef outer():\n    y = 5\n    def inner():\n        return y * 2\n    return inner()\nprint(outer())\n";
    let (out, r) = run_basic(src);
    assert!(r.is_ok());
    assert_eq!(out, vec!["2".to_string(), "10".to_string()]);
}

#[test]
fn basic_floats_go_through_the_host() {
    let (out, r) = run_basic("print(1 / 2)\nprint(1.5 + 1)\nprint(2 < 2.5)\nprint(-1.5)\n");
    assert!(r.is_ok());
    assert_eq!(out, vec!["0.5".to_string(), "2.5".to_string(), "True".to_string(), "-1.5".to_string()]);
}

#[test]
fn basic_strings_join_and_iterate() {
    let src = "s = \"ab\" + \"c\"\nfor ch in s:\n    print(ch)\nprint(s == \"abc\", s != \"abc\", \"a\" < \"b\")\n";
    let (out, r) = run_basic(src);
    assert!(r.is_ok());
    assert_eq!(
        out,
        vec!["a".to_string(), "b".to_string(), "c".to_string(), "True False False".to_string()]
    );
}

#[test]
fn basic_while_and_return_from_loop() {
    let src = "def first_over(n):\n    i = 0\n    while True:\n        if i * i > n:\n            return i\n        i += 1\nprint(first_over(10))\n";
    let (out, r) = run_basic(src);
    assert!(r.is_ok());
    assert_eq!(out, vec!["4".to_string()]);
}

#[test]
fn basic_integer_faults_stop_the_program() {
    let (_, r) = run_basic("print(5 % 0)\n");
    assert_eq!(r, Err("panic: attempt to calculate the remainder with a divisor of zero".to_string()));
    let (_, r) = run_basic("x = 9223372036854775807\nprint(x + 1)\n");
    assert_eq!(r, Err("panic: attempt to add with overflow".to_string()));
}
