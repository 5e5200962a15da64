use lib::ast::Op;
use lib::basic::{Num, Stop};
use lib::lexer::lex_source;
use lib::parser::parse_program;
use lib::py4::{run, Host};
use lib::token::Dialect;

struct Recorder {
    lines: Vec<String>,
    sources: Vec<(String, String)>,
    files: Vec<String>,
}

fn as_f64(n: Num) -> f64 {
    match n {
        Num::Int(i) => i as f64,
        Num::Float(bits) => f64::from_bits(bits),
        Num::Bool(b) => {
            if b {
                1.0
            } else {
                0.0
            }
        }
    }
}

impl Host for Recorder {
    fn print(&mut self, line: String) {
        self.lines.push(line);
    }
    fn float_literal(&mut self, text: &str) -> u64 {
        let f: f64 = text.parse().unwrap();
        f.to_bits()
    }
    fn float_text(&mut self, bits: u64) -> String {
        f64::from_bits(bits).to_string()
    }
    fn float_arith(&mut self, op: Op, a: Num, b: Num) -> u64 {
        let (x, y) = (as_f64(a), as_f64(b));
        let r = match op {
            Op::Add => x + y,
            Op::Sub => x - y,
            Op::Mul => x * y,
            Op::Div => x / y,
            _ => f64::NAN,
        };
        r.to_bits()
    }
    fn float_to_int(&mut self, a: Num) -> i64 {
        as_f64(a) as i64
    }
    fn int_to_float(&mut self, i: i64) -> u64 {
        (i as f64).to_bits()
    }
    fn float_compare(&mut self, op: Op, a: Num, b: Num) -> bool {
        let (x, y) = (as_f64(a), as_f64(b));
        match op {
            Op::Eq => x == y,
            Op::Ne => x != y,
            Op::Lt => x < y,
            Op::Le => x <= y,
            Op::Gt => x > y,
            Op::Ge => x >= y,
            _ => false,
        }
    }
    fn float_neg(&mut self, a: Num) -> u64 {
        (-as_f64(a)).to_bits()
    }
    fn float_sqrt(&mut self, a: Num) -> u64 {
        as_f64(a).sqrt().to_bits()
    }
    fn now(&mut self) -> u64 {
        0
    }
    fn sleep(&mut self, _secs: Num) {}
    fn getenv(&mut self, key: &str) -> Option<String> {
        if key == "HOME" {
            Some("/home/test".to_string())
        } else {
            None
        }
    }
    fn system(&mut self, _cmd: &str) -> Result<i64, String> {
        Ok(0)
    }
    fn argv(&mut self) -> Vec<String> {
        vec!["script.py".to_string(), "x".to_string()]
    }
    fn exit(&mut self, _code: Num) {}
    fn open(&mut self, path: &str, _mode: &str) -> Result<u64, String> {
        if path == "missing" {
            return Err("No such file or directory (os error 2)".to_string());
        }
        self.files.push(String::new());
        Ok((self.files.len() - 1) as u64)
    }
    fn read(&mut self, file: u64) -> Result<String, String> {
        Ok(self.files[file as usize].clone())
    }
    fn write(&mut self, file: u64, text: &str) -> Result<(), String> {
        self.files[file as usize].push_str(text);
        Ok(())
    }
    fn close(&mut self, _file: u64) {}
    fn read_source(&mut self, path: &str) -> Option<String> {
        self.sources.iter().find(|(p, _)| p == path).map(|(_, s)| s.clone())
    }
}

fn run_py4_with(src: &str, sources: Vec<(String, String)>) -> (Vec<String>, Result<(), String>) {
    let ts = match lex_source(src, Dialect::Py4) {
        Ok(t) => t,
        Err(_) => panic!("the script does not scan"),
    };
    let m = match parse_program(&ts, Dialect::Py4) {
        Ok(m) => m,
        Err(_) => panic!("the script does not parse"),
    };
    let mut h = Recorder { lines: vec![], sources, files: vec![] };
    let r = match run(&mut h, &m) {
        Ok(()) => Ok(()),
        Err(Stop::Error(e)) => Err(e),
        Err(Stop::Panic(p)) => Err(format!("panic: {}", p)),
    };
    (h.lines, r)
}

fn run_py4(src: &str) -> (Vec<String>, Result<(), String>) {
    run_py4_with(src, vec![])
}

fn strs(xs: &[&str]) -> Vec<String> {
    xs.iter().map(|s| s.to_string()).collect()
}

#[test]
fn py4_classes_methods_and_inheritance() {
    let src = "class A:\n    def __init__(self, x):\n        self.x = x\n    def get(self):\n        return self.x\n    def __str__(self):\n        return \"A(\" + str(self.x) + \")\"\nclass B(A):\n    def get(self):\n        return self.x * 2\nb = B(4)\nprint(b.get(), A(1).get())\nprint(b)\nprint(isinstance(b, A), isinstance(A(1), B))\n";
    let (out, r) = run_py4(src);
    assert_eq!(r, Ok(()));
    assert_eq!(out, strs(&["8 1", "A(4)", "True False"]));
}

#[test]
fn py4_try_except_picks_the_first_matching_handler() {
    let src = "try:\n    x = [1][3]\nexcept KeyError:\n    print(\"key\")\nexcept IndexError as e:\n    print(\"index\", e)\ntry:\n    raise ValueError(\"bad\")\nexcept Exception as e:\n    print(e)\n";
    let (out, r) = run_py4(src);
    assert_eq!(r, Ok(()));
    assert_eq!(out, strs(&["index IndexError(list index out of range)", "ValueError(bad)"]));
}

#[test]
fn py4_uncaught_exception_ends_the_run() {
    let (out, r) = run_py4("d = {\"a\": 1}\nprint(d[\"a\"])\nprint(d[\"zz\"])\n");
    assert_eq!(out, strs(&["1"]));
    assert_eq!(r, Err("KeyError(zz)".to_string()));
    let (_, r) = run_py4("print(y)\n");
    assert_eq!(r, Err("NameError(name 'y' is not defined)".to_string()));
}

#[test]
fn py4_short_circuit_skips_the_right_operand() {
    let src = "def f():\n    print(\"called\")\n    return 2\nprint(0 and f())\nprint(3 or f())\nprint(None or f())\n";
    let (out, r) = run_py4(src);
    assert_eq!(r, Ok(()));
    assert_eq!(out, strs(&["0", "3", "called", "2"]));
}

#[test]
fn py4_loops_break_continue_range_append() {
    let src = "xs = []\nfor i in range(8):\n    if i % 2 == 0:\n        continue\n    if i > 5:\n        break\n    xs.append(i)\nprint(xs, len(xs))\nn = 0\nwhile True:\n    n += 1\n    if n == 3:\n        break\nprint(n)\n";
    let (out, r) = run_py4(src);
    assert_eq!(r, Ok(()));
    assert_eq!(out, strs(&["[1, 3, 5] 3", "3"]));
}

#[test]
fn py4_comprehensions_lambdas_and_closures() {
    let src = "sq = [x * x for x in range(5) if x % 2 == 1]\nprint(sq)\nadd = lambda a, b: a + b\nprint(add(2, 3))\ndef counter():\n    n = 10\n    def inc(k):\n        return n + k\n    return inc\nprint(counter()(5))\n";
    let (out, r) = run_py4(src);
    assert_eq!(r, Ok(()));
    assert_eq!(out, strs(&["[1, 9]", "5", "15"]));
}

#[test]
fn py4_keyword_and_star_arguments() {
    let src = "def f(a, b=2, *rest, **kw):\n    print(a, b, rest, kw)\nf(1)\nf(1, 3, 4, 5)\nf(a=7, z=1)\n";
    let (out, r) = run_py4(src);
    assert_eq!(r, Ok(()));
    assert_eq!(out, strs(&["1 2 () {}", "1 3 (4, 5) {}", "7 2 () {'z': 1}"]));
}

#[test]
fn py4_unpacking_is_checked_before_binding() {
    let src = "a, b = (1, 2)\nprint(a, b)\ntry:\n    a, b = [5, 6, 7]\nexcept ValueError as e:\n    print(e, a, b)\n";
    let (out, r) = run_py4(src);
    assert_eq!(r, Ok(()));
    assert_eq!(out, strs(&["1 2", "ValueError(too many/few values to unpack (expected 2, got 3)) 1 2"]));
}

#[test]
fn py4_fstrings_and_string_methods() {
    let src = "name = \"ab\"\nprint(f\"hi {name} {1 + 2}\")\nparts = \"a,b,c\".split(\",\")\nprint(parts, \"-\".join(parts))\nprint(type(parts), type(1), type(\"s\"))\n";
    let (out, r) = run_py4(src);
    assert_eq!(r, Ok(()));
    assert_eq!(out, strs(&["hi ab 3", "['a', 'b', 'c'] a-b-c", "<class 'list'> <class 'int'> <class 'str'>"]));
}

#[test]
fn py4_native_modules_and_json() {
    let src = "import math\nprint(math.sqrt(16.0))\nfrom json import dumps, loads\nprint(dumps([1, \"a\", None]))\nd = loads(\"{\\\"k\\\": [1, 2]}\")\nprint(d[\"k\"])\nimport sys\nprint(sys.argv)\nimport os\nprint(os.getenv(\"HOME\"), os.getenv(\"NOPE\", \"dflt\"))\n";
    let (out, r) = run_py4(src);
    assert_eq!(r, Ok(()));
    assert_eq!(
        out,
        strs(&["4", "[1, \"a\", null]", "[1, 2]", "['script.py', 'x']", "/home/test dflt"])
    );
}

#[test]
fn py4_modules_load_from_source_files() {
    let sources = vec![("./helper.py".to_string(), "def twice(x):\n    return x * 2\nK = 7\n".to_string())];
    let (out, r) = run_py4_with("import helper\nprint(helper.twice(helper.K))\n", sources);
    assert_eq!(r, Ok(()));
    assert_eq!(out, strs(&["14"]));
    let (_, r) = run_py4("import nothing_here\n");
    assert_eq!(r, Err("ImportError(No module named 'nothing_here')".to_string()));
}

#[test]
fn py4_files_through_the_host() {
    let src = "f = open(\"out.txt\", \"w\")\nprint(f.write(\"hello\"))\nf.close()\ntry:\n    f.write(\"x\")\nexcept ValueError as e:\n    print(e)\ntry:\n    open(\"missing\")\nexcept IOError:\n    print(\"no file\")\n";
    let (out, r) = run_py4(src);
    assert_eq!(r, Ok(()));
    assert_eq!(out, strs(&["5", "ValueError(I/O operation on closed file.)", "no file"]));
}

#[test]
fn py4_arithmetic_errors_and_faults() {
    let (out, r) = run_py4("print(7 / 2, 7 % 3, -7 % 3)\ntry:\n    print(1 / 0)\nexcept ZeroDivisionError as e:\n    print(e)\n");
    assert_eq!(r, Ok(()));
    assert_eq!(out, strs(&["3.5 1 -1", "ZeroDivisionError(division by zero)"]));
    let (_, r) = run_py4("print(9223372036854775807 * 2)\n");
    assert_eq!(r, Err("panic: attempt to multiply with overflow".to_string()));
}

#[test]
fn py4_item_assignment_and_tuples() {
    let src = "xs = [1, 2, 3]\nxs[1] = 9\nd = {}\nd[\"k\"] = xs\nprint(d)\nt = (1, 2)\ntry:\n    t[0] = 5\nexcept TypeError as e:\n    print(e)\nprint(t[1], len(t))\n";
    let (out, r) = run_py4(src);
    assert_eq!(r, Ok(()));
    assert_eq!(
        out,
        strs(&["{'k': [1, 9, 3]}", "TypeError(tuple object does not support item assignment)", "2 2"])
    );
}

#[test]
fn py4_range_and_isinstance_arguments() {
    let (out, r) = run_py4("print(range(3), range(-2))\n");
    assert_eq!(r, Ok(()));
    assert_eq!(out, strs(&["[0, 1, 2] []"]));
    let (_, r) = run_py4("range(1.5)\n");
    assert_eq!(r, Err("TypeError(range() integer argument expected)".to_string()));
    let (_, r) = run_py4("isinstance(1, 2)\n");
    assert_eq!(r, Err("TypeError(isinstance() arg 2 must be a type)".to_string()));
    let (_, r) = run_py4("isinstance(1)\n");
    assert_eq!(r, Err("TypeError(isinstance expected 2 arguments)".to_string()));
}

#[test]
fn py4_defaults_keywords_and_binding_errors() {
    let src = "def f(a, b=2):\n    return a - b\nprint(f(10), f(10, b=3), f(b=5, a=1))\n";
    let (out, r) = run_py4(src);
    assert_eq!(r, Ok(()));
    assert_eq!(out, strs(&["8 7 -4"]));
    let (_, r) = run_py4("def f(a, b=2):\n    return a - b\nf(1, a=2)\n");
    assert_eq!(r, Err("TypeError(f() got multiple values for argument 'a')".to_string()));
}

#[test]
fn py4_subscript_errors_and_float_remainder() {
    let (_, r) = run_py4("[1, 2][-1]\n");
    assert_eq!(r, Err("IndexError(list index out of range)".to_string()));
    let (_, r) = run_py4("{\"a\": 1}[\"b\"]\n");
    assert_eq!(r, Err("KeyError(b)".to_string()));
    let (out, r) = run_py4("print(7.5 % 2, False and undefined())\nx = 3\nprint(f\"x={x}!\")\n");
    assert_eq!(r, Ok(()));
    assert_eq!(out, strs(&["1 False", "x=3!"]));
}
