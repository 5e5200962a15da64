# Three small Python interpreters, verified

The interpreters read Python-like scripts at three levels:

- `Py0i`: functions, `if`/`else`, `while`, integers, floats and strings;
- `Basic`: adds `for`, `elif`, `break`/`continue`, `and`/`or`/`not`, lists,
  dictionaries and `+=`/`-=`;
- `Py4`: adds classes, `try`/`except`/`raise`, modules, lambdas, f-strings,
  keyword and `*args`/`**kwargs` arguments, tuples and list comprehensions.

## Layout

`src/` is the library, verified with Verus:

- `text`, `token`: characters, decimal digits, tokens and dialects;
- `lexer`: the scanner, specified line by line (`lex_spec`); `layout` proves
  that every token stream ends with one `Eof`, has balanced blocks and
  non-decreasing line numbers;
- `ast`, `parser`: the syntax tree and a recursive-descent parser whose every
  method is specified by a spec function of the grammar (`p_expr`,
  `p_stmt`, ...), one per dialect where the dialects differ; `source` joins
  scanning and parsing;
- `messages`: the texts of the scanner's and the parser's errors;
- `value`, `ops`, `call`, `runtime`, `vars`: printing and JSON forms of
  values, keys, type names, integer arithmetic, argument binding, `except`
  matching, module file names, `str.split`/`str.join`, f-string templates,
  and the variable table of one scope;
- `scopes`: all the scopes of a run (and the method tables of classes) as
  an arena of tables nested by index, with lookup through the chain of
  parents and assignment to the nearest binding;
- `control`: the evaluators' decisions: block and loop status, `and`/`or`
  short-circuiting, index bounds, the handler that catches an exception,
  receiver-first arguments of bound methods, and module search paths;
- `py0i`, `basic`, `py4`: the three evaluators. Each keeps what a run makes
  (scopes, lists, dictionaries, tuples, functions, classes, objects, files)
  in a store addressed by index, and asks a host, through a trait, for what
  the library cannot do: printing, floating-point arithmetic (floats travel
  as the bits of an `f64`), files, the clock, the environment and other
  programs. Evaluation nests to a bounded depth and a loop runs a bounded
  number of times; both bounds are `u64::MAX`.

`app/` is the command-line program: it reads the script, parses it with the
library, and runs the library's evaluator with a host that prints, computes
on floats and reaches the file system. The dialect is chosen by the name the
program runs under (`py0i`, `py4_1_basic`, `py4`).

`tests/` exercises the library on concrete programs and values.
