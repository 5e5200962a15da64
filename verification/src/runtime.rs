use vstd::prelude::*;

use crate::call::names;
use crate::text::{append_chars, chars_of, decimal, push_decimal, str_eq, string_from_chars, sub_chars};
use crate::value::{is_error, py_err_val, Value};
use crate::token::{Sym, Token, TokenKind};

verus! {

/// Whether an `except` clause naming `types` catches what was raised: a bare
/// clause catches everything; otherwise the raised value must be an
/// exception whose type, or `Exception`, is among `types`.
pub open spec fn catches(types: Seq<Seq<char>>, exc_type: Option<Seq<char>>) -> bool {
    types.len() == 0 || match exc_type {
        Some(t) => types.contains("Exception"@) || types.contains(t),
        None => false,
    }
}

fn contains_str(v: &Vec<String>, s: &str) -> (b: bool)
    ensures
        b == names(v@).contains(s@),
{
    let mut i: usize = 0;
    while i < v.len()
        invariant
            i <= v@.len(),
            forall|j: int| 0 <= j < i ==> v@[j]@ != s@,
        decreases v@.len() - i,
    {
        if str_eq(v[i].as_str(), s) {
            assert(names(v@)[i as int] == s@);
            return true;
        }
        i = i + 1;
    }
    proof {
        if names(v@).contains(s@) {
            let j = choose|j: int| 0 <= j < names(v@).len() && names(v@)[j] == s@;
            assert(v@[j]@ == s@);
        }
    }
    false
}

/// Whether an `except` clause naming `types` catches a raised value whose
/// exception type is `exc_type` (`None`: not an exception).
pub fn handler_catches(types: &Vec<String>, exc_type: &Option<String>) -> (b: bool)
    ensures
        b == catches(
            names(types@),
            match exc_type {
                Some(t) => Some(t@),
                None => None,
            },
        ),
{
    if types.len() == 0 {
        return true;
    }
    match exc_type {
        Some(t) => contains_str(types, "Exception") || contains_str(types, t.as_str()),
        None => false,
    }
}

/// What `range(end)` holds: `0, 1, ..., end - 1`.
pub fn range_values(end: i64) -> (v: Vec<i64>)
    ensures
        v@.len() == if end > 0 {
            end as nat
        } else {
            0
        },
        forall|i: int| 0 <= i < v@.len() ==> v@[i] == i,
{
    let mut v: Vec<i64> = Vec::new();
    let mut i: i64 = 0;
    while i < end
        invariant
            0 <= i,
            end > 0 ==> i <= end,
            end <= 0 ==> i == 0,
            v@.len() == i,
            forall|j: int| 0 <= j < v@.len() ==> v@[j] == j,
        decreases end - i,
    {
        v.push(i);
        i = i + 1;
    }
    v
}

/// The segments of a dotted module name joined with `/`.
pub open spec fn dotted_path(segs: Seq<Seq<char>>) -> Seq<char>
    decreases segs.len(),
{
    if segs.len() == 0 {
        seq![]
    } else if segs.len() == 1 {
        segs[0]
    } else {
        dotted_path(segs.drop_last()) + seq!['/'] + segs.last()
    }
}

/// The two files a module is looked for in under the search directory
/// `base`: `base/a/b.py`, then the package file `base/a/b/__init__.py` (no
/// `base/` prefix where `base` is empty).
pub open spec fn module_files(base: Seq<char>, segs: Seq<Seq<char>>) -> (Seq<char>, Seq<char>) {
    let prefix = if base.len() == 0 {
        seq![]
    } else {
        base + seq!['/']
    };
    (prefix + dotted_path(segs) + ".py"@, prefix + dotted_path(segs) + "/__init__.py"@)
}

/// The module file and the package file for `segs` under `base`.
pub fn module_file_paths(base: &str, segs: &Vec<String>) -> (r: (String, String))
    ensures
        (r.0@, r.1@) == module_files(base@, names(segs@)),
{
    let mut path: Vec<char> = Vec::new();
    let mut i: usize = 0;
    while i < segs.len()
        invariant
            i <= segs@.len(),
            path@ == dotted_path(names(segs@).take(i as int)),
        decreases segs@.len() - i,
    {
        let ghost before = path@;
        if i > 0 {
            path.push('/');
        }
        append_chars(&mut path, chars_of(segs[i].as_str()).as_slice());
        proof {
            let t = names(segs@).take(i + 1);
            assert(t.drop_last() =~= names(segs@).take(i as int));
            assert(t.last() == segs@[i as int]@);
        }
        i = i + 1;
        assert(path@ =~= dotted_path(names(segs@).take(i as int)));
    }
    assert(names(segs@).take(segs@.len() as int) =~= names(segs@));
    let mut file: Vec<char> = Vec::new();
    if !base.is_empty() {
        append_chars(&mut file, chars_of(base).as_slice());
        file.push('/');
    }
    proof {
        if base@.len() == 0 {
            assert(file@ =~= seq![]);
        } else {
            assert(file@ =~= base@ + seq!['/']);
        }
    }
    append_chars(&mut file, path.as_slice());
    let mut pkg: Vec<char> = file.clone();
    append_chars(&mut file, chars_of(".py").as_slice());
    append_chars(&mut pkg, chars_of("/__init__.py").as_slice());
    (string_from_chars(file.as_slice()), string_from_chars(pkg.as_slice()))
}

/// A token with the JSON words `true`, `false` and `null` read as the
/// literals `True`, `False` and `None`.
pub open spec fn json_kind(k: TokenKind<String>) -> TokenKind<String> {
    match k {
        TokenKind::Name(n) => if n@ == "true"@ {
            TokenKind::Sym(Sym::TrueVal)
        } else if n@ == "false"@ {
            TokenKind::Sym(Sym::FalseVal)
        } else if n@ == "null"@ {
            TokenKind::Sym(Sym::NoneVal)
        } else {
            k
        },
        _ => k,
    }
}

/// Rewrites the JSON words of a token stream (see `json_kind`); positions
/// and every other token stay as they are.
pub fn json_literals(tokens: &mut Vec<Token<String>>)
    ensures
        final(tokens)@.len() == old(tokens)@.len(),
        forall|i: int|
            0 <= i < old(tokens)@.len() ==> (#[trigger] final(tokens)@[i]).kind == json_kind(
                old(tokens)@[i].kind,
            ) && final(tokens)@[i].line == old(tokens)@[i].line && final(tokens)@[i].col == old(
                tokens,
            )@[i].col,
{
    let ghost t0 = tokens@;
    let mut i: usize = 0;
    while i < tokens.len()
        invariant
            tokens@.len() == t0.len(),
            i <= t0.len(),
            forall|j: int|
                0 <= j < i ==> (#[trigger] tokens@[j]).kind == json_kind(t0[j].kind)
                    && tokens@[j].line == t0[j].line && tokens@[j].col == t0[j].col,
            forall|j: int| i <= j < t0.len() ==> #[trigger] tokens@[j] == t0[j],
        decreases t0.len() - i,
    {
        let sym = match &tokens[i].kind {
            TokenKind::Name(n) => if str_eq(n.as_str(), "true") {
                Some(Sym::TrueVal)
            } else if str_eq(n.as_str(), "false") {
                Some(Sym::FalseVal)
            } else if str_eq(n.as_str(), "null") {
                Some(Sym::NoneVal)
            } else {
                None
            },
            _ => None,
        };
        if let Some(s) = sym {
            let line = tokens[i].line;
            let col = tokens[i].col;
            tokens.set(i, Token { kind: TokenKind::Sym(s), line, col });
        }
        i = i + 1;
    }
}

/// `parts` joined with `sep` between each two.
pub open spec fn join_spec(sep: Seq<char>, parts: Seq<Seq<char>>) -> Seq<char>
    decreases parts.len(),
{
    if parts.len() == 0 {
        seq![]
    } else if parts.len() == 1 {
        parts[0]
    } else {
        join_spec(sep, parts.drop_last()) + sep + parts.last()
    }
}

/// What `sep.join(parts)` gives for a list of strings.
pub fn join_strs(sep: &str, parts: &Vec<String>) -> (s: String)
    ensures
        s@ == join_spec(sep@, names(parts@)),
{
    let mut out: Vec<char> = Vec::new();
    let mut i: usize = 0;
    while i < parts.len()
        invariant
            i <= parts@.len(),
            out@ == join_spec(sep@, names(parts@).take(i as int)),
        decreases parts@.len() - i,
    {
        if i > 0 {
            append_chars(&mut out, chars_of(sep).as_slice());
        }
        append_chars(&mut out, chars_of(parts[i].as_str()).as_slice());
        proof {
            let t = names(parts@).take(i + 1);
            assert(t.drop_last() =~= names(parts@).take(i as int));
            assert(t.last() == parts@[i as int]@);
        }
        i = i + 1;
        assert(out@ =~= join_spec(sep@, names(parts@).take(i as int)));
    }
    assert(names(parts@).take(parts@.len() as int) =~= names(parts@));
    string_from_chars(out.as_slice())
}

/// The pieces of `s[start..]` cut at each non-overlapping occurrence of
/// `sep` found scanning from `i`, leftmost first.
pub open spec fn split_from(s: Seq<char>, sep: Seq<char>, start: int, i: int) -> Seq<Seq<char>>
    decreases s.len() - i,
{
    if sep.len() == 0 || start < 0 || i < start || i + sep.len() > s.len() {
        seq![s.subrange(start, s.len() as int)]
    } else if s.subrange(i, i + sep.len()) == sep {
        seq![s.subrange(start, i)] + split_from(s, sep, i + sep.len(), i + sep.len())
    } else {
        split_from(s, sep, start, i + 1)
    }
}

/// What `s.split(sep)` gives: the pieces between the occurrences of `sep`;
/// an empty `sep` cuts before and after every character.
pub open spec fn split_spec(s: Seq<char>, sep: Seq<char>) -> Seq<Seq<char>> {
    if sep.len() == 0 {
        seq![Seq::<char>::empty()] + Seq::new(s.len(), |i: int| seq![s[i]]) + seq![
            Seq::<char>::empty(),
        ]
    } else {
        split_from(s, sep, 0, 0)
    }
}

fn matches_at(cs: &Vec<char>, ps: &Vec<char>, i: usize) -> (b: bool)
    requires
        i + ps@.len() <= cs@.len(),
    ensures
        b == (cs@.subrange(i as int, i + ps@.len()) == ps@),
{
    let mut k: usize = 0;
    while k < ps.len()
        invariant
            i + ps@.len() <= cs.len(),
            k <= ps@.len(),
            forall|j: int| 0 <= j < k ==> cs@[i + j] == ps@[j],
        decreases ps@.len() - k,
    {
        if cs[i + k] != ps[k] {
            assert(cs@.subrange(i as int, i + ps@.len())[k as int] != ps@[k as int]);
            return false;
        }
        k = k + 1;
    }
    assert(cs@.subrange(i as int, i + ps@.len()) =~= ps@);
    true
}

/// The pieces of `s` between the occurrences of `sep` (see `split_spec`).
pub fn split_str(s: &str, sep: &str) -> (parts: Vec<String>)
    ensures
        names(parts@) == split_spec(s@, sep@),
{
    let cs = chars_of(s);
    let ps = chars_of(sep);
    let mut parts: Vec<String> = Vec::new();
    if ps.len() == 0 {
        parts.push(String::new());
        let mut i: usize = 0;
        while i < cs.len()
            invariant
                i <= cs@.len(),
                names(parts@) == seq![Seq::<char>::empty()] + Seq::new(
                    i as nat,
                    |j: int| seq![cs@[j]],
                ),
            decreases cs@.len() - i,
        {
            let one: Vec<char> = vec![cs[i]];
            let ghost before = names(parts@);
            assert(one@ =~= seq![cs@[i as int]]);
            parts.push(string_from_chars(one.as_slice()));
            assert(names(parts@) =~= before.push(seq![cs@[i as int]]));
            assert(Seq::new((i + 1) as nat, |j: int| seq![cs@[j]]) =~= Seq::new(
                i as nat,
                |j: int| seq![cs@[j]],
            ).push(seq![cs@[i as int]]));
            i = i + 1;
            assert(names(parts@) =~= seq![Seq::<char>::empty()] + Seq::new(
                i as nat,
                |j: int| seq![cs@[j]],
            ));
        }
        parts.push(String::new());
        assert(names(parts@) =~= split_spec(s@, sep@));
        return parts;
    }
    let mut start: usize = 0;
    let mut i: usize = 0;
    while ps.len() <= cs.len() - i
        invariant
            ps@.len() > 0,
            cs@ == s@,
            ps@ == sep@,
            start <= i <= cs@.len(),
            split_from(cs@, ps@, 0, 0) == names(parts@) + split_from(cs@, ps@, start as int, i as int),
        decreases cs@.len() - i,
    {
        if matches_at(&cs, &ps, i) {
            let piece = sub_chars(&cs, start, i);
            let ghost before = names(parts@);
            let ghost x = cs@.subrange(start as int, i as int);
            parts.push(string_from_chars(piece.as_slice()));
            assert(names(parts@) =~= before.push(x));
            i = i + ps.len();
            start = i;
            let ghost rest = split_from(cs@, ps@, start as int, i as int);
            assert(before.push(x) + rest =~= before + (seq![x] + rest));
        } else {
            i = i + 1;
        }
    }
    let piece = sub_chars(&cs, start, cs.len());
    let ghost before = names(parts@);
    parts.push(string_from_chars(piece.as_slice()));
    assert(names(parts@) =~= before + seq![cs@.subrange(start as int, cs@.len() as int)]);
    parts
}

/// The first index at or after `from` where `s` holds `c`, or the length of
/// `s` where there is none.
pub open spec fn next_char(s: Seq<char>, c: char, from: int) -> int
    decreases s.len() - from,
{
    if from < 0 || from >= s.len() {
        s.len() as int
    } else if s[from] == c {
        from
    } else {
        next_char(s, c, from + 1)
    }
}

pub proof fn lemma_next_char(s: Seq<char>, c: char, from: int)
    requires
        0 <= from,
    ensures
        from <= s.len() ==> from <= next_char(s, c, from) <= s.len(),
        from > s.len() ==> next_char(s, c, from) == s.len(),
    decreases s.len() - from,
{
    if from < s.len() && s[from] != c {
        lemma_next_char(s, c, from + 1);
    }
}

/// The parts of an f-string template: runs of literal text (`false`) and the
/// source of each `{...}` expression (`true`); a `{` without its `}` takes
/// the rest of the template.
pub open spec fn fparts(s: Seq<char>) -> Seq<(bool, Seq<char>)>
    decreases s.len(),
{
    if s.len() == 0 {
        seq![]
    } else if s[0] == '{' {
        let close = next_char(s, '}', 1);
        proof {
            lemma_next_char(s, '}', 1);
        }
        let rest = if close < s.len() {
            s.subrange(close + 1, s.len() as int)
        } else {
            seq![]
        };
        seq![(true, s.subrange(1, close))] + fparts(rest)
    } else {
        let j = next_char(s, '{', 0);
        proof {
            lemma_next_char(s, '{', 1);
            assert(j == next_char(s, '{', 1));
        }
        seq![(false, s.subrange(0, j))] + fparts(s.subrange(j, s.len() as int))
    }
}

/// A part of an f-string template.
#[derive(Clone, Debug, PartialEq)]
pub enum FPart {
    Text(String),
    Code(String),
}

pub open spec fn fpart_view(p: FPart) -> (bool, Seq<char>) {
    match p {
        FPart::Text(t) => (false, t@),
        FPart::Code(c) => (true, c@),
    }
}

pub open spec fn fparts_view(v: Seq<FPart>) -> Seq<(bool, Seq<char>)> {
    v.map_values(|p: FPart| fpart_view(p))
}

proof fn lemma_next_char_shift(s: Seq<char>, c: char, p: int, k: int)
    requires
        0 <= p <= s.len(),
        0 <= k,
    ensures
        next_char(s.subrange(p, s.len() as int), c, k) == next_char(s, c, p + k) - p,
    decreases s.len() - (p + k),
{
    let t = s.subrange(p, s.len() as int);
    if p + k < s.len() && s[p + k] != c {
        assert(t[k] == s[p + k]);
        lemma_next_char_shift(s, c, p, k + 1);
    } else if p + k < s.len() {
        assert(t[k] == s[p + k]);
    }
}

fn find_char(cs: &Vec<char>, c: char, from: usize) -> (r: usize)
    requires
        from <= cs@.len(),
    ensures
        r == next_char(cs@, c, from as int),
        from <= r <= cs@.len(),
{
    let mut i = from;
    while i < cs.len()
        invariant
            from <= i <= cs@.len(),
            next_char(cs@, c, from as int) == next_char(cs@, c, i as int),
        decreases cs@.len() - i,
    {
        if cs[i] == c {
            return i;
        }
        i = i + 1;
    }
    i
}

/// Cuts an f-string template into its parts (see `fparts`).
pub fn fstring_parts(s: &str) -> (v: Vec<FPart>)
    ensures
        fparts_view(v@) == fparts(s@),
{
    let cs = chars_of(s);
    let mut v: Vec<FPart> = Vec::new();
    let mut p: usize = 0;
    assert(cs@.subrange(0, cs@.len() as int) =~= cs@);
    assert(fparts_view(v@) + fparts(cs@) =~= fparts(cs@));
    while p < cs.len()
        invariant
            cs@ == s@,
            p <= cs@.len(),
            fparts(cs@) == fparts_view(v@) + fparts(cs@.subrange(p as int, cs@.len() as int)),
        decreases cs@.len() - p,
    {
        let ghost t = cs@.subrange(p as int, cs@.len() as int);
        let ghost before = fparts_view(v@);
        if cs[p] == '{' {
            let close = find_char(&cs, '}', p + 1);
            proof {
                lemma_next_char_shift(cs@, '}', p as int, 1);
                assert(t.subrange(1, close - p) =~= cs@.subrange(p + 1, close as int));
            }
            let code = sub_chars(&cs, p + 1, close);
            v.push(FPart::Code(string_from_chars(code.as_slice())));
            assert(fparts_view(v@) =~= before.push((true, code@)));
            let ghost p0 = p as int;
            if close < cs.len() {
                p = close + 1;
                assert(t.subrange(close + 1 - p0, t.len() as int) =~= cs@.subrange(
                    p as int,
                    cs@.len() as int,
                ));
            } else {
                p = close;
                assert(cs@.subrange(p as int, cs@.len() as int) =~= Seq::<char>::empty());
            }
        } else {
            let j = find_char(&cs, '{', p);
            proof {
                lemma_next_char_shift(cs@, '{', p as int, 0);
            }
            let text = sub_chars(&cs, p, j);
            v.push(FPart::Text(string_from_chars(text.as_slice())));
            assert(fparts_view(v@) =~= before.push((false, text@)));
            assert(t.subrange(0, j - p) =~= text@);
            assert(t.subrange(j - p, t.len() as int) =~= cs@.subrange(j as int, cs@.len() as int));
            p = j;
        }
    }
    assert(cs@.subrange(p as int, cs@.len() as int) =~= Seq::<char>::empty());
    assert(fparts_view(v@) + Seq::<(bool, Seq<char>)>::empty() =~= fparts_view(v@));
    v
}

proof fn lemma_join_front(sep: Seq<char>, x: Seq<char>, rest: Seq<Seq<char>>)
    requires
        rest.len() >= 1,
    ensures
        join_spec(sep, seq![x] + rest) == x + sep + join_spec(sep, rest),
    decreases rest.len(),
{
    let all = seq![x] + rest;
    if rest.len() == 1 {
        assert(all.drop_last() =~= seq![x]);
        assert(all.last() == rest[0]);
        assert(join_spec(sep, seq![x]) == x);
        assert(join_spec(sep, rest) == rest[0]);
        assert(join_spec(sep, all) == x + sep + rest[0]);
    } else {
        lemma_join_front(sep, x, rest.drop_last());
        assert(all.drop_last() =~= seq![x] + rest.drop_last());
        assert(all.last() == rest.last());
        assert(join_spec(sep, all) == join_spec(sep, all.drop_last()) + sep + all.last());
        assert(join_spec(sep, rest) == join_spec(sep, rest.drop_last()) + sep + rest.last());
        assert(join_spec(sep, all) =~= x + sep + join_spec(sep, rest));
    }
}

proof fn lemma_join_split_from(s: Seq<char>, sep: Seq<char>, start: int, i: int)
    requires
        sep.len() > 0,
        0 <= start <= i <= s.len(),
    ensures
        split_from(s, sep, start, i).len() >= 1,
        join_spec(sep, split_from(s, sep, start, i)) == s.subrange(start, s.len() as int),
    decreases s.len() - i,
{
    if i + sep.len() > s.len() {
    } else if s.subrange(i, i + sep.len()) == sep {
        let rest = split_from(s, sep, i + sep.len(), i + sep.len());
        lemma_join_split_from(s, sep, i + sep.len(), i + sep.len());
        lemma_join_front(sep, s.subrange(start, i), rest);
        assert(s.subrange(start, i) + sep + s.subrange(i + sep.len(), s.len() as int) =~= s.subrange(
            start,
            s.len() as int,
        ));
    } else {
        lemma_join_split_from(s, sep, start, i + 1);
    }
}

proof fn lemma_join_chars(s: Seq<char>, k: int)
    requires
        0 <= k <= s.len(),
    ensures
        join_spec(
            Seq::<char>::empty(),
            seq![Seq::<char>::empty()] + Seq::new(k as nat, |i: int| seq![s[i]]),
        ) == s.take(k),
    decreases k,
{
    let p = seq![Seq::<char>::empty()] + Seq::new(k as nat, |i: int| seq![s[i]]);
    if k == 0 {
        assert(p =~= seq![Seq::<char>::empty()]);
        assert(s.take(0) =~= Seq::<char>::empty());
    } else {
        lemma_join_chars(s, k - 1);
        assert(p.drop_last() =~= seq![Seq::<char>::empty()] + Seq::new(
            (k - 1) as nat,
            |i: int| seq![s[i]],
        ));
        assert(p.last() == seq![s[k - 1]]);
        assert(s.take(k - 1) + Seq::<char>::empty() + seq![s[k - 1]] =~= s.take(k));
    }
}

/// Joining the pieces of `s.split(sep)` with `sep` gives `s` back.
pub proof fn lemma_join_split(s: Seq<char>, sep: Seq<char>)
    ensures
        join_spec(sep, split_spec(s, sep)) == s,
{
    if sep.len() == 0 {
        let body = seq![Seq::<char>::empty()] + Seq::new(s.len(), |i: int| seq![s[i]]);
        let all = body + seq![Seq::<char>::empty()];
        lemma_join_chars(s, s.len() as int);
        assert(sep =~= Seq::<char>::empty());
        assert(split_spec(s, sep) == all);
        assert(all.drop_last() =~= body);
        assert(all.last() == Seq::<char>::empty());
        assert(s.take(s.len() as int) =~= s);
        assert(join_spec(sep, all) == join_spec(sep, body) + sep + Seq::<char>::empty());
        assert(s + Seq::<char>::empty() + Seq::<char>::empty() =~= s);
    } else {
        lemma_join_split_from(s, sep, 0, 0);
        assert(s.subrange(0, s.len() as int) =~= s);
    }
}

pub open spec fn unpack_msg(expected: nat, got: nat) -> Seq<char> {
    "too many/few values to unpack (expected "@ + decimal(expected) + ", got "@ + decimal(got)
        + ")"@
}

/// Unpacking `got` values into `expected` targets: fine where the counts
/// agree, a `ValueError` naming both otherwise.
pub fn check_unpack(expected: usize, got: usize) -> (r: Result<(), Value>)
    ensures
        expected == got ==> r is Ok,
        expected != got ==> (r matches Err(e) && is_error(
            e,
            "ValueError"@,
            unpack_msg(expected as nat, got as nat),
        )),
{
    if expected == got {
        return Ok(());
    }
    let mut m = chars_of("too many/few values to unpack (expected ");
    push_decimal(&mut m, expected as u64);
    append_chars(&mut m, chars_of(", got ").as_slice());
    push_decimal(&mut m, got as u64);
    append_chars(&mut m, chars_of(")").as_slice());
    assert(m@ =~= unpack_msg(expected as nat, got as nat));
    let text = string_from_chars(m.as_slice());
    Err(py_err_val("ValueError", text.as_str()))
}

/// The `NameError` of reading the undefined name `n`.
pub fn name_error(n: &str) -> (e: Value)
    ensures
        is_error(e, "NameError"@, "name '"@ + n@ + "' is not defined"@),
{
    let mut m = chars_of("name '");
    append_chars(&mut m, chars_of(n).as_slice());
    append_chars(&mut m, chars_of("' is not defined").as_slice());
    let text = string_from_chars(m.as_slice());
    py_err_val("NameError", text.as_str())
}

} // verus!
