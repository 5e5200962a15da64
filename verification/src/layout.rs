use vstd::prelude::*;

use crate::lexer::{
    bracket_delta, close_blocks, dec_value, dedent, digits_end, ident_end, indent_of, indent_step,
    initial_state, keyword, lead_end, lemma_digits_end, lemma_ident_end, lemma_line_end,
    lemma_str_body, lex_from, lex_line, lex_spec, line_end, line_text, op1, op2, push_tok, scan,
    str_body, LexState,
};
use crate::text::{is_ascii_ws, is_digit, is_ident_start};
use crate::token::{Dialect, Sym, Token, TokenKind};

verus! {

/// How a token changes the block depth: `Indent` opens a block, `Dedent`
/// closes one.
pub open spec fn depth_delta(k: TokenKind<Seq<char>>) -> int {
    if k == TokenKind::<Seq<char>>::Sym(Sym::Indent) {
        1
    } else if k == TokenKind::<Seq<char>>::Sym(Sym::Dedent) {
        -1
    } else {
        0
    }
}

/// The number of blocks open after the tokens `ts`.
pub open spec fn depth(ts: Seq<Token<Seq<char>>>) -> int
    decreases ts.len(),
{
    if ts.len() == 0 {
        0
    } else {
        depth(ts.drop_last()) + depth_delta(ts.last().kind)
    }
}

/// No prefix of `ts` closes more blocks than it opened.
pub open spec fn nested(ts: Seq<Token<Seq<char>>>) -> bool {
    forall|k: int| 0 <= k <= ts.len() ==> depth(#[trigger] ts.take(k)) >= 0
}

/// `ts` holds no `Eof`.
pub open spec fn eof_free(ts: Seq<Token<Seq<char>>>) -> bool {
    forall|k: int| 0 <= k < ts.len() ==> !(#[trigger] ts[k]).kind.is_sym(Sym::Eof)
}

/// The tokens of `ts` come in the order of their lines.
pub open spec fn lines_ordered(ts: Seq<Token<Seq<char>>>) -> bool {
    forall|i: int, j: int| 0 <= i <= j < ts.len() ==> (#[trigger] ts[i]).line <= (#[trigger] ts[j]).line
}

/// Every token of `ts` is on a line from 1 to `line`.
pub open spec fn lines_within(ts: Seq<Token<Seq<char>>>, line: int) -> bool {
    forall|k: int| 0 <= k < ts.len() ==> 1 <= (#[trigger] ts[k]).line <= line
}

/// What holds of the scanner's state between any two steps: the outermost
/// indentation is 0, the open blocks match the indentation stack, and the
/// tokens so far are in line order, none past the current line.
pub open spec fn layout_inv(st: LexState) -> bool {
    &&& 1 <= st.line <= usize::MAX
    &&& lines_ordered(st.toks)
    &&& lines_within(st.toks, st.line)
    &&& st.stack.len() >= 1
    &&& st.stack[0] == 0
    &&& eof_free(st.toks)
    &&& nested(st.toks)
    &&& depth(st.toks) == st.stack.len() - 1
}

proof fn lemma_push(ts: Seq<Token<Seq<char>>>, t: Token<Seq<char>>)
    ensures
        depth(ts.push(t)) == depth(ts) + depth_delta(t.kind),
        nested(ts) && depth(ts) + depth_delta(t.kind) >= 0 ==> nested(ts.push(t)),
        eof_free(ts) && !t.kind.is_sym(Sym::Eof) ==> eof_free(ts.push(t)),
        lines_ordered(ts) && lines_within(ts, t.line as int) && t.line >= 1 ==> lines_ordered(
            ts.push(t),
        ) && lines_within(ts.push(t), t.line as int),
{
    let n = ts.push(t);
    if lines_ordered(ts) && lines_within(ts, t.line as int) && t.line >= 1 {
        assert forall|i: int, j: int| 0 <= i <= j < n.len() implies (#[trigger] n[i]).line <= (
        #[trigger] n[j]).line by {
            if j < ts.len() {
                assert(n[i] == ts[i] && n[j] == ts[j]);
            } else if i < ts.len() {
                assert(n[i] == ts[i]);
            }
        }
        assert forall|k: int| 0 <= k < n.len() implies 1 <= (#[trigger] n[k]).line <= t.line as int by {
            if k < ts.len() {
                assert(n[k] == ts[k]);
            }
        }
    }
    assert(n.drop_last() =~= ts);
    if nested(ts) && depth(ts) + depth_delta(t.kind) >= 0 {
        assert forall|k: int| 0 <= k <= n.len() implies depth(#[trigger] n.take(k)) >= 0 by {
            if k <= ts.len() {
                assert(n.take(k) =~= ts.take(k));
            } else {
                assert(n.take(k) =~= n);
            }
        }
    }
    if eof_free(ts) && !t.kind.is_sym(Sym::Eof) {
        assert forall|k: int| 0 <= k < n.len() implies !(#[trigger] n[k]).kind.is_sym(Sym::Eof) by {
            if k < ts.len() {
                assert(n[k] == ts[k]);
            }
        }
    }
}

/// Pushing a token that is not a layout token keeps the invariant.
proof fn lemma_push_plain(st: LexState, kind: TokenKind<Seq<char>>, col: int)
    requires
        layout_inv(st),
        !kind.is_sym(Sym::Eof),
        !kind.is_sym(Sym::Indent),
        !kind.is_sym(Sym::Dedent),
    ensures
        layout_inv(push_tok(st, kind, col)),
        push_tok(st, kind, col).stack == st.stack,
{
    lemma_push(st.toks, Token { kind, line: st.line as usize, col: col as usize });
}

proof fn lemma_keyword(d: Dialect, w: Seq<char>)
    ensures
        keyword(d, w) matches Some(k) ==> k != Sym::Eof && k != Sym::Indent && k != Sym::Dedent,
{
}

/// Scanning a line adds no layout token and leaves the indentation stack.
proof fn lemma_scan(d: Dialect, cs: Seq<char>, i: int, st: LexState)
    requires
        layout_inv(st),
    ensures
        scan(d, cs, i, st) matches Ok(s2) ==> layout_inv(s2) && s2.stack == st.stack && s2.line
            == st.line,
    decreases cs.len() - i,
{
    if i < 0 || i >= cs.len() {
    } else {
        let c = cs[i];
        if c == '#' {
        } else if is_ascii_ws(c) {
            lemma_scan(d, cs, i + 1, st);
        } else if d == Dialect::Py4 && (c == 'f' || c == 'F') && i + 1 < cs.len() && (cs[i + 1]
            == '\'' || cs[i + 1] == '"') {
            let body = str_body(cs, i + 2, cs[i + 1], seq![]);
            lemma_str_body(cs, i + 2, cs[i + 1], seq![]);
            if body.1 < cs.len() {
                lemma_push_plain(st, TokenKind::FString(body.0), i + 1);
                lemma_scan(d, cs, body.1 + 1, push_tok(st, TokenKind::FString(body.0), i + 1));
            }
        } else if is_ident_start(c) {
            let j = ident_end(cs, i);
            lemma_ident_end(cs, i + 1);
            let w = cs.subrange(i, j);
            lemma_keyword(d, w);
            let kind = match keyword(d, w) {
                Some(k) => TokenKind::Sym(k),
                None => TokenKind::Name(w),
            };
            lemma_push_plain(st, kind, i + 1);
            lemma_scan(d, cs, j, push_tok(st, kind, i + 1));
        } else if is_digit(c) {
            let j = digits_end(cs, i);
            lemma_digits_end(cs, i + 1);
            if j < cs.len() && cs[j] == '.' {
                let k = digits_end(cs, j + 1);
                lemma_digits_end(cs, j + 1);
                lemma_push_plain(st, TokenKind::Float(cs.subrange(i, k)), i + 1);
                lemma_scan(d, cs, k, push_tok(st, TokenKind::Float(cs.subrange(i, k)), i + 1));
            } else {
                let v = dec_value(cs, i, j);
                if v <= i64::MAX {
                    lemma_push_plain(st, TokenKind::Int(v as i64), i + 1);
                    lemma_scan(d, cs, j, push_tok(st, TokenKind::Int(v as i64), i + 1));
                }
            }
        } else if c == '\'' || c == '"' {
            let body = str_body(cs, i + 1, c, seq![]);
            lemma_str_body(cs, i + 1, c, seq![]);
            if body.1 < cs.len() {
                lemma_push_plain(st, TokenKind::Str(body.0), i + 1);
                lemma_scan(d, cs, body.1 + 1, push_tok(st, TokenKind::Str(body.0), i + 1));
            }
        } else {
            match op2(d, cs, i) {
                Some(k) => {
                    lemma_push_plain(st, TokenKind::Sym(k), i + 1);
                    lemma_scan(d, cs, i + 2, push_tok(st, TokenKind::Sym(k), i + 1));
                },
                None => match op1(d, c) {
                    None => {},
                    Some(k) => {
                        let np = st.paren + bracket_delta(d, k);
                        if !(np > i32::MAX || np < i32::MIN) {
                            let s1 = LexState { paren: np, ..st };
                            lemma_push_plain(s1, TokenKind::Sym(k), i + 1);
                            lemma_scan(d, cs, i + 1, push_tok(s1, TokenKind::Sym(k), i + 1));
                        }
                    },
                },
            }
        }
    }
}

proof fn lemma_indent_of(cs: Seq<char>, n: int)
    ensures
        indent_of(cs, n) >= 0,
    decreases n,
{
    if n > 0 {
        lemma_indent_of(cs, n - 1);
    }
}

/// Closing blocks down to a non-negative indentation keeps the outermost
/// block and the invariant.
proof fn lemma_dedent(st: LexState, indent: int)
    requires
        layout_inv(st),
        indent >= 0,
    ensures
        layout_inv(dedent(st, indent)),
        dedent(st, indent).line == st.line,
    decreases st.stack.len(),
{
    if st.stack.len() > 0 && indent < st.stack.last() {
        let s1 = LexState { stack: st.stack.drop_last(), ..st };
        assert(st.stack.len() >= 2) by {
            if st.stack.len() == 1 {
                assert(st.stack.last() == st.stack[0]);
            }
        }
        lemma_push(s1.toks, Token { kind: TokenKind::Sym(Sym::Dedent), line: s1.line as usize, col: 1 });
        let s2 = push_tok(s1, TokenKind::Sym(Sym::Dedent), 1);
        assert(s2.stack[0] == 0);
        lemma_dedent(s2, indent);
    }
}

proof fn lemma_indent_step(st: LexState, indent: int)
    requires
        layout_inv(st),
        indent >= 0,
    ensures
        indent_step(st, indent) matches Ok(s2) ==> layout_inv(s2) && s2.line == st.line,
{
    if indent > st.stack.last() {
        let s1 = LexState { stack: st.stack.push(indent), ..st };
        lemma_push(s1.toks, Token { kind: TokenKind::Sym(Sym::Indent), line: s1.line as usize, col: 1 });
        assert(s1.stack[0] == 0);
    } else {
        lemma_dedent(st, indent);
    }
}

proof fn lemma_lex_line(d: Dialect, cs: Seq<char>, st: LexState)
    requires
        layout_inv(st),
        st.line < usize::MAX,
    ensures
        lex_line(d, cs, st) matches Ok(s2) ==> layout_inv(s2) && s2.line == st.line + 1,
{
    let col = lead_end(cs, 0);
    if col >= cs.len() || cs[col] == '#' {
        assert(lines_within(st.toks, st.line + 1));
    } else {
        lemma_indent_of(cs, col);
        let r1 = if d == Dialect::Py4 && st.paren != 0 {
            Ok(st)
        } else {
            indent_step(st, indent_of(cs, col))
        };
        if !(d == Dialect::Py4 && st.paren != 0) {
            lemma_indent_step(st, indent_of(cs, col));
        }
        match r1 {
            Err(_) => {},
            Ok(s1) => {
                lemma_scan(d, cs, col, s1);
                match scan(d, cs, col, s1) {
                    Err(_) => {},
                    Ok(s2) => {
                        if !(d == Dialect::Py4 && s2.paren != 0) {
                            lemma_push_plain(s2, TokenKind::Sym(Sym::Newline), cs.len() as int + 1);
                        }
                        let s3 = if d == Dialect::Py4 && s2.paren != 0 {
                            s2
                        } else {
                            push_tok(s2, TokenKind::Sym(Sym::Newline), cs.len() as int + 1)
                        };
                        assert(lines_within(s3.toks, s3.line + 1));
                    },
                }
            },
        }
    }
}

proof fn lemma_lex_from(d: Dialect, src: Seq<char>, i: int, st: LexState)
    requires
        layout_inv(st),
        0 <= i,
        st.line <= i + 1,
        src.len() < usize::MAX / 8,
    ensures
        lex_from(d, src, i, st) matches Ok(s2) ==> layout_inv(s2),
    decreases src.len() - i,
{
    if i < 0 || i >= src.len() {
    } else {
        let e = line_end(src, i);
        lemma_line_end(src, i);
        lemma_lex_line(d, line_text(src, i, e), st);
        match lex_line(d, line_text(src, i, e), st) {
            Err(_) => {},
            Ok(s) => if e < src.len() {
                lemma_lex_from(d, src, e + 1, s);
            },
        }
    }
}

proof fn lemma_close_blocks(st: LexState)
    requires
        layout_inv(st),
    ensures
        layout_inv(close_blocks(st)),
        close_blocks(st).stack.len() == 1,
    decreases st.stack.len(),
{
    if st.stack.len() > 1 {
        let s1 = LexState { stack: st.stack.drop_last(), ..st };
        lemma_push(s1.toks, Token { kind: TokenKind::Sym(Sym::Dedent), line: s1.line as usize, col: 1 });
        let s2 = push_tok(s1, TokenKind::Sym(Sym::Dedent), 1);
        assert(s2.stack[0] == 0);
        lemma_close_blocks(s2);
    }
}

/// Every token stream the lexer produces ends with `Eof`, holds no other
/// `Eof`, has its tokens in the order of their lines (all from line 1 on),
/// and has its blocks well nested: no prefix closes a block it did not
/// open (with `Dedent`), and every block it opens (with `Indent`) is closed
/// by the end.
pub proof fn lemma_lex_layout(d: Dialect, src: Seq<char>)
    requires
        src.len() < usize::MAX / 8,
    ensures
        lex_spec(d, src) matches Ok(ts) ==> {
            &&& ts.len() > 0
            &&& ts.last().kind == TokenKind::<Seq<char>>::Sym(Sym::Eof)
            &&& eof_free(ts.drop_last())
            &&& nested(ts)
            &&& depth(ts) == 0
            &&& lines_ordered(ts)
            &&& forall|k: int| 0 <= k < ts.len() ==> (#[trigger] ts[k]).line >= 1
        },
{
    let st0 = initial_state();
    assert(st0.toks.len() == 0);
    assert(nested(st0.toks)) by {
        assert forall|k: int| 0 <= k <= st0.toks.len() implies depth(#[trigger] st0.toks.take(k)) >= 0 by {
            assert(st0.toks.take(k) =~= Seq::<Token<Seq<char>>>::empty());
        }
    }
    lemma_lex_from(d, src, 0, st0);
    match lex_from(d, src, 0, st0) {
        Err(_) => {},
        Ok(st) => {
            lemma_close_blocks(st);
            let c = close_blocks(st);
            let t = Token { kind: TokenKind::Sym(Sym::Eof), line: c.line as usize, col: 1usize };
            lemma_push(c.toks, t);
            assert(c.toks.push(t).drop_last() =~= c.toks);
        },
    }
}

} // verus!
