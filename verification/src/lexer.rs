use vstd::prelude::*;

use crate::text::{
    ascii_ws, chars_equal, chars_of, digit, ident_char, ident_start, is_ascii_ws, is_digit,
    is_ident_char, is_ident_start, string_from_chars, sub_chars,
};
use crate::token::{view_tokens, Dialect, Sym, Token, TokenKind};

verus! {

/// Why a source text could not be split into tokens. Each carries the
/// 1-based line on which the problem was found.
#[derive(Clone, Copy, PartialEq, Eq, Structural, Debug)]
pub enum LexError {
    /// A line is indented to a width that no enclosing block uses.
    IndentMismatch(usize),
    /// A string literal runs to the end of its line.
    UnterminatedString(usize),
    /// An f-string literal runs to the end of its line.
    UnterminatedFString(usize),
    /// A character that starts no token.
    UnexpectedChar(char, usize),
    /// A decimal integer literal above `i64::MAX`; the interpreter stops
    /// (panics) on such a literal.
    IntLiteralTooLarge(usize),
    /// More unclosed (or more unopened) brackets than an `i32` counts; the
    /// interpreter stops (panics) there.
    BracketDepthOverflow(usize),
}

/// The state of the scanner between lines: the tokens so far, the stack of
/// open indentation widths, the current line number and the bracket depth.
pub struct LexState {
    pub toks: Seq<Token<Seq<char>>>,
    pub stack: Seq<int>,
    pub line: int,
    pub paren: int,
}

pub open spec fn initial_state() -> LexState {
    LexState { toks: seq![], stack: seq![0], line: 1, paren: 0 }
}

pub open spec fn push_tok(st: LexState, kind: TokenKind<Seq<char>>, col: int) -> LexState {
    LexState {
        toks: st.toks.push(Token { kind, line: st.line as usize, col: col as usize }),
        ..st
    }
}

pub open spec fn next_line(st: LexState) -> LexState {
    LexState { line: st.line + 1, ..st }
}

/// The keyword that `w` spells in dialect `d`, if any.
pub open spec fn keyword(d: Dialect, w: Seq<char>) -> Option<Sym> {
    if w == seq!['d', 'e', 'f'] {
        Some(Sym::Def)
    } else if w == seq!['i', 'f'] {
        Some(Sym::If)
    } else if w == seq!['e', 'l', 's', 'e'] {
        Some(Sym::Else)
    } else if w == seq!['w', 'h', 'i', 'l', 'e'] {
        Some(Sym::While)
    } else if w == seq!['r', 'e', 't', 'u', 'r', 'n'] {
        Some(Sym::Return)
    } else if w == seq!['p', 'a', 's', 's'] {
        Some(Sym::Pass)
    } else if d == Dialect::Py0i {
        None
    } else if w == seq!['e', 'l', 'i', 'f'] {
        Some(Sym::Elif)
    } else if w == seq!['f', 'o', 'r'] {
        Some(Sym::For)
    } else if w == seq!['i', 'n'] {
        Some(Sym::In)
    } else if w == seq!['b', 'r', 'e', 'a', 'k'] {
        Some(Sym::Break)
    } else if w == seq!['c', 'o', 'n', 't', 'i', 'n', 'u', 'e'] {
        Some(Sym::Continue)
    } else if w == seq!['a', 'n', 'd'] {
        Some(Sym::And)
    } else if w == seq!['o', 'r'] {
        Some(Sym::Or)
    } else if w == seq!['n', 'o', 't'] {
        Some(Sym::Not)
    } else if w == seq!['N', 'o', 'n', 'e'] {
        Some(Sym::NoneVal)
    } else if w == seq!['T', 'r', 'u', 'e'] {
        Some(Sym::TrueVal)
    } else if w == seq!['F', 'a', 'l', 's', 'e'] {
        Some(Sym::FalseVal)
    } else if d == Dialect::Basic {
        None
    } else if w == seq!['c', 'l', 'a', 's', 's'] {
        Some(Sym::Class)
    } else if w == seq!['t', 'r', 'y'] {
        Some(Sym::Try)
    } else if w == seq!['e', 'x', 'c', 'e', 'p', 't'] {
        Some(Sym::Except)
    } else if w == seq!['r', 'a', 'i', 's', 'e'] {
        Some(Sym::Raise)
    } else if w == seq!['a', 's'] {
        Some(Sym::As)
    } else if w == seq!['l', 'a', 'm', 'b', 'd', 'a'] {
        Some(Sym::Lambda)
    } else if w == seq!['i', 'm', 'p', 'o', 'r', 't'] {
        Some(Sym::Import)
    } else if w == seq!['f', 'r', 'o', 'm'] {
        Some(Sym::From)
    } else {
        None
    }
}

/// The two-character operator starting at `cs[i]`, if any.
pub open spec fn op2(d: Dialect, cs: Seq<char>, i: int) -> Option<Sym> {
    if i + 1 < cs.len() {
        let a = cs[i];
        let b = cs[i + 1];
        if a == '=' && b == '=' {
            Some(Sym::Eqeq)
        } else if a == '!' && b == '=' {
            Some(Sym::Ne)
        } else if a == '<' && b == '=' {
            Some(Sym::Le)
        } else if a == '>' && b == '=' {
            Some(Sym::Ge)
        } else if d != Dialect::Py0i && a == '+' && b == '=' {
            Some(Sym::PlusEq)
        } else if d != Dialect::Py0i && a == '-' && b == '=' {
            Some(Sym::MinusEq)
        } else {
            None
        }
    } else {
        None
    }
}

/// The one-character operator or bracket `c`, if any.
pub open spec fn op1(d: Dialect, c: char) -> Option<Sym> {
    if c == '(' {
        Some(Sym::Lparen)
    } else if c == ')' {
        Some(Sym::Rparen)
    } else if c == '[' {
        Some(Sym::Lbracket)
    } else if c == ']' {
        Some(Sym::Rbracket)
    } else if d != Dialect::Py0i && c == '{' {
        Some(Sym::Lbrace)
    } else if d != Dialect::Py0i && c == '}' {
        Some(Sym::Rbrace)
    } else if c == ',' {
        Some(Sym::Comma)
    } else if c == ':' {
        Some(Sym::Colon)
    } else if c == '.' {
        Some(Sym::Dot)
    } else if c == '+' {
        Some(Sym::Plus)
    } else if c == '-' {
        Some(Sym::Minus)
    } else if c == '*' {
        Some(Sym::Star)
    } else if c == '/' {
        Some(Sym::Slash)
    } else if c == '%' {
        Some(Sym::Percent)
    } else if c == '=' {
        Some(Sym::Equal)
    } else if c == '<' {
        Some(Sym::Lt)
    } else if c == '>' {
        Some(Sym::Gt)
    } else {
        None
    }
}

/// How a bracket symbol changes the bracket depth (only `Py4` tracks it).
pub open spec fn bracket_delta(d: Dialect, k: Sym) -> int {
    if d != Dialect::Py4 {
        0
    } else if k == Sym::Lparen || k == Sym::Lbracket || k == Sym::Lbrace {
        1
    } else if k == Sym::Rparen || k == Sym::Rbracket || k == Sym::Rbrace {
        -1
    } else {
        0
    }
}

/// The end of the identifier that continues at `cs[i]`.
pub open spec fn ident_end(cs: Seq<char>, i: int) -> int
    decreases cs.len() - i,
{
    if 0 <= i < cs.len() && is_ident_char(cs[i]) {
        ident_end(cs, i + 1)
    } else {
        i
    }
}

/// The end of the run of decimal digits that continues at `cs[i]`.
pub open spec fn digits_end(cs: Seq<char>, i: int) -> int
    decreases cs.len() - i,
{
    if 0 <= i < cs.len() && is_digit(cs[i]) {
        digits_end(cs, i + 1)
    } else {
        i
    }
}

/// The value of the decimal digits `cs[from..to]`.
pub open spec fn dec_value(cs: Seq<char>, from: int, to: int) -> int
    decreases to - from,
{
    if to <= from {
        0
    } else {
        dec_value(cs, from, to - 1) * 10 + (cs[to - 1] as int - '0' as int)
    }
}

/// What a backslash followed by `c` stands for inside a literal.
pub open spec fn escaped(c: char) -> char {
    if c == 'n' {
        '\n'
    } else if c == 't' {
        '\t'
    } else {
        c
    }
}

/// Reads a quoted literal body from `cs[i]` up to the closing `q`; returns
/// the decoded text (after `acc`) and the index of the closing quote, or
/// the line length when there is none.
pub open spec fn str_body(cs: Seq<char>, i: int, q: char, acc: Seq<char>) -> (Seq<char>, int)
    decreases cs.len() - i,
{
    if i < 0 || i >= cs.len() || cs[i] == q {
        (acc, i)
    } else if cs[i] == '\\' {
        if i + 1 >= cs.len() {
            (acc, i + 1)
        } else {
            str_body(cs, i + 2, q, acc.push(escaped(cs[i + 1])))
        }
    } else {
        str_body(cs, i + 1, q, acc.push(cs[i]))
    }
}

pub proof fn lemma_ident_end(cs: Seq<char>, i: int)
    ensures
        ident_end(cs, i) >= i,
        0 <= i ==> ident_end(cs, i) <= cs.len() || ident_end(cs, i) == i,
    decreases cs.len() - i,
{
    if 0 <= i < cs.len() && is_ident_char(cs[i]) {
        lemma_ident_end(cs, i + 1);
    }
}

pub proof fn lemma_digits_end(cs: Seq<char>, i: int)
    ensures
        digits_end(cs, i) >= i,
        0 <= i ==> digits_end(cs, i) <= cs.len() || digits_end(cs, i) == i,
    decreases cs.len() - i,
{
    if 0 <= i < cs.len() && is_digit(cs[i]) {
        lemma_digits_end(cs, i + 1);
    }
}

pub proof fn lemma_str_body(cs: Seq<char>, i: int, q: char, acc: Seq<char>)
    ensures
        str_body(cs, i, q, acc).1 >= i,
        0 <= i <= cs.len() ==> str_body(cs, i, q, acc).1 <= cs.len(),
    decreases cs.len() - i,
{
    if i < 0 || i >= cs.len() || cs[i] == q {
    } else if cs[i] == '\\' {
        if i + 1 < cs.len() {
            lemma_str_body(cs, i + 2, q, acc.push(escaped(cs[i + 1])));
        }
    } else {
        lemma_str_body(cs, i + 1, q, acc.push(cs[i]));
    }
}

/// Scans the rest of a line from `cs[i]`, appending its tokens to `st`.
pub open spec fn scan(d: Dialect, cs: Seq<char>, i: int, st: LexState) -> Result<LexState, LexError>
    decreases cs.len() - i,
{
    if i < 0 || i >= cs.len() {
        Ok(st)
    } else {
        let c = cs[i];
        if c == '#' {
            Ok(st)
        } else if is_ascii_ws(c) {
            scan(d, cs, i + 1, st)
        } else if d == Dialect::Py4 && (c == 'f' || c == 'F') && i + 1 < cs.len() && (cs[i
            + 1] == '\'' || cs[i + 1] == '"') {
            let body = str_body(cs, i + 2, cs[i + 1], seq![]);
            proof {
                lemma_str_body(cs, i + 2, cs[i + 1], seq![]);
            }
            if body.1 >= cs.len() {
                Err(LexError::UnterminatedFString(st.line as usize))
            } else {
                scan(d, cs, body.1 + 1, push_tok(st, TokenKind::FString(body.0), i + 1))
            }
        } else if is_ident_start(c) {
            let j = ident_end(cs, i);
            proof {
                lemma_ident_end(cs, i + 1);
            }
            let w = cs.subrange(i, j);
            let kind = match keyword(d, w) {
                Some(k) => TokenKind::Sym(k),
                None => TokenKind::Name(w),
            };
            scan(d, cs, j, push_tok(st, kind, i + 1))
        } else if is_digit(c) {
            let j = digits_end(cs, i);
            proof {
                lemma_digits_end(cs, i + 1);
            }
            if j < cs.len() && cs[j] == '.' {
                let k = digits_end(cs, j + 1);
                proof {
                    lemma_digits_end(cs, j + 1);
                }
                scan(d, cs, k, push_tok(st, TokenKind::Float(cs.subrange(i, k)), i + 1))
            } else {
                let v = dec_value(cs, i, j);
                if v > i64::MAX {
                    Err(LexError::IntLiteralTooLarge(st.line as usize))
                } else {
                    scan(d, cs, j, push_tok(st, TokenKind::Int(v as i64), i + 1))
                }
            }
        } else if c == '\'' || c == '"' {
            let body = str_body(cs, i + 1, c, seq![]);
            proof {
                lemma_str_body(cs, i + 1, c, seq![]);
            }
            if body.1 >= cs.len() {
                Err(LexError::UnterminatedString(st.line as usize))
            } else {
                scan(d, cs, body.1 + 1, push_tok(st, TokenKind::Str(body.0), i + 1))
            }
        } else {
            match op2(d, cs, i) {
                Some(k) => scan(d, cs, i + 2, push_tok(st, TokenKind::Sym(k), i + 1)),
                None => match op1(d, c) {
                    None => Err(LexError::UnexpectedChar(c, st.line as usize)),
                    Some(k) => {
                        let np = st.paren + bracket_delta(d, k);
                        if np > i32::MAX || np < i32::MIN {
                            Err(LexError::BracketDepthOverflow(st.line as usize))
                        } else {
                            scan(
                                d,
                                cs,
                                i + 1,
                                push_tok(LexState { paren: np, ..st }, TokenKind::Sym(k), i + 1),
                            )
                        }
                    },
                },
            }
        }
    }
}

/// The end of the leading run of spaces and tabs from `cs[i]`.
pub open spec fn lead_end(cs: Seq<char>, i: int) -> int
    decreases cs.len() - i,
{
    if 0 <= i < cs.len() && (cs[i] == ' ' || cs[i] == '\t') {
        lead_end(cs, i + 1)
    } else {
        i
    }
}

/// The indentation width of `cs[0..n]`: a tab counts 4, a space 1.
pub open spec fn indent_of(cs: Seq<char>, n: int) -> int
    decreases n,
{
    if n <= 0 {
        0
    } else {
        indent_of(cs, n - 1) + if cs[n - 1] == '\t' {
            4int
        } else {
            1int
        }
    }
}

/// Closes every open block wider than `indent`, one `Dedent` each.
pub open spec fn dedent(st: LexState, indent: int) -> LexState
    decreases st.stack.len(),
{
    if st.stack.len() > 0 && indent < st.stack.last() {
        dedent(
            push_tok(LexState { stack: st.stack.drop_last(), ..st }, TokenKind::Sym(Sym::Dedent), 1),
            indent,
        )
    } else {
        st
    }
}

/// Opens or closes blocks for a line indented to `indent`.
pub open spec fn indent_step(st: LexState, indent: int) -> Result<LexState, LexError> {
    if indent > st.stack.last() {
        Ok(push_tok(LexState { stack: st.stack.push(indent), ..st }, TokenKind::Sym(Sym::Indent), 1))
    } else {
        let s2 = dedent(st, indent);
        if s2.stack.len() == 0 || indent != s2.stack.last() {
            Err(LexError::IndentMismatch(st.line as usize))
        } else {
            Ok(s2)
        }
    }
}

/// Tokenizes one source line.
pub open spec fn lex_line(d: Dialect, cs: Seq<char>, st: LexState) -> Result<LexState, LexError> {
    let col = lead_end(cs, 0);
    if col >= cs.len() || cs[col] == '#' {
        Ok(next_line(st))
    } else {
        let r1 = if d == Dialect::Py4 && st.paren != 0 {
            Ok(st)
        } else {
            indent_step(st, indent_of(cs, col))
        };
        match r1 {
            Err(e) => Err(e),
            Ok(s1) => match scan(d, cs, col, s1) {
                Err(e) => Err(e),
                Ok(s2) => {
                    let s3 = if d == Dialect::Py4 && s2.paren != 0 {
                        s2
                    } else {
                        push_tok(s2, TokenKind::Sym(Sym::Newline), cs.len() as int + 1)
                    };
                    Ok(next_line(s3))
                },
            },
        }
    }
}

/// The index of the first line feed at or after `i` (or the length).
pub open spec fn line_end(src: Seq<char>, i: int) -> int
    decreases src.len() - i,
{
    if 0 <= i < src.len() && src[i] != '\n' {
        line_end(src, i + 1)
    } else {
        i
    }
}

pub proof fn lemma_line_end(src: Seq<char>, i: int)
    ensures
        line_end(src, i) >= i,
        0 <= i <= src.len() ==> line_end(src, i) <= src.len(),
    decreases src.len() - i,
{
    if 0 <= i < src.len() && src[i] != '\n' {
        lemma_line_end(src, i + 1);
    }
}

/// The line that starts at `i` and ends at the line feed `e` (or the end of
/// the text), without the carriage return of a `\r\n` ending.
pub open spec fn line_text(src: Seq<char>, i: int, e: int) -> Seq<char> {
    let raw = src.subrange(i, e);
    if e < src.len() && raw.len() > 0 && raw.last() == '\r' {
        raw.drop_last()
    } else {
        raw
    }
}

/// Tokenizes the lines of `src` from index `i` on.
pub open spec fn lex_from(d: Dialect, src: Seq<char>, i: int, st: LexState) -> Result<LexState, LexError>
    decreases src.len() - i,
{
    if i < 0 || i >= src.len() {
        Ok(st)
    } else {
        let e = line_end(src, i);
        proof {
            lemma_line_end(src, i);
        }
        match lex_line(d, line_text(src, i, e), st) {
            Err(x) => Err(x),
            Ok(s) => if e < src.len() {
                lex_from(d, src, e + 1, s)
            } else {
                Ok(s)
            },
        }
    }
}

/// Closes all blocks still open at the end of the text.
pub open spec fn close_blocks(st: LexState) -> LexState
    decreases st.stack.len(),
{
    if st.stack.len() > 1 {
        close_blocks(
            push_tok(LexState { stack: st.stack.drop_last(), ..st }, TokenKind::Sym(Sym::Dedent), 1),
        )
    } else {
        st
    }
}

/// The token stream of `src` in dialect `d`.
pub open spec fn lex_spec(d: Dialect, src: Seq<char>) -> Result<Seq<Token<Seq<char>>>, LexError> {
    match lex_from(d, src, 0, initial_state()) {
        Err(e) => Err(e),
        Ok(st) => Ok(push_tok(close_blocks(st), TokenKind::Sym(Sym::Eof), 1).toks),
    }
}


/// The scanner's running state.
struct Lexer {
    tokens: Vec<Token<String>>,
    stack: Vec<usize>,
    line: usize,
    paren: i32,
}

impl Lexer {
    spec fn view_state(&self) -> LexState {
        LexState {
            toks: view_tokens(self.tokens@),
            stack: self.stack@.map_values(|x: usize| x as int),
            line: self.line as int,
            paren: self.paren as int,
        }
    }

    spec fn wf(&self) -> bool {
        self.stack@.len() > 0 && self.stack@[0] == 0
    }

    fn push(&mut self, kind: TokenKind<String>, col: usize)
        ensures
            final(self).view_state() == push_tok(old(self).view_state(), kind@, col as int),
            final(self).stack == old(self).stack,
            final(self).line == old(self).line,
            final(self).paren == old(self).paren,
    {
        let ghost t0 = self.tokens@;
        let tok = Token { kind, line: self.line, col };
        self.tokens.push(tok);
        proof {
            assert(view_tokens(self.tokens@) =~= view_tokens(t0).push(tok@));
        }
    }

    fn indent_line(&mut self, indent: usize) -> (r: Result<(), LexError>)
        requires
            old(self).wf(),
        ensures
            final(self).line == old(self).line,
            final(self).paren == old(self).paren,
            final(self).wf(),
            match r {
                Ok(_) => indent_step(old(self).view_state(), indent as int) == Ok::<_, LexError>(
                    final(self).view_state(),
                ),
                Err(e) => indent_step(old(self).view_state(), indent as int) == Err::<LexState, _>(e),
            },
    {
        let ghost s0 = self.view_state();
        let top = self.stack[self.stack.len() - 1];
        if indent > top {
            let ghost k0 = self.stack@;
            self.stack.push(indent);
            proof {
                assert(self.stack@.map_values(|x: usize| x as int) =~= k0.map_values(
                    |x: usize| x as int,
                ).push(indent as int));
            }
            self.push(TokenKind::Sym(Sym::Indent), 1);
            return Ok(());
        }
        while indent < self.stack[self.stack.len() - 1]
            invariant
                self.wf(),
                self.line == s0.line,
                self.paren == s0.paren,
                dedent(s0, indent as int) == dedent(self.view_state(), indent as int),
            decreases self.stack@.len(),
        {
            let ghost k0 = self.stack@;
            self.stack.pop();
            proof {
                assert(self.stack@.map_values(|x: usize| x as int) =~= k0.map_values(
                    |x: usize| x as int,
                ).drop_last());
            }
            self.push(TokenKind::Sym(Sym::Dedent), 1);
        }
        if indent != self.stack[self.stack.len() - 1] {
            return Err(LexError::IndentMismatch(self.line));
        }
        Ok(())
    }
}

/// The keyword that `w` spells in dialect `d`, if any.
fn keyword_of(d: Dialect, w: &[char]) -> (r: Option<Sym>)
    ensures
        r == keyword(d, w@),
{
    proof {
        reveal_strlit("");
    }
    if chars_equal(w, &['d', 'e', 'f']) {
        Some(Sym::Def)
    } else if chars_equal(w, &['i', 'f']) {
        Some(Sym::If)
    } else if chars_equal(w, &['e', 'l', 's', 'e']) {
        Some(Sym::Else)
    } else if chars_equal(w, &['w', 'h', 'i', 'l', 'e']) {
        Some(Sym::While)
    } else if chars_equal(w, &['r', 'e', 't', 'u', 'r', 'n']) {
        Some(Sym::Return)
    } else if chars_equal(w, &['p', 'a', 's', 's']) {
        Some(Sym::Pass)
    } else if d == Dialect::Py0i {
        None
    } else if chars_equal(w, &['e', 'l', 'i', 'f']) {
        Some(Sym::Elif)
    } else if chars_equal(w, &['f', 'o', 'r']) {
        Some(Sym::For)
    } else if chars_equal(w, &['i', 'n']) {
        Some(Sym::In)
    } else if chars_equal(w, &['b', 'r', 'e', 'a', 'k']) {
        Some(Sym::Break)
    } else if chars_equal(w, &['c', 'o', 'n', 't', 'i', 'n', 'u', 'e']) {
        Some(Sym::Continue)
    } else if chars_equal(w, &['a', 'n', 'd']) {
        Some(Sym::And)
    } else if chars_equal(w, &['o', 'r']) {
        Some(Sym::Or)
    } else if chars_equal(w, &['n', 'o', 't']) {
        Some(Sym::Not)
    } else if chars_equal(w, &['N', 'o', 'n', 'e']) {
        Some(Sym::NoneVal)
    } else if chars_equal(w, &['T', 'r', 'u', 'e']) {
        Some(Sym::TrueVal)
    } else if chars_equal(w, &['F', 'a', 'l', 's', 'e']) {
        Some(Sym::FalseVal)
    } else if d == Dialect::Basic {
        None
    } else if chars_equal(w, &['c', 'l', 'a', 's', 's']) {
        Some(Sym::Class)
    } else if chars_equal(w, &['t', 'r', 'y']) {
        Some(Sym::Try)
    } else if chars_equal(w, &['e', 'x', 'c', 'e', 'p', 't']) {
        Some(Sym::Except)
    } else if chars_equal(w, &['r', 'a', 'i', 's', 'e']) {
        Some(Sym::Raise)
    } else if chars_equal(w, &['a', 's']) {
        Some(Sym::As)
    } else if chars_equal(w, &['l', 'a', 'm', 'b', 'd', 'a']) {
        Some(Sym::Lambda)
    } else if chars_equal(w, &['i', 'm', 'p', 'o', 'r', 't']) {
        Some(Sym::Import)
    } else if chars_equal(w, &['f', 'r', 'o', 'm']) {
        Some(Sym::From)
    } else {
        None
    }
}

fn op2_at(d: Dialect, cs: &Vec<char>, i: usize) -> (r: Option<Sym>)
    requires
        i < cs@.len() < usize::MAX,
    ensures
        r == op2(d, cs@, i as int),
{
    if i + 1 < cs.len() {
        let a = cs[i];
        let b = cs[i + 1];
        if a == '=' && b == '=' {
            Some(Sym::Eqeq)
        } else if a == '!' && b == '=' {
            Some(Sym::Ne)
        } else if a == '<' && b == '=' {
            Some(Sym::Le)
        } else if a == '>' && b == '=' {
            Some(Sym::Ge)
        } else if d != Dialect::Py0i && a == '+' && b == '=' {
            Some(Sym::PlusEq)
        } else if d != Dialect::Py0i && a == '-' && b == '=' {
            Some(Sym::MinusEq)
        } else {
            None
        }
    } else {
        None
    }
}

fn op1_of(d: Dialect, c: char) -> (r: Option<Sym>)
    ensures
        r == op1(d, c),
{
    if c == '(' {
        Some(Sym::Lparen)
    } else if c == ')' {
        Some(Sym::Rparen)
    } else if c == '[' {
        Some(Sym::Lbracket)
    } else if c == ']' {
        Some(Sym::Rbracket)
    } else if d != Dialect::Py0i && c == '{' {
        Some(Sym::Lbrace)
    } else if d != Dialect::Py0i && c == '}' {
        Some(Sym::Rbrace)
    } else if c == ',' {
        Some(Sym::Comma)
    } else if c == ':' {
        Some(Sym::Colon)
    } else if c == '.' {
        Some(Sym::Dot)
    } else if c == '+' {
        Some(Sym::Plus)
    } else if c == '-' {
        Some(Sym::Minus)
    } else if c == '*' {
        Some(Sym::Star)
    } else if c == '/' {
        Some(Sym::Slash)
    } else if c == '%' {
        Some(Sym::Percent)
    } else if c == '=' {
        Some(Sym::Equal)
    } else if c == '<' {
        Some(Sym::Lt)
    } else if c == '>' {
        Some(Sym::Gt)
    } else {
        None
    }
}

/// Reads a quoted literal body from `cs[i]` (see `str_body`).
fn read_body(cs: &Vec<char>, start: usize, q: char) -> (r: (Vec<char>, usize))
    requires
        start <= cs@.len(),
    ensures
        (r.0@, r.1 as int) == str_body(cs@, start as int, q, seq![]),
        r.1 <= cs@.len(),
{
    let n = cs.len();
    let mut val: Vec<char> = Vec::new();
    let mut i = start;
    while i < n && cs[i] != q
        invariant
            n == cs@.len(),
            start <= i <= n,
            str_body(cs@, start as int, q, seq![]) == str_body(cs@, i as int, q, val@),
        decreases n - i,
    {
        if cs[i] == '\\' {
            if i + 1 >= n {
                return (val, i + 1);
            }
            let e = cs[i + 1];
            let c = if e == 'n' {
                '\n'
            } else if e == 't' {
                '\t'
            } else {
                e
            };
            val.push(c);
            i += 2;
        } else {
            val.push(cs[i]);
            i += 1;
        }
    }
    (val, i)
}

/// Scans the rest of a line from `cs[start]` (see `scan`).
fn scan_line(d: Dialect, cs: &Vec<char>, start: usize, lx: &mut Lexer) -> (r: Result<(), LexError>)
    requires
        old(lx).wf(),
        start <= cs@.len(),
        cs@.len() < usize::MAX / 8,
    ensures
        final(lx).wf(),
        final(lx).line == old(lx).line,
        match r {
            Ok(_) => scan(d, cs@, start as int, old(lx).view_state()) == Ok::<_, LexError>(final(lx).view_state()),
            Err(e) => scan(d, cs@, start as int, old(lx).view_state()) == Err::<LexState, _>(e),
        },
{
    let ghost st0 = lx.view_state();
    let ghost line0 = lx.line;
    let n = cs.len();
    let mut i = start;
    while i < n
        invariant
            n == cs@.len(),
            n < usize::MAX / 8,
            i <= n,
            lx.wf(),
            lx.line == line0,
            line0 == old(lx).line,
            st0 == old(lx).view_state(),
            scan(d, cs@, start as int, st0) == scan(d, cs@, i as int, lx.view_state()),
        decreases n - i,
    {
        let c = cs[i];
        if c == '#' {
            return Ok(());
        }
        if ascii_ws(c) {
            i += 1;
            continue;
        }
        if d == Dialect::Py4 && (c == 'f' || c == 'F') && i + 1 < n && (cs[i + 1] == '\''
            || cs[i + 1] == '"') {
            let q = cs[i + 1];
            let (val, j) = read_body(cs, i + 2, q);
            proof {
                lemma_str_body(cs@, i + 2, q, seq![]);
            }
            if j >= n {
                return Err(LexError::UnterminatedFString(lx.line));
            }
            lx.push(TokenKind::FString(string_from_chars(&val)), i + 1);
            i = j + 1;
            continue;
        }
        if ident_start(c) {
            let mut j = i;
            while j < n && ident_char(cs[j])
                invariant
                    n == cs@.len(),
                    i <= j <= n,
                    ident_end(cs@, i as int) == ident_end(cs@, j as int),
                decreases n - j,
            {
                j += 1;
            }
            let w = sub_chars(cs, i, j);
            let kind = match keyword_of(d, &w) {
                Some(k) => TokenKind::Sym(k),
                None => TokenKind::Name(string_from_chars(&w)),
            };
            lx.push(kind, i + 1);
            i = j;
            continue;
        }
        if digit(c) {
            let mut j = i;
            let mut val: u64 = 0;
            let mut big = false;
            while j < n && digit(cs[j])
                invariant
                    n == cs@.len(),
                    i <= j <= n,
                    digits_end(cs@, i as int) == digits_end(cs@, j as int),
                    !big ==> val as int == dec_value(cs@, i as int, j as int) && val <= i64::MAX,
                    big ==> dec_value(cs@, i as int, j as int) > i64::MAX,
                decreases n - j,
            {
                let dv = (cs[j] as u32 - '0' as u32) as u64;
                assert(dec_value(cs@, i as int, j + 1) == dec_value(cs@, i as int, j as int) * 10
                    + dv);
                if !big {
                    if val < 922337203685477580u64 || (val == 922337203685477580u64 && dv <= 7) {
                        val = val * 10 + dv;
                    } else {
                        big = true;
                    }
                }
                j += 1;
            }
            if j < n && cs[j] == '.' {
                let mut k = j + 1;
                while k < n && digit(cs[k])
                    invariant
                        n == cs@.len(),
                        j + 1 <= k <= n,
                        digits_end(cs@, j + 1) == digits_end(cs@, k as int),
                    decreases n - k,
                {
                    k += 1;
                }
                let text = sub_chars(cs, i, k);
                lx.push(TokenKind::Float(string_from_chars(&text)), i + 1);
                i = k;
                continue;
            }
            if big {
                return Err(LexError::IntLiteralTooLarge(lx.line));
            }
            lx.push(TokenKind::Int(val as i64), i + 1);
            i = j;
            continue;
        }
        if c == '\'' || c == '"' {
            let (val, j) = read_body(cs, i + 1, c);
            proof {
                lemma_str_body(cs@, i + 1, c, seq![]);
            }
            if j >= n {
                return Err(LexError::UnterminatedString(lx.line));
            }
            lx.push(TokenKind::Str(string_from_chars(&val)), i + 1);
            i = j + 1;
            continue;
        }
        match op2_at(d, cs, i) {
            Some(k) => {
                lx.push(TokenKind::Sym(k), i + 1);
                i += 2;
            },
            None => match op1_of(d, c) {
                None => {
                    return Err(LexError::UnexpectedChar(c, lx.line));
                },
                Some(k) => {
                    if d == Dialect::Py4 {
                        if k == Sym::Lparen || k == Sym::Lbracket || k == Sym::Lbrace {
                            if lx.paren == i32::MAX {
                                return Err(LexError::BracketDepthOverflow(lx.line));
                            }
                            lx.paren = lx.paren + 1;
                        } else if k == Sym::Rparen || k == Sym::Rbracket || k == Sym::Rbrace {
                            if lx.paren == i32::MIN {
                                return Err(LexError::BracketDepthOverflow(lx.line));
                            }
                            lx.paren = lx.paren - 1;
                        }
                    }
                    lx.push(TokenKind::Sym(k), i + 1);
                    i += 1;
                },
            },
        }
    }
    Ok(())
}

/// Tokenizes one source line (see `lex_line`).
fn lex_one_line(d: Dialect, cs: &Vec<char>, lx: &mut Lexer) -> (r: Result<(), LexError>)
    requires
        old(lx).wf(),
        cs@.len() < usize::MAX / 8,
        old(lx).line < usize::MAX,
    ensures
        final(lx).wf(),
        final(lx).line == old(lx).line + 1,
        match r {
            Ok(_) => lex_line(d, cs@, old(lx).view_state()) == Ok::<_, LexError>(final(lx).view_state()),
            Err(e) => lex_line(d, cs@, old(lx).view_state()) == Err::<LexState, _>(e),
        },
{
    let ghost st0 = lx.view_state();
    let n = cs.len();
    let mut col: usize = 0;
    let mut indent: usize = 0;
    while col < n && (cs[col] == ' ' || cs[col] == '\t')
        invariant
            n == cs@.len(),
            n < usize::MAX / 8,
            col <= n,
            lead_end(cs@, 0) == lead_end(cs@, col as int),
            indent as int == indent_of(cs@, col as int),
            indent <= 4 * col,
        decreases n - col,
    {
        indent += if cs[col] == '\t' {
            4
        } else {
            1
        };
        col += 1;
    }
    if col == n || cs[col] == '#' {
        lx.line += 1;
        return Ok(());
    }
    if !(d == Dialect::Py4 && lx.paren != 0) {
        match lx.indent_line(indent) {
            Err(e) => {
                lx.line += 1;
                return Err(e);
            },
            Ok(_) => {},
        }
    }
    let ghost st1 = lx.view_state();
    match scan_line(d, cs, col, lx) {
        Err(e) => {
            lx.line += 1;
            return Err(e);
        },
        Ok(_) => {},
    }
    if !(d == Dialect::Py4 && lx.paren != 0) {
        lx.push(TokenKind::Sym(Sym::Newline), n + 1);
    }
    lx.line += 1;
    Ok(())
}

/// Splits `source` into tokens, following the layout rules of `d`: one
/// `Newline` per logical line, `Indent`/`Dedent` around deeper blocks, and a
/// final `Eof`. Errors as `lex_spec` says.
pub fn lex_source(source: &str, d: Dialect) -> (r: Result<Vec<Token<String>>, LexError>)
    requires
        source@.len() < usize::MAX / 8,
    ensures
        match r {
            Ok(ts) => lex_spec(d, source@) == Ok::<_, LexError>(view_tokens(ts@)),
            Err(e) => lex_spec(d, source@) == Err::<Seq<Token<Seq<char>>>, _>(e),
        },
{
    let src = chars_of(source);
    let n = src.len();
    let mut lx = Lexer { tokens: Vec::new(), stack: vec![0], line: 1, paren: 0 };
    proof {
        assert(lx.view_state().stack =~= seq![0int]);
        assert(lx.view_state().toks =~= Seq::<Token<Seq<char>>>::empty());
    }
    let mut i: usize = 0;
    while i < n
        invariant
            n == src@.len(),
            src@ == source@,
            n < usize::MAX / 8,
            i <= n,
            lx.wf(),
            lx.line <= i + 1,
            lex_from(d, src@, 0, initial_state()) == lex_from(d, src@, i as int, lx.view_state()),
        decreases n - i,
    {
        let mut e = i;
        while e < n && src[e] != '\n'
            invariant
                n == src@.len(),
                i <= e <= n,
                line_end(src@, i as int) == line_end(src@, e as int),
            decreases n - e,
        {
            e += 1;
        }
        let end = if e < n && e > i && src[e - 1] == '\r' {
            e - 1
        } else {
            e
        };
        let line = sub_chars(&src, i, end);
        proof {
            let raw = src@.subrange(i as int, e as int);
            if e < n && e > i && src@[e - 1] == '\r' {
                assert(line@ =~= raw.drop_last());
            } else {
                assert(line@ =~= raw);
            }
            assert(line@ == line_text(src@, i as int, e as int));
        }
        let ghost before = lx.view_state();
        proof {
            lemma_line_end(src@, i as int);
            assert(line_end(src@, i as int) == e);
        }
        match lex_one_line(d, &line, &mut lx) {
            Err(x) => {
                return Err(x);
            },
            Ok(_) => {},
        }
        if e < n {
            i = e + 1;
        } else {
            i = n;
        }
    }
    let ghost st = lx.view_state();
    while lx.stack.len() > 1
        invariant
            lx.wf(),
            close_blocks(st) == close_blocks(lx.view_state()),
        decreases lx.stack@.len(),
    {
        let ghost k0 = lx.stack@;
        lx.stack.pop();
        proof {
            assert(lx.stack@.map_values(|x: usize| x as int) =~= k0.map_values(
                |x: usize| x as int,
            ).drop_last());
        }
        lx.push(TokenKind::Sym(Sym::Dedent), 1);
    }
    lx.push(TokenKind::Sym(Sym::Eof), 1);
    Ok(lx.tokens)
}

} // verus!
