use vstd::prelude::*;

verus! {

/// The three language levels the interpreters accept. `Py0i` is the smallest
/// (functions, `if`/`else`, `while`), `Basic` adds loops over sequences,
/// boolean operators, lists and dictionaries, and `Py4` adds classes,
/// exceptions, modules, lambdas and f-strings.
#[derive(Clone, Copy, PartialEq, Eq, Structural, Debug)]
pub enum Dialect {
    Py0i,
    Basic,
    Py4,
}

/// Tokens without a payload: layout markers, keywords and punctuation.
#[derive(Clone, Copy, PartialEq, Eq, Structural, Debug)]
pub enum Sym {
    Eof,
    Newline,
    Indent,
    Dedent,
    Def,
    Class,
    If,
    Elif,
    Else,
    While,
    For,
    In,
    Return,
    Break,
    Continue,
    Pass,
    Try,
    Except,
    Raise,
    As,
    And,
    Or,
    Not,
    NoneVal,
    TrueVal,
    FalseVal,
    Lambda,
    Import,
    From,
    Lparen,
    Rparen,
    Lbracket,
    Rbracket,
    Lbrace,
    Rbrace,
    Comma,
    Colon,
    Dot,
    Plus,
    Minus,
    Star,
    Slash,
    Percent,
    Equal,
    PlusEq,
    MinusEq,
    Eqeq,
    Ne,
    Lt,
    Le,
    Gt,
    Ge,
}

/// The kind of a token; `S` is the text type (`String` at run time,
/// `Seq<char>` in specifications). A float literal keeps its source text.
#[derive(Clone, Debug)]
pub enum TokenKind<S> {
    Name(S),
    Int(i64),
    Float(S),
    Str(S),
    FString(S),
    Sym(Sym),
}

/// A token with its 1-based line and column.
#[derive(Clone, Debug)]
pub struct Token<S> {
    pub kind: TokenKind<S>,
    pub line: usize,
    pub col: usize,
}

impl View for TokenKind<String> {
    type V = TokenKind<Seq<char>>;

    open spec fn view(&self) -> TokenKind<Seq<char>> {
        match self {
            TokenKind::Name(s) => TokenKind::Name(s@),
            TokenKind::Int(i) => TokenKind::Int(*i),
            TokenKind::Float(s) => TokenKind::Float(s@),
            TokenKind::Str(s) => TokenKind::Str(s@),
            TokenKind::FString(s) => TokenKind::FString(s@),
            TokenKind::Sym(k) => TokenKind::Sym(*k),
        }
    }
}

impl View for Token<String> {
    type V = Token<Seq<char>>;

    open spec fn view(&self) -> Token<Seq<char>> {
        Token { kind: self.kind@, line: self.line, col: self.col }
    }
}

/// The token stream seen through `view`.
pub open spec fn view_tokens(ts: Seq<Token<String>>) -> Seq<Token<Seq<char>>> {
    ts.map_values(|t: Token<String>| t@)
}

impl<S> TokenKind<S> {
    pub open spec fn is_sym(&self, k: Sym) -> bool {
        self matches TokenKind::Sym(j) && j == k
    }

    /// Whether this token is the symbol `k`.
    pub fn sym_is(&self, k: Sym) -> (b: bool)
        ensures
            b == self.is_sym(k),
    {
        match self {
            TokenKind::Sym(j) => *j == k,
            _ => false,
        }
    }
}

} // verus!
