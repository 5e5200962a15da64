use vstd::prelude::*;

use crate::ast::{Items, Stmt};
use crate::layout::lemma_lex_layout;
use crate::lexer::{lex_source, lex_spec, LexError};
use crate::parser::{p_module, parse_program, wf_tokens, PErr};
use crate::token::{view_tokens, Dialect, Sym, Token, TokenKind};

verus! {

/// Why a source text is not a program: its characters do not form tokens,
/// or its tokens do not form statements.
#[derive(Clone, Debug, PartialEq)]
pub enum SyntaxError {
    Lex(LexError),
    Parse(PErr),
}

/// Tokenizes and parses a whole source text in dialect `d`: the statements
/// of the program, or the first error met.
pub fn parse_source(source: &str, d: Dialect) -> (r: Result<Items<Stmt>, SyntaxError>)
    requires
        source@.len() < usize::MAX / 8,
    ensures
        lex_spec(d, source@) matches Err(e) ==> r == Err::<Items<Stmt>, SyntaxError>(
            SyntaxError::Lex(e),
        ),
        lex_spec(d, source@) is Ok ==> exists|ts: Seq<Token<String>>|
            #![trigger view_tokens(ts)]
            lex_spec(d, source@) == Ok::<_, LexError>(view_tokens(ts)) && match p_module(d, ts) {
                Ok(m) => r == Ok::<Items<Stmt>, SyntaxError>(m),
                Err(e) => r == Err::<Items<Stmt>, SyntaxError>(SyntaxError::Parse(e)),
            },
{
    let tokens = match lex_source(source, d) {
        Ok(ts) => ts,
        Err(e) => {
            return Err(SyntaxError::Lex(e));
        },
    };
    proof {
        lemma_lex_layout(d, source@);
        let v = view_tokens(tokens@);
        assert(v.len() == tokens@.len());
        assert(v.last() == tokens@.last()@);
        assert(v.last().kind == TokenKind::<Seq<char>>::Sym(Sym::Eof));
        assert(wf_tokens(tokens@));
    }
    let r = parse_program(tokens.as_slice(), d);
    match r {
        Ok(m) => Ok(m),
        Err(e) => Err(SyntaxError::Parse(e)),
    }
}

} // verus!
