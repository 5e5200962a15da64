use vstd::prelude::*;

use crate::lexer::LexError;
use crate::parser::{ErrMsg, PErr};
use crate::text::{append_chars, chars_of, decimal, push_decimal, string_from_chars};
use crate::token::Dialect;

verus! {

/// The text of a syntax error message.
pub open spec fn msg_text(m: ErrMsg) -> Seq<char> {
    match m {
        ErrMsg::ExpectedExpr => "expected expr"@,
        ErrMsg::ExpectedRparen => "expected ')'"@,
        ErrMsg::ExpectedRbracket => "expected ']'"@,
        ErrMsg::ExpectedRbrace => "expected '}'"@,
        ErrMsg::ExpectedColon => "expected ':'"@,
        ErrMsg::ExpectedIn => "expected 'in'"@,
        ErrMsg::ExpectedAttr => "expected attr"@,
        ErrMsg::ExpectedParam => "expected param"@,
        ErrMsg::ExpectedParameterName => "expected parameter name"@,
        ErrMsg::ExpectedKwargName => "expected kwarg name"@,
        ErrMsg::ExpectedVarargName => "expected vararg name"@,
        ErrMsg::ExpectedName => "expected name"@,
        ErrMsg::ExpectedClassName => "expected class name"@,
        ErrMsg::ExpectedExcName => "expected exc name"@,
        ErrMsg::ExpectedVar => "expected var"@,
        ErrMsg::ExpectedModuleName => "expected module name"@,
        ErrMsg::ExpectedModuleNameAfterDot => "expected module name after dot"@,
        ErrMsg::ExpectedImport => "expected 'import'"@,
        ErrMsg::ExpectedLparen => "expected '('"@,
        ErrMsg::ExpectedNewline => "expected newline"@,
        ErrMsg::ExpectedIndent => "expected indent"@,
        ErrMsg::ExpectedDedent => "expected dedent"@,
        ErrMsg::ExpectedExceptBlock => "expected 'except' block"@,
        ErrMsg::IllegalAugTarget => "SyntaxError: illegal target for augmentation"@,
        ErrMsg::ExpectedExpression => "expected expression"@,
        ErrMsg::ExpectedAttributeName => "expected attribute name"@,
        ErrMsg::ExpectedAttribute => "expected attribute"@,
        ErrMsg::ExpectedNewlineAfterColon => "expected newline after ':'"@,
        ErrMsg::ExpectedIndentedBlock => "expected indented block"@,
        ErrMsg::ExpectedFunctionName => "expected function name"@,
        ErrMsg::ExpectedFuncName => "expected func name"@,
        ErrMsg::ExpectedParamName => "expected param name"@,
        ErrMsg::ExpectedNewlineAfterAssignment => "expected newline after assignment"@,
        ErrMsg::ExpectedNewlineAfterExpression => "expected newline after expression"@,
        ErrMsg::ExpectedColonInDict => "expected ':' in dict"@,
        ErrMsg::ExpectedLoopVar => "expected loop var"@,
        ErrMsg::InvalidAssignTarget => "invalid assignment target"@,
        ErrMsg::AugAssignNeedsName => "augmented assignment only supports simple variables"@,
    }
}

fn msg_str(m: ErrMsg) -> (s: &'static str)
    ensures
        s@ == msg_text(m),
{
    match m {
        ErrMsg::ExpectedExpr => "expected expr",
        ErrMsg::ExpectedRparen => "expected ')'",
        ErrMsg::ExpectedRbracket => "expected ']'",
        ErrMsg::ExpectedRbrace => "expected '}'",
        ErrMsg::ExpectedColon => "expected ':'",
        ErrMsg::ExpectedIn => "expected 'in'",
        ErrMsg::ExpectedAttr => "expected attr",
        ErrMsg::ExpectedParam => "expected param",
        ErrMsg::ExpectedParameterName => "expected parameter name",
        ErrMsg::ExpectedKwargName => "expected kwarg name",
        ErrMsg::ExpectedVarargName => "expected vararg name",
        ErrMsg::ExpectedName => "expected name",
        ErrMsg::ExpectedClassName => "expected class name",
        ErrMsg::ExpectedExcName => "expected exc name",
        ErrMsg::ExpectedVar => "expected var",
        ErrMsg::ExpectedModuleName => "expected module name",
        ErrMsg::ExpectedModuleNameAfterDot => "expected module name after dot",
        ErrMsg::ExpectedImport => "expected 'import'",
        ErrMsg::ExpectedLparen => "expected '('",
        ErrMsg::ExpectedNewline => "expected newline",
        ErrMsg::ExpectedIndent => "expected indent",
        ErrMsg::ExpectedDedent => "expected dedent",
        ErrMsg::ExpectedExceptBlock => "expected 'except' block",
        ErrMsg::IllegalAugTarget => "SyntaxError: illegal target for augmentation",
        ErrMsg::ExpectedExpression => "expected expression",
        ErrMsg::ExpectedAttributeName => "expected attribute name",
        ErrMsg::ExpectedAttribute => "expected attribute",
        ErrMsg::ExpectedNewlineAfterColon => "expected newline after ':'",
        ErrMsg::ExpectedIndentedBlock => "expected indented block",
        ErrMsg::ExpectedFunctionName => "expected function name",
        ErrMsg::ExpectedFuncName => "expected func name",
        ErrMsg::ExpectedParamName => "expected param name",
        ErrMsg::ExpectedNewlineAfterAssignment => "expected newline after assignment",
        ErrMsg::ExpectedNewlineAfterExpression => "expected newline after expression",
        ErrMsg::ExpectedColonInDict => "expected ':' in dict",
        ErrMsg::ExpectedLoopVar => "expected loop var",
        ErrMsg::InvalidAssignTarget => "invalid assignment target",
        ErrMsg::AugAssignNeedsName => "augmented assignment only supports simple variables",
    }
}

/// The message of a syntax error in file `file`: `file:line:col: text`
/// for a positioned error, the bare text otherwise.
pub open spec fn perr_text(e: PErr, file: Seq<char>) -> Seq<char> {
    match e {
        PErr::At(line, col, m) => file + seq![':'] + decimal(line as nat) + seq![':'] + decimal(
            col as nat,
        ) + ": "@ + msg_text(m),
        PErr::Plain(m) => msg_text(m),
    }
}

impl PErr {
    /// The message the interpreter prints for this error.
    pub fn message(&self, file: &str) -> (s: String)
        ensures
            s@ == perr_text(*self, file@),
    {
        let mut out: Vec<char> = Vec::new();
        match self {
            PErr::At(line, col, m) => {
                append_chars(&mut out, chars_of(file).as_slice());
                out.push(':');
                push_decimal(&mut out, *line as u64);
                out.push(':');
                push_decimal(&mut out, *col as u64);
                append_chars(&mut out, chars_of(": ").as_slice());
                append_chars(&mut out, chars_of(msg_str(*m)).as_slice());
                proof {
                    assert(out@ =~= perr_text(*self, file@));
                }
            },
            PErr::Plain(m) => {
                append_chars(&mut out, chars_of(msg_str(*m)).as_slice());
                proof {
                    assert(out@ =~= perr_text(*self, file@));
                }
            },
        }
        string_from_chars(out.as_slice())
    }
}

/// The message of a scanning error in dialect `d`.
pub open spec fn lex_text(e: LexError, d: Dialect) -> Seq<char> {
    match e {
        LexError::IndentMismatch(l) => if d == Dialect::Py4 {
            "inconsistent indent at line "@ + decimal(l as nat)
        } else {
            "inconsistent indentation at line "@ + decimal(l as nat)
        },
        LexError::UnterminatedString(l) => if d == Dialect::Py4 {
            "unterminated string line "@ + decimal(l as nat)
        } else {
            "unterminated string at line "@ + decimal(l as nat)
        },
        LexError::UnterminatedFString(l) => "unterminated f-string line "@ + decimal(l as nat),
        LexError::UnexpectedChar(c, l) => if d == Dialect::Py4 {
            "unexpected '"@ + seq![c] + "' line "@ + decimal(l as nat)
        } else {
            "unexpected character '"@ + seq![c] + "' at line "@ + decimal(l as nat)
        },
        LexError::IntLiteralTooLarge(l) => "integer literal too large at line "@ + decimal(
            l as nat,
        ),
        LexError::BracketDepthOverflow(l) => "brackets nested too deeply at line "@ + decimal(
            l as nat,
        ),
    }
}

impl LexError {
    /// The message the interpreter of dialect `d` reports for this error.
    pub fn message(&self, d: Dialect) -> (s: String)
        ensures
            s@ == lex_text(*self, d),
    {
        let mut out: Vec<char> = Vec::new();
        let line = match self {
            LexError::IndentMismatch(l) => {
                let t = if d == Dialect::Py4 {
                    "inconsistent indent at line "
                } else {
                    "inconsistent indentation at line "
                };
                append_chars(&mut out, chars_of(t).as_slice());
                *l
            },
            LexError::UnterminatedString(l) => {
                let t = if d == Dialect::Py4 {
                    "unterminated string line "
                } else {
                    "unterminated string at line "
                };
                append_chars(&mut out, chars_of(t).as_slice());
                *l
            },
            LexError::UnterminatedFString(l) => {
                append_chars(&mut out, chars_of("unterminated f-string line ").as_slice());
                *l
            },
            LexError::UnexpectedChar(c, l) => {
                if d == Dialect::Py4 {
                    append_chars(&mut out, chars_of("unexpected '").as_slice());
                    out.push(*c);
                    append_chars(&mut out, chars_of("' line ").as_slice());
                } else {
                    append_chars(&mut out, chars_of("unexpected character '").as_slice());
                    out.push(*c);
                    append_chars(&mut out, chars_of("' at line ").as_slice());
                }
                *l
            },
            LexError::IntLiteralTooLarge(l) => {
                append_chars(&mut out, chars_of("integer literal too large at line ").as_slice());
                *l
            },
            LexError::BracketDepthOverflow(l) => {
                append_chars(&mut out, chars_of("brackets nested too deeply at line ").as_slice());
                *l
            },
        };
        push_decimal(&mut out, line as u64);
        proof {
            assert(out@ =~= lex_text(*self, d));
        }
        string_from_chars(out.as_slice())
    }
}

} // verus!
