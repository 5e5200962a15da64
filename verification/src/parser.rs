use vstd::prelude::*;

use crate::ast::{Expr, Handler, Items, LogicOp, Op, Param, Stmt};
use crate::token::{Dialect, Sym, Token, TokenKind};

verus! {

/// What a syntax error reports.
#[derive(Clone, Copy, PartialEq, Eq, Structural, Debug)]
pub enum ErrMsg {
    ExpectedExpr,
    ExpectedRparen,
    ExpectedRbracket,
    ExpectedRbrace,
    ExpectedColon,
    ExpectedIn,
    ExpectedAttr,
    ExpectedParam,
    ExpectedParameterName,
    ExpectedKwargName,
    ExpectedVarargName,
    ExpectedName,
    ExpectedClassName,
    ExpectedExcName,
    ExpectedVar,
    ExpectedModuleName,
    ExpectedModuleNameAfterDot,
    ExpectedImport,
    ExpectedLparen,
    ExpectedNewline,
    ExpectedIndent,
    ExpectedDedent,
    ExpectedExceptBlock,
    IllegalAugTarget,
    ExpectedExpression,
    ExpectedAttributeName,
    ExpectedAttribute,
    ExpectedNewlineAfterColon,
    ExpectedIndentedBlock,
    ExpectedFunctionName,
    ExpectedFuncName,
    ExpectedParamName,
    ExpectedNewlineAfterAssignment,
    ExpectedNewlineAfterExpression,
    ExpectedColonInDict,
    ExpectedLoopVar,
    InvalidAssignTarget,
    AugAssignNeedsName,
}

/// A syntax error: at a token (line, column) or without a position.
#[derive(Clone, Copy, PartialEq, Eq, Structural, Debug)]
pub enum PErr {
    At(usize, usize, ErrMsg),
    Plain(ErrMsg),
}

pub type PRes<T> = Result<(T, int), PErr>;

/// The kind of the token at `pos`; past the end the stream reads as `Eof`.
pub open spec fn kind_at(t: Seq<Token<String>>, pos: int) -> TokenKind<String> {
    if 0 <= pos < t.len() {
        t[pos].kind
    } else {
        TokenKind::Sym(Sym::Eof)
    }
}

pub open spec fn at(t: Seq<Token<String>>, pos: int, k: Sym) -> bool {
    kind_at(t, pos).is_sym(k)
}

/// The error `m` reported at the token at `pos`.
pub open spec fn err_at(t: Seq<Token<String>>, pos: int, m: ErrMsg) -> PErr {
    if 0 <= pos < t.len() {
        PErr::At(t[pos].line, t[pos].col, m)
    } else {
        PErr::At(0, 0, m)
    }
}

/// A sub-parse that ended at `p` made progress from `pos`.
pub open spec fn adv(t: Seq<Token<String>>, pos: int, p: int) -> bool {
    pos < p <= t.len()
}

/// The error given where a sub-parse would have made no progress; no parse
/// of a stream that ends in `Eof` reaches it.
pub open spec fn stuck(t: Seq<Token<String>>, pos: int) -> PErr {
    err_at(t, pos, ErrMsg::ExpectedExpr)
}

/// A well-formed token stream ends with `Eof`.
pub open spec fn wf_tokens(t: Seq<Token<String>>) -> bool {
    0 < t.len() && t.last().kind.is_sym(Sym::Eof)
}

pub open spec fn expect_spec(t: Seq<Token<String>>, pos: int, k: Sym, m: ErrMsg) -> Result<int, PErr> {
    if at(t, pos, k) {
        Ok(pos + 1)
    } else {
        Err(err_at(t, pos, m))
    }
}

pub open spec fn name_spec(t: Seq<Token<String>>, pos: int, m: ErrMsg) -> PRes<String> {
    match kind_at(t, pos) {
        TokenKind::Name(n) => Ok((n, pos + 1)),
        _ => Err(err_at(t, pos, m)),
    }
}

pub open spec fn comp_op(k: TokenKind<String>) -> Option<Op> {
    match k {
        TokenKind::Sym(Sym::Eqeq) => Some(Op::Eq),
        TokenKind::Sym(Sym::Ne) => Some(Op::Ne),
        TokenKind::Sym(Sym::Lt) => Some(Op::Lt),
        TokenKind::Sym(Sym::Le) => Some(Op::Le),
        TokenKind::Sym(Sym::Gt) => Some(Op::Gt),
        TokenKind::Sym(Sym::Ge) => Some(Op::Ge),
        _ => None,
    }
}

pub open spec fn term_op(k: TokenKind<String>) -> Option<Op> {
    match k {
        TokenKind::Sym(Sym::Plus) => Some(Op::Add),
        TokenKind::Sym(Sym::Minus) => Some(Op::Sub),
        _ => None,
    }
}

pub open spec fn factor_op(k: TokenKind<String>) -> Option<Op> {
    match k {
        TokenKind::Sym(Sym::Star) => Some(Op::Mul),
        TokenKind::Sym(Sym::Slash) => Some(Op::Div),
        TokenKind::Sym(Sym::Percent) => Some(Op::Mod),
        _ => None,
    }
}

/// Tokens after which a trailing comma closes a bare tuple.
pub open spec fn ends_tuple(k: TokenKind<String>) -> bool {
    match k {
        TokenKind::Sym(s) => s == Sym::Equal || s == Sym::PlusEq || s == Sym::MinusEq || s == Sym::In
            || s == Sym::Colon || s == Sym::Newline || s == Sym::Eof || s == Sym::Rparen || s
            == Sym::Rbracket || s == Sym::Rbrace,
        _ => false,
    }
}

// ---------------------------------------------------------------------------
// Expressions
// ---------------------------------------------------------------------------

/// `expr (',' expr)* [',']`: one expression, or a tuple of several.
pub open spec fn p_expr_list(d: Dialect, t: Seq<Token<String>>, pos: int) -> PRes<Expr>
    decreases t.len() - pos, 11int,
{
    match p_expr(d, t, pos) {
        Err(e) => Err(e),
        Ok((first, p1)) => if !adv(t, pos, p1) {
            Err(stuck(t, pos))
        } else if at(t, p1, Sym::Comma) {
            if ends_tuple(kind_at(t, p1 + 1)) {
                Ok((Expr::Tuple(Items::from_seq(seq![first])), p1 + 1))
            } else {
                match p_tuple_rest(d, t, p1 + 1, seq![first]) {
                    Err(e) => Err(e),
                    Ok((items, p2)) => Ok((Expr::Tuple(Items::from_seq(items)), p2)),
                }
            }
        } else {
            Ok((first, p1))
        },
    }
}

pub open spec fn p_tuple_rest(d: Dialect, t: Seq<Token<String>>, pos: int, acc: Seq<Expr>) -> PRes<Seq<Expr>>
    decreases t.len() - pos, 11int,
{
    match p_expr(d, t, pos) {
        Err(e) => Err(e),
        Ok((e, p1)) => if !adv(t, pos, p1) {
            Err(stuck(t, pos))
        } else if at(t, p1, Sym::Comma) {
            if ends_tuple(kind_at(t, p1 + 1)) {
                Ok((acc.push(e), p1 + 1))
            } else {
                p_tuple_rest(d, t, p1 + 1, acc.push(e))
            }
        } else {
            Ok((acc.push(e), p1))
        },
    }
}

/// `name (',' name)*`, each a `Name` token (error `m` otherwise); with
/// `trail`, a comma just before a `)` is allowed.
pub open spec fn p_names(t: Seq<Token<String>>, pos: int, acc: Seq<String>, m: ErrMsg, trail: bool) -> PRes<
    Seq<String>,
>
    decreases t.len() - pos,
{
    match kind_at(t, pos) {
        TokenKind::Name(n) => if at(t, pos + 1, Sym::Comma) {
            if trail && at(t, pos + 2, Sym::Rparen) {
                Ok((acc.push(n), pos + 2))
            } else {
                p_names(t, pos + 2, acc.push(n), m, trail)
            }
        } else {
            Ok((acc.push(n), pos + 1))
        },
        _ => Err(err_at(t, pos, m)),
    }
}

/// An expression: a lambda, or operands joined by `or`.
pub open spec fn p_expr(d: Dialect, t: Seq<Token<String>>, pos: int) -> PRes<Expr>
    decreases t.len() - pos, 9int,
{
    if d == Dialect::Py0i {
        p_comp(d, t, pos)
    } else if d == Dialect::Py4 && at(t, pos, Sym::Lambda) {
        let params = if at(t, pos + 1, Sym::Colon) {
            Ok((Seq::<String>::empty(), pos + 2))
        } else {
            match p_names(t, pos + 1, seq![], ErrMsg::ExpectedParam, false) {
                Err(e) => Err(e),
                Ok((ps, p2)) => match expect_spec(t, p2, Sym::Colon, ErrMsg::ExpectedColon) {
                    Err(e) => Err(e),
                    Ok(p3) => Ok((ps, p3)),
                },
            }
        };
        match params {
            Err(e) => Err(e),
            Ok((ps, p3)) => if !adv(t, pos, p3) {
                Err(stuck(t, pos))
            } else {
                match p_expr(d, t, p3) {
                    Err(e) => Err(e),
                    Ok((body, p4)) => Ok((Expr::Lambda(Items::from_seq(ps), Box::new(body)), p4)),
                }
            },
        }
    } else {
        match p_and(d, t, pos) {
            Err(e) => Err(e),
            Ok((e, p1)) => if !adv(t, pos, p1) {
                Err(stuck(t, pos))
            } else {
                p_or_rest(d, t, p1, e)
            },
        }
    }
}

pub open spec fn p_or_rest(d: Dialect, t: Seq<Token<String>>, pos: int, lhs: Expr) -> PRes<Expr>
    decreases t.len() - pos, 9int,
{
    if at(t, pos, Sym::Or) {
        match p_and(d, t, pos + 1) {
            Err(e) => Err(e),
            Ok((r, p1)) => if !adv(t, pos, p1) {
                Err(stuck(t, pos))
            } else {
                p_or_rest(d, t, p1, Expr::Logical(LogicOp::Or, Box::new(lhs), Box::new(r)))
            },
        }
    } else {
        Ok((lhs, pos))
    }
}

pub open spec fn p_and(d: Dialect, t: Seq<Token<String>>, pos: int) -> PRes<Expr>
    decreases t.len() - pos, 8int,
{
    match p_not(d, t, pos) {
        Err(e) => Err(e),
        Ok((e, p1)) => if !adv(t, pos, p1) {
            Err(stuck(t, pos))
        } else {
            p_and_rest(d, t, p1, e)
        },
    }
}

pub open spec fn p_and_rest(d: Dialect, t: Seq<Token<String>>, pos: int, lhs: Expr) -> PRes<Expr>
    decreases t.len() - pos, 8int,
{
    if at(t, pos, Sym::And) {
        match p_not(d, t, pos + 1) {
            Err(e) => Err(e),
            Ok((r, p1)) => if !adv(t, pos, p1) {
                Err(stuck(t, pos))
            } else {
                p_and_rest(d, t, p1, Expr::Logical(LogicOp::And, Box::new(lhs), Box::new(r)))
            },
        }
    } else {
        Ok((lhs, pos))
    }
}

pub open spec fn p_not(d: Dialect, t: Seq<Token<String>>, pos: int) -> PRes<Expr>
    decreases t.len() - pos, 7int,
{
    if at(t, pos, Sym::Not) {
        match p_not(d, t, pos + 1) {
            Err(e) => Err(e),
            Ok((e, p1)) => Ok((Expr::UnaryOp(Op::Not, Box::new(e)), p1)),
        }
    } else {
        p_comp(d, t, pos)
    }
}

pub open spec fn p_comp(d: Dialect, t: Seq<Token<String>>, pos: int) -> PRes<Expr>
    decreases t.len() - pos, 6int,
{
    match p_term(d, t, pos) {
        Err(e) => Err(e),
        Ok((e, p1)) => if !adv(t, pos, p1) {
            Err(stuck(t, pos))
        } else {
            p_comp_rest(d, t, p1, e)
        },
    }
}

pub open spec fn p_comp_rest(d: Dialect, t: Seq<Token<String>>, pos: int, lhs: Expr) -> PRes<Expr>
    decreases t.len() - pos, 6int,
{
    match comp_op(kind_at(t, pos)) {
        None => Ok((lhs, pos)),
        Some(op) => match p_term(d, t, pos + 1) {
            Err(e) => Err(e),
            Ok((r, p1)) => if !adv(t, pos, p1) {
                Err(stuck(t, pos))
            } else {
                p_comp_rest(d, t, p1, Expr::Compare(op, Box::new(lhs), Box::new(r)))
            },
        },
    }
}

pub open spec fn p_term(d: Dialect, t: Seq<Token<String>>, pos: int) -> PRes<Expr>
    decreases t.len() - pos, 5int,
{
    match p_factor(d, t, pos) {
        Err(e) => Err(e),
        Ok((e, p1)) => if !adv(t, pos, p1) {
            Err(stuck(t, pos))
        } else {
            p_term_rest(d, t, p1, e)
        },
    }
}

pub open spec fn p_term_rest(d: Dialect, t: Seq<Token<String>>, pos: int, lhs: Expr) -> PRes<Expr>
    decreases t.len() - pos, 5int,
{
    match term_op(kind_at(t, pos)) {
        None => Ok((lhs, pos)),
        Some(op) => match p_factor(d, t, pos + 1) {
            Err(e) => Err(e),
            Ok((r, p1)) => if !adv(t, pos, p1) {
                Err(stuck(t, pos))
            } else {
                p_term_rest(d, t, p1, Expr::BinOp(op, Box::new(lhs), Box::new(r)))
            },
        },
    }
}

pub open spec fn p_factor(d: Dialect, t: Seq<Token<String>>, pos: int) -> PRes<Expr>
    decreases t.len() - pos, 4int,
{
    match p_unary(d, t, pos) {
        Err(e) => Err(e),
        Ok((e, p1)) => if !adv(t, pos, p1) {
            Err(stuck(t, pos))
        } else {
            p_factor_rest(d, t, p1, e)
        },
    }
}

pub open spec fn p_factor_rest(d: Dialect, t: Seq<Token<String>>, pos: int, lhs: Expr) -> PRes<Expr>
    decreases t.len() - pos, 4int,
{
    match factor_op(kind_at(t, pos)) {
        None => Ok((lhs, pos)),
        Some(op) => match p_unary(d, t, pos + 1) {
            Err(e) => Err(e),
            Ok((r, p1)) => if !adv(t, pos, p1) {
                Err(stuck(t, pos))
            } else {
                p_factor_rest(d, t, p1, Expr::BinOp(op, Box::new(lhs), Box::new(r)))
            },
        },
    }
}

pub open spec fn p_unary(d: Dialect, t: Seq<Token<String>>, pos: int) -> PRes<Expr>
    decreases t.len() - pos, 3int,
{
    if at(t, pos, Sym::Minus) {
        match p_unary(d, t, pos + 1) {
            Err(e) => Err(e),
            Ok((e, p1)) => Ok((Expr::UnaryOp(Op::Neg, Box::new(e)), p1)),
        }
    } else {
        p_primary(d, t, pos)
    }
}

/// `expr (',' expr)*` up to (not including) the closing `close`; with
/// `trail`, a comma just before `close` is allowed.
pub open spec fn p_seq_items(
    d: Dialect,
    t: Seq<Token<String>>,
    pos: int,
    acc: Seq<Expr>,
    close: Sym,
    trail: bool,
) -> PRes<Seq<Expr>>
    decreases t.len() - pos, 10int,
{
    match p_expr(d, t, pos) {
        Err(e) => Err(e),
        Ok((e, p1)) => if !adv(t, pos, p1) {
            Err(stuck(t, pos))
        } else if at(t, p1, Sym::Comma) {
            if trail && at(t, p1 + 1, close) {
                Ok((acc.push(e), p1 + 1))
            } else {
                p_seq_items(d, t, p1 + 1, acc.push(e), close, trail)
            }
        } else {
            Ok((acc.push(e), p1))
        },
    }
}

/// `key ':' value (',' key ':' value)* [',']` up to the closing brace.
pub open spec fn p_dict_items(d: Dialect, t: Seq<Token<String>>, pos: int, acc: Seq<(Expr, Expr)>) -> PRes<
    Seq<(Expr, Expr)>,
>
    decreases t.len() - pos, 10int,
{
    match p_expr(d, t, pos) {
        Err(e) => Err(e),
        Ok((k, p1)) => if !adv(t, pos, p1) {
            Err(stuck(t, pos))
        } else {
            match expect_spec(t, p1, Sym::Colon, dict_colon_msg(d)) {
                Err(e) => Err(e),
                Ok(p2) => match p_expr(d, t, p2) {
                    Err(e) => Err(e),
                    Ok((v, p3)) => if !adv(t, pos, p3) {
                        Err(stuck(t, pos))
                    } else if at(t, p3, Sym::Comma) {
                        if at(t, p3 + 1, Sym::Rbrace) {
                            Ok((acc.push((k, v)), p3 + 1))
                        } else {
                            p_dict_items(d, t, p3 + 1, acc.push((k, v)))
                        }
                    } else {
                        Ok((acc.push((k, v)), p3))
                    },
                },
            }
        },
    }
}

/// Call arguments, positional and `name=value`, up to the closing `)`.
pub open spec fn p_call_args(
    d: Dialect,
    t: Seq<Token<String>>,
    pos: int,
    args: Seq<Expr>,
    kwargs: Seq<(String, Expr)>,
) -> PRes<(Seq<Expr>, Seq<(String, Expr)>)>
    decreases t.len() - pos, 10int,
{
    let one = match kind_at(t, pos) {
        TokenKind::Name(n) => if at(t, pos + 1, Sym::Equal) {
            match p_expr(d, t, pos + 2) {
                Err(e) => Err(e),
                Ok((v, p1)) => Ok(((args, kwargs.push((n, v))), p1)),
            }
        } else {
            match p_expr(d, t, pos) {
                Err(e) => Err(e),
                Ok((a, p1)) => Ok(((args.push(a), kwargs), p1)),
            }
        },
        _ => match p_expr(d, t, pos) {
            Err(e) => Err(e),
            Ok((a, p1)) => Ok(((args.push(a), kwargs), p1)),
        },
    };
    match one {
        Err(e) => Err(e),
        Ok(((a2, k2), p1)) => if !adv(t, pos, p1) {
            Err(stuck(t, pos))
        } else if at(t, p1, Sym::Comma) {
            if at(t, p1 + 1, Sym::Rparen) {
                Ok(((a2, k2), p1 + 1))
            } else {
                p_call_args(d, t, p1 + 1, a2, k2)
            }
        } else {
            Ok(((a2, k2), p1))
        },
    }
}

/// Calls, attribute reads and subscripts after an atom.
pub open spec fn p_postfix(d: Dialect, t: Seq<Token<String>>, pos: int, e: Expr) -> PRes<Expr>
    decreases t.len() - pos, 0int,
{
    if at(t, pos, Sym::Lparen) {
        let args = if at(t, pos + 1, Sym::Rparen) {
            Ok(((Seq::<Expr>::empty(), Seq::<(String, Expr)>::empty()), pos + 2))
        } else {
            let inner = if d == Dialect::Py4 {
                p_call_args(d, t, pos + 1, seq![], seq![])
            } else {
                match p_seq_items(d, t, pos + 1, seq![], Sym::Rparen, d == Dialect::Basic) {
                    Err(e) => Err(e),
                    Ok((a, p2)) => Ok(((a, Seq::<(String, Expr)>::empty()), p2)),
                }
            };
            match inner {
                Err(e) => Err(e),
                Ok((r, p2)) => match expect_spec(t, p2, Sym::Rparen, ErrMsg::ExpectedRparen) {
                    Err(e) => Err(e),
                    Ok(p3) => Ok((r, p3)),
                },
            }
        };
        match args {
            Err(e) => Err(e),
            Ok(((a, k), p3)) => if !adv(t, pos, p3) {
                Err(stuck(t, pos))
            } else {
                p_postfix(
                    d,
                    t,
                    p3,
                    Expr::Call(Box::new(e), Items::from_seq(a), Items::from_seq(k)),
                )
            },
        }
    } else if at(t, pos, Sym::Dot) {
        match name_spec(t, pos + 1, attr_msg(d)) {
            Err(x) => Err(x),
            Ok((n, p2)) => p_postfix(d, t, p2, Expr::Attribute(Box::new(e), n)),
        }
    } else if at(t, pos, Sym::Lbracket) {
        match p_expr(d, t, pos + 1) {
            Err(x) => Err(x),
            Ok((idx, p2)) => match expect_spec(t, p2, Sym::Rbracket, ErrMsg::ExpectedRbracket) {
                Err(x) => Err(x),
                Ok(p3) => if !adv(t, pos, p3) {
                    Err(stuck(t, pos))
                } else {
                    p_postfix(d, t, p3, Expr::Subscript(Box::new(e), Box::new(idx)))
                },
            },
        }
    } else {
        Ok((e, pos))
    }
}

/// The atom at `pos`, before any postfix.
pub open spec fn p_atom(d: Dialect, t: Seq<Token<String>>, pos: int) -> PRes<Expr>
    decreases t.len() - pos, 1int,
{
    match kind_at(t, pos) {
        TokenKind::Sym(Sym::NoneVal) => Ok((Expr::NoneVal, pos + 1)),
        TokenKind::Sym(Sym::TrueVal) => Ok((Expr::Bool(true), pos + 1)),
        TokenKind::Sym(Sym::FalseVal) => Ok((Expr::Bool(false), pos + 1)),
        TokenKind::Int(v) => Ok((Expr::Int(v), pos + 1)),
        TokenKind::Float(s) => Ok((Expr::Float(s), pos + 1)),
        TokenKind::Str(s) => Ok((Expr::Str(s), pos + 1)),
        TokenKind::FString(s) => Ok((Expr::FString(s), pos + 1)),
        TokenKind::Name(n) => Ok((Expr::Name(n), pos + 1)),
        TokenKind::Sym(Sym::Lparen) => if at(t, pos + 1, Sym::Rparen) {
            Ok((Expr::Tuple(Items::Nil), pos + 2))
        } else {
            match p_expr(d, t, pos + 1) {
                Err(e) => Err(e),
                Ok((first, p2)) => if !adv(t, pos, p2) {
                    Err(stuck(t, pos))
                } else if at(t, p2, Sym::Comma) {
                    let items = if at(t, p2 + 1, Sym::Rparen) {
                        Ok((seq![first], p2 + 1))
                    } else {
                        p_seq_items(d, t, p2 + 1, seq![first], Sym::Rparen, true)
                    };
                    match items {
                        Err(e) => Err(e),
                        Ok((items, p3)) => match expect_spec(
                            t,
                            p3,
                            Sym::Rparen,
                            ErrMsg::ExpectedRparen,
                        ) {
                            Err(e) => Err(e),
                            Ok(p4) => Ok((Expr::Tuple(Items::from_seq(items)), p4)),
                        },
                    }
                } else {
                    match expect_spec(t, p2, Sym::Rparen, ErrMsg::ExpectedRparen) {
                        Err(e) => Err(e),
                        Ok(p3) => Ok((first, p3)),
                    }
                },
            }
        },
        TokenKind::Sym(Sym::Lbracket) => if at(t, pos + 1, Sym::Rbracket) {
            Ok((Expr::List(Items::Nil), pos + 2))
        } else {
            match p_expr(d, t, pos + 1) {
                Err(e) => Err(e),
                Ok((first, p2)) => if !adv(t, pos, p2) {
                    Err(stuck(t, pos))
                } else if at(t, p2, Sym::For) {
                    match p_expr_list(d, t, p2 + 1) {
                        Err(e) => Err(e),
                        Ok((target, p3)) => if !adv(t, pos, p3) {
                            Err(stuck(t, pos))
                        } else {
                            match expect_spec(t, p3, Sym::In, ErrMsg::ExpectedIn) {
                            Err(e) => Err(e),
                            Ok(p4) => match p_expr(d, t, p4) {
                                Err(e) => Err(e),
                                Ok((iter, p5)) => if !adv(t, pos, p5) {
                                    Err(stuck(t, pos))
                                } else {
                                    let cond = if at(t, p5, Sym::If) {
                                        match p_expr(d, t, p5 + 1) {
                                            Err(e) => Err(e),
                                            Ok((c, p6)) => Ok((Some(Box::new(c)), p6)),
                                        }
                                    } else {
                                        Ok((None, p5))
                                    };
                                    match cond {
                                        Err(e) => Err(e),
                                        Ok((c, p6)) => match expect_spec(
                                            t,
                                            p6,
                                            Sym::Rbracket,
                                            ErrMsg::ExpectedRbracket,
                                        ) {
                                            Err(e) => Err(e),
                                            Ok(p7) => Ok(
                                                (
                                                    Expr::ListComp(
                                                        Box::new(first),
                                                        Box::new(target),
                                                        Box::new(iter),
                                                        c,
                                                    ),
                                                    p7,
                                                ),
                                            ),
                                        },
                                    }
                                },
                            },
                        }},
                    }
                } else {
                    let items = if at(t, p2, Sym::Comma) {
                        if at(t, p2 + 1, Sym::Rbracket) {
                            Ok((seq![first], p2 + 1))
                        } else {
                            p_seq_items(d, t, p2 + 1, seq![first], Sym::Rbracket, true)
                        }
                    } else {
                        Ok((seq![first], p2))
                    };
                    match items {
                        Err(e) => Err(e),
                        Ok((items, p3)) => match expect_spec(
                            t,
                            p3,
                            Sym::Rbracket,
                            ErrMsg::ExpectedRbracket,
                        ) {
                            Err(e) => Err(e),
                            Ok(p4) => Ok((Expr::List(Items::from_seq(items)), p4)),
                        },
                    }
                },
            }
        },
        TokenKind::Sym(Sym::Lbrace) => if at(t, pos + 1, Sym::Rbrace) {
            Ok((Expr::Dict(Items::Nil), pos + 2))
        } else {
            match p_dict_items(d, t, pos + 1, seq![]) {
                Err(e) => Err(e),
                Ok((pairs, p2)) => match expect_spec(t, p2, Sym::Rbrace, ErrMsg::ExpectedRbrace) {
                    Err(e) => Err(e),
                    Ok(p3) => Ok((Expr::Dict(Items::from_seq(pairs)), p3)),
                },
            }
        },
        _ => Err(err_at(t, pos, ErrMsg::ExpectedExpr)),
    }
}

/// An atom followed by its postfix operations.
pub open spec fn p_primary(d: Dialect, t: Seq<Token<String>>, pos: int) -> PRes<Expr>
    decreases t.len() - pos, 2int,
{
    if d == Dialect::Py4 {
        match p_atom(d, t, pos) {
            Err(e) => Err(e),
            Ok((e, p1)) => if !adv(t, pos, p1) {
                Err(stuck(t, pos))
            } else {
                p_postfix(d, t, p1, e)
            },
        }
    } else {
        p_small_primary(d, t, pos)
    }
}

/// A primary of the smaller dialects: a literal, a name, a parenthesised
/// expression, a list or a dictionary, with its postfix operations.
pub open spec fn p_small_primary(d: Dialect, t: Seq<Token<String>>, pos: int) -> PRes<Expr>
    decreases t.len() - pos, 1int,
{
    match kind_at(t, pos) {
        TokenKind::Int(v) => p_postfix(d, t, pos + 1, Expr::Int(v)),
        TokenKind::Float(s) => p_postfix(d, t, pos + 1, Expr::Float(s)),
        TokenKind::Str(s) => p_postfix(d, t, pos + 1, Expr::Str(s)),
        TokenKind::Name(n) => p_postfix(d, t, pos + 1, Expr::Name(n)),
        TokenKind::Sym(Sym::Lparen) => match p_expr(d, t, pos + 1) {
            Err(e) => Err(e),
            Ok((e, p2)) => match expect_spec(t, p2, Sym::Rparen, ErrMsg::ExpectedRparen) {
                Err(x) => Err(x),
                Ok(p3) => if !adv(t, pos, p3) {
                    Err(stuck(t, pos))
                } else {
                    p_postfix(d, t, p3, e)
                },
            },
        },
        TokenKind::Sym(_) => if d == Dialect::Basic {
            p_basic_sym(d, t, pos)
        } else {
            Err(err_at(t, pos, ErrMsg::ExpectedExpression))
        },
        _ => Err(err_at(t, pos, ErrMsg::ExpectedExpression)),
    }
}

/// The keyword literals, lists and dictionaries of the `Basic` dialect.
pub open spec fn p_basic_sym(d: Dialect, t: Seq<Token<String>>, pos: int) -> PRes<Expr>
    decreases t.len() - pos, 0int,
{
    if at(t, pos, Sym::NoneVal) {
        p_postfix(d, t, pos + 1, Expr::NoneVal)
    } else if at(t, pos, Sym::TrueVal) {
        p_postfix(d, t, pos + 1, Expr::Bool(true))
    } else if at(t, pos, Sym::FalseVal) {
        p_postfix(d, t, pos + 1, Expr::Bool(false))
    } else if at(t, pos, Sym::Lbracket) {
        let items = if at(t, pos + 1, Sym::Rbracket) {
            Ok((Seq::<Expr>::empty(), pos + 2))
        } else {
            match p_seq_items(d, t, pos + 1, seq![], Sym::Rbracket, true) {
                Err(e) => Err(e),
                Ok((xs, p2)) => match expect_spec(t, p2, Sym::Rbracket, ErrMsg::ExpectedRbracket) {
                    Err(e) => Err(e),
                    Ok(p3) => Ok((xs, p3)),
                },
            }
        };
        match items {
            Err(e) => Err(e),
            Ok((xs, p3)) => if !adv(t, pos, p3) {
                Err(stuck(t, pos))
            } else {
                p_postfix(d, t, p3, Expr::List(Items::from_seq(xs)))
            },
        }
    } else if at(t, pos, Sym::Lbrace) {
        let pairs = if at(t, pos + 1, Sym::Rbrace) {
            Ok((Seq::<(Expr, Expr)>::empty(), pos + 2))
        } else {
            match p_dict_items(d, t, pos + 1, seq![]) {
                Err(e) => Err(e),
                Ok((ps, p2)) => match expect_spec(t, p2, Sym::Rbrace, ErrMsg::ExpectedRbrace) {
                    Err(e) => Err(e),
                    Ok(p3) => Ok((ps, p3)),
                },
            }
        };
        match pairs {
            Err(e) => Err(e),
            Ok((ps, p3)) => if !adv(t, pos, p3) {
                Err(stuck(t, pos))
            } else {
                p_postfix(d, t, p3, Expr::Dict(Items::from_seq(ps)))
            },
        }
    } else {
        Err(err_at(t, pos, ErrMsg::ExpectedExpression))
    }
}

/// The message for a missing attribute name after `.`.
pub open spec fn attr_msg(d: Dialect) -> ErrMsg {
    match d {
        Dialect::Py0i => ErrMsg::ExpectedAttributeName,
        Dialect::Basic => ErrMsg::ExpectedAttribute,
        Dialect::Py4 => ErrMsg::ExpectedAttr,
    }
}

/// The message for a missing `:` between a dictionary key and its value.
pub open spec fn dict_colon_msg(d: Dialect) -> ErrMsg {
    if d == Dialect::Py4 {
        ErrMsg::ExpectedColon
    } else {
        ErrMsg::ExpectedColonInDict
    }
}


// ---------------------------------------------------------------------------
// Statements
// ---------------------------------------------------------------------------

/// The first position at or after `pos` that is not a `Newline`.
pub open spec fn skip_nl(t: Seq<Token<String>>, pos: int) -> int
    decreases t.len() - pos,
{
    if at(t, pos, Sym::Newline) {
        skip_nl(t, pos + 1)
    } else {
        pos
    }
}

pub proof fn lemma_skip_nl(t: Seq<Token<String>>, pos: int)
    ensures
        skip_nl(t, pos) >= pos,
        pos <= t.len() ==> skip_nl(t, pos) <= t.len(),
    decreases t.len() - pos,
{
    if at(t, pos, Sym::Newline) {
        lemma_skip_nl(t, pos + 1);
    }
}

/// A one-element statement list.
pub open spec fn single(s: Stmt) -> Items<Stmt> {
    Items::Cons(Box::new(s), Box::new(Items::Nil))
}

/// Nests `elif` branches into the `else` branch: the last `elif` wraps
/// `els`, each earlier one wraps the result.
pub open spec fn fold_elifs(elifs: Seq<(Expr, Items<Stmt>)>, els: Items<Stmt>) -> Items<Stmt>
    decreases elifs.len(),
{
    if elifs.len() == 0 {
        els
    } else {
        fold_elifs(elifs.drop_last(), single(Stmt::If(elifs.last().0, elifs.last().1, els)))
    }
}

/// `name ('.' name)*` as its list of segments.
pub open spec fn p_dotted(t: Seq<Token<String>>, pos: int) -> PRes<Seq<String>> {
    match name_spec(t, pos, ErrMsg::ExpectedModuleName) {
        Err(e) => Err(e),
        Ok((n, p1)) => p_dotted_rest(t, p1, seq![n]),
    }
}

pub open spec fn p_dotted_rest(t: Seq<Token<String>>, pos: int, acc: Seq<String>) -> PRes<Seq<String>>
    decreases t.len() - pos,
{
    if at(t, pos, Sym::Dot) {
        match name_spec(t, pos + 1, ErrMsg::ExpectedModuleNameAfterDot) {
            Err(e) => Err(e),
            Ok((n, p2)) => p_dotted_rest(t, p2, acc.push(n)),
        }
    } else {
        Ok((acc, pos))
    }
}

pub type ParamsRes = (Seq<Param>, Option<String>, Option<String>);

/// Function parameters up to the closing `)`: `name`, `name=default`,
/// `*args` and `**kwargs`.
pub open spec fn p_params(
    d: Dialect,
    t: Seq<Token<String>>,
    pos: int,
    ps: Seq<Param>,
    va: Option<String>,
    kw: Option<String>,
) -> PRes<ParamsRes>
    decreases t.len() - pos, 12int,
{
    if at(t, pos, Sym::Star) {
        let star = if at(t, pos + 1, Sym::Star) {
            match name_spec(t, pos + 2, ErrMsg::ExpectedKwargName) {
                Err(e) => Err(e),
                Ok((n, q)) => Ok(((va, Some(n)), q)),
            }
        } else {
            match name_spec(t, pos + 1, ErrMsg::ExpectedVarargName) {
                Err(e) => Err(e),
                Ok((n, q)) => Ok(((Some(n), kw), q)),
            }
        };
        match star {
            Err(e) => Err(e),
            Ok(((va2, kw2), q)) => {
                let q2 = if at(t, q, Sym::Comma) {
                    q + 1
                } else {
                    q
                };
                if at(t, q2, Sym::Rparen) {
                    Ok(((ps, va2, kw2), q2))
                } else {
                    p_params(d, t, q2, ps, va2, kw2)
                }
            },
        }
    } else {
        match kind_at(t, pos) {
            TokenKind::Name(pn) => {
                let dflt = if at(t, pos + 1, Sym::Equal) {
                    match p_expr(d, t, pos + 2) {
                        Err(e) => Err(e),
                        Ok((v, q)) => Ok((Some(v), q)),
                    }
                } else {
                    Ok((None, pos + 1))
                };
                match dflt {
                    Err(e) => Err(e),
                    Ok((v, q)) => if !adv(t, pos, q) {
                        Err(stuck(t, pos))
                    } else {
                        let ps2 = ps.push(Param { name: pn, default: v });
                        if at(t, q, Sym::Comma) {
                            if at(t, q + 1, Sym::Rparen) {
                                Ok(((ps2, va, kw), q + 1))
                            } else {
                                p_params(d, t, q + 1, ps2, va, kw)
                            }
                        } else {
                            Ok(((ps2, va, kw), q))
                        }
                    },
                }
            },
            _ => Err(err_at(t, pos, ErrMsg::ExpectedParameterName)),
        }
    }
}

/// A block after `:`: an indented run of statements, or one statement on
/// the same line.
pub open spec fn p_block(d: Dialect, t: Seq<Token<String>>, pos: int) -> PRes<Items<Stmt>>
    decreases t.len() - pos, 14int,
{
    if d != Dialect::Py4 {
        match expect_spec(t, pos, Sym::Newline, ErrMsg::ExpectedNewlineAfterColon) {
            Err(e) => Err(e),
            Ok(p1) => match expect_spec(t, p1, Sym::Indent, ErrMsg::ExpectedIndentedBlock) {
                Err(e) => Err(e),
                Ok(p2) => {
                    let p3 = skip_nl(t, p2);
                    proof {
                        lemma_skip_nl(t, p2);
                    }
                    match p_block_items(d, t, p3, seq![]) {
                        Err(e) => Err(e),
                        Ok((ss, p4)) => match expect_spec(t, p4, Sym::Dedent, ErrMsg::ExpectedDedent) {
                            Err(e) => Err(e),
                            Ok(p5) => Ok((Items::from_seq(ss), p5)),
                        },
                    }
                },
            },
        }
    } else if at(t, pos, Sym::Newline) {
        match expect_spec(t, pos + 1, Sym::Indent, ErrMsg::ExpectedIndent) {
            Err(e) => Err(e),
            Ok(p2) => {
                let p3 = skip_nl(t, p2);
                proof {
                    lemma_skip_nl(t, p2);
                }
                match p_block_items(d, t, p3, seq![]) {
                    Err(e) => Err(e),
                    Ok((ss, p4)) => match expect_spec(t, p4, Sym::Dedent, ErrMsg::ExpectedDedent) {
                        Err(e) => Err(e),
                        Ok(p5) => Ok((Items::from_seq(ss), p5)),
                    },
                }
            },
        }
    } else {
        match p_stmt(d, t, pos) {
            Err(e) => Err(e),
            Ok((s, p1)) => Ok((single(s), p1)),
        }
    }
}

/// Statements up to a `Dedent` (or the end).
pub open spec fn p_block_items(d: Dialect, t: Seq<Token<String>>, pos: int, acc: Seq<Stmt>) -> PRes<Seq<Stmt>>
    decreases t.len() - pos, 14int,
{
    if at(t, pos, Sym::Dedent) || at(t, pos, Sym::Eof) {
        Ok((acc, pos))
    } else {
        match p_stmt(d, t, pos) {
            Err(e) => Err(e),
            Ok((s, p1)) => if !adv(t, pos, p1) {
                Err(stuck(t, pos))
            } else {
                proof {
                    lemma_skip_nl(t, p1);
                }
                p_block_items(d, t, skip_nl(t, p1), acc.push(s))
            },
        }
    }
}

/// The `except` clauses of a `try` statement.
pub open spec fn p_handlers(d: Dialect, t: Seq<Token<String>>, pos: int, acc: Seq<Handler>) -> PRes<Seq<Handler>>
    decreases t.len() - pos, 12int,
{
    if at(t, pos, Sym::Except) {
        let q = pos + 1;
        let types = if at(t, q, Sym::Lparen) {
            match p_names(t, q + 1, seq![], ErrMsg::ExpectedExcName, false) {
                Err(e) => Err(e),
                Ok((ns, q2)) => match expect_spec(t, q2, Sym::Rparen, ErrMsg::ExpectedRparen) {
                    Err(e) => Err(e),
                    Ok(q3) => Ok((ns, q3)),
                },
            }
        } else {
            match kind_at(t, q) {
                TokenKind::Name(n) => Ok((seq![n], q + 1)),
                _ => Ok((Seq::<String>::empty(), q)),
            }
        };
        match types {
            Err(e) => Err(e),
            Ok((ns, q3)) => {
                let alias = if ns.len() > 0 && at(t, q3, Sym::As) {
                    match name_spec(t, q3 + 1, ErrMsg::ExpectedVar) {
                        Err(e) => Err(e),
                        Ok((a, q4)) => Ok((Some(a), q4)),
                    }
                } else {
                    Ok((None, q3))
                };
                match alias {
                    Err(e) => Err(e),
                    Ok((a, q4)) => if !adv(t, pos, q4) {
                        Err(stuck(t, pos))
                    } else {
                        match expect_spec(t, q4, Sym::Colon, ErrMsg::ExpectedColon) {
                            Err(e) => Err(e),
                            Ok(q5) => match p_block(d, t, q5) {
                                Err(e) => Err(e),
                                Ok((b, q6)) => if !adv(t, pos, q6) {
                                    Err(stuck(t, pos))
                                } else {
                                    proof {
                                        lemma_skip_nl(t, q6);
                                    }
                                    p_handlers(
                                        d,
                                        t,
                                        skip_nl(t, q6),
                                        acc.push(
                                            Handler {
                                                types: Items::from_seq(ns),
                                                alias: a,
                                                body: b,
                                            },
                                        ),
                                    )
                                },
                            },
                        }
                    },
                }
            },
        }
    } else {
        Ok((acc, pos))
    }
}

/// The `elif` branches of an `if` statement.
pub open spec fn p_elifs(d: Dialect, t: Seq<Token<String>>, pos: int, acc: Seq<(Expr, Items<Stmt>)>) -> PRes<
    Seq<(Expr, Items<Stmt>)>,
>
    decreases t.len() - pos, 12int,
{
    if at(t, pos, Sym::Elif) {
        match p_expr(d, t, pos + 1) {
            Err(e) => Err(e),
            Ok((c, q1)) => if !adv(t, pos, q1) {
                Err(stuck(t, pos))
            } else {
                match expect_spec(t, q1, Sym::Colon, ErrMsg::ExpectedColon) {
                    Err(e) => Err(e),
                    Ok(q2) => match p_block(d, t, q2) {
                        Err(e) => Err(e),
                        Ok((b, q3)) => if !adv(t, pos, q3) {
                            Err(stuck(t, pos))
                        } else {
                            proof {
                                lemma_skip_nl(t, q3);
                            }
                            p_elifs(d, t, skip_nl(t, q3), acc.push((c, b)))
                        },
                    },
                }
            },
        }
    } else {
        Ok((acc, pos))
    }
}

/// `def name(params): block`
pub open spec fn p_def(d: Dialect, t: Seq<Token<String>>, pos: int) -> PRes<Stmt>
    decreases t.len() - pos, 12int,
{
    match name_spec(t, pos + 1, ErrMsg::ExpectedName) {
        Err(e) => Err(e),
        Ok((n, p2)) => match expect_spec(t, p2, Sym::Lparen, ErrMsg::ExpectedLparen) {
            Err(e) => Err(e),
            Ok(p3) => {
                let params = if at(t, p3, Sym::Rparen) {
                    Ok(((Seq::<Param>::empty(), None, None), p3 + 1))
                } else {
                    match p_params(d, t, p3, seq![], None, None) {
                        Err(e) => Err(e),
                        Ok((r, p4)) => match expect_spec(t, p4, Sym::Rparen, ErrMsg::ExpectedRparen) {
                            Err(e) => Err(e),
                            Ok(p5) => Ok((r, p5)),
                        },
                    }
                };
                match params {
                    Err(e) => Err(e),
                    Ok(((ps, va, kw), p5)) => if !adv(t, pos, p5) {
                        Err(stuck(t, pos))
                    } else {
                        match expect_spec(t, p5, Sym::Colon, ErrMsg::ExpectedColon) {
                            Err(e) => Err(e),
                            Ok(p6) => match p_block(d, t, p6) {
                                Err(e) => Err(e),
                                Ok((b, p7)) => Ok(
                                    (Stmt::FunctionDef(n, Items::from_seq(ps), va, kw, b), p7),
                                ),
                            },
                        }
                    },
                }
            },
        },
    }
}

/// `if c: block (elif c: block)* [else: block]`
pub open spec fn p_if(d: Dialect, t: Seq<Token<String>>, pos: int) -> PRes<Stmt>
    decreases t.len() - pos, 12int,
{
    match p_expr(d, t, pos + 1) {
        Err(e) => Err(e),
        Ok((c, p1)) => if !adv(t, pos, p1) {
            Err(stuck(t, pos))
        } else {
            match expect_spec(t, p1, Sym::Colon, ErrMsg::ExpectedColon) {
                Err(e) => Err(e),
                Ok(p2) => match p_block(d, t, p2) {
                    Err(e) => Err(e),
                    Ok((body, p3)) => if !adv(t, pos, p3) {
                        Err(stuck(t, pos))
                    } else {
                        proof {
                            lemma_skip_nl(t, p3);
                        }
                        let elifs_r = if d == Dialect::Py0i {
                            Ok((Seq::<(Expr, Items<Stmt>)>::empty(), skip_nl(t, p3)))
                        } else {
                            p_elifs(d, t, skip_nl(t, p3), seq![])
                        };
                        match elifs_r {
                            Err(e) => Err(e),
                            Ok((elifs, p4)) => if !adv(t, pos, p4) {
                                Err(stuck(t, pos))
                            } else {
                                let els = if at(t, p4, Sym::Else) {
                                    match expect_spec(t, p4 + 1, Sym::Colon, ErrMsg::ExpectedColon) {
                                        Err(e) => Err(e),
                                        Ok(p5) => p_block(d, t, p5),
                                    }
                                } else {
                                    Ok((Items::Nil, p4))
                                };
                                match els {
                                    Err(e) => Err(e),
                                    Ok((e, p6)) => Ok((Stmt::If(c, body, fold_elifs(elifs, e)), p6)),
                                }
                            },
                        }
                    },
                },
            }
        },
    }
}

/// `class Name[(base)]: block`
pub open spec fn p_class(d: Dialect, t: Seq<Token<String>>, pos: int) -> PRes<Stmt>
    decreases t.len() - pos, 12int,
{
    match name_spec(t, pos + 1, ErrMsg::ExpectedClassName) {
        Err(e) => Err(e),
        Ok((n, p1)) => {
            let base = if at(t, p1, Sym::Lparen) {
                match p_expr(d, t, p1 + 1) {
                    Err(e) => Err(e),
                    Ok((b, p2)) => match expect_spec(t, p2, Sym::Rparen, ErrMsg::ExpectedRparen) {
                        Err(e) => Err(e),
                        Ok(p3) => Ok((Some(b), p3)),
                    },
                }
            } else {
                Ok((None, p1))
            };
            match base {
                Err(e) => Err(e),
                Ok((b, p3)) => if !adv(t, pos, p3) {
                    Err(stuck(t, pos))
                } else {
                    match expect_spec(t, p3, Sym::Colon, ErrMsg::ExpectedColon) {
                        Err(e) => Err(e),
                        Ok(p4) => match p_block(d, t, p4) {
                            Err(e) => Err(e),
                            Ok((body, p5)) => Ok((Stmt::ClassDef(n, b, body), p5)),
                        },
                    }
                },
            }
        },
    }
}

/// `try: block (except ...: block)+`
pub open spec fn p_try(d: Dialect, t: Seq<Token<String>>, pos: int) -> PRes<Stmt>
    decreases t.len() - pos, 12int,
{
    match expect_spec(t, pos + 1, Sym::Colon, ErrMsg::ExpectedColon) {
        Err(e) => Err(e),
        Ok(p1) => match p_block(d, t, p1) {
            Err(e) => Err(e),
            Ok((body, p2)) => if !adv(t, pos, p2) {
                Err(stuck(t, pos))
            } else {
                proof {
                    lemma_skip_nl(t, p2);
                }
                match p_handlers(d, t, skip_nl(t, p2), seq![]) {
                    Err(e) => Err(e),
                    Ok((hs, p3)) => if hs.len() == 0 {
                        Err(PErr::Plain(ErrMsg::ExpectedExceptBlock))
                    } else {
                        Ok((Stmt::Try(body, Items::from_seq(hs)), p3))
                    },
                }
            },
        },
    }
}

/// `while c: block`
pub open spec fn p_while(d: Dialect, t: Seq<Token<String>>, pos: int) -> PRes<Stmt>
    decreases t.len() - pos, 12int,
{
    match p_expr(d, t, pos + 1) {
        Err(e) => Err(e),
        Ok((c, p1)) => if !adv(t, pos, p1) {
            Err(stuck(t, pos))
        } else {
            match expect_spec(t, p1, Sym::Colon, ErrMsg::ExpectedColon) {
                Err(e) => Err(e),
                Ok(p2) => match p_block(d, t, p2) {
                    Err(e) => Err(e),
                    Ok((b, p3)) => Ok((Stmt::While(c, b), p3)),
                },
            }
        },
    }
}

/// `for target in iterable: block`
pub open spec fn p_for(d: Dialect, t: Seq<Token<String>>, pos: int) -> PRes<Stmt>
    decreases t.len() - pos, 12int,
{
    match p_expr_list(d, t, pos + 1) {
        Err(e) => Err(e),
        Ok((tg, p1)) => if !adv(t, pos, p1) {
            Err(stuck(t, pos))
        } else {
            match expect_spec(t, p1, Sym::In, ErrMsg::ExpectedIn) {
                Err(e) => Err(e),
                Ok(p2) => match p_expr_list(d, t, p2) {
                    Err(e) => Err(e),
                    Ok((it, p3)) => if !adv(t, pos, p3) {
                        Err(stuck(t, pos))
                    } else {
                        match expect_spec(t, p3, Sym::Colon, ErrMsg::ExpectedColon) {
                            Err(e) => Err(e),
                            Ok(p4) => match p_block(d, t, p4) {
                                Err(e) => Err(e),
                                Ok((b, p5)) => Ok((Stmt::For(tg, it, b), p5)),
                            },
                        }
                    },
                },
            }
        },
    }
}

/// An expression statement or an assignment (`=`, `+=`, `-=`).
pub open spec fn p_simple(d: Dialect, t: Seq<Token<String>>, pos: int) -> PRes<Stmt>
    decreases t.len() - pos, 12int,
{
    match p_expr_list(d, t, pos) {
        Err(e) => Err(e),
        Ok((e, p1)) => if !adv(t, pos, p1) {
            Err(stuck(t, pos))
        } else if at(t, p1, Sym::Equal) || at(t, p1, Sym::PlusEq) || at(t, p1, Sym::MinusEq) {
            let is_aug = !at(t, p1, Sym::Equal);
            let op = if at(t, p1, Sym::PlusEq) {
                Op::Add
            } else {
                Op::Sub
            };
            match p_expr_list(d, t, p1 + 1) {
                Err(x) => Err(x),
                Ok((v, p2)) => match expect_spec(t, p2, Sym::Newline, ErrMsg::ExpectedNewline) {
                    Err(x) => Err(x),
                    Ok(p3) => if is_aug {
                        if e is Tuple || e is List {
                            Err(PErr::Plain(ErrMsg::IllegalAugTarget))
                        } else {
                            Ok((Stmt::Assign(e, Expr::BinOp(op, Box::new(e), Box::new(v))), p3))
                        }
                    } else {
                        Ok((Stmt::Assign(e, v), p3))
                    },
                },
            }
        } else {
            match expect_spec(t, p1, Sym::Newline, ErrMsg::ExpectedNewline) {
                Err(x) => Err(x),
                Ok(p2) => Ok((Stmt::Expr(e), p2)),
            }
        },
    }
}

/// A keyword followed by a line end: `break`, `continue`, `pass`.
pub open spec fn p_bare(d: Dialect, t: Seq<Token<String>>, pos: int, s: Stmt) -> PRes<Stmt> {
    match expect_spec(t, pos + 1, Sym::Newline, ErrMsg::ExpectedNewline) {
        Err(e) => Err(e),
        Ok(p1) => Ok((s, p1)),
    }
}

/// `import a.b.c`
pub open spec fn p_import(t: Seq<Token<String>>, pos: int) -> PRes<Stmt> {
    match p_dotted(t, pos + 1) {
        Err(e) => Err(e),
        Ok((ns, p1)) => match expect_spec(t, p1, Sym::Newline, ErrMsg::ExpectedNewline) {
            Err(e) => Err(e),
            Ok(p2) => Ok((Stmt::Import(Items::from_seq(ns)), p2)),
        },
    }
}

/// `from a.b import x, y`
pub open spec fn p_from(t: Seq<Token<String>>, pos: int) -> PRes<Stmt> {
    match p_dotted(t, pos + 1) {
        Err(e) => Err(e),
        Ok((m, p1)) => match expect_spec(t, p1, Sym::Import, ErrMsg::ExpectedImport) {
            Err(e) => Err(e),
            Ok(p2) => match p_names(t, p2, seq![], ErrMsg::ExpectedName, false) {
                Err(e) => Err(e),
                Ok((ns, p3)) => match expect_spec(t, p3, Sym::Newline, ErrMsg::ExpectedNewline) {
                    Err(e) => Err(e),
                    Ok(p4) => Ok((Stmt::FromImport(Items::from_seq(m), Items::from_seq(ns)), p4)),
                },
            },
        },
    }
}

/// `raise expr`
pub open spec fn p_raise(d: Dialect, t: Seq<Token<String>>, pos: int) -> PRes<Stmt>
    decreases t.len() - pos, 12int,
{
    match p_expr(d, t, pos + 1) {
        Err(e) => Err(e),
        Ok((e, p1)) => match expect_spec(t, p1, Sym::Newline, ErrMsg::ExpectedNewline) {
            Err(x) => Err(x),
            Ok(p2) => Ok((Stmt::Raise(e), p2)),
        },
    }
}

/// `return [exprs]`
pub open spec fn p_return(d: Dialect, t: Seq<Token<String>>, pos: int) -> PRes<Stmt>
    decreases t.len() - pos, 12int,
{
    if at(t, pos + 1, Sym::Newline) {
        Ok((Stmt::Return(None), pos + 2))
    } else {
        let value = if d == Dialect::Py4 {
            p_expr_list(d, t, pos + 1)
        } else {
            p_expr(d, t, pos + 1)
        };
        match value {
            Err(e) => Err(e),
            Ok((e, p1)) => match expect_spec(t, p1, Sym::Newline, ErrMsg::ExpectedNewline) {
                Err(x) => Err(x),
                Ok(p2) => Ok((Stmt::Return(Some(e)), p2)),
            },
        }
    }
}

/// Parameters that are plain names, with no defaults.
pub open spec fn plain_params(ns: Seq<String>) -> Seq<Param> {
    Seq::new(ns.len(), |i: int| Param { name: ns[i], default: None })
}

/// The message for a missing function name after `def`.
pub open spec fn func_name_msg(d: Dialect) -> ErrMsg {
    if d == Dialect::Basic {
        ErrMsg::ExpectedFuncName
    } else {
        ErrMsg::ExpectedFunctionName
    }
}

/// The message for a missing parameter name in a `def`.
pub open spec fn param_msg(d: Dialect) -> ErrMsg {
    if d == Dialect::Basic {
        ErrMsg::ExpectedParam
    } else {
        ErrMsg::ExpectedParamName
    }
}

/// `def name(a, b, ...): block` with plain parameter names.
pub open spec fn p_def_simple(d: Dialect, t: Seq<Token<String>>, pos: int) -> PRes<Stmt>
    decreases t.len() - pos, 12int,
{
    match name_spec(t, pos + 1, func_name_msg(d)) {
        Err(e) => Err(e),
        Ok((n, p2)) => match expect_spec(t, p2, Sym::Lparen, ErrMsg::ExpectedLparen) {
            Err(e) => Err(e),
            Ok(p3) => {
                let params = if at(t, p3, Sym::Rparen) {
                    Ok((Seq::<String>::empty(), p3 + 1))
                } else {
                    match p_names(t, p3, seq![], param_msg(d), d == Dialect::Basic) {
                        Err(e) => Err(e),
                        Ok((ns, p4)) => match expect_spec(t, p4, Sym::Rparen, ErrMsg::ExpectedRparen) {
                            Err(e) => Err(e),
                            Ok(p5) => Ok((ns, p5)),
                        },
                    }
                };
                match params {
                    Err(e) => Err(e),
                    Ok((ns, p5)) => if !adv(t, pos, p5) {
                        Err(stuck(t, pos))
                    } else {
                        match expect_spec(t, p5, Sym::Colon, ErrMsg::ExpectedColon) {
                            Err(e) => Err(e),
                            Ok(p6) => match p_block(d, t, p6) {
                                Err(e) => Err(e),
                                Ok((b, p7)) => Ok(
                                    (
                                        Stmt::FunctionDef(
                                            n,
                                            Items::from_seq(plain_params(ns)),
                                            None,
                                            None,
                                            b,
                                        ),
                                        p7,
                                    ),
                                ),
                            },
                        }
                    },
                }
            },
        },
    }
}

/// `for name in expr: block`
pub open spec fn p_for_name(d: Dialect, t: Seq<Token<String>>, pos: int) -> PRes<Stmt>
    decreases t.len() - pos, 12int,
{
    match name_spec(t, pos + 1, ErrMsg::ExpectedLoopVar) {
        Err(e) => Err(e),
        Ok((n, p1)) => match expect_spec(t, p1, Sym::In, ErrMsg::ExpectedIn) {
            Err(e) => Err(e),
            Ok(p2) => match p_expr(d, t, p2) {
                Err(e) => Err(e),
                Ok((it, p3)) => if !adv(t, pos, p3) {
                    Err(stuck(t, pos))
                } else {
                    match expect_spec(t, p3, Sym::Colon, ErrMsg::ExpectedColon) {
                        Err(e) => Err(e),
                        Ok(p4) => match p_block(d, t, p4) {
                            Err(e) => Err(e),
                            Ok((b, p5)) => Ok((Stmt::For(Expr::Name(n), it, b), p5)),
                        },
                    }
                },
            },
        },
    }
}

/// An expression statement or an assignment of the `Basic` dialect: `=`,
/// `+=` and `-=` take a name, a subscript or an attribute; `t += v` assigns
/// `t + v` to `t`.
pub open spec fn p_simple_basic(d: Dialect, t: Seq<Token<String>>, pos: int) -> PRes<Stmt>
    decreases t.len() - pos, 12int,
{
    match p_expr(d, t, pos) {
        Err(e) => Err(e),
        Ok((e, p1)) => if !adv(t, pos, p1) {
            Err(stuck(t, pos))
        } else if at(t, p1, Sym::Equal) || at(t, p1, Sym::PlusEq) || at(t, p1, Sym::MinusEq) {
            let is_aug = !at(t, p1, Sym::Equal);
            let op = if at(t, p1, Sym::PlusEq) {
                Op::Add
            } else {
                Op::Sub
            };
            match p_expr(d, t, p1 + 1) {
                Err(x) => Err(x),
                Ok((v, p2)) => match expect_spec(t, p2, Sym::Newline, ErrMsg::ExpectedNewline) {
                    Err(x) => Err(x),
                    Ok(p3) => if is_aug {
                        if e is Name || e is Subscript || e is Attribute {
                            Ok((Stmt::Assign(e, Expr::BinOp(op, Box::new(e), Box::new(v))), p3))
                        } else {
                            Err(PErr::Plain(ErrMsg::AugAssignNeedsName))
                        }
                    } else if e is Name || e is Subscript || e is Attribute {
                        Ok((Stmt::Assign(e, v), p3))
                    } else {
                        Err(PErr::Plain(ErrMsg::InvalidAssignTarget))
                    },
                },
            }
        } else {
            match expect_spec(t, p1, Sym::Newline, ErrMsg::ExpectedNewlineAfterExpression) {
                Err(x) => Err(x),
                Ok(p2) => Ok((Stmt::Expr(e), p2)),
            }
        },
    }
}

/// An expression statement, or `name = expr`, of the `Py0i` dialect.
pub open spec fn p_simple_py0i(d: Dialect, t: Seq<Token<String>>, pos: int) -> PRes<Stmt>
    decreases t.len() - pos, 12int,
{
    let assign_to = match kind_at(t, pos) {
        TokenKind::Name(n) => if at(t, pos + 1, Sym::Equal) {
            Some(n)
        } else {
            None
        },
        _ => None,
    };
    match assign_to {
        Some(n) => match p_expr(d, t, pos + 2) {
            Err(e) => Err(e),
            Ok((v, p1)) => match expect_spec(t, p1, Sym::Newline, ErrMsg::ExpectedNewlineAfterAssignment) {
                Err(x) => Err(x),
                Ok(p2) => Ok((Stmt::Assign(Expr::Name(n), v), p2)),
            },
        },
        None => match p_expr(d, t, pos) {
            Err(e) => Err(e),
            Ok((e, p1)) => match expect_spec(t, p1, Sym::Newline, ErrMsg::ExpectedNewlineAfterExpression) {
                Err(x) => Err(x),
                Ok(p2) => Ok((Stmt::Expr(e), p2)),
            },
        },
    }
}

/// One statement.
pub open spec fn p_stmt(d: Dialect, t: Seq<Token<String>>, pos: int) -> PRes<Stmt>
    decreases t.len() - pos, 13int,
{
    if d != Dialect::Py4 {
        if at(t, pos, Sym::Def) {
            p_def_simple(d, t, pos)
        } else if at(t, pos, Sym::If) {
            p_if(d, t, pos)
        } else if at(t, pos, Sym::While) {
            p_while(d, t, pos)
        } else if d == Dialect::Basic && at(t, pos, Sym::For) {
            p_for_name(d, t, pos)
        } else if at(t, pos, Sym::Return) {
            p_return(d, t, pos)
        } else if d == Dialect::Basic && at(t, pos, Sym::Break) {
            p_bare(d, t, pos, Stmt::Break)
        } else if d == Dialect::Basic && at(t, pos, Sym::Continue) {
            p_bare(d, t, pos, Stmt::Continue)
        } else if at(t, pos, Sym::Pass) {
            p_bare(d, t, pos, Stmt::Pass)
        } else if d == Dialect::Basic {
            p_simple_basic(d, t, pos)
        } else {
            p_simple_py0i(d, t, pos)
        }
    } else if at(t, pos, Sym::Import) {
        p_import(t, pos)
    } else if at(t, pos, Sym::From) {
        p_from(t, pos)
    } else if at(t, pos, Sym::Def) {
        p_def(d, t, pos)
    } else if at(t, pos, Sym::Class) {
        p_class(d, t, pos)
    } else if at(t, pos, Sym::Try) {
        p_try(d, t, pos)
    } else if at(t, pos, Sym::Raise) {
        p_raise(d, t, pos)
    } else if at(t, pos, Sym::If) {
        p_if(d, t, pos)
    } else if at(t, pos, Sym::While) {
        p_while(d, t, pos)
    } else if at(t, pos, Sym::For) {
        p_for(d, t, pos)
    } else if at(t, pos, Sym::Return) {
        p_return(d, t, pos)
    } else if at(t, pos, Sym::Break) {
        p_bare(d, t, pos, Stmt::Break)
    } else if at(t, pos, Sym::Continue) {
        p_bare(d, t, pos, Stmt::Continue)
    } else if at(t, pos, Sym::Pass) {
        p_bare(d, t, pos, Stmt::Pass)
    } else {
        p_simple(d, t, pos)
    }
}

/// The statements of a module from `pos` to the end.
pub open spec fn p_module_items(d: Dialect, t: Seq<Token<String>>, pos: int, acc: Seq<Stmt>) -> Result<
    Seq<Stmt>,
    PErr,
>
    decreases t.len() - pos, 15int,
{
    if at(t, pos, Sym::Eof) {
        Ok(acc)
    } else {
        match p_stmt(d, t, pos) {
            Err(e) => Err(e),
            Ok((s, p1)) => if !adv(t, pos, p1) {
                Err(stuck(t, pos))
            } else {
                proof {
                    lemma_skip_nl(t, p1);
                }
                p_module_items(d, t, skip_nl(t, p1), acc.push(s))
            },
        }
    }
}

/// A whole module: its statements, blank lines skipped.
pub open spec fn p_module(d: Dialect, t: Seq<Token<String>>) -> Result<Items<Stmt>, PErr> {
    match p_module_items(d, t, skip_nl(t, 0), seq![]) {
        Err(e) => Err(e),
        Ok(ss) => Ok(Items::from_seq(ss)),
    }
}

pub open spec fn res_spec<T>(r: Result<T, PErr>, end: usize) -> PRes<T> {
    match r {
        Ok(v) => Ok((v, end as int)),
        Err(e) => Err(e),
    }
}

pub open spec fn res_vec<T>(r: Result<Vec<T>, PErr>, end: usize) -> PRes<Seq<T>> {
    match r {
        Ok(v) => Ok((v@, end as int)),
        Err(e) => Err(e),
    }
}

/// A recursive-descent parser over a token stream that ends with `Eof`.
pub struct Parser<'a> {
    pub tokens: &'a [Token<String>],
    pub pos: usize,
    pub dialect: Dialect,
}

impl<'a> Parser<'a> {
    pub open spec fn wf(self) -> bool {
        wf_tokens(self.tokens@) && self.pos < self.tokens@.len() && self.tokens@.len() <= usize::MAX
    }

    /// `next` continues `self`: same tokens, no step back.
    pub open spec fn moved(self, next: Self) -> bool {
        next.wf() && next.tokens == self.tokens && next.dialect == self.dialect && self.pos <= next.pos
    }

    /// A parser at the start of `tokens`.
    pub fn new(tokens: &'a [Token<String>], dialect: Dialect) -> (p: Parser<'a>)
        requires
            wf_tokens(tokens@),
        ensures
            p.wf(),
            p.pos == 0,
            p.tokens == tokens,
            p.dialect == dialect,
    {
        let _n = tokens.len();
        Parser { tokens, pos: 0, dialect }
    }

    fn kind(&self) -> (k: &TokenKind<String>)
        requires
            self.wf(),
        ensures
            *k == kind_at(self.tokens@, self.pos as int),
    {
        &self.tokens[self.pos].kind
    }

    fn at(&self, k: Sym) -> (b: bool)
        requires
            self.wf(),
        ensures
            b == at(self.tokens@, self.pos as int, k),
    {
        self.tokens[self.pos].kind.sym_is(k)
    }

    fn at_next(&self, k: Sym) -> (b: bool)
        requires
            self.wf(),
        ensures
            b == at(self.tokens@, self.pos + 1, k),
    {
        if self.pos + 1 < self.tokens.len() {
            self.tokens[self.pos + 1].kind.sym_is(k)
        } else {
            k == Sym::Eof
        }
    }

    fn bump(&mut self)
        requires
            old(self).wf(),
            !at(old(self).tokens@, old(self).pos as int, Sym::Eof),
        ensures
            old(self).moved(*final(self)),
            final(self).pos == old(self).pos + 1,
    {
        self.pos = self.pos + 1;
    }

    fn err_here(&self, m: ErrMsg) -> (e: PErr)
        requires
            self.wf(),
        ensures
            e == err_at(self.tokens@, self.pos as int, m),
    {
        let tok = &self.tokens[self.pos];
        PErr::At(tok.line, tok.col, m)
    }

    fn expect(&mut self, k: Sym, m: ErrMsg) -> (r: Result<(), PErr>)
        requires
            old(self).wf(),
            k != Sym::Eof,
        ensures
            old(self).moved(*final(self)),
            match r {
                Ok(_) => expect_spec(old(self).tokens@, old(self).pos as int, k, m) == Ok::<
                    int,
                    PErr,
                >(final(self).pos as int),
                Err(e) => expect_spec(old(self).tokens@, old(self).pos as int, k, m) == Err::<
                    int,
                    PErr,
                >(e),
            },
    {
        if self.at(k) {
            self.bump();
            Ok(())
        } else {
            Err(self.err_here(m))
        }
    }

    fn expect_name(&mut self, m: ErrMsg) -> (r: Result<String, PErr>)
        requires
            old(self).wf(),
        ensures
            old(self).moved(*final(self)),
            res_spec(r, final(self).pos) == name_spec(old(self).tokens@, old(self).pos as int, m),
    {
        let n = match self.kind() {
            TokenKind::Name(n) => n.clone(),
            _ => {
                return Err(self.err_here(m));
            },
        };
        self.bump();
        Ok(n)
    }

    #[verifier::loop_isolation(false)]
    fn parse_names(&mut self, m: ErrMsg, trail: bool) -> (r: Result<Vec<String>, PErr>)
        requires
            old(self).wf(),
        ensures
            old(self).moved(*final(self)),
            res_vec(r, final(self).pos) == p_names(
                old(self).tokens@,
                old(self).pos as int,
                seq![],
                m,
                trail,
            ),
    {
        let ghost t = self.tokens@;
        let ghost pos0 = self.pos as int;
        let mut acc: Vec<String> = Vec::new();
        loop
            invariant
                old(self).moved(*self),
                pos0 == old(self).pos as int,
                t == self.tokens@,
                t == old(self).tokens@,
                p_names(t, pos0, seq![], m, trail) == p_names(t, self.pos as int, acc@, m, trail),
            decreases t.len() - self.pos,
        {
            let n = self.expect_name(m)?;
            acc.push(n);
            if self.at(Sym::Comma) {
                self.bump();
                if trail && self.at(Sym::Rparen) {
                    return Ok(acc);
                }
            } else {
                return Ok(acc);
            }
        }
    }

    /// `expr (',' expr)* [',']`: one expression, or a tuple of several.
    pub fn parse_expr_list(&mut self) -> (r: Result<Expr, PErr>)
        requires
            old(self).wf(),
        ensures
            old(self).moved(*final(self)),
            r is Ok ==> old(self).pos < final(self).pos,
            res_spec(r, final(self).pos) == p_expr_list(old(self).dialect, old(self).tokens@, old(self).pos as int),
        decreases old(self).tokens@.len() - old(self).pos, 12int,
    {
        let first = self.parse_expr()?;
        if self.at(Sym::Comma) {
            self.bump();
            let mut items: Vec<Expr> = Vec::new();
            items.push(first);
            assert(items@ =~= seq![first]);
            if ends_tuple_kind(self.kind()) {
                return Ok(Expr::Tuple(Items::from_vec(items)));
            }
            let items = self.parse_tuple_rest(items)?;
            return Ok(Expr::Tuple(Items::from_vec(items)));
        }
        Ok(first)
    }

    #[verifier::loop_isolation(false)]
    fn parse_tuple_rest(&mut self, acc: Vec<Expr>) -> (r: Result<Vec<Expr>, PErr>)
        requires
            old(self).wf(),
        ensures
            old(self).moved(*final(self)),
            r is Ok ==> old(self).pos < final(self).pos,
            res_vec(r, final(self).pos) == p_tuple_rest(
                old(self).dialect,
                old(self).tokens@,
                old(self).pos as int,
                acc@,
            ),
        decreases old(self).tokens@.len() - old(self).pos, 12int,
    {
        let ghost t = self.tokens@;
        let ghost pos0 = self.pos as int;
        let ghost acc0 = acc@;
        let mut acc = acc;
        let e = self.parse_expr()?;
        acc.push(e);
        loop
            invariant
                old(self).moved(*self),
                pos0 == old(self).pos as int,
                t == self.tokens@,
                t == old(self).tokens@,
                pos0 < self.pos,
                p_tuple_rest(self.dialect, t, pos0, acc0) == if at(t, self.pos as int, Sym::Comma) {
                    if ends_tuple(kind_at(t, self.pos + 1)) {
                        Ok((acc@, self.pos + 1))
                    } else {
                        p_tuple_rest(self.dialect, t, self.pos + 1, acc@)
                    }
                } else {
                    Ok((acc@, self.pos as int))
                },
            decreases t.len() - self.pos,
        {
            if !self.at(Sym::Comma) {
                return Ok(acc);
            }
            self.bump();
            if ends_tuple_kind(self.kind()) {
                return Ok(acc);
            }
            let e = self.parse_expr()?;
            acc.push(e);
        }
    }

    /// An expression: a lambda, or operands joined by `or`.
    #[verifier::loop_isolation(false)]
    #[verifier::rlimit(40)]
    pub fn parse_expr(&mut self) -> (r: Result<Expr, PErr>)
        requires
            old(self).wf(),
        ensures
            old(self).moved(*final(self)),
            r is Ok ==> old(self).pos < final(self).pos,
            res_spec(r, final(self).pos) == p_expr(old(self).dialect, old(self).tokens@, old(self).pos as int),
        decreases old(self).tokens@.len() - old(self).pos, 10int,
    {
        let ghost t = self.tokens@;
        let ghost pos0 = self.pos as int;
        if self.dialect == Dialect::Py0i {
            return self.parse_comp();
        }
        if self.dialect == Dialect::Py4 && self.at(Sym::Lambda) {
            self.bump();
            let params = if self.at(Sym::Colon) {
                self.bump();
                Vec::new()
            } else {
                let ps = self.parse_names(ErrMsg::ExpectedParam, false)?;
                self.expect(Sym::Colon, ErrMsg::ExpectedColon)?;
                ps
            };
            let body = self.parse_expr()?;
            return Ok(Expr::Lambda(Items::from_vec(params), Box::new(body)));
        }
        let mut e = self.parse_and()?;
        loop
            invariant
                old(self).moved(*self),
                pos0 == old(self).pos as int,
                t == self.tokens@,
                t == old(self).tokens@,
                pos0 < self.pos,
                p_expr(self.dialect, t, pos0) == p_or_rest(self.dialect, t, self.pos as int, e),
            decreases t.len() - self.pos,
        {
            if !self.at(Sym::Or) {
                return Ok(e);
            }
            self.bump();
            let r = self.parse_and()?;
            e = Expr::Logical(LogicOp::Or, Box::new(e), Box::new(r));
        }
    }

    #[verifier::loop_isolation(false)]
    fn parse_and(&mut self) -> (r: Result<Expr, PErr>)
        requires
            old(self).wf(),
        ensures
            old(self).moved(*final(self)),
            r is Ok ==> old(self).pos < final(self).pos,
            res_spec(r, final(self).pos) == p_and(old(self).dialect, old(self).tokens@, old(self).pos as int),
        decreases old(self).tokens@.len() - old(self).pos, 9int,
    {
        let ghost t = self.tokens@;
        let ghost pos0 = self.pos as int;
        let mut e = self.parse_not()?;
        loop
            invariant
                old(self).moved(*self),
                pos0 == old(self).pos as int,
                t == self.tokens@,
                t == old(self).tokens@,
                pos0 < self.pos,
                p_and(self.dialect, t, pos0) == p_and_rest(self.dialect, t, self.pos as int, e),
            decreases t.len() - self.pos,
        {
            if !self.at(Sym::And) {
                return Ok(e);
            }
            self.bump();
            let r = self.parse_not()?;
            e = Expr::Logical(LogicOp::And, Box::new(e), Box::new(r));
        }
    }

    fn parse_not(&mut self) -> (r: Result<Expr, PErr>)
        requires
            old(self).wf(),
        ensures
            old(self).moved(*final(self)),
            r is Ok ==> old(self).pos < final(self).pos,
            res_spec(r, final(self).pos) == p_not(old(self).dialect, old(self).tokens@, old(self).pos as int),
        decreases old(self).tokens@.len() - old(self).pos, 8int,
    {
        if self.at(Sym::Not) {
            self.bump();
            let e = self.parse_not()?;
            return Ok(Expr::UnaryOp(Op::Not, Box::new(e)));
        }
        self.parse_comp()
    }

    #[verifier::loop_isolation(false)]
    fn parse_comp(&mut self) -> (r: Result<Expr, PErr>)
        requires
            old(self).wf(),
        ensures
            old(self).moved(*final(self)),
            r is Ok ==> old(self).pos < final(self).pos,
            res_spec(r, final(self).pos) == p_comp(old(self).dialect, old(self).tokens@, old(self).pos as int),
        decreases old(self).tokens@.len() - old(self).pos, 7int,
    {
        let ghost t = self.tokens@;
        let ghost pos0 = self.pos as int;
        let mut e = self.parse_term()?;
        loop
            invariant
                old(self).moved(*self),
                pos0 == old(self).pos as int,
                t == self.tokens@,
                t == old(self).tokens@,
                pos0 < self.pos,
                p_comp(self.dialect, t, pos0) == p_comp_rest(self.dialect, t, self.pos as int, e),
            decreases t.len() - self.pos,
        {
            let op = match comp_op_of(self.kind()) {
                Some(op) => op,
                None => {
                    return Ok(e);
                },
            };
            self.bump();
            let r = self.parse_term()?;
            e = Expr::Compare(op, Box::new(e), Box::new(r));
        }
    }

    #[verifier::loop_isolation(false)]
    fn parse_term(&mut self) -> (r: Result<Expr, PErr>)
        requires
            old(self).wf(),
        ensures
            old(self).moved(*final(self)),
            r is Ok ==> old(self).pos < final(self).pos,
            res_spec(r, final(self).pos) == p_term(old(self).dialect, old(self).tokens@, old(self).pos as int),
        decreases old(self).tokens@.len() - old(self).pos, 6int,
    {
        let ghost t = self.tokens@;
        let ghost pos0 = self.pos as int;
        let mut e = self.parse_factor()?;
        loop
            invariant
                old(self).moved(*self),
                pos0 == old(self).pos as int,
                t == self.tokens@,
                t == old(self).tokens@,
                pos0 < self.pos,
                p_term(self.dialect, t, pos0) == p_term_rest(self.dialect, t, self.pos as int, e),
            decreases t.len() - self.pos,
        {
            let op = match term_op_of(self.kind()) {
                Some(op) => op,
                None => {
                    return Ok(e);
                },
            };
            self.bump();
            let r = self.parse_factor()?;
            e = Expr::BinOp(op, Box::new(e), Box::new(r));
        }
    }

    #[verifier::loop_isolation(false)]
    fn parse_factor(&mut self) -> (r: Result<Expr, PErr>)
        requires
            old(self).wf(),
        ensures
            old(self).moved(*final(self)),
            r is Ok ==> old(self).pos < final(self).pos,
            res_spec(r, final(self).pos) == p_factor(old(self).dialect, old(self).tokens@, old(self).pos as int),
        decreases old(self).tokens@.len() - old(self).pos, 5int,
    {
        let ghost t = self.tokens@;
        let ghost pos0 = self.pos as int;
        let mut e = self.parse_unary()?;
        loop
            invariant
                old(self).moved(*self),
                pos0 == old(self).pos as int,
                t == self.tokens@,
                t == old(self).tokens@,
                pos0 < self.pos,
                p_factor(self.dialect, t, pos0) == p_factor_rest(self.dialect, t, self.pos as int, e),
            decreases t.len() - self.pos,
        {
            let op = match factor_op_of(self.kind()) {
                Some(op) => op,
                None => {
                    return Ok(e);
                },
            };
            self.bump();
            let r = self.parse_unary()?;
            e = Expr::BinOp(op, Box::new(e), Box::new(r));
        }
    }

    fn parse_unary(&mut self) -> (r: Result<Expr, PErr>)
        requires
            old(self).wf(),
        ensures
            old(self).moved(*final(self)),
            r is Ok ==> old(self).pos < final(self).pos,
            res_spec(r, final(self).pos) == p_unary(old(self).dialect, old(self).tokens@, old(self).pos as int),
        decreases old(self).tokens@.len() - old(self).pos, 4int,
    {
        if self.at(Sym::Minus) {
            self.bump();
            let e = self.parse_unary()?;
            return Ok(Expr::UnaryOp(Op::Neg, Box::new(e)));
        }
        self.parse_primary()
    }

    fn parse_primary(&mut self) -> (r: Result<Expr, PErr>)
        requires
            old(self).wf(),
        ensures
            old(self).moved(*final(self)),
            r is Ok ==> old(self).pos < final(self).pos,
            res_spec(r, final(self).pos) == p_primary(old(self).dialect, old(self).tokens@, old(self).pos as int),
        decreases old(self).tokens@.len() - old(self).pos, 3int,
    {
        if self.dialect != Dialect::Py4 {
            return self.parse_small_primary();
        }
        let e = self.parse_atom()?;
        self.parse_postfix(e)
    }

    fn parse_small_primary(&mut self) -> (r: Result<Expr, PErr>)
        requires
            old(self).wf(),
        ensures
            old(self).moved(*final(self)),
            r is Ok ==> old(self).pos < final(self).pos,
            res_spec(r, final(self).pos) == p_small_primary(
                old(self).dialect,
                old(self).tokens@,
                old(self).pos as int,
            ),
        decreases old(self).tokens@.len() - old(self).pos, 2int,
    {
        let lit = match self.kind() {
            TokenKind::Int(v) => Some(Expr::Int(*v)),
            TokenKind::Float(s) => Some(Expr::Float(s.clone())),
            TokenKind::Str(s) => Some(Expr::Str(s.clone())),
            _ => None,
        };
        if let Some(e) = lit {
            self.bump();
            return self.parse_postfix(e);
        }
        let name = match self.kind() {
            TokenKind::Name(n) => Some(n.clone()),
            _ => None,
        };
        if let Some(n) = name {
            self.bump();
            return self.parse_postfix(Expr::Name(n));
        }
        if self.at(Sym::Lparen) {
            self.bump();
            let e = self.parse_expr()?;
            self.expect(Sym::Rparen, ErrMsg::ExpectedRparen)?;
            return self.parse_postfix(e);
        }
        let is_sym = match self.kind() {
            TokenKind::Sym(_) => true,
            _ => false,
        };
        if is_sym && self.dialect == Dialect::Basic {
            self.parse_basic_sym()
        } else {
            Err(self.err_here(ErrMsg::ExpectedExpression))
        }
    }

    fn parse_basic_sym(&mut self) -> (r: Result<Expr, PErr>)
        requires
            old(self).wf(),
        ensures
            old(self).moved(*final(self)),
            r is Ok ==> old(self).pos < final(self).pos,
            res_spec(r, final(self).pos) == p_basic_sym(
                old(self).dialect,
                old(self).tokens@,
                old(self).pos as int,
            ),
        decreases old(self).tokens@.len() - old(self).pos, 1int,
    {
        if self.at(Sym::NoneVal) {
            self.bump();
            self.parse_postfix(Expr::NoneVal)
        } else if self.at(Sym::TrueVal) {
            self.bump();
            self.parse_postfix(Expr::Bool(true))
        } else if self.at(Sym::FalseVal) {
            self.bump();
            self.parse_postfix(Expr::Bool(false))
        } else if self.at(Sym::Lbracket) {
            self.bump();
            let xs = if self.at(Sym::Rbracket) {
                self.bump();
                Vec::new()
            } else {
                let xs = self.parse_seq_items(Vec::new(), Sym::Rbracket, true)?;
                self.expect(Sym::Rbracket, ErrMsg::ExpectedRbracket)?;
                xs
            };
            self.parse_postfix(Expr::List(Items::from_vec(xs)))
        } else if self.at(Sym::Lbrace) {
            self.bump();
            let ps = if self.at(Sym::Rbrace) {
                self.bump();
                Vec::new()
            } else {
                let ps = self.parse_dict_items()?;
                self.expect(Sym::Rbrace, ErrMsg::ExpectedRbrace)?;
                ps
            };
            self.parse_postfix(Expr::Dict(Items::from_vec(ps)))
        } else {
            Err(self.err_here(ErrMsg::ExpectedExpression))
        }
    }

    #[verifier::loop_isolation(false)]
    fn parse_seq_items(&mut self, acc: Vec<Expr>, close: Sym, trail: bool) -> (r: Result<Vec<Expr>, PErr>)
        requires
            old(self).wf(),
            close != Sym::Eof,
        ensures
            old(self).moved(*final(self)),
            r is Ok ==> old(self).pos < final(self).pos,
            res_vec(r, final(self).pos) == p_seq_items(
                old(self).dialect,
                old(self).tokens@,
                old(self).pos as int,
                acc@,
                close,
                trail,
            ),
        decreases old(self).tokens@.len() - old(self).pos, 11int,
    {
        let ghost t = self.tokens@;
        let ghost pos0 = self.pos as int;
        let ghost acc0 = acc@;
        let mut acc = acc;
        let e = self.parse_expr()?;
        acc.push(e);
        loop
            invariant
                old(self).moved(*self),
                pos0 == old(self).pos as int,
                t == self.tokens@,
                t == old(self).tokens@,
                pos0 < self.pos,
                p_seq_items(self.dialect, t, pos0, acc0, close, trail) == if at(t, self.pos as int, Sym::Comma) {
                    if trail && at(t, self.pos + 1, close) {
                        Ok((acc@, self.pos + 1))
                    } else {
                        p_seq_items(self.dialect, t, self.pos + 1, acc@, close, trail)
                    }
                } else {
                    Ok((acc@, self.pos as int))
                },
            decreases t.len() - self.pos,
        {
            if !self.at(Sym::Comma) {
                return Ok(acc);
            }
            self.bump();
            if trail && self.at(close) {
                return Ok(acc);
            }
            let e = self.parse_expr()?;
            acc.push(e);
        }
    }

    #[verifier::loop_isolation(false)]
    fn parse_dict_items(&mut self) -> (r: Result<Vec<(Expr, Expr)>, PErr>)
        requires
            old(self).wf(),
        ensures
            old(self).moved(*final(self)),
            r is Ok ==> old(self).pos < final(self).pos,
            res_vec(r, final(self).pos) == p_dict_items(
                old(self).dialect,
                old(self).tokens@,
                old(self).pos as int,
                seq![],
            ),
        decreases old(self).tokens@.len() - old(self).pos, 11int,
    {
        let ghost t = self.tokens@;
        let ghost pos0 = self.pos as int;
        let mut acc: Vec<(Expr, Expr)> = Vec::new();
        loop
            invariant
                old(self).moved(*self),
                pos0 == old(self).pos as int,
                t == self.tokens@,
                t == old(self).tokens@,
                pos0 <= self.pos,
                acc@.len() > 0 ==> pos0 < self.pos,
                p_dict_items(self.dialect, t, pos0, seq![]) == p_dict_items(self.dialect, t, self.pos as int, acc@),
            decreases t.len() - self.pos,
        {
            let k = self.parse_expr()?;
            self.expect(Sym::Colon, dict_colon_msg_of(self.dialect))?;
            let v = self.parse_expr()?;
            acc.push((k, v));
            if !self.at(Sym::Comma) {
                return Ok(acc);
            }
            self.bump();
            if self.at(Sym::Rbrace) {
                return Ok(acc);
            }
        }
    }

    #[verifier::loop_isolation(false)]
    fn parse_call_args(&mut self) -> (r: Result<(Vec<Expr>, Vec<(String, Expr)>), PErr>)
        requires
            old(self).wf(),
        ensures
            old(self).moved(*final(self)),
            r is Ok ==> old(self).pos < final(self).pos,
            match r {
                Ok((a, k)) => p_call_args(old(self).dialect, old(self).tokens@, old(self).pos as int, seq![], seq![])
                    == Ok::<_, PErr>(((a@, k@), final(self).pos as int)),
                Err(e) => p_call_args(old(self).dialect, old(self).tokens@, old(self).pos as int, seq![], seq![])
                    == Err::<((Seq<Expr>, Seq<(String, Expr)>), int), _>(e),
            },
        decreases old(self).tokens@.len() - old(self).pos, 11int,
    {
        let ghost t = self.tokens@;
        let ghost pos0 = self.pos as int;
        let mut args: Vec<Expr> = Vec::new();
        let mut kwargs: Vec<(String, Expr)> = Vec::new();
        let mut first = true;
        loop
            invariant
                old(self).moved(*self),
                pos0 == old(self).pos as int,
                t == self.tokens@,
                t == old(self).tokens@,
                pos0 <= self.pos,
                !first ==> pos0 < self.pos,
                p_call_args(self.dialect, t, pos0, seq![], seq![]) == p_call_args(
                    self.dialect,
                    t,
                    self.pos as int,
                    args@,
                    kwargs@,
                ),
            decreases t.len() - self.pos,
        {
            let kw_name = match self.kind() {
                TokenKind::Name(n) => if self.at_next(Sym::Equal) {
                    Some(n.clone())
                } else {
                    None
                },
                _ => None,
            };
            match kw_name {
                Some(n) => {
                    self.bump();
                    self.bump();
                    let v = self.parse_expr()?;
                    kwargs.push((n, v));
                },
                None => {
                    let a = self.parse_expr()?;
                    args.push(a);
                },
            }
            first = false;
            if !self.at(Sym::Comma) {
                return Ok((args, kwargs));
            }
            self.bump();
            if self.at(Sym::Rparen) {
                return Ok((args, kwargs));
            }
        }
    }

    #[verifier::loop_isolation(false)]
    fn parse_postfix(&mut self, e: Expr) -> (r: Result<Expr, PErr>)
        requires
            old(self).wf(),
        ensures
            old(self).moved(*final(self)),
            res_spec(r, final(self).pos) == p_postfix(old(self).dialect, old(self).tokens@, old(self).pos as int, e),
        decreases old(self).tokens@.len() - old(self).pos, 0int,
    {
        let ghost t = self.tokens@;
        let ghost pos0 = self.pos as int;
        let ghost e0 = e;
        let mut e = e;
        loop
            invariant
                old(self).moved(*self),
                pos0 == old(self).pos as int,
                t == self.tokens@,
                t == old(self).tokens@,
                p_postfix(self.dialect, t, pos0, e0) == p_postfix(self.dialect, t, self.pos as int, e),
            decreases t.len() - self.pos,
        {
            if self.at(Sym::Lparen) {
                self.bump();
                let (a, k) = if self.at(Sym::Rparen) {
                    self.bump();
                    (Vec::new(), Vec::new())
                } else {
                    let (a, k) = if self.dialect == Dialect::Py4 {
                        self.parse_call_args()?
                    } else {
                        let trail = self.dialect == Dialect::Basic;
                        let a = self.parse_seq_items(Vec::new(), Sym::Rparen, trail)?;
                        assert(Seq::<Expr>::empty() =~= seq![]);
                        (a, Vec::new())
                    };
                    self.expect(Sym::Rparen, ErrMsg::ExpectedRparen)?;
                    (a, k)
                };
                e = Expr::Call(Box::new(e), Items::from_vec(a), Items::from_vec(k));
            } else if self.at(Sym::Dot) {
                self.bump();
                let n = self.expect_name(attr_msg_of(self.dialect))?;
                e = Expr::Attribute(Box::new(e), n);
            } else if self.at(Sym::Lbracket) {
                self.bump();
                let idx = self.parse_expr()?;
                self.expect(Sym::Rbracket, ErrMsg::ExpectedRbracket)?;
                e = Expr::Subscript(Box::new(e), Box::new(idx));
            } else {
                return Ok(e);
            }
        }
    }

    fn parse_atom(&mut self) -> (r: Result<Expr, PErr>)
        requires
            old(self).wf(),
        ensures
            old(self).moved(*final(self)),
            r is Ok ==> old(self).pos < final(self).pos,
            res_spec(r, final(self).pos) == p_atom(old(self).dialect, old(self).tokens@, old(self).pos as int),
        decreases old(self).tokens@.len() - old(self).pos, 2int,
    {
        let simple = match self.kind() {
            TokenKind::Sym(Sym::NoneVal) => Some(Expr::NoneVal),
            TokenKind::Sym(Sym::TrueVal) => Some(Expr::Bool(true)),
            TokenKind::Sym(Sym::FalseVal) => Some(Expr::Bool(false)),
            TokenKind::Int(v) => Some(Expr::Int(*v)),
            TokenKind::Float(s) => Some(Expr::Float(s.clone())),
            TokenKind::Str(s) => Some(Expr::Str(s.clone())),
            TokenKind::FString(s) => Some(Expr::FString(s.clone())),
            TokenKind::Name(n) => Some(Expr::Name(n.clone())),
            _ => None,
        };
        if let Some(a) = simple {
            self.bump();
            return Ok(a);
        }
        if self.at(Sym::Lparen) {
            return self.parse_paren_atom();
        }
        if self.at(Sym::Lbracket) {
            return self.parse_bracket_atom();
        }
        if self.at(Sym::Lbrace) {
            return self.parse_brace_atom();
        }
        Err(self.err_here(ErrMsg::ExpectedExpr))
    }
    fn parse_paren_atom(&mut self) -> (r: Result<Expr, PErr>)
        requires
            old(self).wf(),
            at(old(self).tokens@, old(self).pos as int, Sym::Lparen),
        ensures
            old(self).moved(*final(self)),
            r is Ok ==> old(self).pos < final(self).pos,
            res_spec(r, final(self).pos) == p_atom(old(self).dialect, old(self).tokens@, old(self).pos as int),
        decreases old(self).tokens@.len() - old(self).pos, 1int,
    {
        self.bump();
        if self.at(Sym::Rparen) {
            self.bump();
            return Ok(Expr::Tuple(Items::Nil));
        }
        let first = self.parse_expr()?;
        if !self.at(Sym::Comma) {
            self.expect(Sym::Rparen, ErrMsg::ExpectedRparen)?;
            return Ok(first);
        }
        self.bump();
        let mut items: Vec<Expr> = Vec::new();
        items.push(first);
        assert(items@ =~= seq![first]);
        let items = if self.at(Sym::Rparen) {
            items
        } else {
            self.parse_seq_items(items, Sym::Rparen, true)?
        };
        self.expect(Sym::Rparen, ErrMsg::ExpectedRparen)?;
        return Ok(Expr::Tuple(Items::from_vec(items)));
    }

    fn parse_bracket_atom(&mut self) -> (r: Result<Expr, PErr>)
        requires
            old(self).wf(),
            at(old(self).tokens@, old(self).pos as int, Sym::Lbracket),
        ensures
            old(self).moved(*final(self)),
            r is Ok ==> old(self).pos < final(self).pos,
            res_spec(r, final(self).pos) == p_atom(old(self).dialect, old(self).tokens@, old(self).pos as int),
        decreases old(self).tokens@.len() - old(self).pos, 1int,
    {
        self.bump();
        if self.at(Sym::Rbracket) {
            self.bump();
            return Ok(Expr::List(Items::Nil));
        }
        let first = self.parse_expr()?;
        if self.at(Sym::For) {
            self.bump();
            let target = self.parse_expr_list()?;
            self.expect(Sym::In, ErrMsg::ExpectedIn)?;
            let iter = self.parse_expr()?;
            let cond = if self.at(Sym::If) {
                self.bump();
                let c = self.parse_expr()?;
                Some(Box::new(c))
            } else {
                None
            };
            self.expect(Sym::Rbracket, ErrMsg::ExpectedRbracket)?;
            return Ok(
                Expr::ListComp(Box::new(first), Box::new(target), Box::new(iter), cond),
            );
        }
        let mut items: Vec<Expr> = Vec::new();
        items.push(first);
        assert(items@ =~= seq![first]);
        let items = if self.at(Sym::Comma) {
            self.bump();
            if self.at(Sym::Rbracket) {
                items
            } else {
                self.parse_seq_items(items, Sym::Rbracket, true)?
            }
        } else {
            items
        };
        self.expect(Sym::Rbracket, ErrMsg::ExpectedRbracket)?;
        return Ok(Expr::List(Items::from_vec(items)));
    }

    fn parse_brace_atom(&mut self) -> (r: Result<Expr, PErr>)
        requires
            old(self).wf(),
            at(old(self).tokens@, old(self).pos as int, Sym::Lbrace),
        ensures
            old(self).moved(*final(self)),
            r is Ok ==> old(self).pos < final(self).pos,
            res_spec(r, final(self).pos) == p_atom(old(self).dialect, old(self).tokens@, old(self).pos as int),
        decreases old(self).tokens@.len() - old(self).pos, 1int,
    {
        self.bump();
        if self.at(Sym::Rbrace) {
            self.bump();
            return Ok(Expr::Dict(Items::Nil));
        }
        let pairs = self.parse_dict_items()?;
        self.expect(Sym::Rbrace, ErrMsg::ExpectedRbrace)?;
        return Ok(Expr::Dict(Items::from_vec(pairs)));
    }

    fn skip_newlines(&mut self)
        requires
            old(self).wf(),
        ensures
            old(self).moved(*final(self)),
            final(self).pos == skip_nl(old(self).tokens@, old(self).pos as int),
    {
        let ghost t = self.tokens@;
        let ghost pos0 = self.pos as int;
        while self.at(Sym::Newline)
            invariant
                old(self).moved(*self),
                t == self.tokens@,
                skip_nl(t, pos0) == skip_nl(t, self.pos as int),
            decreases t.len() - self.pos,
        {
            self.bump();
        }
    }

    #[verifier::loop_isolation(false)]
    fn parse_dotted(&mut self) -> (r: Result<Vec<String>, PErr>)
        requires
            old(self).wf(),
        ensures
            old(self).moved(*final(self)),
            res_vec(r, final(self).pos) == p_dotted(old(self).tokens@, old(self).pos as int),
    {
        let ghost t = self.tokens@;
        let n = self.expect_name(ErrMsg::ExpectedModuleName)?;
        let mut acc: Vec<String> = Vec::new();
        acc.push(n);
        assert(acc@ =~= seq![n]);
        loop
            invariant
                old(self).moved(*self),
                t == self.tokens@,
                p_dotted(t, old(self).pos as int) == p_dotted_rest(t, self.pos as int, acc@),
            decreases t.len() - self.pos,
        {
            if !self.at(Sym::Dot) {
                return Ok(acc);
            }
            self.bump();
            let n = self.expect_name(ErrMsg::ExpectedModuleNameAfterDot)?;
            acc.push(n);
        }
    }

    #[verifier::loop_isolation(false)]
    fn parse_params(&mut self) -> (r: Result<(Vec<Param>, Option<String>, Option<String>), PErr>)
        requires
            old(self).wf(),
        ensures
            old(self).moved(*final(self)),
            match r {
                Ok((ps, va, kw)) => p_params(old(self).dialect, old(self).tokens@, old(self).pos as int, seq![], None, None)
                    == Ok::<_, PErr>(((ps@, va, kw), final(self).pos as int)),
                Err(e) => p_params(old(self).dialect, old(self).tokens@, old(self).pos as int, seq![], None, None)
                    == Err::<(ParamsRes, int), _>(e),
            },
        decreases old(self).tokens@.len() - old(self).pos, 13int,
    {
        let ghost t = self.tokens@;
        let ghost pos0 = self.pos as int;
        let mut ps: Vec<Param> = Vec::new();
        let mut va: Option<String> = None;
        let mut kw: Option<String> = None;
        loop
            invariant
                old(self).moved(*self),
                t == self.tokens@,
                p_params(self.dialect, t, pos0, seq![], None, None) == p_params(self.dialect, t, self.pos as int, ps@, va, kw),
            decreases t.len() - self.pos,
        {
            if self.at(Sym::Star) {
                self.bump();
                if self.at(Sym::Star) {
                    self.bump();
                    let n = self.expect_name(ErrMsg::ExpectedKwargName)?;
                    kw = Some(n);
                } else {
                    let n = self.expect_name(ErrMsg::ExpectedVarargName)?;
                    va = Some(n);
                }
                if self.at(Sym::Comma) {
                    self.bump();
                }
                if self.at(Sym::Rparen) {
                    return Ok((ps, va, kw));
                }
                continue;
            }
            let pn = match self.kind() {
                TokenKind::Name(n) => n.clone(),
                _ => {
                    return Err(self.err_here(ErrMsg::ExpectedParameterName));
                },
            };
            self.bump();
            let d = if self.at(Sym::Equal) {
                self.bump();
                let d = self.parse_expr()?;
                Some(d)
            } else {
                None
            };
            ps.push(Param { name: pn, default: d });
            if !self.at(Sym::Comma) {
                return Ok((ps, va, kw));
            }
            self.bump();
            if self.at(Sym::Rparen) {
                return Ok((ps, va, kw));
            }
        }
    }

    #[verifier::loop_isolation(false)]
    fn parse_block_items(&mut self) -> (r: Result<Vec<Stmt>, PErr>)
        requires
            old(self).wf(),
        ensures
            old(self).moved(*final(self)),
            res_vec(r, final(self).pos) == p_block_items(
                old(self).dialect,
                old(self).tokens@,
                old(self).pos as int,
                seq![],
            ),
        decreases old(self).tokens@.len() - old(self).pos, 15int,
    {
        let ghost t = self.tokens@;
        let ghost pos0 = self.pos as int;
        let mut acc: Vec<Stmt> = Vec::new();
        loop
            invariant
                old(self).moved(*self),
                t == self.tokens@,
                p_block_items(self.dialect, t, pos0, seq![]) == p_block_items(self.dialect, t, self.pos as int, acc@),
            decreases t.len() - self.pos,
        {
            if self.at(Sym::Dedent) || self.at(Sym::Eof) {
                return Ok(acc);
            }
            let s = self.parse_stmt()?;
            acc.push(s);
            proof {
                lemma_skip_nl(t, self.pos as int);
            }
            self.skip_newlines();
        }
    }

    /// A block after `:` (see `p_block`).
    pub fn parse_block(&mut self) -> (r: Result<Items<Stmt>, PErr>)
        requires
            old(self).wf(),
        ensures
            old(self).moved(*final(self)),
            r is Ok ==> old(self).pos < final(self).pos,
            res_spec(r, final(self).pos) == p_block(old(self).dialect, old(self).tokens@, old(self).pos as int),
        decreases old(self).tokens@.len() - old(self).pos, 15int,
    {
        if self.dialect != Dialect::Py4 {
            self.expect(Sym::Newline, ErrMsg::ExpectedNewlineAfterColon)?;
            self.expect(Sym::Indent, ErrMsg::ExpectedIndentedBlock)?;
            proof {
                lemma_skip_nl(self.tokens@, self.pos as int);
            }
            self.skip_newlines();
            let ss = self.parse_block_items()?;
            self.expect(Sym::Dedent, ErrMsg::ExpectedDedent)?;
            return Ok(Items::from_vec(ss));
        }
        if self.at(Sym::Newline) {
            self.bump();
            self.expect(Sym::Indent, ErrMsg::ExpectedIndent)?;
            proof {
                lemma_skip_nl(self.tokens@, self.pos as int);
            }
            self.skip_newlines();
            let ss = self.parse_block_items()?;
            self.expect(Sym::Dedent, ErrMsg::ExpectedDedent)?;
            return Ok(Items::from_vec(ss));
        }
        let s = self.parse_stmt()?;
        Ok(Items::Cons(Box::new(s), Box::new(Items::Nil)))
    }

    #[verifier::loop_isolation(false)]
    #[verifier::rlimit(40)]
    fn parse_handlers(&mut self) -> (r: Result<Vec<Handler>, PErr>)
        requires
            old(self).wf(),
        ensures
            old(self).moved(*final(self)),
            res_vec(r, final(self).pos) == p_handlers(old(self).dialect, old(self).tokens@, old(self).pos as int, seq![]),
        decreases old(self).tokens@.len() - old(self).pos, 13int,
    {
        let ghost t = self.tokens@;
        let ghost pos0 = self.pos as int;
        let mut acc: Vec<Handler> = Vec::new();
        loop
            invariant
                old(self).moved(*self),
                t == self.tokens@,
                p_handlers(self.dialect, t, pos0, seq![]) == p_handlers(self.dialect, t, self.pos as int, acc@),
            decreases t.len() - self.pos,
        {
            if !self.at(Sym::Except) {
                return Ok(acc);
            }
            let ghost here = self.pos as int;
            self.bump();
            let types: Vec<String> = if self.at(Sym::Lparen) {
                self.bump();
                let ns = self.parse_names(ErrMsg::ExpectedExcName, false)?;
                self.expect(Sym::Rparen, ErrMsg::ExpectedRparen)?;
                ns
            } else {
                let one = match self.kind() {
                    TokenKind::Name(n) => Some(n.clone()),
                    _ => None,
                };
                match one {
                    Some(n) => {
                        self.bump();
                        let mut v: Vec<String> = Vec::new();
                        v.push(n);
                        assert(v@ =~= seq![n]);
                        v
                    },
                    None => Vec::new(),
                }
            };
            let alias = if types.len() > 0 && self.at(Sym::As) {
                self.bump();
                let a = self.expect_name(ErrMsg::ExpectedVar)?;
                Some(a)
            } else {
                None
            };
            self.expect(Sym::Colon, ErrMsg::ExpectedColon)?;
            let b = self.parse_block()?;
            proof {
                lemma_skip_nl(t, self.pos as int);
            }
            self.skip_newlines();
            acc.push(Handler { types: Items::from_vec(types), alias, body: b });
        }
    }

    #[verifier::loop_isolation(false)]
    fn parse_elifs(&mut self) -> (r: Result<Vec<(Expr, Items<Stmt>)>, PErr>)
        requires
            old(self).wf(),
        ensures
            old(self).moved(*final(self)),
            res_vec(r, final(self).pos) == p_elifs(old(self).dialect, old(self).tokens@, old(self).pos as int, seq![]),
        decreases old(self).tokens@.len() - old(self).pos, 13int,
    {
        let ghost t = self.tokens@;
        let ghost pos0 = self.pos as int;
        let mut acc: Vec<(Expr, Items<Stmt>)> = Vec::new();
        loop
            invariant
                old(self).moved(*self),
                t == self.tokens@,
                p_elifs(self.dialect, t, pos0, seq![]) == p_elifs(self.dialect, t, self.pos as int, acc@),
            decreases t.len() - self.pos,
        {
            if !self.at(Sym::Elif) {
                return Ok(acc);
            }
            self.bump();
            let c = self.parse_expr()?;
            self.expect(Sym::Colon, ErrMsg::ExpectedColon)?;
            let b = self.parse_block()?;
            proof {
                lemma_skip_nl(t, self.pos as int);
            }
            self.skip_newlines();
            acc.push((c, b));
        }
    }

    fn parse_def(&mut self) -> (r: Result<Stmt, PErr>)
        requires
            old(self).wf(),
            at(old(self).tokens@, old(self).pos as int, Sym::Def),
        ensures
            old(self).moved(*final(self)),
            r is Ok ==> old(self).pos < final(self).pos,
            res_spec(r, final(self).pos) == p_def(old(self).dialect, old(self).tokens@, old(self).pos as int),
        decreases old(self).tokens@.len() - old(self).pos, 13int,
    {
        self.bump();
        let n = self.expect_name(ErrMsg::ExpectedName)?;
        self.expect(Sym::Lparen, ErrMsg::ExpectedLparen)?;
        let (ps, va, kw) = if self.at(Sym::Rparen) {
            self.bump();
            (Vec::new(), None, None)
        } else {
            let r = self.parse_params()?;
            self.expect(Sym::Rparen, ErrMsg::ExpectedRparen)?;
            r
        };
        self.expect(Sym::Colon, ErrMsg::ExpectedColon)?;
        let b = self.parse_block()?;
        Ok(Stmt::FunctionDef(n, Items::from_vec(ps), va, kw, b))
    }

    fn parse_class(&mut self) -> (r: Result<Stmt, PErr>)
        requires
            old(self).wf(),
            at(old(self).tokens@, old(self).pos as int, Sym::Class),
        ensures
            old(self).moved(*final(self)),
            r is Ok ==> old(self).pos < final(self).pos,
            res_spec(r, final(self).pos) == p_class(old(self).dialect, old(self).tokens@, old(self).pos as int),
        decreases old(self).tokens@.len() - old(self).pos, 13int,
    {
        self.bump();
        let n = self.expect_name(ErrMsg::ExpectedClassName)?;
        let base = if self.at(Sym::Lparen) {
            self.bump();
            let b = self.parse_expr()?;
            self.expect(Sym::Rparen, ErrMsg::ExpectedRparen)?;
            Some(b)
        } else {
            None
        };
        self.expect(Sym::Colon, ErrMsg::ExpectedColon)?;
        let body = self.parse_block()?;
        Ok(Stmt::ClassDef(n, base, body))
    }

    fn parse_try(&mut self) -> (r: Result<Stmt, PErr>)
        requires
            old(self).wf(),
            at(old(self).tokens@, old(self).pos as int, Sym::Try),
        ensures
            old(self).moved(*final(self)),
            r is Ok ==> old(self).pos < final(self).pos,
            res_spec(r, final(self).pos) == p_try(old(self).dialect, old(self).tokens@, old(self).pos as int),
        decreases old(self).tokens@.len() - old(self).pos, 13int,
    {
        self.bump();
        self.expect(Sym::Colon, ErrMsg::ExpectedColon)?;
        let body = self.parse_block()?;
        proof {
            lemma_skip_nl(self.tokens@, self.pos as int);
        }
        self.skip_newlines();
        let hs = self.parse_handlers()?;
        if hs.len() == 0 {
            return Err(PErr::Plain(ErrMsg::ExpectedExceptBlock));
        }
        Ok(Stmt::Try(body, Items::from_vec(hs)))
    }

    fn parse_if(&mut self) -> (r: Result<Stmt, PErr>)
        requires
            old(self).wf(),
            at(old(self).tokens@, old(self).pos as int, Sym::If),
        ensures
            old(self).moved(*final(self)),
            r is Ok ==> old(self).pos < final(self).pos,
            res_spec(r, final(self).pos) == p_if(old(self).dialect, old(self).tokens@, old(self).pos as int),
        decreases old(self).tokens@.len() - old(self).pos, 13int,
    {
        self.bump();
        let c = self.parse_expr()?;
        self.expect(Sym::Colon, ErrMsg::ExpectedColon)?;
        let body = self.parse_block()?;
        proof {
            lemma_skip_nl(self.tokens@, self.pos as int);
        }
        self.skip_newlines();
        let elifs = if self.dialect == Dialect::Py0i {
            Vec::new()
        } else {
            self.parse_elifs()?
        };
        let els = if self.at(Sym::Else) {
            self.bump();
            self.expect(Sym::Colon, ErrMsg::ExpectedColon)?;
            self.parse_block()?
        } else {
            Items::Nil
        };
        Ok(Stmt::If(c, body, fold_elifs_vec(elifs, els)))
    }

    fn parse_while(&mut self) -> (r: Result<Stmt, PErr>)
        requires
            old(self).wf(),
            at(old(self).tokens@, old(self).pos as int, Sym::While),
        ensures
            old(self).moved(*final(self)),
            r is Ok ==> old(self).pos < final(self).pos,
            res_spec(r, final(self).pos) == p_while(old(self).dialect, old(self).tokens@, old(self).pos as int),
        decreases old(self).tokens@.len() - old(self).pos, 13int,
    {
        self.bump();
        let c = self.parse_expr()?;
        self.expect(Sym::Colon, ErrMsg::ExpectedColon)?;
        let b = self.parse_block()?;
        Ok(Stmt::While(c, b))
    }

    fn parse_for(&mut self) -> (r: Result<Stmt, PErr>)
        requires
            old(self).wf(),
            at(old(self).tokens@, old(self).pos as int, Sym::For),
        ensures
            old(self).moved(*final(self)),
            r is Ok ==> old(self).pos < final(self).pos,
            res_spec(r, final(self).pos) == p_for(old(self).dialect, old(self).tokens@, old(self).pos as int),
        decreases old(self).tokens@.len() - old(self).pos, 13int,
    {
        self.bump();
        let tg = self.parse_expr_list()?;
        self.expect(Sym::In, ErrMsg::ExpectedIn)?;
        let it = self.parse_expr_list()?;
        self.expect(Sym::Colon, ErrMsg::ExpectedColon)?;
        let b = self.parse_block()?;
        Ok(Stmt::For(tg, it, b))
    }

    fn parse_import(&mut self) -> (r: Result<Stmt, PErr>)
        requires
            old(self).wf(),
            at(old(self).tokens@, old(self).pos as int, Sym::Import),
        ensures
            old(self).moved(*final(self)),
            r is Ok ==> old(self).pos < final(self).pos,
            res_spec(r, final(self).pos) == p_import(old(self).tokens@, old(self).pos as int),
    {
        self.bump();
        let ns = self.parse_dotted()?;
        self.expect(Sym::Newline, ErrMsg::ExpectedNewline)?;
        Ok(Stmt::Import(Items::from_vec(ns)))
    }

    fn parse_from(&mut self) -> (r: Result<Stmt, PErr>)
        requires
            old(self).wf(),
            at(old(self).tokens@, old(self).pos as int, Sym::From),
        ensures
            old(self).moved(*final(self)),
            r is Ok ==> old(self).pos < final(self).pos,
            res_spec(r, final(self).pos) == p_from(old(self).tokens@, old(self).pos as int),
    {
        self.bump();
        let m = self.parse_dotted()?;
        self.expect(Sym::Import, ErrMsg::ExpectedImport)?;
        let ns = self.parse_names(ErrMsg::ExpectedName, false)?;
        self.expect(Sym::Newline, ErrMsg::ExpectedNewline)?;
        Ok(Stmt::FromImport(Items::from_vec(m), Items::from_vec(ns)))
    }

    fn parse_raise(&mut self) -> (r: Result<Stmt, PErr>)
        requires
            old(self).wf(),
            at(old(self).tokens@, old(self).pos as int, Sym::Raise),
        ensures
            old(self).moved(*final(self)),
            r is Ok ==> old(self).pos < final(self).pos,
            res_spec(r, final(self).pos) == p_raise(old(self).dialect, old(self).tokens@, old(self).pos as int),
        decreases old(self).tokens@.len() - old(self).pos, 13int,
    {
        self.bump();
        let e = self.parse_expr()?;
        self.expect(Sym::Newline, ErrMsg::ExpectedNewline)?;
        Ok(Stmt::Raise(e))
    }

    fn parse_return(&mut self) -> (r: Result<Stmt, PErr>)
        requires
            old(self).wf(),
            at(old(self).tokens@, old(self).pos as int, Sym::Return),
        ensures
            old(self).moved(*final(self)),
            r is Ok ==> old(self).pos < final(self).pos,
            res_spec(r, final(self).pos) == p_return(old(self).dialect, old(self).tokens@, old(self).pos as int),
        decreases old(self).tokens@.len() - old(self).pos, 13int,
    {
        self.bump();
        if self.at(Sym::Newline) {
            self.bump();
            return Ok(Stmt::Return(None));
        }
        let e = if self.dialect == Dialect::Py4 {
            self.parse_expr_list()?
        } else {
            self.parse_expr()?
        };
        self.expect(Sym::Newline, ErrMsg::ExpectedNewline)?;
        Ok(Stmt::Return(Some(e)))
    }

    fn parse_bare(&mut self, s: Stmt) -> (r: Result<Stmt, PErr>)
        requires
            old(self).wf(),
            !at(old(self).tokens@, old(self).pos as int, Sym::Eof),
        ensures
            old(self).moved(*final(self)),
            r is Ok ==> old(self).pos < final(self).pos,
            res_spec(r, final(self).pos) == p_bare(old(self).dialect, old(self).tokens@, old(self).pos as int, s),
    {
        self.bump();
        self.expect(Sym::Newline, ErrMsg::ExpectedNewline)?;
        Ok(s)
    }

    fn parse_simple(&mut self) -> (r: Result<Stmt, PErr>)
        requires
            old(self).wf(),
        ensures
            old(self).moved(*final(self)),
            r is Ok ==> old(self).pos < final(self).pos,
            res_spec(r, final(self).pos) == p_simple(old(self).dialect, old(self).tokens@, old(self).pos as int),
        decreases old(self).tokens@.len() - old(self).pos, 13int,
    {
        let e = self.parse_expr_list()?;
        if self.at(Sym::Equal) || self.at(Sym::PlusEq) || self.at(Sym::MinusEq) {
            let is_aug = !self.at(Sym::Equal);
            let op = if self.at(Sym::PlusEq) {
                Op::Add
            } else {
                Op::Sub
            };
            self.bump();
            let v = self.parse_expr_list()?;
            self.expect(Sym::Newline, ErrMsg::ExpectedNewline)?;
            if is_aug {
                let bad = match &e {
                    Expr::Tuple(_) => true,
                    Expr::List(_) => true,
                    _ => false,
                };
                if bad {
                    return Err(PErr::Plain(ErrMsg::IllegalAugTarget));
                }
                let lhs = e.duplicate();
                return Ok(Stmt::Assign(e, Expr::BinOp(op, Box::new(lhs), Box::new(v))));
            }
            return Ok(Stmt::Assign(e, v));
        }
        self.expect(Sym::Newline, ErrMsg::ExpectedNewline)?;
        Ok(Stmt::Expr(e))
    }

    fn parse_def_simple(&mut self) -> (r: Result<Stmt, PErr>)
        requires
            old(self).wf(),
            at(old(self).tokens@, old(self).pos as int, Sym::Def),
        ensures
            old(self).moved(*final(self)),
            r is Ok ==> old(self).pos < final(self).pos,
            res_spec(r, final(self).pos) == p_def_simple(
                old(self).dialect,
                old(self).tokens@,
                old(self).pos as int,
            ),
        decreases old(self).tokens@.len() - old(self).pos, 13int,
    {
        self.bump();
        let n = self.expect_name(func_name_msg_of(self.dialect))?;
        self.expect(Sym::Lparen, ErrMsg::ExpectedLparen)?;
        let ns = if self.at(Sym::Rparen) {
            self.bump();
            Vec::new()
        } else {
            let ns = self.parse_names(param_msg_of(self.dialect), self.dialect == Dialect::Basic)?;
            self.expect(Sym::Rparen, ErrMsg::ExpectedRparen)?;
            ns
        };
        self.expect(Sym::Colon, ErrMsg::ExpectedColon)?;
        let b = self.parse_block()?;
        let ps = plain_params_vec(ns);
        Ok(Stmt::FunctionDef(n, Items::from_vec(ps), None, None, b))
    }

    fn parse_for_name(&mut self) -> (r: Result<Stmt, PErr>)
        requires
            old(self).wf(),
            at(old(self).tokens@, old(self).pos as int, Sym::For),
        ensures
            old(self).moved(*final(self)),
            r is Ok ==> old(self).pos < final(self).pos,
            res_spec(r, final(self).pos) == p_for_name(
                old(self).dialect,
                old(self).tokens@,
                old(self).pos as int,
            ),
        decreases old(self).tokens@.len() - old(self).pos, 13int,
    {
        self.bump();
        let n = self.expect_name(ErrMsg::ExpectedLoopVar)?;
        self.expect(Sym::In, ErrMsg::ExpectedIn)?;
        let it = self.parse_expr()?;
        self.expect(Sym::Colon, ErrMsg::ExpectedColon)?;
        let b = self.parse_block()?;
        Ok(Stmt::For(Expr::Name(n), it, b))
    }

    fn parse_simple_basic(&mut self) -> (r: Result<Stmt, PErr>)
        requires
            old(self).wf(),
        ensures
            old(self).moved(*final(self)),
            r is Ok ==> old(self).pos < final(self).pos,
            res_spec(r, final(self).pos) == p_simple_basic(
                old(self).dialect,
                old(self).tokens@,
                old(self).pos as int,
            ),
        decreases old(self).tokens@.len() - old(self).pos, 13int,
    {
        let e = self.parse_expr()?;
        if self.at(Sym::Equal) || self.at(Sym::PlusEq) || self.at(Sym::MinusEq) {
            let is_aug = !self.at(Sym::Equal);
            let op = if self.at(Sym::PlusEq) {
                Op::Add
            } else {
                Op::Sub
            };
            self.bump();
            let v = self.parse_expr()?;
            self.expect(Sym::Newline, ErrMsg::ExpectedNewline)?;
            if is_aug {
                let is_target = match &e {
                    Expr::Name(_) => true,
                    Expr::Subscript(_, _) => true,
                    Expr::Attribute(_, _) => true,
                    _ => false,
                };
                if !is_target {
                    return Err(PErr::Plain(ErrMsg::AugAssignNeedsName));
                }
                let lhs = e.duplicate();
                return Ok(Stmt::Assign(e, Expr::BinOp(op, Box::new(lhs), Box::new(v))));
            }
            let ok_target = match &e {
                Expr::Name(_) => true,
                Expr::Subscript(_, _) => true,
                Expr::Attribute(_, _) => true,
                _ => false,
            };
            if !ok_target {
                return Err(PErr::Plain(ErrMsg::InvalidAssignTarget));
            }
            return Ok(Stmt::Assign(e, v));
        }
        self.expect(Sym::Newline, ErrMsg::ExpectedNewlineAfterExpression)?;
        Ok(Stmt::Expr(e))
    }

    fn parse_simple_py0i(&mut self) -> (r: Result<Stmt, PErr>)
        requires
            old(self).wf(),
        ensures
            old(self).moved(*final(self)),
            r is Ok ==> old(self).pos < final(self).pos,
            res_spec(r, final(self).pos) == p_simple_py0i(
                old(self).dialect,
                old(self).tokens@,
                old(self).pos as int,
            ),
        decreases old(self).tokens@.len() - old(self).pos, 13int,
    {
        let assign_to = match self.kind() {
            TokenKind::Name(n) => if self.at_next(Sym::Equal) {
                Some(n.clone())
            } else {
                None
            },
            _ => None,
        };
        match assign_to {
            Some(n) => {
                self.bump();
                self.bump();
                let v = self.parse_expr()?;
                self.expect(Sym::Newline, ErrMsg::ExpectedNewlineAfterAssignment)?;
                Ok(Stmt::Assign(Expr::Name(n), v))
            },
            None => {
                let e = self.parse_expr()?;
                self.expect(Sym::Newline, ErrMsg::ExpectedNewlineAfterExpression)?;
                Ok(Stmt::Expr(e))
            },
        }
    }

    /// One statement (see `p_stmt`).
    pub fn parse_stmt(&mut self) -> (r: Result<Stmt, PErr>)
        requires
            old(self).wf(),
        ensures
            old(self).moved(*final(self)),
            r is Ok ==> old(self).pos < final(self).pos,
            res_spec(r, final(self).pos) == p_stmt(old(self).dialect, old(self).tokens@, old(self).pos as int),
        decreases old(self).tokens@.len() - old(self).pos, 14int,
    {
        let d = self.dialect;
        if d != Dialect::Py4 {
            if self.at(Sym::Def) {
                self.parse_def_simple()
            } else if self.at(Sym::If) {
                self.parse_if()
            } else if self.at(Sym::While) {
                self.parse_while()
            } else if d == Dialect::Basic && self.at(Sym::For) {
                self.parse_for_name()
            } else if self.at(Sym::Return) {
                self.parse_return()
            } else if d == Dialect::Basic && self.at(Sym::Break) {
                self.parse_bare(Stmt::Break)
            } else if d == Dialect::Basic && self.at(Sym::Continue) {
                self.parse_bare(Stmt::Continue)
            } else if self.at(Sym::Pass) {
                self.parse_bare(Stmt::Pass)
            } else if d == Dialect::Basic {
                self.parse_simple_basic()
            } else {
                self.parse_simple_py0i()
            }
        } else if self.at(Sym::Import) {
            self.parse_import()
        } else if self.at(Sym::From) {
            self.parse_from()
        } else if self.at(Sym::Def) {
            self.parse_def()
        } else if self.at(Sym::Class) {
            self.parse_class()
        } else if self.at(Sym::Try) {
            self.parse_try()
        } else if self.at(Sym::Raise) {
            self.parse_raise()
        } else if self.at(Sym::If) {
            self.parse_if()
        } else if self.at(Sym::While) {
            self.parse_while()
        } else if self.at(Sym::For) {
            self.parse_for()
        } else if self.at(Sym::Return) {
            self.parse_return()
        } else if self.at(Sym::Break) {
            self.parse_bare(Stmt::Break)
        } else if self.at(Sym::Continue) {
            self.parse_bare(Stmt::Continue)
        } else if self.at(Sym::Pass) {
            self.parse_bare(Stmt::Pass)
        } else {
            self.parse_simple()
        }
    }

    /// The statements of the whole stream (see `p_module`).
    #[verifier::loop_isolation(false)]
    pub fn parse_module(&mut self) -> (r: Result<Items<Stmt>, PErr>)
        requires
            old(self).wf(),
            old(self).pos == 0,
        ensures
            r == p_module(old(self).dialect, old(self).tokens@),
    {
        let ghost t = self.tokens@;
        self.skip_newlines();
        let mut acc: Vec<Stmt> = Vec::new();
        loop
            invariant
                self.wf(),
                t == self.tokens@,
                self.dialect == old(self).dialect,
                p_module_items(self.dialect, t, skip_nl(t, 0), seq![]) == p_module_items(self.dialect, t, self.pos as int, acc@),
            decreases t.len() - self.pos,
        {
            if self.at(Sym::Eof) {
                return Ok(Items::from_vec(acc));
            }
            let s = self.parse_stmt()?;
            acc.push(s);
            proof {
                lemma_skip_nl(t, self.pos as int);
            }
            self.skip_newlines();
        }
    }
}

fn ends_tuple_kind(k: &TokenKind<String>) -> (b: bool)
    ensures
        b == ends_tuple(*k),
{
    match k {
        TokenKind::Sym(s) => {
            let s = *s;
            s == Sym::Equal || s == Sym::PlusEq || s == Sym::MinusEq || s == Sym::In || s
                == Sym::Colon || s == Sym::Newline || s == Sym::Eof || s == Sym::Rparen || s
                == Sym::Rbracket || s == Sym::Rbrace
        },
        _ => false,
    }
}

/// What a comparison operator says of two numbers.
pub open spec fn op_holds(op: Op, a: int, b: int) -> bool {
    match op {
        Op::Eq => a == b,
        Op::Ne => a != b,
        Op::Lt => a < b,
        Op::Le => a <= b,
        Op::Gt => a > b,
        Op::Ge => a >= b,
        _ => false,
    }
}

/// Each comparison written in a script parses to the operator that means
/// what its text says: the token the scanner makes of `==`, `!=`, `<`, `<=`,
/// `>` or `>=` becomes an operator that holds of two numbers exactly when
/// they are equal, unequal, in increasing order, and so on.
pub proof fn law_comparison_tokens(d: Dialect, a: int, b: int)
    ensures
        crate::lexer::op2(d, seq!['=', '='], 0) matches Some(s) && comp_op(TokenKind::Sym(s)) matches Some(op) && (
        op_holds(op, a, b) <==> a == b),
        crate::lexer::op2(d, seq!['!', '='], 0) matches Some(s) && comp_op(TokenKind::Sym(s)) matches Some(op) && (
        op_holds(op, a, b) <==> a != b),
        crate::lexer::op2(d, seq!['<', '='], 0) matches Some(s) && comp_op(TokenKind::Sym(s)) matches Some(op) && (
        op_holds(op, a, b) <==> a <= b),
        crate::lexer::op2(d, seq!['>', '='], 0) matches Some(s) && comp_op(TokenKind::Sym(s)) matches Some(op) && (
        op_holds(op, a, b) <==> a >= b),
        crate::lexer::op1(d, '<') matches Some(s) && comp_op(TokenKind::Sym(s)) matches Some(op) && (op_holds(op, a, b)
            <==> a < b),
        crate::lexer::op1(d, '>') matches Some(s) && comp_op(TokenKind::Sym(s)) matches Some(op) && (op_holds(op, a, b)
            <==> a > b),
{
}

fn comp_op_of(k: &TokenKind<String>) -> (r: Option<Op>)
    ensures
        r == comp_op(*k),
{
    match k {
        TokenKind::Sym(Sym::Eqeq) => Some(Op::Eq),
        TokenKind::Sym(Sym::Ne) => Some(Op::Ne),
        TokenKind::Sym(Sym::Lt) => Some(Op::Lt),
        TokenKind::Sym(Sym::Le) => Some(Op::Le),
        TokenKind::Sym(Sym::Gt) => Some(Op::Gt),
        TokenKind::Sym(Sym::Ge) => Some(Op::Ge),
        _ => None,
    }
}

fn term_op_of(k: &TokenKind<String>) -> (r: Option<Op>)
    ensures
        r == term_op(*k),
{
    match k {
        TokenKind::Sym(Sym::Plus) => Some(Op::Add),
        TokenKind::Sym(Sym::Minus) => Some(Op::Sub),
        _ => None,
    }
}

fn factor_op_of(k: &TokenKind<String>) -> (r: Option<Op>)
    ensures
        r == factor_op(*k),
{
    match k {
        TokenKind::Sym(Sym::Star) => Some(Op::Mul),
        TokenKind::Sym(Sym::Slash) => Some(Op::Div),
        TokenKind::Sym(Sym::Percent) => Some(Op::Mod),
        _ => None,
    }
}


fn fold_elifs_vec(elifs: Vec<(Expr, Items<Stmt>)>, els: Items<Stmt>) -> (r: Items<Stmt>)
    ensures
        r == fold_elifs(elifs@, els),
{
    let ghost all = elifs@;
    let ghost els0 = els;
    let mut v = elifs;
    let mut acc = els;
    while v.len() > 0
        invariant
            fold_elifs(all, els0) == fold_elifs(v@, acc),
        decreases v@.len(),
    {
        let ghost before = v@;
        let (c, b) = v.pop().unwrap();
        proof {
            assert(before.drop_last() == v@);
        }
        acc = Items::Cons(Box::new(Stmt::If(c, b, acc)), Box::new(Items::Nil));
    }
    acc
}

fn attr_msg_of(d: Dialect) -> (m: ErrMsg)
    ensures
        m == attr_msg(d),
{
    match d {
        Dialect::Py0i => ErrMsg::ExpectedAttributeName,
        Dialect::Basic => ErrMsg::ExpectedAttribute,
        Dialect::Py4 => ErrMsg::ExpectedAttr,
    }
}

fn dict_colon_msg_of(d: Dialect) -> (m: ErrMsg)
    ensures
        m == dict_colon_msg(d),
{
    if d == Dialect::Py4 {
        ErrMsg::ExpectedColon
    } else {
        ErrMsg::ExpectedColonInDict
    }
}

fn func_name_msg_of(d: Dialect) -> (m: ErrMsg)
    ensures
        m == func_name_msg(d),
{
    if d == Dialect::Basic {
        ErrMsg::ExpectedFuncName
    } else {
        ErrMsg::ExpectedFunctionName
    }
}

fn param_msg_of(d: Dialect) -> (m: ErrMsg)
    ensures
        m == param_msg(d),
{
    if d == Dialect::Basic {
        ErrMsg::ExpectedParam
    } else {
        ErrMsg::ExpectedParamName
    }
}

fn plain_params_vec(ns: Vec<String>) -> (ps: Vec<Param>)
    ensures
        ps@ == plain_params(ns@),
{
    let mut ps: Vec<Param> = Vec::new();
    let mut i: usize = 0;
    while i < ns.len()
        invariant
            i <= ns.len(),
            ps@.len() == i,
            forall|j: int| 0 <= j < i ==> ps@[j] == (Param { name: ns@[j], default: None }),
        decreases ns.len() - i,
    {
        ps.push(Param { name: ns[i].clone(), default: None });
        i = i + 1;
    }
    assert(ps@ =~= plain_params(ns@));
    ps
}

/// Parses a whole token stream into its statements.
pub fn parse_program(tokens: &[Token<String>], d: Dialect) -> (r: Result<Items<Stmt>, PErr>)
    requires
        wf_tokens(tokens@),
    ensures
        r == p_module(d, tokens@),
{
    let mut p = Parser::new(tokens, d);
    p.parse_module()
}

/// Parses one expression from the start of a token stream; tokens after it
/// are not looked at.
pub fn parse_expression(tokens: &[Token<String>], d: Dialect) -> (r: Result<Expr, PErr>)
    requires
        wf_tokens(tokens@),
    ensures
        match p_expr(d, tokens@, 0) {
            Ok((e, _)) => r == Ok::<Expr, PErr>(e),
            Err(x) => r == Err::<Expr, PErr>(x),
        },
{
    let mut p = Parser::new(tokens, d);
    p.parse_expr()
}

} // verus!
