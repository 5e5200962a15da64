use vstd::prelude::*;

use crate::ast::Op;
use crate::value::{is_error, py_err, Value};

verus! {

/// The result of an integer operation: an integer, the exact quotient `a / b`
/// that true division turns into a float, or an overflow of the 64-bit range.
#[derive(Clone, Copy, PartialEq, Eq, Structural, Debug)]
pub enum IntOut {
    Int(i64),
    Ratio(i64, i64),
    Overflow,
}

/// `x` as a 64-bit integer, or `Overflow` where it does not fit.
pub open spec fn fit(x: int) -> IntOut {
    if i64::MIN <= x <= i64::MAX {
        IntOut::Int(x as i64)
    } else {
        IntOut::Overflow
    }
}

pub open spec fn abs(x: int) -> int {
    if x < 0 {
        -x
    } else {
        x
    }
}

/// The remainder of division rounded toward zero: it takes the sign of `a`.
pub open spec fn trunc_rem(a: int, b: int) -> int {
    if a < 0 {
        -(abs(a) % abs(b))
    } else {
        abs(a) % abs(b)
    }
}

/// `a op b` on two integers: `+`, `-` and `*` stay integers, `/` is true
/// division, `%` the remainder with the sign of `a`; dividing by zero raises
/// `ZeroDivisionError`, any other operator `TypeError`.
pub fn int_binop(op: Op, a: i64, b: i64) -> (r: Result<IntOut, Value>)
    ensures
        op == Op::Add ==> r == Ok::<IntOut, Value>(fit(a + b)),
        op == Op::Sub ==> r == Ok::<IntOut, Value>(fit(a - b)),
        op == Op::Mul ==> r == Ok::<IntOut, Value>(fit(a * b)),
        op == Op::Div ==> if b == 0 {
            (r matches Err(e) && is_error(e, "ZeroDivisionError"@, "division by zero"@))
        } else {
            r == Ok::<IntOut, Value>(IntOut::Ratio(a, b))
        },
        op == Op::Mod ==> if b == 0 {
            (r matches Err(e) && is_error(e, "ZeroDivisionError"@, "modulo by zero"@))
        } else if a == i64::MIN && b == -1 {
            r == Ok::<IntOut, Value>(IntOut::Overflow)
        } else {
            r == Ok::<IntOut, Value>(fit(trunc_rem(a as int, b as int)))
        },
        !(op == Op::Add || op == Op::Sub || op == Op::Mul || op == Op::Div || op == Op::Mod)
            ==> (r matches Err(e) && is_error(e, "TypeError"@, "unsupported operand"@)),
{
    match op {
        Op::Add => Ok(
            match a.checked_add(b) {
                Some(x) => IntOut::Int(x),
                None => IntOut::Overflow,
            },
        ),
        Op::Sub => Ok(
            match a.checked_sub(b) {
                Some(x) => IntOut::Int(x),
                None => IntOut::Overflow,
            },
        ),
        Op::Mul => Ok(
            match a.checked_mul(b) {
                Some(x) => IntOut::Int(x),
                None => IntOut::Overflow,
            },
        ),
        Op::Div => if b == 0 {
            py_err("ZeroDivisionError", "division by zero")
        } else {
            Ok(IntOut::Ratio(a, b))
        },
        Op::Mod => if b == 0 {
            py_err("ZeroDivisionError", "modulo by zero")
        } else {
            match a.checked_rem(b) {
                Some(x) => Ok(IntOut::Int(x)),
                None => Ok(IntOut::Overflow),
            }
        },
        _ => py_err("TypeError", "unsupported operand"),
    }
}

/// `a op b` on two strings: only `==` and `!=` compare, every other
/// comparison is false.
pub fn str_compare(op: Op, a: &String, b: &String) -> (r: bool)
    ensures
        r == (op == Op::Eq && a@ == b@ || op == Op::Ne && a@ != b@),
{
    match op {
        Op::Eq => *a == *b,
        Op::Ne => !(*a == *b),
        _ => false,
    }
}

} // verus!
