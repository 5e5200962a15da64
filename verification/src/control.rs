use vstd::prelude::*;

use crate::ast::LogicOp;
use crate::call::names;
use crate::runtime::{catches, handler_catches};

verus! {

/// How a statement or a block ended.
pub enum Status<V> {
    /// It ran to its end; the next statement runs.
    Normal,
    /// `return`, with the returned value.
    Return(V),
    /// `break`.
    Break,
    /// `continue`.
    Next,
}

/// A block goes on to its next statement only after one that ended normally.
pub fn block_goes_on<V>(s: &Status<V>) -> (b: bool)
    ensures
        b == (*s is Normal),
{
    match s {
        Status::Normal => true,
        _ => false,
    }
}

/// What a loop does after one run of its body: `None` runs the body again
/// (after a normal end or `continue`); otherwise the loop ends with the given
/// status: normally after `break`, and with the same `return` after one.
pub fn after_body<V>(s: Status<V>) -> (r: Option<Status<V>>)
    ensures
        match s {
            Status::Normal => r is None,
            Status::Next => r is None,
            Status::Break => r matches Some(Status::Normal),
            Status::Return(v) => r matches Some(Status::Return(w)) && w == v,
        },
{
    match s {
        Status::Normal => None,
        Status::Next => None,
        Status::Break => Some(Status::Normal),
        Status::Return(v) => Some(Status::Return(v)),
    }
}

/// `and` decides on a false left operand, `or` on a true one.
pub open spec fn keeps_left_spec(op: LogicOp, left_truthy: bool) -> bool {
    match op {
        LogicOp::And => !left_truthy,
        LogicOp::Or => left_truthy,
    }
}

/// Whether `and` / `or` gives its left operand without evaluating the right
/// one: `and` does so for a false left operand, `or` for a true one.
pub fn keeps_left(op: LogicOp, left_truthy: bool) -> (b: bool)
    ensures
        b == keeps_left_spec(op, left_truthy),
{
    match op {
        LogicOp::And => !left_truthy,
        LogicOp::Or => left_truthy,
    }
}

/// The position that index `i` names in a sequence of `len` items, or `None`
/// (an `IndexError`) when it lies outside: negative indices are not counted
/// from the end.
pub fn seq_index(i: i64, len: usize) -> (r: Option<usize>)
    ensures
        match r {
            Some(k) => 0 <= i < len && k == i,
            None => i < 0 || i >= len,
        },
{
    if i < 0 {
        None
    } else if (i as u64) >= (len as u64) {
        None
    } else {
        Some(i as usize)
    }
}

/// The handler that catches an exception of type `exc_type`: the first one,
/// in order, whose list of types catches it (an empty list catches all).
pub fn first_handler(handlers: &Vec<Vec<String>>, exc_type: &Option<String>) -> (r: Option<usize>)
    ensures
        ({
            let t = match exc_type {
                Some(s) => Some(s@),
                None => None,
            };
            match r {
                Some(k) => k < handlers@.len() && catches(names(handlers@[k as int]@), t) && forall|j: int|
                    0 <= j < k ==> !catches(#[trigger] names(handlers@[j]@), t),
                None => forall|j: int| 0 <= j < handlers@.len() ==> !catches(#[trigger] names(handlers@[j]@), t),
            }
        }),
{
    let ghost t = match exc_type {
        Some(s) => Some(s@),
        None => None,
    };
    let mut k: usize = 0;
    while k < handlers.len()
        invariant
            k <= handlers@.len(),
            t == match exc_type {
                Some(s) => Some(s@),
                None => None,
            },
            forall|j: int| 0 <= j < k ==> !catches(#[trigger] names(handlers@[j]@), t),
        decreases handlers@.len() - k,
    {
        if handler_catches(&handlers[k], exc_type) {
            return Some(k);
        }
        k = k + 1;
    }
    None
}

/// The arguments of a call through a bound method: the receiver first, then
/// the arguments as given.
pub fn with_receiver<V>(receiver: V, args: Vec<V>) -> (r: Vec<V>)
    ensures
        r@ == seq![receiver] + args@,
{
    let mut r: Vec<V> = Vec::new();
    r.push(receiver);
    let mut rest = args;
    r.append(&mut rest);
    r
}

/// The directories searched for a module: those of `sys.path` that are
/// strings, in order, where `sys.path` is a list; `.` alone where it is not.
pub fn search_dirs(sys_path: Option<Vec<Option<String>>>) -> (r: Vec<String>)
    ensures
        names(r@) == match sys_path {
            Some(items) => strings_of(items@),
            None => seq![seq!['.']],
        },
{
    match sys_path {
        None => {
            let mut r: Vec<String> = Vec::new();
            let dot = ".".to_owned();
            proof {
                reveal_strlit(".");
                assert(dot@ =~= seq!['.']);
            }
            r.push(dot);
            proof {
                assert(names(r@) =~= seq![seq!['.']]);
            }
            r
        },
        Some(items) => {
            let mut r: Vec<String> = Vec::new();
            let mut k: usize = 0;
            while k < items.len()
                invariant
                    k <= items@.len(),
                    names(r@) == strings_of(items@.take(k as int)),
                decreases items@.len() - k,
            {
                proof {
                    assert(items@.take(k as int + 1).drop_last() =~= items@.take(k as int));
                }
                match &items[k] {
                    Some(s) => {
                        r.push(s.clone());
                        proof {
                            assert(names(r@) =~= names(r@.drop_last()).push(s@));
                        }
                    },
                    None => {},
                }
                k = k + 1;
            }
            proof {
                assert(items@.take(items@.len() as int) =~= items@);
            }
            r
        },
    }
}

/// The strings among `items`, in order.
pub open spec fn strings_of(items: Seq<Option<String>>) -> Seq<Seq<char>>
    decreases items.len(),
{
    if items.len() == 0 {
        seq![]
    } else {
        let front = strings_of(items.drop_last());
        match items.last() {
            Some(s) => front.push(s@),
            None => front,
        }
    }
}

} // verus!
