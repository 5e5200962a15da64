use vstd::prelude::*;

pub mod text;
pub mod token;
pub mod lexer;
pub mod layout;
pub mod ast;
pub mod parser;
pub mod messages;
pub mod source;
pub mod value;
pub mod ops;
pub mod call;
pub mod runtime;
pub mod vars;
pub mod scopes;
pub mod control;
pub mod basic;
pub mod py4;
pub mod py0i;

verus! {

broadcast use vstd::string::group_string_axioms;

} // verus!
