//! Front end and scope chain of a small scripting language: a lexer from
//! source text to tokens, a recursive-descent parser from tokens to a tree,
//! visitor traversal with a printing pass, and nested binding scopes.
use vstd::prelude::*;

pub mod token;
pub mod lexer;
pub mod ast;
pub mod grammar;
pub mod parser;
pub mod environment;
pub mod visitor;
pub mod ast_printer;

verus! {

} // verus!
