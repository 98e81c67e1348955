//! A small Lisp evaluator: a lexer for its surface syntax, a value model,
//! a scope store and a tree-walking evaluator, with their contracts.
use vstd::prelude::*;

pub mod text;
pub mod lexer;
pub mod value;
pub mod env;
pub mod semantics;
pub mod interpreter;
pub mod laws;

pub use interpreter::{MAX_DEPTH, RuntimeError, interpret};
pub use lexer::{SyntaxError, Token, tokenize};
pub use value::{Function, Native, Node, Value};

verus! {

} // verus!
