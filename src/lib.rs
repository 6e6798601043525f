//! Front end of a small statically typed language: a lexer that turns source
//! text into positioned tokens, and a recursive-descent parser that turns the
//! tokens into a syntax tree.
use vstd::prelude::*;

pub mod ast;
pub mod grammar;
pub mod parser;
pub mod tokenizer;
pub mod types;

verus! {

} // verus!
