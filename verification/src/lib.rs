//! Oryn: a tiny scripting language for games.
use vstd::prelude::*;

pub mod ast;
pub mod docs;
pub mod compiler;
pub mod errors;
pub mod grammar;
pub mod lexer;
pub mod parser;
pub mod progress;
pub mod tables;
pub mod text;
pub mod types;
pub mod visitor;
pub mod vm;

verus! {

} // verus!
