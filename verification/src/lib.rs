//! The IsiLang compilation pipeline: a parser from source text to a spanned
//! syntax tree, a type checker and a usage checker over that tree, and two
//! back ends — a C emitter and an interpreter. Every pass carries a contract
//! stated over a mathematical model of its input and output, and the grammar,
//! the typing rules, the emitted bytes and the interpreter's semantics are
//! each defined as specification functions the executable code is proved
//! against.

use vstd::prelude::*;

pub mod ast;
pub mod cemitter;
pub mod interpreter;
pub mod parser;
pub mod pipeline;
pub mod span;
pub mod typeck;
pub mod types;
pub mod usageck;

verus! {

} // verus!
