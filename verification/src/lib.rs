//! A small compiler for infix arithmetic expressions over 64-bit integers.
//!
//! The pipeline has three stages, each a pure function over the previous
//! stage's output:
//!
//! - [`tokenizer::tokenize`] turns the input text into a token sequence,
//! - [`parser::parse`] builds a precedence-layered syntax tree from the
//!   tokens, and
//! - [`compiler::compile`] lowers the tree to stack-machine instruction
//!   text for a native assembler.
//!
//! Every stage carries a contract that pins its result down exactly, and
//! [`semantics`] proves that the emitted text, run on the machine it
//! targets, computes the parsed expression's value.

pub mod compiler;
pub mod parser;
pub mod semantics;
pub mod tokenizer;
