//! A small interpreter for a Lisp-like expression language: integers,
//! strings, booleans, symbols, function application, function definition,
//! conditionals, sequencing and binary arithmetic.
//!
//! The crate covers the language front end and evaluator: the lexer that
//! turns source text into positioned tokens, the abstract syntax tree and
//! its canonical textual rendering, the chained environment that implements
//! nested scoping, and the tree-walking evaluator.  The concrete parser that
//! turns tokens into a tree is an external collaborator and is not part of
//! this crate.

pub mod ast;
pub mod environment;
pub mod eval;
pub mod laws;
pub mod lexer;
pub mod parse;
pub mod prelude;
