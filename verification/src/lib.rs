//! A small calculator library.
//!
//! A line of text is turned into tokens by [`scanner::tokenize`], the tokens
//! are turned into an abstract syntax tree by [`parser::parse`], and the tree
//! is checked for well-formedness (known unary operators, external-function
//! arity) by [`eval::validate`].  Numeric literals travel through the
//! pipeline as their digit text; turning that text into a machine number and
//! folding the tree arithmetically is left to the caller.

pub mod eval;
pub mod laws;
pub mod parser;
pub mod scanner;
