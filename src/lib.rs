//! A small arithmetic pipeline: a tokenizer and recursive-descent parser for
//! expressions over single digits, `+`, `*` and parentheses; an AST with an
//! evaluator and two printers; and a stack machine with a lowering from the
//! AST to its instructions.
//!
//! Sums and products wrap around on 64 bits, in the evaluator and in the
//! machine alike. The parser stops after one complete expression and leaves
//! any tokens after it unread.
pub mod parser;
pub mod vm;
pub mod compile;
