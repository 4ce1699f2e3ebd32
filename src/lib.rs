//! Exact rational expression evaluation: a lexer, a precedence-climbing parser,
//! and an evaluator that reduces expression trees against variable bindings,
//! with cycle detection.

pub mod rational;
pub mod number_theory;
pub mod tokenizer;
pub mod expr;
pub mod parser;
pub mod context;
pub mod evaluator;
pub mod laws;
