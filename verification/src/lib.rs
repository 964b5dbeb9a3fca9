//! A minimal imperative scripting language: a scanner from program text to
//! typed tokens, a recursive-descent parser from tokens to instruction and
//! expression trees, and a scoped execution engine that interprets the trees
//! against a stack of variable frames.
pub mod float_bits;
pub mod interpreter;
pub mod number;
pub mod parser;
pub mod tokenizer;
