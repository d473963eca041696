//! Verified core of a MeTTa toolkit: atoms and their sub-expression walk,
//! a registry of modules, and the converter that turns MeTTa syntax written
//! as Rust tokens into code that builds atoms.
pub mod atom;
pub mod eval;
pub mod number;
pub mod literal;
pub mod token;
pub mod tokenizer;
pub mod printer;
pub mod converter;

