//! The atomic propositions of the formula syntax: their grammar, and their
//! compilation for a given net.

pub mod error;
pub mod formula;
pub mod grammar;
pub mod parse;
pub mod parser;
