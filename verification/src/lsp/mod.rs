//! Editor-tooling helpers over the template grammar.

pub mod parser;
