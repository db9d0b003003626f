//! From lexemes to the program tree.

pub mod ast;
pub mod laws;
pub mod token;
