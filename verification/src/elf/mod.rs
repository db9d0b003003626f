//! The object model and its way into a file.

pub mod obj;
pub mod writer;
