//! Laws of scanning and parsing.
//!
//! Each law is a theorem about the functions of `scan` and `grammar`, which
//! say what the lexer and the parser compute.

pub mod parsing;
pub mod scanning;
