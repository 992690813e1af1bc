//! The front end of a small expression language: a lexer that turns source
//! text into tokens, one at a time, and a parser that climbs by precedence
//! and builds an expression from them.
//!
//! What the two compute is stated over the characters of the source, in
//! `scan` for the lexer and in `grammar` for the parser; `lexer` and `parser`
//! hold the code, which is proved to compute just that; `laws` holds
//! theorems about what is computed.

pub mod chars;
pub mod decimal;
pub mod error;
pub mod expression;
pub mod grammar;
pub mod laws;
pub mod lexer;
pub mod location;
pub mod parser;
pub mod scan;
pub mod text;
pub mod token;
