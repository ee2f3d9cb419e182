//! Envelope functions written as s-expressions: a lexer, an s-expression
//! parser and a converter from s-expressions to `EnvFunction` trees.
//!
//! Numbers are carried as their decimal literal text (`Numeral`); the value
//! of a numeral is the `f32` nearest to it, which code outside this crate
//! computes.
pub mod func;
pub mod parser;
pub mod text;
