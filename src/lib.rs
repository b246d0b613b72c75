//! Minifies Rust source text: drops whitespace and comments, and keeps a single
//! space only where two identifier-like tokens would otherwise run together.

pub mod laws;
pub mod layout;
pub mod lexer;
