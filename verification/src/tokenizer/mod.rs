//! From expression text to tokens.

pub mod error;
pub mod lexer;
pub mod number;
pub mod token;
