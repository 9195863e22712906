//! Tokenizing and parsing Boolean expressions.
pub mod error;
pub mod patterns;

pub use error::{ParseError, ParseTokensError, TokenizeError};
pub mod structs;
pub mod spec;
pub mod utils;
pub mod tokenize;
pub mod parse;
pub mod laws;
pub mod token;
