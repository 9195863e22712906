//! Boolean functions represented as truth tables, with a tokenizer and parser
//! for Boolean expressions.
pub mod expressions;
pub mod literals;
pub mod power_set;
pub mod parser;
pub mod table;
pub mod traits;
pub mod utils;
pub mod valuation;
