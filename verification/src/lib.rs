//! Decoding of terminal capability databases and evaluation of the
//! parameterized strings that they hold.

pub mod binary;
mod engine;
pub mod formatter;
pub mod machine;
pub mod param_string;
pub mod search;
pub mod templates;
pub mod terminfo;
