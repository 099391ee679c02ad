pub mod types;
pub mod parse;
pub mod streaming;
pub mod prompt;
