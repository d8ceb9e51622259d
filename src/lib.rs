pub mod error;
pub mod parse;
pub mod resolve;
pub mod text;
