pub mod error;
pub mod file;
pub mod parser;
pub mod types;
