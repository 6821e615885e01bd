pub mod parser;
pub mod types;
