pub mod ast;
pub mod chars;
pub mod grammar;
pub mod parser;
