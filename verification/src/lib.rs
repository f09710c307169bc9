pub mod cli;
pub mod lexer;
pub mod parser;
pub mod runtime;
pub mod sema;
pub mod text;
pub mod ui;
