//! A Lua 5.4 lexer and parser with verified contracts.
pub mod ast;
pub mod lexer;
pub mod parser;
pub mod text;
