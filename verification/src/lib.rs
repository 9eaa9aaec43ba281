//! A small scripting-language front end: tokenizer, lexer, backtracking
//! cursor, and recursive-descent parser, with verified contracts relating
//! every stage to a mathematical model of its output.

pub mod ast;
pub mod chars;
pub mod cursor;
pub mod laws;
pub mod lexer;
pub mod parser;
pub mod pipeline;
pub mod tokenizer;
