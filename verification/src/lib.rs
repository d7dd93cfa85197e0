//! Lexical and syntactic front end of a small scripting language: a scanner
//! from source text to tokens and a parser from tokens to one expression tree.

pub mod token_type;
pub mod token;
pub mod lexical;
pub mod scanner;
pub mod expr;
pub mod grammar;
pub mod parser;
pub mod laws;
pub mod driver;
