pub mod ast;
pub mod grammar;
pub mod lexer;
pub mod lexing_laws;
pub mod parser;
pub mod token;
pub mod types;
pub mod scope;
pub mod runtime;
