//! A tree-walking interpreter for a small Lox-like language: scanner,
//! parser and interpreter, each with its contract.
pub mod num;
pub mod text;
pub mod scanner;
pub mod object;
pub mod ast;
pub mod parser;
pub mod environment;
pub mod interpreter;
pub mod ast_generator;
