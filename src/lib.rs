pub mod ast;
pub mod backend;
pub mod common;
pub mod ir;
pub mod lexer;
pub mod parser;
pub mod semantics;
