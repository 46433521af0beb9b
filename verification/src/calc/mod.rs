//! The calculator front end: arithmetic expressions to Neander assembly.
pub mod codegen;
pub mod lexer;
pub mod parser;
pub mod grouping;
