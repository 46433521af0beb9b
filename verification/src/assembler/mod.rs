//! The assembler: Neander assembly text to a `.MEM` image.
pub mod codegen;
pub mod lexer;
pub mod parser;

pub use codegen::SymbolTable;
pub use lexer::{Lexer, LexerError, Token, TokenType};
pub use parser::ParserT;
