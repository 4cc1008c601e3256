//! Lexical analyzer.

pub mod lexeme;
pub mod scanner;
pub mod token;
pub mod unique;

pub use scanner::tokenize;
pub use token::{Token, TokenKind};
