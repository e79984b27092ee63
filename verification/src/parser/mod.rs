//! From source text to a program: tokens, token trees, expressions, validation.
pub mod forms;
pub mod grammar;
pub mod keyword;
pub mod lexer;
pub mod numeric;
pub mod tree;
pub mod validator;

pub use lexer::{Lexer, Token};
pub use crate::position::Position;
pub use parser::{Parser, ParseOutcome, SpecParser, parse_outcome};

pub mod parser;
