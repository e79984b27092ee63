//! The front end of Sai, a small Lisp-like language with static types: lexing, parsing,
//! validation and type checking, each stated against a mathematical model and verified;
//! and what the interactive session decides around them.
pub mod ast;
pub mod cli;
pub mod diagnostics;
pub mod parser;
pub mod position;
pub mod text;
pub mod types;
