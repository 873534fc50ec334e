//! A recoverable-error parser for a small expression language: a lexer
//! turns source text into tokens, and a precedence-climbing parser turns
//! the tokens into an abstract syntax tree while recording diagnostics
//! for malformed input instead of aborting.

pub mod token;

pub mod ast;

pub mod lexer;

pub mod parser;
