//! Front-end of a small curly-brace language: a pull-based scanner that
//! produces span-tagged tokens and a recursive-descent parser that builds
//! the abstract syntax tree.

pub mod lexer;
pub mod parser;
