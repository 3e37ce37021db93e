//! Front end of a compiler for a small C-like language: a checkpointable
//! character stream, a token producer and a recursive-descent parser that
//! builds a tree with a source location on every node.

pub mod buffer;
pub mod lexer;
pub mod operator;
pub mod parse_node;
pub mod parser;
pub mod pattern;
pub mod single_token;
pub mod syntax;
pub mod text;
pub mod token;
