//! Front end of an interpreter for a small C-like expression language:
//! a lexer that turns source text into tokens and a Pratt parser that builds
//! an abstract syntax tree, each specified against a functional model.

pub mod text;
pub mod token;
pub mod lexer;
pub mod ast;
pub mod parser;
pub mod laws;
