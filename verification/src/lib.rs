//! A front end for the Monkey scripting language: a lexer that turns source
//! text into tokens and a Pratt parser that turns tokens into a syntax tree,
//! each verified against a mathematical description of what it computes.

pub mod ast;
pub mod diagnostics;
pub mod grammar;
pub mod lexer;
pub mod parser;
pub mod repl;
pub mod text;
pub mod theorems;
pub mod token;
