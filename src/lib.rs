//! Front end of a small expression-and-declaration language: a lexer from
//! source text to tokens, a recursive-descent parser from tokens to a parse
//! tree, a semantic reducer that types literals, folds constant arithmetic
//! and keeps a scoped symbol table, and a small assembly emitter.
pub mod tokens;
pub mod numbers;
pub mod tree;
pub mod lexer;
pub mod grammar;
pub mod parser;
pub mod extension;
pub mod fold;
pub mod reducer;
pub mod laws;
pub mod codegen;
