//! A grammar interpreter: grammars are data (entry patterns, named rules,
//! constant defines) and a backtracking engine walks them over a token stream.
pub mod custom;
pub mod definition;
pub mod laws;
pub mod lexer;
mod regex_match;
