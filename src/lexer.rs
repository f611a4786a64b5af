use vstd::prelude::*;

verus! {

/// Why a piece of source text could not be turned into a token.
#[derive(Debug, Clone, PartialEq, Eq)]
pub enum LexingError {
    InvalidInteger(String),
    InvalidFloat(String),
    InvalidLexeme,
}

/// A classified lexical token. A float keeps its source text.
#[derive(Debug, Clone, PartialEq)]
pub enum Token {
    Ws,
    True,
    False,
    Symbol(String),
    Ident(String),
    Float(String),
    Integer(i64),
}

} // verus!
