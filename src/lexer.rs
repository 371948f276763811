//! The lexer's definition: it chunks the character stream into a structured token
//! stream. Lexing itself happens outside this library; the resolver takes its tokens.
use vstd::prelude::*;

verus! {

/// The definition of the lexer for the source language.
#[derive(Debug, Clone, Copy)]
pub struct Lexer {}

impl Lexer {
    pub fn new() -> (r: Lexer) {
        Lexer {}
    }
}

} // verus!
