//! Macro resolution for a language frontend: a token stream is rewritten into a
//! sequence of chunks, each a resolved macro invocation or a run of plain tokens.
pub mod lexer;
pub mod token;
pub mod chunk;
pub mod definition;
pub mod error;
pub mod registry;
pub mod builder;
pub mod resolver;
pub mod laws;
