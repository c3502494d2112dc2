//! Lexical front end for the ZBasic language: splits raw source text into
//! words, classifies each word as a token, and wraps the result in a
//! resettable token cursor.

pub mod chars;
pub mod classify;
pub mod laws;
pub mod lexer;
pub mod segment;
pub mod tables;
pub mod token;
