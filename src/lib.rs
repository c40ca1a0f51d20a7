//! A lexer for a small line-oriented statement language: each line is split
//! into segments, each segment classified into a token kind and given a slot of
//! its statement (return, function, first and second argument), and each token
//! is then checked against the slots that its kind may take.

pub mod error;
pub mod grammar;
pub mod lexer;
pub mod text;
pub mod theorems;
