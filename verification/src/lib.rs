//! A small language of arithmetic formulas: numbers, the four operators,
//! parentheses and calls of a few built-in functions.
//!
//! A text is split into tokens ([`lex`]), the tokens are parsed into an
//! expression ([`parse`]), and the expression is laid out as a postfix
//! program ([`interpreter`]) that a stack machine runs on numbers. [`run`]
//! chains the three. The modules whose names end in `_laws`, and
//! [`round_trip`], hold what is proved of them.
pub mod ast;
pub mod interpreter;
pub mod interpreter_laws;
pub mod lex;
pub mod lex_laws;
pub mod parse;
pub mod parse_laws;
pub mod round_trip;
pub mod run;
pub mod semantics;
pub mod text;
