//! A parser for the Hanoi Omega-Automata (HOA) exchange format.
//!
//! The [`lexer`] splits the bytes of an input into positioned tokens, and the
//! [`parser`] reads the tokens and hands the automaton to a
//! [`consumer::HoaConsumer`], call by call, in the order of the input.
//!
//! What each function does is stated against a mathematical model of the
//! format and proved: [`lexer::grammar`] says what the tokens of an input
//! are, [`parser::syntax`] says what a sequence of tokens asks of the
//! consumer, and [`lexer::reading`] and [`parser::laws`] hold what follows
//! for every input.

pub mod consumer;
pub mod lexer;
pub mod parser;
pub mod text;
