//! Evaluation of arithmetic expressions over physical quantities.
//!
//! Text is lexed into tokens ([`lexer`]), tokens are parsed into an
//! expression tree ([`parser`]), and the tree is evaluated ([`evaluator`]) to
//! a quantity: a magnitude paired with a vector of SI dimension exponents
//! ([`units`]), with units looked up in [`registry`]. [`calculator`] runs
//! the three stages in turn.
//!
//! Number literals are kept as exact decimals, and a magnitude is an exact
//! arithmetic term over such decimals; rounding it to a machine number is
//! left to the caller.
pub mod lexer;
pub mod parser;
pub mod units;
pub mod registry;
pub mod evaluator;
pub mod calculator;
