//! A small interpreter for a Lisp-like language of symbolic expressions:
//! a reader from text to objects, the objects and the scopes that give
//! names their meaning, and an evaluator.

pub mod builtins;
pub mod environment;
pub mod evaluator;
pub mod object;
pub mod printer;
pub mod reader;
pub mod round_trip;
pub mod wrapping;
