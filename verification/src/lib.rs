//! A verified Reverse Polish Notation calculator core.
//!
//! A line of input is scanned character by character through a three-state
//! lexical machine (`Start`, number buffer, identifier buffer) fused with an
//! operator evaluator.  The scan is value-independent: which pushes, lookups
//! and operator applications a line causes, and every arity and syntax check,
//! depend only on the characters, the stack depth and the set of bound names.
//! The engine therefore returns the line's stack effects and print decision,
//! fully verified against a mathematical model of the machine, and a thin
//! unverified shell interprets those effects on the numeric stack.

pub mod bindings;
pub mod engine;
pub mod errors;
pub mod laws;
pub mod model;
pub mod text;
