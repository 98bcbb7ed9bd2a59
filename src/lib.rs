//! An interpreter for the eight-instruction tape language: a lexer that
//! filters source text into instructions, and an execution engine over a
//! fixed-size byte tape whose behaviour is given by a step-by-step model.

pub mod cell;
pub mod instruction;
pub mod machine;
pub mod interpreter;
pub mod laws;
