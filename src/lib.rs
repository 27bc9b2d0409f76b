//! A tape-machine interpreter for the eight-symbol language `+ - > < [ ] , .`.
//!
//! Source text is reduced to a sequence of [`Token`]s, loop markers are paired
//! once up front, and [`BfInterpreter`] runs the sequence against a fixed tape.
pub mod token;
pub mod loops;

pub use token::Token;
pub use loops::MalformedProgram;
pub mod bf_interpreter;

pub use bf_interpreter::BfInterpreter;
