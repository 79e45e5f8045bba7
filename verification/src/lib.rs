//! An interpreter for an eight-instruction tape language: a tape of 30 000
//! wrapping byte cells, one data pointer, and loops delimited by brackets.
//!
//! Every function here carries a contract that Verus proves. The library
//! performs no input or output itself: [`machine::next_request`] says what
//! the next instruction needs, the caller does it and hands the outcome to
//! [`machine::execute_instruction`] as a [`machine::Event`]. [`run::run`]
//! does the same over an input held in memory, for a bounded number of
//! instructions.

pub mod dump;
pub mod fault;
pub mod loops;
pub mod machine;
pub mod program;
pub mod run;
pub mod theory;
