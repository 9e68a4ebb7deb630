//! A single-step execution engine for a minimal, bracket-structured,
//! tape-based instruction language.
//!
//! The `semantics` module gives the reference semantics as a mathematical
//! transition function over a ghost machine state; the `interpreter` module
//! holds the executable stepper, verified to follow that transition exactly.

pub mod interpreter;
pub mod semantics;
