//! A compiler core that turns typed programs into constraint systems.
//!
//! A program is a set of functions and circuit types. Synthesis walks the
//! function `main` with the inputs of the program, allocates wires in a
//! [`ledger::ConstraintLedger`] and records the constraints that tie the wires
//! to each other.

pub mod access;
pub mod arithmetic;
pub mod boolean;
pub mod calls;
pub mod compiler;
pub mod constraints;
pub mod digest;
pub mod errors;
pub mod inputs;
pub mod integer;
pub mod ledger;
pub mod operators;
pub mod output;
pub mod program;
pub mod scope;
pub mod shape;
pub mod synthesizer;
pub mod value;
pub mod witness;
