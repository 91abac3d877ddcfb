//! A minimal register-based virtual machine and its text assembler.
//!
//! The machine interprets instructions over three numeric domains — double
//! float, signed and unsigned 64-bit integer — sharing one untyped 64-bit
//! register bank, with label-addressed control flow and external input and
//! output channels. The assembler compiles human-readable instruction text
//! into the machine's program representation. Doubles live in the register
//! bank as raw bit patterns; `float_bits` gives the words their reading.
use vstd::prelude::*;

pub mod common;
pub mod float_bits;
pub mod moo;
pub mod program;
pub mod text;
pub mod vm;

verus! {

} // verus!
