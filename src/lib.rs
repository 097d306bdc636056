//! Instruction semantics of an x86 processor: the arithmetic, logic and flag
//! engine, and the repeated string instructions, over an explicit CPU state.
use vstd::prelude::*;

pub mod arith;
pub mod cpu;
pub mod memory;
pub mod string;

verus! {

} // verus!
