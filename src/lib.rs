use vstd::prelude::*;

pub mod block_finder;
pub mod block_writer;
pub mod compiler;
pub mod decoded;
pub mod decoding_compiler;
pub mod driver;
pub mod emit;
pub mod hex;
pub mod read_instruction;

verus! {

} // verus!
