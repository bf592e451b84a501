//! An assembler for a small fixed-width instruction set: it checks each
//! source line against the instruction table, encodes it into nibbles, and
//! lays the result out in a 256-byte memory image.
use vstd::prelude::*;

pub mod assembler;
pub mod function_parser;
pub mod instruction;
pub mod utils;

verus! {

} // verus!
