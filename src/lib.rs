use vstd::prelude::*;

pub mod chip8;
pub mod laws;

verus! {

} // verus!
