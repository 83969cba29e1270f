use vstd::prelude::*;

pub mod bit;
pub mod types;
pub mod instruction;
pub mod hardware;
pub mod cpu;
pub mod attiny;
pub mod parser;
pub mod assembly;

verus! {

} // verus!
