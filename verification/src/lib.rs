//! A CHIP-8 interpreter core: the machine state, its instruction semantics,
//! and the helpers a front end needs to drive it.

pub mod bytes;
pub mod cpu;
mod decode;
pub mod display;
pub mod font;
pub mod host;
pub mod instruction_laws;
pub mod laws;
mod random;
pub mod semantics;
pub mod state;
