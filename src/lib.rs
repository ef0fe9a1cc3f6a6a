//! A tape machine for the eight-instruction bracket language: a translator
//! from source text to a jump-resolved instruction sequence, and an engine
//! that runs such a sequence over a growable tape of wrapping cells.

pub mod backend;
pub mod cell;
pub mod instruction;
pub mod translate;
pub mod engine;
