//! Lifts a linear stream of AArch64-style instructions into calls on an SSA
//! builder, managing the mapping from branch labels to basic blocks.
//!
//! The engine decides, instruction by instruction, which calls the builder
//! is to receive and into which block they go, and records them in order.
//! Whoever holds the builder makes the recorded calls. Labels may be
//! branched to before they are defined: a block is created the first time
//! its label is mentioned and reused ever after.

pub mod engine;
pub mod error;
pub mod instruction;
pub mod lemmas;
pub mod ir;
pub mod laws;
pub mod model;
