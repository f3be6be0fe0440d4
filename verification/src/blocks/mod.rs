//! The decision logic of each block, as a state machine: the block's state,
//! what it does with each event on its ports, and what it sends in return.

pub mod codecs;
pub mod core_blocks;
pub mod generator;
pub mod flow;
pub mod math;
