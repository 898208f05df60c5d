//! Payloads that carry a whole block.

pub mod possible_block;
