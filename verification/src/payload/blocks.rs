//! Payloads about block content, mining, voting and the exchange of blocks.

pub mod block_data;
pub mod block_gen;
pub mod get_block;
pub mod get_block_ack;
pub mod get_blocks_ack;
pub mod hash_val;
pub mod hash_val_ack;
pub mod new_block;
