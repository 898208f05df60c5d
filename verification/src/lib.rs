//! A small peer-to-peer blockchain: wire codec, peer bookkeeping, mining and
//! consensus rules, with every rule stated as a contract and proved.
//!
//! The library decides and computes; it neither sends nor receives, reads no
//! clock and touches no file. Around it a program owns the socket, the
//! threads and the directory of blocks.

pub mod checksum;
pub mod codes;
pub mod consensus;
pub mod decimal;
pub mod digest;
pub mod dispatch;
pub mod envelope;
pub mod hex;
pub mod mining;
pub mod payload;
pub mod pending;
pub mod protocol;
pub mod registry;
pub mod relay;
pub mod storage;
pub mod sync;
pub mod tally;
pub mod text;
pub mod trial;
