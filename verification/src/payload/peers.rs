//! Payloads about the peers of the network.

pub mod get_peers_ack;
