//! Payloads exchanged with the hole-punching relay.

pub mod punsh;
