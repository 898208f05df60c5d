//! A trial of a running network: a newcomer at a fresh relay hears of no peers.

use crate::payload::peers::get_peers_ack::GetPeersAck;
use crate::protocol::{spec_parse, BlockchainProtocol};
use vstd::prelude::*;
use vstd::string::StringExecFns;

verus! {

/// The trial that registers at the relay and looks at the answer.
#[derive(Clone, Copy, Debug, PartialEq, Eq)]
pub struct SyncPeers;

/// The answer is a message that names no peers.
pub open spec fn spec_passed(answer: Seq<u8>) -> bool {
    spec_parse::<GetPeersAck>(answer) matches Ok(message) && message.payload.peers.len() == 0
}

impl SyncPeers {
    /// What the trial is about.
    pub fn description() -> (out: String)
        ensures
            out@ == "Tests if syncing peers is working."@,
    {
        String::from_str("Tests if syncing peers is working.")
    }

    /// The name of the trial.
    pub fn name() -> (out: String)
        ensures
            out@ == "Sync Peers"@,
    {
        String::from_str("Sync Peers")
    }

    /// Whether the answer of the relay, taken out of its envelope, is what
    /// the trial expects: a message that names no peers.
    pub fn passed(answer: &[u8]) -> (out: bool)
        ensures
            out == spec_passed(answer@),
    {
        match BlockchainProtocol::<GetPeersAck>::from_u8(answer) {
            Ok(message) => message.payload.peers.len() == 0,
            Err(_) => false,
        }
    }
}

} // verus!
