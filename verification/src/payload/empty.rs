//! The payload of a message that carries nothing.

use crate::payload::parser::spec_parse_payload;
use crate::payload::{round_trips, Payload, PayloadError};
use vstd::prelude::*;

verus! {

/// Nothing: the payload of `Ping`, `Pong`, `Register`, `GetPeers` and `GetBlocks`.
#[derive(Clone, Copy, Debug, PartialEq, Eq)]
pub struct EmptyPayload {}

impl View for EmptyPayload {
    type V = ();

    open spec fn view(&self) -> () {
        ()
    }
}

impl Payload for EmptyPayload {
    open spec fn spec_new() -> () {
        ()
    }

    open spec fn spec_to_bytes(value: ()) -> Seq<u8> {
        Seq::empty()
    }

    open spec fn spec_parse(fields: Seq<Seq<u8>>) -> Result<(), PayloadError> {
        Ok(())
    }

    fn new() -> (out: Self) {
        EmptyPayload {  }
    }

    fn parse(bytes: Vec<Vec<u8>>) -> (out: Result<Self, PayloadError>) {
        Ok(EmptyPayload {  })
    }

    fn to_bytes(self) -> (out: Vec<u8>) {
        Vec::new()
    }
}

/// The empty payload is written as no bytes and read back from any fields.
pub proof fn lemma_empty_round_trip()
    ensures
        round_trips::<EmptyPayload>(()),
        spec_parse_payload(Seq::<u8>::empty()) == Seq::<Seq<u8>>::empty(),
{
}

} // verus!
