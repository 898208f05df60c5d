//! The payload that tells a peer which peers there are.

use crate::payload::builder::{lemma_overflow_round_trip, spec_overflow, PayloadBuilder};
use crate::payload::list::{
    join_list, join_strings, lemma_list_round_trip, separator_free, split_list, split_string,
    text_views,
};
use crate::payload::parser::{overflow_field, spec_fields, spec_overflow_field, spec_parse_payload};
use crate::payload::{round_trips, Payload, PayloadError};
use vstd::prelude::*;
use vstd::utf8::encode_utf8;

verus! {

/// The addresses of the peers that the sender knows.
#[derive(Clone, Debug, PartialEq)]
pub struct GetPeersAck {
    /// Addresses of the peers, written as one overflow field with `, `
    /// between neighbours. No addresses are written as no field at all, which
    /// tells them from one empty address.
    pub peers: Vec<String>,
}

/// What a `GetPeersAck` holds.
pub struct GetPeersAckView {
    pub peers: Seq<Seq<char>>,
}

impl View for GetPeersAck {
    type V = GetPeersAckView;

    open spec fn view(&self) -> GetPeersAckView {
        GetPeersAckView { peers: text_views(self.peers@) }
    }
}

impl Payload for GetPeersAck {
    open spec fn spec_new() -> GetPeersAckView {
        GetPeersAckView { peers: Seq::empty() }
    }

    open spec fn spec_to_bytes(value: GetPeersAckView) -> Seq<u8> {
        if value.peers.len() == 0 {
            Seq::empty()
        } else {
            spec_overflow(encode_utf8(join_list(value.peers)))
        }
    }

    open spec fn spec_parse(fields: Seq<Seq<u8>>) -> Result<GetPeersAckView, PayloadError> {
        if fields.len() == 0 {
            Ok(Self::spec_new())
        } else {
            match spec_overflow_field(fields, 0) {
                Ok(text) => Ok(GetPeersAckView { peers: split_list(text) }),
                Err(e) => Err(e),
            }
        }
    }

    fn new() -> (out: Self) {
        let out = GetPeersAck { peers: Vec::new() };
        assert(out@.peers =~= Seq::<Seq<char>>::empty());
        out
    }

    fn parse(bytes: Vec<Vec<u8>>) -> (out: Result<Self, PayloadError>) {
        if bytes.len() == 0 {
            return Ok(Self::new());
        }
        match overflow_field(&bytes, 0) {
            Ok(text) => Ok(GetPeersAck { peers: split_string(text.as_str()) }),
            Err(e) => Err(e),
        }
    }

    fn to_bytes(self) -> (out: Vec<u8>) {
        if self.peers.len() == 0 {
            return PayloadBuilder::new().build();
        }
        let out = PayloadBuilder::new().add_string_overflow(join_strings(&self.peers)).build();
        assert(out@ =~= Self::spec_to_bytes(self@));
        out
    }
}

/// A `GetPeersAck` in which no address holds `, ` is read back as it
/// was written, the one without addresses too.
pub proof fn lemma_get_peers_ack_round_trip(value: GetPeersAckView)
    requires
        forall|i: int| 0 <= i < value.peers.len() ==> separator_free(#[trigger] value.peers[i]),
    ensures
        round_trips::<GetPeersAck>(value),
{
    if value.peers.len() == 0 {
        assert(value.peers =~= Seq::<Seq<char>>::empty());
        assert(spec_parse_payload(Seq::<u8>::empty()) =~= Seq::<Seq<u8>>::empty());
    } else {
        let text = join_list(value.peers);
        lemma_list_round_trip(value.peers);
        lemma_overflow_round_trip(Seq::empty(), encode_utf8(text));
        assert(spec_fields(Seq::empty()) + GetPeersAck::spec_to_bytes(value)
            =~= GetPeersAck::spec_to_bytes(value));
        let fields = spec_parse_payload(GetPeersAck::spec_to_bytes(value));
        assert(fields.skip(0) =~= fields);
        vstd::utf8::encode_utf8_valid_utf8(text);
        vstd::utf8::encode_utf8_decode_utf8(text);
    }
}

} // verus!
