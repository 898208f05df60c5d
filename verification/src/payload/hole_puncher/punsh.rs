//! The payload that tells a peer which address to open a path to.

use crate::payload::builder::PayloadBuilder;
use crate::payload::parser::{
    lemma_parse_field, spec_field, spec_parse_payload, spec_text_field, text_field, tilde_free,
};
use crate::payload::{round_trips, Payload, PayloadError};
use crate::text::lemma_ascii_byte_of_encoding;
use vstd::prelude::*;
use vstd::utf8::encode_utf8;

verus! {

/// One field: the address of the peer to reach.
#[derive(Clone, Debug, PartialEq)]
pub struct Punsh {
    /// Address of the other peer, as `ip:port`.
    pub address: String,
}

/// What a `Punsh` holds.
pub struct PunshView {
    pub address: Seq<char>,
}

impl View for Punsh {
    type V = PunshView;

    open spec fn view(&self) -> PunshView {
        PunshView { address: self.address@ }
    }
}

impl Punsh {
    /// Sets the address of the peer to reach.
    pub fn set_peer(self, peer: String) -> (out: Self)
        ensures
            out.address == peer,
    {
        Punsh { address: peer }
    }
}

impl Payload for Punsh {
    open spec fn spec_new() -> PunshView {
        PunshView { address: Seq::empty() }
    }

    open spec fn spec_to_bytes(value: PunshView) -> Seq<u8> {
        spec_field(encode_utf8(value.address))
    }

    open spec fn spec_parse(fields: Seq<Seq<u8>>) -> Result<PunshView, PayloadError> {
        if fields.len() == 0 {
            Ok(Self::spec_new())
        } else {
            match spec_text_field(fields, 0) {
                Ok(address) => Ok(PunshView { address }),
                Err(e) => Err(e),
            }
        }
    }

    fn new() -> (out: Self) {
        Punsh { address: String::new() }
    }

    fn parse(bytes: Vec<Vec<u8>>) -> (out: Result<Self, PayloadError>) {
        if bytes.len() == 0 {
            return Ok(Self::new());
        }
        match text_field(&bytes, 0) {
            Ok(address) => Ok(Punsh { address }),
            Err(e) => Err(e),
        }
    }

    fn to_bytes(self) -> (out: Vec<u8>) {
        PayloadBuilder::new().add_string(self.address).build()
    }
}

/// A `Punsh` whose address holds no `~` is read back as it was written.
pub proof fn lemma_punsh_round_trip(value: PunshView)
    requires
        !value.address.contains('~'),
    ensures
        round_trips::<Punsh>(value),
{
    let inner = encode_utf8(value.address);
    lemma_ascii_byte_of_encoding(value.address, 126u8);
    assert(tilde_free(inner));
    lemma_parse_field(inner, Seq::empty());
    assert(spec_field(inner) + Seq::<u8>::empty() =~= spec_field(inner));
    assert(spec_parse_payload(Seq::<u8>::empty()) =~= Seq::<Seq<u8>>::empty());
    let fields = spec_parse_payload(Punsh::spec_to_bytes(value));
    assert(fields =~= seq![inner]);
    vstd::utf8::encode_utf8_valid_utf8(value.address);
    vstd::utf8::encode_utf8_decode_utf8(value.address);
}

} // verus!
