//! The payload with which a peer votes for the hash of a block.

use crate::decimal::{decimal_text, lemma_text_round_trip};
use crate::payload::builder::PayloadBuilder;
use crate::payload::parser::{
    lemma_fields_written, lemma_parse_fields, spec_field, spec_fields, spec_parse_payload,
    spec_text_field, spec_u64_field, text_field, u64_field,
};
use crate::payload::{round_trips, Payload, PayloadError};
use crate::text::lemma_ascii_byte_of_encoding;
use vstd::prelude::*;
use vstd::utf8::encode_utf8;

verus! {

/// The hash that the sender computed for the block with an index.
#[derive(Clone, Debug, PartialEq)]
pub struct HashValAck {
    /// Index of the block.
    pub index: u64,
    /// Hash that the sender computed.
    pub hash: String,
}

/// What a `HashValAck` holds.
pub struct HashValAckView {
    pub index: u64,
    pub hash: Seq<char>,
}

impl View for HashValAck {
    type V = HashValAckView;

    open spec fn view(&self) -> HashValAckView {
        HashValAckView {
            index: self.index,
            hash: self.hash@,
        }
    }
}

impl Payload for HashValAck {
    open spec fn spec_new() -> HashValAckView {
        HashValAckView {
            index: 0,
            hash: Seq::empty(),
        }
    }

    open spec fn spec_to_bytes(value: HashValAckView) -> Seq<u8> {
        spec_field(decimal_text(value.index as int))
            + spec_field(encode_utf8(value.hash))
    }

    open spec fn spec_parse(fields: Seq<Seq<u8>>) -> Result<HashValAckView, PayloadError> {
        if fields.len() == 0 {
            Ok(Self::spec_new())
        } else {
            match spec_u64_field(fields, 0) {
                Err(e) => Err(e),
                Ok(index) => match spec_text_field(fields, 1) {
                    Err(e) => Err(e),
                    Ok(hash) => Ok(HashValAckView { index, hash }),
                },
            }
        }
    }

    fn new() -> (out: Self) {
        HashValAck {
            index: 0,
            hash: String::new(),
        }
    }

    fn parse(bytes: Vec<Vec<u8>>) -> (out: Result<Self, PayloadError>) {
        if bytes.len() == 0 {
            return Ok(Self::new());
        }
        let index = match u64_field(&bytes, 0) {
            Ok(v) => v,
            Err(e) => { return Err(e); },
        };
        let hash = match text_field(&bytes, 1) {
            Ok(v) => v,
            Err(e) => { return Err(e); },
        };
        Ok(HashValAck { index, hash })
    }

    fn to_bytes(self) -> (out: Vec<u8>) {
        let builder = PayloadBuilder::new();
        let builder = builder.add_u64(self.index);
        let builder = builder.add_string(self.hash);
        let out = builder.build();
        assert(out@ =~= Self::spec_to_bytes(self@));
        out
    }
}

/// A `HashValAck` whose hash holds no `~` is read back as it was written.
pub proof fn lemma_hash_val_ack_round_trip(value: HashValAckView)
    requires
        !value.hash.contains('~'),
    ensures
        round_trips::<HashValAck>(value),
{
    let f0 = decimal_text(value.index as int);
    let f1 = encode_utf8(value.hash);
    let plain = seq![f0, f1];
    lemma_fields_written(f0, f1, Seq::empty(), Seq::empty(), Seq::empty(), Seq::empty());
    lemma_text_round_trip(value.index as int, false);
    lemma_ascii_byte_of_encoding(value.hash, 126u8);
    let bytes = HashValAck::spec_to_bytes(value);
    assert(bytes =~= spec_fields(plain) + Seq::<u8>::empty());
    lemma_parse_fields(plain, Seq::empty());
    assert(spec_parse_payload(Seq::<u8>::empty()) =~= Seq::<Seq<u8>>::empty());
    assert(plain + Seq::<Seq<u8>>::empty() =~= plain);
    vstd::utf8::encode_utf8_valid_utf8(value.hash);
    vstd::utf8::encode_utf8_decode_utf8(value.hash);
}

} // verus!
