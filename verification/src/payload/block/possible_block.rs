//! The payload that carries a block with its nonce and hash.

use crate::decimal::{decimal_text, lemma_text_round_trip};
use crate::payload::builder::PayloadBuilder;
use crate::payload::parser::{
    i64_field, lemma_fields_push, lemma_parse_fields, spec_field, spec_fields, spec_i64_field,
    spec_parse_payload, spec_text_field, spec_u64_field, text_field, u64_field,
};
use crate::payload::{round_trips, Payload, PayloadError};
use crate::text::lemma_ascii_byte_of_encoding;
use vstd::prelude::*;
use vstd::utf8::encode_utf8;

verus! {

/// A block that a peer has found: six fields, in this order on the wire.
#[derive(Debug, PartialEq)]
pub struct PossibleBlockPayload {
    /// Index of the block.
    pub index: u64,
    /// Content of the block.
    pub content: String,
    /// Time at which the block was proposed.
    pub timestamp: i64,
    /// Hash of the block before it.
    pub prev: String,
    /// Nonce of the block.
    pub nonce: u64,
    /// Hash over the other values.
    pub hash: String,
}

/// What a `PossibleBlockPayload` holds.
pub struct PossibleBlockView {
    pub index: u64,
    pub content: Seq<char>,
    pub timestamp: i64,
    pub prev: Seq<char>,
    pub nonce: u64,
    pub hash: Seq<char>,
}

impl View for PossibleBlockPayload {
    type V = PossibleBlockView;

    open spec fn view(&self) -> PossibleBlockView {
        PossibleBlockView {
            index: self.index,
            content: self.content@,
            timestamp: self.timestamp,
            prev: self.prev@,
            nonce: self.nonce,
            hash: self.hash@,
        }
    }
}

/// The six fields of a block, as bytes.
pub open spec fn possible_block_fields(value: PossibleBlockView) -> Seq<Seq<u8>> {
    seq![
        decimal_text(value.index as int),
        encode_utf8(value.content),
        decimal_text(value.timestamp as int),
        encode_utf8(value.prev),
        decimal_text(value.nonce as int),
        encode_utf8(value.hash),
    ]
}

impl Payload for PossibleBlockPayload {
    open spec fn spec_new() -> PossibleBlockView {
        PossibleBlockView {
            index: 0,
            content: Seq::empty(),
            timestamp: 0,
            prev: Seq::empty(),
            nonce: 0,
            hash: Seq::empty(),
        }
    }

    open spec fn spec_to_bytes(value: PossibleBlockView) -> Seq<u8> {
        spec_field(decimal_text(value.index as int)) + spec_field(encode_utf8(value.content))
            + spec_field(decimal_text(value.timestamp as int)) + spec_field(
            encode_utf8(value.prev),
        ) + spec_field(decimal_text(value.nonce as int)) + spec_field(encode_utf8(value.hash))
    }

    open spec fn spec_parse(fields: Seq<Seq<u8>>) -> Result<PossibleBlockView, PayloadError> {
        match spec_u64_field(fields, 0) {
            Err(e) => Err(e),
            Ok(index) => match spec_text_field(fields, 1) {
                Err(e) => Err(e),
                Ok(content) => match spec_i64_field(fields, 2) {
                    Err(e) => Err(e),
                    Ok(timestamp) => match spec_text_field(fields, 3) {
                        Err(e) => Err(e),
                        Ok(prev) => match spec_u64_field(fields, 4) {
                            Err(e) => Err(e),
                            Ok(nonce) => match spec_text_field(fields, 5) {
                                Err(e) => Err(e),
                                Ok(hash) => Ok(
                                    PossibleBlockView {
                                        index,
                                        content,
                                        timestamp,
                                        prev,
                                        nonce,
                                        hash,
                                    },
                                ),
                            },
                        },
                    },
                },
            },
        }
    }

    fn new() -> (out: Self) {
        PossibleBlockPayload {
            index: 0,
            content: String::new(),
            timestamp: 0,
            prev: String::new(),
            nonce: 0,
            hash: String::new(),
        }
    }

    fn parse(bytes: Vec<Vec<u8>>) -> (out: Result<Self, PayloadError>) {
        let index = match u64_field(&bytes, 0) {
            Ok(v) => v,
            Err(e) => { return Err(e); },
        };
        let content = match text_field(&bytes, 1) {
            Ok(v) => v,
            Err(e) => { return Err(e); },
        };
        let timestamp = match i64_field(&bytes, 2) {
            Ok(v) => v,
            Err(e) => { return Err(e); },
        };
        let prev = match text_field(&bytes, 3) {
            Ok(v) => v,
            Err(e) => { return Err(e); },
        };
        let nonce = match u64_field(&bytes, 4) {
            Ok(v) => v,
            Err(e) => { return Err(e); },
        };
        let hash = match text_field(&bytes, 5) {
            Ok(v) => v,
            Err(e) => { return Err(e); },
        };
        Ok(PossibleBlockPayload { index, content, timestamp, prev, nonce, hash })
    }

    fn to_bytes(self) -> (out: Vec<u8>) {
        let out = PayloadBuilder::new().add_u64(self.index).add_string(self.content).add_i64(
            self.timestamp,
        ).add_string(self.prev).add_u64(self.nonce).add_string(self.hash).build();
        assert(out@ =~= Self::spec_to_bytes(self@));
        out
    }
}

impl PossibleBlockPayload {
    /// Writes the block as a payload region.
    pub fn as_bytes(self) -> (out: Vec<u8>)
        ensures
            out@ == Self::spec_to_bytes(self@),
    {
        self.to_bytes()
    }
}

/// The payload region of a block is the run of its six fields.
pub proof fn lemma_possible_block_bytes(value: PossibleBlockView)
    ensures
        PossibleBlockPayload::spec_to_bytes(value) == spec_fields(possible_block_fields(value)),
{
    let f = possible_block_fields(value);
    let none = Seq::<Seq<u8>>::empty();
    lemma_fields_push(none, f[0]);
    lemma_fields_push(none.push(f[0]), f[1]);
    lemma_fields_push(none.push(f[0]).push(f[1]), f[2]);
    lemma_fields_push(none.push(f[0]).push(f[1]).push(f[2]), f[3]);
    lemma_fields_push(none.push(f[0]).push(f[1]).push(f[2]).push(f[3]), f[4]);
    lemma_fields_push(none.push(f[0]).push(f[1]).push(f[2]).push(f[3]).push(f[4]), f[5]);
    assert(none.push(f[0]).push(f[1]).push(f[2]).push(f[3]).push(f[4]).push(f[5]) =~= f);
    assert(spec_fields(none) =~= Seq::<u8>::empty());
    assert(PossibleBlockPayload::spec_to_bytes(value) =~= spec_fields(f));
}

/// A block whose content, previous hash and hash hold no `~` is read back as
/// it was written.
pub proof fn lemma_possible_block_round_trip(value: PossibleBlockView)
    requires
        !value.content.contains('~'),
        !value.prev.contains('~'),
        !value.hash.contains('~'),
    ensures
        round_trips::<PossibleBlockPayload>(value),
{
    let f = possible_block_fields(value);
    lemma_possible_block_bytes(value);
    lemma_text_round_trip(value.index as int, false);
    lemma_text_round_trip(value.timestamp as int, true);
    lemma_text_round_trip(value.nonce as int, false);
    lemma_ascii_byte_of_encoding(value.content, 126u8);
    lemma_ascii_byte_of_encoding(value.prev, 126u8);
    lemma_ascii_byte_of_encoding(value.hash, 126u8);
    lemma_parse_fields(f, Seq::empty());
    assert(spec_fields(f) + Seq::<u8>::empty() =~= spec_fields(f));
    assert(spec_parse_payload(Seq::<u8>::empty()) =~= Seq::<Seq<u8>>::empty());
    assert(f + Seq::<Seq<u8>>::empty() =~= f);
    vstd::utf8::encode_utf8_valid_utf8(value.content);
    vstd::utf8::encode_utf8_decode_utf8(value.content);
    vstd::utf8::encode_utf8_valid_utf8(value.prev);
    vstd::utf8::encode_utf8_decode_utf8(value.prev);
    vstd::utf8::encode_utf8_valid_utf8(value.hash);
    vstd::utf8::encode_utf8_decode_utf8(value.hash);
}

} // verus!
