//! The payload that answers a request for one block with that block.

use crate::decimal::{decimal_text, lemma_text_round_trip};
use crate::payload::builder::{lemma_overflow_round_trip, spec_overflow, PayloadBuilder};
use crate::payload::parser::{
    i64_field, lemma_fields_written, overflow_field, spec_field, spec_fields, spec_i64_field,
    spec_overflow_field, spec_parse_payload, spec_text_field, spec_u64_field, text_field,
    u64_field,
};
use crate::payload::{round_trips, Payload, PayloadError};
use crate::text::lemma_ascii_byte_of_encoding;
use vstd::prelude::*;
use vstd::utf8::encode_utf8;

verus! {

/// A block, with the name under which it is kept.
#[derive(Clone, Debug, PartialEq)]
pub struct GetBlockAck {
    /// File name of the block.
    pub filename: String,
    /// Index of the block.
    pub index: u64,
    /// Time at which the block was proposed.
    pub timestamp: i64,
    /// Nonce of the block.
    pub nonce: u64,
    /// Hash of the block before it.
    pub prev: String,
    /// Hash of the block.
    pub hash: String,
    /// Content of the block; the overflow field.
    pub content: String,
}

/// What a `GetBlockAck` holds.
pub struct GetBlockAckView {
    pub filename: Seq<char>,
    pub index: u64,
    pub timestamp: i64,
    pub nonce: u64,
    pub prev: Seq<char>,
    pub hash: Seq<char>,
    pub content: Seq<char>,
}

impl View for GetBlockAck {
    type V = GetBlockAckView;

    open spec fn view(&self) -> GetBlockAckView {
        GetBlockAckView {
            filename: self.filename@,
            index: self.index,
            timestamp: self.timestamp,
            nonce: self.nonce,
            prev: self.prev@,
            hash: self.hash@,
            content: self.content@,
        }
    }
}

impl Payload for GetBlockAck {
    open spec fn spec_new() -> GetBlockAckView {
        GetBlockAckView {
            filename: Seq::empty(),
            index: 0,
            timestamp: 0,
            nonce: 0,
            prev: Seq::empty(),
            hash: Seq::empty(),
            content: Seq::empty(),
        }
    }

    open spec fn spec_to_bytes(value: GetBlockAckView) -> Seq<u8> {
        spec_field(encode_utf8(value.filename))
            + spec_field(decimal_text(value.index as int))
            + spec_field(decimal_text(value.timestamp as int))
            + spec_field(decimal_text(value.nonce as int))
            + spec_field(encode_utf8(value.prev))
            + spec_field(encode_utf8(value.hash))
            + spec_overflow(encode_utf8(value.content))
    }

    open spec fn spec_parse(fields: Seq<Seq<u8>>) -> Result<GetBlockAckView, PayloadError> {
        if fields.len() == 0 {
            Ok(Self::spec_new())
        } else {
            match spec_text_field(fields, 0) {
                Err(e) => Err(e),
                Ok(filename) => match spec_u64_field(fields, 1) {
                    Err(e) => Err(e),
                    Ok(index) => match spec_i64_field(fields, 2) {
                        Err(e) => Err(e),
                        Ok(timestamp) => match spec_u64_field(fields, 3) {
                            Err(e) => Err(e),
                            Ok(nonce) => match spec_text_field(fields, 4) {
                                Err(e) => Err(e),
                                Ok(prev) => match spec_text_field(fields, 5) {
                                    Err(e) => Err(e),
                                    Ok(hash) => match spec_overflow_field(fields, 6) {
                                        Err(e) => Err(e),
                                        Ok(content) => Ok(
                                            GetBlockAckView {
                                                filename,
                                                index,
                                                timestamp,
                                                nonce,
                                                prev,
                                                hash,
                                                content,
                                            },
                                        ),
                                    },
                                },
                            },
                        },
                    },
                },
            }
        }
    }

    fn new() -> (out: Self) {
        GetBlockAck {
            filename: String::new(),
            index: 0,
            timestamp: 0,
            nonce: 0,
            prev: String::new(),
            hash: String::new(),
            content: String::new(),
        }
    }

    fn parse(bytes: Vec<Vec<u8>>) -> (out: Result<Self, PayloadError>) {
        if bytes.len() == 0 {
            return Ok(Self::new());
        }
        let filename = match text_field(&bytes, 0) {
            Ok(v) => v,
            Err(e) => { return Err(e); },
        };
        let index = match u64_field(&bytes, 1) {
            Ok(v) => v,
            Err(e) => { return Err(e); },
        };
        let timestamp = match i64_field(&bytes, 2) {
            Ok(v) => v,
            Err(e) => { return Err(e); },
        };
        let nonce = match u64_field(&bytes, 3) {
            Ok(v) => v,
            Err(e) => { return Err(e); },
        };
        let prev = match text_field(&bytes, 4) {
            Ok(v) => v,
            Err(e) => { return Err(e); },
        };
        let hash = match text_field(&bytes, 5) {
            Ok(v) => v,
            Err(e) => { return Err(e); },
        };
        let content = match overflow_field(&bytes, 6) {
            Ok(v) => v,
            Err(e) => { return Err(e); },
        };
        Ok(GetBlockAck { filename, index, timestamp, nonce, prev, hash, content })
    }

    fn to_bytes(self) -> (out: Vec<u8>) {
        let builder = PayloadBuilder::new();
        let builder = builder.add_string(self.filename);
        let builder = builder.add_u64(self.index);
        let builder = builder.add_i64(self.timestamp);
        let builder = builder.add_u64(self.nonce);
        let builder = builder.add_string(self.prev);
        let builder = builder.add_string(self.hash);
        let builder = builder.add_string_overflow(self.content);
        let out = builder.build();
        assert(out@ =~= Self::spec_to_bytes(self@));
        out
    }
}

/// A `GetBlockAck` whose file name, previous hash and hash hold no `~` is
/// read back as it was written, whatever its content holds.
pub proof fn lemma_get_block_ack_round_trip(value: GetBlockAckView)
    requires
        !value.filename.contains('~'),
        !value.prev.contains('~'),
        !value.hash.contains('~'),
    ensures
        round_trips::<GetBlockAck>(value),
{
    let f0 = encode_utf8(value.filename);
    let f1 = decimal_text(value.index as int);
    let f2 = decimal_text(value.timestamp as int);
    let f3 = decimal_text(value.nonce as int);
    let f4 = encode_utf8(value.prev);
    let f5 = encode_utf8(value.hash);
    let rest = encode_utf8(value.content);
    let plain = seq![f0, f1, f2, f3, f4, f5];
    lemma_fields_written(f0, f1, f2, f3, f4, f5);
    lemma_ascii_byte_of_encoding(value.filename, 126u8);
    lemma_text_round_trip(value.index as int, false);
    lemma_text_round_trip(value.timestamp as int, true);
    lemma_text_round_trip(value.nonce as int, false);
    lemma_ascii_byte_of_encoding(value.prev, 126u8);
    lemma_ascii_byte_of_encoding(value.hash, 126u8);
    let bytes = GetBlockAck::spec_to_bytes(value);
    assert(bytes =~= spec_fields(plain) + spec_overflow(rest));
    lemma_overflow_round_trip(plain, rest);
    let fields = spec_parse_payload(bytes);
    let start = fields.take(6);
    assert(fields[0] == start[0]);
    assert(fields[1] == start[1]);
    assert(fields[2] == start[2]);
    assert(fields[3] == start[3]);
    assert(fields[4] == start[4]);
    assert(fields[5] == start[5]);
    vstd::utf8::encode_utf8_valid_utf8(value.filename);
    vstd::utf8::encode_utf8_decode_utf8(value.filename);
    vstd::utf8::encode_utf8_valid_utf8(value.prev);
    vstd::utf8::encode_utf8_decode_utf8(value.prev);
    vstd::utf8::encode_utf8_valid_utf8(value.hash);
    vstd::utf8::encode_utf8_decode_utf8(value.hash);
    vstd::utf8::encode_utf8_valid_utf8(value.content);
    vstd::utf8::encode_utf8_decode_utf8(value.content);
}

} // verus!
