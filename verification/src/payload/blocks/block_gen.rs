//! The payload that tells the peers to start mining a block.

use crate::decimal::{decimal_text, lemma_text_round_trip};
use crate::payload::builder::{lemma_overflow_round_trip, spec_overflow, PayloadBuilder};
use crate::payload::parser::{
    i64_field, lemma_fields_written, overflow_field, spec_field, spec_fields, spec_i64_field,
    spec_overflow_field, spec_parse_payload, spec_text_field, spec_u64_field, text_field,
    u64_field,
};
use crate::payload::{round_trips, Payload, PayloadError};
use crate::text::lemma_ascii_byte_of_encoding;
use vstd::prelude::*;
use vstd::utf8::encode_utf8;

verus! {

/// What a block is made of, and the start that its hash must have.
#[derive(Clone, Debug, PartialEq)]
pub struct BlockGen {
    /// Index of the block.
    pub index: u64,
    /// Time at which the block was proposed.
    pub timestamp: i64,
    /// The characters with which the hash must begin.
    pub sign_key: String,
    /// Hash of the block before it.
    pub prev: String,
    /// Content of the block; the overflow field.
    pub content: String,
}

/// What a `BlockGen` holds.
pub struct BlockGenView {
    pub index: u64,
    pub timestamp: i64,
    pub sign_key: Seq<char>,
    pub prev: Seq<char>,
    pub content: Seq<char>,
}

impl View for BlockGen {
    type V = BlockGenView;

    open spec fn view(&self) -> BlockGenView {
        BlockGenView {
            index: self.index,
            timestamp: self.timestamp,
            sign_key: self.sign_key@,
            prev: self.prev@,
            content: self.content@,
        }
    }
}

impl Payload for BlockGen {
    open spec fn spec_new() -> BlockGenView {
        BlockGenView {
            index: 0,
            timestamp: 0,
            sign_key: Seq::empty(),
            prev: Seq::empty(),
            content: Seq::empty(),
        }
    }

    open spec fn spec_to_bytes(value: BlockGenView) -> Seq<u8> {
        spec_field(decimal_text(value.index as int))
            + spec_field(decimal_text(value.timestamp as int))
            + spec_field(encode_utf8(value.sign_key))
            + spec_field(encode_utf8(value.prev))
            + spec_overflow(encode_utf8(value.content))
    }

    open spec fn spec_parse(fields: Seq<Seq<u8>>) -> Result<BlockGenView, PayloadError> {
        if fields.len() == 0 {
            Ok(Self::spec_new())
        } else {
            match spec_u64_field(fields, 0) {
                Err(e) => Err(e),
                Ok(index) => match spec_i64_field(fields, 1) {
                    Err(e) => Err(e),
                    Ok(timestamp) => match spec_text_field(fields, 2) {
                        Err(e) => Err(e),
                        Ok(sign_key) => match spec_text_field(fields, 3) {
                            Err(e) => Err(e),
                            Ok(prev) => match spec_overflow_field(fields, 4) {
                                Err(e) => Err(e),
                                Ok(content) => Ok(
                                    BlockGenView { index, timestamp, sign_key, prev, content },
                                ),
                            },
                        },
                    },
                },
            }
        }
    }

    fn new() -> (out: Self) {
        BlockGen {
            index: 0,
            timestamp: 0,
            sign_key: String::new(),
            prev: String::new(),
            content: String::new(),
        }
    }

    fn parse(bytes: Vec<Vec<u8>>) -> (out: Result<Self, PayloadError>) {
        if bytes.len() == 0 {
            return Ok(Self::new());
        }
        let index = match u64_field(&bytes, 0) {
            Ok(v) => v,
            Err(e) => { return Err(e); },
        };
        let timestamp = match i64_field(&bytes, 1) {
            Ok(v) => v,
            Err(e) => { return Err(e); },
        };
        let sign_key = match text_field(&bytes, 2) {
            Ok(v) => v,
            Err(e) => { return Err(e); },
        };
        let prev = match text_field(&bytes, 3) {
            Ok(v) => v,
            Err(e) => { return Err(e); },
        };
        let content = match overflow_field(&bytes, 4) {
            Ok(v) => v,
            Err(e) => { return Err(e); },
        };
        Ok(BlockGen { index, timestamp, sign_key, prev, content })
    }

    fn to_bytes(self) -> (out: Vec<u8>) {
        let builder = PayloadBuilder::new();
        let builder = builder.add_u64(self.index);
        let builder = builder.add_i64(self.timestamp);
        let builder = builder.add_string(self.sign_key);
        let builder = builder.add_string(self.prev);
        let builder = builder.add_string_overflow(self.content);
        let out = builder.build();
        assert(out@ =~= Self::spec_to_bytes(self@));
        out
    }
}

/// A `BlockGen` whose sign key and previous hash hold no `~` is read back as
/// it was written, whatever its content holds.
pub proof fn lemma_block_gen_round_trip(value: BlockGenView)
    requires
        !value.sign_key.contains('~'),
        !value.prev.contains('~'),
    ensures
        round_trips::<BlockGen>(value),
{
    let f0 = decimal_text(value.index as int);
    let f1 = decimal_text(value.timestamp as int);
    let f2 = encode_utf8(value.sign_key);
    let f3 = encode_utf8(value.prev);
    let rest = encode_utf8(value.content);
    let plain = seq![f0, f1, f2, f3];
    lemma_fields_written(f0, f1, f2, f3, Seq::empty(), Seq::empty());
    lemma_text_round_trip(value.index as int, false);
    lemma_text_round_trip(value.timestamp as int, true);
    lemma_ascii_byte_of_encoding(value.sign_key, 126u8);
    lemma_ascii_byte_of_encoding(value.prev, 126u8);
    let bytes = BlockGen::spec_to_bytes(value);
    assert(bytes =~= spec_fields(plain) + spec_overflow(rest));
    lemma_overflow_round_trip(plain, rest);
    let fields = spec_parse_payload(bytes);
    let start = fields.take(4);
    assert(fields[0] == start[0]);
    assert(fields[1] == start[1]);
    assert(fields[2] == start[2]);
    assert(fields[3] == start[3]);
    vstd::utf8::encode_utf8_valid_utf8(value.sign_key);
    vstd::utf8::encode_utf8_decode_utf8(value.sign_key);
    vstd::utf8::encode_utf8_valid_utf8(value.prev);
    vstd::utf8::encode_utf8_decode_utf8(value.prev);
    vstd::utf8::encode_utf8_valid_utf8(value.content);
    vstd::utf8::encode_utf8_decode_utf8(value.content);
}

} // verus!
