//! The payload that opens a round: content for the next block is asked for.

use crate::decimal::{decimal_text, lemma_text_round_trip};
use crate::payload::builder::{lemma_overflow_round_trip, spec_overflow, PayloadBuilder};
use crate::payload::parser::{
    lemma_fields_written, overflow_field, spec_field, spec_fields, spec_overflow_field,
    spec_parse_payload, spec_text_field, spec_u64_field, text_field, u64_field,
};
use crate::payload::{round_trips, Payload, PayloadError};
use crate::text::lemma_ascii_byte_of_encoding;
use vstd::prelude::*;
use vstd::utf8::encode_utf8;

verus! {

/// The block that the round is to make.
#[derive(Clone, Debug, PartialEq)]
pub struct NewBlock {
    /// Index of the block to make.
    pub index: u64,
    /// Hash of the head block.
    pub prev: String,
    /// Content gathered so far; the overflow field.
    pub content: String,
}

/// What a `NewBlock` holds.
pub struct NewBlockView {
    pub index: u64,
    pub prev: Seq<char>,
    pub content: Seq<char>,
}

impl View for NewBlock {
    type V = NewBlockView;

    open spec fn view(&self) -> NewBlockView {
        NewBlockView {
            index: self.index,
            prev: self.prev@,
            content: self.content@,
        }
    }
}

impl Payload for NewBlock {
    open spec fn spec_new() -> NewBlockView {
        NewBlockView {
            index: 0,
            prev: Seq::empty(),
            content: Seq::empty(),
        }
    }

    open spec fn spec_to_bytes(value: NewBlockView) -> Seq<u8> {
        spec_field(decimal_text(value.index as int))
            + spec_field(encode_utf8(value.prev))
            + spec_overflow(encode_utf8(value.content))
    }

    open spec fn spec_parse(fields: Seq<Seq<u8>>) -> Result<NewBlockView, PayloadError> {
        if fields.len() == 0 {
            Ok(Self::spec_new())
        } else {
            match spec_u64_field(fields, 0) {
                Err(e) => Err(e),
                Ok(index) => match spec_text_field(fields, 1) {
                    Err(e) => Err(e),
                    Ok(prev) => match spec_overflow_field(fields, 2) {
                        Err(e) => Err(e),
                        Ok(content) => Ok(NewBlockView { index, prev, content }),
                    },
                },
            }
        }
    }

    fn new() -> (out: Self) {
        NewBlock {
            index: 0,
            prev: String::new(),
            content: String::new(),
        }
    }

    fn parse(bytes: Vec<Vec<u8>>) -> (out: Result<Self, PayloadError>) {
        if bytes.len() == 0 {
            return Ok(Self::new());
        }
        let index = match u64_field(&bytes, 0) {
            Ok(v) => v,
            Err(e) => { return Err(e); },
        };
        let prev = match text_field(&bytes, 1) {
            Ok(v) => v,
            Err(e) => { return Err(e); },
        };
        let content = match overflow_field(&bytes, 2) {
            Ok(v) => v,
            Err(e) => { return Err(e); },
        };
        Ok(NewBlock { index, prev, content })
    }

    fn to_bytes(self) -> (out: Vec<u8>) {
        let builder = PayloadBuilder::new();
        let builder = builder.add_u64(self.index);
        let builder = builder.add_string(self.prev);
        let builder = builder.add_string_overflow(self.content);
        let out = builder.build();
        assert(out@ =~= Self::spec_to_bytes(self@));
        out
    }
}

/// A `NewBlock` whose previous hash holds no `~` is read back as it was
/// written, whatever its content holds.
pub proof fn lemma_new_block_round_trip(value: NewBlockView)
    requires
        !value.prev.contains('~'),
    ensures
        round_trips::<NewBlock>(value),
{
    let f0 = decimal_text(value.index as int);
    let f1 = encode_utf8(value.prev);
    let rest = encode_utf8(value.content);
    let plain = seq![f0, f1];
    lemma_fields_written(f0, f1, Seq::empty(), Seq::empty(), Seq::empty(), Seq::empty());
    lemma_text_round_trip(value.index as int, false);
    lemma_ascii_byte_of_encoding(value.prev, 126u8);
    let bytes = NewBlock::spec_to_bytes(value);
    assert(bytes =~= spec_fields(plain) + spec_overflow(rest));
    lemma_overflow_round_trip(plain, rest);
    let fields = spec_parse_payload(bytes);
    let start = fields.take(2);
    assert(fields[0] == start[0]);
    assert(fields[1] == start[1]);
    vstd::utf8::encode_utf8_valid_utf8(value.prev);
    vstd::utf8::encode_utf8_decode_utf8(value.prev);
    vstd::utf8::encode_utf8_valid_utf8(value.content);
    vstd::utf8::encode_utf8_decode_utf8(value.content);
}

} // verus!
