//! The payload with which a peer contributes content to the next block.

use crate::payload::builder::{lemma_overflow_round_trip, spec_overflow, PayloadBuilder};
use crate::payload::parser::{
    lemma_fields_push, overflow_field, spec_field, spec_fields, spec_overflow_field,
    spec_parse_payload, spec_text_field, text_field,
};
use crate::payload::{round_trips, Payload, PayloadError};
use crate::text::lemma_ascii_byte_of_encoding;
use vstd::prelude::*;
use vstd::utf8::encode_utf8;

verus! {

/// A key and the content that goes under it.
#[derive(Clone, Debug, PartialEq)]
pub struct BlockData {
    /// A key by which peers tell whether they already hold the content.
    pub unique_key: String,
    /// Content for the next block; the overflow field.
    pub content: String,
}

/// What a `BlockData` holds.
pub struct BlockDataView {
    pub unique_key: Seq<char>,
    pub content: Seq<char>,
}

impl View for BlockData {
    type V = BlockDataView;

    open spec fn view(&self) -> BlockDataView {
        BlockDataView { unique_key: self.unique_key@, content: self.content@ }
    }
}

impl Payload for BlockData {
    open spec fn spec_new() -> BlockDataView {
        BlockDataView { unique_key: Seq::empty(), content: Seq::empty() }
    }

    open spec fn spec_to_bytes(value: BlockDataView) -> Seq<u8> {
        spec_field(encode_utf8(value.unique_key)) + spec_overflow(encode_utf8(value.content))
    }

    open spec fn spec_parse(fields: Seq<Seq<u8>>) -> Result<BlockDataView, PayloadError> {
        if fields.len() == 0 {
            Ok(Self::spec_new())
        } else {
            match (spec_text_field(fields, 0), spec_overflow_field(fields, 1)) {
                (Ok(unique_key), Ok(content)) => Ok(BlockDataView { unique_key, content }),
                (Err(e), _) => Err(e),
                (_, Err(e)) => Err(e),
            }
        }
    }

    fn new() -> (out: Self) {
        BlockData { unique_key: String::new(), content: String::new() }
    }

    fn parse(bytes: Vec<Vec<u8>>) -> (out: Result<Self, PayloadError>) {
        if bytes.len() == 0 {
            return Ok(Self::new());
        }
        let unique_key = match text_field(&bytes, 0) {
            Ok(text) => text,
            Err(e) => { return Err(e); },
        };
        let content = match overflow_field(&bytes, 1) {
            Ok(text) => text,
            Err(e) => { return Err(e); },
        };
        Ok(BlockData { unique_key, content })
    }

    fn to_bytes(self) -> (out: Vec<u8>) {
        let out = PayloadBuilder::new().add_string(self.unique_key).add_string_overflow(
            self.content,
        ).build();
        assert(out@ =~= Self::spec_to_bytes(self@));
        out
    }
}

/// A `BlockData` whose key holds no `~` is read back as it was written,
/// whatever its content holds.
pub proof fn lemma_block_data_round_trip(value: BlockDataView)
    requires
        !value.unique_key.contains('~'),
    ensures
        round_trips::<BlockData>(value),
{
    let key = encode_utf8(value.unique_key);
    let content = encode_utf8(value.content);
    lemma_ascii_byte_of_encoding(value.unique_key, 126u8);
    let plain = seq![key];
    lemma_fields_push(Seq::empty(), key);
    assert(Seq::<Seq<u8>>::empty().push(key) =~= plain);
    assert(spec_fields(plain) =~= spec_field(key));
    lemma_overflow_round_trip(plain, content);
    let fields = spec_parse_payload(BlockData::spec_to_bytes(value));
    assert(fields.take(1)[0] == key);
    vstd::utf8::encode_utf8_valid_utf8(value.unique_key);
    vstd::utf8::encode_utf8_decode_utf8(value.unique_key);
    vstd::utf8::encode_utf8_valid_utf8(value.content);
    vstd::utf8::encode_utf8_decode_utf8(value.content);
}

} // verus!
