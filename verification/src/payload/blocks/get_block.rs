//! The payload that asks a peer for one block.

use crate::payload::builder::PayloadBuilder;
use crate::payload::parser::{
    lemma_fields_written, lemma_parse_fields, spec_field, spec_fields, spec_parse_payload,
    spec_text_field, text_field,
};
use crate::payload::{round_trips, Payload, PayloadError};
use crate::text::lemma_ascii_byte_of_encoding;
use vstd::prelude::*;
use vstd::utf8::encode_utf8;

verus! {

/// The file name of the wanted block.
#[derive(Clone, Debug, PartialEq)]
pub struct GetBlock {
    /// File name of the block, which is its hash.
    pub block: String,
}

/// What a `GetBlock` holds.
pub struct GetBlockView {
    pub block: Seq<char>,
}

impl View for GetBlock {
    type V = GetBlockView;

    open spec fn view(&self) -> GetBlockView {
        GetBlockView {
            block: self.block@,
        }
    }
}

impl Payload for GetBlock {
    open spec fn spec_new() -> GetBlockView {
        GetBlockView {
            block: Seq::empty(),
        }
    }

    open spec fn spec_to_bytes(value: GetBlockView) -> Seq<u8> {
        spec_field(encode_utf8(value.block))
    }

    open spec fn spec_parse(fields: Seq<Seq<u8>>) -> Result<GetBlockView, PayloadError> {
        if fields.len() == 0 {
            Ok(Self::spec_new())
        } else {
            match spec_text_field(fields, 0) {
                Err(e) => Err(e),
                Ok(block) => Ok(GetBlockView { block }),
            }
        }
    }

    fn new() -> (out: Self) {
        GetBlock {
            block: String::new(),
        }
    }

    fn parse(bytes: Vec<Vec<u8>>) -> (out: Result<Self, PayloadError>) {
        if bytes.len() == 0 {
            return Ok(Self::new());
        }
        let block = match text_field(&bytes, 0) {
            Ok(v) => v,
            Err(e) => { return Err(e); },
        };
        Ok(GetBlock { block })
    }

    fn to_bytes(self) -> (out: Vec<u8>) {
        let builder = PayloadBuilder::new();
        let builder = builder.add_string(self.block);
        let out = builder.build();
        assert(out@ =~= Self::spec_to_bytes(self@));
        out
    }
}

/// A `GetBlock` whose file name holds no `~` is read back as it was written.
pub proof fn lemma_get_block_round_trip(value: GetBlockView)
    requires
        !value.block.contains('~'),
    ensures
        round_trips::<GetBlock>(value),
{
    let f0 = encode_utf8(value.block);
    let plain = seq![f0];
    lemma_fields_written(f0, Seq::empty(), Seq::empty(), Seq::empty(), Seq::empty(), Seq::empty());
    lemma_ascii_byte_of_encoding(value.block, 126u8);
    let bytes = GetBlock::spec_to_bytes(value);
    assert(bytes =~= spec_fields(plain) + Seq::<u8>::empty());
    lemma_parse_fields(plain, Seq::empty());
    assert(spec_parse_payload(Seq::<u8>::empty()) =~= Seq::<Seq<u8>>::empty());
    assert(plain + Seq::<Seq<u8>>::empty() =~= plain);
    vstd::utf8::encode_utf8_valid_utf8(value.block);
    vstd::utf8::encode_utf8_decode_utf8(value.block);
}

} // verus!
