//! The payload with which a peer advertises the blocks it holds.

use crate::payload::builder::{lemma_overflow_round_trip, spec_overflow, PayloadBuilder};
use crate::payload::list::{
    join_list, join_strings, lemma_list_round_trip, separator_free, split_list, split_string,
    text_views,
};
use crate::payload::parser::{overflow_field, spec_fields, spec_overflow_field, spec_parse_payload};
use crate::payload::{round_trips, Payload, PayloadError};
use vstd::prelude::*;
use vstd::utf8::encode_utf8;

verus! {

/// The file names of all blocks of the sender.
#[derive(Clone, Debug, PartialEq)]
pub struct GetBlocksAck {
    /// File names of the blocks, written as one overflow field with `, `
    /// between neighbours. No names are written as no field at all, which
    /// tells them from one empty name.
    pub blocks: Vec<String>,
}

/// What a `GetBlocksAck` holds.
pub struct GetBlocksAckView {
    pub blocks: Seq<Seq<char>>,
}

impl View for GetBlocksAck {
    type V = GetBlocksAckView;

    open spec fn view(&self) -> GetBlocksAckView {
        GetBlocksAckView { blocks: text_views(self.blocks@) }
    }
}

impl Payload for GetBlocksAck {
    open spec fn spec_new() -> GetBlocksAckView {
        GetBlocksAckView { blocks: Seq::empty() }
    }

    open spec fn spec_to_bytes(value: GetBlocksAckView) -> Seq<u8> {
        if value.blocks.len() == 0 {
            Seq::empty()
        } else {
            spec_overflow(encode_utf8(join_list(value.blocks)))
        }
    }

    open spec fn spec_parse(fields: Seq<Seq<u8>>) -> Result<GetBlocksAckView, PayloadError> {
        if fields.len() == 0 {
            Ok(Self::spec_new())
        } else {
            match spec_overflow_field(fields, 0) {
                Ok(text) => Ok(GetBlocksAckView { blocks: split_list(text) }),
                Err(e) => Err(e),
            }
        }
    }

    fn new() -> (out: Self) {
        let out = GetBlocksAck { blocks: Vec::new() };
        assert(out@.blocks =~= Seq::<Seq<char>>::empty());
        out
    }

    fn parse(bytes: Vec<Vec<u8>>) -> (out: Result<Self, PayloadError>) {
        if bytes.len() == 0 {
            return Ok(Self::new());
        }
        match overflow_field(&bytes, 0) {
            Ok(text) => Ok(GetBlocksAck { blocks: split_string(text.as_str()) }),
            Err(e) => Err(e),
        }
    }

    fn to_bytes(self) -> (out: Vec<u8>) {
        if self.blocks.len() == 0 {
            return PayloadBuilder::new().build();
        }
        let out = PayloadBuilder::new().add_string_overflow(join_strings(&self.blocks)).build();
        assert(out@ =~= Self::spec_to_bytes(self@));
        out
    }
}

/// A `GetBlocksAck` in which no file name holds `, ` is read back as it
/// was written, the one without names too.
pub proof fn lemma_get_blocks_ack_round_trip(value: GetBlocksAckView)
    requires
        forall|i: int| 0 <= i < value.blocks.len() ==> separator_free(#[trigger] value.blocks[i]),
    ensures
        round_trips::<GetBlocksAck>(value),
{
    if value.blocks.len() == 0 {
        assert(value.blocks =~= Seq::<Seq<char>>::empty());
        assert(spec_parse_payload(Seq::<u8>::empty()) =~= Seq::<Seq<u8>>::empty());
    } else {
        let text = join_list(value.blocks);
        lemma_list_round_trip(value.blocks);
        lemma_overflow_round_trip(Seq::empty(), encode_utf8(text));
        assert(spec_fields(Seq::empty()) + GetBlocksAck::spec_to_bytes(value)
            =~= GetBlocksAck::spec_to_bytes(value));
        let fields = spec_parse_payload(GetBlocksAck::spec_to_bytes(value));
        assert(fields.skip(0) =~= fields);
        vstd::utf8::encode_utf8_valid_utf8(text);
        vstd::utf8::encode_utf8_decode_utf8(text);
    }
}

} // verus!
