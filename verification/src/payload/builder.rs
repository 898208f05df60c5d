//! Writing the payload region, field by field.

use crate::decimal::{decimal_text, i64_to_decimal, u64_to_decimal};
use crate::payload::parser::{
    join_tilde, lemma_parse_fields, lemma_split_join, spec_field, spec_fields,
    spec_parse_payload, DELIMITER,
};
use crate::text::{append_bytes, first_byte, lemma_first_byte, split_bytes};
use vstd::prelude::*;
use vstd::utf8::encode_utf8;

verus! {

/// The bytes with every delimiter among them written twice.
pub open spec fn double_tildes(bytes: Seq<u8>) -> Seq<u8>
    decreases bytes.len(),
{
    if bytes.len() == 0 {
        Seq::empty()
    } else if bytes[0] == DELIMITER {
        seq![DELIMITER, DELIMITER] + double_tildes(bytes.drop_first())
    } else {
        seq![bytes[0]] + double_tildes(bytes.drop_first())
    }
}

/// An overflow field on the wire: written like a field, with every delimiter
/// inside it doubled, so that each stretch between two of its delimiters
/// reads as a field of its own.
pub open spec fn spec_overflow(inner: Seq<u8>) -> Seq<u8> {
    seq![DELIMITER] + double_tildes(inner) + seq![DELIMITER]
}

/// An overflow field is the run of fields that its pieces make.
pub proof fn lemma_overflow_is_fields(inner: Seq<u8>)
    ensures
        spec_overflow(inner) == spec_fields(split_bytes(inner, DELIMITER)),
    decreases inner.len(),
{
    lemma_first_byte(inner, DELIMITER);
    let cut = first_byte(inner, DELIMITER);
    let pieces = split_bytes(inner, DELIMITER);
    if inner.len() == 0 {
        assert(pieces.drop_first() =~= Seq::<Seq<u8>>::empty());
        assert(spec_fields(pieces.drop_first()) =~= Seq::<u8>::empty());
        assert(spec_fields(pieces) =~= spec_field(inner));
        assert(spec_overflow(inner) =~= spec_field(inner));
    } else if inner[0] == DELIMITER {
        let rest = inner.drop_first();
        lemma_overflow_is_fields(rest);
        assert(inner.skip(cut as int + 1) =~= rest);
        assert(pieces.drop_first() =~= split_bytes(rest, DELIMITER));
        assert(pieces[0] =~= Seq::<u8>::empty());
        assert(spec_overflow(inner) =~= spec_field(pieces[0]) + spec_overflow(rest));
    } else {
        let rest = inner.drop_first();
        lemma_overflow_is_fields(rest);
        lemma_first_byte(rest, DELIMITER);
        let rest_pieces = split_bytes(rest, DELIMITER);
        let body = double_tildes(rest) + seq![DELIMITER];
        assert(spec_overflow(rest) =~= seq![DELIMITER] + body);
        assert(spec_overflow(inner) =~= seq![DELIMITER] + seq![inner[0]] + body);
        if cut < inner.len() {
            let tail = inner.skip(cut as int + 1);
            assert(rest.skip(cut as int - 1 + 1) =~= tail);
            assert(pieces.drop_first() =~= split_bytes(tail, DELIMITER));
            assert(rest_pieces.drop_first() =~= split_bytes(tail, DELIMITER));
            let after = spec_fields(split_bytes(tail, DELIMITER));
            assert(spec_fields(rest_pieces) == spec_field(rest_pieces[0]) + after);
            assert(body =~= (seq![DELIMITER] + body).skip(1));
            assert(body =~= rest_pieces[0] + seq![DELIMITER] + after);
            assert(pieces[0] =~= seq![inner[0]] + rest_pieces[0]);
            assert(spec_overflow(inner) =~= spec_field(pieces[0]) + after);
        } else {
            assert(pieces.drop_first() =~= Seq::<Seq<u8>>::empty());
            assert(rest_pieces.drop_first() =~= Seq::<Seq<u8>>::empty());
            assert(spec_fields(pieces.drop_first()) =~= Seq::<u8>::empty());
            assert(spec_fields(rest_pieces.drop_first()) =~= Seq::<u8>::empty());
            assert(spec_fields(rest_pieces) =~= spec_field(rest));
            assert(body =~= (seq![DELIMITER] + body).skip(1));
            assert(body =~= rest + seq![DELIMITER]);
            assert(inner =~= seq![inner[0]] + rest);
            assert(spec_fields(pieces) =~= spec_field(inner));
            assert(spec_overflow(inner) =~= spec_field(inner));
        }
    }
}

/// An overflow field comes back whole: read as fields and joined again, it is
/// what was written, delimiters included, whatever fields stand before it.
pub proof fn lemma_overflow_round_trip(before: Seq<Seq<u8>>, inner: Seq<u8>)
    requires
        forall|i: int| 0 <= i < before.len() ==> !(#[trigger] before[i]).contains(DELIMITER),
    ensures
        spec_parse_payload(spec_fields(before) + spec_overflow(inner)).len() > before.len(),
        spec_parse_payload(spec_fields(before) + spec_overflow(inner)).take(before.len() as int)
            == before,
        join_tilde(
            spec_parse_payload(spec_fields(before) + spec_overflow(inner)).skip(
                before.len() as int,
            ),
        ) == inner,
{
    lemma_overflow_is_fields(inner);
    lemma_split_join(inner);
    let pieces = split_bytes(inner, DELIMITER);
    lemma_parse_fields(pieces, Seq::empty());
    assert(spec_fields(pieces) + Seq::<u8>::empty() =~= spec_fields(pieces));
    assert(spec_parse_payload(Seq::<u8>::empty()) =~= Seq::<Seq<u8>>::empty());
    assert(pieces + Seq::<Seq<u8>>::empty() =~= pieces);
    lemma_parse_fields(before, spec_overflow(inner));
    let all = spec_parse_payload(spec_fields(before) + spec_overflow(inner));
    assert(all == before + pieces);
    assert(all.take(before.len() as int) =~= before);
    assert(all.skip(before.len() as int) =~= pieces);
}

/// Collects the fields of a payload in the order in which they are added.
#[derive(Debug)]
pub struct PayloadBuilder {
    /// What has been written so far.
    content: Vec<u8>,
}

impl View for PayloadBuilder {
    type V = Seq<u8>;

    closed spec fn view(&self) -> Seq<u8> {
        self.content@
    }
}

impl PayloadBuilder {
    /// A builder that holds no field.
    pub fn new() -> (out: Self)
        ensures
            out@ == Seq::<u8>::empty(),
    {
        PayloadBuilder { content: Vec::new() }
    }

    /// Adds the bytes of one field as they are.
    fn add_field(self, inner: &[u8]) -> (out: Self)
        ensures
            out@ == self@ + spec_field(inner@),
    {
        let mut content = self.content;
        content.push(DELIMITER);
        append_bytes(&mut content, inner);
        content.push(DELIMITER);
        assert(content@ =~= self@ + spec_field(inner@));
        PayloadBuilder { content }
    }

    /// Adds a text field. The text should hold no `~`: a field ends at the
    /// first one.
    pub fn add_string(self, line: String) -> (out: Self)
        ensures
            out@ == self@ + spec_field(encode_utf8(line@)),
    {
        self.add_field(line.as_str().as_bytes())
    }

    /// Adds the overflow field, which must be the last: a text that may hold
    /// `~`. Each `~` in it is written twice.
    pub fn add_string_overflow(self, line: String) -> (out: Self)
        ensures
            out@ == self@ + spec_overflow(encode_utf8(line@)),
    {
        let mut content = self.content;
        let inner = line.as_str().as_bytes();
        content.push(DELIMITER);
        let mut i: usize = 0;
        assert(inner@.skip(0) =~= inner@);
        while i < inner.len()
            invariant
                i <= inner.len(),
                content@ + double_tildes(inner@.skip(i as int)) == self@ + seq![DELIMITER]
                    + double_tildes(inner@),
            decreases inner.len() - i,
        {
            let ghost before = content@;
            let ghost here = inner@.skip(i as int);
            assert(here.drop_first() =~= inner@.skip(i + 1));
            assert(here[0] == inner@[i as int]);
            if inner[i] == DELIMITER {
                content.push(DELIMITER);
                content.push(DELIMITER);
                assert(content@ + double_tildes(inner@.skip(i + 1)) =~= before + double_tildes(
                    here,
                ));
            } else {
                content.push(inner[i]);
                assert(content@ + double_tildes(inner@.skip(i + 1)) =~= before + double_tildes(
                    here,
                ));
            }
            i += 1;
        }
        assert(double_tildes(inner@.skip(i as int)) =~= Seq::<u8>::empty());
        assert(content@ + Seq::<u8>::empty() =~= content@);
        content.push(DELIMITER);
        assert(content@ =~= self@ + spec_overflow(inner@));
        PayloadBuilder { content }
    }

    /// Adds an unsigned 64-bit number, in decimal.
    pub fn add_u64(self, value: u64) -> (out: Self)
        ensures
            out@ == self@ + spec_field(decimal_text(value as int)),
    {
        let digits = u64_to_decimal(value);
        self.add_field(digits.as_slice())
    }

    /// Adds a signed 64-bit number, in decimal.
    pub fn add_i64(self, value: i64) -> (out: Self)
        ensures
            out@ == self@ + spec_field(decimal_text(value as int)),
    {
        let digits = i64_to_decimal(value);
        self.add_field(digits.as_slice())
    }

    /// Adds an unsigned 16-bit number, in decimal.
    pub fn add_u16(self, value: u16) -> (out: Self)
        ensures
            out@ == self@ + spec_field(decimal_text(value as int)),
    {
        let digits = u64_to_decimal(value as u64);
        self.add_field(digits.as_slice())
    }

    /// The payload region that the fields added so far make.
    pub fn build(self) -> (out: Vec<u8>)
        ensures
            out@ == self@,
    {
        self.content
    }
}

} // verus!
