//! Reading the payload region: fields between tildes, and the converters that
//! turn a field into a number or a text.

use crate::decimal::{
    parse_i64, parse_u16, parse_u64, spec_parse_i64, spec_parse_u16, spec_parse_u64,
};
use crate::payload::{FieldError, PayloadError};
use crate::text::{
    append_bytes, byte_views, copy_range, first_byte, lemma_first_byte, lemma_split_first,
    split_bytes, u8_to_string,
};
use vstd::prelude::*;
use vstd::utf8::{decode_utf8, valid_utf8};

verus! {

/// The byte that opens and closes a field.
pub const DELIMITER: u8 = 126;

/// One field on the wire: its bytes between two delimiters.
pub open spec fn spec_field(inner: Seq<u8>) -> Seq<u8> {
    seq![DELIMITER] + inner + seq![DELIMITER]
}

/// The fields of a payload region. A field is a delimiter, the bytes up to the
/// next delimiter, and that delimiter. Reading stops where no field begins.
pub open spec fn spec_parse_payload(bytes: Seq<u8>) -> Seq<Seq<u8>>
    decreases bytes.len(),
{
    if bytes.len() > 0 && bytes[0] == DELIMITER {
        let inner = bytes.drop_first();
        let close = first_byte(inner, DELIMITER);
        if close < inner.len() {
            seq![inner.take(close as int)] + spec_parse_payload(inner.skip(close as int + 1))
        } else {
            Seq::empty()
        }
    } else {
        Seq::empty()
    }
}

/// The pieces put together again, with one delimiter between neighbours.
pub open spec fn join_tilde(pieces: Seq<Seq<u8>>) -> Seq<u8>
    decreases pieces.len(),
{
    if pieces.len() == 0 {
        Seq::empty()
    } else if pieces.len() == 1 {
        pieces[0]
    } else {
        pieces[0] + seq![DELIMITER] + join_tilde(pieces.drop_first())
    }
}

/// Each piece written as a field of its own, one after the other.
pub open spec fn spec_fields(pieces: Seq<Seq<u8>>) -> Seq<u8>
    decreases pieces.len(),
{
    if pieces.len() == 0 {
        Seq::empty()
    } else {
        spec_field(pieces[0]) + spec_fields(pieces.drop_first())
    }
}

/// No delimiter among the bytes.
pub open spec fn tilde_free(bytes: Seq<u8>) -> bool {
    !bytes.contains(DELIMITER)
}

/// A field without a delimiter inside is read back as it was written,
/// whatever follows it.
pub proof fn lemma_parse_field(inner: Seq<u8>, rest: Seq<u8>)
    requires
        tilde_free(inner),
    ensures
        spec_parse_payload(spec_field(inner) + rest) == seq![inner] + spec_parse_payload(rest),
{
    let all = spec_field(inner) + rest;
    let after = all.drop_first();
    assert(after =~= inner + seq![DELIMITER] + rest);
    lemma_split_first(inner, DELIMITER, rest);
    assert(after.take(inner.len() as int) =~= inner);
    assert(after.skip(inner.len() as int + 1) =~= rest);
}

/// Fields without delimiters inside are read back as they were written,
/// whatever follows them.
pub proof fn lemma_parse_fields(pieces: Seq<Seq<u8>>, rest: Seq<u8>)
    requires
        forall|i: int| 0 <= i < pieces.len() ==> tilde_free(#[trigger] pieces[i]),
    ensures
        spec_parse_payload(spec_fields(pieces) + rest) == pieces + spec_parse_payload(rest),
    decreases pieces.len(),
{
    if pieces.len() == 0 {
        assert(spec_fields(pieces) + rest =~= rest);
        assert(pieces + spec_parse_payload(rest) =~= spec_parse_payload(rest));
    } else {
        let tail = pieces.drop_first();
        assert forall|i: int| 0 <= i < tail.len() implies tilde_free(#[trigger] tail[i]) by {
            assert(tilde_free(pieces[i + 1]));
        }
        lemma_parse_fields(tail, rest);
        assert(tilde_free(pieces[0]));
        lemma_parse_field(pieces[0], spec_fields(tail) + rest);
        assert(spec_fields(pieces) + rest =~= spec_field(pieces[0]) + (spec_fields(tail) + rest));
        assert(seq![pieces[0]] + (tail + spec_parse_payload(rest)) =~= pieces
            + spec_parse_payload(rest));
    }
}

/// One more piece adds one more field at the end.
pub proof fn lemma_fields_push(pieces: Seq<Seq<u8>>, last: Seq<u8>)
    ensures
        spec_fields(pieces.push(last)) == spec_fields(pieces) + spec_field(last),
    decreases pieces.len(),
{
    let longer = pieces.push(last);
    if pieces.len() == 0 {
        assert(longer.drop_first() =~= Seq::<Seq<u8>>::empty());
        assert(spec_fields(longer) =~= spec_field(last) + spec_fields(Seq::empty()));
        assert(spec_fields(longer) =~= spec_fields(pieces) + spec_field(last));
    } else {
        lemma_fields_push(pieces.drop_first(), last);
        assert(longer.drop_first() =~= pieces.drop_first().push(last));
        assert(spec_fields(longer) =~= spec_fields(pieces) + spec_field(last));
    }
}

/// The run of one to six given fields, written out.
pub proof fn lemma_fields_written(
    a: Seq<u8>,
    b: Seq<u8>,
    c: Seq<u8>,
    d: Seq<u8>,
    e: Seq<u8>,
    f: Seq<u8>,
)
    ensures
        spec_fields(seq![a]) == spec_field(a),
        spec_fields(seq![a, b]) == spec_field(a) + spec_field(b),
        spec_fields(seq![a, b, c]) == spec_field(a) + spec_field(b) + spec_field(c),
        spec_fields(seq![a, b, c, d]) == spec_field(a) + spec_field(b) + spec_field(c)
            + spec_field(d),
        spec_fields(seq![a, b, c, d, e]) == spec_field(a) + spec_field(b) + spec_field(c)
            + spec_field(d) + spec_field(e),
        spec_fields(seq![a, b, c, d, e, f]) == spec_field(a) + spec_field(b) + spec_field(c)
            + spec_field(d) + spec_field(e) + spec_field(f),
{
    let none = Seq::<Seq<u8>>::empty();
    assert(spec_fields(none) =~= Seq::<u8>::empty());
    lemma_fields_push(none, a);
    assert(none.push(a) =~= seq![a]);
    assert(spec_fields(seq![a]) =~= spec_field(a));
    lemma_fields_push(seq![a], b);
    assert(seq![a].push(b) =~= seq![a, b]);
    lemma_fields_push(seq![a, b], c);
    assert(seq![a, b].push(c) =~= seq![a, b, c]);
    lemma_fields_push(seq![a, b, c], d);
    assert(seq![a, b, c].push(d) =~= seq![a, b, c, d]);
    lemma_fields_push(seq![a, b, c, d], e);
    assert(seq![a, b, c, d].push(e) =~= seq![a, b, c, d, e]);
    lemma_fields_push(seq![a, b, c, d, e], f);
    assert(seq![a, b, c, d, e].push(f) =~= seq![a, b, c, d, e, f]);
}

/// Splitting at the delimiters loses nothing: no piece holds a delimiter, and
/// joining the pieces gives the bytes back.
pub proof fn lemma_split_join(bytes: Seq<u8>)
    ensures
        split_bytes(bytes, DELIMITER).len() >= 1,
        forall|i: int|
            0 <= i < split_bytes(bytes, DELIMITER).len() ==> tilde_free(
                #[trigger] split_bytes(bytes, DELIMITER)[i],
            ),
        join_tilde(split_bytes(bytes, DELIMITER)) == bytes,
    decreases bytes.len(),
{
    lemma_first_byte(bytes, DELIMITER);
    let cut = first_byte(bytes, DELIMITER);
    if cut < bytes.len() {
        let head = bytes.take(cut as int);
        let rest = bytes.skip(cut as int + 1);
        lemma_split_join(rest);
        let pieces = split_bytes(bytes, DELIMITER);
        assert(pieces.drop_first() =~= split_bytes(rest, DELIMITER));
        assert(tilde_free(head)) by {
            assert forall|i: int| 0 <= i < head.len() implies head[i] != DELIMITER by {
                assert(head[i] == bytes[i]);
            }
        }
        assert forall|i: int| 0 <= i < pieces.len() implies tilde_free(#[trigger] pieces[i]) by {
            if i > 0 {
                assert(pieces[i] == split_bytes(rest, DELIMITER)[i - 1]);
            }
        }
        assert(head + seq![DELIMITER] + rest =~= bytes);
    } else {
        assert(split_bytes(bytes, DELIMITER)[0] == bytes);
    }
}

/// Splits `bytes` into its fields.
pub fn parse_payload(bytes: &[u8]) -> (fields: Vec<Vec<u8>>)
    ensures
        byte_views(fields@) == spec_parse_payload(bytes@),
{
    let mut fields: Vec<Vec<u8>> = Vec::new();
    let mut at: usize = 0;
    assert(bytes@.skip(0) =~= bytes@);
    assert(byte_views(fields@) =~= Seq::<Seq<u8>>::empty());
    loop
        invariant
            at <= bytes.len(),
            byte_views(fields@) + spec_parse_payload(bytes@.skip(at as int)) == spec_parse_payload(
                bytes@,
            ),
        ensures
            byte_views(fields@) == spec_parse_payload(bytes@),
        decreases bytes.len() - at,
    {
        let ghost here = bytes@.skip(at as int);
        if at >= bytes.len() || bytes[at] != DELIMITER {
            assert(spec_parse_payload(here) =~= Seq::<Seq<u8>>::empty());
            assert(byte_views(fields@) + Seq::<Seq<u8>>::empty() =~= byte_views(fields@));
            break ;
        }
        let ghost inner = here.drop_first();
        assert(inner =~= bytes@.skip(at + 1));
        let mut close: usize = at + 1;
        assert(inner.skip(0) =~= inner);
        while close < bytes.len() && bytes[close] != DELIMITER
            invariant
                at + 1 <= close <= bytes.len(),
                inner == bytes@.skip(at + 1),
                close - (at + 1) + first_byte(inner.skip(close - (at + 1)), DELIMITER)
                    == first_byte(inner, DELIMITER),
            decreases bytes.len() - close,
        {
            proof {
                let now = inner.skip(close - (at + 1));
                assert(now[0] == bytes@[close as int]);
                assert(now.drop_first() =~= inner.skip(close + 1 - (at + 1)));
            }
            close += 1;
        }
        proof {
            let now = inner.skip(close - (at + 1));
            if close < bytes.len() {
                assert(now[0] == bytes@[close as int]);
            } else {
                assert(now.len() == 0);
            }
            assert(first_byte(inner, DELIMITER) == close - (at + 1));
        }
        if close >= bytes.len() {
            assert(spec_parse_payload(here) =~= Seq::<Seq<u8>>::empty());
            assert(byte_views(fields@) + Seq::<Seq<u8>>::empty() =~= byte_views(fields@));
            break ;
        }
        let field = copy_range(bytes, at + 1, close);
        proof {
            assert(field@ =~= inner.take(close - (at + 1)));
            assert(inner.skip(close - (at + 1) + 1) =~= bytes@.skip(close + 1));
        }
        let ghost before = byte_views(fields@);
        fields.push(field);
        proof {
            assert(byte_views(fields@) =~= before.push(field@));
            assert(before.push(field@) + spec_parse_payload(bytes@.skip(close + 1)) =~= before
                + spec_parse_payload(here));
        }
        at = close + 1;
    }
    fields
}

/// Joins `fields[from..]` with a delimiter between neighbours: the overflow
/// field that was written as several fields.
pub fn string_overflow(fields: &Vec<Vec<u8>>, from: usize) -> (out: Vec<u8>)
    requires
        from <= fields.len(),
    ensures
        out@ == join_tilde(byte_views(fields@).skip(from as int)),
{
    let mut out: Vec<u8> = Vec::new();
    let ghost all = byte_views(fields@);
    if from == fields.len() {
        assert(all.skip(from as int).len() == 0);
        return out;
    }
    let mut i: usize = fields.len();
    while i > from
        invariant
            from <= i <= fields.len(),
            from < fields.len(),
            all == byte_views(fields@),
            out@ == join_tilde(all.skip(i as int)),
        decreases i,
    {
        i -= 1;
        let ghost rest = all.skip(i + 1);
        let ghost now = all.skip(i as int);
        let mut joined: Vec<u8> = Vec::new();
        append_bytes(&mut joined, fields[i].as_slice());
        proof {
            assert(now.drop_first() =~= rest);
            assert(now[0] == fields[i as int]@);
        }
        if i + 1 < fields.len() {
            joined.push(DELIMITER);
            append_bytes(&mut joined, out.as_slice());
            assert(joined@ =~= now[0] + seq![DELIMITER] + join_tilde(rest));
        } else {
            assert(now.len() == 1);
            assert(joined@ =~= now[0]);
        }
        out = joined;
    }
    out
}

/// What reading field `index` as text gives: the field must be there and be
/// well-formed UTF-8.
pub open spec fn spec_text_field(fields: Seq<Seq<u8>>, index: usize) -> Result<
    Seq<char>,
    PayloadError,
> {
    if index >= fields.len() {
        Err(PayloadError::MalformedField { index, reason: FieldError::Missing })
    } else if !valid_utf8(fields[index as int]) {
        Err(PayloadError::MalformedField { index, reason: FieldError::NotUtf8 })
    } else {
        Ok(decode_utf8(fields[index as int]))
    }
}

/// What reading the fields from `index` on as one overflow text gives: the
/// joined bytes must be well-formed UTF-8. No field at all gives the empty text.
pub open spec fn spec_overflow_field(fields: Seq<Seq<u8>>, index: usize) -> Result<
    Seq<char>,
    PayloadError,
> {
    if index >= fields.len() {
        Ok(Seq::empty())
    } else if !valid_utf8(join_tilde(fields.skip(index as int))) {
        Err(PayloadError::MalformedField { index, reason: FieldError::NotUtf8 })
    } else {
        Ok(decode_utf8(join_tilde(fields.skip(index as int))))
    }
}

/// What reading field `index` as an unsigned 64-bit number gives.
pub open spec fn spec_u64_field(fields: Seq<Seq<u8>>, index: usize) -> Result<u64, PayloadError> {
    if index >= fields.len() {
        Err(PayloadError::MalformedField { index, reason: FieldError::Missing })
    } else {
        match spec_parse_u64(fields[index as int]) {
            Some(v) => Ok(v),
            None => Err(PayloadError::MalformedField { index, reason: FieldError::NotANumber }),
        }
    }
}

/// What reading field `index` as a signed 64-bit number gives.
pub open spec fn spec_i64_field(fields: Seq<Seq<u8>>, index: usize) -> Result<i64, PayloadError> {
    if index >= fields.len() {
        Err(PayloadError::MalformedField { index, reason: FieldError::Missing })
    } else {
        match spec_parse_i64(fields[index as int]) {
            Some(v) => Ok(v),
            None => Err(PayloadError::MalformedField { index, reason: FieldError::NotANumber }),
        }
    }
}

/// What reading field `index` as an unsigned 16-bit number gives.
pub open spec fn spec_u16_field(fields: Seq<Seq<u8>>, index: usize) -> Result<u16, PayloadError> {
    if index >= fields.len() {
        Err(PayloadError::MalformedField { index, reason: FieldError::Missing })
    } else {
        match spec_parse_u16(fields[index as int]) {
            Some(v) => Ok(v),
            None => Err(PayloadError::MalformedField { index, reason: FieldError::NotANumber }),
        }
    }
}

/// The text that `out` holds, or its error.
pub open spec fn text_of(out: Result<String, PayloadError>) -> Result<Seq<char>, PayloadError> {
    match out {
        Ok(text) => Ok(text@),
        Err(e) => Err(e),
    }
}

/// Reads field `index` as UTF-8 text.
pub fn text_field(fields: &Vec<Vec<u8>>, index: usize) -> (out: Result<String, PayloadError>)
    ensures
        text_of(out) == spec_text_field(byte_views(fields@), index),
{
    if index >= fields.len() {
        return Err(PayloadError::MalformedField { index, reason: FieldError::Missing });
    }
    match u8_to_string(fields[index].as_slice()) {
        Some(text) => Ok(text),
        None => Err(PayloadError::MalformedField { index, reason: FieldError::NotUtf8 }),
    }
}

/// Reads the fields from `index` on as one overflow text.
pub fn overflow_field(fields: &Vec<Vec<u8>>, index: usize) -> (out: Result<String, PayloadError>)
    ensures
        text_of(out) == spec_overflow_field(byte_views(fields@), index),
{
    if index >= fields.len() {
        return Ok(String::new());
    }
    let joined = string_overflow(fields, index);
    match u8_to_string(joined.as_slice()) {
        Some(text) => Ok(text),
        None => Err(PayloadError::MalformedField { index, reason: FieldError::NotUtf8 }),
    }
}

/// Reads field `index` as an unsigned 64-bit number in decimal.
pub fn u64_field(fields: &Vec<Vec<u8>>, index: usize) -> (out: Result<u64, PayloadError>)
    ensures
        out == spec_u64_field(byte_views(fields@), index),
{
    if index >= fields.len() {
        return Err(PayloadError::MalformedField { index, reason: FieldError::Missing });
    }
    match parse_u64(fields[index].as_slice()) {
        Some(v) => Ok(v),
        None => Err(PayloadError::MalformedField { index, reason: FieldError::NotANumber }),
    }
}

/// Reads field `index` as a signed 64-bit number in decimal.
pub fn i64_field(fields: &Vec<Vec<u8>>, index: usize) -> (out: Result<i64, PayloadError>)
    ensures
        out == spec_i64_field(byte_views(fields@), index),
{
    if index >= fields.len() {
        return Err(PayloadError::MalformedField { index, reason: FieldError::Missing });
    }
    match parse_i64(fields[index].as_slice()) {
        Some(v) => Ok(v),
        None => Err(PayloadError::MalformedField { index, reason: FieldError::NotANumber }),
    }
}

/// Reads field `index` as an unsigned 16-bit number in decimal.
pub fn u16_field(fields: &Vec<Vec<u8>>, index: usize) -> (out: Result<u16, PayloadError>)
    ensures
        out == spec_u16_field(byte_views(fields@), index),
{
    if index >= fields.len() {
        return Err(PayloadError::MalformedField { index, reason: FieldError::Missing });
    }
    match parse_u16(fields[index].as_slice()) {
        Some(v) => Ok(v),
        None => Err(PayloadError::MalformedField { index, reason: FieldError::NotANumber }),
    }
}

} // verus!
