//! Conversions between strings, their characters and their UTF-8 bytes.

use std::str::Chars;
use vstd::prelude::*;
use vstd::std_specs::iter::IteratorSpec;
use vstd::utf8::{decode_utf8, encode_scalar, encode_utf8, valid_utf8};

verus! {

/// The characters of `s`, in order.
pub fn chars_of(s: &str) -> (out: Vec<char>)
    ensures
        out@ == s@,
{
    let mut out: Vec<char> = Vec::new();
    let mut it: Chars<'_> = s.chars();
    proof {
        vstd::string::axiom_spec_iter(s);
    }
    loop
        invariant
            out@ + it.remaining() == s@,
            it.decrease() is Some,
        ensures
            out@ == s@,
        decreases it.decrease()->0,
    {
        let ghost before = it;
        let next = it.next();
        proof {
            vstd::string::next_postcondition(&before, &it, next);
        }
        match next {
            Some(c) => {
                out.push(c);
                assert(out@ + it.remaining() =~= s@);
            },
            None => {
                assert(out@ + it.remaining() =~= out@);
                break ;
            },
        }
    }
    out
}

/// Whether `text` begins with the characters of `prefix`.
pub fn starts_with(text: &str, prefix: &str) -> (out: bool)
    ensures
        out == prefix@.is_prefix_of(text@),
{
    let whole = chars_of(text);
    let start = chars_of(prefix);
    if start.len() > whole.len() {
        return false;
    }
    let mut i: usize = 0;
    while i < start.len()
        invariant
            i <= start.len() <= whole.len(),
            whole@ == text@,
            start@ == prefix@,
            forall|j: int| 0 <= j < i ==> whole@[j] == start@[j],
        decreases start.len() - i,
    {
        if whole[i] != start[i] {
            proof {
                if prefix@.is_prefix_of(text@) {
                    assert(text@.subrange(0, prefix@.len() as int)[i as int] == prefix@[i as int]);
                }
            }
            return false;
        }
        i += 1;
    }
    assert(text@.subrange(0, prefix@.len() as int) =~= prefix@);
    true
}

/// Whether `text` holds the character `wanted`.
pub fn contains_char(text: &str, wanted: char) -> (out: bool)
    ensures
        out == text@.contains(wanted),
{
    let chars = chars_of(text);
    let mut i: usize = 0;
    while i < chars.len()
        invariant
            i <= chars.len(),
            chars@ == text@,
            forall|k: int| 0 <= k < i ==> chars@[k] != wanted,
        decreases chars.len() - i,
    {
        if chars[i] == wanted {
            assert(text@[i as int] == wanted);
            return true;
        }
        i += 1;
    }
    false
}

/// Appends the bytes of `more` to `out`.
pub fn append_bytes(out: &mut Vec<u8>, more: &[u8])
    ensures
        final(out)@ == old(out)@ + more@,
{
    let mut i: usize = 0;
    while i < more.len()
        invariant
            i <= more.len(),
            out@ == old(out)@ + more@.take(i as int),
        decreases more.len() - i,
    {
        out.push(more[i]);
        assert(more@.take(i + 1) =~= more@.take(i as int).push(more@[i as int]));
        assert(out@ =~= old(out)@ + more@.take(i + 1));
        i += 1;
    }
    assert(more@.take(i as int) =~= more@);
}

/// A copy of `bytes[from..to]`.
pub fn copy_range(bytes: &[u8], from: usize, to: usize) -> (out: Vec<u8>)
    requires
        from <= to <= bytes.len(),
    ensures
        out@ == bytes@.subrange(from as int, to as int),
{
    let mut out: Vec<u8> = Vec::new();
    let mut i: usize = from;
    while i < to
        invariant
            from <= i <= to <= bytes.len(),
            out@ == bytes@.subrange(from as int, i as int),
        decreases to - i,
    {
        out.push(bytes[i]);
        assert(out@ =~= bytes@.subrange(from as int, i + 1));
        i += 1;
    }
    out
}

/// The UTF-8 bytes of `s`.
pub fn bytes_of(s: &str) -> (out: Vec<u8>)
    ensures
        out@ == encode_utf8(s@),
{
    let raw = s.as_bytes();
    let out = copy_range(raw, 0, raw.len());
    assert(raw@.subrange(0, raw@.len() as int) =~= raw@);
    out
}

/// `String::from_utf8` of the standard library, with its error dropped: the
/// text that `bytes` encode where they are well-formed UTF-8, nothing where
/// they are not. Believed, not proved.
#[verifier::external_body]
fn string_from_utf8(bytes: Vec<u8>) -> (out: Option<String>)
    ensures
        out is Some <==> valid_utf8(bytes@),
        out is Some ==> out.unwrap()@ == decode_utf8(bytes@),
{
    match String::from_utf8(bytes) {
        Ok(text) => Some(text),
        Err(_) => None,
    }
}

/// Reads `bytes` as UTF-8 text.
pub fn u8_to_string(bytes: &[u8]) -> (out: Option<String>)
    ensures
        out is Some <==> valid_utf8(bytes@),
        out is Some ==> out.unwrap()@ == decode_utf8(bytes@),
{
    let owned = copy_range(bytes, 0, bytes.len());
    assert(bytes@.subrange(0, bytes@.len() as int) =~= bytes@);
    string_from_utf8(owned)
}

/// The text whose characters are the given ASCII codes.
pub open spec fn ascii_text(bytes: Seq<u8>) -> Seq<char> {
    Seq::new(bytes.len(), |i: int| bytes[i] as char)
}

/// Every byte is below 128.
pub open spec fn all_ascii(bytes: Seq<u8>) -> bool {
    forall|i: int| 0 <= i < bytes.len() ==> #[trigger] bytes[i] < 128
}

/// ASCII bytes are well-formed UTF-8 and encode one character each.
pub proof fn lemma_ascii_is_utf8(bytes: Seq<u8>)
    requires
        all_ascii(bytes),
    ensures
        valid_utf8(bytes),
        decode_utf8(bytes) == ascii_text(bytes),
        encode_utf8(ascii_text(bytes)) == bytes,
{
    let chars = ascii_text(bytes);
    assert(vstd::utf8::is_ascii_chars(chars)) by {
        assert forall|i: int| 0 <= i < chars.len() implies '\0' <= #[trigger] chars[i]
            <= '\u{7f}' by {
            assert(bytes[i] < 128);
        }
    }
    vstd::utf8::is_ascii_chars_encode_utf8(chars);
    assert(encode_utf8(chars) =~= bytes) by {
        assert forall|i: int| 0 <= i < bytes.len() implies encode_utf8(chars)[i] == bytes[i] by {
            assert(bytes[i] < 128);
            assert(chars[i] as u8 == bytes[i]);
        }
    }
    vstd::utf8::encode_utf8_valid_utf8(chars);
    vstd::utf8::encode_utf8_decode_utf8(chars);
}

/// Builds the text whose characters are the given ASCII codes.
pub fn ascii_to_string(bytes: Vec<u8>) -> (out: String)
    requires
        all_ascii(bytes@),
    ensures
        out@ == ascii_text(bytes@),
{
    proof {
        lemma_ascii_is_utf8(bytes@);
    }
    match string_from_utf8(bytes) {
        Some(text) => text,
        None => String::new(),
    }
}

/// The encoding of one character holds an ASCII byte exactly if the character
/// is that ASCII character.
proof fn lemma_ascii_byte_of_scalar(c: char, b: u8)
    requires
        b < 128,
    ensures
        encode_scalar(c as u32).contains(b) <==> c == b as char,
{
    let v = c as u32;
    let enc = encode_scalar(v);
    vstd::utf8::char_is_scalar(c);
    if v <= 0x7F {
        assert((v & 0x7F) as u8 == v as u8) by (bit_vector)
            requires
                v <= 0x7F,
        ;
        assert(enc[0] == v as u8);
        if c == b as char {
            assert(enc[0] == b);
        }
        if enc.contains(b) {
            let i = choose|i: int| 0 <= i < enc.len() && enc[i] == b;
            assert(v == b as u32);
            vstd::utf8::char_u32_cast(c, v);
        }
    } else {
        assert(0xC0u8 | ((v >> 6) & 0x1F) as u8 >= 128) by (bit_vector);
        assert(0xE0u8 | ((v >> 12) & 0x0F) as u8 >= 128) by (bit_vector);
        assert(0xF0u8 | ((v >> 18) & 0x7) as u8 >= 128) by (bit_vector);
        assert(0x80u8 | (v & 0x3F) as u8 >= 128) by (bit_vector);
        assert(0x80u8 | ((v >> 6) & 0x3F) as u8 >= 128) by (bit_vector);
        assert(0x80u8 | ((v >> 12) & 0x3F) as u8 >= 128) by (bit_vector);
        assert(forall|i: int| 0 <= i < enc.len() ==> enc[i] >= 128);
        if enc.contains(b) {
            let i = choose|i: int| 0 <= i < enc.len() && enc[i] == b;
            assert(enc[i] >= 128);
        }
        assert(c != b as char);
    }
}

/// An ASCII byte occurs in the UTF-8 encoding of a text exactly if the text
/// holds that ASCII character.
pub proof fn lemma_ascii_byte_of_encoding(chars: Seq<char>, b: u8)
    requires
        b < 128,
    ensures
        encode_utf8(chars).contains(b) <==> chars.contains(b as char),
    decreases chars.len(),
{
    if chars.len() > 0 {
        let head = encode_scalar(chars[0] as u32);
        let tail = encode_utf8(chars.drop_first());
        lemma_ascii_byte_of_scalar(chars[0], b);
        lemma_ascii_byte_of_encoding(chars.drop_first(), b);
        if chars.contains(b as char) {
            let i = choose|i: int| 0 <= i < chars.len() && chars[i] == b as char;
            if i == 0 {
                let j = choose|j: int| 0 <= j < head.len() && head[j] == b;
                assert((head + tail)[j] == b);
            } else {
                assert(chars.drop_first()[i - 1] == b as char);
                let j = choose|j: int| 0 <= j < tail.len() && tail[j] == b;
                assert((head + tail)[head.len() + j] == b);
            }
        }
        if encode_utf8(chars).contains(b) {
            let j = choose|j: int| 0 <= j < (head + tail).len() && (head + tail)[j] == b;
            if j < head.len() {
                assert(head[j] == b);
                assert(chars[0] == b as char);
            } else {
                assert(tail[j - head.len()] == b);
                let i = choose|i: int|
                    0 <= i < chars.drop_first().len() && chars.drop_first()[i] == b as char;
                assert(chars[i + 1] == b as char);
            }
        }
    }
}

/// How many bytes stand before the first `mark`; all of them if there is none.
pub open spec fn first_byte(bytes: Seq<u8>, mark: u8) -> nat
    decreases bytes.len(),
{
    if bytes.len() == 0 || bytes[0] == mark {
        0
    } else {
        1 + first_byte(bytes.drop_first(), mark)
    }
}

/// The stretches of `bytes` between its `mark` bytes: one more than it has marks.
pub open spec fn split_bytes(bytes: Seq<u8>, mark: u8) -> Seq<Seq<u8>>
    decreases bytes.len(),
{
    let cut = first_byte(bytes, mark);
    if cut < bytes.len() {
        seq![bytes.take(cut as int)] + split_bytes(bytes.skip(cut as int + 1), mark)
    } else {
        seq![bytes]
    }
}

/// Where the first mark stands, and that none stands before it.
pub proof fn lemma_first_byte(bytes: Seq<u8>, mark: u8)
    ensures
        first_byte(bytes, mark) <= bytes.len(),
        first_byte(bytes, mark) < bytes.len() ==> bytes[first_byte(bytes, mark) as int] == mark,
        forall|i: int| 0 <= i < first_byte(bytes, mark) ==> bytes[i] != mark,
        !bytes.contains(mark) <==> first_byte(bytes, mark) == bytes.len(),
    decreases bytes.len(),
{
    if bytes.len() > 0 && bytes[0] != mark {
        let rest = bytes.drop_first();
        lemma_first_byte(rest, mark);
        assert forall|i: int| 0 <= i < first_byte(bytes, mark) implies bytes[i] != mark by {
            if i > 0 {
                assert(rest[i - 1] != mark);
            }
        }
        if first_byte(bytes, mark) == bytes.len() {
            assert forall|i: int| 0 <= i < bytes.len() implies bytes[i] != mark by {}
        } else {
            assert(bytes[first_byte(bytes, mark) as int] == mark);
        }
    } else if bytes.len() > 0 {
        assert(bytes[0] == mark);
    }
}

/// Bytes without a mark, followed by a mark, are the first stretch, and what
/// follows the mark is split on its own.
pub proof fn lemma_split_first(inner: Seq<u8>, mark: u8, rest: Seq<u8>)
    requires
        !inner.contains(mark),
    ensures
        first_byte(inner + seq![mark] + rest, mark) == inner.len(),
        split_bytes(inner + seq![mark] + rest, mark) == seq![inner] + split_bytes(rest, mark),
    decreases inner.len(),
{
    let all = inner + seq![mark] + rest;
    if inner.len() > 0 {
        assert(all[0] == inner[0]);
        assert(inner[0] != mark);
        let shorter = inner.drop_first();
        assert forall|i: int| 0 <= i < shorter.len() implies shorter[i] != mark by {
            assert(inner[i + 1] != mark);
        }
        lemma_split_first(shorter, mark, rest);
        assert(all.drop_first() =~= shorter + seq![mark] + rest);
    } else {
        assert(all[0] == mark);
    }
    assert(all.take(inner.len() as int) =~= inner);
    assert(all.skip(inner.len() as int + 1) =~= rest);
}

/// The contents of each vector.
pub open spec fn byte_views(items: Seq<Vec<u8>>) -> Seq<Seq<u8>> {
    Seq::new(items.len(), |i: int| items[i]@)
}

/// Splits `bytes` at every `mark`.
pub fn split_on_byte(bytes: &[u8], mark: u8) -> (out: Vec<Vec<u8>>)
    ensures
        byte_views(out@) == split_bytes(bytes@, mark),
{
    let mut out: Vec<Vec<u8>> = Vec::new();
    let mut start: usize = 0;
    let mut at: usize = 0;
    assert(bytes@.skip(0) =~= bytes@);
    assert(byte_views(out@) =~= Seq::<Seq<u8>>::empty());
    loop
        invariant_except_break
            start <= at <= bytes.len(),
            byte_views(out@) + split_bytes(bytes@.skip(start as int), mark) == split_bytes(
                bytes@,
                mark,
            ),
            at - start + first_byte(bytes@.skip(at as int), mark) == first_byte(
                bytes@.skip(start as int),
                mark,
            ),
        ensures
            byte_views(out@) == split_bytes(bytes@, mark),
        decreases bytes.len() - at,
    {
        let ghost item = bytes@.skip(start as int);
        let ghost here = bytes@.skip(at as int);
        let ghost before = byte_views(out@);
        if at == bytes.len() {
            let last = copy_range(bytes, start, bytes.len());
            proof {
                assert(first_byte(here, mark) == 0);
                assert(bytes@.subrange(start as int, bytes.len() as int) =~= item);
            }
            out.push(last);
            proof {
                assert(byte_views(out@) =~= before.push(item));
                assert(before.push(item) =~= before + split_bytes(item, mark));
            }
            break ;
        }
        proof {
            assert(here[0] == bytes@[at as int]);
            assert(here.drop_first() =~= bytes@.skip(at + 1));
        }
        if bytes[at] == mark {
            let piece = copy_range(bytes, start, at);
            proof {
                assert(first_byte(item, mark) == at - start);
                assert(bytes@.subrange(start as int, at as int) =~= item.take(at - start));
                assert(item.skip(at - start + 1) =~= bytes@.skip(at + 1));
            }
            out.push(piece);
            proof {
                assert(byte_views(out@) =~= before.push(item.take(at - start)));
                assert(before.push(item.take(at - start)) + split_bytes(bytes@.skip(at + 1), mark)
                    =~= before + split_bytes(item, mark));
            }
            at = at + 1;
            start = at;
        } else {
            at = at + 1;
        }
    }
    out
}

} // verus!
