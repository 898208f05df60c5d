//! Bytes as hexadecimal text, and back.

use crate::text::{ascii_to_string, chars_of};
use vstd::prelude::*;

verus! {

/// Why a text is not the hexadecimal form of any bytes.
#[derive(Debug, PartialEq, Eq, Clone, Copy)]
pub enum HexError {
    /// The character, at the given offset, is neither a hexadecimal digit
    /// nor white space.
    InvalidHex(char, usize),
    /// The text holds an odd number of hexadecimal digits.
    OddLength,
}

/// The upper-case hexadecimal digit for a value below 16, as an ASCII code.
pub open spec fn upper_hex_byte(nibble: int) -> u8 {
    if nibble < 10 {
        (48 + nibble) as u8
    } else {
        (55 + nibble) as u8
    }
}

/// The hexadecimal text of `bytes`: two upper-case digits for each byte, the
/// high four bits first.
pub open spec fn spec_to_hex(bytes: Seq<u8>) -> Seq<char> {
    Seq::new(
        2 * bytes.len(),
        |i: int|
            if i % 2 == 0 {
                upper_hex_byte(bytes[i / 2] as int / 16) as char
            } else {
                upper_hex_byte(bytes[i / 2] as int % 16) as char
            },
    )
}

/// The value of a hexadecimal digit of either case; nothing for another character.
pub open spec fn hex_value(c: char) -> Option<u8> {
    if '0' <= c <= '9' {
        Some((c as u8 - 48) as u8)
    } else if 'A' <= c <= 'F' {
        Some((c as u8 - 55) as u8)
    } else if 'a' <= c <= 'f' {
        Some((c as u8 - 87) as u8)
    } else {
        None
    }
}

/// White space that is passed over: blank, carriage return, line feed, tab.
pub open spec fn is_hex_space(c: char) -> bool {
    c == ' ' || c == '\r' || c == '\n' || c == '\t'
}

/// A character that may stand in hexadecimal text.
pub open spec fn hex_accepts(c: char) -> bool {
    hex_value(c) is Some || is_hex_space(c)
}

/// The values of the hexadecimal digits of a text, in order, everything else
/// left out.
pub open spec fn hex_nibbles(chars: Seq<char>) -> Seq<u8>
    decreases chars.len(),
{
    if chars.len() == 0 {
        Seq::empty()
    } else {
        match hex_value(chars.last()) {
            Some(v) => hex_nibbles(chars.drop_last()).push(v),
            None => hex_nibbles(chars.drop_last()),
        }
    }
}

/// The bytes that pairs of four-bit values make, the high four bits first.
pub open spec fn pack_nibbles(nibbles: Seq<u8>) -> Seq<u8> {
    Seq::new(nibbles.len() / 2, |i: int| (nibbles[2 * i] * 16 + nibbles[2 * i + 1]) as u8)
}

/// The offset `at` holds the first character of the text that may not stand
/// in hexadecimal text.
pub open spec fn first_rejected(chars: Seq<char>, at: int) -> bool {
    &&& 0 <= at < chars.len()
    &&& !hex_accepts(chars[at])
    &&& forall|i: int| 0 <= i < at ==> hex_accepts(#[trigger] chars[i])
}

/// What reading hexadecimal text gives: the first character that is neither
/// a digit nor white space is an error; else an odd number of digits is one;
/// else the digits, two by two, are the bytes.
pub open spec fn spec_from_hex(chars: Seq<char>, out: Result<Seq<u8>, HexError>) -> bool {
    match out {
        Err(HexError::InvalidHex(c, at)) => first_rejected(chars, at as int) && chars[at as int]
            == c,
        Err(HexError::OddLength) => {
            &&& forall|i: int| 0 <= i < chars.len() ==> hex_accepts(#[trigger] chars[i])
            &&& hex_nibbles(chars).len() % 2 == 1
        },
        Ok(bytes) => {
            &&& forall|i: int| 0 <= i < chars.len() ==> hex_accepts(#[trigger] chars[i])
            &&& hex_nibbles(chars).len() % 2 == 0
            &&& bytes == pack_nibbles(hex_nibbles(chars))
        },
    }
}

/// A text is read in one way only.
pub proof fn lemma_from_hex_unique(
    chars: Seq<char>,
    a: Result<Seq<u8>, HexError>,
    b: Result<Seq<u8>, HexError>,
)
    requires
        spec_from_hex(chars, a),
        spec_from_hex(chars, b),
    ensures
        a == b,
{
    match (a, b) {
        (Err(HexError::InvalidHex(c, at)), Err(HexError::InvalidHex(d, to))) => {
            if at < to {
                assert(hex_accepts(chars[at as int]));
            } else if to < at {
                assert(hex_accepts(chars[to as int]));
            }
        },
        (Err(HexError::InvalidHex(c, at)), _) => {
            assert(hex_accepts(chars[at as int]));
        },
        (_, Err(HexError::InvalidHex(c, at))) => {
            assert(hex_accepts(chars[at as int]));
        },
        _ => {},
    }
}

/// Every value among the nibbles is below 16.
pub proof fn lemma_nibbles_small(chars: Seq<char>)
    ensures
        hex_nibbles(chars).len() <= chars.len(),
        forall|i: int| 0 <= i < hex_nibbles(chars).len() ==> #[trigger] hex_nibbles(chars)[i] < 16,
    decreases chars.len(),
{
    if chars.len() > 0 {
        lemma_nibbles_small(chars.drop_last());
    }
}

/// The digits of a hexadecimal text written by `spec_to_hex` are the two
/// halves of each byte.
pub proof fn lemma_nibbles_of_hex(bytes: Seq<u8>, n: int)
    requires
        0 <= n <= 2 * bytes.len(),
    ensures
        hex_nibbles(spec_to_hex(bytes).take(n)).len() == n,
        forall|i: int|
            0 <= i < n ==> #[trigger] hex_nibbles(spec_to_hex(bytes).take(n))[i] == (if i % 2
                == 0 {
                bytes[i / 2] as int / 16
            } else {
                bytes[i / 2] as int % 16
            }),
        forall|i: int| 0 <= i < n ==> hex_accepts(#[trigger] spec_to_hex(bytes)[i]),
    decreases n,
{
    if n > 0 {
        let text = spec_to_hex(bytes);
        lemma_nibbles_of_hex(bytes, n - 1);
        assert(text.take(n).drop_last() =~= text.take(n - 1));
        let b = bytes[(n - 1) / 2];
        let nibble: int = if (n - 1) % 2 == 0 { b as int / 16 } else { b as int % 16 };
        assert(0 <= nibble < 16);
        assert(text.take(n).last() == upper_hex_byte(nibble) as char);
        assert(hex_value(upper_hex_byte(nibble) as char) == Some(nibble as u8));
    }
}

/// Hexadecimal text read back gives the bytes it was written from.
pub proof fn lemma_hex_round_trip(bytes: Seq<u8>)
    ensures
        spec_from_hex(spec_to_hex(bytes), Ok(bytes)),
{
    let text = spec_to_hex(bytes);
    lemma_nibbles_of_hex(bytes, 2 * bytes.len() as int);
    assert(text.take(2 * bytes.len() as int) =~= text);
    let nibbles = hex_nibbles(text);
    assert(pack_nibbles(nibbles) =~= bytes) by {
        assert forall|i: int| 0 <= i < bytes.len() implies pack_nibbles(nibbles)[i] == bytes[i] by {
            assert(nibbles[2 * i] == bytes[i] as int / 16);
            assert(nibbles[2 * i + 1] == bytes[i] as int % 16);
        }
    }
}

/// The upper-case hexadecimal digit of a value below 16.
fn upper_hex_digit(nibble: u8) -> (out: u8)
    requires
        nibble < 16,
    ensures
        out == upper_hex_byte(nibble as int),
        out < 128,
{
    if nibble < 10 {
        48 + nibble
    } else {
        55 + nibble
    }
}

/// Writes `bytes` in hexadecimal: upper case, two characters per byte.
pub fn to_hex(bytes: &[u8]) -> (out: String)
    ensures
        out@ == spec_to_hex(bytes@),
{
    let mut digits: Vec<u8> = Vec::new();
    let mut i: usize = 0;
    while i < bytes.len()
        invariant
            i <= bytes.len(),
            digits.len() == 2 * i,
            forall|k: int|
                0 <= k < 2 * i ==> #[trigger] digits@[k] == (if k % 2 == 0 {
                    upper_hex_byte(bytes@[k / 2] as int / 16)
                } else {
                    upper_hex_byte(bytes@[k / 2] as int % 16)
                }),
            forall|k: int| 0 <= k < 2 * i ==> #[trigger] digits@[k] < 128,
        decreases bytes.len() - i,
    {
        let b: u8 = bytes[i];
        digits.push(upper_hex_digit(b / 16));
        digits.push(upper_hex_digit(b % 16));
        i += 1;
    }
    let out = ascii_to_string(digits);
    assert(out@ =~= spec_to_hex(bytes@));
    out
}

/// The value of a hexadecimal digit of either case.
fn hex_digit_value(c: char) -> (out: Option<u8>)
    ensures
        out == hex_value(c),
{
    if c >= '0' && c <= '9' {
        Some(c as u8 - 48)
    } else if c >= 'A' && c <= 'F' {
        Some(c as u8 - 55)
    } else if c >= 'a' && c <= 'f' {
        Some(c as u8 - 87)
    } else {
        None
    }
}

/// Reads hexadecimal text: digits of either case, white space passed over.
pub fn from_hex(content: &str) -> (out: Result<Vec<u8>, HexError>)
    ensures
        spec_from_hex(
            content@,
            match out {
                Ok(bytes) => Ok(bytes@),
                Err(e) => Err(e),
            },
        ),
{
    let chars = chars_of(content);
    let mut bytes: Vec<u8> = Vec::new();
    let mut pending: Option<u8> = None;
    let mut i: usize = 0;
    while i < chars.len()
        invariant
            i <= chars.len(),
            chars@ == content@,
            forall|k: int| 0 <= k < i ==> hex_accepts(#[trigger] chars@[k]),
            hex_nibbles(chars@.take(i as int)).len() == 2 * bytes.len() + (if pending is Some {
                1int
            } else {
                0int
            }),
            forall|k: int|
                0 <= k < bytes.len() ==> #[trigger] bytes@[k] == pack_nibbles(
                    hex_nibbles(chars@.take(i as int)),
                )[k],
            pending matches Some(high) ==> high == hex_nibbles(chars@.take(i as int)).last(),
        decreases chars.len() - i,
    {
        let c: char = chars[i];
        let ghost before = hex_nibbles(chars@.take(i as int));
        proof {
            assert(chars@.take(i + 1).drop_last() =~= chars@.take(i as int));
            assert(chars@.take(i + 1).last() == c);
            lemma_nibbles_small(chars@.take(i as int));
        }
        match hex_digit_value(c) {
            Some(v) => {
                let ghost now = hex_nibbles(chars@.take(i + 1));
                assert(now == before.push(v));
                match pending {
                    Some(high) => {
                        assert(high < 16 && v < 16);
                        bytes.push(high * 16 + v);
                        pending = None;
                        assert forall|k: int| 0 <= k < bytes.len() implies #[trigger] bytes@[k]
                            == pack_nibbles(now)[k] by {
                            if k < bytes.len() - 1 {
                                assert(bytes@[k] == pack_nibbles(before)[k]);
                                assert(now[2 * k] == before[2 * k]);
                                assert(now[2 * k + 1] == before[2 * k + 1]);
                            } else {
                                assert(now[2 * k] == before.last());
                            }
                        }
                    },
                    None => {
                        pending = Some(v);
                        assert forall|k: int| 0 <= k < bytes.len() implies #[trigger] bytes@[k]
                            == pack_nibbles(now)[k] by {
                            assert(bytes@[k] == pack_nibbles(before)[k]);
                            assert(now[2 * k] == before[2 * k]);
                            assert(now[2 * k + 1] == before[2 * k + 1]);
                        }
                    },
                }
            },
            None => {
                if !(c == ' ' || c == '\r' || c == '\n' || c == '\t') {
                    return Err(HexError::InvalidHex(c, i));
                }
            },
        }
        i += 1;
    }
    proof {
        assert(chars@.take(i as int) =~= chars@);
    }
    if pending.is_some() {
        return Err(HexError::OddLength);
    }
    assert(bytes@ =~= pack_nibbles(hex_nibbles(content@)));
    Ok(bytes)
}

} // verus!
