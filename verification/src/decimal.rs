//! Integers as ASCII decimal text, in both directions.
//!
//! Writing gives the shortest form: no sign for a value that is not negative,
//! no leading zero. Reading is more liberal: one leading `+` is accepted (and
//! one leading `-` for a signed value), and so are leading zeros.

use vstd::prelude::*;

verus! {

/// The ASCII code of the decimal digit `d`.
pub open spec fn digit_byte(d: int) -> u8 {
    (48 + d) as u8
}

/// The decimal digits of `n`, most significant first, at least one.
pub open spec fn decimal_digits(n: nat) -> Seq<u8>
    decreases n,
{
    if n < 10 {
        seq![digit_byte(n as int)]
    } else {
        decimal_digits(n / 10).push(digit_byte((n % 10) as int))
    }
}

/// The decimal text of `v`: a minus sign before the digits of a negative value.
pub open spec fn decimal_text(v: int) -> Seq<u8> {
    if v < 0 {
        seq![45u8] + decimal_digits((-v) as nat)
    } else {
        decimal_digits(v as nat)
    }
}

/// Every byte of `bytes` is an ASCII decimal digit.
pub open spec fn all_digits(bytes: Seq<u8>) -> bool {
    forall|i: int| 0 <= i < bytes.len() ==> 48 <= #[trigger] bytes[i] <= 57
}

/// The number that a run of decimal digits denotes; 0 for the empty run.
pub open spec fn digits_value(bytes: Seq<u8>) -> nat
    decreases bytes.len(),
{
    if bytes.len() == 0 {
        0
    } else {
        (digits_value(bytes.drop_last()) * 10 + (bytes.last() - 48)) as nat
    }
}

/// The digits of a text, after its sign if it has one.
pub open spec fn unsigned_part(bytes: Seq<u8>, allow_minus: bool) -> Seq<u8> {
    if bytes.len() > 0 && (bytes[0] == 43 || (allow_minus && bytes[0] == 45)) {
        bytes.drop_first()
    } else {
        bytes
    }
}

/// The text starts with a minus sign.
pub open spec fn is_negative_text(bytes: Seq<u8>) -> bool {
    bytes.len() > 0 && bytes[0] == 45
}

/// The value that a decimal text denotes, if it is well formed: an optional
/// sign (`-` only where `allow_minus`), then one digit or more.
pub open spec fn text_value(bytes: Seq<u8>, allow_minus: bool) -> Option<int> {
    let digits = unsigned_part(bytes, allow_minus);
    if digits.len() == 0 || !all_digits(digits) {
        None
    } else if allow_minus && is_negative_text(bytes) {
        Some(-(digits_value(digits) as int))
    } else {
        Some(digits_value(digits) as int)
    }
}

/// What reading an unsigned 64-bit number from `bytes` gives.
pub open spec fn spec_parse_u64(bytes: Seq<u8>) -> Option<u64> {
    match text_value(bytes, false) {
        Some(v) => if v <= u64::MAX { Some(v as u64) } else { None },
        None => None,
    }
}

/// What reading an unsigned 16-bit number from `bytes` gives.
pub open spec fn spec_parse_u16(bytes: Seq<u8>) -> Option<u16> {
    match text_value(bytes, false) {
        Some(v) => if v <= u16::MAX { Some(v as u16) } else { None },
        None => None,
    }
}

/// What reading a signed 64-bit number from `bytes` gives.
pub open spec fn spec_parse_i64(bytes: Seq<u8>) -> Option<i64> {
    match text_value(bytes, true) {
        Some(v) => if i64::MIN <= v <= i64::MAX { Some(v as i64) } else { None },
        None => None,
    }
}

/// The digits written for a number are digits, and denote that number.
pub proof fn lemma_digits_round_trip(n: nat)
    ensures
        decimal_digits(n).len() >= 1,
        all_digits(decimal_digits(n)),
        digits_value(decimal_digits(n)) == n,
    decreases n,
{
    if n < 10 {
        assert(decimal_digits(n).drop_last() =~= Seq::<u8>::empty());
        assert(digits_value(Seq::<u8>::empty()) == 0);
    } else {
        lemma_digits_round_trip(n / 10);
        assert(decimal_digits(n).drop_last() =~= decimal_digits(n / 10));
    }
}

/// A longer run of digits denotes at least ten times what its start denotes.
pub proof fn lemma_digits_value_grows(bytes: Seq<u8>, k: int)
    requires
        all_digits(bytes),
        0 <= k <= bytes.len(),
    ensures
        digits_value(bytes.take(k)) <= digits_value(bytes),
    decreases bytes.len() - k,
{
    if k < bytes.len() {
        lemma_digits_value_grows(bytes, k + 1);
        assert(bytes.take(k + 1).drop_last() =~= bytes.take(k));
    } else {
        assert(bytes.take(k) =~= bytes);
    }
}

/// The text of a number holds digits and a minus sign, and no other byte.
pub proof fn lemma_text_has_only(v: int, other: u8)
    requires
        other != 45,
        !(48 <= other <= 57),
    ensures
        !decimal_text(v).contains(other),
{
    let magnitude: nat = if v < 0 { (-v) as nat } else { v as nat };
    lemma_digits_round_trip(magnitude);
    let digits = decimal_digits(magnitude);
    assert forall|i: int| 0 <= i < decimal_text(v).len() implies decimal_text(v)[i] != other by {
        if v < 0 {
            if i > 0 {
                assert(decimal_text(v)[i] == digits[i - 1]);
            }
        } else {
            assert(decimal_text(v)[i] == digits[i]);
        }
    }
}

/// Reading back what was written for a value gives that value, and what
/// was written holds no `~`.
pub proof fn lemma_text_round_trip(v: int, allow_minus: bool)
    requires
        allow_minus || v >= 0,
    ensures
        text_value(decimal_text(v), allow_minus) == Some(v),
        !decimal_text(v).contains(126u8),
{
    let magnitude: nat = if v < 0 { (-v) as nat } else { v as nat };
    lemma_digits_round_trip(magnitude);
    let digits = decimal_digits(magnitude);
    if v < 0 {
        assert(decimal_text(v).drop_first() =~= digits);
    } else {
        assert(48 <= digits[0] <= 57);
    }
    lemma_text_has_only(v, 126u8);
}

/// Writes `n` in decimal.
pub fn u64_to_decimal(n: u64) -> (out: Vec<u8>)
    ensures
        out@ == decimal_text(n as int),
{
    let mut out: Vec<u8> = Vec::new();
    out.push(48 + (n % 10) as u8);
    let mut rest: u64 = n / 10;
    assert(out@ =~= seq![digit_byte((n % 10) as int)]);
    assert(n >= 10 ==> decimal_digits(n as nat) =~= decimal_digits(rest as nat) + out@);
    while rest > 0
        invariant
            decimal_digits(n as nat) == (if rest > 0 {
                decimal_digits(rest as nat)
            } else {
                Seq::<u8>::empty()
            }) + out@,
        decreases rest,
    {
        let digit: u8 = 48 + (rest % 10) as u8;
        let ghost before = out@;
        out.insert(0, digit);
        proof {
            assert(out@ =~= seq![digit] + before);
            if rest >= 10 {
                assert(decimal_digits(rest as nat) + before =~= decimal_digits(
                    (rest / 10) as nat,
                ) + out@);
            } else {
                assert(decimal_digits(rest as nat) + before =~= Seq::<u8>::empty() + out@);
            }
        }
        rest = rest / 10;
    }
    proof {
        assert(Seq::<u8>::empty() + out@ =~= out@);
    }
    out
}

/// Writes `v` in decimal, with a minus sign if it is negative.
pub fn i64_to_decimal(v: i64) -> (out: Vec<u8>)
    ensures
        out@ == decimal_text(v as int),
{
    if v >= 0 {
        u64_to_decimal(v as u64)
    } else {
        let magnitude: u64 = if v == i64::MIN {
            9223372036854775808u64
        } else {
            (-v) as u64
        };
        let digits = u64_to_decimal(magnitude);
        let mut out: Vec<u8> = Vec::new();
        out.push(45u8);
        let mut i: usize = 0;
        while i < digits.len()
            invariant
                i <= digits.len(),
                out@ == seq![45u8] + digits@.take(i as int),
            decreases digits.len() - i,
        {
            out.push(digits[i]);
            assert(digits@.take(i + 1) =~= digits@.take(i as int).push(digits@[i as int]));
            assert(out@ =~= seq![45u8] + digits@.take(i + 1));
            i += 1;
        }
        assert(digits@.take(i as int) =~= digits@);
        out
    }
}

/// Reads the digits `bytes[from..]` as a number no larger than `limit`.
fn parse_digits(bytes: &[u8], from: usize, limit: u64) -> (out: Option<u64>)
    requires
        from <= bytes.len(),
        limit >= 9,
    ensures
        out is Some <==> from < bytes.len() && all_digits(bytes@.skip(from as int))
            && digits_value(bytes@.skip(from as int)) <= limit,
        out is Some ==> out.unwrap() == digits_value(bytes@.skip(from as int)),
{
    if from == bytes.len() {
        return None;
    }
    let ghost digits = bytes@.skip(from as int);
    let mut value: u64 = 0;
    let mut i: usize = from;
    while i < bytes.len()
        invariant
            from <= i <= bytes.len(),
            digits == bytes@.skip(from as int),
            all_digits(digits.take(i - from)),
            value == digits_value(digits.take(i - from)),
            value <= limit,
            limit >= 9,
        decreases bytes.len() - i,
    {
        let b: u8 = bytes[i];
        proof {
            assert(digits[i - from] == b);
            assert(digits.take(i - from + 1).drop_last() =~= digits.take(i - from));
            assert(digits.take(i - from + 1).last() == b);
        }
        if b < 48 || b > 57 {
            return None;
        }
        let d: u64 = (b - 48) as u64;
        proof {
            assert forall|j: int| 0 <= j < i - from + 1 implies 48 <= #[trigger] digits.take(
                i - from + 1,
            )[j] <= 57 by {
                if j < i - from {
                    assert(digits.take(i - from)[j] == digits[j]);
                }
            }
        }
        if value > (limit - d) / 10 {
            proof {
                if all_digits(digits) {
                    lemma_digits_value_grows(digits, i - from + 1);
                }
                assert(value * 10 + d > limit) by (nonlinear_arith)
                    requires
                        value > (limit - d) / 10,
                        d <= limit,
                        d < 10,
                ;
            }
            return None;
        }
        assert(value * 10 + d <= limit) by (nonlinear_arith)
            requires
                value <= (limit - d) / 10,
                d <= limit,
        ;
        value = value * 10 + d;
        i += 1;
    }
    proof {
        assert(digits.take(i - from) =~= digits);
    }
    Some(value)
}

/// Reads an unsigned 64-bit number.
pub fn parse_u64(bytes: &[u8]) -> (out: Option<u64>)
    ensures
        out == spec_parse_u64(bytes@),
{
    let from: usize = if bytes.len() > 0 && bytes[0] == 43 { 1 } else { 0 };
    proof {
        if from == 1 {
            assert(bytes@.skip(1) =~= bytes@.drop_first());
        } else {
            assert(bytes@.skip(0) =~= bytes@);
        }
    }
    parse_digits(bytes, from, u64::MAX)
}

/// Reads an unsigned 16-bit number.
pub fn parse_u16(bytes: &[u8]) -> (out: Option<u16>)
    ensures
        out == spec_parse_u16(bytes@),
{
    let from: usize = if bytes.len() > 0 && bytes[0] == 43 { 1 } else { 0 };
    proof {
        if from == 1 {
            assert(bytes@.skip(1) =~= bytes@.drop_first());
        } else {
            assert(bytes@.skip(0) =~= bytes@);
        }
    }
    match parse_digits(bytes, from, 65535) {
        Some(v) => Some(v as u16),
        None => None,
    }
}

/// Reads a signed 64-bit number.
pub fn parse_i64(bytes: &[u8]) -> (out: Option<i64>)
    ensures
        out == spec_parse_i64(bytes@),
{
    let negative: bool = bytes.len() > 0 && bytes[0] == 45;
    let from: usize = if bytes.len() > 0 && (bytes[0] == 43 || bytes[0] == 45) { 1 } else { 0 };
    proof {
        if from == 1 {
            assert(bytes@.skip(1) =~= bytes@.drop_first());
        } else {
            assert(bytes@.skip(0) =~= bytes@);
        }
    }
    if negative {
        match parse_digits(bytes, from, 9223372036854775808u64) {
            Some(v) => if v == 9223372036854775808u64 {
                Some(i64::MIN)
            } else {
                Some(-(v as i64))
            },
            None => None,
        }
    } else {
        match parse_digits(bytes, from, 9223372036854775807u64) {
            Some(v) => Some(v as i64),
            None => None,
        }
    }
}

} // verus!
