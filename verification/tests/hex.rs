use carina::hex::{from_hex, to_hex, HexError};

#[test]
fn hex_round_trip_scenario() {
    assert_eq!(to_hex(&[0xDE, 0xAD, 0xBE, 0xEF]), "DEADBEEF");
    assert_eq!(from_hex("deadbeef"), Ok(vec![0xDE, 0xAD, 0xBE, 0xEF]));
}

#[test]
fn to_hex_is_upper_case_two_per_byte() {
    assert_eq!(to_hex(&[]), "");
    assert_eq!(to_hex(&[0]), "00");
    assert_eq!(to_hex(&[0x0a, 0xf0, 0x9c, 0xff]), "0AF09CFF");
}

#[test]
fn from_hex_of_to_hex_is_identity() {
    let all: Vec<u8> = (0..=255).collect();
    assert_eq!(from_hex(&to_hex(&all)), Ok(all));
    assert_eq!(from_hex(&to_hex(&[])), Ok(Vec::new()));
}

#[test]
fn from_hex_accepts_both_cases_and_skips_white_space() {
    assert_eq!(from_hex("DeAdBeEf"), Ok(vec![0xDE, 0xAD, 0xBE, 0xEF]));
    assert_eq!(from_hex(" d e\r\na\td "), Ok(vec![0xDE, 0xAD]));
    assert_eq!(from_hex(""), Ok(Vec::new()));
    assert_eq!(from_hex(" \n"), Ok(Vec::new()));
    assert_eq!(from_hex("0123456789abcdefABCDEF"), Ok(vec![
        0x01, 0x23, 0x45, 0x67, 0x89, 0xab, 0xcd, 0xef, 0xAB, 0xCD, 0xEF
    ]));
}

#[test]
fn from_hex_errors() {
    assert_eq!(from_hex("abc"), Err(HexError::OddLength));
    assert_eq!(from_hex("a b c"), Err(HexError::OddLength));
    assert_eq!(from_hex("zz"), Err(HexError::InvalidHex('z', 0)));
    assert_eq!(from_hex("12 g4"), Err(HexError::InvalidHex('g', 3)));
    assert_eq!(from_hex("1x"), Err(HexError::InvalidHex('x', 1)));
    assert_eq!(from_hex("1ä"), Err(HexError::InvalidHex('ä', 1)));
    // the first bad character wins over an odd count
    assert_eq!(from_hex("abc!"), Err(HexError::InvalidHex('!', 3)));
    assert_eq!(from_hex("/"), Err(HexError::InvalidHex('/', 0)));
    assert_eq!(from_hex(":"), Err(HexError::InvalidHex(':', 0)));
    assert_eq!(from_hex("@"), Err(HexError::InvalidHex('@', 0)));
    assert_eq!(from_hex("G"), Err(HexError::InvalidHex('G', 0)));
    assert_eq!(from_hex("`"), Err(HexError::InvalidHex('`', 0)));
    assert_eq!(from_hex("g"), Err(HexError::InvalidHex('g', 0)));
}
