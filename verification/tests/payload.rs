use carina::decimal::{i64_to_decimal, parse_i64, parse_u16, parse_u64, u64_to_decimal};
use carina::payload::block::possible_block::PossibleBlockPayload;
use carina::payload::blocks::block_data::BlockData;
use carina::payload::blocks::block_gen::BlockGen;
use carina::payload::blocks::get_block::GetBlock;
use carina::payload::blocks::get_block_ack::GetBlockAck;
use carina::payload::blocks::get_blocks_ack::GetBlocksAck;
use carina::payload::blocks::hash_val::HashVal;
use carina::payload::blocks::hash_val_ack::HashValAck;
use carina::payload::blocks::new_block::NewBlock;
use carina::payload::builder::PayloadBuilder;
use carina::payload::empty::EmptyPayload;
use carina::payload::hole_puncher::punsh::Punsh;
use carina::payload::list::{join_strings, split_string};
use carina::payload::parser::{
    i64_field, overflow_field, parse_payload, string_overflow, text_field, u16_field, u64_field,
};
use carina::payload::peers::get_peers_ack::GetPeersAck;
use carina::payload::{FieldError, Payload, PayloadError};

#[test]
fn block_data_test_building_and_parsing() {
    let unique_key = String::from("asfdkgrf");
    let content = String::from("ngiurengoiurehgbiuergneoigjoierhg");

    let data = BlockData { unique_key: unique_key.clone(), content: content.clone() };

    let complete = parse_payload(&data.to_bytes());
    let parsed = BlockData::parse(complete).unwrap();

    assert_eq!(unique_key, parsed.unique_key);
    assert_eq!(content, parsed.content);
}

#[test]
fn get_blocks_ack_test_building_and_parsing() {
    let blocks = vec![String::from("172.0.0.1"), String::from("172.0.0.2")];

    let block_ack = GetBlocksAck { blocks: blocks.clone() };

    let block_ack = block_ack.to_bytes();
    let complete = parse_payload(&block_ack);
    let parsed = GetBlocksAck::parse(complete).unwrap();

    assert_eq!(blocks, parsed.blocks);
}

#[test]
fn punsh_test_building_and_parsing() {
    let address = String::from("172.0.0.1");

    let hole_puncher_ack = Punsh { address: address.clone() };

    let hole_puncher_ack = hole_puncher_ack.to_bytes();
    let complete = parse_payload(&hole_puncher_ack);
    let parsed = Punsh::parse(complete).unwrap();

    assert_eq!(address, parsed.address);
}

#[test]
fn punsh_bytes() {
    let bytes = Punsh { address: String::from("172.0.0.1") }.to_bytes();
    assert_eq!(bytes, b"~172.0.0.1~".to_vec());
    let parsed = Punsh::parse(parse_payload(b"~172.0.0.1~")).unwrap();
    assert_eq!(parsed, Punsh { address: String::from("172.0.0.1") });
}

#[test]
fn set_peer_sets_the_address() {
    let punsh = Punsh::new().set_peer(String::from("6.7.8.9:10"));
    assert_eq!(punsh.address, "6.7.8.9:10");
}

#[test]
fn empty_payload_has_no_fields() {
    assert_eq!(parse_payload(&[]), Vec::<Vec<u8>>::new());
    assert_eq!(EmptyPayload::new().to_bytes(), Vec::<u8>::new());
    assert_eq!(EmptyPayload::parse(Vec::new()), Ok(EmptyPayload::new()));
    assert_eq!(Punsh::parse(Vec::new()), Ok(Punsh::new()));
    assert_eq!(BlockData::parse(Vec::new()), Ok(BlockData::new()));
    assert_eq!(GetBlocksAck::parse(Vec::new()), Ok(GetBlocksAck::new()));
}

#[test]
fn parse_payload_stops_where_no_field_begins() {
    assert_eq!(parse_payload(b"~a~~b~"), vec![b"a".to_vec(), b"b".to_vec()]);
    assert_eq!(parse_payload(b"~a~b~"), vec![b"a".to_vec()]);
    assert_eq!(parse_payload(b"~a~~b"), vec![b"a".to_vec()]);
    assert_eq!(parse_payload(b"a~b~"), Vec::<Vec<u8>>::new());
    assert_eq!(parse_payload(b"~"), Vec::<Vec<u8>>::new());
    assert_eq!(parse_payload(b"~~"), vec![Vec::<u8>::new()]);
    assert_eq!(parse_payload(b"~test~~~"), vec![b"test".to_vec(), Vec::new()]);
}

#[test]
fn overflow_field_with_tildes_round_trips() {
    for content in ["a~b", "~", "~~", "", "x~~y~", "~lead", "plain", "ä~ö~ü"] {
        let data = BlockData { unique_key: String::from("k"), content: String::from(content) };
        let bytes = data.clone().to_bytes();
        let parsed = BlockData::parse(parse_payload(&bytes)).unwrap();
        assert_eq!(parsed, data);
    }
    let bytes =
        BlockData { unique_key: String::from("k"), content: String::from("a~b") }.to_bytes();
    assert_eq!(bytes, b"~k~~a~~b~".to_vec());
}

#[test]
fn plain_field_with_tilde_is_cut() {
    let bytes = Punsh { address: String::from("a~b") }.to_bytes();
    assert_eq!(bytes, b"~a~b~".to_vec());
    assert_eq!(Punsh::parse(parse_payload(&bytes)).unwrap().address, "a");
}

#[test]
fn builder_writes_fields() {
    let bytes = PayloadBuilder::new()
        .add_u64(18446744073709551615)
        .add_i64(-9223372036854775808)
        .add_u16(65535)
        .add_string(String::from("s"))
        .add_string_overflow(String::from("o~v"))
        .build();
    assert_eq!(bytes, b"~18446744073709551615~~-9223372036854775808~~65535~~s~~o~~v~".to_vec());
    let fields = parse_payload(&bytes);
    assert_eq!(u64_field(&fields, 0), Ok(u64::MAX));
    assert_eq!(i64_field(&fields, 1), Ok(i64::MIN));
    assert_eq!(u16_field(&fields, 2), Ok(65535));
    assert_eq!(text_field(&fields, 3), Ok(String::from("s")));
    assert_eq!(overflow_field(&fields, 4), Ok(String::from("o~v")));
    assert_eq!(string_overflow(&fields, 4), b"o~v".to_vec());
    assert_eq!(string_overflow(&fields, 6), Vec::<u8>::new());
    assert_eq!(PayloadBuilder::new().build(), Vec::<u8>::new());
}

#[test]
fn field_errors() {
    let fields = parse_payload(b"~abc~~-1~~70000~~\xff~");
    assert_eq!(
        u64_field(&fields, 0),
        Err(PayloadError::MalformedField { index: 0, reason: FieldError::NotANumber })
    );
    assert_eq!(
        u64_field(&fields, 1),
        Err(PayloadError::MalformedField { index: 1, reason: FieldError::NotANumber })
    );
    assert_eq!(i64_field(&fields, 1), Ok(-1));
    assert_eq!(
        u16_field(&fields, 2),
        Err(PayloadError::MalformedField { index: 2, reason: FieldError::NotANumber })
    );
    assert_eq!(u64_field(&fields, 2), Ok(70000));
    assert_eq!(
        text_field(&fields, 3),
        Err(PayloadError::MalformedField { index: 3, reason: FieldError::NotUtf8 })
    );
    assert_eq!(
        overflow_field(&fields, 3),
        Err(PayloadError::MalformedField { index: 3, reason: FieldError::NotUtf8 })
    );
    assert_eq!(
        text_field(&fields, 4),
        Err(PayloadError::MalformedField { index: 4, reason: FieldError::Missing })
    );
    assert_eq!(
        i64_field(&fields, 9),
        Err(PayloadError::MalformedField { index: 9, reason: FieldError::Missing })
    );
    assert_eq!(overflow_field(&fields, 4), Ok(String::new()));
}

#[test]
fn decimal_numbers() {
    assert_eq!(u64_to_decimal(0), b"0".to_vec());
    assert_eq!(u64_to_decimal(10), b"10".to_vec());
    assert_eq!(u64_to_decimal(u64::MAX), b"18446744073709551615".to_vec());
    assert_eq!(i64_to_decimal(0), b"0".to_vec());
    assert_eq!(i64_to_decimal(-7), b"-7".to_vec());
    assert_eq!(i64_to_decimal(i64::MIN), b"-9223372036854775808".to_vec());
    assert_eq!(i64_to_decimal(i64::MAX), b"9223372036854775807".to_vec());
    assert_eq!(parse_u64(b"18446744073709551615"), Some(u64::MAX));
    assert_eq!(parse_u64(b"18446744073709551616"), None);
    assert_eq!(parse_u64(b"+007"), Some(7));
    assert_eq!(parse_u64(b""), None);
    assert_eq!(parse_u64(b"+"), None);
    assert_eq!(parse_u64(b"-1"), None);
    assert_eq!(parse_u64(b"1 "), None);
    assert_eq!(parse_u64(b"99999999999999999999999999"), None);
    assert_eq!(parse_u16(b"65535"), Some(65535));
    assert_eq!(parse_u16(b"65536"), None);
    assert_eq!(parse_i64(b"-9223372036854775808"), Some(i64::MIN));
    assert_eq!(parse_i64(b"-9223372036854775809"), None);
    assert_eq!(parse_i64(b"9223372036854775807"), Some(i64::MAX));
    assert_eq!(parse_i64(b"9223372036854775808"), None);
    assert_eq!(parse_i64(b"+12"), Some(12));
    assert_eq!(parse_i64(b"-0"), Some(0));
    assert_eq!(parse_i64(b"-"), None);
    assert_eq!(parse_i64(b"--1"), None);
    for n in [0u64, 9, 10, 99, 100, 12345, u64::MAX - 1] {
        assert_eq!(parse_u64(&u64_to_decimal(n)), Some(n));
    }
    for n in [0i64, -1, 1, -10, 4711, i64::MIN + 1, i64::MAX] {
        assert_eq!(parse_i64(&i64_to_decimal(n)), Some(n));
    }
}

#[test]
fn lists_of_texts() {
    let items = vec![String::from("a"), String::from(""), String::from("b,"), String::from(" c")];
    assert_eq!(join_strings(&items), "a, , b,,  c");
    assert_eq!(split_string("a, , b,,  c"), items);
    assert_eq!(join_strings(&Vec::new()), "");
    assert_eq!(split_string(""), vec![String::new()]);
    assert_eq!(split_string(","), vec![String::from(",")]);
    assert_eq!(split_string(", "), vec![String::new(), String::new()]);
    assert_eq!(split_string("ä, ö"), vec![String::from("ä"), String::from("ö")]);
}

#[test]
fn possible_block_round_trip() {
    let block = PossibleBlockPayload {
        index: 3,
        content: String::from("some content"),
        timestamp: -5,
        prev: "0".repeat(64),
        nonce: 370,
        hash: String::from("00e3f355bf601063"),
    };
    let bytes = PossibleBlockPayload {
        index: 3,
        content: String::from("some content"),
        timestamp: -5,
        prev: "0".repeat(64),
        nonce: 370,
        hash: String::from("00e3f355bf601063"),
    }
    .as_bytes();
    let mut expected = b"~3~~some content~~-5~~".to_vec();
    expected.extend_from_slice("0".repeat(64).as_bytes());
    expected.extend_from_slice(b"~~370~~00e3f355bf601063~");
    assert_eq!(bytes, expected);
    assert_eq!(PossibleBlockPayload::parse(parse_payload(&bytes)), Ok(block));
    assert_eq!(
        PossibleBlockPayload::parse(parse_payload(b"~3~~c~")),
        Err(PayloadError::MalformedField { index: 2, reason: FieldError::Missing })
    );
    assert_eq!(
        PossibleBlockPayload::parse(Vec::new()),
        Err(PayloadError::MalformedField { index: 0, reason: FieldError::Missing })
    );
    let empty = PossibleBlockPayload::new();
    assert_eq!(empty.index, 0);
    assert_eq!(empty.hash, "");
}

#[test]
fn get_peers_ack_round_trip() {
    for peers in [
        Vec::new(),
        vec![String::new()],
        vec![String::new(), String::new()],
        vec![String::from("1.2.3.4:5")],
        vec![String::from("1.2.3.4:5"), String::from("6.7.8.9:10")],
    ] {
        let bytes = GetPeersAck { peers: peers.clone() }.to_bytes();
        assert_eq!(GetPeersAck::parse(parse_payload(&bytes)).unwrap().peers, peers);
    }
    assert_eq!(GetPeersAck { peers: Vec::new() }.to_bytes(), Vec::<u8>::new());
    assert_eq!(GetPeersAck { peers: vec![String::new()] }.to_bytes(), b"~~".to_vec());
    assert_eq!(
        GetPeersAck { peers: vec![String::from("a"), String::from("b")] }.to_bytes(),
        b"~a, b~".to_vec()
    );
}

#[test]
fn get_blocks_ack_round_trip() {
    for blocks in [
        Vec::new(),
        vec![String::new()],
        vec![String::new(), String::new()],
        vec![String::from("0b7f")],
        vec![String::from("0b7f"), String::from("a~b"), String::from("c,"), String::from(" d")],
    ] {
        let bytes = GetBlocksAck { blocks: blocks.clone() }.to_bytes();
        assert_eq!(GetBlocksAck::parse(parse_payload(&bytes)).unwrap().blocks, blocks);
    }
    assert_eq!(GetBlocksAck { blocks: Vec::new() }.to_bytes(), Vec::<u8>::new());
    assert_eq!(GetBlocksAck { blocks: vec![String::new()] }.to_bytes(), b"~~".to_vec());
    assert_eq!(GetBlocksAck::parse(parse_payload(b"")).unwrap().blocks, Vec::<String>::new());
    assert_eq!(GetBlocksAck::parse(parse_payload(b"~~")).unwrap().blocks, vec![String::new()]);
    // a name that holds the separator is read as two
    let bytes = GetBlocksAck { blocks: vec![String::from("a, b")] }.to_bytes();
    assert_eq!(
        GetBlocksAck::parse(parse_payload(&bytes)).unwrap().blocks,
        vec![String::from("a"), String::from("b")]
    );
}

#[test]
fn block_payloads_round_trip() {
    let get_block = GetBlock { block: String::from("abcdef") };
    assert_eq!(get_block.clone().to_bytes(), b"~abcdef~".to_vec());
    assert_eq!(GetBlock::parse(parse_payload(b"~abcdef~")), Ok(get_block));

    let ack = GetBlockAck {
        filename: String::from("ff"),
        index: 1,
        timestamp: 2,
        nonce: 3,
        prev: String::from("ee"),
        hash: String::from("ff"),
        content: String::from("a~b"),
    };
    let bytes = ack.clone().to_bytes();
    assert_eq!(bytes, b"~ff~~1~~2~~3~~ee~~ff~~a~~b~".to_vec());
    assert_eq!(GetBlockAck::parse(parse_payload(&bytes)), Ok(ack));

    let gen = BlockGen {
        index: 9,
        timestamp: 1_500_000_000,
        sign_key: String::from("00"),
        prev: String::from("ab"),
        content: String::from("~~"),
    };
    let bytes = gen.clone().to_bytes();
    assert_eq!(bytes, b"~9~~1500000000~~00~~ab~~~~~~~".to_vec());
    assert_eq!(BlockGen::parse(parse_payload(&bytes)), Ok(gen));

    let val = HashVal {
        index: 9,
        timestamp: -1,
        nonce: u64::MAX,
        prev: String::from("ab"),
        content: String::new(),
    };
    let bytes = val.clone().to_bytes();
    assert_eq!(bytes, b"~9~~-1~~18446744073709551615~~ab~~~".to_vec());
    assert_eq!(HashVal::parse(parse_payload(&bytes)), Ok(val));

    let vote = HashValAck { index: 9, hash: String::from("0b7f") };
    let bytes = vote.clone().to_bytes();
    assert_eq!(bytes, b"~9~~0b7f~".to_vec());
    assert_eq!(HashValAck::parse(parse_payload(&bytes)), Ok(vote));
    assert_eq!(
        HashValAck::parse(parse_payload(b"~x~~0b7f~")),
        Err(PayloadError::MalformedField { index: 0, reason: FieldError::NotANumber })
    );

    let new_block = NewBlock { index: 0, prev: "0".repeat(64), content: String::from("c") };
    let bytes = new_block.clone().to_bytes();
    assert_eq!(NewBlock::parse(parse_payload(&bytes)), Ok(new_block));
}
