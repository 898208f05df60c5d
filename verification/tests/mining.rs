use carina::mining::{reachable, BlockSeed, MiningError, SearchStep};
use carina::text::{bytes_of, chars_of, starts_with, u8_to_string};
use sha3::{Digest, Sha3_256};

fn reference_hash(text: &str) -> String {
    let digest = Sha3_256::digest(text.as_bytes());
    digest.iter().map(|b| format!("{:02x}", b)).collect()
}

fn seed_x() -> BlockSeed {
    BlockSeed { content: String::from("x"), index: 0, timestamp: 0, prev: "0".repeat(64) }
}

#[test]
fn hash_is_sha3_256_of_the_candidate_text() {
    let seed =
        BlockSeed { content: String::new(), index: 1, timestamp: 2, prev: String::new() };
    assert_eq!(seed.seed_bytes(), b"12".to_vec());
    assert_eq!(
        seed.hash(3),
        "a03ab19b866fc585b5cb1812a2f63ca861e7e7643ee5d43fd7106b623725fd67"
    );
    let seed = BlockSeed {
        content: String::from("content ä"),
        index: 17,
        timestamp: -42,
        prev: String::from("abc"),
    };
    assert_eq!(seed.hash(99), reference_hash("content ä17-42abc99"));
    assert_ne!(seed.hash(99), seed.hash(100));
}

#[test]
fn pow_scenario() {
    let seed = seed_x();
    let (nonce, hash) = seed.mine("0").unwrap();
    assert_eq!(nonce, 6);
    assert_eq!(hash, "0b7f2d8b7b0d8abd62e8245684fbe6ce8d367e20fd56a68e23f7c6d260a44a29");
    assert!(hash.starts_with("0"));
    for smaller in 0..nonce {
        let text = format!("x00{}{}", "0".repeat(64), smaller);
        assert!(!reference_hash(&text).starts_with("0"));
        assert_eq!(seed.hash(smaller), reference_hash(&text));
    }
}

#[test]
fn mine_with_longer_prefix() {
    let (nonce, hash) = seed_x().mine("00").unwrap();
    assert_eq!(nonce, 370);
    assert_eq!(hash, "00e3f355bf601063e31c0eb6ef4e7ad6faa488f56c4ea769d7e0739fa15a98fe");
}

#[test]
fn empty_prefix_is_met_at_once() {
    let (nonce, hash) = seed_x().mine("").unwrap();
    assert_eq!(nonce, 0);
    assert_eq!(hash, seed_x().hash(0));
}

#[test]
fn search_in_stretches() {
    let seed = seed_x();
    assert_eq!(seed.search("00", 0, 100), SearchStep::Continue { next: 100 });
    assert_eq!(seed.search("00", 100, 0), SearchStep::Continue { next: 100 });
    assert_eq!(
        seed.search("00", 300, 100),
        SearchStep::Found {
            nonce: 370,
            hash: String::from(
                "00e3f355bf601063e31c0eb6ef4e7ad6faa488f56c4ea769d7e0739fa15a98fe"
            )
        }
    );
    // a start that no hash has: the last stretch ends the search
    assert_eq!(seed.search("zz", u64::MAX - 2, 3), SearchStep::Exhausted);
    assert_eq!(seed.search("zz", u64::MAX - 2, 2), SearchStep::Continue { next: u64::MAX });
    assert_eq!(seed.search("zz", u64::MAX, 1), SearchStep::Exhausted);
}

#[test]
fn a_start_that_no_hash_has_exhausts_at_once() {
    let seed = seed_x();
    assert_eq!(seed.mine("zz"), Err(MiningError::NonceExhausted));
    assert_eq!(seed.mine("0B"), Err(MiningError::NonceExhausted));
    assert_eq!(seed.mine(&"0".repeat(65)), Err(MiningError::NonceExhausted));
    assert!(reachable(""));
    assert!(reachable("0123456789abcdef"));
    assert!(reachable(&"f".repeat(64)));
    assert!(!reachable(&"f".repeat(65)));
    assert!(!reachable("g"));
    assert!(!reachable("A"));
    assert!(!reachable("/"));
    assert!(!reachable(":"));
    assert!(!reachable("`"));
}

#[test]
fn text_helpers() {
    assert_eq!(chars_of("aä€"), vec!['a', 'ä', '€']);
    assert_eq!(bytes_of("aä"), vec![0x61, 0xc3, 0xa4]);
    assert!(starts_with("abc", ""));
    assert!(starts_with("abc", "ab"));
    assert!(starts_with("abc", "abc"));
    assert!(!starts_with("abc", "abcd"));
    assert!(!starts_with("abc", "b"));
    assert!(!starts_with("", "a"));
    assert!(starts_with("äb", "ä"));
    assert_eq!(u8_to_string(&[0x61, 0xc3, 0xa4]), Some(String::from("aä")));
    assert_eq!(u8_to_string(&[0xc3]), None);
    assert_eq!(u8_to_string(&[0xed, 0xa0, 0x80]), None);
    assert_eq!(u8_to_string(&[]), Some(String::new()));
}
