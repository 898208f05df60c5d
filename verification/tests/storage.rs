use carina::mining::BlockSeed;
use carina::storage::{zero_hash, BlockRecord, BlockStore, Invariant, StorageError};

fn mined(index: u64, content: &str, prev: &str) -> BlockRecord {
    let seed = BlockSeed {
        content: String::from(content),
        index,
        timestamp: 1_500_000_000 + index as i64,
        prev: String::from(prev),
    };
    let (nonce, hash) = seed.mine("0").unwrap();
    BlockRecord {
        index,
        content: String::from(content),
        timestamp: 1_500_000_000 + index as i64,
        nonce,
        prev: String::from(prev),
        hash,
    }
}

#[test]
fn zero_hash_is_sixty_four_zeros() {
    assert_eq!(zero_hash(), "0".repeat(64));
}

#[test]
fn block_file_has_six_lines() {
    let block = BlockRecord {
        index: 4,
        content: String::from("some ~ content"),
        timestamp: -3,
        nonce: 77,
        prev: String::from("aa"),
        hash: String::from("bb"),
    };
    let bytes = block.to_file_bytes();
    assert_eq!(bytes, b"4\nsome ~ content\n-3\n77\naa\nbb\n".to_vec());
    assert_eq!(BlockRecord::from_file_bytes(&bytes), Ok(block.duplicate()));
    // without the last line feed, and with more lines behind
    assert_eq!(
        BlockRecord::from_file_bytes(b"4\nsome ~ content\n-3\n77\naa\nbb"),
        Ok(block.duplicate())
    );
    assert_eq!(
        BlockRecord::from_file_bytes(b"4\nsome ~ content\n-3\n77\naa\nbb\nmore\n"),
        Ok(block)
    );
}

#[test]
fn malformed_block_files() {
    for bytes in [
        &b""[..],
        &b"4\nc\n-3\n77\naa"[..],
        &b"x\nc\n-3\n77\naa\nbb\n"[..],
        &b"4\nc\n3.5\n77\naa\nbb\n"[..],
        &b"4\nc\n-3\n-77\naa\nbb\n"[..],
        &b"4\n\xff\n-3\n77\naa\nbb\n"[..],
        &b"4\nc\n-3\n77\n\xff\nbb\n"[..],
        &b"4\nc\n-3\n77\naa\n\xff\n"[..],
    ] {
        assert_eq!(BlockRecord::from_file_bytes(bytes), Err(StorageError::MalformedBlock));
    }
}

#[test]
fn store_keeps_only_blocks_that_obey_the_rules() {
    let mut store = BlockStore::new();
    assert_eq!(store.count(), 0);
    assert_eq!(store.head(), None);
    assert!(!store.has("anything"));
    assert_eq!(store.read("anything"), Err(StorageError::NotFound));
    assert_eq!(store.list(), Vec::<String>::new());

    let first = mined(0, "first", &zero_hash());
    assert!(first.has_valid_hash());
    assert_eq!(store.check(&first), Ok(()));
    assert_eq!(store.write(first.duplicate()), Ok(()));
    assert_eq!(store.count(), 1);
    assert!(store.has(&first.hash));
    assert_eq!(store.read(&first.hash), Ok(first.duplicate()));
    assert_eq!(store.head(), Some(first.duplicate()));

    // writing the same block again changes nothing
    assert_eq!(store.write(first.duplicate()), Ok(()));
    assert_eq!(store.count(), 1);

    let second = mined(1, "second", &first.hash);
    assert!(second.follows(&first));
    assert!(!first.follows(&second));
    assert_eq!(store.write(second.duplicate()), Ok(()));
    assert_eq!(store.list(), vec![first.hash.clone(), second.hash.clone()]);
    assert_eq!(store.head(), Some(second.duplicate()));

    // a wrong hash
    let mut forged = mined(2, "third", &second.hash);
    forged.content = String::from("changed");
    assert!(!forged.has_valid_hash());
    assert_eq!(
        store.write(forged),
        Err(StorageError::InvariantViolation { which: Invariant::HashMismatch })
    );
    // a right hash, but no block before it
    let orphan = mined(5, "orphan", &second.hash);
    assert!(!store.links(&orphan));
    assert_eq!(
        store.write(orphan),
        Err(StorageError::InvariantViolation { which: Invariant::BrokenLink })
    );
    let stranger = mined(2, "stranger", &"1".repeat(64));
    assert_eq!(
        store.check(&stranger),
        Err(StorageError::InvariantViolation { which: Invariant::BrokenLink })
    );
    assert_eq!(store.count(), 2);

    // every kept block obeys both rules
    for name in store.list() {
        let block = store.read(&name).unwrap();
        assert!(block.has_valid_hash());
        assert!(store.links(&block));
        assert_eq!(block.hash, name);
    }
}

#[test]
fn block_with_a_line_feed_has_no_file_and_is_refused() {
    let mut store = BlockStore::new();
    let block = mined(0, "two\nlines", &zero_hash());
    assert!(block.has_valid_hash());
    assert!(!block.is_line_free());
    assert_eq!(store.check(&block), Err(StorageError::MalformedBlock));
    // its file would not read back as the block
    assert_ne!(BlockRecord::from_file_bytes(&block.to_file_bytes()), Ok(block.duplicate()));
    assert_eq!(store.write(block), Err(StorageError::MalformedBlock));
    assert_eq!(store.count(), 0);

    // the line feed is looked at before the hash
    let mut forged = mined(0, "first", &zero_hash());
    forged.prev = String::from("0\n0");
    assert_eq!(store.write(forged), Err(StorageError::MalformedBlock));

    // every kept block reads back from its file
    let first = mined(0, "first", &zero_hash());
    assert!(first.is_line_free());
    store.write(first).unwrap();
    for name in store.list() {
        let block = store.read(&name).unwrap();
        assert_eq!(BlockRecord::from_file_bytes(&block.to_file_bytes()), Ok(block));
    }
}
