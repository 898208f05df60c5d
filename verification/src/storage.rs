//! Finished blocks: the record of one block, its form in a file, the two
//! rules that every kept block obeys, and the set of kept blocks.
//!
//! The set lives in memory. Writing the files is left to the caller: under
//! the hash of a block as file name goes what `to_file_bytes` gives, and the
//! same under the name `last` for the head.

use crate::decimal::{
    decimal_text, i64_to_decimal, lemma_text_has_only, lemma_text_round_trip, parse_i64,
    parse_u64, spec_parse_i64, spec_parse_u64, u64_to_decimal,
};
use crate::mining::{spec_block_hash, BlockSeed};
use crate::text::{
    append_bytes, byte_views, bytes_of, contains_char, lemma_ascii_byte_of_encoding,
    lemma_split_first, split_bytes, split_on_byte, u8_to_string,
};
use vstd::prelude::*;
use vstd::utf8::{decode_utf8, encode_utf8, valid_utf8};

verus! {

/// The byte that ends a line of a block file.
pub const LINE_END: u8 = 10;

/// Which of the two rules on hashes a block breaks.
#[derive(Debug, PartialEq, Eq, Clone, Copy)]
pub enum Invariant {
    /// The hash of the block is not the hash of its other values.
    HashMismatch,
    /// The block neither starts a chain nor follows a kept block.
    BrokenLink,
}

/// Why the store gives or takes no block.
#[derive(Debug, PartialEq, Eq, Clone, Copy)]
pub enum StorageError {
    /// No block is kept under that name.
    NotFound,
    /// The bytes are not the file of a block, or the block has no file: a
    /// text of it holds a line feed.
    MalformedBlock,
    /// The block breaks a rule and is not kept.
    InvariantViolation { which: Invariant },
}

/// A finished block.
#[derive(Debug, PartialEq, Eq)]
pub struct BlockRecord {
    /// Index of the block.
    pub index: u64,
    /// Content of the block.
    pub content: String,
    /// Time at which the block was proposed.
    pub timestamp: i64,
    /// Nonce that gives the hash its required start.
    pub nonce: u64,
    /// Hash of the block before it; sixty-four zeros for a first block.
    pub prev: String,
    /// Hash of the block, and the name of its file.
    pub hash: String,
}

/// What a block record holds.
pub struct BlockRecordView {
    pub index: u64,
    pub content: Seq<char>,
    pub timestamp: i64,
    pub nonce: u64,
    pub prev: Seq<char>,
    pub hash: Seq<char>,
}

impl View for BlockRecord {
    type V = BlockRecordView;

    open spec fn view(&self) -> BlockRecordView {
        BlockRecordView {
            index: self.index,
            content: self.content@,
            timestamp: self.timestamp,
            nonce: self.nonce,
            prev: self.prev@,
            hash: self.hash@,
        }
    }
}

/// Sixty-four zeros: the previous hash of a block that starts a chain.
pub open spec fn spec_zero_hash() -> Seq<char> {
    Seq::new(64, |i: int| '0')
}

/// The first rule: the hash of a block is the SHA3-256 of its content, index,
/// timestamp, previous hash and nonce, written one after the other.
pub open spec fn hash_valid(block: BlockRecordView) -> bool {
    block.hash == spec_block_hash(
        block.content,
        block.index,
        block.timestamp,
        block.prev,
        block.nonce,
    )
}

/// `block` follows `before`: its index is one higher and its previous hash is
/// the hash of `before`.
pub open spec fn follows(block: BlockRecordView, before: BlockRecordView) -> bool {
    before.index + 1 == block.index && before.hash == block.prev
}

/// The second rule: a block starts a chain or follows one of `kept`.
pub open spec fn link_valid(block: BlockRecordView, kept: Seq<BlockRecordView>) -> bool {
    block.prev == spec_zero_hash() || exists|j: int|
        0 <= j < kept.len() && follows(block, #[trigger] kept[j])
}

/// A block is kept under this name: one of the blocks has it as its hash.
pub open spec fn kept_under(kept: Seq<BlockRecordView>, filename: Seq<char>) -> bool {
    exists|i: int| 0 <= i < kept.len() && (#[trigger] kept[i]).hash == filename
}

/// The block can be written as a file: none of its texts holds a line feed,
/// so each fills one line.
pub open spec fn line_free(block: BlockRecordView) -> bool {
    !block.content.contains('\n') && !block.prev.contains('\n') && !block.hash.contains('\n')
}

/// Whether a block may join the kept ones, and if not, why: it must have a
/// file, then its hash must be right, then it must start a chain or follow a
/// kept block.
pub open spec fn spec_verdict(block: BlockRecordView, kept: Seq<BlockRecordView>) -> Result<
    (),
    StorageError,
> {
    if !line_free(block) {
        Err(StorageError::MalformedBlock)
    } else if !hash_valid(block) {
        Err(StorageError::InvariantViolation { which: Invariant::HashMismatch })
    } else if !link_valid(block, kept) {
        Err(StorageError::InvariantViolation { which: Invariant::BrokenLink })
    } else {
        Ok(())
    }
}

/// One line of a block file.
pub open spec fn spec_line(inner: Seq<u8>) -> Seq<u8> {
    inner + seq![LINE_END]
}

/// The file of a block: six lines, each ended by a line feed — index,
/// content, timestamp, nonce, previous hash, hash.
pub open spec fn spec_file_bytes(block: BlockRecordView) -> Seq<u8> {
    spec_six_lines(
        decimal_text(block.index as int),
        encode_utf8(block.content),
        decimal_text(block.timestamp as int),
        decimal_text(block.nonce as int),
        encode_utf8(block.prev),
        encode_utf8(block.hash),
    )
}

/// The block that the lines of a file stand for, if they stand for one: six
/// lines at least, of which the first, third and fourth are numbers and the
/// others well-formed UTF-8. What follows the sixth line is not read.
pub open spec fn spec_record_of_lines(lines: Seq<Seq<u8>>) -> Option<BlockRecordView> {
    if lines.len() < 6 {
        None
    } else if spec_parse_u64(lines[0]) is None || spec_parse_i64(lines[2]) is None
        || spec_parse_u64(lines[3]) is None {
        None
    } else if !valid_utf8(lines[1]) || !valid_utf8(lines[4]) || !valid_utf8(lines[5]) {
        None
    } else {
        Some(
            BlockRecordView {
                index: spec_parse_u64(lines[0]).unwrap(),
                content: decode_utf8(lines[1]),
                timestamp: spec_parse_i64(lines[2]).unwrap(),
                nonce: spec_parse_u64(lines[3]).unwrap(),
                prev: decode_utf8(lines[4]),
                hash: decode_utf8(lines[5]),
            },
        )
    }
}

/// The block that the bytes of a file stand for, if they stand for one.
pub open spec fn spec_parse_file(bytes: Seq<u8>) -> Option<BlockRecordView> {
    spec_record_of_lines(split_bytes(bytes, LINE_END))
}

/// Six lines, each ended by a line feed, one after the other.
pub open spec fn spec_six_lines(
    l0: Seq<u8>,
    l1: Seq<u8>,
    l2: Seq<u8>,
    l3: Seq<u8>,
    l4: Seq<u8>,
    l5: Seq<u8>,
) -> Seq<u8> {
    spec_line(l0) + spec_line(l1) + spec_line(l2) + spec_line(l3) + spec_line(l4) + spec_line(l5)
}

/// Six lines without a line feed inside, written one after the other, are
/// found again by splitting at the line feeds; behind them stands one empty
/// stretch.
pub proof fn lemma_split_six_lines(
    l0: Seq<u8>,
    l1: Seq<u8>,
    l2: Seq<u8>,
    l3: Seq<u8>,
    l4: Seq<u8>,
    l5: Seq<u8>,
)
    requires
        !l0.contains(LINE_END),
        !l1.contains(LINE_END),
        !l2.contains(LINE_END),
        !l3.contains(LINE_END),
        !l4.contains(LINE_END),
        !l5.contains(LINE_END),
    ensures
        split_bytes(spec_six_lines(l0, l1, l2, l3, l4, l5), LINE_END) == seq![
            l0,
            l1,
            l2,
            l3,
            l4,
            l5,
            Seq::<u8>::empty(),
        ],
{
    let end = seq![LINE_END];
    let r5 = Seq::<u8>::empty();
    let r4 = l5 + end + r5;
    let r3 = l4 + end + r4;
    let r2 = l3 + end + r3;
    let r1 = l2 + end + r2;
    let r0 = l1 + end + r1;
    let all = l0 + end + r0;
    let s5 = split_bytes(r5, LINE_END);
    assert(s5 =~= seq![r5]);
    lemma_split_first(l5, LINE_END, r5);
    let s4 = split_bytes(r4, LINE_END);
    assert(s4 =~= seq![l5, r5]);
    lemma_split_first(l4, LINE_END, r4);
    let s3 = split_bytes(r3, LINE_END);
    assert(s3 =~= seq![l4, l5, r5]);
    lemma_split_first(l3, LINE_END, r3);
    let s2 = split_bytes(r2, LINE_END);
    assert(s2 =~= seq![l3, l4, l5, r5]);
    lemma_split_first(l2, LINE_END, r2);
    let s1 = split_bytes(r1, LINE_END);
    assert(s1 =~= seq![l2, l3, l4, l5, r5]);
    lemma_split_first(l1, LINE_END, r1);
    let s0 = split_bytes(r0, LINE_END);
    assert(s0 =~= seq![l1, l2, l3, l4, l5, r5]);
    lemma_split_first(l0, LINE_END, r0);
    assert(split_bytes(all, LINE_END) =~= seq![l0, l1, l2, l3, l4, l5, r5]);
    assert(r4 =~= spec_line(l5));
    assert(r3 =~= spec_line(l4) + spec_line(l5));
    assert(r2 =~= spec_line(l3) + spec_line(l4) + spec_line(l5));
    assert(r1 =~= spec_line(l2) + spec_line(l3) + spec_line(l4) + spec_line(l5));
    assert(r0 =~= spec_line(l1) + spec_line(l2) + spec_line(l3) + spec_line(l4) + spec_line(l5));
    assert(all =~= spec_six_lines(l0, l1, l2, l3, l4, l5));
}

/// The file of a block whose content, previous hash and hash hold no line
/// feed reads back as that block.
pub proof fn lemma_file_round_trip(block: BlockRecordView)
    requires
        line_free(block),
    ensures
        spec_parse_file(spec_file_bytes(block)) == Some(block),
{
    let l0 = decimal_text(block.index as int);
    let l1 = encode_utf8(block.content);
    let l2 = decimal_text(block.timestamp as int);
    let l3 = decimal_text(block.nonce as int);
    let l4 = encode_utf8(block.prev);
    let l5 = encode_utf8(block.hash);
    lemma_text_has_only(block.index as int, LINE_END);
    lemma_text_has_only(block.timestamp as int, LINE_END);
    lemma_text_has_only(block.nonce as int, LINE_END);
    lemma_ascii_byte_of_encoding(block.content, LINE_END);
    lemma_ascii_byte_of_encoding(block.prev, LINE_END);
    lemma_ascii_byte_of_encoding(block.hash, LINE_END);
    lemma_split_six_lines(l0, l1, l2, l3, l4, l5);
    let lines = split_bytes(spec_file_bytes(block), LINE_END);
    assert(lines.len() == 7);
    assert(lines[0] == l0 && lines[1] == l1 && lines[2] == l2);
    assert(lines[3] == l3 && lines[4] == l4 && lines[5] == l5);
    lemma_text_round_trip(block.index as int, false);
    lemma_text_round_trip(block.timestamp as int, true);
    lemma_text_round_trip(block.nonce as int, false);
    vstd::utf8::encode_utf8_valid_utf8(block.content);
    vstd::utf8::encode_utf8_decode_utf8(block.content);
    vstd::utf8::encode_utf8_valid_utf8(block.prev);
    vstd::utf8::encode_utf8_decode_utf8(block.prev);
    vstd::utf8::encode_utf8_valid_utf8(block.hash);
    vstd::utf8::encode_utf8_decode_utf8(block.hash);
}

/// Sixty-four zeros, as a string.
pub fn zero_hash() -> (out: String)
    ensures
        out@ == spec_zero_hash(),
{
    let mut digits: Vec<u8> = Vec::new();
    let mut i: usize = 0;
    while i < 64
        invariant
            i <= 64,
            digits.len() == i,
            forall|k: int| 0 <= k < i ==> #[trigger] digits@[k] == 48,
        decreases 64 - i,
    {
        digits.push(48u8);
        i += 1;
    }
    let out = crate::text::ascii_to_string(digits);
    assert(out@ =~= spec_zero_hash());
    out
}

impl BlockRecord {
    /// A copy of the block.
    pub fn duplicate(&self) -> (out: Self)
        ensures
            out@ == self@,
    {
        BlockRecord {
            index: self.index,
            content: self.content.clone(),
            timestamp: self.timestamp,
            nonce: self.nonce,
            prev: self.prev.clone(),
            hash: self.hash.clone(),
        }
    }

    /// Whether the block obeys the first rule: its hash is recomputed and compared.
    pub fn has_valid_hash(&self) -> (out: bool)
        ensures
            out == hash_valid(self@),
    {
        let seed = BlockSeed {
            content: self.content.clone(),
            index: self.index,
            timestamp: self.timestamp,
            prev: self.prev.clone(),
        };
        let expected = seed.hash(self.nonce);
        expected == self.hash
    }

    /// Whether the block can be written as a file: none of its texts holds a
    /// line feed.
    pub fn is_line_free(&self) -> (out: bool)
        ensures
            out == line_free(self@),
    {
        !contains_char(self.content.as_str(), '\n') && !contains_char(self.prev.as_str(), '\n')
            && !contains_char(self.hash.as_str(), '\n')
    }

    /// Whether the block follows `before`.
    pub fn follows(&self, before: &BlockRecord) -> (out: bool)
        ensures
            out == follows(self@, before@),
    {
        before.index < u64::MAX && before.index + 1 == self.index && before.hash == self.prev
    }

    /// The bytes of the file of the block.
    pub fn to_file_bytes(&self) -> (out: Vec<u8>)
        ensures
            out@ == spec_file_bytes(self@),
    {
        let mut out: Vec<u8> = Vec::new();
        let index = u64_to_decimal(self.index);
        append_bytes(&mut out, index.as_slice());
        out.push(LINE_END);
        let content = bytes_of(self.content.as_str());
        append_bytes(&mut out, content.as_slice());
        out.push(LINE_END);
        let timestamp = i64_to_decimal(self.timestamp);
        append_bytes(&mut out, timestamp.as_slice());
        out.push(LINE_END);
        let nonce = u64_to_decimal(self.nonce);
        append_bytes(&mut out, nonce.as_slice());
        out.push(LINE_END);
        let prev = bytes_of(self.prev.as_str());
        append_bytes(&mut out, prev.as_slice());
        out.push(LINE_END);
        let hash = bytes_of(self.hash.as_str());
        append_bytes(&mut out, hash.as_slice());
        out.push(LINE_END);
        assert(out@ =~= spec_file_bytes(self@));
        out
    }

    /// Reads a block from the bytes of its file.
    pub fn from_file_bytes(bytes: &[u8]) -> (out: Result<Self, StorageError>)
        ensures
            match out {
                Ok(block) => spec_parse_file(bytes@) == Some(block@),
                Err(e) => e == StorageError::MalformedBlock && spec_parse_file(bytes@) is None,
            },
    {
        let lines = split_on_byte(bytes, LINE_END);
        if lines.len() < 6 {
            return Err(StorageError::MalformedBlock);
        }
        let ghost views = byte_views(lines@);
        assert(views[0] == lines[0]@ && views[1] == lines[1]@ && views[2] == lines[2]@);
        assert(views[3] == lines[3]@ && views[4] == lines[4]@ && views[5] == lines[5]@);
        let index = match parse_u64(lines[0].as_slice()) {
            Some(v) => v,
            None => { return Err(StorageError::MalformedBlock); },
        };
        let timestamp = match parse_i64(lines[2].as_slice()) {
            Some(v) => v,
            None => { return Err(StorageError::MalformedBlock); },
        };
        let nonce = match parse_u64(lines[3].as_slice()) {
            Some(v) => v,
            None => { return Err(StorageError::MalformedBlock); },
        };
        let content = match u8_to_string(lines[1].as_slice()) {
            Some(v) => v,
            None => { return Err(StorageError::MalformedBlock); },
        };
        let prev = match u8_to_string(lines[4].as_slice()) {
            Some(v) => v,
            None => { return Err(StorageError::MalformedBlock); },
        };
        let hash = match u8_to_string(lines[5].as_slice()) {
            Some(v) => v,
            None => { return Err(StorageError::MalformedBlock); },
        };
        Ok(BlockRecord { index, content, timestamp, nonce, prev, hash })
    }
}

/// What each of some block records holds.
pub open spec fn record_views(records: Seq<BlockRecord>) -> Seq<BlockRecordView> {
    Seq::new(records.len(), |i: int| records[i]@)
}

/// Every block of `kept` has a file and obeys both rules, the second with
/// respect to the blocks kept before it, and no two blocks have the same hash.
pub open spec fn chain_valid(kept: Seq<BlockRecordView>) -> bool {
    &&& forall|i: int| 0 <= i < kept.len() ==> line_free(#[trigger] kept[i])
    &&& forall|i: int| 0 <= i < kept.len() ==> hash_valid(#[trigger] kept[i])
    &&& forall|i: int| 0 <= i < kept.len() ==> link_valid(#[trigger] kept[i], kept.take(i))
    &&& forall|i: int, j: int|
        0 <= i < j < kept.len() ==> (#[trigger] kept[i]).hash != (#[trigger] kept[j]).hash
}

/// Every kept block obeys both rules with respect to the whole set: a block
/// that follows an earlier one also follows one of the set. And every kept
/// block reads back from its file.
pub proof fn lemma_kept_blocks_obey(kept: Seq<BlockRecordView>, i: int)
    requires
        chain_valid(kept),
        0 <= i < kept.len(),
    ensures
        hash_valid(kept[i]),
        link_valid(kept[i], kept),
        spec_parse_file(spec_file_bytes(kept[i])) == Some(kept[i]),
{
    lemma_file_round_trip(kept[i]);
    if kept[i].prev != spec_zero_hash() {
        let j = choose|j: int|
            0 <= j < kept.take(i).len() && follows(kept[i], #[trigger] kept.take(i)[j]);
        assert(kept.take(i)[j] == kept[j]);
        assert(follows(kept[i], kept[j]));
    }
}

/// The blocks that are kept, in the order in which they were written. The
/// last one is the head.
pub struct BlockStore {
    records: Vec<BlockRecord>,
}

impl View for BlockStore {
    type V = Seq<BlockRecordView>;

    closed spec fn view(&self) -> Seq<BlockRecordView> {
        record_views(self.records@)
    }
}

impl BlockStore {
    /// What holds of every store: all its blocks have files and obey both rules.
    pub open spec fn wf(&self) -> bool {
        chain_valid(self@)
    }

    /// A store without blocks.
    pub fn new() -> (out: Self)
        ensures
            out@ == Seq::<BlockRecordView>::empty(),
            out.wf(),
    {
        let out = BlockStore { records: Vec::new() };
        assert(out@ =~= Seq::<BlockRecordView>::empty());
        out
    }

    /// Where the block with the given name stands, if it is kept.
    fn find(&self, filename: &str) -> (out: Option<usize>)
        ensures
            match out {
                Some(i) => i < self@.len() && self@[i as int].hash == filename@,
                None => forall|i: int| 0 <= i < self@.len() ==> (#[trigger] self@[i]).hash
                    != filename@,
            },
    {
        let wanted: String = filename.to_owned();
        let mut i: usize = 0;
        while i < self.records.len()
            invariant
                i <= self.records.len(),
                wanted@ == filename@,
                forall|k: int| 0 <= k < i ==> (#[trigger] self@[k]).hash != filename@,
            decreases self.records.len() - i,
        {
            assert(self@[i as int] == self.records[i as int]@);
            if self.records[i].hash == wanted {
                return Some(i);
            }
            i += 1;
        }
        None
    }

    /// Whether a block is kept under `filename`.
    pub fn has(&self, filename: &str) -> (out: bool)
        ensures
            out == kept_under(self@, filename@),
    {
        self.find(filename).is_some()
    }

    /// The block kept under `filename`.
    pub fn read(&self, filename: &str) -> (out: Result<BlockRecord, StorageError>)
        ensures
            match out {
                Ok(block) => exists|i: int|
                    0 <= i < self@.len() && #[trigger] self@[i] == block@ && block@.hash
                        == filename@,
                Err(e) => e == StorageError::NotFound && !kept_under(self@, filename@),
            },
    {
        match self.find(filename) {
            Some(i) => {
                assert(self@[i as int] == self.records[i as int]@);
                Ok(self.records[i].duplicate())
            },
            None => Err(StorageError::NotFound),
        }
    }

    /// How many blocks are kept.
    pub fn count(&self) -> (out: usize)
        ensures
            out == self@.len(),
    {
        self.records.len()
    }

    /// The head: the block that was written last.
    pub fn head(&self) -> (out: Option<BlockRecord>)
        ensures
            match out {
                Some(block) => self@.len() > 0 && block@ == self@.last(),
                None => self@.len() == 0,
            },
    {
        if self.records.len() == 0 {
            None
        } else {
            let i = self.records.len() - 1;
            assert(self@[i as int] == self.records[i as int]@);
            Some(self.records[i].duplicate())
        }
    }

    /// The names of the kept blocks, in the order in which they were written.
    pub fn list(&self) -> (out: Vec<String>)
        ensures
            out.len() == self@.len(),
            forall|i: int| 0 <= i < out.len() ==> (#[trigger] out[i])@ == self@[i].hash,
    {
        let mut out: Vec<String> = Vec::new();
        let mut i: usize = 0;
        while i < self.records.len()
            invariant
                i <= self.records.len(),
                out.len() == i,
                forall|k: int| 0 <= k < i ==> (#[trigger] out[k])@ == self@[k].hash,
            decreases self.records.len() - i,
        {
            assert(self@[i as int] == self.records[i as int]@);
            out.push(self.records[i].hash.clone());
            i += 1;
        }
        out
    }

    /// Whether `block` starts a chain or follows a kept block.
    pub fn links(&self, block: &BlockRecord) -> (out: bool)
        ensures
            out == link_valid(block@, self@),
    {
        let zero = zero_hash();
        if block.prev == zero {
            return true;
        }
        let mut i: usize = 0;
        while i < self.records.len()
            invariant
                i <= self.records.len(),
                forall|k: int| 0 <= k < i ==> !follows(block@, #[trigger] self@[k]),
            decreases self.records.len() - i,
        {
            assert(self@[i as int] == self.records[i as int]@);
            if block.follows(&self.records[i]) {
                return true;
            }
            i += 1;
        }
        false
    }

    /// Whether `block` may join the kept blocks, and if not, why. A block
    /// with a line feed in one of its texts is refused first, then one with
    /// a wrong hash, then one that links to nothing.
    pub fn check(&self, block: &BlockRecord) -> (out: Result<(), StorageError>)
        ensures
            out == spec_verdict(block@, self@),
    {
        if !block.is_line_free() {
            Err(StorageError::MalformedBlock)
        } else if !block.has_valid_hash() {
            Err(StorageError::InvariantViolation { which: Invariant::HashMismatch })
        } else if !self.links(block) {
            Err(StorageError::InvariantViolation { which: Invariant::BrokenLink })
        } else {
            Ok(())
        }
    }

    /// Keeps `record` as the new head if it may join the kept blocks. A block
    /// whose hash is already kept changes nothing. A block that may not join
    /// is refused, with the reason, and the store stays as it was.
    pub fn write(&mut self, record: BlockRecord) -> (out: Result<(), StorageError>)
        requires
            old(self).wf(),
        ensures
            final(self).wf(),
            out == spec_verdict(record@, old(self)@),
            final(self)@ == (if out is Ok && !kept_under(old(self)@, record@.hash) {
                old(self)@.push(record@)
            } else {
                old(self)@
            }),
    {
        match self.check(&record) {
            Err(e) => Err(e),
            Ok(()) => {
                if self.has(record.hash.as_str()) {
                    return Ok(());
                }
                let ghost before = self@;
                let ghost added = record@;
                self.records.push(record);
                proof {
                    let after = self@;
                    assert(after =~= before.push(added));
                    assert forall|i: int| 0 <= i < after.len() implies link_valid(
                        #[trigger] after[i],
                        after.take(i),
                    ) by {
                        if i < before.len() {
                            assert(after.take(i) =~= before.take(i));
                        } else {
                            assert(after.take(i) =~= before);
                        }
                    }
                }
                Ok(())
            },
        }
    }
}

} // verus!
