//! Proof of work: the search for the smallest nonce whose block hash begins
//! with the required characters.

use crate::decimal::{decimal_text, i64_to_decimal, u64_to_decimal};
use crate::digest::{is_digest_text, is_lower_hex, sha3_256_hex, spec_sha3_256_hex};
use crate::text::{append_bytes, bytes_of, chars_of, starts_with};
use vstd::prelude::*;
use vstd::utf8::encode_utf8;

verus! {

/// The most nonces that are tried in one stretch, between two looks at
/// whether the search should stop.
pub const SEARCH_STRETCH: u64 = 4096;

/// Why a search gave no nonce.
#[derive(Debug, PartialEq, Eq, Clone, Copy)]
pub enum MiningError {
    /// No 64-bit nonce gives a hash with the required start.
    NonceExhausted,
}

/// How a bounded stretch of the search ended.
#[derive(Debug, PartialEq, Eq, Clone)]
pub enum SearchStep {
    /// `nonce` gives `hash`, which has the required start.
    Found { nonce: u64, hash: String },
    /// No nonce of the stretch fits; the search goes on at `next`.
    Continue { next: u64 },
    /// No nonce from the start of the stretch up to the largest one fits.
    Exhausted,
}

/// What a block is made of before its nonce is known.
#[derive(Debug, Clone)]
pub struct BlockSeed {
    /// Content of the block.
    pub content: String,
    /// Index of the block.
    pub index: u64,
    /// Time at which the block was proposed.
    pub timestamp: i64,
    /// Hash of the block before it.
    pub prev: String,
}

/// The part of the hashed text that does not depend on the nonce: content,
/// index, timestamp, previous hash.
pub open spec fn spec_seed_bytes(
    content: Seq<char>,
    index: u64,
    timestamp: i64,
    prev: Seq<char>,
) -> Seq<u8> {
    encode_utf8(content) + decimal_text(index as int) + decimal_text(timestamp as int)
        + encode_utf8(prev)
}

/// The text that is hashed for a block: its seed, then the nonce in decimal.
pub open spec fn spec_candidate(
    content: Seq<char>,
    index: u64,
    timestamp: i64,
    prev: Seq<char>,
    nonce: u64,
) -> Seq<u8> {
    spec_seed_bytes(content, index, timestamp, prev) + decimal_text(nonce as int)
}

/// The hash of a block: SHA3-256 of its candidate text, in hexadecimal.
pub open spec fn spec_block_hash(
    content: Seq<char>,
    index: u64,
    timestamp: i64,
    prev: Seq<char>,
    nonce: u64,
) -> Seq<char> {
    spec_sha3_256_hex(spec_candidate(content, index, timestamp, prev, nonce))
}

/// Some hash may begin with these characters: there are at most sixty-four
/// of them, all lower-case hexadecimal digits.
pub open spec fn spec_reachable(sign_key: Seq<char>) -> bool {
    &&& sign_key.len() <= 64
    &&& forall|i: int| 0 <= i < sign_key.len() ==> is_lower_hex(#[trigger] sign_key[i])
}

/// What begins a hash may begin some hash.
pub proof fn lemma_prefix_is_reachable(sign_key: Seq<char>, hash: Seq<char>)
    requires
        is_digest_text(hash),
        sign_key.is_prefix_of(hash),
    ensures
        spec_reachable(sign_key),
{
    assert forall|i: int| 0 <= i < sign_key.len() implies is_lower_hex(#[trigger] sign_key[i]) by {
        assert(hash.subrange(0, sign_key.len() as int)[i] == hash[i]);
    }
}

/// Whether some hash may begin with these characters. Where none may, a
/// search would run through all nonces in vain.
pub fn reachable(sign_key: &str) -> (out: bool)
    ensures
        out == spec_reachable(sign_key@),
{
    let chars = chars_of(sign_key);
    if chars.len() > 64 {
        return false;
    }
    let mut i: usize = 0;
    while i < chars.len()
        invariant
            i <= chars.len(),
            chars@ == sign_key@,
            forall|k: int| 0 <= k < i ==> is_lower_hex(#[trigger] chars@[k]),
        decreases chars.len() - i,
    {
        let c: char = chars[i];
        if !((c >= '0' && c <= '9') || (c >= 'a' && c <= 'f')) {
            assert(!is_lower_hex(sign_key@[i as int]));
            return false;
        }
        i += 1;
    }
    true
}

impl BlockSeed {
    /// The hash that this seed gets with `nonce`.
    pub open spec fn hash_with(&self, nonce: u64) -> Seq<char> {
        spec_block_hash(self.content@, self.index, self.timestamp, self.prev@, nonce)
    }

    /// `nonce` solves the seed for `sign_key`: the characters are such as may
    /// begin a hash, and the hash that the seed gets with `nonce` begins with
    /// them.
    pub open spec fn solved_by(&self, sign_key: Seq<char>, nonce: u64) -> bool {
        spec_reachable(sign_key) && sign_key.is_prefix_of(self.hash_with(nonce))
    }

    /// No nonce in `from..to` solves the seed for `sign_key`.
    pub open spec fn none_solves(&self, sign_key: Seq<char>, from: int, to: int) -> bool {
        forall|n: u64| from <= n < to ==> !#[trigger] self.solved_by(sign_key, n)
    }

    /// The bytes of the seed, to which a nonce is appended before hashing.
    pub fn seed_bytes(&self) -> (out: Vec<u8>)
        ensures
            out@ == spec_seed_bytes(self.content@, self.index, self.timestamp, self.prev@),
    {
        let mut out = bytes_of(self.content.as_str());
        let index = u64_to_decimal(self.index);
        append_bytes(&mut out, index.as_slice());
        let timestamp = i64_to_decimal(self.timestamp);
        append_bytes(&mut out, timestamp.as_slice());
        let prev = bytes_of(self.prev.as_str());
        append_bytes(&mut out, prev.as_slice());
        out
    }

    /// The hash of the block that this seed and `nonce` make.
    pub fn hash(&self, nonce: u64) -> (out: String)
        ensures
            out@ == self.hash_with(nonce),
            is_digest_text(out@),
    {
        let seed = self.seed_bytes();
        hash_of_seed(seed.as_slice(), nonce)
    }

    /// Tries the nonces `start`, `start + 1`, ... in turn, at most `steps` of
    /// them, and stops at the first that solves the seed for `sign_key`.
    pub fn search(&self, sign_key: &str, start: u64, steps: u64) -> (out: SearchStep)
        ensures
            match out {
                SearchStep::Found { nonce, hash } => {
                    &&& start <= nonce < start + steps
                    &&& hash@ == self.hash_with(nonce)
                    &&& self.solved_by(sign_key@, nonce)
                    &&& self.none_solves(sign_key@, start as int, nonce as int)
                },
                SearchStep::Continue { next } => {
                    &&& next == start + steps
                    &&& self.none_solves(sign_key@, start as int, next as int)
                },
                SearchStep::Exhausted => {
                    &&& start + steps > u64::MAX
                    &&& self.none_solves(sign_key@, start as int, u64::MAX + 1)
                },
            },
    {
        let seed = self.seed_bytes();
        let mut nonce: u64 = start;
        let mut done: u64 = 0;
        while done < steps
            invariant
                done <= steps,
                nonce == start + done,
                seed@ == spec_seed_bytes(self.content@, self.index, self.timestamp, self.prev@),
                self.none_solves(sign_key@, start as int, nonce as int),
            decreases steps - done,
        {
            let hash = hash_of_seed(seed.as_slice(), nonce);
            if starts_with(hash.as_str(), sign_key) {
                proof {
                    lemma_prefix_is_reachable(sign_key@, hash@);
                }
                return SearchStep::Found { nonce, hash };
            }
            if nonce == u64::MAX {
                return SearchStep::Exhausted;
            }
            nonce += 1;
            done += 1;
        }
        SearchStep::Continue { next: nonce }
    }

    /// Finds the smallest nonce that solves the seed for `sign_key`, with its
    /// hash. Fails only when no 64-bit nonce does; where the characters of
    /// `sign_key` can begin no hash at all, it fails without a search.
    pub fn mine(&self, sign_key: &str) -> (out: Result<(u64, String), MiningError>)
        ensures
            match out {
                Ok((nonce, hash)) => {
                    &&& hash@ == self.hash_with(nonce)
                    &&& self.solved_by(sign_key@, nonce)
                    &&& self.none_solves(sign_key@, 0, nonce as int)
                },
                Err(e) => {
                    &&& e == MiningError::NonceExhausted
                    &&& self.none_solves(sign_key@, 0, u64::MAX + 1)
                },
            },
    {
        if !reachable(sign_key) {
            return Err(MiningError::NonceExhausted);
        }
        let mut start: u64 = 0;
        loop
            invariant
                self.none_solves(sign_key@, 0, start as int),
            decreases u64::MAX - start,
        {
            let steps: u64 = if u64::MAX - start >= SEARCH_STRETCH {
                SEARCH_STRETCH
            } else {
                u64::MAX - start + 1
            };
            match self.search(sign_key, start, steps) {
                SearchStep::Found { nonce, hash } => {
                    return Ok((nonce, hash));
                },
                SearchStep::Continue { next } => {
                    start = next;
                },
                SearchStep::Exhausted => {
                    return Err(MiningError::NonceExhausted);
                },
            }
        }
    }
}

/// The hash of the candidate text made of `seed` and `nonce`.
fn hash_of_seed(seed: &[u8], nonce: u64) -> (out: String)
    ensures
        out@ == spec_sha3_256_hex(seed@ + decimal_text(nonce as int)),
        is_digest_text(out@),
{
    let mut candidate: Vec<u8> = Vec::new();
    append_bytes(&mut candidate, seed);
    let digits = u64_to_decimal(nonce);
    append_bytes(&mut candidate, digits.as_slice());
    assert(candidate@ =~= seed@ + decimal_text(nonce as int));
    sha3_256_hex(candidate.as_slice())
}

} // verus!
