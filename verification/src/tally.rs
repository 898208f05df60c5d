//! The votes of a round: how many peers reported which hash for which block,
//! and which hash leads.

use crate::text::chars_of;
use vstd::prelude::*;

verus! {

/// The order of a dictionary on texts: the first character in which two
/// texts differ decides, and a text comes before every longer text that it
/// begins.
pub open spec fn lex_less(a: Seq<char>, b: Seq<char>) -> bool
    decreases a.len(),
{
    if b.len() == 0 {
        false
    } else if a.len() == 0 {
        true
    } else if a[0] != b[0] {
        a[0] < b[0]
    } else {
        lex_less(a.drop_first(), b.drop_first())
    }
}

/// The order is transitive.
pub proof fn lemma_lex_transitive(a: Seq<char>, b: Seq<char>, c: Seq<char>)
    requires
        lex_less(a, b),
        lex_less(b, c),
    ensures
        lex_less(a, c),
    decreases a.len(),
{
    if a.len() > 0 && a[0] == b[0] && b[0] == c[0] {
        lemma_lex_transitive(a.drop_first(), b.drop_first(), c.drop_first());
    }
}

/// No text comes before itself, and of two different texts one comes before
/// the other.
pub proof fn lemma_lex_total(a: Seq<char>, b: Seq<char>)
    ensures
        !lex_less(a, a),
        a != b ==> lex_less(a, b) || lex_less(b, a),
        !(lex_less(a, b) && lex_less(b, a)),
    decreases a.len(),
{
    if a.len() > 0 {
        lemma_lex_total(a.drop_first(), a.drop_first());
        if b.len() > 0 && a[0] == b[0] {
            lemma_lex_total(a.drop_first(), b.drop_first());
            if a.drop_first() == b.drop_first() {
                assert(a =~= seq![a[0]] + a.drop_first());
                assert(b =~= seq![b[0]] + b.drop_first());
            }
        }
    } else if b.len() == 0 {
        assert(a =~= b);
    }
}

/// Whether `a` comes before `b` in the order of a dictionary.
pub fn less_than(a: &str, b: &str) -> (out: bool)
    ensures
        out == lex_less(a@, b@),
{
    let left = chars_of(a);
    let right = chars_of(b);
    let mut i: usize = 0;
    assert(a@.skip(0) =~= a@);
    assert(b@.skip(0) =~= b@);
    loop
        invariant
            i <= left.len(),
            i <= right.len(),
            left@ == a@,
            right@ == b@,
            lex_less(a@, b@) == lex_less(a@.skip(i as int), b@.skip(i as int)),
        decreases left.len() - i,
    {
        let ghost x = a@.skip(i as int);
        let ghost y = b@.skip(i as int);
        if i >= right.len() {
            return false;
        }
        if i >= left.len() {
            return true;
        }
        assert(x[0] == left@[i as int] && y[0] == right@[i as int]);
        if left[i] != right[i] {
            return left[i] < right[i];
        }
        assert(x.drop_first() =~= a@.skip(i + 1));
        assert(y.drop_first() =~= b@.skip(i + 1));
        i += 1;
    }
}

/// The votes for one hash of one block.
#[derive(Debug)]
pub struct VoteEntry {
    /// Index of the block.
    pub index: u64,
    /// The hash that was reported.
    pub hash: String,
    /// How many times it was reported; at least once.
    pub count: u64,
}

/// The entry is about this hash of this block.
pub open spec fn entry_matches(entry: VoteEntry, index: u64, hash: Seq<char>) -> bool {
    entry.index == index && entry.hash@ == hash
}

/// How many votes the entries hold for a hash of a block.
pub open spec fn entries_count(entries: Seq<VoteEntry>, index: u64, hash: Seq<char>) -> nat
    decreases entries.len(),
{
    if entries.len() == 0 {
        0
    } else if entry_matches(entries.last(), index, hash) {
        entries.last().count as nat
    } else {
        entries_count(entries.drop_last(), index, hash)
    }
}

/// No two entries are about the same hash of the same block, and every
/// entry holds a vote.
pub open spec fn entries_wf(entries: Seq<VoteEntry>) -> bool {
    &&& forall|i: int, j: int|
        0 <= i < j < entries.len() ==> !entry_matches(
            #[trigger] entries[i],
            (#[trigger] entries[j]).index,
            entries[j].hash@,
        )
    &&& forall|i: int| 0 <= i < entries.len() ==> (#[trigger] entries[i]).count >= 1
}

/// What the count of a hash says about the entries: it is the count of the
/// entry about that hash, and zero where there is no such entry.
pub proof fn lemma_entries_count(entries: Seq<VoteEntry>, index: u64, hash: Seq<char>)
    requires
        entries_wf(entries),
    ensures
        forall|i: int|
            0 <= i < entries.len() && entry_matches(#[trigger] entries[i], index, hash)
                ==> entries_count(entries, index, hash) == entries[i].count,
        entries_count(entries, index, hash) > 0 ==> exists|i: int|
            0 <= i < entries.len() && entry_matches(#[trigger] entries[i], index, hash),
    decreases entries.len(),
{
    if entries.len() > 0 {
        let front = entries.drop_last();
        assert(entries_wf(front)) by {
            assert forall|i: int, j: int| 0 <= i < j < front.len() implies !entry_matches(
                #[trigger] front[i],
                (#[trigger] front[j]).index,
                front[j].hash@,
            ) by {
                assert(!entry_matches(entries[i], entries[j].index, entries[j].hash@));
            }
            assert forall|i: int| 0 <= i < front.len() implies (#[trigger] front[i]).count
                >= 1 by {
                assert(entries[i].count >= 1);
            }
        }
        lemma_entries_count(front, index, hash);
        let last = entries.len() - 1;
        if entry_matches(entries.last(), index, hash) {
            assert(entries[last].count >= 1);
            assert forall|i: int|
                0 <= i < entries.len() && entry_matches(
                    #[trigger] entries[i],
                    index,
                    hash,
                ) implies entries_count(entries, index, hash) == entries[i].count by {
                if i < last {
                    assert(!entry_matches(entries[i], entries[last].index, entries[last].hash@));
                }
            }
        } else {
            assert forall|i: int|
                0 <= i < entries.len() && entry_matches(
                    #[trigger] entries[i],
                    index,
                    hash,
                ) implies entries_count(entries, index, hash) == entries[i].count by {
                assert(front[i] == entries[i]);
            }
            if entries_count(entries, index, hash) > 0 {
                let i = choose|i: int|
                    0 <= i < front.len() && entry_matches(#[trigger] front[i], index, hash);
                assert(entry_matches(entries[i], index, hash));
            }
        }
    }
}

/// Changing the count of the entry at `at` changes the count of its hash and
/// of no other.
pub proof fn lemma_count_after_update(
    entries: Seq<VoteEntry>,
    at: int,
    entry: VoteEntry,
    index: u64,
    hash: Seq<char>,
)
    requires
        entries_wf(entries),
        0 <= at < entries.len(),
        entry_matches(entry, entries[at].index, entries[at].hash@),
    ensures
        entries_count(entries.update(at, entry), index, hash) == (if entry_matches(
            entry,
            index,
            hash,
        ) {
            entry.count as nat
        } else {
            entries_count(entries, index, hash)
        }),
    decreases entries.len(),
{
    let changed = entries.update(at, entry);
    let last = entries.len() - 1;
    let front = entries.drop_last();
    if at == last {
        assert(changed.drop_last() =~= front);
    } else {
        assert(entries_wf(front)) by {
            assert forall|i: int, j: int| 0 <= i < j < front.len() implies !entry_matches(
                #[trigger] front[i],
                (#[trigger] front[j]).index,
                front[j].hash@,
            ) by {
                assert(!entry_matches(entries[i], entries[j].index, entries[j].hash@));
            }
            assert forall|i: int| 0 <= i < front.len() implies (#[trigger] front[i]).count
                >= 1 by {
                assert(entries[i].count >= 1);
            }
        }
        lemma_count_after_update(front, at, entry, index, hash);
        assert(changed.drop_last() =~= front.update(at, entry));
        assert(changed.last() == entries.last());
        assert(!entry_matches(entries[at], entries[last].index, entries[last].hash@));
    }
}

/// The votes that a node has counted.
#[derive(Debug)]
pub struct VoteTally {
    entries: Vec<VoteEntry>,
}

impl VoteTally {
    /// How many votes were counted for `hash` as the hash of block `index`.
    pub closed spec fn count(&self, index: u64, hash: Seq<char>) -> nat {
        entries_count(self.entries@, index, hash)
    }

    /// What holds of every tally.
    pub closed spec fn wf(&self) -> bool {
        entries_wf(self.entries@)
    }

    /// `hash` leads for block `index`: it has votes, no hash has more, and of
    /// the hashes with as many it comes first in the order of a dictionary.
    pub open spec fn leads(&self, index: u64, hash: Seq<char>) -> bool {
        &&& self.count(index, hash) > 0
        &&& forall|other: Seq<char>|
            #![trigger self.count(index, other)]
            self.count(index, other) < self.count(index, hash) || (self.count(index, other)
                == self.count(index, hash) && !lex_less(other, hash))
    }

    /// No hash has a vote for block `index`.
    pub open spec fn silent(&self, index: u64) -> bool {
        forall|other: Seq<char>| #![trigger self.count(index, other)] self.count(index, other) == 0
    }

    /// At most one hash leads.
    pub proof fn lemma_leader_unique(&self, index: u64, a: Seq<char>, b: Seq<char>)
        requires
            self.leads(index, a),
            self.leads(index, b),
        ensures
            a == b,
    {
        lemma_lex_total(a, b);
        assert(self.count(index, a) == self.count(index, b));
    }

    /// A tally without votes.
    pub fn new() -> (out: Self)
        ensures
            out.wf(),
            forall|index: u64, hash: Seq<char>| #[trigger] out.count(index, hash) == 0,
    {
        VoteTally { entries: Vec::new() }
    }

    /// Where the entry about a hash of a block stands.
    fn find(&self, index: u64, hash: &String) -> (out: Option<usize>)
        ensures
            match out {
                Some(i) => i < self.entries@.len() && entry_matches(
                    self.entries@[i as int],
                    index,
                    hash@,
                ),
                None => forall|i: int|
                    0 <= i < self.entries@.len() ==> !entry_matches(
                        #[trigger] self.entries@[i],
                        index,
                        hash@,
                    ),
            },
    {
        let mut i: usize = 0;
        while i < self.entries.len()
            invariant
                i <= self.entries.len(),
                forall|k: int|
                    0 <= k < i ==> !entry_matches(#[trigger] self.entries@[k], index, hash@),
            decreases self.entries.len() - i,
        {
            if self.entries[i].index == index && self.entries[i].hash == *hash {
                return Some(i);
            }
            i += 1;
        }
        None
    }

    /// How many votes were counted for `hash` as the hash of block `index`.
    pub fn votes(&self, index: u64, hash: &String) -> (out: u64)
        requires
            self.wf(),
        ensures
            out == self.count(index, hash@),
    {
        proof {
            lemma_entries_count(self.entries@, index, hash@);
        }
        match self.find(index, hash) {
            Some(i) => self.entries[i].count,
            None => 0,
        }
    }

    /// Counts one vote for `hash` as the hash of block `index`, and gives the
    /// new count of that hash. A count that cannot grow stays.
    pub fn record(&mut self, index: u64, hash: String) -> (out: u64)
        requires
            old(self).wf(),
        ensures
            final(self).wf(),
            out == final(self).count(index, hash@),
            out == (if old(self).count(index, hash@) < u64::MAX {
                old(self).count(index, hash@) + 1
            } else {
                u64::MAX as nat
            }),
            forall|i: u64, h: Seq<char>|
                !(i == index && h == hash@) ==> #[trigger] final(self).count(i, h)
                    == old(self).count(i, h),
    {
        let ghost before = self.entries@;
        proof {
            lemma_entries_count(before, index, hash@);
        }
        match self.find(index, &hash) {
            Some(at) => {
                let seen = self.entries[at].count;
                let count: u64 = if seen < u64::MAX { seen + 1 } else { u64::MAX };
                let entry = VoteEntry { index, hash, count };
                proof {
                    assert forall|i: u64, h: Seq<char>|
                        entries_count(before.update(at as int, entry), i, h) == (if entry_matches(
                            entry,
                            i,
                            h,
                        ) {
                            count as nat
                        } else {
                            entries_count(before, i, h)
                        }) by {
                        lemma_count_after_update(before, at as int, entry, i, h);
                    }
                }
                self.entries.set(at, entry);
                count
            },
            None => {
                let entry = VoteEntry { index, hash, count: 1 };
                self.entries.push(entry);
                proof {
                    assert(self.entries@.drop_last() =~= before);
                }
                1
            },
        }
    }

    /// The hash that leads for block `index`, if any hash has a vote.
    pub fn leader(&self, index: u64) -> (out: Option<String>)
        requires
            self.wf(),
        ensures
            match out {
                Some(hash) => self.leads(index, hash@),
                None => self.silent(index),
            },
    {
        let mut best: Option<usize> = None;
        let mut i: usize = 0;
        while i < self.entries.len()
            invariant
                i <= self.entries.len(),
                self.wf(),
                match best {
                    Some(b) => {
                        &&& b < i
                        &&& self.entries@[b as int].index == index
                        &&& forall|k: int|
                            0 <= k < i && (#[trigger] self.entries@[k]).index == index ==> {
                                ||| self.entries@[k].count < self.entries@[b as int].count
                                ||| (self.entries@[k].count == self.entries@[b as int].count
                                    && !lex_less(
                                    self.entries@[k].hash@,
                                    self.entries@[b as int].hash@,
                                ))
                            }
                    },
                    None => forall|k: int|
                        0 <= k < i ==> (#[trigger] self.entries@[k]).index != index,
                },
            decreases self.entries.len() - i,
        {
            if self.entries[i].index == index {
                let better = match best {
                    None => true,
                    Some(b) => self.entries[i].count > self.entries[b].count || (
                    self.entries[i].count == self.entries[b].count && less_than(
                        self.entries[i].hash.as_str(),
                        self.entries[b].hash.as_str(),
                    )),
                };
                if better {
                    proof {
                        let now = self.entries@[i as int];
                        lemma_lex_total(now.hash@, now.hash@);
                        if let Some(b) = best {
                            let was = self.entries@[b as int];
                            assert forall|k: int|
                                0 <= k < i && (#[trigger] self.entries@[k]).index
                                    == index implies self.entries@[k].count < now.count || (
                            self.entries@[k].count == now.count && !lex_less(
                                self.entries@[k].hash@,
                                now.hash@,
                            )) by {
                                if self.entries@[k].count == now.count && lex_less(
                                    self.entries@[k].hash@,
                                    now.hash@,
                                ) {
                                    lemma_lex_transitive(
                                        self.entries@[k].hash@,
                                        now.hash@,
                                        was.hash@,
                                    );
                                }
                            }
                        }
                    }
                    best = Some(i);
                }
            }
            i += 1;
        }
        match best {
            Some(b) => {
                let hash = self.entries[b].hash.clone();
                proof {
                    let top = self.entries@[b as int];
                    lemma_entries_count(self.entries@, index, top.hash@);
                    assert(top.count >= 1);
                    assert forall|other: Seq<char>|
                        #![trigger self.count(index, other)]
                        self.count(index, other) < self.count(index, top.hash@) || (self.count(
                            index,
                            other,
                        ) == self.count(index, top.hash@) && !lex_less(other, top.hash@)) by {
                        lemma_entries_count(self.entries@, index, other);
                        if self.count(index, other) > 0 {
                            let k = choose|k: int|
                                0 <= k < self.entries@.len() && entry_matches(
                                    #[trigger] self.entries@[k],
                                    index,
                                    other,
                                );
                            assert(self.entries@[k].index == index);
                        }
                    }
                }
                Some(hash)
            },
            None => {
                proof {
                    assert forall|other: Seq<char>|
                        #![trigger self.count(index, other)]
                        self.count(index, other) == 0 by {
                        lemma_entries_count(self.entries@, index, other);
                        if self.count(index, other) > 0 {
                            let k = choose|k: int|
                                0 <= k < self.entries@.len() && entry_matches(
                                    #[trigger] self.entries@[k],
                                    index,
                                    other,
                                );
                            assert(self.entries@[k].index == index);
                        }
                    }
                }
                None
            },
        }
    }

    /// Forgets all votes.
    pub fn clear(&mut self)
        ensures
            final(self).wf(),
            forall|index: u64, hash: Seq<char>| #[trigger] final(self).count(index, hash) == 0,
    {
        self.entries = Vec::new();
    }
}

/// Whether `count` votes are a strict majority among `peers` peers: more
/// than half of them.
pub open spec fn spec_is_majority(count: nat, peers: nat) -> bool {
    2 * count > peers
}

/// Whether `count` votes are a strict majority among `peers` peers.
pub fn is_majority(count: u64, peers: usize) -> (out: bool)
    ensures
        out == spec_is_majority(count as nat, peers as nat),
{
    count > (peers as u64) / 2
}

} // verus!
