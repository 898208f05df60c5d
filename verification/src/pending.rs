//! The content that peers contributed to the next block, under the key of
//! each contribution.

use crate::payload::parser::{parse_payload, spec_parse_payload, text_field};
use vstd::prelude::*;
use vstd::string::StringExecFns;
use vstd::utf8::{decode_utf8, valid_utf8};

verus! {

/// What is kept of a contribution: its key and its content.
pub type Contribution = (Seq<char>, Seq<char>);

/// The contributions after one with `key` came: it takes the place of an
/// earlier one with the same key, else it goes to the end.
pub open spec fn spec_insert(
    entries: Seq<Contribution>,
    key: Seq<char>,
    content: Seq<char>,
) -> Seq<Contribution>
    decreases entries.len(),
{
    if entries.len() == 0 {
        seq![(key, content)]
    } else if entries[0].0 == key {
        seq![(key, content)] + entries.drop_first()
    } else {
        seq![entries[0]] + spec_insert(entries.drop_first(), key, content)
    }
}

/// The content of all contributions, one after the other, in their order.
pub open spec fn spec_content(entries: Seq<Contribution>) -> Seq<char>
    decreases entries.len(),
{
    if entries.len() == 0 {
        Seq::empty()
    } else {
        entries[0].1 + spec_content(entries.drop_first())
    }
}

/// A contribution with a key that is there takes the place of the first
/// with that key; one with a new key goes to the end.
pub proof fn lemma_insert(entries: Seq<Contribution>, key: Seq<char>, content: Seq<char>)
    ensures
        forall|at: int|
            0 <= at < entries.len() && entries[at].0 == key && (forall|k: int|
                0 <= k < at ==> entries[k].0 != key) ==> #[trigger] entries.update(
                at,
                (key, content),
            ) == spec_insert(entries, key, content),
        (forall|k: int| 0 <= k < entries.len() ==> entries[k].0 != key) ==> spec_insert(
            entries,
            key,
            content,
        ) == entries.push((key, content)),
    decreases entries.len(),
{
    if entries.len() > 0 {
        let rest = entries.drop_first();
        lemma_insert(rest, key, content);
        if entries[0].0 == key {
            assert(entries.update(0, (key, content)) =~= spec_insert(entries, key, content));
        } else {
            assert forall|at: int|
                0 <= at < entries.len() && entries[at].0 == key && (forall|k: int|
                    0 <= k < at ==> entries[k].0 != key) implies #[trigger] entries.update(
                at,
                (key, content),
            ) == spec_insert(entries, key, content) by {
                assert(rest[at - 1].0 == key);
                assert forall|k: int| 0 <= k < at - 1 implies rest[k].0 != key by {
                    assert(entries[k + 1].0 != key);
                }
                assert(rest.update(at - 1, (key, content)) == spec_insert(rest, key, content));
                assert(entries.update(at, (key, content)) =~= seq![entries[0]] + rest.update(
                    at - 1,
                    (key, content),
                ));
            }
            if forall|k: int| 0 <= k < entries.len() ==> entries[k].0 != key {
                assert forall|k: int| 0 <= k < rest.len() implies rest[k].0 != key by {
                    assert(entries[k + 1].0 != key);
                }
                assert(entries.push((key, content)) =~= seq![entries[0]] + rest.push(
                    (key, content),
                ));
            }
        }
    } else {
        assert(entries.push((key, content)) =~= seq![(key, content)]);
    }
}

/// Twice the same contribution is as good as once.
pub proof fn lemma_insert_idempotent(entries: Seq<Contribution>, key: Seq<char>, content: Seq<char>)
    ensures
        spec_insert(spec_insert(entries, key, content), key, content) == spec_insert(
            entries,
            key,
            content,
        ),
    decreases entries.len(),
{
    let once = spec_insert(entries, key, content);
    if entries.len() == 0 {
        assert(once.drop_first() =~= Seq::<Contribution>::empty());
        assert(spec_insert(once, key, content) =~= once);
    } else if entries[0].0 == key {
        assert(once.drop_first() =~= entries.drop_first());
        assert(spec_insert(once, key, content) =~= once);
    } else {
        lemma_insert_idempotent(entries.drop_first(), key, content);
        assert(once.drop_first() =~= spec_insert(entries.drop_first(), key, content));
        assert(once[0] == entries[0]);
    }
}

/// One contribution, as it is kept.
#[derive(Debug)]
pub struct PendingEntry {
    /// The key under which the content came.
    pub unique_key: String,
    /// The content.
    pub content: String,
}

/// What each of some entries holds.
pub open spec fn entry_views(entries: Seq<PendingEntry>) -> Seq<Contribution> {
    Seq::new(entries.len(), |i: int| (entries[i].unique_key@, entries[i].content@))
}

/// The contributions to the next block, in the order in which their keys
/// first came.
#[derive(Debug)]
pub struct PendingContent {
    entries: Vec<PendingEntry>,
}

impl View for PendingContent {
    type V = Seq<Contribution>;

    closed spec fn view(&self) -> Seq<Contribution> {
        entry_views(self.entries@)
    }
}

impl PendingContent {
    /// No contributions.
    pub fn new() -> (out: Self)
        ensures
            out@ == Seq::<Contribution>::empty(),
    {
        let out = PendingContent { entries: Vec::new() };
        assert(out@ =~= Seq::<Contribution>::empty());
        out
    }

    /// How many contributions are kept.
    pub fn len(&self) -> (out: usize)
        ensures
            out == self@.len(),
    {
        self.entries.len()
    }

    /// Keeps a contribution. One with a key that is already there takes the
    /// place of the earlier one.
    pub fn insert(&mut self, unique_key: String, content: String)
        ensures
            final(self)@ == spec_insert(old(self)@, unique_key@, content@),
    {
        let ghost before = self@;
        proof {
            lemma_insert(before, unique_key@, content@);
        }
        let mut i: usize = 0;
        while i < self.entries.len()
            invariant
                i <= self.entries.len(),
                self@ == before,
                before == old(self)@,
                forall|k: int| 0 <= k < i ==> before[k].0 != unique_key@,
            decreases self.entries.len() - i,
        {
            assert(before[i as int].0 == self.entries@[i as int].unique_key@);
            if self.entries[i].unique_key == unique_key {
                let ghost key = unique_key@;
                let ghost text = content@;
                self.entries.set(i, PendingEntry { unique_key, content });
                proof {
                    lemma_insert(before, key, text);
                    assert(self@ =~= before.update(i as int, (key, text)));
                }
                return ;
            }
            i += 1;
        }
        let ghost key = unique_key@;
        let ghost text = content@;
        self.entries.push(PendingEntry { unique_key, content });
        assert(self@ =~= before.push((key, text)));
    }

    /// The content of all contributions, one after the other.
    pub fn content(&self) -> (out: String)
        ensures
            out@ == spec_content(self@),
    {
        let mut out = String::new();
        let mut i: usize = self.entries.len();
        assert(self@.skip(i as int) =~= Seq::<Contribution>::empty());
        while i > 0
            invariant
                i <= self.entries.len(),
                out@ == spec_content(self@.skip(i as int)),
            decreases i,
        {
            i -= 1;
            let ghost now = self@.skip(i as int);
            assert(now.drop_first() =~= self@.skip(i + 1));
            assert(now[0].1 == self.entries@[i as int].content@);
            let mut joined = self.entries[i].content.clone();
            joined.append(out.as_str());
            out = joined;
        }
        assert(self@.skip(0) =~= self@);
        out
    }

    /// Forgets all contributions.
    pub fn clear(&mut self)
        ensures
            final(self)@ == Seq::<Contribution>::empty(),
    {
        self.entries = Vec::new();
        assert(self@ =~= Seq::<Contribution>::empty());
    }
}

/// The text of field `index`; the empty text where the field is missing or
/// no well-formed UTF-8.
pub open spec fn spec_text_or_empty(fields: Seq<Seq<u8>>, index: int) -> Seq<char> {
    if 0 <= index < fields.len() && valid_utf8(fields[index]) {
        decode_utf8(fields[index])
    } else {
        Seq::empty()
    }
}

/// The event of the console that takes new content for the next block.
#[derive(Debug)]
pub struct NewBlockContent {
    internal_state: PendingContent,
}

impl View for NewBlockContent {
    type V = Seq<Contribution>;

    closed spec fn view(&self) -> Seq<Contribution> {
        self.internal_state@
    }
}

impl NewBlockContent {
    /// The event, on the content gathered so far.
    pub fn new(internal_state: PendingContent) -> (out: Self)
        ensures
            out@ == internal_state@,
    {
        NewBlockContent { internal_state }
    }

    /// On a payload region with a key and content as its first two fields:
    /// keeps the content under the key, unless both are empty. A field that
    /// is missing or unreadable counts as empty. Tells whether content was kept.
    pub fn execute(&mut self, buffer: &[u8]) -> (out: bool)
        ensures
            out == (spec_text_or_empty(spec_parse_payload(buffer@), 0).len() > 0
                || spec_text_or_empty(spec_parse_payload(buffer@), 1).len() > 0),
            final(self)@ == (if out {
                spec_insert(
                    old(self)@,
                    spec_text_or_empty(spec_parse_payload(buffer@), 0),
                    spec_text_or_empty(spec_parse_payload(buffer@), 1),
                )
            } else {
                old(self)@
            }),
    {
        let parsed = parse_payload(buffer);
        let code = match text_field(&parsed, 0) {
            Ok(text) => text,
            Err(_) => String::new(),
        };
        let content = match text_field(&parsed, 1) {
            Ok(text) => text,
            Err(_) => String::new(),
        };
        if code.as_str().is_empty() && content.as_str().is_empty() {
            return false;
        }
        self.internal_state.insert(code, content);
        true
    }

    /// The content gathered so far.
    pub fn into_inner(self) -> (out: PendingContent)
        ensures
            out@ == self@,
    {
        self.internal_state
    }
}

} // verus!
