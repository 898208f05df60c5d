//! The peers that a node knows: for each address a public key, the time at
//! which the peer was last heard, and its strikes.

use crate::payload::peers::get_peers_ack::GetPeersAck;
use vstd::prelude::*;

verus! {

/// What is known of one peer.
#[derive(Debug)]
pub struct PeerInfo {
    /// Public key of the peer.
    pub public_key: Vec<u8>,
    /// When the peer was last heard.
    pub last_seen: u64,
    /// How many times in a row the peer failed or misbehaved.
    pub strikes: u32,
}

/// What is known of one peer, as plain values.
pub struct PeerInfoView {
    pub public_key: Seq<u8>,
    pub last_seen: u64,
    pub strikes: u32,
}

impl View for PeerInfo {
    type V = PeerInfoView;

    open spec fn view(&self) -> PeerInfoView {
        PeerInfoView {
            public_key: self.public_key@,
            last_seen: self.last_seen,
            strikes: self.strikes,
        }
    }
}

/// One peer of the registry.
#[derive(Debug)]
pub struct PeerEntry {
    /// Address of the peer, as `ip:port`.
    pub address: String,
    /// What is known of it.
    pub info: PeerInfo,
}

/// The addresses of some entries.
pub open spec fn entry_keys(entries: Seq<PeerEntry>) -> Seq<Seq<char>> {
    Seq::new(entries.len(), |i: int| entries[i].address@)
}

/// No address occurs twice.
pub open spec fn keys_unique(keys: Seq<Seq<char>>) -> bool {
    forall|i: int, j: int| 0 <= i < j < keys.len() ==> keys[i] != keys[j]
}

/// The mapping that the entries make, a later entry winning over an earlier
/// one with the same address.
pub open spec fn entries_map(entries: Seq<PeerEntry>) -> Map<Seq<char>, PeerInfoView>
    decreases entries.len(),
{
    if entries.len() == 0 {
        Map::empty()
    } else {
        entries_map(entries.drop_last()).insert(entries.last().address@, entries.last().info@)
    }
}

/// What the mapping holds: the addresses of the entries and, where no address
/// occurs twice, for each address what its entry knows.
pub proof fn lemma_entries_map(entries: Seq<PeerEntry>)
    ensures
        forall|a: Seq<char>|
            entries_map(entries).contains_key(a) <==> exists|i: int|
                0 <= i < entries.len() && (#[trigger] entries[i]).address@ == a,
        keys_unique(entry_keys(entries)) ==> forall|i: int|
            0 <= i < entries.len() ==> entries_map(entries)[(#[trigger] entries[i]).address@]
                == entries[i].info@,
        entries_map(entries).dom().finite(),
    decreases entries.len(),
{
    if entries.len() > 0 {
        let front = entries.drop_last();
        lemma_entries_map(front);
        let keys = entry_keys(entries);
        assert forall|a: Seq<char>|
            entries_map(entries).contains_key(a) <==> exists|i: int|
                0 <= i < entries.len() && (#[trigger] entries[i]).address@ == a by {
            if entries_map(entries).contains_key(a) {
                if a == entries.last().address@ {
                    assert(entries[entries.len() - 1].address@ == a);
                } else {
                    let i = choose|i: int|
                        0 <= i < front.len() && (#[trigger] front[i]).address@ == a;
                    assert(entries[i].address@ == a);
                }
            }
            if exists|i: int| 0 <= i < entries.len() && (#[trigger] entries[i]).address@ == a {
                let i = choose|i: int|
                    0 <= i < entries.len() && (#[trigger] entries[i]).address@ == a;
                if i < front.len() {
                    assert(front[i].address@ == a);
                }
            }
        }
        if keys_unique(keys) {
            assert forall|i: int, j: int| 0 <= i < j < front.len() implies entry_keys(front)[i]
                != entry_keys(front)[j] by {
                assert(keys[i] != keys[j]);
            }
            assert forall|i: int| 0 <= i < entries.len() implies entries_map(entries)[(
            #[trigger] entries[i]).address@] == entries[i].info@ by {
                if i < front.len() {
                    assert(keys[i] != keys[entries.len() - 1]);
                    assert(front[i] == entries[i]);
                }
            }
        }
    }
}

/// Putting a peer with a new address at the end adds it to the mapping.
pub proof fn lemma_map_push(entries: Seq<PeerEntry>, entry: PeerEntry)
    ensures
        entries_map(entries.push(entry)) == entries_map(entries).insert(
            entry.address@,
            entry.info@,
        ),
{
    assert(entries.push(entry).drop_last() =~= entries);
}

/// Replacing what is known of the peer at `at` replaces it in the mapping.
pub proof fn lemma_map_update(entries: Seq<PeerEntry>, at: int, entry: PeerEntry)
    requires
        0 <= at < entries.len(),
        keys_unique(entry_keys(entries)),
        entry.address@ == entries[at].address@,
    ensures
        entries_map(entries.update(at, entry)) == entries_map(entries).insert(
            entry.address@,
            entry.info@,
        ),
        entry_keys(entries.update(at, entry)) == entry_keys(entries),
    decreases entries.len(),
{
    let changed = entries.update(at, entry);
    let keys = entry_keys(entries);
    assert(entry_keys(changed) =~= keys);
    let front = entries.drop_last();
    assert forall|i: int, j: int| 0 <= i < j < front.len() implies entry_keys(front)[i]
        != entry_keys(front)[j] by {
        assert(keys[i] != keys[j]);
    }
    if at == entries.len() - 1 {
        assert(changed.drop_last() =~= front);
        assert(entries_map(changed) =~= entries_map(entries).insert(
            entry.address@,
            entry.info@,
        ));
    } else {
        lemma_map_update(front, at, entry);
        assert(changed.drop_last() =~= front.update(at, entry));
        assert(keys[at] != keys[entries.len() - 1]);
        assert(entries_map(changed) =~= entries_map(entries).insert(
            entry.address@,
            entry.info@,
        ));
    }
}

/// Taking the peer at `at` out takes its address out of the mapping.
pub proof fn lemma_map_remove(entries: Seq<PeerEntry>, at: int)
    requires
        0 <= at < entries.len(),
        keys_unique(entry_keys(entries)),
    ensures
        entries_map(entries.remove(at)) == entries_map(entries).remove(entries[at].address@),
        keys_unique(entry_keys(entries.remove(at))),
    decreases entries.len(),
{
    let shorter = entries.remove(at);
    let keys = entry_keys(entries);
    assert forall|i: int, j: int| 0 <= i < j < shorter.len() implies entry_keys(shorter)[i]
        != entry_keys(shorter)[j] by {
        let pi = if i < at { i } else { i + 1 };
        let pj = if j < at { j } else { j + 1 };
        assert(keys[pi] != keys[pj]);
    }
    let front = entries.drop_last();
    assert forall|i: int, j: int| 0 <= i < j < front.len() implies entry_keys(front)[i]
        != entry_keys(front)[j] by {
        assert(keys[i] != keys[j]);
    }
    lemma_entries_map(front);
    if at == entries.len() - 1 {
        assert(shorter =~= front);
        assert(!entries_map(front).contains_key(entries[at].address@)) by {
            if entries_map(front).contains_key(entries[at].address@) {
                let i = choose|i: int|
                    0 <= i < front.len() && (#[trigger] front[i]).address@ == entries[at].address@;
                assert(keys[i] != keys[at]);
            }
        }
        assert(entries_map(shorter) =~= entries_map(entries).remove(entries[at].address@));
    } else {
        lemma_map_remove(front, at);
        assert(shorter.drop_last() =~= front.remove(at));
        assert(shorter.last() == entries.last());
        assert(keys[at] != keys[entries.len() - 1]);
        assert(entries_map(shorter) =~= entries_map(entries).remove(entries[at].address@));
    }
}

/// The registry of a node.
#[derive(Debug)]
pub struct PeerRegistry {
    /// The address of the node itself, which is never a peer.
    own_address: String,
    /// The number of strikes at which a peer is taken out.
    threshold: u32,
    /// The peers, in the order in which they came.
    entries: Vec<PeerEntry>,
}

impl View for PeerRegistry {
    type V = Map<Seq<char>, PeerInfoView>;

    closed spec fn view(&self) -> Map<Seq<char>, PeerInfoView> {
        entries_map(self.entries@)
    }
}

impl PeerRegistry {
    /// The address of the node itself.
    pub closed spec fn own(&self) -> Seq<char> {
        self.own_address@
    }

    /// The number of strikes at which a peer is taken out.
    pub closed spec fn limit(&self) -> u32 {
        self.threshold
    }

    /// The addresses of the peers, in the order in which they came.
    pub closed spec fn order(&self) -> Seq<Seq<char>> {
        entry_keys(self.entries@)
    }

    /// What holds of every registry: no address occurs twice, the addresses
    /// in order are those of the mapping, and the node itself is no peer.
    pub closed spec fn wf(&self) -> bool {
        &&& keys_unique(entry_keys(self.entries@))
        &&& !entries_map(self.entries@).contains_key(self.own_address@)
    }

    /// The node itself is never among its peers, the mapping is finite, and
    /// the peers in order are the keys of the mapping, each once.
    pub proof fn lemma_wf(&self)
        requires
            self.wf(),
        ensures
            !self@.contains_key(self.own()),
            self@.dom().finite(),
            keys_unique(self.order()),
            forall|a: Seq<char>| self@.contains_key(a) <==> self.order().contains(a),
    {
        lemma_entries_map(self.entries@);
        let keys = entry_keys(self.entries@);
        assert forall|a: Seq<char>| self@.contains_key(a) <==> keys.contains(a) by {
            if self@.contains_key(a) {
                let i = choose|i: int|
                    0 <= i < self.entries@.len() && (#[trigger] self.entries@[i]).address@ == a;
                assert(keys[i] == a);
            }
            if keys.contains(a) {
                let i = choose|i: int| 0 <= i < keys.len() && keys[i] == a;
                assert(self.entries@[i].address@ == a);
            }
        }
    }

    /// A registry without peers, for the node at `own_address`.
    pub fn new(own_address: String, threshold: u32) -> (out: Self)
        ensures
            out.wf(),
            out@ == Map::<Seq<char>, PeerInfoView>::empty(),
            out.own() == own_address@,
            out.limit() == threshold,
            out.order() == Seq::<Seq<char>>::empty(),
    {
        let out = PeerRegistry { own_address, threshold, entries: Vec::new() };
        assert(out.order() =~= Seq::<Seq<char>>::empty());
        out
    }

    /// Where the peer with the given address stands.
    fn find(&self, address: &String) -> (out: Option<usize>)
        ensures
            match out {
                Some(i) => i < self.entries@.len() && self.entries@[i as int].address@
                    == address@,
                None => forall|i: int|
                    0 <= i < self.entries@.len() ==> (#[trigger] self.entries@[i]).address@
                        != address@,
            },
    {
        let mut i: usize = 0;
        while i < self.entries.len()
            invariant
                i <= self.entries.len(),
                forall|k: int| 0 <= k < i ==> (#[trigger] self.entries@[k]).address@ != address@,
            decreases self.entries.len() - i,
        {
            if self.entries[i].address == *address {
                return Some(i);
            }
            i += 1;
        }
        None
    }

    /// How many peers are known.
    pub fn len(&self) -> (out: usize)
        requires
            self.wf(),
        ensures
            out == self@.len(),
            out == self.order().len(),
    {
        proof {
            lemma_unique_len(self.entries@);
        }
        self.entries.len()
    }

    /// Whether a peer with this address is known.
    pub fn contains(&self, address: &String) -> (out: bool)
        ensures
            out == self@.contains_key(address@),
    {
        proof {
            lemma_entries_map(self.entries@);
        }
        self.find(address).is_some()
    }

    /// The public key of the peer with this address, if it is known.
    pub fn public_key(&self, address: &String) -> (out: Option<Vec<u8>>)
        requires
            self.wf(),
        ensures
            match out {
                Some(key) => self@.contains_key(address@) && key@ == self@[address@].public_key,
                None => !self@.contains_key(address@),
            },
    {
        proof {
            lemma_entries_map(self.entries@);
        }
        match self.find(address) {
            Some(i) => {
                let key = crate::text::copy_range(
                    self.entries[i].info.public_key.as_slice(),
                    0,
                    self.entries[i].info.public_key.len(),
                );
                assert(key@ =~= self.entries@[i as int].info.public_key@);
                Some(key)
            },
            None => None,
        }
    }

    /// Makes a peer known, or known anew: with this key, heard at `now`,
    /// without strikes. The address of the node itself is refused.
    pub fn insert(&mut self, address: String, public_key: Vec<u8>, now: u64) -> (out: bool)
        requires
            old(self).wf(),
        ensures
            final(self).wf(),
            final(self).own() == old(self).own(),
            final(self).limit() == old(self).limit(),
            out == (address@ != old(self).own()),
            final(self)@ == (if out {
                old(self)@.insert(
                    address@,
                    PeerInfoView { public_key: public_key@, last_seen: now, strikes: 0 },
                )
            } else {
                old(self)@
            }),
            final(self).order() == (if out && !old(self)@.contains_key(address@) {
                old(self).order().push(address@)
            } else {
                old(self).order()
            }),
    {
        if address == self.own_address {
            return false;
        }
        proof {
            lemma_entries_map(self.entries@);
        }
        let ghost before = self.entries@;
        let entry = PeerEntry {
            address,
            info: PeerInfo { public_key, last_seen: now, strikes: 0 },
        };
        match self.find(&entry.address) {
            Some(i) => {
                proof {
                    lemma_map_update(before, i as int, entry);
                }
                self.entries.set(i, entry);
            },
            None => {
                proof {
                    lemma_map_push(before, entry);
                    assert(entry_keys(before.push(entry)) =~= entry_keys(before).push(
                        entry.address@,
                    ));
                }
                self.entries.push(entry);
            },
        }
        true
    }

    /// Forgets the peer with this address. Tells whether it was known.
    pub fn remove(&mut self, address: &String) -> (out: bool)
        requires
            old(self).wf(),
        ensures
            final(self).wf(),
            final(self).own() == old(self).own(),
            final(self).limit() == old(self).limit(),
            out == old(self)@.contains_key(address@),
            final(self)@ == old(self)@.remove(address@),
    {
        proof {
            lemma_entries_map(self.entries@);
        }
        match self.find(address) {
            Some(i) => {
                proof {
                    lemma_map_remove(self.entries@, i as int);
                }
                let _ = self.entries.remove(i);
                true
            },
            None => {
                assert(self@.remove(address@) =~= self@);
                false
            },
        }
    }

    /// Notes that the peer was heard at `now`: its strikes are forgiven.
    /// Tells whether the peer is known; an unknown one changes nothing.
    pub fn touch(&mut self, address: &String, now: u64) -> (out: bool)
        requires
            old(self).wf(),
        ensures
            final(self).wf(),
            final(self).own() == old(self).own(),
            final(self).limit() == old(self).limit(),
            final(self).order() == old(self).order(),
            out == old(self)@.contains_key(address@),
            final(self)@ == (if out {
                old(self)@.insert(
                    address@,
                    PeerInfoView {
                        public_key: old(self)@[address@].public_key,
                        last_seen: now,
                        strikes: 0,
                    },
                )
            } else {
                old(self)@
            }),
    {
        proof {
            lemma_entries_map(self.entries@);
        }
        match self.find(address) {
            Some(i) => {
                let ghost before = self.entries@;
                let old_entry = self.entries.remove(i);
                let entry = PeerEntry {
                    address: old_entry.address,
                    info: PeerInfo {
                        public_key: old_entry.info.public_key,
                        last_seen: now,
                        strikes: 0,
                    },
                };
                proof {
                    lemma_map_update(before, i as int, entry);
                    assert(before.remove(i as int).insert(i as int, entry) =~= before.update(
                        i as int,
                        entry,
                    ));
                }
                self.entries.insert(i, entry);
                true
            },
            None => false,
        }
    }

    /// Counts one more strike against the peer and gives the new count; at
    /// the limit of the registry the peer is forgotten. Nothing for an
    /// unknown peer.
    pub fn strike(&mut self, address: &String) -> (out: Option<u32>)
        requires
            old(self).wf(),
        ensures
            final(self).wf(),
            final(self).own() == old(self).own(),
            final(self).limit() == old(self).limit(),
            out is Some <==> old(self)@.contains_key(address@),
            out matches Some(count) ==> {
                &&& count == spec_next_strikes(old(self)@[address@].strikes)
                &&& final(self)@ == (if count >= old(self).limit() {
                    old(self)@.remove(address@)
                } else {
                    old(self)@.insert(
                        address@,
                        PeerInfoView {
                            public_key: old(self)@[address@].public_key,
                            last_seen: old(self)@[address@].last_seen,
                            strikes: count,
                        },
                    )
                })
            },
            out is None ==> final(self)@ == old(self)@,
    {
        proof {
            lemma_entries_map(self.entries@);
        }
        match self.find(address) {
            Some(i) => {
                let ghost before = self.entries@;
                proof {
                    lemma_map_remove(before, i as int);
                }
                let old_entry = self.entries.remove(i);
                let count: u32 = if old_entry.info.strikes < u32::MAX {
                    old_entry.info.strikes + 1
                } else {
                    u32::MAX
                };
                if count < self.threshold {
                    let entry = PeerEntry {
                        address: old_entry.address,
                        info: PeerInfo {
                            public_key: old_entry.info.public_key,
                            last_seen: old_entry.info.last_seen,
                            strikes: count,
                        },
                    };
                    proof {
                        lemma_map_update(before, i as int, entry);
                        assert(before.remove(i as int).insert(i as int, entry) =~= before.update(
                            i as int,
                            entry,
                        ));
                    }
                    self.entries.insert(i, entry);
                }
                Some(count)
            },
            None => None,
        }
    }

    /// On `GetPeersAck`: makes every advertised address known that is not
    /// empty, not the address of the node itself and not known already. Of
    /// such a peer no key is known yet, so nothing it sends is accepted.
    pub fn get_peers_ack(&mut self, peers: &Vec<String>, now: u64)
        requires
            old(self).wf(),
        ensures
            final(self).wf(),
            final(self).own() == old(self).own(),
            final(self).limit() == old(self).limit(),
            forall|a: Seq<char>|
                #[trigger] final(self)@.contains_key(a) <==> old(self)@.contains_key(a) || (
                crate::payload::list::text_views(peers@).contains(a) && a.len() > 0
                    && a != old(self).own()),
            forall|a: Seq<char>|
                old(self)@.contains_key(a) ==> #[trigger] final(self)@[a] == old(self)@[a],
            forall|a: Seq<char>|
                #![trigger final(self)@[a]]
                final(self)@.contains_key(a) && !old(self)@.contains_key(a) ==> final(self)@[a] == (
                PeerInfoView { public_key: Seq::empty(), last_seen: now, strikes: 0 }),
    {
        let ghost advertised = crate::payload::list::text_views(peers@);
        let mut i: usize = 0;
        while i < peers.len()
            invariant
                i <= peers.len(),
                self.wf(),
                self.own() == old(self).own(),
                self.limit() == old(self).limit(),
                advertised == crate::payload::list::text_views(peers@),
                forall|a: Seq<char>|
                    #[trigger] self@.contains_key(a) <==> old(self)@.contains_key(a) || (
                    advertised.take(i as int).contains(a) && a.len() > 0 && a != old(self).own()),
                forall|a: Seq<char>|
                    old(self)@.contains_key(a) ==> #[trigger] self@[a] == old(self)@[a],
                forall|a: Seq<char>|
                    self@.contains_key(a) && !old(self)@.contains_key(a) ==> #[trigger] self@[a]
                        == (PeerInfoView { public_key: Seq::empty(), last_seen: now, strikes: 0 }),
            decreases peers.len() - i,
        {
            let ghost seen = advertised.take(i as int);
            let ghost now_seen = advertised.take(i + 1);
            let ghost address = peers@[i as int]@;
            let ghost before = self@;
            proof {
                assert(now_seen =~= seen.push(address));
                assert forall|a: Seq<char>| now_seen.contains(a) <==> seen.contains(a) || a
                    == address by {
                    if now_seen.contains(a) {
                        let k = choose|k: int| 0 <= k < now_seen.len() && now_seen[k] == a;
                        if k < seen.len() {
                            assert(seen[k] == a);
                        }
                    }
                    if seen.contains(a) {
                        let k = choose|k: int| 0 <= k < seen.len() && seen[k] == a;
                        assert(now_seen[k] == a);
                    }
                    if a == address {
                        assert(now_seen[i as int] == a);
                    }
                }
            }
            if !peers[i].as_str().is_empty() && !self.contains(&peers[i]) {
                let added = self.insert(peers[i].clone(), Vec::new(), now);
                proof {
                    assert(self@.contains_key(address) || address == old(self).own());
                }
            }
            i += 1;
        }
        assert(advertised.take(i as int) =~= advertised);
    }

    /// The addresses of the peers, in the order in which they came.
    pub fn addresses(&self) -> (out: Vec<String>)
        ensures
            crate::payload::list::text_views(out@) == self.order(),
    {
        let mut out: Vec<String> = Vec::new();
        let mut i: usize = 0;
        while i < self.entries.len()
            invariant
                i <= self.entries.len(),
                out.len() == i,
                forall|k: int| 0 <= k < i ==> (#[trigger] out[k])@ == self.entries@[k].address@,
            decreases self.entries.len() - i,
        {
            out.push(self.entries[i].address.clone());
            i += 1;
        }
        assert(crate::payload::list::text_views(out@) =~= self.order());
        out
    }

    /// A copy of the registry, to walk through while the registry changes.
    pub fn snapshot(&self) -> (out: Self)
        requires
            self.wf(),
        ensures
            out.wf(),
            out@ == self@,
            out.own() == self.own(),
            out.limit() == self.limit(),
            out.order() == self.order(),
    {
        let mut entries: Vec<PeerEntry> = Vec::new();
        let mut i: usize = 0;
        while i < self.entries.len()
            invariant
                i <= self.entries.len(),
                entries.len() == i,
                forall|k: int|
                    0 <= k < i ==> (#[trigger] entries@[k]).address@ == self.entries@[k].address@
                        && entries@[k].info@ == self.entries@[k].info@,
            decreases self.entries.len() - i,
        {
            let source = &self.entries[i];
            let key = crate::text::copy_range(
                source.info.public_key.as_slice(),
                0,
                source.info.public_key.len(),
            );
            assert(key@ =~= source.info.public_key@);
            entries.push(
                PeerEntry {
                    address: source.address.clone(),
                    info: PeerInfo {
                        public_key: key,
                        last_seen: source.info.last_seen,
                        strikes: source.info.strikes,
                    },
                },
            );
            i += 1;
        }
        proof {
            lemma_same_map(entries@, self.entries@);
            assert(entry_keys(entries@) =~= entry_keys(self.entries@));
        }
        PeerRegistry { own_address: self.own_address.clone(), threshold: self.threshold, entries }
    }
}

/// On `ExploreNetwork` or `GetPeers`: the addresses of all known peers, in
/// the order in which they came, for the asker.
pub fn on_explore_network(registry: &PeerRegistry) -> (out: GetPeersAck)
    ensures
        out@.peers == registry.order(),
{
    GetPeersAck { peers: registry.addresses() }
}

/// The count after one more strike: one higher, and no higher than a count can be.
pub open spec fn spec_next_strikes(strikes: u32) -> u32 {
    if strikes < u32::MAX {
        (strikes + 1) as u32
    } else {
        u32::MAX
    }
}

/// Entries that agree in address and knowledge make the same mapping.
pub proof fn lemma_same_map(a: Seq<PeerEntry>, b: Seq<PeerEntry>)
    requires
        a.len() == b.len(),
        forall|k: int|
            0 <= k < a.len() ==> (#[trigger] a[k]).address@ == b[k].address@ && a[k].info@
                == b[k].info@,
    ensures
        entries_map(a) == entries_map(b),
    decreases a.len(),
{
    if a.len() > 0 {
        let front = a.drop_last();
        let other = b.drop_last();
        assert forall|k: int| 0 <= k < front.len() implies (#[trigger] front[k]).address@
            == other[k].address@ && front[k].info@ == other[k].info@ by {
            assert(a[k].address@ == b[k].address@);
        }
        lemma_same_map(front, other);
        assert(a[a.len() - 1].address@ == b[a.len() - 1].address@);
    }
}

/// With no address twice, the mapping has as many peers as there are entries.
pub proof fn lemma_unique_len(entries: Seq<PeerEntry>)
    requires
        keys_unique(entry_keys(entries)),
    ensures
        entries_map(entries).dom().finite(),
        entries_map(entries).len() == entries.len(),
    decreases entries.len(),
{
    lemma_entries_map(entries);
    if entries.len() > 0 {
        let front = entries.drop_last();
        let keys = entry_keys(entries);
        assert forall|i: int, j: int| 0 <= i < j < front.len() implies entry_keys(front)[i]
            != entry_keys(front)[j] by {
            assert(keys[i] != keys[j]);
        }
        lemma_unique_len(front);
        lemma_entries_map(front);
        assert(!entries_map(front).contains_key(entries.last().address@)) by {
            if entries_map(front).contains_key(entries.last().address@) {
                let i = choose|i: int|
                    0 <= i < front.len() && (#[trigger] front[i]).address@
                        == entries.last().address@;
                assert(keys[i] != keys[entries.len() - 1]);
            }
        }
    }
}

} // verus!
