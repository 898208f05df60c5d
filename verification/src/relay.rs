//! The rendezvous of the network: a relay that tells newcomers and known
//! peers of each other, and what a peer does with what it is told.

use crate::payload::hole_puncher::punsh::Punsh;
use crate::payload::list::text_views;
use crate::payload::peers::get_peers_ack::GetPeersAck;
use vstd::prelude::*;

verus! {

/// How many pings a peer sends to an address that it was told of.
pub const PING_COUNT: u32 = 4;

/// How many milliseconds lie between two of these pings.
pub const PING_SPACING_MS: u64 = 250;

/// The addresses other than `address`, in their order.
pub open spec fn spec_others(peers: Seq<Seq<char>>, address: Seq<char>) -> Seq<Seq<char>>
    decreases peers.len(),
{
    if peers.len() == 0 {
        Seq::empty()
    } else if peers.last() == address {
        spec_others(peers.drop_last(), address)
    } else {
        spec_others(peers.drop_last(), address).push(peers.last())
    }
}

/// The peers after `address` has registered: it is added at the end unless
/// it is there already.
pub open spec fn spec_registered(peers: Seq<Seq<char>>, address: Seq<char>) -> Seq<Seq<char>> {
    if peers.contains(address) {
        peers
    } else {
        peers.push(address)
    }
}

/// Where the address is not among the peers, the others are all the peers.
pub proof fn lemma_others_of_stranger(peers: Seq<Seq<char>>, address: Seq<char>)
    requires
        !peers.contains(address),
    ensures
        spec_others(peers, address) == peers,
    decreases peers.len(),
{
    if peers.len() > 0 {
        let front = peers.drop_last();
        assert(peers[peers.len() - 1] != address);
        assert forall|i: int| 0 <= i < front.len() implies front[i] != address by {
            assert(peers[i] != address);
        }
        lemma_others_of_stranger(front, address);
        assert(front.push(peers.last()) =~= peers);
    }
}

/// What the relay sends when a peer registers.
#[derive(Debug)]
pub struct Registration {
    /// Goes to each address of `punsh_targets`: the address of the newcomer.
    pub punsh: Punsh,
    /// The peers that were known before, in the order in which they came.
    pub punsh_targets: Vec<String>,
    /// Goes to the newcomer: the peers that were known before.
    pub ack: GetPeersAck,
}

/// What a peer does when it is told of an address: a number of pings to
/// that address, a fixed time apart.
#[derive(Debug, PartialEq, Eq)]
pub struct PingPlan {
    /// Where the pings go.
    pub target: String,
    /// How many pings go there.
    pub count: u32,
    /// How many milliseconds lie between two pings.
    pub spacing_ms: u64,
}

/// The relay: the addresses from which peers have registered.
#[derive(Debug)]
pub struct Relay {
    peers: Vec<String>,
}

impl View for Relay {
    type V = Seq<Seq<char>>;

    closed spec fn view(&self) -> Seq<Seq<char>> {
        text_views(self.peers@)
    }
}

impl Relay {
    /// A relay that knows no peer.
    pub fn new() -> (out: Self)
        ensures
            out@ == Seq::<Seq<char>>::empty(),
    {
        let out = Relay { peers: Vec::new() };
        assert(out@ =~= Seq::<Seq<char>>::empty());
        out
    }

    /// How many peers have registered.
    pub fn len(&self) -> (out: usize)
        ensures
            out == self@.len(),
    {
        self.peers.len()
    }

    /// On `Register` from `source`: every peer known before gets the address
    /// of the newcomer, the newcomer gets their addresses, and the newcomer
    /// is known from now on.
    pub fn register(&mut self, source: String) -> (out: Registration)
        ensures
            out.punsh.address@ == source@,
            text_views(out.punsh_targets@) == spec_others(old(self)@, source@),
            out.ack@.peers == spec_others(old(self)@, source@),
            final(self)@ == spec_registered(old(self)@, source@),
    {
        let mut targets: Vec<String> = Vec::new();
        let mut listed: Vec<String> = Vec::new();
        let mut known: bool = false;
        let mut i: usize = 0;
        assert(self@.take(0) =~= Seq::<Seq<char>>::empty());
        while i < self.peers.len()
            invariant
                i <= self.peers.len(),
                text_views(targets@) == spec_others(self@.take(i as int), source@),
                text_views(listed@) == text_views(targets@),
                known == self@.take(i as int).contains(source@),
            decreases self.peers.len() - i,
        {
            let ghost before = self@.take(i as int);
            let ghost now = self@.take(i + 1);
            let ghost seen = text_views(targets@);
            assert(now.drop_last() =~= before);
            assert(now.last() == self.peers@[i as int]@);
            if self.peers[i] == source {
                known = true;
                assert(now[i as int] == source@);
            } else {
                targets.push(self.peers[i].clone());
                listed.push(self.peers[i].clone());
                assert(text_views(targets@) =~= seen.push(now.last()));
                assert(text_views(listed@) =~= seen.push(now.last()));
                proof {
                    if now.contains(source@) {
                        let k = choose|k: int| 0 <= k < now.len() && now[k] == source@;
                        assert(before[k] == source@);
                    }
                    if before.contains(source@) {
                        let k = choose|k: int| 0 <= k < before.len() && before[k] == source@;
                        assert(now[k] == source@);
                    }
                }
            }
            i += 1;
        }
        assert(self@.take(i as int) =~= self@);
        let punsh = Punsh { address: source.clone() };
        if !known {
            let ghost before = self@;
            self.peers.push(source);
            assert(self@ =~= before.push(source@));
        }
        Registration { punsh, punsh_targets: targets, ack: GetPeersAck { peers: listed } }
    }

    /// On `Punsh` from `source` that names another address: that address is
    /// told of `source`. What comes out is where to send and what.
    pub fn forward(source: String, message: Punsh) -> (out: (String, Punsh))
        ensures
            out.0@ == message.address@,
            out.1.address@ == source@,
    {
        (message.address, Punsh { address: source })
    }
}

/// On `Punsh` at a peer: four pings to the address it names, a quarter of a
/// second apart, to open a path to it.
pub fn ping_plan(message: &Punsh) -> (out: PingPlan)
    ensures
        out.target@ == message.address@,
        out.count == PING_COUNT,
        out.spacing_ms == PING_SPACING_MS,
{
    PingPlan { target: message.address.clone(), count: PING_COUNT, spacing_ms: PING_SPACING_MS }
}

} // verus!
