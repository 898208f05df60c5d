//! The round in which a block is made: content is gathered, the block is
//! mined, its hash is voted on, and the block is finished.
//!
//! A round is in one of five phases. The functions here decide what a node
//! does on a tick of the clock or on a message; sending, sleeping and mining
//! in the background are left to the caller.

use crate::mining::{spec_block_hash, BlockSeed};
use crate::payload::block::possible_block::PossibleBlockPayload;
use crate::payload::blocks::block_data::BlockData;
use crate::payload::blocks::block_gen::BlockGen;
use crate::payload::blocks::hash_val::HashVal;
use crate::payload::blocks::hash_val_ack::HashValAck;
use crate::payload::blocks::new_block::NewBlock;
use crate::pending::{spec_insert, Contribution, PendingContent};
use crate::storage::{hash_valid, spec_zero_hash, zero_hash, BlockRecord, BlockRecordView};
use crate::tally::{is_majority, spec_is_majority, VoteTally};
use vstd::prelude::*;

verus! {

/// The fewest peers with which a node opens a round.
pub const MIN_PEERS: usize = 2;

/// The number of seconds for which content is gathered before the call to
/// mine goes out.
pub const GATHERING_SECS: u64 = 60;

/// The number of seconds after which a round ends, whatever its phase.
pub const ROUND_TIMEOUT_SECS: u64 = 300;

/// Where a round stands.
#[derive(Clone, Copy, Debug, PartialEq, Eq, Structural)]
pub enum Phase {
    /// No round is open.
    Idle,
    /// The node has opened a round and gathers content.
    Collecting,
    /// A block is being mined.
    Mining,
    /// The node has mined a block and counts the votes on its hash.
    Voting,
    /// A hash has won; the block waits to be kept.
    Finalized,
}

/// Why a call to mine is not followed, or gives no block.
#[derive(Debug, PartialEq, Eq, Clone, Copy)]
pub enum ConsensusError {
    /// The block to mine is not beyond the head.
    StaleBlockGen,
    /// The node is mining already.
    ReentrantBlockGen,
    /// No nonce gives the block a hash with the required start.
    NonceExhausted,
}

/// What a vote did.
#[derive(Debug, PartialEq, Eq)]
pub enum VoteOutcome {
    /// The vote does not belong to the round and was not counted.
    Ignored,
    /// The vote was counted. `agrees` tells whether the voter reported the
    /// hash that this node computed; a voter that does not earns a strike.
    Counted { agrees: bool },
    /// The vote was counted and gave `hash` a strict majority.
    Finalized { hash: String, agrees: bool },
}

/// What the clock did to a round.
#[derive(Debug, PartialEq, Eq)]
pub enum RoundEnd {
    /// The round has time left and goes on.
    Running,
    /// Time is up and votes were counted: `hash` has won.
    Decided { hash: String },
    /// Time is up and nothing was decided: the round is given up.
    Abandoned,
}

/// What a node knows of the round.
#[derive(Debug)]
pub struct MiningState {
    /// Where the round stands.
    pub phase: Phase,
    /// Set while the node mines, so that it does not start to mine twice.
    pub is_calculating: bool,
    /// The block that the node mined in this round.
    pub current_block: Option<BlockRecord>,
    /// The content contributed to the next block.
    pub pending_content: PendingContent,
    /// The votes counted in this round.
    pub vote_tally: VoteTally,
}

/// Whether a round is due at this time of the clock: at second 0 of every
/// even minute.
pub open spec fn spec_cadence_due(minute: u8, second: u8) -> bool {
    second == 0 && minute % 2 == 0
}

/// The index of the block after the head; 0 where there is no head.
pub open spec fn spec_next_index(head: Option<BlockRecordView>) -> int {
    match head {
        Some(block) => block.index + 1,
        None => 0,
    }
}

/// The hash to build on: that of the head, or sixty-four zeros where there
/// is no head.
pub open spec fn spec_head_hash(head: Option<BlockRecordView>) -> Seq<char> {
    match head {
        Some(block) => block.hash,
        None => spec_zero_hash(),
    }
}

/// What an optional block holds.
pub open spec fn block_view(block: Option<BlockRecord>) -> Option<BlockRecordView> {
    match block {
        Some(b) => Some(b@),
        None => None,
    }
}

/// What an optional borrowed block holds.
pub open spec fn head_view(head: Option<&BlockRecord>) -> Option<BlockRecordView> {
    match head {
        Some(b) => Some(b@),
        None => None,
    }
}

/// Whether a round is due at this time of the clock.
pub fn cadence_due(minute: u8, second: u8) -> (out: bool)
    ensures
        out == spec_cadence_due(minute, second),
{
    second == 0 && minute % 2 == 0
}

/// How many seconds to sleep until the next minute begins.
pub fn seconds_to_wait(second: u8) -> (out: u64)
    ensures
        out == (if second < 60 {
            60 - second
        } else {
            0
        }),
{
    if second < 60 {
        (60 - second) as u64
    } else {
        0
    }
}

/// The vote that answers a request to check a block: the index of the block
/// and the hash that this node computes for it.
pub fn answer_hash_val(message: &HashVal) -> (out: HashValAck)
    ensures
        out.index == message.index,
        out.hash@ == spec_block_hash(
            message.content@,
            message.index,
            message.timestamp,
            message.prev@,
            message.nonce,
        ),
{
    let seed = BlockSeed {
        content: message.content.clone(),
        index: message.index,
        timestamp: message.timestamp,
        prev: message.prev.clone(),
    };
    HashValAck { index: message.index, hash: seed.hash(message.nonce) }
}

/// On a block that a peer reports with its hash: the hash is computed anew.
/// Where it is the reported one, the vote for it comes out; where it is not,
/// nothing goes out and the sender earns a strike.
pub fn on_possible_block(message: &PossibleBlockPayload) -> (out: Option<HashValAck>)
    ensures
        out is Some <==> message.hash@ == spec_block_hash(
            message.content@,
            message.index,
            message.timestamp,
            message.prev@,
            message.nonce,
        ),
        out matches Some(vote) ==> vote.index == message.index && vote.hash@ == message.hash@,
{
    let seed = BlockSeed {
        content: message.content.clone(),
        index: message.index,
        timestamp: message.timestamp,
        prev: message.prev.clone(),
    };
    let hash = seed.hash(message.nonce);
    if hash == message.hash {
        Some(HashValAck { index: message.index, hash })
    } else {
        None
    }
}

impl MiningState {
    /// What holds of every state: the node mines only in the phase of
    /// mining, it has a block while votes are counted and after, and the
    /// hash of that block is right.
    pub open spec fn wf(&self) -> bool {
        &&& self.vote_tally.wf()
        &&& self.is_calculating ==> self.phase == Phase::Mining
        &&& (self.phase == Phase::Voting || self.phase == Phase::Finalized)
            ==> self.current_block is Some
        &&& self.current_block matches Some(block) ==> hash_valid(block@)
    }

    /// The state in which no round is open.
    pub fn new() -> (out: Self)
        ensures
            out.wf(),
            out.phase == Phase::Idle,
            !out.is_calculating,
            out.current_block is None,
            out.pending_content@ == Seq::<Contribution>::empty(),
            forall|index: u64, hash: Seq<char>| #[trigger] out.vote_tally.count(index, hash) == 0,
    {
        MiningState {
            phase: Phase::Idle,
            is_calculating: false,
            current_block: None,
            pending_content: PendingContent::new(),
            vote_tally: VoteTally::new(),
        }
    }

    /// On a tick of the clock: opens a round if none is open, the time is
    /// due, at least two peers are known and the head leaves room for a
    /// block after it. The message to send to every peer names the index of
    /// the block to make and the hash of the head. Where there is a head, it
    /// also carries the content gathered so far, which is then forgotten, so
    /// that what comes in answer is the content of this round. Else nothing
    /// changes.
    pub fn on_tick(
        &mut self,
        minute: u8,
        second: u8,
        peer_count: usize,
        head: Option<&BlockRecord>,
    ) -> (out: Option<NewBlock>)
        requires
            old(self).wf(),
        ensures
            final(self).wf(),
            out is Some <==> old(self).phase == Phase::Idle && spec_cadence_due(minute, second)
                && peer_count >= MIN_PEERS && spec_next_index(head_view(head)) <= u64::MAX,
            out matches Some(message) ==> {
                &&& message.index == spec_next_index(head_view(head))
                &&& message.prev@ == spec_head_hash(head_view(head))
                &&& message.content@ == (if head is Some {
                    crate::pending::spec_content(old(self).pending_content@)
                } else {
                    Seq::<char>::empty()
                })
                &&& final(self).phase == Phase::Collecting
            },
            out is None ==> final(self).phase == old(self).phase,
            final(self).pending_content@ == (if out is Some && head is Some {
                Seq::<Contribution>::empty()
            } else {
                old(self).pending_content@
            }),
            final(self).is_calculating == old(self).is_calculating,
            final(self).current_block == old(self).current_block,
            final(self).vote_tally == old(self).vote_tally,
    {
        if !matches!(self.phase, Phase::Idle) || !cadence_due(minute, second) || peer_count
            < MIN_PEERS {
            return None;
        }
        let message = match head {
            Some(block) => {
                if block.index == u64::MAX {
                    return None;
                }
                let content = self.pending_content.content();
                self.pending_content.clear();
                NewBlock { index: block.index + 1, prev: block.hash.clone(), content }
            },
            None => NewBlock { index: 0, prev: zero_hash(), content: String::new() },
        };
        self.phase = Phase::Collecting;
        Some(message)
    }

    /// On content from a peer: keeps it under its key, in place of earlier
    /// content with the same key. A contribution with neither key nor
    /// content is passed over.
    pub fn on_block_data(&mut self, data: BlockData) -> (out: bool)
        requires
            old(self).wf(),
        ensures
            final(self).wf(),
            out == (data.unique_key@.len() > 0 || data.content@.len() > 0),
            final(self).pending_content@ == (if out {
                spec_insert(old(self).pending_content@, data.unique_key@, data.content@)
            } else {
                old(self).pending_content@
            }),
            final(self).phase == old(self).phase,
            final(self).is_calculating == old(self).is_calculating,
            final(self).current_block == old(self).current_block,
            final(self).vote_tally == old(self).vote_tally,
    {
        if data.unique_key.as_str().is_empty() && data.content.as_str().is_empty() {
            return false;
        }
        self.pending_content.insert(data.unique_key, data.content);
        true
    }

    /// When a round has lasted `elapsed_secs` seconds: after a minute of
    /// gathering, ends the gathering and gives the call to mine that goes to
    /// every peer, with the gathered content in the order in which it came.
    /// Nothing before that, outside the phase of gathering, or where the head
    /// leaves no room for a block after it.
    pub fn start_mining(
        &mut self,
        elapsed_secs: u64,
        timestamp: i64,
        sign_key: String,
        head: Option<&BlockRecord>,
    ) -> (out: Option<BlockGen>)
        requires
            old(self).wf(),
        ensures
            final(self).wf(),
            out is Some <==> old(self).phase == Phase::Collecting && elapsed_secs
                >= GATHERING_SECS && spec_next_index(head_view(head)) <= u64::MAX,
            out matches Some(message) ==> {
                &&& message.index == spec_next_index(head_view(head))
                &&& message.timestamp == timestamp
                &&& message.sign_key@ == sign_key@
                &&& message.prev@ == spec_head_hash(head_view(head))
                &&& message.content@ == crate::pending::spec_content(old(self).pending_content@)
                &&& final(self).phase == Phase::Mining
            },
            out is None ==> final(self).phase == old(self).phase,
            final(self).is_calculating == old(self).is_calculating,
            final(self).current_block == old(self).current_block,
            final(self).pending_content == old(self).pending_content,
            final(self).vote_tally == old(self).vote_tally,
    {
        if !matches!(self.phase, Phase::Collecting) || elapsed_secs < GATHERING_SECS {
            return None;
        }
        let (index, prev) = match head {
            Some(block) => {
                if block.index == u64::MAX {
                    return None;
                }
                (block.index + 1, block.hash.clone())
            },
            None => (0, zero_hash()),
        };
        let content = self.pending_content.content();
        self.phase = Phase::Mining;
        Some(BlockGen { index, timestamp, sign_key, prev, content })
    }

    /// On a call to mine: refuses a block that is not beyond the head, then
    /// a call that comes while the node mines. Else the node is set to
    /// mining and gets the seed of the block to mine.
    pub fn on_block_gen(&mut self, head: Option<&BlockRecord>, message: &BlockGen) -> (out: Result<
        BlockSeed,
        ConsensusError,
    >)
        requires
            old(self).wf(),
        ensures
            final(self).wf(),
            match out {
                Ok(seed) => {
                    &&& !(head matches Some(block) && message.index <= block.index)
                    &&& !old(self).is_calculating
                    &&& seed.content@ == message.content@
                    &&& seed.index == message.index
                    &&& seed.timestamp == message.timestamp
                    &&& seed.prev@ == message.prev@
                    &&& final(self).is_calculating
                    &&& final(self).phase == Phase::Mining
                },
                Err(ConsensusError::StaleBlockGen) => {
                    &&& head matches Some(block) && message.index <= block.index
                    &&& final(self).is_calculating == old(self).is_calculating
                    &&& final(self).phase == old(self).phase
                },
                Err(ConsensusError::ReentrantBlockGen) => {
                    &&& !(head matches Some(block) && message.index <= block.index)
                    &&& old(self).is_calculating
                    &&& final(self).is_calculating
                    &&& final(self).phase == old(self).phase
                },
                Err(ConsensusError::NonceExhausted) => false,
            },
            final(self).current_block == old(self).current_block,
            final(self).pending_content == old(self).pending_content,
            final(self).vote_tally == old(self).vote_tally,
    {
        if let Some(block) = head {
            if message.index <= block.index {
                return Err(ConsensusError::StaleBlockGen);
            }
        }
        if self.is_calculating {
            return Err(ConsensusError::ReentrantBlockGen);
        }
        self.is_calculating = true;
        self.phase = Phase::Mining;
        Ok(
            BlockSeed {
                content: message.content.clone(),
                index: message.index,
                timestamp: message.timestamp,
                prev: message.prev.clone(),
            },
        )
    }

    /// When the miner has found a nonce: the node stops mining, keeps the
    /// block with the hash that the nonce gives, and starts to count votes.
    /// What comes out goes to every peer: the block without its hash.
    /// Nothing happens where the node is not mining.
    pub fn on_pow_found(&mut self, seed: &BlockSeed, nonce: u64) -> (out: Option<HashVal>)
        requires
            old(self).wf(),
        ensures
            final(self).wf(),
            out is Some <==> old(self).is_calculating,
            out matches Some(message) ==> {
                &&& message.index == seed.index
                &&& message.timestamp == seed.timestamp
                &&& message.nonce == nonce
                &&& message.prev@ == seed.prev@
                &&& message.content@ == seed.content@
                &&& !final(self).is_calculating
                &&& final(self).phase == Phase::Voting
                &&& block_view(final(self).current_block) == Some(
                    BlockRecordView {
                        index: seed.index,
                        content: seed.content@,
                        timestamp: seed.timestamp,
                        nonce,
                        prev: seed.prev@,
                        hash: seed.hash_with(nonce),
                    },
                )
            },
            out is None ==> {
                &&& final(self).phase == old(self).phase
                &&& !final(self).is_calculating
                &&& final(self).current_block == old(self).current_block
            },
            final(self).pending_content == old(self).pending_content,
            final(self).vote_tally == old(self).vote_tally,
    {
        if !self.is_calculating {
            return None;
        }
        let hash = seed.hash(nonce);
        self.is_calculating = false;
        self.phase = Phase::Voting;
        self.current_block = Some(
            BlockRecord {
                index: seed.index,
                content: seed.content.clone(),
                timestamp: seed.timestamp,
                nonce,
                prev: seed.prev.clone(),
                hash,
            },
        );
        Some(
            HashVal {
                index: seed.index,
                timestamp: seed.timestamp,
                nonce,
                prev: seed.prev.clone(),
                content: seed.content.clone(),
            },
        )
    }

    /// On a vote: counts it if votes are being counted and it is about the
    /// block of this node. The hash with the vote wins as soon as it has the
    /// votes of more than half of the `peer_count` peers.
    pub fn on_hash_val_ack(&mut self, peer_count: usize, ack: &HashValAck) -> (out: VoteOutcome)
        requires
            old(self).wf(),
        ensures
            final(self).wf(),
            out is Ignored <==> !(old(self).phase == Phase::Voting
                && old(self).current_block->0.index == ack.index),
            out is Ignored ==> {
                &&& final(self).phase == old(self).phase
                &&& final(self).vote_tally == old(self).vote_tally
            },
            !(out is Ignored) ==> {
                &&& final(self).vote_tally.count(ack.index, ack.hash@) == spec_votes_after(
                    old(self).vote_tally.count(ack.index, ack.hash@),
                )
                &&& forall|i: u64, h: Seq<char>|
                    !(i == ack.index && h == ack.hash@) ==> #[trigger] final(self).vote_tally.count(
                        i,
                        h,
                    ) == old(self).vote_tally.count(i, h)
            },
            out matches VoteOutcome::Counted { agrees } ==> {
                &&& !spec_is_majority(
                    final(self).vote_tally.count(ack.index, ack.hash@),
                    peer_count as nat,
                )
                &&& agrees == (ack.hash@ == old(self).current_block->0.hash@)
                &&& final(self).phase == Phase::Voting
            },
            out matches VoteOutcome::Finalized { hash, agrees } ==> {
                &&& spec_is_majority(
                    final(self).vote_tally.count(ack.index, ack.hash@),
                    peer_count as nat,
                )
                &&& hash@ == ack.hash@
                &&& agrees == (ack.hash@ == old(self).current_block->0.hash@)
                &&& final(self).phase == Phase::Finalized
            },
            final(self).is_calculating == old(self).is_calculating,
            block_view(final(self).current_block) == block_view(old(self).current_block),
            final(self).pending_content == old(self).pending_content,
    {
        if !matches!(self.phase, Phase::Voting) {
            return VoteOutcome::Ignored;
        }
        let (index, agrees) = match &self.current_block {
            Some(block) => (block.index, block.hash == ack.hash),
            None => { return VoteOutcome::Ignored; },
        };
        if index != ack.index {
            return VoteOutcome::Ignored;
        }
        let count = self.vote_tally.record(ack.index, ack.hash.clone());
        if is_majority(count, peer_count) {
            self.phase = Phase::Finalized;
            VoteOutcome::Finalized { hash: ack.hash.clone(), agrees }
        } else {
            VoteOutcome::Counted { agrees }
        }
    }

    /// When the time for votes is over: the hash that leads wins, of several
    /// with the most votes the one that comes first in the order of a
    /// dictionary. Nothing where no votes are being counted or none came.
    pub fn on_deadline(&mut self) -> (out: Option<String>)
        requires
            old(self).wf(),
        ensures
            final(self).wf(),
            match out {
                Some(hash) => {
                    &&& old(self).phase == Phase::Voting
                    &&& old(self).vote_tally.leads(old(self).current_block->0.index, hash@)
                    &&& final(self).phase == Phase::Finalized
                },
                None => {
                    &&& old(self).phase == Phase::Voting ==> old(self).vote_tally.silent(
                        old(self).current_block->0.index,
                    )
                    &&& final(self).phase == old(self).phase
                },
            },
            final(self).is_calculating == old(self).is_calculating,
            final(self).current_block == old(self).current_block,
            final(self).pending_content == old(self).pending_content,
            final(self).vote_tally == old(self).vote_tally,
    {
        if !matches!(self.phase, Phase::Voting) {
            return None;
        }
        let index = match &self.current_block {
            Some(block) => block.index,
            None => { return None; },
        };
        match self.vote_tally.leader(index) {
            Some(hash) => {
                self.phase = Phase::Finalized;
                Some(hash)
            },
            None => None,
        }
    }

    /// When a round has lasted `elapsed_secs` seconds: before five minutes
    /// nothing happens. After that a round in which votes are counted is
    /// decided for the hash that leads; any other round, and one without
    /// votes, is given up, and the state is as after `reset`.
    pub fn on_timeout(&mut self, elapsed_secs: u64) -> (out: RoundEnd)
        requires
            old(self).wf(),
        ensures
            final(self).wf(),
            out is Running <==> elapsed_secs < ROUND_TIMEOUT_SECS,
            out is Running ==> *final(self) == *old(self),
            out matches RoundEnd::Decided { hash } ==> {
                &&& old(self).phase == Phase::Voting
                &&& old(self).vote_tally.leads(old(self).current_block->0.index, hash@)
                &&& final(self).phase == Phase::Finalized
                &&& final(self).is_calculating == old(self).is_calculating
                &&& final(self).current_block == old(self).current_block
                &&& final(self).pending_content == old(self).pending_content
                &&& final(self).vote_tally == old(self).vote_tally
            },
            out is Abandoned ==> {
                &&& old(self).phase == Phase::Voting ==> old(self).vote_tally.silent(
                    old(self).current_block->0.index,
                )
                &&& final(self).phase == Phase::Idle
                &&& !final(self).is_calculating
                &&& final(self).current_block is None
                &&& final(self).pending_content@ == Seq::<Contribution>::empty()
                &&& forall|index: u64, hash: Seq<char>|
                    #[trigger] final(self).vote_tally.count(index, hash) == 0
            },
    {
        if elapsed_secs < ROUND_TIMEOUT_SECS {
            return RoundEnd::Running;
        }
        match self.on_deadline() {
            Some(hash) => RoundEnd::Decided { hash },
            None => {
                self.reset();
                RoundEnd::Abandoned
            },
        }
    }

    /// The block to keep once `hash` has won: the block of this node, if a
    /// hash has won and it is the hash of that block.
    pub fn finalized_block(&self, hash: &String) -> (out: Option<BlockRecord>)
        requires
            self.wf(),
        ensures
            out is Some <==> self.phase == Phase::Finalized && self.current_block->0.hash@
                == hash@,
            out matches Some(block) ==> Some(block@) == block_view(self.current_block)
                && hash_valid(block@),
    {
        if !matches!(self.phase, Phase::Finalized) {
            return None;
        }
        match &self.current_block {
            Some(block) => {
                if block.hash == *hash {
                    Some(block.duplicate())
                } else {
                    None
                }
            },
            None => None,
        }
    }

    /// Ends the round, after its block has been kept or when it has taken
    /// too long: no round is open, the node does not mine, and block,
    /// content and votes are forgotten.
    pub fn reset(&mut self)
        ensures
            final(self).wf(),
            final(self).phase == Phase::Idle,
            !final(self).is_calculating,
            final(self).current_block is None,
            final(self).pending_content@ == Seq::<Contribution>::empty(),
            forall|index: u64, hash: Seq<char>|
                #[trigger] final(self).vote_tally.count(index, hash) == 0,
    {
        self.phase = Phase::Idle;
        self.is_calculating = false;
        self.current_block = None;
        self.pending_content.clear();
        self.vote_tally.clear();
    }
}

/// The whole answer to a call to mine, in one piece: the call is checked,
/// the block is mined from nonce 0 upwards, and the node turns to counting
/// votes. What comes out goes to every peer: the block with the smallest
/// nonce that gives its hash the required start, without that hash.
pub fn block_gen(state: &mut MiningState, head: Option<&BlockRecord>, message: &BlockGen) -> (out:
    Result<HashVal, ConsensusError>)
    requires
        old(state).wf(),
    ensures
        final(state).wf(),
        match out {
            Ok(found) => {
                &&& !(head matches Some(block) && message.index <= block.index)
                &&& !old(state).is_calculating
                &&& found.index == message.index
                &&& found.timestamp == message.timestamp
                &&& found.prev@ == message.prev@
                &&& found.content@ == message.content@
                &&& message.sign_key@.is_prefix_of(spec_hash_of(message, found.nonce))
                &&& forall|n: u64|
                    n < found.nonce ==> !message.sign_key@.is_prefix_of(
                        #[trigger] spec_hash_of(message, n),
                    )
                &&& final(state).phase == Phase::Voting
                &&& !final(state).is_calculating
                &&& block_view(final(state).current_block) == Some(
                    BlockRecordView {
                        index: message.index,
                        content: message.content@,
                        timestamp: message.timestamp,
                        nonce: found.nonce,
                        prev: message.prev@,
                        hash: spec_hash_of(message, found.nonce),
                    },
                )
            },
            Err(ConsensusError::StaleBlockGen) => {
                &&& head matches Some(block) && message.index <= block.index
                &&& final(state).is_calculating == old(state).is_calculating
                &&& final(state).phase == old(state).phase
                &&& final(state).current_block == old(state).current_block
            },
            Err(ConsensusError::ReentrantBlockGen) => {
                &&& !(head matches Some(block) && message.index <= block.index)
                &&& old(state).is_calculating
                &&& final(state).is_calculating
                &&& final(state).phase == old(state).phase
                &&& final(state).current_block == old(state).current_block
            },
            Err(ConsensusError::NonceExhausted) => {
                &&& !(head matches Some(block) && message.index <= block.index)
                &&& !old(state).is_calculating
                &&& !crate::mining::spec_reachable(message.sign_key@) || forall|n: u64|
                    !message.sign_key@.is_prefix_of(#[trigger] spec_hash_of(message, n))
                &&& final(state).phase == Phase::Idle
                &&& !final(state).is_calculating
                &&& final(state).current_block is None
            },
        },
        final(state).pending_content == old(state).pending_content,
        final(state).vote_tally == old(state).vote_tally,
{
    let seed = match state.on_block_gen(head, message) {
        Ok(seed) => seed,
        Err(e) => { return Err(e); },
    };
    match seed.mine(message.sign_key.as_str()) {
        Ok((nonce, _)) => {
            proof {
                assert(seed.solved_by(message.sign_key@, nonce));
                assert forall|n: u64| n < nonce implies !message.sign_key@.is_prefix_of(
                    #[trigger] spec_hash_of(message, n),
                ) by {
                    assert(!seed.solved_by(message.sign_key@, n));
                }
            }
            match state.on_pow_found(&seed, nonce) {
                Some(found) => Ok(found),
                None => Err(ConsensusError::ReentrantBlockGen),
            }
        },
        Err(_) => {
            proof {
                if crate::mining::spec_reachable(message.sign_key@) {
                    assert forall|n: u64|
                        !message.sign_key@.is_prefix_of(#[trigger] spec_hash_of(message, n)) by {
                        assert(!seed.solved_by(message.sign_key@, n));
                    }
                }
            }
            state.is_calculating = false;
            state.phase = Phase::Idle;
            state.current_block = None;
            Err(ConsensusError::NonceExhausted)
        },
    }
}

/// The hash of the block that a call to mine describes, with a nonce.
pub open spec fn spec_hash_of(message: &BlockGen, nonce: u64) -> Seq<char> {
    spec_block_hash(message.content@, message.index, message.timestamp, message.prev@, nonce)
}

/// The count of a hash after one more vote for it.
pub open spec fn spec_votes_after(count: nat) -> nat {
    if count < u64::MAX {
        count + 1
    } else {
        u64::MAX as nat
    }
}

} // verus!
