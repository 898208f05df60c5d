use carina::consensus::{
    answer_hash_val, block_gen, cadence_due, on_possible_block, seconds_to_wait, ConsensusError,
    MiningState, Phase, RoundEnd, VoteOutcome,
};
use carina::mining::BlockSeed;
use carina::payload::blocks::block_data::BlockData;
use carina::payload::blocks::block_gen::BlockGen;
use carina::payload::blocks::hash_val::HashVal;
use carina::payload::block::possible_block::PossibleBlockPayload;
use carina::payload::blocks::hash_val_ack::HashValAck;
use carina::payload::blocks::new_block::NewBlock;
use carina::pending::{NewBlockContent, PendingContent};
use carina::storage::BlockRecord;
use carina::tally::{is_majority, less_than, VoteTally};

fn head() -> BlockRecord {
    BlockRecord {
        index: 4,
        content: String::from("c"),
        timestamp: 1,
        nonce: 2,
        prev: "0".repeat(64),
        hash: String::from("headhash"),
    }
}

fn voting_state() -> (MiningState, String) {
    let mut state = MiningState::new();
    let message = BlockGen {
        index: 0,
        timestamp: 0,
        sign_key: String::from("0"),
        prev: "0".repeat(64),
        content: String::from("x"),
    };
    let found = block_gen(&mut state, None, &message).unwrap();
    assert_eq!(found.nonce, 6);
    let hash = state.current_block.as_ref().unwrap().hash.clone();
    (state, hash)
}

#[test]
fn cadence() {
    assert!(cadence_due(0, 0));
    assert!(cadence_due(58, 0));
    assert!(!cadence_due(1, 0));
    assert!(!cadence_due(2, 1));
    assert_eq!(seconds_to_wait(0), 60);
    assert_eq!(seconds_to_wait(59), 1);
    assert_eq!(seconds_to_wait(60), 0);
}

#[test]
fn one_peer_suppresses_new_block() {
    let mut state = MiningState::new();
    assert_eq!(state.on_tick(2, 0, 0, None), None);
    assert_eq!(state.on_tick(2, 0, 1, None), None);
    assert_eq!(state.phase, Phase::Idle);
    assert_eq!(
        state.on_tick(2, 0, 2, None),
        Some(NewBlock { index: 0, prev: "0".repeat(64), content: String::new() })
    );
    assert_eq!(state.phase, Phase::Collecting);
}

#[test]
fn tick_opens_a_round_on_the_head() {
    let mut state = MiningState::new();
    state.on_block_data(BlockData { unique_key: String::from("a"), content: String::from("1") });
    state.on_block_data(BlockData { unique_key: String::from("b"), content: String::from("2") });
    assert_eq!(state.on_tick(3, 0, 5, Some(&head())), None);
    assert_eq!(state.on_tick(4, 30, 5, Some(&head())), None);
    assert_eq!(state.pending_content.len(), 2);
    assert_eq!(
        state.on_tick(4, 0, 5, Some(&head())),
        Some(NewBlock { index: 5, prev: String::from("headhash"), content: String::from("12") })
    );
    assert_eq!(state.pending_content.len(), 0);
    // a round is open: the next tick opens none
    assert_eq!(state.on_tick(4, 0, 5, Some(&head())), None);
    assert_eq!(state.phase, Phase::Collecting);
}

#[test]
fn content_is_gathered_and_mined() {
    let mut state = MiningState::new();
    assert_eq!(state.start_mining(60, 9, String::from("0"), None), None);
    state.on_tick(0, 0, 2, Some(&head()));
    assert!(state.on_block_data(BlockData {
        unique_key: String::from("k1"),
        content: String::from("one")
    }));
    assert!(state.on_block_data(BlockData {
        unique_key: String::from("k2"),
        content: String::from("two")
    }));
    assert!(state.on_block_data(BlockData {
        unique_key: String::from("k1"),
        content: String::from("uno")
    }));
    assert!(!state.on_block_data(BlockData { unique_key: String::new(), content: String::new() }));
    assert_eq!(state.pending_content.len(), 2);
    assert_eq!(state.pending_content.content(), "unotwo");
    // content is gathered for a minute
    assert_eq!(state.start_mining(0, 9, String::from("0"), Some(&head())), None);
    assert_eq!(state.start_mining(59, 9, String::from("0"), Some(&head())), None);
    assert_eq!(state.phase, Phase::Collecting);
    assert_eq!(
        state.start_mining(60, 9, String::from("0"), Some(&head())),
        Some(BlockGen {
            index: 5,
            timestamp: 9,
            sign_key: String::from("0"),
            prev: String::from("headhash"),
            content: String::from("unotwo"),
        })
    );
    assert_eq!(state.phase, Phase::Mining);
}

#[test]
fn block_gen_is_checked() {
    let mut state = MiningState::new();
    let stale = BlockGen {
        index: 4,
        timestamp: 0,
        sign_key: String::from("0"),
        prev: String::from("p"),
        content: String::from("c"),
    };
    assert_eq!(state.on_block_gen(Some(&head()), &stale).err(), Some(ConsensusError::StaleBlockGen));
    assert!(!state.is_calculating);
    let fresh = BlockGen { index: 5, ..stale.clone() };
    let seed = state.on_block_gen(Some(&head()), &fresh).unwrap();
    assert_eq!(seed.index, 5);
    assert_eq!(seed.content, "c");
    assert_eq!(seed.prev, "p");
    assert!(state.is_calculating);
    assert_eq!(state.phase, Phase::Mining);
    assert_eq!(
        state.on_block_gen(Some(&head()), &fresh).err(),
        Some(ConsensusError::ReentrantBlockGen)
    );
    assert_eq!(block_gen(&mut state, Some(&head()), &fresh), Err(ConsensusError::ReentrantBlockGen));
    assert_eq!(
        state.on_block_gen(Some(&head()), &stale).err(),
        Some(ConsensusError::StaleBlockGen)
    );

    let found = state.on_pow_found(&seed, 12).unwrap();
    assert_eq!(
        found,
        HashVal {
            index: 5,
            timestamp: 0,
            nonce: 12,
            prev: String::from("p"),
            content: String::from("c")
        }
    );
    assert!(!state.is_calculating);
    assert_eq!(state.phase, Phase::Voting);
    let block = state.current_block.as_ref().unwrap();
    assert_eq!(block.hash, seed.hash(12));
    assert!(block.has_valid_hash());
    // not mining any more: a second result is passed over
    assert_eq!(state.on_pow_found(&seed, 13), None);
}

#[test]
fn hash_val_is_answered_with_the_recomputed_hash() {
    let message = HashVal {
        index: 0,
        timestamp: 0,
        nonce: 6,
        prev: "0".repeat(64),
        content: String::from("x"),
    };
    assert_eq!(
        answer_hash_val(&message),
        HashValAck {
            index: 0,
            hash: String::from(
                "0b7f2d8b7b0d8abd62e8245684fbe6ce8d367e20fd56a68e23f7c6d260a44a29"
            )
        }
    );
}

#[test]
fn reported_block_is_checked() {
    let right = PossibleBlockPayload {
        index: 0,
        content: String::from("x"),
        timestamp: 0,
        prev: "0".repeat(64),
        nonce: 6,
        hash: String::from("0b7f2d8b7b0d8abd62e8245684fbe6ce8d367e20fd56a68e23f7c6d260a44a29"),
    };
    assert_eq!(
        on_possible_block(&right),
        Some(HashValAck {
            index: 0,
            hash: String::from(
                "0b7f2d8b7b0d8abd62e8245684fbe6ce8d367e20fd56a68e23f7c6d260a44a29"
            )
        })
    );
    let wrong = PossibleBlockPayload { nonce: 7, ..right };
    assert_eq!(on_possible_block(&wrong), None);
}

#[test]
fn majority_finalizes() {
    let (mut state, h1) = voting_state();
    let h2 = String::from("ffff");
    assert_eq!(
        state.on_hash_val_ack(3, &HashValAck { index: 0, hash: h1.clone() }),
        VoteOutcome::Counted { agrees: true }
    );
    assert_eq!(
        state.on_hash_val_ack(3, &HashValAck { index: 0, hash: h2.clone() }),
        VoteOutcome::Counted { agrees: false }
    );
    assert_eq!(
        state.on_hash_val_ack(3, &HashValAck { index: 0, hash: h1.clone() }),
        VoteOutcome::Finalized { hash: h1.clone(), agrees: true }
    );
    assert_eq!(state.phase, Phase::Finalized);
    let block = state.finalized_block(&h1).unwrap();
    assert_eq!(block.hash, h1);
    assert_eq!(block.nonce, 6);
    assert_eq!(state.finalized_block(&h2), None);
    // votes after the end are passed over
    assert_eq!(
        state.on_hash_val_ack(3, &HashValAck { index: 0, hash: h1.clone() }),
        VoteOutcome::Ignored
    );
    state.reset();
    assert_eq!(state.phase, Phase::Idle);
    assert_eq!(state.current_block, None);
    assert_eq!(state.pending_content.len(), 0);
    assert_eq!(state.vote_tally.votes(0, &h1), 0);
}

#[test]
fn votes_in_the_order_h1_h1_h2() {
    let (mut state, h1) = voting_state();
    state.on_hash_val_ack(3, &HashValAck { index: 0, hash: h1.clone() });
    assert_eq!(
        state.on_hash_val_ack(3, &HashValAck { index: 0, hash: h1.clone() }),
        VoteOutcome::Finalized { hash: h1.clone(), agrees: true }
    );
}

#[test]
fn tie_goes_to_the_smallest_hash() {
    let (mut state, own) = voting_state();
    for hash in ["bbbb", "aaaa", "cccc"] {
        assert_eq!(
            state.on_hash_val_ack(3, &HashValAck { index: 0, hash: String::from(hash) }),
            VoteOutcome::Counted { agrees: false }
        );
    }
    assert_eq!(state.on_deadline(), Some(String::from("aaaa")));
    assert_eq!(state.phase, Phase::Finalized);
    assert_eq!(state.finalized_block(&String::from("aaaa")), None);
    assert!(state.finalized_block(&own).is_some());
}

#[test]
fn round_ends_after_five_minutes() {
    let (mut state, _) = voting_state();
    for hash in ["bbbb", "aaaa"] {
        state.on_hash_val_ack(5, &HashValAck { index: 0, hash: String::from(hash) });
    }
    assert_eq!(state.on_timeout(299), RoundEnd::Running);
    assert_eq!(state.phase, Phase::Voting);
    assert_eq!(state.on_timeout(300), RoundEnd::Decided { hash: String::from("aaaa") });
    assert_eq!(state.phase, Phase::Finalized);

    let (mut state, _) = voting_state();
    assert_eq!(state.on_timeout(301), RoundEnd::Abandoned);
    assert_eq!(state.phase, Phase::Idle);
    assert_eq!(state.current_block, None);

    let mut state = MiningState::new();
    state.on_tick(0, 0, 2, None);
    state.on_block_data(BlockData { unique_key: String::from("k"), content: String::from("c") });
    assert_eq!(state.on_timeout(0), RoundEnd::Running);
    assert_eq!(state.pending_content.len(), 1);
    assert_eq!(state.on_timeout(u64::MAX), RoundEnd::Abandoned);
    assert_eq!(state.phase, Phase::Idle);
    assert_eq!(state.pending_content.len(), 0);
}

#[test]
fn votes_for_other_blocks_and_outside_voting_are_ignored() {
    let mut idle = MiningState::new();
    assert_eq!(
        idle.on_hash_val_ack(3, &HashValAck { index: 0, hash: String::from("aa") }),
        VoteOutcome::Ignored
    );
    assert_eq!(idle.on_deadline(), None);
    let (mut state, h1) = voting_state();
    assert_eq!(
        state.on_hash_val_ack(3, &HashValAck { index: 1, hash: h1.clone() }),
        VoteOutcome::Ignored
    );
    assert_eq!(state.on_deadline(), None);
    assert_eq!(state.phase, Phase::Voting);
}

#[test]
fn block_gen_with_a_start_that_no_hash_has() {
    let mut state = MiningState::new();
    let message = BlockGen {
        index: 1,
        timestamp: 5,
        sign_key: String::from("xyz"),
        prev: String::from("p"),
        content: String::from("c"),
    };
    assert_eq!(block_gen(&mut state, None, &message), Err(ConsensusError::NonceExhausted));
    assert_eq!(state.phase, Phase::Idle);
    assert!(!state.is_calculating);
    assert_eq!(state.current_block, None);
}

#[test]
fn block_gen_finds_the_smallest_nonce() {
    let mut state = MiningState::new();
    state.on_block_data(BlockData { unique_key: String::from("k"), content: String::from("v") });
    let message = BlockGen {
        index: 1,
        timestamp: 5,
        sign_key: String::from("0"),
        prev: String::from("p"),
        content: String::from("c"),
    };
    let found = block_gen(&mut state, None, &message).unwrap();
    let seed =
        BlockSeed { content: String::from("c"), index: 1, timestamp: 5, prev: String::from("p") };
    assert!(seed.hash(found.nonce).starts_with('0'));
    for smaller in 0..found.nonce {
        assert!(!seed.hash(smaller).starts_with('0'));
    }
    assert_eq!(state.phase, Phase::Voting);
    // what was gathered stays
    assert_eq!(state.pending_content.content(), "v");
}

#[test]
fn tally_counts_and_leads() {
    let mut tally = VoteTally::new();
    assert_eq!(tally.leader(1), None);
    assert_eq!(tally.record(1, String::from("b")), 1);
    assert_eq!(tally.record(1, String::from("a")), 1);
    assert_eq!(tally.record(2, String::from("0")), 1);
    assert_eq!(tally.leader(1), Some(String::from("a")));
    assert_eq!(tally.record(1, String::from("b")), 2);
    assert_eq!(tally.leader(1), Some(String::from("b")));
    assert_eq!(tally.leader(2), Some(String::from("0")));
    assert_eq!(tally.leader(3), None);
    assert_eq!(tally.votes(1, &String::from("b")), 2);
    assert_eq!(tally.votes(1, &String::from("c")), 0);
    tally.clear();
    assert_eq!(tally.votes(1, &String::from("b")), 0);
    assert!(is_majority(2, 3));
    assert!(!is_majority(1, 3));
    assert!(!is_majority(2, 4));
    assert!(is_majority(3, 4));
    assert!(is_majority(1, 1));
    assert!(is_majority(1, 0));
    assert!(!is_majority(0, 0));
}

#[test]
fn dictionary_order() {
    assert!(less_than("a", "b"));
    assert!(!less_than("b", "a"));
    assert!(!less_than("a", "a"));
    assert!(less_than("", "a"));
    assert!(!less_than("a", ""));
    assert!(!less_than("", ""));
    assert!(less_than("ab", "abc"));
    assert!(less_than("abc", "abd"));
    assert!(less_than("0f", "1a"));
}

#[test]
fn console_content_event() {
    let mut event = NewBlockContent::new(PendingContent::new());
    assert!(event.execute(b"~key~~content~"));
    assert!(event.execute(b"~key~~other~"));
    assert!(event.execute(b"~only key~"));
    assert!(!event.execute(b""));
    assert!(!event.execute(b"~~~~"));
    assert!(event.execute(b"~\xff~~text~"));
    let pending = event.into_inner();
    assert_eq!(pending.len(), 3);
    assert_eq!(pending.content(), "othertext");
}
