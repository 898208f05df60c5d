use carina::codes::{EventCodes, StatusCodes};
use carina::dispatch::{Counters, Dispatch, Dispatcher, DropReason};
use carina::envelope::{increment_le, EnvelopeError, Nacl};
use carina::mining::BlockSeed;
use carina::payload::blocks::get_block::GetBlock;
use carina::payload::blocks::get_block_ack::GetBlockAck;
use carina::payload::blocks::get_blocks_ack::GetBlocksAck;
use carina::payload::empty::EmptyPayload;
use carina::payload::hole_puncher::punsh::Punsh;
use carina::payload::peers::get_peers_ack::GetPeersAck;
use carina::payload::Payload;
use carina::protocol::{BlockchainProtocol, Header, ProtocolError};
use carina::registry::PeerRegistry;
use carina::relay::{ping_plan, PingPlan, Relay};
use carina::storage::{zero_hash, BlockRecord, BlockStore, Invariant, StorageError};
use carina::sync::{get_blocks_ack, inventory, on_get_block_ack, on_sync_blocks_req};
use carina::trial::SyncPeers;

#[test]
fn hole_punch_relay_scenario() {
    let a = String::from("1.2.3.4:5");
    let b = String::from("6.7.8.9:10");
    let mut relay = Relay::new();

    let first = relay.register(a.clone());
    assert_eq!(first.punsh_targets, Vec::<String>::new());
    assert_eq!(first.ack.peers, Vec::<String>::new());
    assert_eq!(first.punsh, Punsh { address: a.clone() });

    let second = relay.register(b.clone());
    assert_eq!(second.punsh, Punsh { address: b.clone() });
    assert_eq!(second.punsh_targets, vec![a.clone()]);
    assert_eq!(second.ack.peers, vec![a.clone()]);
    assert_eq!(relay.len(), 2);

    // one that registers again is told of the others and not of itself
    let again = relay.register(a.clone());
    assert_eq!(again.punsh_targets, vec![b.clone()]);
    assert_eq!(again.ack.peers, vec![b.clone()]);
    assert_eq!(relay.len(), 2);
}

#[test]
fn punsh_is_forwarded_and_answered_with_pings() {
    let (target, payload) =
        Relay::forward(String::from("1.1.1.1:1"), Punsh { address: String::from("2.2.2.2:2") });
    assert_eq!(target, "2.2.2.2:2");
    assert_eq!(payload, Punsh { address: String::from("1.1.1.1:1") });
    assert_eq!(
        ping_plan(&Punsh { address: String::from("2.2.2.2:2") }),
        PingPlan { target: String::from("2.2.2.2:2"), count: 4, spacing_ms: 250 }
    );
}

#[test]
fn nonce_counts_up_with_carry() {
    let mut nonce = vec![0u8; 24];
    increment_le(&mut nonce);
    assert_eq!(nonce[0], 1);
    assert_eq!(&nonce[1..], &[0u8; 23]);
    let mut nonce = vec![255u8, 255, 7];
    increment_le(&mut nonce);
    assert_eq!(nonce, vec![0, 0, 8]);
    let mut nonce = vec![255u8; 24];
    increment_le(&mut nonce);
    assert_eq!(nonce, vec![0u8; 24]);
    let mut nonce: Vec<u8> = Vec::new();
    increment_le(&mut nonce);
    assert_eq!(nonce, Vec::<u8>::new());
}

#[test]
fn envelope_opens_to_what_was_sealed() {
    let mut ours = Nacl::new();
    let theirs = Nacl::new();
    let plaintext = b"header and payload".to_vec();
    let packet = ours.seal(&plaintext, &theirs.get_public_key()).unwrap();
    assert_eq!(packet.len(), 24 + plaintext.len() + 16);
    assert_ne!(&packet[24..24 + plaintext.len()], &plaintext[..]);
    assert_eq!(theirs.open(&packet, &ours.get_public_key()), Ok(plaintext.clone()));

    // the nonce is counted up: the next packet has another one
    let next = ours.seal(&plaintext, &theirs.get_public_key()).unwrap();
    let mut expected = packet[..24].to_vec();
    increment_le(&mut expected);
    assert_eq!(&next[..24], &expected[..]);
    assert_eq!(theirs.open(&next, &ours.get_public_key()), Ok(plaintext.clone()));

    // the empty message too
    let empty = ours.seal(&[], &theirs.get_public_key()).unwrap();
    assert_eq!(theirs.open(&empty, &ours.get_public_key()), Ok(Vec::new()));
}

#[test]
fn envelope_rejects_every_single_bit_mutation() {
    let mut ours = Nacl::new();
    let theirs = Nacl::new();
    let packet = ours.seal(b"vote", &theirs.get_public_key()).unwrap();
    for position in 0..packet.len() {
        for bit in 0..8 {
            let mut changed = packet.clone();
            changed[position] ^= 1 << bit;
            assert_eq!(
                theirs.open(&changed, &ours.get_public_key()),
                Err(EnvelopeError::BoxAuthFailure)
            );
        }
    }
}

#[test]
fn envelope_errors() {
    let mut ours = Nacl::new();
    let theirs = Nacl::new();
    let stranger = Nacl::new();
    assert_eq!(ours.seal(b"m", &[1, 2, 3]), Err(EnvelopeError::InvalidKey));
    assert_eq!(
        ours.seal(&vec![0; 1461], &theirs.get_public_key()),
        Err(EnvelopeError::PacketTooLarge)
    );
    assert_eq!(ours.seal(&vec![0; 1460], &theirs.get_public_key()).unwrap().len(), 1500);
    let packet = ours.seal(b"m", &theirs.get_public_key()).unwrap();
    assert_eq!(theirs.open(&packet, &[0; 31]), Err(EnvelopeError::InvalidKey));
    assert_eq!(theirs.open(&packet[..23], &ours.get_public_key()), Err(EnvelopeError::Truncated));
    assert_eq!(
        theirs.open(&packet[..30], &ours.get_public_key()),
        Err(EnvelopeError::BoxAuthFailure)
    );
    assert_eq!(
        theirs.open(&packet, &stranger.get_public_key()),
        Err(EnvelopeError::BoxAuthFailure)
    );
    assert_eq!(
        stranger.open(&packet, &ours.get_public_key()),
        Err(EnvelopeError::BoxAuthFailure)
    );
    assert!(Nacl::from_secret_key(vec![0; 31]).is_none());
    let same = Nacl::from_secret_key(theirs.get_secret_key()).unwrap();
    assert_eq!(same.get_public_key(), theirs.get_public_key());
    assert_eq!(same.open(&packet, &ours.get_public_key()), Ok(b"m".to_vec()));
}

fn dispatcher() -> Dispatcher {
    Dispatcher::new(vec![EventCodes::Ping, EventCodes::Pong, EventCodes::Punsh])
}

#[test]
fn dispatcher_accepts_header_without_payload() {
    let mut dispatcher = dispatcher();
    assert!(dispatcher.is_registered(EventCodes::Pong));
    assert!(!dispatcher.is_registered(EventCodes::BlockGen));
    let out = dispatcher.route(&[0x01, 0x00, 0xFF, 0xFF, 0x00, 0x00, 0x06, 0x01]);
    assert_eq!(
        out,
        Dispatch::Handle {
            header: Header {
                event_code: EventCodes::Pong,
                status_code: StatusCodes::Okay,
                id: 65535,
                payload_length: 0,
                checksum: 0x0106,
            },
            payload: Vec::new(),
        }
    );
    assert_eq!(
        dispatcher.counters(),
        Counters { unknown_sender: 0, auth_failures: 0, malformed: 0, unknown_event: 0 }
    );
}

#[test]
fn dispatcher_drops_and_counts() {
    let mut dispatcher = dispatcher();
    assert_eq!(
        dispatcher.route(&[1, 0, 255]),
        Dispatch::Drop(DropReason::Malformed(ProtocolError::TooShort))
    );
    assert_eq!(
        dispatcher.route(&[0x01, 0x00, 0xFF, 0xFF, 0x00, 0x00, 0x39, 0x05]),
        Dispatch::Drop(DropReason::Malformed(ProtocolError::ChecksumMismatch))
    );
    assert_eq!(
        dispatcher.route(&[0x01, 0x00, 0xFF, 0xFF, 0x00, 0x00, 0x06, 0x01, 0x7e]),
        Dispatch::Drop(DropReason::Malformed(ProtocolError::LengthMismatch))
    );
    let unknown = BlockchainProtocol::<EmptyPayload>::new().build().unwrap();
    assert_eq!(dispatcher.route(&unknown), Dispatch::Drop(DropReason::UnknownEvent));
    let unregistered = BlockchainProtocol::<EmptyPayload>::new()
        .set_event_code(EventCodes::BlockGen)
        .build()
        .unwrap();
    assert_eq!(dispatcher.route(&unregistered), Dispatch::Drop(DropReason::UnknownEvent));
    assert_eq!(
        dispatcher.counters(),
        Counters { unknown_sender: 0, auth_failures: 0, malformed: 3, unknown_event: 2 }
    );
}

#[test]
fn dispatcher_opens_packets_of_known_senders() {
    let mut sender = Nacl::new();
    let receiver = Nacl::new();
    let source = String::from("1.2.3.4:5");
    let mut registry = PeerRegistry::new(String::from("0.0.0.0:1"), 3);
    let mut dispatcher = dispatcher();
    let message = BlockchainProtocol::<Punsh>::new()
        .set_event_code(EventCodes::Punsh)
        .set_payload(Punsh { address: String::from("6.7.8.9:10") })
        .build()
        .unwrap();
    let packet = sender.seal(&message, &receiver.get_public_key()).unwrap();

    assert_eq!(
        dispatcher.dispatch(&receiver, &registry, &source, &packet),
        Dispatch::Drop(DropReason::UnknownSender)
    );
    registry.insert(source.clone(), Nacl::new().get_public_key(), 0);
    assert_eq!(
        dispatcher.dispatch(&receiver, &registry, &source, &packet),
        Dispatch::Drop(DropReason::Envelope(EnvelopeError::BoxAuthFailure))
    );
    registry.insert(source.clone(), sender.get_public_key(), 0);
    match dispatcher.dispatch(&receiver, &registry, &source, &packet) {
        Dispatch::Handle { header, payload } => {
            assert_eq!(header.event_code, EventCodes::Punsh);
            assert_eq!(header.payload_length, 12);
            assert_eq!(payload, b"~6.7.8.9:10~".to_vec());
            let parsed = BlockchainProtocol::<Punsh>::from_u8(&message).unwrap();
            assert_eq!(parsed.payload.address, "6.7.8.9:10");
        }
        other => panic!("dropped: {:?}", other),
    }
    registry.get_peers_ack(&vec![String::from("9.9.9.9:9")], 0);
    assert_eq!(
        dispatcher.dispatch(&receiver, &registry, &String::from("9.9.9.9:9"), &packet),
        Dispatch::Drop(DropReason::Envelope(EnvelopeError::InvalidKey))
    );
    assert_eq!(
        dispatcher.counters(),
        Counters { unknown_sender: 1, auth_failures: 2, malformed: 0, unknown_event: 0 }
    );
}

fn mined(index: u64, content: &str, prev: &str) -> BlockRecord {
    let seed =
        BlockSeed { content: String::from(content), index, timestamp: 0, prev: String::from(prev) };
    let (nonce, hash) = seed.mine("0").unwrap();
    BlockRecord {
        index,
        content: String::from(content),
        timestamp: 0,
        nonce,
        prev: String::from(prev),
        hash,
    }
}

fn ack_of(block: &BlockRecord) -> GetBlockAck {
    GetBlockAck {
        filename: block.hash.clone(),
        index: block.index,
        timestamp: block.timestamp,
        nonce: block.nonce,
        prev: block.prev.clone(),
        hash: block.hash.clone(),
        content: block.content.clone(),
    }
}

#[test]
fn sync_asks_for_what_is_missing_and_checks_what_comes() {
    let first = mined(0, "first", &zero_hash());
    let second = mined(1, "second", &first.hash);
    let mut full = BlockStore::new();
    full.write(first.duplicate()).unwrap();
    full.write(second.duplicate()).unwrap();
    let mut behind = BlockStore::new();
    behind.write(first.duplicate()).unwrap();

    let advertised = inventory(&full);
    assert_eq!(advertised.blocks, vec![first.hash.clone(), second.hash.clone()]);
    let wire = advertised.clone().to_bytes();
    assert_eq!(wire, format!("~{}, {}~", first.hash, second.hash).into_bytes());

    let requests = get_blocks_ack(&behind, &advertised);
    assert_eq!(requests, vec![GetBlock { block: second.hash.clone() }]);
    assert_eq!(get_blocks_ack(&full, &advertised), Vec::<GetBlock>::new());
    assert_eq!(
        get_blocks_ack(&BlockStore::new(), &GetBlocksAck { blocks: vec![String::from("x"); 2] }),
        vec![GetBlock { block: String::from("x") }; 2]
    );

    // a peer without blocks advertises none, and none is asked for
    let nothing = inventory(&BlockStore::new());
    assert_eq!(nothing.blocks, Vec::<String>::new());
    let wire = nothing.to_bytes();
    assert_eq!(wire, Vec::<u8>::new());
    let read = GetBlocksAck::parse(carina::payload::parser::parse_payload(&wire)).unwrap();
    assert_eq!(get_blocks_ack(&behind, &read), Vec::<GetBlock>::new());

    let answer = on_sync_blocks_req(&full, &requests[0]).unwrap();
    assert_eq!(answer, ack_of(&second));
    assert_eq!(on_sync_blocks_req(&behind, &requests[0]), None);

    assert_eq!(on_get_block_ack(&mut behind, answer), Ok(()));
    assert_eq!(behind.list(), full.list());

    // what breaks a rule is refused
    let mut forged = ack_of(&mined(2, "third", &second.hash));
    forged.nonce += 1;
    assert_eq!(
        on_get_block_ack(&mut behind, forged),
        Err(StorageError::InvariantViolation { which: Invariant::HashMismatch })
    );
    let orphan = ack_of(&mined(7, "orphan", &second.hash));
    assert_eq!(
        on_get_block_ack(&mut behind, orphan),
        Err(StorageError::InvariantViolation { which: Invariant::BrokenLink })
    );
    let mut misnamed = ack_of(&mined(2, "third", &second.hash));
    misnamed.filename = String::from("last");
    assert_eq!(on_get_block_ack(&mut behind, misnamed), Err(StorageError::MalformedBlock));
    let two_lines = ack_of(&mined(2, "a\nb", &second.hash));
    assert_eq!(on_get_block_ack(&mut behind, two_lines), Err(StorageError::MalformedBlock));
    assert_eq!(behind.count(), 2);
}

#[test]
fn sync_peers_trial() {
    assert_eq!(SyncPeers::name(), "Sync Peers");
    assert_eq!(SyncPeers::description(), "Tests if syncing peers is working.");
    let none = BlockchainProtocol::<GetPeersAck>::new()
        .set_event_code(EventCodes::GetPeersAck)
        .build()
        .unwrap();
    assert!(SyncPeers::passed(&none));
    let one = BlockchainProtocol::<GetPeersAck>::new()
        .set_event_code(EventCodes::GetPeersAck)
        .set_payload(GetPeersAck { peers: vec![String::from("1.2.3.4:5")] })
        .build()
        .unwrap();
    assert!(!SyncPeers::passed(&one));
    assert!(!SyncPeers::passed(&[1, 2, 3]));
}
