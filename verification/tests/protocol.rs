use carina::checksum::fletcher16;
use carina::codes::{event_number, event_of, status_number, status_of, EventCodes, StatusCodes};
use carina::payload::empty::EmptyPayload;
use carina::payload::hole_puncher::punsh::Punsh;
use carina::payload::parser::parse_payload;
use carina::payload::{FieldError, Payload, PayloadError};
use carina::protocol::{parse_header, BlockchainProtocol, Header, ProtocolError};

#[test]
fn test_u8() {
    let payload = EmptyPayload::new();
    let expected = BlockchainProtocol::<EmptyPayload> {
        event_code: EventCodes::Pong,
        status_code: StatusCodes::Undefined,
        id: 65535,
        payload_length: 0,
        checksum: 262,
        payload: payload,
    };

    // Length before checksum, low byte first: the bytes 5, 57 declare a
    // payload of 14597 bytes and the checksum 0 does not fit the header.
    let payload = &[1, 255, 255, 255, 5, 57, 0, 0];
    let result = BlockchainProtocol::<EmptyPayload>::from_u8(payload);
    assert_eq!(result, Err(ProtocolError::ChecksumMismatch));

    let payload = &[1, 255, 255, 255, 0, 0, 6, 1];
    let result = BlockchainProtocol::<EmptyPayload>::from_u8(payload);
    assert_eq!(result, Ok(expected));
}

#[test]
fn test_hex() {
    let payload = EmptyPayload::new();
    let expected = BlockchainProtocol::<EmptyPayload> {
        event_code: EventCodes::Pong,
        status_code: StatusCodes::Undefined,
        id: 65535,
        payload_length: 0,
        checksum: 262,
        payload: payload,
    };

    let payload = &[0x01, 0xFF, 0xFF, 0xFF, 0x05, 0x39, 0x00, 0x00];
    let result = BlockchainProtocol::<EmptyPayload>::from_u8(payload);
    assert_eq!(result, Err(ProtocolError::ChecksumMismatch));

    let payload = &[0x01, 0xFF, 0xFF, 0xFF, 0x00, 0x00, 0x06, 0x01];
    let result = BlockchainProtocol::<EmptyPayload>::from_u8(payload);
    assert_eq!(result, Ok(expected));
}

#[test]
fn test_with_payload() {
    let payload = Punsh::new().set_peer(String::from("I am a test message"));
    let data = vec![
        1, 255, 255, 255, 5, 57, 0, 23, 126, 73, 32, 97, 109, 32, 97, 32, 116, 101, 115, 116, 32,
        109, 101, 115, 115, 97, 103, 101, 126,
    ];
    let result = BlockchainProtocol::<Punsh>::from_vec(data);
    assert_eq!(result, Err(ProtocolError::ChecksumMismatch));

    let mut data = vec![1, 255, 255, 255, 21, 0];
    let checksum = fletcher16(&data);
    data.push((checksum % 256) as u8);
    data.push((checksum / 256) as u8);
    data.extend_from_slice(b"~I am a test message~");
    let expected = BlockchainProtocol::<Punsh> {
        event_code: EventCodes::Pong,
        status_code: StatusCodes::Undefined,
        id: 65535,
        payload_length: 21,
        checksum: checksum,
        payload: payload,
    };
    let result = BlockchainProtocol::<Punsh>::from_vec(data);
    assert_eq!(result, Ok(expected));
}

#[test]
fn test_parse_empty_payload() {
    let result = parse_payload(&[126, 116, 101, 115, 116, 126, 126, 126]);

    assert_eq!(result.len(), 2);
}

#[test]
fn test_checksum_1() {
    let payload = EmptyPayload::new();
    let expected = BlockchainProtocol::<EmptyPayload> {
        event_code: EventCodes::Ping,
        status_code: StatusCodes::Undefined,
        id: 65535,
        payload_length: 0,
        checksum: 0,
        payload: payload,
    };

    assert_eq!(expected.calculate_checksum(), 0);
}

#[test]
fn test_checksum_2() {
    let payload = EmptyPayload::new();
    let expected = BlockchainProtocol::<EmptyPayload> {
        event_code: EventCodes::Register,
        status_code: StatusCodes::NoPeer,
        id: 2586,
        payload_length: 0,
        checksum: 0,
        payload: payload,
    };

    assert_eq!(expected.calculate_checksum(), 17463);
}

#[test]
fn fletcher16_of_known_bytes() {
    assert_eq!(fletcher16(&[]), 0);
    assert_eq!(fletcher16(&[1, 2]), 772);
    assert_eq!(fletcher16(&[2, 0, 7, 0, 11, 0]), 5182);
    assert_eq!(fletcher16(&[255, 255, 255]), 0);
}

#[test]
fn header_encode_pong() {
    let message = BlockchainProtocol::<EmptyPayload>::new()
        .set_event_code(EventCodes::Pong)
        .set_status_code(StatusCodes::Okay);
    let message = BlockchainProtocol { id: 65535, ..message };
    let bytes = message.build().unwrap();
    assert_eq!(&bytes[..6], &[0x01, 0x00, 0xFF, 0xFF, 0x00, 0x00]);
    let checksum = fletcher16(&bytes[..6]);
    assert_eq!(checksum, 0x0106);
    assert_eq!(bytes, vec![0x01, 0x00, 0xFF, 0xFF, 0x00, 0x00, 0x06, 0x01]);
}

#[test]
fn every_built_header_carries_its_checksum() {
    for id in [0u16, 1, 255, 256, 2586, 65535] {
        for event in [EventCodes::Ping, EventCodes::Register, EventCodes::HashValAck] {
            let message = BlockchainProtocol::<Punsh> {
                event_code: event,
                status_code: StatusCodes::NoPeer,
                id,
                payload_length: 999,
                checksum: 999,
                payload: Punsh { address: String::from("10.0.0.1:4000") },
            };
            let bytes = message.build().unwrap();
            let stored = bytes[6] as u16 + (bytes[7] as u16) * 256;
            assert_eq!(fletcher16(&bytes[..6]), stored);
            assert_eq!(bytes[4] as usize + (bytes[5] as usize) * 256, bytes.len() - 8);
        }
    }
}

#[test]
fn message_round_trip() {
    let message = BlockchainProtocol::<Punsh> {
        event_code: EventCodes::Punsh,
        status_code: StatusCodes::Okay,
        id: 77,
        payload_length: 0,
        checksum: 0,
        payload: Punsh { address: String::from("1.2.3.4:5") },
    };
    let bytes = message.clone().build().unwrap();
    let parsed = BlockchainProtocol::<Punsh>::from_u8(&bytes).unwrap();
    assert_eq!(parsed.event_code, EventCodes::Punsh);
    assert_eq!(parsed.status_code, StatusCodes::Okay);
    assert_eq!(parsed.id, 77);
    assert_eq!(parsed.payload_length, 11);
    assert_eq!(parsed.checksum, parsed.calculate_checksum());
    assert_eq!(parsed.payload, message.payload);
}

#[test]
fn new_message_is_empty() {
    let message = BlockchainProtocol::<Punsh>::new();
    assert_eq!(message.event_code, EventCodes::NotAValidEvent);
    assert_eq!(message.status_code, StatusCodes::Undefined);
    assert_eq!(message.id, 0);
    assert_eq!(message.payload_length, 0);
    assert_eq!(message.checksum, 0);
    assert_eq!(message.payload.address, "");
}

#[test]
fn decoder_rejections() {
    assert_eq!(
        BlockchainProtocol::<EmptyPayload>::from_u8(&[1, 0, 0]),
        Err(ProtocolError::TooShort)
    );
    assert_eq!(parse_header(&[]), Err(ProtocolError::TooShort));
    // right checksum, one byte of payload more than declared
    assert_eq!(
        BlockchainProtocol::<EmptyPayload>::from_u8(&[1, 255, 255, 255, 0, 0, 6, 1, 126]),
        Err(ProtocolError::LengthMismatch)
    );
    // wrong checksum
    assert_eq!(
        BlockchainProtocol::<EmptyPayload>::from_u8(&[1, 255, 255, 255, 0, 0, 7, 1]),
        Err(ProtocolError::ChecksumMismatch)
    );
    // payload that is no UTF-8
    let mut data = vec![2, 0, 0, 0, 3, 0];
    let checksum = fletcher16(&data);
    data.push((checksum % 256) as u8);
    data.push((checksum / 256) as u8);
    data.extend_from_slice(&[126, 0xFF, 126]);
    assert_eq!(
        BlockchainProtocol::<Punsh>::from_u8(&data),
        Err(ProtocolError::MalformedPayload(PayloadError::MalformedField {
            index: 0,
            reason: FieldError::NotUtf8
        }))
    );
}

#[test]
fn payload_too_large_is_refused() {
    let message = BlockchainProtocol::<Punsh>::new()
        .set_payload(Punsh { address: "a".repeat(65534) });
    assert_eq!(message.build(), Err(ProtocolError::PayloadTooLarge));
    let message = BlockchainProtocol::<Punsh>::new()
        .set_payload(Punsh { address: "a".repeat(65533) });
    assert_eq!(message.build().unwrap().len(), 8 + 65535);
}

#[test]
fn header_with_empty_payload_is_legal() {
    let header = parse_header(&[0x01, 0x00, 0xFF, 0xFF, 0x00, 0x00, 0x06, 0x01]).unwrap();
    assert_eq!(
        header,
        Header {
            event_code: EventCodes::Pong,
            status_code: StatusCodes::Okay,
            id: 65535,
            payload_length: 0,
            checksum: 0x0106,
        }
    );
}

#[test]
fn header_pieces() {
    let message = BlockchainProtocol::<EmptyPayload> {
        event_code: EventCodes::Register,
        status_code: StatusCodes::NoPeer,
        id: 2586,
        payload_length: 0x0102,
        checksum: 0,
        payload: EmptyPayload::new(),
    };
    assert_eq!(message.header_to_bytes(), vec![16, 16, 26, 10, 2, 1]);
    assert_eq!(message.checksum_to_bytes(0x0539), vec![0x39, 0x05]);
}

#[test]
fn codes_round_trip() {
    let events = [
        (EventCodes::Ping, 0),
        (EventCodes::Pong, 1),
        (EventCodes::Punsh, 2),
        (EventCodes::Register, 16),
        (EventCodes::RegisterAck, 17),
        (EventCodes::GetPeers, 64),
        (EventCodes::GetPeersAck, 65),
        (EventCodes::ExploreNetwork, 66),
        (EventCodes::GetBlocks, 128),
        (EventCodes::GetBlocksAck, 129),
        (EventCodes::GetBlock, 130),
        (EventCodes::GetBlockAck, 131),
        (EventCodes::BlockData, 132),
        (EventCodes::BlockGen, 133),
        (EventCodes::BlockFound, 134),
        (EventCodes::HashVal, 135),
        (EventCodes::HashValAck, 136),
        (EventCodes::NewBlock, 137),
        (EventCodes::SyncBlocksReq, 138),
        (EventCodes::SyncBlocksReqAck, 139),
        (EventCodes::NotAValidEvent, 255),
    ];
    for (event, number) in events {
        assert_eq!(event_number(event), number);
        assert_eq!(event_of(number), event);
    }
    assert_eq!(event_of(3), EventCodes::NotAValidEvent);
    assert_eq!(event_of(200), EventCodes::NotAValidEvent);
    for (status, number) in
        [(StatusCodes::Okay, 0), (StatusCodes::NoPeer, 16), (StatusCodes::Undefined, 255)]
    {
        assert_eq!(status_number(status), number);
        assert_eq!(status_of(number), status);
    }
    assert_eq!(status_of(1), StatusCodes::Undefined);
}
