//! A message: an eight-byte header followed by the payload region.
//!
//! The header holds the event code, the status code, then three 16-bit
//! numbers with the low byte first: the id, the length of the payload region
//! and the Fletcher-16 checksum of the six bytes before it.

use crate::checksum::{fletcher16, lemma_fletcher_bounds, spec_fletcher16};
use crate::codes::{
    event_number, event_of, spec_event_number, spec_event_of, spec_status_number, spec_status_of,
    status_number, status_of, EventCodes, StatusCodes,
};
use crate::payload::parser::{parse_payload, spec_parse_payload};
use crate::payload::{Payload, PayloadError};
use crate::text::{append_bytes, copy_range};
use vstd::prelude::*;

verus! {

/// The number of bytes of a header.
pub const HEADER_LENGTH: usize = 8;

/// Why bytes are not a message, or a message cannot be written.
#[derive(Debug, PartialEq, Eq, Clone, Copy)]
pub enum ProtocolError {
    /// Fewer bytes than a header has.
    TooShort,
    /// The checksum in the header is not the checksum of the header.
    ChecksumMismatch,
    /// The payload region is not as long as the header declares.
    LengthMismatch,
    /// The payload region is longer than a header can declare.
    PayloadTooLarge,
    /// The payload region does not hold what the payload type expects.
    MalformedPayload(PayloadError),
}

/// A message with a payload of type `T`.
#[derive(Clone, Debug, PartialEq)]
pub struct BlockchainProtocol<T> {
    /// Which event the message is.
    pub event_code: EventCodes,
    /// Status of the message.
    pub status_code: StatusCodes,
    /// Identification of the message.
    pub id: u16,
    /// Length of the payload region in bytes.
    pub payload_length: u16,
    /// Checksum of the header.
    pub checksum: u16,
    /// What the message carries.
    pub payload: T,
}

/// What the header of a message holds.
#[derive(Clone, Copy, Debug, PartialEq, Eq, Structural)]
pub struct Header {
    /// Which event the message is.
    pub event_code: EventCodes,
    /// Status of the message.
    pub status_code: StatusCodes,
    /// Identification of the message.
    pub id: u16,
    /// Length of the payload region in bytes.
    pub payload_length: u16,
    /// Checksum of the header.
    pub checksum: u16,
}

/// What a message holds.
pub struct ProtocolView<V> {
    pub event_code: EventCodes,
    pub status_code: StatusCodes,
    pub id: u16,
    pub payload_length: u16,
    pub checksum: u16,
    pub payload: V,
}

impl<T: Payload> View for BlockchainProtocol<T> {
    type V = ProtocolView<T::V>;

    open spec fn view(&self) -> ProtocolView<T::V> {
        ProtocolView {
            event_code: self.event_code,
            status_code: self.status_code,
            id: self.id,
            payload_length: self.payload_length,
            checksum: self.checksum,
            payload: self.payload@,
        }
    }
}

/// A 16-bit number as two bytes, the low byte first.
pub open spec fn spec_u16_bytes(value: u16) -> Seq<u8> {
    seq![(value % 256) as u8, (value / 256) as u8]
}

/// The 16-bit number that two bytes hold, the low byte first.
pub open spec fn spec_u16_of(low: u8, high: u8) -> u16 {
    (low + high * 256) as u16
}

/// The first six bytes of a header: the two codes, the id, the length.
pub open spec fn spec_header_fields(
    event_code: EventCodes,
    status_code: StatusCodes,
    id: u16,
    payload_length: u16,
) -> Seq<u8> {
    seq![spec_event_number(event_code), spec_status_number(status_code)] + spec_u16_bytes(id)
        + spec_u16_bytes(payload_length)
}

/// The checksum that belongs in a header with these fields.
pub open spec fn spec_header_checksum(
    event_code: EventCodes,
    status_code: StatusCodes,
    id: u16,
    payload_length: u16,
) -> u16 {
    spec_fletcher16(spec_header_fields(event_code, status_code, id, payload_length)) as u16
}

/// A whole header: the six bytes of its fields, then their checksum.
pub open spec fn spec_header(
    event_code: EventCodes,
    status_code: StatusCodes,
    id: u16,
    payload_length: u16,
) -> Seq<u8> {
    spec_header_fields(event_code, status_code, id, payload_length) + spec_u16_bytes(
        spec_header_checksum(event_code, status_code, id, payload_length),
    )
}

/// The bytes of a message: its header, with the length and the checksum that
/// fit, then its payload region. None where the region is too long.
pub open spec fn spec_build<T: Payload>(message: ProtocolView<T::V>) -> Result<
    Seq<u8>,
    ProtocolError,
> {
    let region = T::spec_to_bytes(message.payload);
    if region.len() > u16::MAX {
        Err(ProtocolError::PayloadTooLarge)
    } else {
        Ok(
            spec_header(
                message.event_code,
                message.status_code,
                message.id,
                region.len() as u16,
            ) + region,
        )
    }
}

/// The header that stands at the start of the bytes of a message, or why the
/// bytes are no message. The checks come in this order: the header is whole,
/// its checksum is right, the payload region has the declared length.
pub open spec fn spec_parse_header(bytes: Seq<u8>) -> Result<Header, ProtocolError> {
    if bytes.len() < HEADER_LENGTH {
        Err(ProtocolError::TooShort)
    } else if spec_fletcher16(bytes.take(6)) != spec_u16_of(bytes[6], bytes[7]) {
        Err(ProtocolError::ChecksumMismatch)
    } else if bytes.len() - HEADER_LENGTH != spec_u16_of(bytes[4], bytes[5]) {
        Err(ProtocolError::LengthMismatch)
    } else {
        Ok(
            Header {
                event_code: spec_event_of(bytes[0]),
                status_code: spec_status_of(bytes[1]),
                id: spec_u16_of(bytes[2], bytes[3]),
                payload_length: spec_u16_of(bytes[4], bytes[5]),
                checksum: spec_u16_of(bytes[6], bytes[7]),
            },
        )
    }
}

/// The message that bytes stand for, or why they stand for none: the header
/// is checked, then the payload region behind it is read.
pub open spec fn spec_parse<T: Payload>(bytes: Seq<u8>) -> Result<
    ProtocolView<T::V>,
    ProtocolError,
> {
    match spec_parse_header(bytes) {
        Err(e) => Err(e),
        Ok(header) => match T::spec_parse(spec_parse_payload(bytes.skip(HEADER_LENGTH as int))) {
            Err(e) => Err(ProtocolError::MalformedPayload(e)),
            Ok(payload) => Ok(
                ProtocolView {
                    event_code: header.event_code,
                    status_code: header.status_code,
                    id: header.id,
                    payload_length: header.payload_length,
                    checksum: header.checksum,
                    payload,
                },
            ),
        },
    }
}

/// Two bytes written for a number hold that number.
pub proof fn lemma_u16_bytes(value: u16)
    ensures
        spec_u16_bytes(value).len() == 2,
        spec_u16_of(spec_u16_bytes(value)[0], spec_u16_bytes(value)[1]) == value,
{
}

/// In every header that is written, the last two bytes hold the Fletcher-16
/// checksum of the six bytes before them.
pub proof fn lemma_header_checksum(
    event_code: EventCodes,
    status_code: StatusCodes,
    id: u16,
    payload_length: u16,
)
    ensures
        spec_header(event_code, status_code, id, payload_length).len() == HEADER_LENGTH,
        spec_fletcher16(spec_header(event_code, status_code, id, payload_length).take(6))
            == spec_u16_of(
            spec_header(event_code, status_code, id, payload_length)[6],
            spec_header(event_code, status_code, id, payload_length)[7],
        ),
{
    let fields = spec_header_fields(event_code, status_code, id, payload_length);
    let header = spec_header(event_code, status_code, id, payload_length);
    lemma_fletcher_bounds(fields);
    assert(header.take(6) =~= fields);
    lemma_u16_bytes(spec_header_checksum(event_code, status_code, id, payload_length));
}

/// A header that is written is read back with the fields it was written
/// with, in front of any payload region of the declared length; an empty
/// region is as good as another.
pub proof fn lemma_header_round_trip(
    event_code: EventCodes,
    status_code: StatusCodes,
    id: u16,
    region: Seq<u8>,
)
    requires
        region.len() <= u16::MAX,
    ensures
        spec_parse_header(
            spec_header(event_code, status_code, id, region.len() as u16) + region,
        ) == Ok::<Header, ProtocolError>(
            Header {
                event_code,
                status_code,
                id,
                payload_length: region.len() as u16,
                checksum: spec_header_checksum(event_code, status_code, id, region.len() as u16),
            },
        ),
{
    let length = region.len() as u16;
    let header = spec_header(event_code, status_code, id, length);
    let bytes = header + region;
    lemma_header_checksum(event_code, status_code, id, length);
    assert(bytes.take(6) =~= header.take(6));
    lemma_u16_bytes(id);
    lemma_u16_bytes(length);
    crate::codes::lemma_codes_round_trip(event_code, status_code);
    assert(bytes[2] == spec_u16_bytes(id)[0]);
    assert(bytes[3] == spec_u16_bytes(id)[1]);
    assert(bytes[4] == spec_u16_bytes(length)[0]);
    assert(bytes[5] == spec_u16_bytes(length)[1]);
    assert(bytes[6] == header[6] && bytes[7] == header[7]);
}

/// A message whose payload survives writing and reading survives them too:
/// read back, it has the fields it was written with, the length of its
/// payload region and the checksum of its header.
pub proof fn lemma_protocol_round_trip<T: Payload>(message: ProtocolView<T::V>)
    requires
        crate::payload::round_trips::<T>(message.payload),
        T::spec_to_bytes(message.payload).len() <= u16::MAX,
    ensures
        spec_build::<T>(message) is Ok,
        spec_parse::<T>(spec_build::<T>(message).unwrap()) == Ok::<
            ProtocolView<T::V>,
            ProtocolError,
        >(
            ProtocolView {
                payload_length: T::spec_to_bytes(message.payload).len() as u16,
                checksum: spec_header_checksum(
                    message.event_code,
                    message.status_code,
                    message.id,
                    T::spec_to_bytes(message.payload).len() as u16,
                ),
                ..message
            },
        ),
{
    let region = T::spec_to_bytes(message.payload);
    let length = region.len() as u16;
    let header = spec_header(message.event_code, message.status_code, message.id, length);
    lemma_header_round_trip(message.event_code, message.status_code, message.id, region);
    lemma_header_checksum(message.event_code, message.status_code, message.id, length);
    assert((header + region).skip(HEADER_LENGTH as int) =~= region);
}

/// Reads and checks the header at the start of the bytes of a message.
pub fn parse_header(bytes: &[u8]) -> (out: Result<Header, ProtocolError>)
    ensures
        out == spec_parse_header(bytes@),
{
    if bytes.len() < HEADER_LENGTH {
        return Err(ProtocolError::TooShort);
    }
    let fields = copy_range(bytes, 0, 6);
    assert(fields@ =~= bytes@.take(6));
    let checksum = u16_from_bytes(bytes[6], bytes[7]);
    if fletcher16(fields.as_slice()) != checksum {
        return Err(ProtocolError::ChecksumMismatch);
    }
    let payload_length = u16_from_bytes(bytes[4], bytes[5]);
    if bytes.len() - HEADER_LENGTH != payload_length as usize {
        return Err(ProtocolError::LengthMismatch);
    }
    Ok(
        Header {
            event_code: event_of(bytes[0]),
            status_code: status_of(bytes[1]),
            id: u16_from_bytes(bytes[2], bytes[3]),
            payload_length,
            checksum,
        },
    )
}

/// Writes a 16-bit number as two bytes, the low byte first.
pub fn u16_to_bytes(value: u16) -> (out: Vec<u8>)
    ensures
        out@ == spec_u16_bytes(value),
{
    let mut out: Vec<u8> = Vec::new();
    out.push((value % 256) as u8);
    out.push((value / 256) as u8);
    assert(out@ =~= spec_u16_bytes(value));
    out
}

/// Reads a 16-bit number from two bytes, the low byte first.
pub fn u16_from_bytes(low: u8, high: u8) -> (out: u16)
    ensures
        out == spec_u16_of(low, high),
{
    low as u16 + (high as u16) * 256
}

impl<T: Payload> BlockchainProtocol<T> {
    /// A message with no valid event, an undefined status and the empty payload.
    pub fn new() -> (out: Self)
        ensures
            out@ == (ProtocolView {
                event_code: EventCodes::NotAValidEvent,
                status_code: StatusCodes::Undefined,
                id: 0,
                payload_length: 0,
                checksum: 0,
                payload: T::spec_new(),
            }),
    {
        BlockchainProtocol {
            event_code: EventCodes::NotAValidEvent,
            status_code: StatusCodes::Undefined,
            id: 0,
            checksum: 0,
            payload_length: 0,
            payload: T::new(),
        }
    }

    /// Reads a message from a vector of bytes.
    pub fn from_vec(payload: Vec<u8>) -> (out: Result<Self, ProtocolError>)
        ensures
            match out {
                Ok(message) => spec_parse::<T>(payload@) == Ok::<ProtocolView<T::V>, ProtocolError>(
                    message@,
                ),
                Err(e) => spec_parse::<T>(payload@) == Err::<ProtocolView<T::V>, ProtocolError>(e),
            },
    {
        Self::parse(payload.as_slice())
    }

    /// Reads a message from bytes.
    pub fn from_u8(payload: &[u8]) -> (out: Result<Self, ProtocolError>)
        ensures
            match out {
                Ok(message) => spec_parse::<T>(payload@) == Ok::<ProtocolView<T::V>, ProtocolError>(
                    message@,
                ),
                Err(e) => spec_parse::<T>(payload@) == Err::<ProtocolView<T::V>, ProtocolError>(e),
            },
    {
        Self::parse(payload)
    }

    /// Sets the event code.
    pub fn set_event_code(self, event_code: EventCodes) -> (out: Self)
        ensures
            out@ == (ProtocolView { event_code, ..self@ }),
    {
        let mut out = self;
        out.event_code = event_code;
        out
    }

    /// Sets the status code.
    pub fn set_status_code(self, status_code: StatusCodes) -> (out: Self)
        ensures
            out@ == (ProtocolView { status_code, ..self@ }),
    {
        let mut out = self;
        out.status_code = status_code;
        out
    }

    /// Sets what the message carries.
    pub fn set_payload(self, payload: T) -> (out: Self)
        ensures
            out@ == (ProtocolView { payload: payload@, ..self@ }),
    {
        let mut out = self;
        out.payload = payload;
        out
    }

    /// Writes the message: the header with the length of the payload region
    /// and the checksum that fits, then the payload region. The length and the
    /// checksum that the message holds are not used. Fails where the payload
    /// region is longer than 65535 bytes.
    pub fn build(self) -> (out: Result<Vec<u8>, ProtocolError>)
        ensures
            match out {
                Ok(bytes) => spec_build::<T>(self@) == Ok::<Seq<u8>, ProtocolError>(bytes@),
                Err(e) => spec_build::<T>(self@) == Err::<Seq<u8>, ProtocolError>(e),
            },
    {
        let event_code = self.event_code;
        let status_code = self.status_code;
        let id = self.id;
        let region = self.payload.to_bytes();
        if region.len() > 65535 {
            return Err(ProtocolError::PayloadTooLarge);
        }
        let length: u16 = region.len() as u16;
        let mut out = header_fields_to_bytes(event_code, status_code, id, length);
        let checksum = fletcher16(out.as_slice());
        let tail = u16_to_bytes(checksum);
        append_bytes(&mut out, tail.as_slice());
        append_bytes(&mut out, region.as_slice());
        proof {
            lemma_fletcher_bounds(spec_header_fields(event_code, status_code, id, length));
        }
        Ok(out)
    }

    /// Reads a message: checks the header, then reads the payload region.
    pub fn parse(bytes: &[u8]) -> (out: Result<Self, ProtocolError>)
        ensures
            match out {
                Ok(message) => spec_parse::<T>(bytes@) == Ok::<ProtocolView<T::V>, ProtocolError>(
                    message@,
                ),
                Err(e) => spec_parse::<T>(bytes@) == Err::<ProtocolView<T::V>, ProtocolError>(e),
            },
    {
        let header = match parse_header(bytes) {
            Ok(header) => header,
            Err(e) => { return Err(e); },
        };
        let region = copy_range(bytes, HEADER_LENGTH, bytes.len());
        assert(region@ =~= bytes@.skip(HEADER_LENGTH as int));
        let payload = match T::parse(parse_payload(region.as_slice())) {
            Ok(payload) => payload,
            Err(e) => { return Err(ProtocolError::MalformedPayload(e)); },
        };
        Ok(
            BlockchainProtocol {
                event_code: header.event_code,
                status_code: header.status_code,
                id: header.id,
                payload_length: header.payload_length,
                checksum: header.checksum,
                payload,
            },
        )
    }

    /// The first six bytes of the header of this message, with the length
    /// that the message holds.
    pub fn header_to_bytes(&self) -> (out: Vec<u8>)
        ensures
            out@ == spec_header_fields(
                self.event_code,
                self.status_code,
                self.id,
                self.payload_length,
            ),
    {
        header_fields_to_bytes(self.event_code, self.status_code, self.id, self.payload_length)
    }

    /// The two bytes of a checksum, the low byte first.
    pub fn checksum_to_bytes(&self, checksum: u16) -> (out: Vec<u8>)
        ensures
            out@ == spec_u16_bytes(checksum),
    {
        u16_to_bytes(checksum)
    }

    /// The Fletcher-16 checksum of the first six bytes of the header of this
    /// message, with the length that the message holds.
    pub fn calculate_checksum(&self) -> (out: u16)
        ensures
            out == spec_header_checksum(
                self.event_code,
                self.status_code,
                self.id,
                self.payload_length,
            ),
    {
        let fields = self.header_to_bytes();
        proof {
            lemma_fletcher_bounds(fields@);
        }
        fletcher16(fields.as_slice())
    }
}

/// The first six bytes of a header.
fn header_fields_to_bytes(
    event_code: EventCodes,
    status_code: StatusCodes,
    id: u16,
    payload_length: u16,
) -> (out: Vec<u8>)
    ensures
        out@ == spec_header_fields(event_code, status_code, id, payload_length),
{
    let mut out: Vec<u8> = Vec::new();
    out.push(event_number(event_code));
    out.push(status_number(status_code));
    let id_bytes = u16_to_bytes(id);
    append_bytes(&mut out, id_bytes.as_slice());
    let length_bytes = u16_to_bytes(payload_length);
    append_bytes(&mut out, length_bytes.as_slice());
    assert(out@ =~= spec_header_fields(event_code, status_code, id, payload_length));
    out
}

} // verus!
