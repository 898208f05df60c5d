//! What becomes of a packet: it is opened against the key of its sender,
//! its header is checked, and it goes to the handler of its event or is
//! dropped and counted.

use crate::codes::EventCodes;
use crate::envelope::{spec_open_packet, EnvelopeError, Nacl};
use crate::protocol::{parse_header, spec_parse_header, Header, ProtocolError, HEADER_LENGTH};
use crate::registry::PeerRegistry;
use crate::text::copy_range;
use vstd::prelude::*;

verus! {

/// Why a packet is dropped.
#[derive(Debug, PartialEq, Eq, Clone, Copy)]
pub enum DropReason {
    /// No peer is known at the address from which the packet came.
    UnknownSender,
    /// The envelope did not open against the key of the sender.
    Envelope(EnvelopeError),
    /// What was in the envelope is no message.
    Malformed(ProtocolError),
    /// No handler is registered for the event of the message.
    UnknownEvent,
}

/// What becomes of a packet.
#[derive(Debug, PartialEq, Eq)]
pub enum Dispatch {
    /// The message goes to the handler of its event, with its payload region.
    Handle { header: Header, payload: Vec<u8> },
    /// The packet is dropped; no answer is sent.
    Drop(DropReason),
}

/// How many packets were dropped, by reason.
#[derive(Clone, Copy, Debug, PartialEq, Eq, Structural)]
pub struct Counters {
    /// Packets from an address at which no peer is known.
    pub unknown_sender: u64,
    /// Packets whose envelope did not open.
    pub auth_failures: u64,
    /// Packets that held no message.
    pub malformed: u64,
    /// Messages for whose event no handler is registered.
    pub unknown_event: u64,
}

/// The events that have a handler, and the counts of dropped packets.
#[derive(Debug)]
pub struct Dispatcher {
    /// The events for which a handler was registered at the start.
    handlers: Vec<EventCodes>,
    /// The packets dropped so far.
    counters: Counters,
}

/// The counts after a packet was dropped for a reason.
pub open spec fn spec_count(counters: Counters, reason: DropReason) -> Counters {
    match reason {
        DropReason::UnknownSender => Counters {
            unknown_sender: spec_bump(counters.unknown_sender),
            ..counters
        },
        DropReason::Envelope(_) => Counters {
            auth_failures: spec_bump(counters.auth_failures),
            ..counters
        },
        DropReason::Malformed(_) => Counters {
            malformed: spec_bump(counters.malformed),
            ..counters
        },
        DropReason::UnknownEvent => Counters {
            unknown_event: spec_bump(counters.unknown_event),
            ..counters
        },
    }
}

/// The counts after a dispatch: a dropped packet is counted under its reason.
pub open spec fn spec_counted(counters: Counters, out: Dispatch) -> Counters {
    match out {
        Dispatch::Handle { .. } => counters,
        Dispatch::Drop(reason) => spec_count(counters, reason),
    }
}

/// A count after one more; a count that cannot grow stays.
pub open spec fn spec_bump(count: u64) -> u64 {
    if count < u64::MAX {
        (count + 1) as u64
    } else {
        count
    }
}

/// Counts one more.
fn bump(count: u64) -> (out: u64)
    ensures
        out == spec_bump(count),
{
    if count < u64::MAX {
        count + 1
    } else {
        count
    }
}

/// What becomes of what was in an envelope, given the registered events: a
/// message with a sound header and a registered event is handled, with the
/// bytes behind its header as payload region. A code that stands for no
/// event is never handled.
pub open spec fn spec_route(handlers: Seq<EventCodes>, message: Seq<u8>) -> Result<
    (Header, Seq<u8>),
    DropReason,
> {
    match spec_parse_header(message) {
        Err(e) => Err(DropReason::Malformed(e)),
        Ok(header) => if header.event_code != EventCodes::NotAValidEvent && handlers.contains(
            header.event_code,
        ) {
            Ok((header, message.skip(HEADER_LENGTH as int)))
        } else {
            Err(DropReason::UnknownEvent)
        },
    }
}

/// What becomes of a packet, given the key of its sender if one is known.
pub open spec fn spec_dispatch(
    handlers: Seq<EventCodes>,
    sender_key: Option<Seq<u8>>,
    recipient_secret: Seq<u8>,
    packet: Seq<u8>,
) -> Result<(Header, Seq<u8>), DropReason> {
    match sender_key {
        None => Err(DropReason::UnknownSender),
        Some(key) => match spec_open_packet(packet, key, recipient_secret) {
            Err(e) => Err(DropReason::Envelope(e)),
            Ok(message) => spec_route(handlers, message),
        },
    }
}

/// What a dispatch says, as plain values.
pub open spec fn dispatch_view(out: Dispatch) -> Result<(Header, Seq<u8>), DropReason> {
    match out {
        Dispatch::Handle { header, payload } => Ok((header, payload@)),
        Dispatch::Drop(reason) => Err(reason),
    }
}

/// A message without payload, for an event that is registered, is handled.
pub proof fn lemma_empty_payload_is_handled(
    handlers: Seq<EventCodes>,
    header: Header,
)
    requires
        header.event_code != EventCodes::NotAValidEvent,
        handlers.contains(header.event_code),
    ensures
        spec_route(
            handlers,
            crate::protocol::spec_header(header.event_code, header.status_code, header.id, 0),
        ) == Ok::<(Header, Seq<u8>), DropReason>(
            (
                Header {
                    payload_length: 0,
                    checksum: crate::protocol::spec_header_checksum(
                        header.event_code,
                        header.status_code,
                        header.id,
                        0,
                    ),
                    ..header
                },
                Seq::<u8>::empty(),
            ),
        ),
{
    let bytes = crate::protocol::spec_header(
        header.event_code,
        header.status_code,
        header.id,
        0,
    );
    crate::protocol::lemma_header_round_trip(
        header.event_code,
        header.status_code,
        header.id,
        Seq::empty(),
    );
    crate::protocol::lemma_header_checksum(header.event_code, header.status_code, header.id, 0);
    assert(bytes + Seq::<u8>::empty() =~= bytes);
    assert(bytes.skip(HEADER_LENGTH as int) =~= Seq::<u8>::empty());
}

impl Dispatcher {
    /// The events that have a handler.
    pub closed spec fn registered(&self) -> Seq<EventCodes> {
        self.handlers@
    }

    /// The packets dropped so far.
    pub closed spec fn dropped(&self) -> Counters {
        self.counters
    }

    /// A dispatcher for the given events, with all counts at zero. Events
    /// are registered here, once.
    pub fn new(handlers: Vec<EventCodes>) -> (out: Self)
        ensures
            out.registered() == handlers@,
            out.dropped() == (Counters {
                unknown_sender: 0,
                auth_failures: 0,
                malformed: 0,
                unknown_event: 0,
            }),
    {
        Dispatcher {
            handlers,
            counters: Counters {
                unknown_sender: 0,
                auth_failures: 0,
                malformed: 0,
                unknown_event: 0,
            },
        }
    }

    /// The packets dropped so far.
    pub fn counters(&self) -> (out: Counters)
        ensures
            out == self.dropped(),
    {
        self.counters
    }

    /// Whether the event has a handler.
    pub fn is_registered(&self, event_code: EventCodes) -> (out: bool)
        ensures
            out == self.registered().contains(event_code),
    {
        let mut i: usize = 0;
        while i < self.handlers.len()
            invariant
                i <= self.handlers.len(),
                forall|k: int| 0 <= k < i ==> self.handlers@[k] != event_code,
            decreases self.handlers.len() - i,
        {
            if self.handlers[i] == event_code {
                return true;
            }
            i += 1;
        }
        false
    }

    /// Decides what becomes of what was in an envelope, and counts it if it
    /// is dropped.
    pub fn route(&mut self, message: &[u8]) -> (out: Dispatch)
        ensures
            dispatch_view(out) == spec_route(old(self).registered(), message@),
            final(self).registered() == old(self).registered(),
            final(self).dropped() == spec_counted(old(self).dropped(), out),
    {
        let header = match parse_header(message) {
            Ok(header) => header,
            Err(e) => {
                self.counters.malformed = bump(self.counters.malformed);
                return Dispatch::Drop(DropReason::Malformed(e));
            },
        };
        if matches!(header.event_code, EventCodes::NotAValidEvent) || !self.is_registered(
            header.event_code,
        ) {
            self.counters.unknown_event = bump(self.counters.unknown_event);
            return Dispatch::Drop(DropReason::UnknownEvent);
        }
        let payload = copy_range(message, HEADER_LENGTH, message.len());
        assert(payload@ =~= message@.skip(HEADER_LENGTH as int));
        Dispatch::Handle { header, payload }
    }

    /// Decides what becomes of a packet that came from `source`: the key of
    /// the sender is looked up, the envelope is opened against it, and what
    /// was in it is routed. A dropped packet is counted.
    pub fn dispatch(
        &mut self,
        nacl: &Nacl,
        registry: &PeerRegistry,
        source: &String,
        packet: &[u8],
    ) -> (out: Dispatch)
        requires
            nacl.wf(),
            registry.wf(),
        ensures
            dispatch_view(out) == spec_dispatch(
                old(self).registered(),
                if registry@.contains_key(source@) {
                    Some(registry@[source@].public_key)
                } else {
                    None
                },
                nacl.secret(),
                packet@,
            ),
            final(self).registered() == old(self).registered(),
            final(self).dropped() == spec_counted(old(self).dropped(), out),
    {
        let key = match registry.public_key(source) {
            Some(key) => key,
            None => {
                self.counters.unknown_sender = bump(self.counters.unknown_sender);
                return Dispatch::Drop(DropReason::UnknownSender);
            },
        };
        match nacl.open(packet, key.as_slice()) {
            Err(e) => {
                self.counters.auth_failures = bump(self.counters.auth_failures);
                Dispatch::Drop(DropReason::Envelope(e))
            },
            Ok(message) => self.route(message.as_slice()),
        }
    }
}

} // verus!
