//! The two code bytes of a header: which event a message is, and its status.

use vstd::prelude::*;

verus! {

/// The kinds of message. Each has one number; every other number reads as
/// `NotAValidEvent`.
#[derive(Clone, Copy, Debug, PartialEq, Eq, Structural)]
pub enum EventCodes {
    Ping,
    Pong,
    Punsh,
    Register,
    RegisterAck,
    GetPeers,
    GetPeersAck,
    ExploreNetwork,
    GetBlocks,
    GetBlocksAck,
    GetBlock,
    GetBlockAck,
    BlockData,
    BlockGen,
    BlockFound,
    HashVal,
    HashValAck,
    NewBlock,
    SyncBlocksReq,
    SyncBlocksReqAck,
    NotAValidEvent,
}

/// The disposition of a message. Every number without a meaning reads as
/// `Undefined`.
#[derive(Clone, Copy, Debug, PartialEq, Eq, Structural)]
pub enum StatusCodes {
    Okay,
    NoPeer,
    Undefined,
}

/// The number of an event.
pub open spec fn spec_event_number(code: EventCodes) -> u8 {
    match code {
        EventCodes::Ping => 0,
        EventCodes::Pong => 1,
        EventCodes::Punsh => 2,
        EventCodes::Register => 16,
        EventCodes::RegisterAck => 17,
        EventCodes::GetPeers => 64,
        EventCodes::GetPeersAck => 65,
        EventCodes::ExploreNetwork => 66,
        EventCodes::GetBlocks => 128,
        EventCodes::GetBlocksAck => 129,
        EventCodes::GetBlock => 130,
        EventCodes::GetBlockAck => 131,
        EventCodes::BlockData => 132,
        EventCodes::BlockGen => 133,
        EventCodes::BlockFound => 134,
        EventCodes::HashVal => 135,
        EventCodes::HashValAck => 136,
        EventCodes::NewBlock => 137,
        EventCodes::SyncBlocksReq => 138,
        EventCodes::SyncBlocksReqAck => 139,
        EventCodes::NotAValidEvent => 255,
    }
}

/// The event that a number stands for.
pub open spec fn spec_event_of(number: u8) -> EventCodes {
    if number == 0 {
        EventCodes::Ping
    } else if number == 1 {
        EventCodes::Pong
    } else if number == 2 {
        EventCodes::Punsh
    } else if number == 16 {
        EventCodes::Register
    } else if number == 17 {
        EventCodes::RegisterAck
    } else if number == 64 {
        EventCodes::GetPeers
    } else if number == 65 {
        EventCodes::GetPeersAck
    } else if number == 66 {
        EventCodes::ExploreNetwork
    } else if number == 128 {
        EventCodes::GetBlocks
    } else if number == 129 {
        EventCodes::GetBlocksAck
    } else if number == 130 {
        EventCodes::GetBlock
    } else if number == 131 {
        EventCodes::GetBlockAck
    } else if number == 132 {
        EventCodes::BlockData
    } else if number == 133 {
        EventCodes::BlockGen
    } else if number == 134 {
        EventCodes::BlockFound
    } else if number == 135 {
        EventCodes::HashVal
    } else if number == 136 {
        EventCodes::HashValAck
    } else if number == 137 {
        EventCodes::NewBlock
    } else if number == 138 {
        EventCodes::SyncBlocksReq
    } else if number == 139 {
        EventCodes::SyncBlocksReqAck
    } else {
        EventCodes::NotAValidEvent
    }
}

/// The number of a status.
pub open spec fn spec_status_number(code: StatusCodes) -> u8 {
    match code {
        StatusCodes::Okay => 0,
        StatusCodes::NoPeer => 16,
        StatusCodes::Undefined => 255,
    }
}

/// The status that a number stands for.
pub open spec fn spec_status_of(number: u8) -> StatusCodes {
    if number == 0 {
        StatusCodes::Okay
    } else if number == 16 {
        StatusCodes::NoPeer
    } else {
        StatusCodes::Undefined
    }
}

/// An event read back from its number is the same event, and a status too.
pub proof fn lemma_codes_round_trip(event: EventCodes, status: StatusCodes)
    ensures
        spec_event_of(spec_event_number(event)) == event,
        spec_status_of(spec_status_number(status)) == status,
{
}

/// The number of an event.
pub fn event_number(code: EventCodes) -> (out: u8)
    ensures
        out == spec_event_number(code),
{
    match code {
        EventCodes::Ping => 0,
        EventCodes::Pong => 1,
        EventCodes::Punsh => 2,
        EventCodes::Register => 16,
        EventCodes::RegisterAck => 17,
        EventCodes::GetPeers => 64,
        EventCodes::GetPeersAck => 65,
        EventCodes::ExploreNetwork => 66,
        EventCodes::GetBlocks => 128,
        EventCodes::GetBlocksAck => 129,
        EventCodes::GetBlock => 130,
        EventCodes::GetBlockAck => 131,
        EventCodes::BlockData => 132,
        EventCodes::BlockGen => 133,
        EventCodes::BlockFound => 134,
        EventCodes::HashVal => 135,
        EventCodes::HashValAck => 136,
        EventCodes::NewBlock => 137,
        EventCodes::SyncBlocksReq => 138,
        EventCodes::SyncBlocksReqAck => 139,
        EventCodes::NotAValidEvent => 255,
    }
}

/// The event that a number stands for; `NotAValidEvent` for a number without one.
pub fn event_of(number: u8) -> (out: EventCodes)
    ensures
        out == spec_event_of(number),
{
    match number {
        0 => EventCodes::Ping,
        1 => EventCodes::Pong,
        2 => EventCodes::Punsh,
        16 => EventCodes::Register,
        17 => EventCodes::RegisterAck,
        64 => EventCodes::GetPeers,
        65 => EventCodes::GetPeersAck,
        66 => EventCodes::ExploreNetwork,
        128 => EventCodes::GetBlocks,
        129 => EventCodes::GetBlocksAck,
        130 => EventCodes::GetBlock,
        131 => EventCodes::GetBlockAck,
        132 => EventCodes::BlockData,
        133 => EventCodes::BlockGen,
        134 => EventCodes::BlockFound,
        135 => EventCodes::HashVal,
        136 => EventCodes::HashValAck,
        137 => EventCodes::NewBlock,
        138 => EventCodes::SyncBlocksReq,
        139 => EventCodes::SyncBlocksReqAck,
        _ => EventCodes::NotAValidEvent,
    }
}

/// The number of a status.
pub fn status_number(code: StatusCodes) -> (out: u8)
    ensures
        out == spec_status_number(code),
{
    match code {
        StatusCodes::Okay => 0,
        StatusCodes::NoPeer => 16,
        StatusCodes::Undefined => 255,
    }
}

/// The status that a number stands for; `Undefined` for a number without one.
pub fn status_of(number: u8) -> (out: StatusCodes)
    ensures
        out == spec_status_of(number),
{
    match number {
        0 => StatusCodes::Okay,
        16 => StatusCodes::NoPeer,
        _ => StatusCodes::Undefined,
    }
}

} // verus!
