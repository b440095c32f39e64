//! The reputation policy: what each peer action costs, and which action an RPC
//! failure counts as.

use vstd::prelude::*;

verus! {

/// Reputation a peer starts with.
pub const DEFAULT_REPUTATION: u8 = 80;

/// Highest reputation a peer can hold.
pub const MAX_REPUTATION: u8 = 100;

/// A peer whose reputation falls below this is banned; at or above it, it is not.
pub const MIN_REP_BEFORE_BAN: u8 = 10;

/// A change lower than any reputation can go: whoever receives it ends at zero.
pub const WORST_REP_CHANGE: i16 = -1000;

/// A collection of actions a peer can perform which will adjust its reputation.
#[derive(Clone, Copy, Debug, PartialEq, Eq, Structural, Hash)]
pub enum PeerAction {
    /// We should not communicate more with this peer: it gets banned.
    Fatal,
    /// Not necessarily malicious; about fifteen of these ban a fresh peer.
    HighToleranceError,
    /// Not necessarily malicious; about ten of these ban a fresh peer.
    MidToleranceError,
    /// Not tolerated for long; about five of these ban a fresh peer.
    LowToleranceError,
    /// An expected, useful message.
    ValidMessage,
}

pub open spec fn spec_rep_change(a: PeerAction) -> int {
    match a {
        PeerAction::Fatal => WORST_REP_CHANGE as int,
        PeerAction::LowToleranceError => -15,
        PeerAction::MidToleranceError => -8,
        PeerAction::HighToleranceError => -5,
        PeerAction::ValidMessage => 2,
    }
}

/// Adds `delta` to `rep` and clamps the sum into `[0, MAX_REPUTATION]`.
pub open spec fn saturating_rep(rep: int, delta: int) -> int {
    if rep + delta < 0 {
        0
    } else if rep + delta > MAX_REPUTATION as int {
        MAX_REPUTATION as int
    } else {
        rep + delta
    }
}

/// Folds `saturating_rep` over the deltas, first one first.
pub open spec fn rep_after(rep: int, deltas: Seq<int>) -> int
    decreases deltas.len(),
{
    if deltas.len() == 0 {
        rep
    } else {
        saturating_rep(rep_after(rep, deltas.drop_last()), deltas.last())
    }
}

impl PeerAction {
    /// The reputation change this action causes.
    pub fn rep_change(&self) -> (r: i16)
        ensures
            r as int == spec_rep_change(*self),
    {
        match self {
            PeerAction::Fatal => WORST_REP_CHANGE,
            PeerAction::LowToleranceError => -15,
            PeerAction::MidToleranceError => -8,
            PeerAction::HighToleranceError => -5,
            PeerAction::ValidMessage => 2,
        }
    }
}

/// Applies a reputation change with saturation at both ends.
pub fn apply_rep_change(rep: u8, delta: i16) -> (r: u8)
    requires
        rep <= MAX_REPUTATION,
    ensures
        r as int == saturating_rep(rep as int, delta as int),
        r <= MAX_REPUTATION,
{
    let sum: i32 = rep as i32 + delta as i32;
    if sum < 0 {
        0
    } else if sum > MAX_REPUTATION as i32 {
        MAX_REPUTATION
    } else {
        sum as u8
    }
}

/// The RPC protocols a request can be made on.
#[derive(Clone, Copy, Debug, PartialEq, Eq, Structural, Hash)]
pub enum Protocol {
    Status,
    Goodbye,
    BlocksByRange,
    BlocksByRoot,
    Ping,
    MetaData,
}

/// The error code of an error response from a peer.
#[derive(Clone, Copy, Debug, PartialEq, Eq, Structural, Hash)]
pub enum RPCResponseErrorCode {
    InvalidRequest,
    ServerError,
    Unknown,
}

/// The ways an RPC exchange with a peer can fail.
#[derive(Clone, Copy, Debug, PartialEq, Eq, Structural, Hash)]
pub enum RPCError {
    /// The stream ended before a complete message arrived.
    IncompleteStream,
    /// A failure on our side.
    InternalError,
    /// Our handler refused the request.
    HandlerRejected,
    /// The peer sent data that breaks the protocol.
    InvalidData,
    /// An I/O failure on the stream.
    IoError,
    /// The peer answered with an error response.
    ErrorResponse(RPCResponseErrorCode),
    /// The peer's message could not be decoded.
    SSZDecodeError,
    /// The peer does not speak the protocol.
    UnsupportedProtocol,
    /// The stream timed out.
    StreamTimeout,
    /// Protocol negotiation timed out.
    NegotiationTimeout,
}

/// The action an RPC failure counts as, or `None` where it is our own fault or
/// not worth a penalty.
pub open spec fn spec_rpc_error_action(protocol: Protocol, err: RPCError) -> Option<PeerAction> {
    match err {
        RPCError::IncompleteStream => Some(PeerAction::MidToleranceError),
        RPCError::InternalError | RPCError::HandlerRejected => None,
        RPCError::InvalidData => Some(PeerAction::Fatal),
        RPCError::IoError => Some(PeerAction::HighToleranceError),
        RPCError::ErrorResponse(code) => match code {
            RPCResponseErrorCode::Unknown => Some(PeerAction::HighToleranceError),
            RPCResponseErrorCode::ServerError => Some(PeerAction::MidToleranceError),
            RPCResponseErrorCode::InvalidRequest => Some(PeerAction::LowToleranceError),
        },
        RPCError::SSZDecodeError => Some(PeerAction::Fatal),
        RPCError::UnsupportedProtocol => match protocol {
            Protocol::Ping => Some(PeerAction::Fatal),
            Protocol::MetaData | Protocol::Status => Some(PeerAction::LowToleranceError),
            Protocol::BlocksByRange | Protocol::BlocksByRoot | Protocol::Goodbye => None,
        },
        RPCError::StreamTimeout => match protocol {
            Protocol::Ping => Some(PeerAction::LowToleranceError),
            Protocol::BlocksByRange | Protocol::BlocksByRoot => Some(PeerAction::MidToleranceError),
            Protocol::Goodbye | Protocol::MetaData | Protocol::Status => None,
        },
        RPCError::NegotiationTimeout => Some(PeerAction::HighToleranceError),
    }
}

/// Maps an RPC failure on `protocol` to the action it counts as.
pub fn rpc_error_action(protocol: Protocol, err: &RPCError) -> (r: Option<PeerAction>)
    ensures
        r == spec_rpc_error_action(protocol, *err),
{
    match err {
        // They closed early: this could be a poor connection.
        RPCError::IncompleteStream => Some(PeerAction::MidToleranceError),
        // Our fault: no penalty.
        RPCError::InternalError | RPCError::HandlerRejected => None,
        // Not complying with the protocol is malicious.
        RPCError::InvalidData => Some(PeerAction::Fatal),
        // Could be their fault or ours, so it is tolerated.
        RPCError::IoError => Some(PeerAction::HighToleranceError),
        RPCError::ErrorResponse(code) => match code {
            RPCResponseErrorCode::Unknown => Some(PeerAction::HighToleranceError),
            RPCResponseErrorCode::ServerError => Some(PeerAction::MidToleranceError),
            RPCResponseErrorCode::InvalidRequest => Some(PeerAction::LowToleranceError),
        },
        RPCError::SSZDecodeError => Some(PeerAction::Fatal),
        // Not malicious, but for some protocols it makes the peer unfit.
        RPCError::UnsupportedProtocol => match protocol {
            Protocol::Ping => Some(PeerAction::Fatal),
            Protocol::MetaData | Protocol::Status => Some(PeerAction::LowToleranceError),
            Protocol::BlocksByRange | Protocol::BlocksByRoot | Protocol::Goodbye => None,
        },
        RPCError::StreamTimeout => match protocol {
            Protocol::Ping => Some(PeerAction::LowToleranceError),
            Protocol::BlocksByRange | Protocol::BlocksByRoot => Some(PeerAction::MidToleranceError),
            Protocol::Goodbye | Protocol::MetaData | Protocol::Status => None,
        },
        RPCError::NegotiationTimeout => Some(PeerAction::HighToleranceError),
    }
}

} // verus!
