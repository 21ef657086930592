//! The protocol message types: one closed tagged union per direction, plus
//! the error taxonomy for room operations.
//!
//! Inbound frames arrive as JSON text; the transport layer around this
//! library parses them into [`GameLobbyRequest`] values and renders
//! [`Outbound`] values back into frames. A frame that does not parse is
//! reported as [`RoomError::MalformedMessage`] and ignored rather than
//! closing the session.

use vstd::prelude::*;

use crate::hand::RPSHand;

verus! {

/// Whether a participant created the room (host) or joined it (player).
/// Losing the host tears down the room.
#[derive(Clone, Copy, Debug, PartialEq, Eq, Structural)]
pub enum UserMode {
    GameHost,
    GamePlayer,
}

/// Why a room operation or an inbound request was refused.
#[derive(Clone, Copy, Debug, PartialEq, Eq, Structural)]
pub enum RoomError {
    /// The named room code is not present in the store.
    RoomNotFound,
    /// The room's game has started; late joiners are rejected.
    GameAlreadyStarted,
    /// No member of the room has the acting connection's id.
    MemberNotFound,
    /// The requester is not the room's designated host.
    Unauthorized,
    /// The inbound frame did not parse as any request variant.
    MalformedMessage,
}

/// One inbound protocol message, discriminated by an explicit tag.
#[derive(Clone, Debug, PartialEq)]
pub enum GameLobbyRequest {
    UserLogin { user_name: String, user_type: UserMode, room_code: String },
    HostNewGame { user_name: String, user_type: UserMode },
    HostStartGame { room_code: String },
    PlayerHand { user_name: String, room_code: String, hand: RPSHand },
}

/// One outbound protocol message (rendered as JSON on the wire).
#[derive(Clone, Debug, PartialEq)]
pub enum GameLobbyResponse {
    /// The room's current member display names, in join order.
    PartyUpdate { room_code: String, users: Vec<String> },
    GameStart { room_code: String },
    /// The server's counter-play for one round.
    ServerHand { hand: RPSHand },
}

/// One logical outbound frame: a protocol message, or one of the plain
/// info/error notices the broker sends outside the JSON protocol.
#[derive(Clone, Debug, PartialEq)]
#[allow(inconsistent_fields)]
pub enum Outbound {
    Protocol(GameLobbyResponse),
    /// Acknowledges room creation to the host alone.
    RoomCreated { room_code: String },
    /// Reports a refused request to the requester alone.
    RequestFailed { room_code: Option<String>, error: RoomError },
    /// Tells a member that its room was torn down because the host left.
    RoomClosed { room_code: String },
}

} // verus!
