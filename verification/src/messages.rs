//! Plain message and identifier types shared by the matchmaking engine and
//! the session directory.

use vstd::prelude::*;

verus! {

/// An opaque participant or session identifier.
///
/// Identities are 128-bit values; the transport layer decides how they are
/// rendered on the wire.  Equality of identifiers is equality of the value.
#[derive(Clone, Copy, Debug, Hash, PartialEq, Eq, Structural)]
pub struct Id(pub u128);

/// An inbound transport frame: an optional authenticated identity and the
/// request it carries.
pub struct SocketRequest<T> {
    pub user_id: Option<Id>,
    pub request: T,
}

/// An outbound transport frame: the addressee and the message it carries.
pub struct SocketResponse<T> {
    pub user_id: Id,
    pub message: T,
}

/// An administrative request to open a session for two participants.
pub struct CreateGameRequest {
    pub game_id: Id,
    pub players: Vec<Id>,
}

/// The acknowledgement of a successful administrative session creation.
#[derive(Clone, Copy, Debug, PartialEq, Eq, Structural)]
pub struct CreateGameResponse {
    pub game_id: Id,
}

} // verus!
