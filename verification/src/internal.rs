//! Domain types for a running session: participants, moves, and the
//! per-session message contract.

use vstd::prelude::*;
use crate::messages::Id;

verus! {

/// A participant as the engine and the router see it: the identity alone.
///
/// The participant's outbound mailbox is a transport capability; the caller
/// keeps it and performs the deliveries that the engine returns.
#[derive(Clone, Copy, Debug, PartialEq, Eq, Structural)]
pub struct Player {
    pub id: Id,
}

/// The result of a round from one participant's point of view.
#[derive(Clone, Copy, Debug, PartialEq, Eq, Structural)]
pub enum Outcome {
    Win,
    Loss,
    Draw,
}

/// A move a participant can play in a round.
#[derive(Clone, Copy, Debug, PartialEq, Eq, Structural)]
pub enum Move {
    Rock,
    Paper,
    Scissors,
}

/// The outcome of a round together with the opponent's move.
#[derive(Clone, Copy, Debug, PartialEq, Eq, Structural)]
pub struct RoundResult {
    pub result: Outcome,
    pub other_move: Move,
}

/// An inbound per-session action, addressed by the acting participant.
#[derive(Clone, Copy, Debug, PartialEq, Eq, Structural)]
pub enum GameRequest {
    Connect(Player),
    Move { player: Id, value: Move },
    Disconnect(Player),
}

impl GameRequest {
    /// The identity of the participant the action originates from.
    pub open spec fn acting_id(self) -> Id {
        match self {
            GameRequest::Connect(p) => p.id,
            GameRequest::Move { player, value: _ } => player,
            GameRequest::Disconnect(p) => p.id,
        }
    }

    /// Extracts the acting participant's identity.
    pub fn player_id(&self) -> (r: Id)
        ensures
            r == self.acting_id(),
    {
        match self {
            GameRequest::Connect(p) => p.id,
            GameRequest::Move { player, value: _ } => *player,
            GameRequest::Disconnect(p) => p.id,
        }
    }
}

/// An outbound per-session notification.
#[derive(Clone, Copy, Debug, PartialEq, Eq, Structural)]
pub enum GameResponse {
    Connected,
    PendingMove,
    RoundResult(RoundResult),
    MatchResult { result: Outcome },
}

} // verus!
