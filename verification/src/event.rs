//! The values that cross the library's boundary: the request of an attempt
//! and the result it reports.

use vstd::prelude::*;

verus! {

/// Who asks for a match: the player's identity and ranking score.
#[derive(Debug, Clone, PartialEq, Eq)]
pub struct MatchRequest {
    pub player_id: String,
    pub trophies: i32,
}

/// A `MatchRequest` as plain values.
pub ghost struct MatchRequestView {
    pub player_id: Seq<char>,
    pub trophies: int,
}

impl View for MatchRequest {
    type V = MatchRequestView;

    open spec fn view(&self) -> MatchRequestView {
        MatchRequestView { player_id: self.player_id@, trophies: self.trophies as int }
    }
}

impl MatchRequest {
    /// A request is valid when it names a player.
    pub open spec fn valid(&self) -> bool {
        self@.player_id.len() > 0
    }

    pub fn new(player_id: String, trophies: i32) -> (r: MatchRequest)
        ensures
            r@ == (MatchRequestView { player_id: player_id@, trophies: trophies as int }),
    {
        MatchRequest { player_id, trophies }
    }

    /// Whether the request names a player.
    pub fn is_valid(&self) -> (b: bool)
        ensures
            b == self.valid(),
    {
        !self.player_id.as_str().is_empty()
    }
}

/// The opponent and room that the server assigned.
#[derive(Debug, Clone, PartialEq, Eq)]
pub struct MatchFound {
    pub opponent_id: String,
    pub opponent_trophies: i32,
    pub room_id: String,
}

/// A `MatchFound` as plain values.
pub ghost struct MatchFoundView {
    pub opponent_id: Seq<char>,
    pub opponent_trophies: int,
    pub room_id: Seq<char>,
}

impl View for MatchFound {
    type V = MatchFoundView;

    open spec fn view(&self) -> MatchFoundView {
        MatchFoundView {
            opponent_id: self.opponent_id@,
            opponent_trophies: self.opponent_trophies as int,
            room_id: self.room_id@,
        }
    }
}

/// The result of one matchmaking attempt, as delivered to the application.
#[derive(Debug, Clone, PartialEq, Eq)]
pub enum GameEvent {
    /// The server paired the player with an opponent.
    MatchFound { opponent_id: String, opponent_trophies: i32, room_id: String },
    /// The attempt failed; the text says how.
    NetworkError(String),
}

/// A `GameEvent` as plain values.
pub ghost enum GameEventView {
    MatchFound { opponent_id: Seq<char>, opponent_trophies: int, room_id: Seq<char> },
    NetworkError(Seq<char>),
}

impl View for GameEvent {
    type V = GameEventView;

    open spec fn view(&self) -> GameEventView {
        match self {
            GameEvent::MatchFound { opponent_id, opponent_trophies, room_id } => {
                GameEventView::MatchFound {
                    opponent_id: opponent_id@,
                    opponent_trophies: *opponent_trophies as int,
                    room_id: room_id@,
                }
            },
            GameEvent::NetworkError(message) => GameEventView::NetworkError(message@),
        }
    }
}

impl GameEvent {
    /// The event that reports `found`.
    pub fn from_match(found: MatchFound) -> (e: GameEvent)
        ensures
            e@ == (GameEventView::MatchFound {
                opponent_id: found@.opponent_id,
                opponent_trophies: found@.opponent_trophies,
                room_id: found@.room_id,
            }),
    {
        GameEvent::MatchFound {
            opponent_id: found.opponent_id,
            opponent_trophies: found.opponent_trophies,
            room_id: found.room_id,
        }
    }
}

} // verus!
