//! The player on whose behalf matches are sought.

use crate::event::{MatchRequest, MatchRequestView};
use crate::session::{Session, SessionState, SessionView};
use vstd::prelude::*;

verus! {

/// Starts attempts for one player.
#[derive(Debug)]
pub struct Matchmaker {
    player_name: String,
    trophies: i32,
}

impl Matchmaker {
    /// The request that every attempt of this matchmaker makes.
    pub closed spec fn request(&self) -> MatchRequestView {
        MatchRequestView { player_id: self.player_name@, trophies: self.trophies as int }
    }

    pub fn new(player_name: String, trophies: i32) -> (m: Matchmaker)
        ensures
            m.request() == (MatchRequestView { player_id: player_name@, trophies: trophies as int }),
    {
        Matchmaker { player_name, trophies }
    }

    /// Begins a new attempt for the player: a session that waits for its
    /// connection. Attempts begun earlier are not touched; each call gives an
    /// independent session.
    pub fn find_game(&self) -> (s: Session)
        ensures
            s@ == (SessionView { request: self.request(), state: SessionState::Connecting }),
    {
        Session::new(MatchRequest::new(self.player_name.clone(), self.trophies))
    }
}

} // verus!
