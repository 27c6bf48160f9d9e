//! The facade that a frame loop polls: the results of finished attempts, in
//! the order in which they arrived.

use crate::event::{GameEvent, GameEventView, MatchRequest, MatchRequestView};
use crate::matchmaking::Matchmaker;
use crate::session::{Session, SessionState, SessionView};
use std::collections::VecDeque;
use vstd::prelude::*;

verus! {

/// What a poll of `pending` returns: the oldest result, if there is one.
pub open spec fn poll_result(pending: Seq<GameEventView>) -> Option<GameEventView> {
    if pending.len() == 0 {
        None
    } else {
        Some(pending[0])
    }
}

/// What a poll of `pending` leaves: all but the oldest result.
pub open spec fn after_poll(pending: Seq<GameEventView>) -> Seq<GameEventView> {
    if pending.len() == 0 {
        pending
    } else {
        pending.drop_first()
    }
}

/// What `n` polls of `pending` leave.
pub open spec fn after_polls(pending: Seq<GameEventView>, n: nat) -> Seq<GameEventView>
    decreases n,
{
    if n == 0 {
        pending
    } else {
        after_polls(after_poll(pending), (n - 1) as nat)
    }
}

/// The results that wait to be polled, oldest first, and the matchmaker that
/// starts attempts.
#[derive(Debug)]
pub struct Bridge {
    pending: VecDeque<GameEvent>,
    pub matchmaking: Matchmaker,
}

impl Bridge {
    /// The results that wait to be polled, oldest first.
    pub closed spec fn pending(&self) -> Seq<GameEventView> {
        self.pending@.map_values(|e: GameEvent| e@)
    }

    /// The matchmaker that starts attempts for the bridge's player.
    pub closed spec fn matchmaker(&self) -> Matchmaker {
        self.matchmaking
    }

    /// A bridge for one player, with nothing pending.
    pub fn new(player_name: String, trophies: i32) -> (b: Bridge)
        ensures
            b.pending() == Seq::<GameEventView>::empty(),
            b.matchmaker().request() == (MatchRequestView {
                player_id: player_name@,
                trophies: trophies as int,
            }),
    {
        let b = Bridge {
            pending: VecDeque::new(),
            matchmaking: Matchmaker::new(player_name, trophies),
        };
        assert(b.pending() =~= Seq::<GameEventView>::empty());
        b
    }

    /// Begins an attempt for `player_id` with `trophies`: a session that waits
    /// for its connection. Nothing pending changes until the attempt's result
    /// is delivered.
    pub fn request_match(&self, player_id: String, trophies: i32) -> (s: Session)
        ensures
            s@ == (SessionView {
                request: MatchRequestView { player_id: player_id@, trophies: trophies as int },
                state: SessionState::Connecting,
            }),
    {
        Session::new(MatchRequest::new(player_id, trophies))
    }

    /// Takes the result of a finished attempt: it waits behind those that
    /// arrived before it.
    pub fn deliver(&mut self, event: GameEvent)
        ensures
            final(self).pending() == old(self).pending().push(event@),
            final(self).matchmaker() == old(self).matchmaker(),
    {
        self.pending.push_back(event);
        assert(self.pending() =~= old(self).pending().push(event@));
    }

    /// Takes at most one pending result, the oldest: `None` exactly when
    /// nothing is pending.
    pub fn poll(&mut self) -> (r: Option<GameEvent>)
        ensures
            match r {
                Some(event) => poll_result(old(self).pending()) == Some(event@),
                None => poll_result(old(self).pending()) is None,
            },
            final(self).pending() == after_poll(old(self).pending()),
            final(self).matchmaker() == old(self).matchmaker(),
    {
        let r = self.pending.pop_front();
        assert(self.pending() =~= after_poll(old(self).pending()));
        r
    }
}

/// Polling with nothing pending gives nothing and changes nothing.
pub proof fn lemma_poll_of_nothing()
    ensures
        poll_result(Seq::empty()) is None,
        after_poll(Seq::empty()) == Seq::<GameEventView>::empty(),
{
}

/// One delivered result is polled exactly once: with nothing else pending,
/// the first poll returns it and every later poll returns nothing.
pub proof fn lemma_one_result_is_polled_once(event: GameEventView, later: nat)
    ensures
        poll_result(Seq::empty().push(event)) == Some(event),
        poll_result(after_polls(Seq::empty().push(event), later + 1)) is None,
{
    let one = Seq::<GameEventView>::empty().push(event);
    assert(after_poll(one) =~= Seq::empty());
    lemma_polls_in_arrival_order(one, later + 1);
}

/// Polls return the pending results in the order of their arrival: the poll
/// after `n` others returns the result at place `n`, and nothing once all
/// have been taken.
pub proof fn lemma_polls_in_arrival_order(pending: Seq<GameEventView>, n: nat)
    ensures
        n < pending.len() ==> poll_result(after_polls(pending, n)) == Some(pending[n as int]),
        n >= pending.len() ==> poll_result(after_polls(pending, n)) is None,
        n <= pending.len() ==> after_polls(pending, n) == pending.skip(n as int),
    decreases n,
{
    if n == 0 {
        assert(pending.skip(0) =~= pending);
    } else {
        let rest = after_poll(pending);
        lemma_polls_in_arrival_order(rest, (n - 1) as nat);
        if n <= pending.len() {
            assert(rest.skip(n - 1) =~= pending.skip(n as int));
        }
    }
}

/// Two results delivered one after the other are both polled, the first
/// before the second and after everything that was pending before them; they
/// are neither merged nor dropped, equal or not.
pub proof fn lemma_two_results_keep_their_order(
    pending: Seq<GameEventView>,
    first: GameEventView,
    second: GameEventView,
)
    ensures
        ({
            let all = pending.push(first).push(second);
            &&& poll_result(after_polls(all, pending.len())) == Some(first)
            &&& poll_result(after_polls(all, pending.len() + 1)) == Some(second)
            &&& poll_result(after_polls(all, pending.len() + 2)) is None
        }),
{
    let all = pending.push(first).push(second);
    lemma_polls_in_arrival_order(all, pending.len());
    lemma_polls_in_arrival_order(all, pending.len() + 1);
    lemma_polls_in_arrival_order(all, pending.len() + 2);
}

} // verus!
