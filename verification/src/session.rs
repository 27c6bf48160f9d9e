//! One matchmaking attempt as a state machine.
//!
//! The attempt itself performs no I/O. A driver opens the connection, writes
//! and reads frames, and tells the session what happened; the session answers
//! with what to do next. It runs `Connecting`, `Sending`, `Awaiting`, and ends
//! in `Succeeded` or `Failed`, reporting at most one `GameEvent` on the way.

use crate::codec::message::{
    decode, encode, join_request_bytes, lemma_match_found_round_trip, match_found_bytes,
    parse_match_found,
};
use crate::event::{GameEvent, GameEventView, MatchFound, MatchRequest, MatchRequestView};
use vstd::prelude::*;
use vstd::string::StringExecFns;
use vstd::utf8::encode_utf8;

verus! {

/// The matchmaking server that every attempt connects to.
pub const ENDPOINT: &'static str = "ws://64.188.64.35:8080/ws";

/// Where an attempt stands.
#[derive(Clone, Copy, Debug, PartialEq, Eq, Structural)]
pub enum SessionState {
    /// The connection is being opened.
    Connecting,
    /// The join request is being written.
    Sending,
    /// Frames are read until one is a match-found response.
    Awaiting,
    /// Ended with a match.
    Succeeded,
    /// Ended without one.
    Failed,
}

/// What the driver observed on the transport.
#[derive(Clone, Debug, PartialEq, Eq)]
pub enum TransportEvent {
    /// The connection is open.
    Connected,
    /// The connection could not be opened; the text describes the error.
    ConnectFailed(String),
    /// The frame was written.
    Sent,
    /// The frame could not be written; the text describes the error.
    SendFailed(String),
    /// A binary frame arrived.
    Frame(Vec<u8>),
    /// A message arrived that is no binary frame and no close.
    Ignored,
    /// The peer closed the connection, or the stream ended.
    Closed,
    /// Reading failed; the text describes the error.
    ReadFailed(String),
}

/// A `TransportEvent` as plain values.
pub ghost enum TransportEventView {
    Connected,
    ConnectFailed(Seq<char>),
    Sent,
    SendFailed(Seq<char>),
    Frame(Seq<u8>),
    Ignored,
    Closed,
    ReadFailed(Seq<char>),
}

impl View for TransportEvent {
    type V = TransportEventView;

    open spec fn view(&self) -> TransportEventView {
        match self {
            TransportEvent::Connected => TransportEventView::Connected,
            TransportEvent::ConnectFailed(text) => TransportEventView::ConnectFailed(text@),
            TransportEvent::Sent => TransportEventView::Sent,
            TransportEvent::SendFailed(text) => TransportEventView::SendFailed(text@),
            TransportEvent::Frame(bytes) => TransportEventView::Frame(bytes@),
            TransportEvent::Ignored => TransportEventView::Ignored,
            TransportEvent::Closed => TransportEventView::Closed,
            TransportEvent::ReadFailed(text) => TransportEventView::ReadFailed(text@),
        }
    }
}

/// What the driver is to do next.
#[derive(Clone, Debug, PartialEq, Eq)]
pub enum Action {
    /// Write these bytes as one binary frame, then report `Sent` or
    /// `SendFailed`.
    Send(Vec<u8>),
    /// Read the next message and report it.
    Receive,
    /// The attempt is over: deliver the event, if there is one, and release
    /// the connection.
    Finish(Option<GameEvent>),
}

/// An `Action` as plain values.
pub ghost enum ActionView {
    Send(Seq<u8>),
    Receive,
    Finish(Option<GameEventView>),
}

impl View for Action {
    type V = ActionView;

    open spec fn view(&self) -> ActionView {
        match self {
            Action::Send(bytes) => ActionView::Send(bytes@),
            Action::Receive => ActionView::Receive,
            Action::Finish(Some(event)) => ActionView::Finish(Some(event@)),
            Action::Finish(None) => ActionView::Finish(None),
        }
    }
}

/// The text of a failure report: what failed, then the transport's own words.
pub open spec fn failure(prefix: Seq<char>, detail: Seq<char>) -> ActionView {
    ActionView::Finish(Some(GameEventView::NetworkError(prefix + detail)))
}

/// The event that reports a match.
pub open spec fn match_event(m: crate::event::MatchFoundView) -> GameEventView {
    GameEventView::MatchFound {
        opponent_id: m.opponent_id,
        opponent_trophies: m.opponent_trophies,
        room_id: m.room_id,
    }
}

/// The transition function: the next state and the action that answers
/// `event` in `state`, or `None` where the state does not wait for such an
/// event. The ended states wait for nothing.
pub open spec fn next(state: SessionState, request: MatchRequestView, event: TransportEventView)
    -> Option<(SessionState, ActionView)> {
    match state {
        SessionState::Connecting => match event {
            TransportEventView::Connected => Some(
                (SessionState::Sending, ActionView::Send(join_request_bytes(request))),
            ),
            TransportEventView::ConnectFailed(detail) => Some(
                (SessionState::Failed, failure("Connect error: "@, detail)),
            ),
            _ => None,
        },
        SessionState::Sending => match event {
            TransportEventView::Sent => Some((SessionState::Awaiting, ActionView::Receive)),
            TransportEventView::SendFailed(detail) => Some(
                (SessionState::Failed, failure("Send error: "@, detail)),
            ),
            _ => None,
        },
        SessionState::Awaiting => match event {
            TransportEventView::Frame(bytes) => match parse_match_found(bytes) {
                Some(m) => Some(
                    (SessionState::Succeeded, ActionView::Finish(Some(match_event(m)))),
                ),
                None => Some((SessionState::Awaiting, ActionView::Receive)),
            },
            TransportEventView::Ignored => Some((SessionState::Awaiting, ActionView::Receive)),
            TransportEventView::Closed => Some((SessionState::Failed, ActionView::Finish(None))),
            TransportEventView::ReadFailed(detail) => Some(
                (SessionState::Failed, failure("Read error: "@, detail)),
            ),
            _ => None,
        },
        SessionState::Succeeded => None,
        SessionState::Failed => None,
    }
}

/// The events that an action reports: one for a `Finish` that holds one.
pub open spec fn reported(action: ActionView) -> Seq<GameEventView> {
    match action {
        ActionView::Finish(Some(event)) => seq![event],
        _ => Seq::empty(),
    }
}

/// Every event that an attempt reports when it starts in `state` and is told
/// `events` in turn. An event that the state does not wait for changes
/// nothing.
pub open spec fn results(
    state: SessionState,
    request: MatchRequestView,
    events: Seq<TransportEventView>,
) -> Seq<GameEventView>
    decreases events.len(),
{
    if events.len() == 0 {
        Seq::empty()
    } else {
        match next(state, request, events[0]) {
            Some((after, action)) => reported(action) + results(
                after,
                request,
                events.drop_first(),
            ),
            None => results(state, request, events.drop_first()),
        }
    }
}

/// One attempt: the request it makes and where it stands.
#[derive(Debug)]
pub struct Session {
    request: MatchRequest,
    state: SessionState,
}

/// A `Session` as plain values.
pub ghost struct SessionView {
    pub request: MatchRequestView,
    pub state: SessionState,
}

impl View for Session {
    type V = SessionView;

    closed spec fn view(&self) -> SessionView {
        SessionView { request: self.request@, state: self.state }
    }
}

fn network_error(prefix: &str, detail: &str) -> (action: Action)
    ensures
        action@ == failure(prefix@, detail@),
{
    let mut message = String::from_str(prefix);
    message.append(detail);
    Action::Finish(Some(GameEvent::NetworkError(message)))
}

impl Session {
    /// A new attempt for `request`. It waits for the connection to open.
    pub fn new(request: MatchRequest) -> (s: Session)
        ensures
            s@ == (SessionView { request: request@, state: SessionState::Connecting }),
    {
        Session { request, state: SessionState::Connecting }
    }

    /// Where the attempt stands.
    pub fn state(&self) -> (state: SessionState)
        ensures
            state == self@.state,
    {
        self.state
    }

    /// Whether the attempt has ended.
    pub fn is_finished(&self) -> (b: bool)
        ensures
            b == (self@.state == SessionState::Succeeded || self@.state == SessionState::Failed),
    {
        match self.state {
            SessionState::Succeeded => true,
            SessionState::Failed => true,
            _ => false,
        }
    }

    /// Takes what the driver observed and answers with what to do next, as
    /// `next` defines it. Where the state does not wait for `event`, nothing
    /// changes and the answer is `None`.
    pub fn step(&mut self, event: TransportEvent) -> (r: Option<Action>)
        ensures
            final(self)@.request == old(self)@.request,
            match next(old(self)@.state, old(self)@.request, event@) {
                Some((state, action)) => {
                    &&& final(self)@.state == state
                    &&& r matches Some(a)
                    &&& a@ == action
                },
                None => final(self)@.state == old(self)@.state && r is None,
            },
    {
        match self.state {
            SessionState::Connecting => match event {
                TransportEvent::Connected => {
                    self.state = SessionState::Sending;
                    Some(Action::Send(encode(&self.request)))
                },
                TransportEvent::ConnectFailed(detail) => {
                    self.state = SessionState::Failed;
                    Some(network_error("Connect error: ", detail.as_str()))
                },
                _ => None,
            },
            SessionState::Sending => match event {
                TransportEvent::Sent => {
                    self.state = SessionState::Awaiting;
                    Some(Action::Receive)
                },
                TransportEvent::SendFailed(detail) => {
                    self.state = SessionState::Failed;
                    Some(network_error("Send error: ", detail.as_str()))
                },
                _ => None,
            },
            SessionState::Awaiting => match event {
                TransportEvent::Frame(bytes) => {
                    Some(self.on_frame(decode(bytes.as_slice())))
                },
                TransportEvent::Ignored => Some(Action::Receive),
                TransportEvent::Closed => {
                    self.state = SessionState::Failed;
                    Some(Action::Finish(None))
                },
                TransportEvent::ReadFailed(detail) => {
                    self.state = SessionState::Failed;
                    Some(network_error("Read error: ", detail.as_str()))
                },
                _ => None,
            },
            SessionState::Succeeded => None,
            SessionState::Failed => None,
        }
    }

    /// Takes a decoded frame while awaiting: a match ends the attempt, and a
    /// frame that was none is passed over.
    fn on_frame(&mut self, decoded: Option<MatchFound>) -> (action: Action)
        requires
            old(self)@.state == SessionState::Awaiting,
        ensures
            final(self)@.request == old(self)@.request,
            match decoded {
                Some(found) => final(self)@.state == SessionState::Succeeded && action@
                    == ActionView::Finish(Some(match_event(found@))),
                None => final(self)@.state == SessionState::Awaiting && action@
                    == ActionView::Receive,
            },
    {
        match decoded {
            Some(found) => {
                self.state = SessionState::Succeeded;
                Action::Finish(Some(GameEvent::from_match(found)))
            },
            None => Action::Receive,
        }
    }
}

/// An attempt that has ended reports nothing more, whatever it is told.
pub proof fn lemma_ended_reports_nothing(
    state: SessionState,
    request: MatchRequestView,
    events: Seq<TransportEventView>,
)
    requires
        state == SessionState::Succeeded || state == SessionState::Failed,
    ensures
        results(state, request, events) == Seq::<GameEventView>::empty(),
    decreases events.len(),
{
    if events.len() > 0 {
        lemma_ended_reports_nothing(state, request, events.drop_first());
    }
}

/// An attempt reports at most one event, from whatever state it starts and
/// whatever it is told.
pub proof fn lemma_at_most_one_result(
    state: SessionState,
    request: MatchRequestView,
    events: Seq<TransportEventView>,
)
    ensures
        results(state, request, events).len() <= 1,
    decreases events.len(),
{
    if events.len() > 0 {
        let rest = events.drop_first();
        match next(state, request, events[0]) {
            Some((after, action)) => {
                if reported(action).len() > 0 {
                    lemma_ended_reports_nothing(after, request, rest);
                } else {
                    lemma_at_most_one_result(after, request, rest);
                }
            },
            None => {
                lemma_at_most_one_result(state, request, rest);
            },
        }
    }
}

/// A connection that cannot be opened gives exactly one report, a
/// `NetworkError` that carries the transport's words.
pub proof fn lemma_connect_failure_reports_once(
    request: MatchRequestView,
    detail: Seq<char>,
    later: Seq<TransportEventView>,
)
    ensures
        results(
            SessionState::Connecting,
            request,
            seq![TransportEventView::ConnectFailed(detail)] + later,
        ) == seq![GameEventView::NetworkError("Connect error: "@ + detail)],
{
    let events = seq![TransportEventView::ConnectFailed(detail)] + later;
    assert(events.drop_first() =~= later);
    lemma_ended_reports_nothing(SessionState::Failed, request, later);
    assert(results(SessionState::Connecting, request, events) =~= seq![
        GameEventView::NetworkError("Connect error: "@ + detail),
    ]);
}

/// A connection that opens, a request that is written and a frame that holds
/// a match-found response give exactly one report: that match.
pub proof fn lemma_exchange_reports_match(
    request: MatchRequestView,
    found: MatchFound,
    later: Seq<TransportEventView>,
)
    requires
        encode_utf8(found@.opponent_id).len() <= usize::MAX,
        encode_utf8(found@.room_id).len() <= usize::MAX,
    ensures
        results(
            SessionState::Connecting,
            request,
            seq![
                TransportEventView::Connected,
                TransportEventView::Sent,
                TransportEventView::Frame(match_found_bytes(found@)),
            ] + later,
        ) == seq![match_event(found@)],
{
    let frame = TransportEventView::Frame(match_found_bytes(found@));
    let e0 = seq![TransportEventView::Connected, TransportEventView::Sent, frame] + later;
    let e1 = seq![TransportEventView::Sent, frame] + later;
    let e2 = seq![frame] + later;
    lemma_match_found_round_trip(found);
    assert(e0.drop_first() =~= e1);
    assert(e1.drop_first() =~= e2);
    assert(e2.drop_first() =~= later);
    lemma_ended_reports_nothing(SessionState::Succeeded, request, later);
    assert(results(SessionState::Awaiting, request, e2) =~= seq![match_event(found@)]);
    assert(results(SessionState::Sending, request, e1) =~= seq![match_event(found@)]);
    assert(results(SessionState::Connecting, request, e0) =~= seq![match_event(found@)]);
}

} // verus!
