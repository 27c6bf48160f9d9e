use matchmaking_bridge::codec::message::{encode, encode_match_found};
use matchmaking_bridge::event::{GameEvent, MatchFound, MatchRequest};
use matchmaking_bridge::session::{Action, Session, SessionState, TransportEvent};

fn request() -> MatchRequest {
    MatchRequest::new("p1".to_string(), 100)
}

fn response() -> Vec<u8> {
    encode_match_found(&MatchFound {
        opponent_id: "p2".to_string(),
        opponent_trophies: 150,
        room_id: "room-7".to_string(),
    })
}

fn awaiting() -> Session {
    let mut session = Session::new(request());
    session.step(TransportEvent::Connected);
    session.step(TransportEvent::Sent);
    assert_eq!(session.state(), SessionState::Awaiting);
    session
}

fn all_events() -> Vec<TransportEvent> {
    vec![
        TransportEvent::Connected,
        TransportEvent::ConnectFailed("c".to_string()),
        TransportEvent::Sent,
        TransportEvent::SendFailed("s".to_string()),
        TransportEvent::Frame(response()),
        TransportEvent::Ignored,
        TransportEvent::Closed,
        TransportEvent::ReadFailed("r".to_string()),
    ]
}

#[test]
fn new_session_is_connecting() {
    let session = Session::new(request());
    assert_eq!(session.state(), SessionState::Connecting);
    assert!(!session.is_finished());
}

#[test]
fn match_found_scenario() {
    let mut session = Session::new(request());
    assert_eq!(
        session.step(TransportEvent::Connected),
        Some(Action::Send(vec![0x0A, 0x02, b'p', b'1', 0x10, 0x64]))
    );
    assert_eq!(session.state(), SessionState::Sending);
    assert_eq!(session.step(TransportEvent::Sent), Some(Action::Receive));
    assert_eq!(session.state(), SessionState::Awaiting);
    assert_eq!(
        session.step(TransportEvent::Frame(response())),
        Some(Action::Finish(Some(GameEvent::MatchFound {
            opponent_id: "p2".to_string(),
            opponent_trophies: 150,
            room_id: "room-7".to_string(),
        })))
    );
    assert_eq!(session.state(), SessionState::Succeeded);
    assert!(session.is_finished());
}

#[test]
fn the_frame_sent_is_the_encoded_request() {
    let mut session = Session::new(MatchRequest::new("Player".to_string(), -3));
    assert_eq!(
        session.step(TransportEvent::Connected),
        Some(Action::Send(encode(&MatchRequest::new("Player".to_string(), -3))))
    );
}

#[test]
fn connect_failure_reports_one_network_error() {
    let mut session = Session::new(request());
    assert_eq!(
        session.step(TransportEvent::ConnectFailed("connection refused".to_string())),
        Some(Action::Finish(Some(GameEvent::NetworkError(
            "Connect error: connection refused".to_string()
        ))))
    );
    assert_eq!(session.state(), SessionState::Failed);
    for event in all_events() {
        assert_eq!(session.step(event), None);
        assert_eq!(session.state(), SessionState::Failed);
    }
}

#[test]
fn send_failure_reports_network_error() {
    let mut session = Session::new(request());
    session.step(TransportEvent::Connected);
    assert_eq!(
        session.step(TransportEvent::SendFailed("broken pipe".to_string())),
        Some(Action::Finish(Some(GameEvent::NetworkError("Send error: broken pipe".to_string()))))
    );
    assert_eq!(session.state(), SessionState::Failed);
}

#[test]
fn read_failure_reports_network_error() {
    let mut session = awaiting();
    assert_eq!(
        session.step(TransportEvent::ReadFailed("reset".to_string())),
        Some(Action::Finish(Some(GameEvent::NetworkError("Read error: reset".to_string()))))
    );
    assert_eq!(session.state(), SessionState::Failed);
}

#[test]
fn empty_error_text_leaves_the_prefix() {
    let mut session = Session::new(request());
    assert_eq!(
        session.step(TransportEvent::ConnectFailed(String::new())),
        Some(Action::Finish(Some(GameEvent::NetworkError("Connect error: ".to_string()))))
    );
}

#[test]
fn close_ends_quietly() {
    let mut session = awaiting();
    assert_eq!(session.step(TransportEvent::Closed), Some(Action::Finish(None)));
    assert_eq!(session.state(), SessionState::Failed);
    assert!(session.is_finished());
}

#[test]
fn frames_that_are_no_match_are_passed_over() {
    let mut session = awaiting();
    assert_eq!(session.step(TransportEvent::Frame(b"hello".to_vec())), Some(Action::Receive));
    assert_eq!(session.step(TransportEvent::Ignored), Some(Action::Receive));
    assert_eq!(session.step(TransportEvent::Frame(vec![0xFF])), Some(Action::Receive));
    assert_eq!(session.state(), SessionState::Awaiting);
    assert!(matches!(
        session.step(TransportEvent::Frame(response())),
        Some(Action::Finish(Some(GameEvent::MatchFound { .. })))
    ));
}

#[test]
fn an_empty_frame_is_a_match_with_defaults() {
    let mut session = awaiting();
    assert_eq!(
        session.step(TransportEvent::Frame(Vec::new())),
        Some(Action::Finish(Some(GameEvent::MatchFound {
            opponent_id: String::new(),
            opponent_trophies: 0,
            room_id: String::new(),
        })))
    );
}

#[test]
fn events_out_of_turn_change_nothing() {
    let mut session = Session::new(request());
    for event in all_events() {
        if !matches!(event, TransportEvent::Connected | TransportEvent::ConnectFailed(_)) {
            assert_eq!(session.step(event), None);
            assert_eq!(session.state(), SessionState::Connecting);
        }
    }
    session.step(TransportEvent::Connected);
    for event in all_events() {
        if !matches!(event, TransportEvent::Sent | TransportEvent::SendFailed(_)) {
            assert_eq!(session.step(event), None);
            assert_eq!(session.state(), SessionState::Sending);
        }
    }
    session.step(TransportEvent::Sent);
    for event in [
        TransportEvent::Connected,
        TransportEvent::ConnectFailed("c".to_string()),
        TransportEvent::Sent,
        TransportEvent::SendFailed("s".to_string()),
    ] {
        assert_eq!(session.step(event), None);
        assert_eq!(session.state(), SessionState::Awaiting);
    }
}

#[test]
fn at_most_one_event_whatever_is_told() {
    let events = all_events();
    let n = events.len();
    for a in 0..n {
        for b in 0..n {
            for c in 0..n {
                for d in 0..n {
                    let mut session = Session::new(request());
                    let mut reported = 0;
                    for i in [a, b, c, d] {
                        if let Some(Action::Finish(Some(_))) = session.step(events[i].clone()) {
                            reported += 1;
                        }
                    }
                    assert!(reported <= 1);
                }
            }
        }
    }
}

#[test]
fn nothing_after_a_match() {
    let mut session = awaiting();
    session.step(TransportEvent::Frame(response()));
    for event in all_events() {
        assert_eq!(session.step(event), None);
        assert_eq!(session.state(), SessionState::Succeeded);
    }
}

#[test]
fn two_sessions_are_independent() {
    let mut first = Session::new(MatchRequest::new("a".to_string(), 1));
    let mut second = Session::new(MatchRequest::new("b".to_string(), 2));
    first.step(TransportEvent::Connected);
    second.step(TransportEvent::Connected);
    first.step(TransportEvent::Sent);
    assert_eq!(
        second.step(TransportEvent::SendFailed("x".to_string())),
        Some(Action::Finish(Some(GameEvent::NetworkError("Send error: x".to_string()))))
    );
    assert_eq!(first.state(), SessionState::Awaiting);
    assert!(matches!(
        first.step(TransportEvent::Frame(response())),
        Some(Action::Finish(Some(GameEvent::MatchFound { .. })))
    ));
}

#[test]
fn game_event_from_match() {
    let event = GameEvent::from_match(MatchFound {
        opponent_id: "p2".to_string(),
        opponent_trophies: 150,
        room_id: "room-7".to_string(),
    });
    assert_eq!(
        event,
        GameEvent::MatchFound {
            opponent_id: "p2".to_string(),
            opponent_trophies: 150,
            room_id: "room-7".to_string(),
        }
    );
}
