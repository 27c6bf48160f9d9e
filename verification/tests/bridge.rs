use matchmaking_bridge::bridge::Bridge;
use matchmaking_bridge::codec::message::{decode_join_request, encode_match_found};
use matchmaking_bridge::event::{GameEvent, MatchFound, MatchRequest};
use matchmaking_bridge::matchmaking::Matchmaker;
use matchmaking_bridge::session::{Action, Session, SessionState, TransportEvent};

fn error(text: &str) -> GameEvent {
    GameEvent::NetworkError(text.to_string())
}

/// Runs a session against scripted transport events and hands its result,
/// if any, to the bridge.
fn run(bridge: &mut Bridge, mut session: Session, script: Vec<TransportEvent>) {
    for event in script {
        if let Some(Action::Finish(result)) = session.step(event) {
            if let Some(event) = result {
                bridge.deliver(event);
            }
            return;
        }
    }
}

fn server_reply(opponent_id: &str, opponent_trophies: i32, room_id: &str) -> Vec<TransportEvent> {
    vec![
        TransportEvent::Connected,
        TransportEvent::Sent,
        TransportEvent::Frame(encode_match_found(&MatchFound {
            opponent_id: opponent_id.to_string(),
            opponent_trophies,
            room_id: room_id.to_string(),
        })),
    ]
}

#[test]
fn poll_of_a_new_bridge_is_none() {
    let mut bridge = Bridge::new("p1".to_string(), 100);
    assert_eq!(bridge.poll(), None);
    assert_eq!(bridge.poll(), None);
}

#[test]
fn a_delivered_result_is_polled_once() {
    let mut bridge = Bridge::new("p1".to_string(), 100);
    bridge.deliver(error("Connect error: refused"));
    assert_eq!(bridge.poll(), Some(error("Connect error: refused")));
    assert_eq!(bridge.poll(), None);
    assert_eq!(bridge.poll(), None);
}

#[test]
fn results_are_polled_in_arrival_order() {
    let mut bridge = Bridge::new("p1".to_string(), 100);
    bridge.deliver(error("a"));
    bridge.deliver(error("b"));
    assert_eq!(bridge.poll(), Some(error("a")));
    bridge.deliver(error("c"));
    assert_eq!(bridge.poll(), Some(error("b")));
    assert_eq!(bridge.poll(), Some(error("c")));
    assert_eq!(bridge.poll(), None);
}

#[test]
fn equal_results_are_not_merged() {
    let mut bridge = Bridge::new("p1".to_string(), 100);
    bridge.deliver(error("same"));
    bridge.deliver(error("same"));
    assert_eq!(bridge.poll(), Some(error("same")));
    assert_eq!(bridge.poll(), Some(error("same")));
    assert_eq!(bridge.poll(), None);
}

#[test]
fn request_match_against_an_immediate_reply() {
    let mut bridge = Bridge::new("Player".to_string(), 0);
    let session = bridge.request_match("p1".to_string(), 100);
    assert_eq!(session.state(), SessionState::Connecting);
    assert_eq!(bridge.poll(), None);
    run(&mut bridge, session, server_reply("p2", 150, "room-7"));
    assert_eq!(
        bridge.poll(),
        Some(GameEvent::MatchFound {
            opponent_id: "p2".to_string(),
            opponent_trophies: 150,
            room_id: "room-7".to_string(),
        })
    );
    assert_eq!(bridge.poll(), None);
}

#[test]
fn request_match_sends_the_given_player() {
    let bridge = Bridge::new("Player".to_string(), 0);
    let mut session = bridge.request_match("p1".to_string(), 100);
    match session.step(TransportEvent::Connected) {
        Some(Action::Send(frame)) => {
            assert_eq!(
                decode_join_request(&frame),
                Some(MatchRequest::new("p1".to_string(), 100))
            );
        }
        other => panic!("unexpected action {:?}", other),
    }
}

#[test]
fn find_game_sends_the_player_of_the_bridge() {
    let bridge = Bridge::new("Player".to_string(), 1000);
    let mut session = bridge.matchmaking.find_game();
    assert_eq!(
        session.step(TransportEvent::Connected),
        Some(Action::Send(vec![
            0x0A, 0x06, b'P', b'l', b'a', b'y', b'e', b'r', 0x10, 0xE8, 0x07
        ]))
    );
    let mut again = Matchmaker::new("q".to_string(), -2).find_game();
    match again.step(TransportEvent::Connected) {
        Some(Action::Send(frame)) => {
            assert_eq!(decode_join_request(&frame), Some(MatchRequest::new("q".to_string(), -2)));
        }
        other => panic!("unexpected action {:?}", other),
    }
}

#[test]
fn connect_failure_surfaces_one_network_error() {
    let mut bridge = Bridge::new("p1".to_string(), 100);
    let session = bridge.matchmaking.find_game();
    run(
        &mut bridge,
        session,
        vec![
            TransportEvent::ConnectFailed("connection refused".to_string()),
            TransportEvent::Connected,
            TransportEvent::Closed,
        ],
    );
    assert_eq!(bridge.poll(), Some(error("Connect error: connection refused")));
    assert_eq!(bridge.poll(), None);
}

#[test]
fn a_bare_close_surfaces_nothing() {
    let mut bridge = Bridge::new("p1".to_string(), 100);
    let session = bridge.matchmaking.find_game();
    run(
        &mut bridge,
        session,
        vec![TransportEvent::Connected, TransportEvent::Sent, TransportEvent::Closed],
    );
    assert_eq!(bridge.poll(), None);
}

#[test]
fn overlapping_attempts_surface_in_completion_order() {
    let mut bridge = Bridge::new("p1".to_string(), 100);
    let mut first = bridge.matchmaking.find_game();
    let mut second = bridge.matchmaking.find_game();
    first.step(TransportEvent::Connected);
    second.step(TransportEvent::Connected);
    first.step(TransportEvent::Sent);
    second.step(TransportEvent::Sent);
    // the second attempt completes first
    run(
        &mut bridge,
        second,
        vec![TransportEvent::Ignored, TransportEvent::ReadFailed("reset".to_string())],
    );
    run(
        &mut bridge,
        first,
        vec![TransportEvent::Frame(encode_match_found(&MatchFound {
            opponent_id: "p2".to_string(),
            opponent_trophies: 150,
            room_id: "room-7".to_string(),
        }))],
    );
    assert_eq!(bridge.poll(), Some(error("Read error: reset")));
    assert_eq!(
        bridge.poll(),
        Some(GameEvent::MatchFound {
            opponent_id: "p2".to_string(),
            opponent_trophies: 150,
            room_id: "room-7".to_string(),
        })
    );
    assert_eq!(bridge.poll(), None);
}
