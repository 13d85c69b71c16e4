use snake_game::types::{Direction, Food, GameMessage, GameState, Position, Snake};
use snake_game::session::{handle_incoming_text, Phase, Session, SessionEvent};
use snake_game::display::ranking_lines;

fn started_state(game_over: bool) -> GameState {
    GameState {
        room_id: "r".to_string(),
        snakes: vec![Snake {
            id: 2,
            body: vec![Position { x: 5, y: 5 }],
            direction: Direction::Down,
            alive: true,
            score: 40,
        }],
        foods: vec![Food { position: Position { x: 3, y: 9 } }],
        game_started: true,
        game_over,
    }
}

#[test]
fn initial_state() {
    let s = Session::new();
    assert_eq!(s.snapshot, None);
    assert_eq!(s.matching_current, 0);
    assert_eq!(s.matching_required, 2);
    assert_eq!(s.rankings, None);
    assert!(!s.ready);
    assert_eq!(s.phase(), Phase::Matching);
    assert!(s.show_matching_panel());
    assert!(!s.show_virtual_input());
    assert!(!s.input_allowed());
}

#[test]
fn full_session_scenario() {
    let mut s = Session::new();

    // lobby report arrives: panel shows, ready button armed
    let ev = handle_incoming_text("{\"type\":\"MatchingStatus\",\"current\":1,\"required\":2}");
    assert_eq!(ev, SessionEvent::Matching { current: 1, required: 2 });
    s.apply_event(ev);
    assert_eq!((s.matching_current, s.matching_required), (1, 2));
    assert!(s.show_matching_panel());
    assert!(s.ready_button_enabled());

    // the user clicks ready: Ready goes out, button disarms
    let msg = s.press_ready();
    assert_eq!(msg, Some(GameMessage::Ready));
    assert!(!s.ready_button_enabled());
    assert_eq!(s.press_ready(), None);

    // a started snapshot arrives: map play begins
    let text = snake_game::codec::encode_message_text(&GameMessage::GameState(started_state(
        false,
    )));
    let ev = handle_incoming_text(&text);
    s.apply_event(ev);
    assert!(!s.show_matching_panel());
    assert!(s.show_virtual_input());
    assert!(s.input_allowed());
    assert_eq!(s.phase(), Phase::Playing);

    // the round ends: standings panel shows the server's order verbatim
    let ev = handle_incoming_text("{\"type\":\"GameOver\",\"rankings\":[[2,40],[1,15]]}");
    assert_eq!(ev, SessionEvent::RoundOver { rankings: vec![(2, 40), (1, 15)] });
    s.apply_event(ev);
    assert_eq!(s.phase(), Phase::GameOver);
    assert_eq!(s.rankings, Some(vec![(2, 40), (1, 15)]));
    let lines = ranking_lines(s.rankings.as_ref().unwrap());
    let line0: String = lines[0].iter().collect();
    let line1: String = lines[1].iter().collect();
    assert_eq!(line0, "\u{7b2c}1\u{540d}: \u{86c7}2 - 40\u{5206}");
    assert_eq!(line1, "\u{7b2c}2\u{540d}: \u{86c7}1 - 15\u{5206}");

    // the user clicks restart: Ready goes out again, panel clears
    let msg = s.press_restart();
    assert_eq!(msg, Some(GameMessage::Ready));
    assert_eq!(s.rankings, None);
    assert!(s.ready);
}

#[test]
fn input_gate_blocks_before_start() {
    let s = Session::new();
    assert_eq!(s.direction_intent(Direction::Up), None);
    assert_eq!(s.direction_intent(Direction::Left), None);
}

#[test]
fn input_gate_forwards_while_playing() {
    let mut s = Session::new();
    s.apply_event(SessionEvent::Snapshot(started_state(false)));
    assert_eq!(
        s.direction_intent(Direction::Right),
        Some(GameMessage::PlayerInput(Direction::Right)),
    );
}

#[test]
fn input_gate_blocks_after_game_over_flag() {
    let mut s = Session::new();
    s.apply_event(SessionEvent::Snapshot(started_state(true)));
    assert_eq!(s.direction_intent(Direction::Down), None);
    assert!(!s.show_virtual_input());
}

#[test]
fn snapshots_fully_replace() {
    let mut s = Session::new();
    let mut first = started_state(false);
    first.room_id = "first".to_string();
    let mut second = started_state(false);
    second.room_id = "second".to_string();
    second.snakes = vec![];
    s.apply_event(SessionEvent::Snapshot(first));
    s.apply_event(SessionEvent::Snapshot(second.clone()));
    assert_eq!(s.snapshot, Some(second));
}

#[test]
fn game_over_event_from_any_phase() {
    // from matching
    let mut s = Session::new();
    s.apply_event(SessionEvent::RoundOver { rankings: vec![(1, 1)] });
    assert_eq!(s.phase(), Phase::GameOver);

    // from playing, snapshot kept for a final frame
    let mut s = Session::new();
    s.apply_event(SessionEvent::Snapshot(started_state(false)));
    s.apply_event(SessionEvent::RoundOver { rankings: vec![(2, 40)] });
    assert_eq!(s.phase(), Phase::GameOver);
    assert_eq!(s.snapshot, Some(started_state(false)));
    assert_eq!(s.rankings, Some(vec![(2, 40)]));
}

#[test]
fn restart_without_standings_does_nothing() {
    let mut s = Session::new();
    assert_eq!(s.press_restart(), None);
    assert_eq!(s.rankings, None);
    assert!(!s.ready);
}

#[test]
fn malformed_text_is_dropped_without_state_change() {
    let mut s = Session::new();
    let ev = handle_incoming_text("not json at all");
    assert_eq!(ev, SessionEvent::Malformed);
    let before = s.clone();
    s.apply_event(ev);
    assert_eq!(s, before);
}

#[test]
fn client_tags_echoed_back_are_ignored() {
    let ev = handle_incoming_text("{\"type\":\"Ready\"}");
    assert_eq!(ev, SessionEvent::Ignored);
    let ev = handle_incoming_text("{\"type\":\"PlayerInput\",\"Up\":null}");
    assert_eq!(ev, SessionEvent::Ignored);
}

#[test]
fn inbound_snapshot_routes_to_snapshot_event() {
    let text = snake_game::codec::encode_message_text(&GameMessage::GameState(started_state(
        false,
    )));
    let ev = handle_incoming_text(&text);
    assert_eq!(ev, SessionEvent::Snapshot(started_state(false)));
}
