use snake_game::types::{Direction, Food, GameMessage, GameState, Position, Snake};
use snake_game::codec::encode_message_text;
use snake_game::decode::decode_message_text;

fn round_trip(m: GameMessage) {
    let text = encode_message_text(&m);
    let back = decode_message_text(&text);
    assert_eq!(back, Some(m));
}

#[test]
fn ready_encodes_exactly() {
    let text = encode_message_text(&GameMessage::Ready);
    assert_eq!(text, "{\"type\":\"Ready\"}");
}

#[test]
fn ready_round_trips() {
    round_trip(GameMessage::Ready);
}

#[test]
fn player_input_encodes_exactly() {
    let text = encode_message_text(&GameMessage::PlayerInput(Direction::Up));
    assert_eq!(text, "{\"type\":\"PlayerInput\",\"Up\":null}");
    let text = encode_message_text(&GameMessage::PlayerInput(Direction::Left));
    assert_eq!(text, "{\"type\":\"PlayerInput\",\"Left\":null}");
}

#[test]
fn player_input_round_trips_all_directions() {
    round_trip(GameMessage::PlayerInput(Direction::Up));
    round_trip(GameMessage::PlayerInput(Direction::Down));
    round_trip(GameMessage::PlayerInput(Direction::Left));
    round_trip(GameMessage::PlayerInput(Direction::Right));
}

#[test]
fn matching_status_encodes_exactly() {
    let text = encode_message_text(&GameMessage::MatchingStatus { current: 1, required: 2 });
    assert_eq!(text, "{\"type\":\"MatchingStatus\",\"current\":1,\"required\":2}");
}

#[test]
fn matching_status_round_trips() {
    round_trip(GameMessage::MatchingStatus { current: 0, required: 2 });
    round_trip(GameMessage::MatchingStatus { current: 12345, required: usize::MAX });
}

#[test]
fn game_over_encodes_exactly() {
    let text = encode_message_text(&GameMessage::GameOver { rankings: vec![(2, 40), (1, 15)] });
    assert_eq!(text, "{\"type\":\"GameOver\",\"rankings\":[[2,40],[1,15]]}");
}

#[test]
fn game_over_round_trips() {
    round_trip(GameMessage::GameOver { rankings: vec![] });
    round_trip(GameMessage::GameOver { rankings: vec![(7, 0)] });
    round_trip(GameMessage::GameOver { rankings: vec![(2, 40), (1, 15), (9, u32::MAX)] });
}

fn sample_state() -> GameState {
    GameState {
        room_id: "room-1".to_string(),
        snakes: vec![
            Snake {
                id: 0,
                body: vec![Position { x: 1, y: 2 }, Position { x: 1, y: 3 }],
                direction: Direction::Up,
                alive: true,
                score: 7,
            },
            Snake {
                id: 1,
                body: vec![],
                direction: Direction::Right,
                alive: false,
                score: 0,
            },
        ],
        foods: vec![Food { position: Position { x: -4, y: 0 } }],
        game_started: true,
        game_over: false,
    }
}

#[test]
fn game_state_encodes_exactly() {
    let text = encode_message_text(&GameMessage::GameState(sample_state()));
    let expected = "{\"type\":\"GameState\",\"room_id\":\"room-1\",\"snakes\":[{\"id\":0,\"body\":[{\"x\":1,\"y\":2},{\"x\":1,\"y\":3}],\"direction\":\"Up\",\"alive\":true,\"score\":7},{\"id\":1,\"body\":[],\"direction\":\"Right\",\"alive\":false,\"score\":0}],\"foods\":[{\"position\":{\"x\":-4,\"y\":0}}],\"game_started\":true,\"game_over\":false}";
    assert_eq!(text, expected);
}

#[test]
fn game_state_round_trips() {
    round_trip(GameMessage::GameState(sample_state()));
    let empty = GameState {
        room_id: String::new(),
        snakes: vec![],
        foods: vec![],
        game_started: false,
        game_over: false,
    };
    round_trip(GameMessage::GameState(empty));
}

#[test]
fn room_id_escapes_round_trip() {
    let mut st = sample_state();
    st.room_id = "a\"b\\c\nd\te\r\u{8}\u{c}/x\u{1}\u{1f}".to_string();
    round_trip(GameMessage::GameState(st));
}

#[test]
fn room_id_escapes_encode_exactly() {
    let mut st = sample_state();
    st.snakes = vec![];
    st.foods = vec![];
    st.room_id = "a\"\\\n\u{1}".to_string();
    let text = encode_message_text(&GameMessage::GameState(st));
    let expected = "{\"type\":\"GameState\",\"room_id\":\"a\\\"\\\\\\n\\u0001\",\"snakes\":[],\"foods\":[],\"game_started\":true,\"game_over\":false}";
    assert_eq!(text, expected);
}

#[test]
fn extreme_coordinates_round_trip() {
    let mut st = sample_state();
    st.snakes[0].body = vec![Position { x: i32::MIN, y: i32::MAX }];
    round_trip(GameMessage::GameState(st));
}

#[test]
fn unknown_tag_is_discarded() {
    assert_eq!(decode_message_text("{\"type\":\"Foo\",\"x\":1}"), None);
}

#[test]
fn truncated_record_is_discarded() {
    assert_eq!(decode_message_text("{\"type\":\"GameSt"), None);
    assert_eq!(decode_message_text("{\"type\":\"MatchingStatus\",\"current\":1"), None);
    assert_eq!(decode_message_text("{\"type\":\"Ready\""), None);
}

#[test]
fn empty_and_junk_are_discarded() {
    assert_eq!(decode_message_text(""), None);
    assert_eq!(decode_message_text("{}"), None);
    assert_eq!(decode_message_text("hello"), None);
    assert_eq!(decode_message_text("{\"type\":\"Ready\"}extra"), None);
}

#[test]
fn out_of_range_numbers_are_discarded() {
    let text = "{\"type\":\"MatchingStatus\",\"current\":99999999999999999999999999,\"required\":2}";
    assert_eq!(decode_message_text(text), None);
    let text = "{\"type\":\"GameOver\",\"rankings\":[[1,4294967296]]}";
    assert_eq!(decode_message_text(text), None);
}

#[test]
fn wrong_direction_payload_is_discarded() {
    assert_eq!(decode_message_text("{\"type\":\"PlayerInput\",\"Sideways\":null}"), None);
}
