use wukong::game::messages::{
    BackToLobby, GameMessage, GameMode, GameStartedMessage, HaltTimer, TimerReason, WebSocketMessage,
};
use wukong::game::queue::BroadcastMessageChunk;
use wukong::game::types::Player;
use wukong::team_draft::messages::{
    AwardPoint, AwardingPhase, CompleteGame, DraftPick, NextDrafter, NextRound,
    SetCompetitionMessage, SetPoolMessage, StartDraft, TeamDraftMessage, TeamDraftTimerReason,
};
use wukong::team_draft::state::TeamDraftService;
use wukong::team_draft::types::TeamDraftPhase;
use wukong::text_map::TextMap;
use wukong::wire::http::{decode_create_request, decode_join_request, encode_error, encode_game};
use wukong::wire::json::Json;
use wukong::wire::messages::{
    decode_chunk, decode_envelope, decode_message, encode_chunk, encode_envelope, encode_message,
};

fn to_value(json: Json) -> serde_json::Value {
    match json {
        Json::Null | Json::Other => serde_json::Value::Null,
        Json::Number(n) => serde_json::Value::from(n as i64),
        Json::Text(text) => serde_json::Value::String(text),
        Json::List(items) => serde_json::Value::Array(items.into_iter().map(to_value).collect()),
        Json::Object(fields) => serde_json::Value::Object(
            fields.into_iter().map(|(name, value)| (name, to_value(value))).collect(),
        ),
    }
}

fn from_value(value: serde_json::Value) -> Json {
    match value {
        serde_json::Value::Null => Json::Null,
        serde_json::Value::Bool(_) => Json::Other,
        serde_json::Value::Number(n) => match n.as_i64() {
            Some(n) => Json::Number(n as i128),
            None => Json::Other,
        },
        serde_json::Value::String(text) => Json::Text(text),
        serde_json::Value::Array(items) => Json::List(items.into_iter().map(from_value).collect()),
        serde_json::Value::Object(fields) => {
            Json::Object(fields.into_iter().map(|(name, value)| (name, from_value(value))).collect())
        }
    }
}

fn read(text: &str) -> Json {
    from_value(serde_json::from_str(text).unwrap())
}

fn written(json: Json) -> serde_json::Value {
    to_value(json)
}

fn expected(text: &str) -> serde_json::Value {
    serde_json::from_str(text).unwrap()
}

fn draft() -> wukong::team_draft::types::TeamDraftManager {
    let host = Player { id: "a".to_string(), username: "A".to_string() };
    let mut service = TeamDraftService::new(&host);
    service.state.phase = TeamDraftPhase::Drafting;
    service.state.round_data.pool = "anime".to_string();
    service.state.round_data.player_to_picks.insert("b".to_string(), vec!["x".to_string(), "z".to_string()]);
    service.state.round_data.player_to_picks.insert("c".to_string(), vec![]);
    service.state.player_points.insert("b".to_string(), 2);
    service.state
}

fn every_message() -> Vec<GameMessage> {
    let mut points = TextMap::new();
    points.insert("a".to_string(), 0);
    points.insert("b".to_string(), 255);
    let inner = vec![
        TeamDraftMessage::SetPool(SetPoolMessage { pool: "anime \"90s\"".to_string() }),
        TeamDraftMessage::SetCompetition(SetCompetitionMessage { competition: "karaoke".to_string() }),
        TeamDraftMessage::StartDraft(StartDraft { starting_drafter_id: "b".to_string() }),
        TeamDraftMessage::DraftPick(DraftPick { drafter_id: "b".to_string(), pick: "x".to_string() }),
        TeamDraftMessage::NextDrafter(NextDrafter { drafter_id: "c".to_string() }),
        TeamDraftMessage::AwardingPhase(AwardingPhase {}),
        TeamDraftMessage::AwardPoint(AwardPoint { player_id: "b".to_string() }),
        TeamDraftMessage::NextRound(NextRound { round: 2, team_size: 2 }),
        TeamDraftMessage::CompleteGame(CompleteGame { player_points: points }),
    ];
    let mut all = vec![
        GameMessage::PlayerJoined { username: "B".to_string(), player_id: "b".to_string() },
        GameMessage::PlayerLeft { username: "B".to_string(), player_id: "b".to_string() },
        GameMessage::PlayerDisconnected { username: "B".to_string(), player_id: "b".to_string() },
        GameMessage::GameStarted(GameStartedMessage {
            game_type: GameMode::TeamDraft,
            initial_team_draft_state: None,
        }),
        GameMessage::GameStarted(GameStartedMessage {
            game_type: GameMode::TeamDraft,
            initial_team_draft_state: Some(draft()),
        }),
        GameMessage::ChatMessage { username: "A".to_string(), message: "hello\nthere".to_string() },
        GameMessage::HaltTimer(HaltTimer {
            end_timestamp_ms: 1_700_000_003_000,
            reason: TimerReason::TeamDraft(TeamDraftTimerReason::DraftPickShowcase),
        }),
        GameMessage::BackToLobby(BackToLobby {}),
    ];
    all.extend(inner.into_iter().map(GameMessage::TeamDraft));
    all
}

fn same_message(a: &GameMessage, b: &GameMessage) -> bool {
    // The tables are compared by what they hold and not by their order.
    written(Json::Object(encode_message(a))) == written(Json::Object(encode_message(b)))
}

#[test]
fn every_message_survives_the_wire() {
    for message in every_message() {
        let tree = Json::Object(encode_message(&message));
        let text = written(tree).to_string();
        let back = match read(&text) {
            Json::Object(fields) => decode_message(&fields).unwrap(),
            other => panic!("unexpected value {:?}", other),
        };
        assert!(same_message(&back, &message), "{}", text);
        assert_eq!(format!("{:?}", back), format!("{:?}", message));
    }
}

#[test]
fn envelope_survives_the_wire_with_and_without_token() {
    for token in [None, Some("token-b".to_string())] {
        for message in every_message() {
            let envelope = WebSocketMessage {
                game_id: "g1".to_string(),
                message,
                player_id: "b".to_string(),
                auth_token: token.clone(),
            };
            let text = written(encode_envelope(&envelope)).to_string();
            let back = decode_envelope(&read(&text)).unwrap();
            assert_eq!(back.game_id, "g1");
            assert_eq!(back.player_id, "b");
            assert_eq!(back.auth_token, token);
            assert!(same_message(&back.message, &envelope.message));
        }
    }
}

#[test]
fn messages_are_written_with_their_kind_under_type() {
    let joined = GameMessage::PlayerJoined { username: "B".to_string(), player_id: "b".to_string() };
    assert_eq!(
        written(Json::Object(encode_message(&joined))),
        expected(r#"{"type":"PlayerJoined","username":"B","player_id":"b"}"#)
    );
    let pick = GameMessage::TeamDraft(TeamDraftMessage::DraftPick(DraftPick {
        drafter_id: "b".to_string(),
        pick: "x".to_string(),
    }));
    assert_eq!(
        written(Json::Object(encode_message(&pick))),
        expected(r#"{"type":"TeamDraft","msg_type":"DraftPick","drafter_id":"b","pick":"x"}"#)
    );
    let timer = GameMessage::HaltTimer(HaltTimer {
        end_timestamp_ms: 1_700_000_003_000,
        reason: TimerReason::TeamDraft(TeamDraftTimerReason::YapperStartingDraft),
    });
    assert_eq!(
        written(Json::Object(encode_message(&timer))),
        expected(
            r#"{"type":"HaltTimer","end_timestamp_ms":1700000003000,
                "reason":{"TeamDraft":"YapperStartingDraft"}}"#
        )
    );
    let back = GameMessage::BackToLobby(BackToLobby {});
    assert_eq!(written(Json::Object(encode_message(&back))), expected(r#"{"type":"BackToLobby"}"#));
    let started = GameMessage::GameStarted(GameStartedMessage {
        game_type: GameMode::TeamDraft,
        initial_team_draft_state: Some(draft()),
    });
    assert_eq!(
        written(Json::Object(encode_message(&started))),
        expected(
            r#"{"type":"GameStarted","game_type":{"type":"TeamDraft"},
                "initial_team_draft_state":{
                    "yapper_id":"a","yapper_index":0,"max_rounds":3,"phase":"Drafting",
                    "round_data":{"round":1,"pool":"anime","competition":"","team_size":2,
                        "starting_drafter_id":"","current_drafter_id":"",
                        "player_to_picks":{"b":["x","z"],"c":[]}},
                    "player_points":{"b":2}}}"#
        )
    );
}

#[test]
fn envelopes_are_read_in_any_order_of_their_fields() {
    let text = r#"{"auth_token":"t","player_id":"b","extra":true,
        "message":{"pool":"films","msg_type":"SetPool","type":"TeamDraft"},"game_id":"g1"}"#;
    let envelope = decode_envelope(&read(text)).unwrap();
    assert_eq!(envelope.game_id, "g1");
    assert_eq!(envelope.player_id, "b");
    assert_eq!(envelope.auth_token, Some("t".to_string()));
    assert!(matches!(
        envelope.message,
        GameMessage::TeamDraft(TeamDraftMessage::SetPool(m)) if m.pool == "films"
    ));
    let without = r#"{"game_id":"g1","player_id":"b","message":{"type":"BackToLobby"}}"#;
    assert_eq!(decode_envelope(&read(without)).unwrap().auth_token, None);
    let null = r#"{"game_id":"g1","player_id":"b","auth_token":null,"message":{"type":"BackToLobby"}}"#;
    assert_eq!(decode_envelope(&read(null)).unwrap().auth_token, None);
}

#[test]
fn what_is_no_envelope_is_refused() {
    for text in [
        r#"[]"#,
        r#"{"game_id":"g1","player_id":"b"}"#,
        r#"{"game_id":"g1","player_id":"b","message":{"type":"Unknown"}}"#,
        r#"{"game_id":"g1","player_id":"b","message":{"type":"PlayerJoined","username":"B"}}"#,
        r#"{"game_id":"g1","player_id":"b","auth_token":7,"message":{"type":"BackToLobby"}}"#,
        r#"{"game_id":7,"player_id":"b","message":{"type":"BackToLobby"}}"#,
        r#"{"game_id":"g1","player_id":"b","message":{"type":"TeamDraft","msg_type":"NextRound","round":300,"team_size":2}}"#,
        r#"{"game_id":"g1","player_id":"b","message":{"type":"TeamDraft","msg_type":"NextRound","round":-1,"team_size":2}}"#,
        r#"{"game_id":"g1","player_id":"b","message":{"type":"HaltTimer","end_timestamp_ms":5,"reason":{"TeamDraft":"Lunch"}}}"#,
        r#"{"game_id":"g1","player_id":"b","message":{"type":"GameStarted","game_type":{"type":"MindMatch"}}}"#,
        r#"{"game_id":"g1","player_id":"b","message":{"type":"TeamDraft","msg_type":"CompleteGame","player_points":{"a":"many"}}}"#,
    ] {
        assert!(decode_envelope(&read(text)).is_none(), "{}", text);
    }
}

#[test]
fn chunk_survives_the_channel_in_order() {
    let chunk = BroadcastMessageChunk {
        game_id: "g1".to_string(),
        player_id: "a".to_string(),
        messages: every_message(),
    };
    let text = written(encode_chunk(&chunk)).to_string();
    let back = decode_chunk(&read(&text)).unwrap();
    assert_eq!(back.game_id, "g1");
    assert_eq!(back.player_id, "a");
    assert_eq!(back.messages.len(), chunk.messages.len());
    for (a, b) in back.messages.iter().zip(chunk.messages.iter()) {
        assert!(same_message(a, b));
    }
    let empty = BroadcastMessageChunk { game_id: "g1".to_string(), player_id: "a".to_string(), messages: vec![] };
    assert_eq!(
        written(encode_chunk(&empty)),
        expected(r#"{"game_id":"g1","player_id":"a","messages":[]}"#)
    );
    assert!(decode_chunk(&read(r#"{"game_id":"g1","player_id":"a","messages":[{"type":"Nothing"}]}"#)).is_none());
    assert!(decode_chunk(&read(r#"{"game_id":"g1","player_id":"a","messages":{}}"#)).is_none());
}

#[test]
fn requests_and_answers_of_the_web_surface() {
    assert_eq!(decode_create_request(&read(r#"{"username":"A"}"#)).unwrap().username, "A");
    assert!(decode_create_request(&read(r#"{"name":"A"}"#)).is_none());
    assert!(decode_create_request(&read(r#"{"username":1}"#)).is_none());
    let join = decode_join_request(&read(r#"{"game_code":"abcdef","username":"B"}"#)).unwrap();
    assert_eq!(join.username, "B");
    assert_eq!(join.game_code, "abcdef");
    assert!(decode_join_request(&read(r#"{"username":"B"}"#)).is_none());

    let game = wukong::game::types::Game {
        id: "g1".to_string(),
        code: "ABCDEF".to_string(),
        host_id: "a".to_string(),
        players: vec![
            Player { id: "a".to_string(), username: "A".to_string() },
            Player { id: "b".to_string(), username: "B".to_string() },
        ],
        max_players: 8,
        created_at: -5,
    };
    assert_eq!(
        written(encode_game(&game)),
        expected(
            r#"{"id":"g1","code":"ABCDEF","host_id":"a","max_players":8,"created_at":-5,
                "players":[{"id":"a","username":"A"},{"id":"b","username":"B"}]}"#
        )
    );
    let full = wukong::error::ErrorResponse::new(wukong::error::ErrorCode::GameFull, "Game is full");
    assert_eq!(written(encode_error(&full)), expected(r#"{"error":"GameFull","message":"Game is full"}"#));
    let input = wukong::error::ErrorResponse {
        error: wukong::error::ErrorCode::InvalidInput("Username cannot be empty".to_string()),
        message: "Username cannot be empty".to_string(),
    };
    assert_eq!(
        written(encode_error(&input)),
        expected(
            r#"{"error":{"InvalidInput":"Username cannot be empty"},"message":"Username cannot be empty"}"#
        )
    );
}
