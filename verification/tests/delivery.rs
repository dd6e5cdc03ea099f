use wukong::admin::{admin_auth_middleware, get_game, list_games, GameIdQuery};
use wukong::error::{ErrorCode, ErrorResponse};
use wukong::game::action_timer_manager::ActionTimerManager;
use wukong::game::game_manager::GameManager;
use wukong::game::messages::{
    client_safe_ws_message, BackToLobby, GameMessage, HaltTimer, TimerReason, WebSocketMessage,
};
use wukong::game::queue::{process_message, BroadcastMessageChunk, Delivery};
use wukong::game_controller::{create_game, join_game, status_code, CreateGameRequest, JoinGameRequest};
use wukong::mind_match::types::{MindMatchPhase, MindMatchState};
use wukong::team_draft::messages::TeamDraftTimerReason;
use wukong::text::{blank, decimal_text, parse_decimal, strip_prefix, text_eq};
use wukong::websocket_controller::{
    close_socket, handle_frame, open_socket, IgnoreReason, SocketAction, SocketFrame,
};

fn chat(text: &str) -> GameMessage {
    GameMessage::ChatMessage { username: "A".to_string(), message: text.to_string() }
}

fn pause(until: u64) -> GameMessage {
    GameMessage::HaltTimer(HaltTimer {
        end_timestamp_ms: until,
        reason: TimerReason::TeamDraft(TeamDraftTimerReason::DraftPickShowcase),
    })
}

fn manager() -> GameManager {
    let mut manager = GameManager::new();
    manager
        .create_game_with(
            "A".to_string(),
            "g1".to_string(),
            "a".to_string(),
            "token-a".to_string(),
            "ABCDEF".to_string(),
            0,
        )
        .unwrap();
    manager.join_game_with("B".to_string(), "g1", "b".to_string(), "token-b".to_string()).unwrap();
    manager
}

fn envelope(game: &str, player: &str, token: Option<&str>, message: GameMessage) -> WebSocketMessage {
    WebSocketMessage {
        game_id: game.to_string(),
        message,
        player_id: player.to_string(),
        auth_token: token.map(|t| t.to_string()),
    }
}

#[test]
fn plan_keeps_the_order_and_waits_after_each_pause() {
    let chunk = BroadcastMessageChunk {
        game_id: "g1".to_string(),
        player_id: "a".to_string(),
        messages: vec![chat("one"), pause(5000), pause(9000), chat("two")],
    };
    let plan = GameManager::process_broadcast_messages(chunk);
    assert_eq!(plan.len(), 6);
    let mut handed = Vec::new();
    let mut clock = 0u64;
    let mut times = Vec::new();
    for step in &plan {
        match step {
            Delivery::Broadcast(message) => {
                assert_eq!(message.game_id, "g1");
                assert_eq!(message.player_id, "a");
                assert!(message.auth_token.is_none());
                handed.push(message.message.clone());
                times.push(clock);
            }
            Delivery::WaitUntil(time) => clock = clock.max(*time),
        }
    }
    assert!(matches!(&handed[0], GameMessage::ChatMessage { message, .. } if message == "one"));
    assert!(matches!(&handed[1], GameMessage::HaltTimer(t) if t.end_timestamp_ms == 5000));
    assert!(matches!(&handed[2], GameMessage::HaltTimer(t) if t.end_timestamp_ms == 9000));
    assert!(matches!(&handed[3], GameMessage::ChatMessage { message, .. } if message == "two"));
    assert_eq!(times, vec![0, 0, 5000, 9000]);
    assert!(matches!(plan[2], Delivery::WaitUntil(5000)));
    assert!(matches!(plan[4], Delivery::WaitUntil(9000)));
    assert!(GameManager::process_broadcast_messages(BroadcastMessageChunk {
        game_id: "g1".to_string(),
        player_id: "a".to_string(),
        messages: vec![],
    })
    .is_empty());
    assert_eq!(GameManager::remaining_wait(5000, 1200), 3800);
    assert_eq!(GameManager::remaining_wait(5000, 5000), 0);
    assert_eq!(GameManager::remaining_wait(5000, 9000), 0);
}

#[test]
fn chunks_are_published_on_the_channel_of_their_game() {
    let publication =
        GameManager::publish_broadcast_messages("g1", "a", vec![chat("one"), chat("two")]).unwrap();
    assert_eq!(publication.channel, "game_channel::g1");
    assert_eq!(publication.chunk.game_id, "g1");
    assert_eq!(publication.chunk.player_id, "a");
    assert_eq!(publication.chunk.messages.len(), 2);
    assert!(GameManager::publish_broadcast_messages("g1", "a", vec![]).is_none());
    assert_eq!(GameManager::channel_game_id("game_channel::g1"), Some("g1".to_string()));
    assert_eq!(GameManager::channel_game_id("game_channel::"), Some("".to_string()));
    assert_eq!(GameManager::channel_game_id("other::g1"), None);
    assert_eq!(GameManager::channel_game_id("game"), None);
}

#[test]
fn ordinary_messages_are_published_without_the_token() {
    let mut manager = manager();
    let chunk =
        process_message(&mut manager, "g1", envelope("g1", "b", Some("token-b"), chat("hello")), 0).unwrap();
    assert_eq!(chunk.game_id, "g1");
    assert_eq!(chunk.player_id, "b");
    assert_eq!(chunk.messages.len(), 1);
    let plan = GameManager::process_broadcast_messages(chunk);
    assert_eq!(plan.len(), 1);
    match &plan[0] {
        Delivery::Broadcast(message) => {
            assert!(message.auth_token.is_none());
            assert!(matches!(&message.message, GameMessage::ChatMessage { message, .. } if message == "hello"));
        }
        other => panic!("unexpected step {:?}", other),
    }
    let safe = client_safe_ws_message(envelope("g1", "b", Some("token-b"), chat("hello")));
    assert!(safe.auth_token.is_none());
    assert_eq!(safe.game_id, "g1");
    assert_eq!(safe.player_id, "b");
}

#[test]
fn only_the_host_sends_the_game_back_to_the_lobby() {
    let mut manager = manager();
    let back = || GameMessage::BackToLobby(BackToLobby {});
    assert!(process_message(&mut manager, "g1", envelope("g1", "b", Some("token-b"), back()), 0).is_none());
    let chunk = process_message(&mut manager, "g1", envelope("g1", "a", Some("token-a"), back()), 0).unwrap();
    assert_eq!(chunk.player_id, "a");
    assert!(matches!(chunk.messages[0], GameMessage::BackToLobby(_)));
    assert!(process_message(&mut manager, "gone", envelope("gone", "a", None, back()), 0).is_none());
}

#[test]
fn player_left_is_answered_in_the_chat() {
    let mut manager = manager();
    let left = GameMessage::PlayerLeft { username: "B".to_string(), player_id: "b".to_string() };
    let chunk = process_message(&mut manager, "g1", envelope("g1", "b", None, left), 0).unwrap();
    assert_eq!(chunk.player_id, "b");
    assert!(matches!(
        &chunk.messages[0],
        GameMessage::ChatMessage { username, message } if username == "System" && message == "B left the game"
    ));
    let stranger = GameMessage::PlayerLeft { username: "Z".to_string(), player_id: "z".to_string() };
    assert!(process_message(&mut manager, "g1", envelope("g1", "z", None, stranger), 0).is_none());
    // The player is still in the game: only the end of the socket removes them.
    assert_eq!(manager.get_game("g1").unwrap().players.len(), 2);
}

#[test]
fn broadcast_refuses_tokens_and_dead_games() {
    let manager = manager();
    let refused = manager.broadcast_to_game("g1", envelope("g1", "a", Some("token-a"), chat("x"))).unwrap_err();
    assert_eq!(refused.error, ErrorCode::InternalServerError);
    assert_eq!(
        refused.message,
        "Cannot broadcast message with auth token to players - this would be unsafe"
    );
    let refused = manager.broadcast_to_game("gone", envelope("gone", "a", None, chat("x"))).unwrap_err();
    assert_eq!(refused.error, ErrorCode::GameNotFound);
    let cleared = manager.broadcast_to_game("g1", envelope("g1", "a", None, chat("x"))).unwrap();
    assert!(cleared.auth_token.is_none());
}

#[test]
fn socket_session_checks_game_and_token() {
    let mut manager = manager();
    assert!(open_socket(&manager, "g1"));
    assert!(!open_socket(&manager, "g2"));
    let text = |message| SocketFrame::Text(Some(message));
    assert!(matches!(
        handle_frame(&manager, "g1", "b", text(envelope("g1", "b", Some("token-b"), chat("hi")))),
        SocketAction::Enqueue(message) if message.auth_token == Some("token-b".to_string())
    ));
    assert!(matches!(
        handle_frame(&manager, "g1", "b", text(envelope("g1", "b", None, chat("hi")))),
        SocketAction::Enqueue(_)
    ));
    assert!(matches!(
        handle_frame(&manager, "g1", "b", text(envelope("g2", "b", Some("token-b"), chat("hi")))),
        SocketAction::Ignore(IgnoreReason::WrongGame)
    ));
    assert!(matches!(
        handle_frame(&manager, "g1", "b", text(envelope("g1", "b", Some("token-a"), chat("hi")))),
        SocketAction::Ignore(IgnoreReason::Unauthorized)
    ));
    assert!(matches!(
        handle_frame(&manager, "g1", "b", SocketFrame::Text(None)),
        SocketAction::Ignore(IgnoreReason::Malformed)
    ));
    assert!(matches!(
        handle_frame(&manager, "g1", "b", SocketFrame::Other),
        SocketAction::Ignore(IgnoreReason::NotText)
    ));
    assert!(matches!(handle_frame(&manager, "g1", "b", SocketFrame::Close), SocketAction::Disconnect));
    assert!(matches!(handle_frame(&manager, "g1", "b", SocketFrame::Failed), SocketAction::Disconnect));
    let removal = close_socket(&mut manager, "b");
    assert!(removal.broadcast.is_some());
    assert!(removal.closed_game.is_none());
    let removal = close_socket(&mut manager, "a");
    assert!(removal.closed_game.is_some());
    assert!(!open_socket(&manager, "g1"));
}

#[test]
fn admin_routes_need_the_password() {
    assert_eq!(admin_auth_middleware(None, Some("secret")), 500);
    assert_eq!(admin_auth_middleware(None, None), 500);
    assert_eq!(admin_auth_middleware(Some("secret"), None), 401);
    assert_eq!(admin_auth_middleware(Some("secret"), Some("guess")), 401);
    assert_eq!(admin_auth_middleware(Some("secret"), Some("secret")), 200);
    let manager = manager();
    let list = list_games(&manager);
    assert_eq!(list.count, 1);
    assert_eq!(list.game_ids, vec!["g1"]);
    assert_eq!(get_game(&manager, &GameIdQuery { id: "g1".to_string() }).unwrap().game.code, "ABCDEF");
    assert_eq!(get_game(&manager, &GameIdQuery { id: "g2".to_string() }).unwrap_err(), 404);
}

#[test]
fn http_answers_carry_the_status_of_the_failure() {
    let mut manager = GameManager::new();
    let refused = create_game(&mut manager, CreateGameRequest { username: " ".to_string() }).unwrap_err();
    assert_eq!(status_code(&refused), 400);
    assert_eq!(status_code(&ErrorResponse::new(ErrorCode::GameFull, "Game is full")), 400);
    assert_eq!(status_code(&ErrorResponse::new(ErrorCode::InternalServerError, "x")), 500);
    let key_error = ErrorResponse::from_key_error("Missing required field: code".to_string());
    assert_eq!(key_error.error, ErrorCode::InternalServerError);
    assert_eq!(
        key_error.message,
        "Key building error (programming bug): Missing required field: code"
    );
    let created = create_game(&mut manager, CreateGameRequest { username: "A".to_string() }).unwrap();
    let (joined, broadcast) = join_game(
        &mut manager,
        JoinGameRequest { username: "B".to_string(), game_code: created.game.code.to_lowercase() },
    )
    .unwrap();
    assert_eq!(joined.game.players.len(), 2);
    assert_eq!(joined.game.id, created.game.id);
    assert!(broadcast.auth_token.is_none());
    let refused = join_game(
        &mut manager,
        JoinGameRequest { username: "B".to_string(), game_code: created.game.code.clone() },
    )
    .unwrap_err();
    assert_eq!(status_code(&refused), 400);
}

#[test]
fn action_keys_are_used_once() {
    let mut keys = ActionTimerManager::new();
    let key = keys.generate_action_key("g1");
    assert!(keys.validate_action_key(&key));
    assert!(!keys.validate_action_key("unknown"));
    assert_eq!(keys.consume_action_key(&key).unwrap(), "g1");
    assert!(!keys.validate_action_key(&key));
    let refused = keys.consume_action_key(&key).unwrap_err();
    assert_eq!(refused.error, ErrorCode::InvalidInput("Invalid action key".to_string()));
    assert_eq!(refused.message, "Action key not found or already used");

    keys.register_action_key("k2".to_string(), "g2");
    keys.expire_action_key("k2");
    assert!(!keys.validate_action_key("k2"));
    let refused = keys.consume_action_key("k2").unwrap_err();
    assert_eq!(refused.error, ErrorCode::InvalidInput("Action key has expired".to_string()));
    assert_eq!(refused.message, "This action is no longer valid");
    keys.expire_action_key("never-there");
    assert!(!keys.validate_action_key("never-there"));
    let other = keys.generate_action_key("g1");
    assert_ne!(other, key);
}

#[test]
fn mind_match_starts_with_a_question_to_come() {
    let state = MindMatchState::new();
    assert_eq!(state.phase, MindMatchPhase::Question);
    assert_eq!(state.question, "");
    assert_eq!(state.answers.len(), 0);
}

#[test]
fn text_helpers_read_and_write_numbers() {
    assert_eq!(decimal_text(0), "0");
    assert_eq!(decimal_text(8), "8");
    assert_eq!(decimal_text(1_700_000_000), "1700000000");
    assert_eq!(parse_decimal("255", 255), Some(255));
    assert_eq!(parse_decimal("256", 255), None);
    assert_eq!(parse_decimal("007", 255), Some(7));
    assert_eq!(parse_decimal("", 255), None);
    assert_eq!(parse_decimal("1a", 255), None);
    assert_eq!(parse_decimal("-1", 255), None);
    assert!(blank(""));
    assert!(blank(" \t\n"));
    assert!(!blank(" a "));
    assert!(text_eq("abc", "abc"));
    assert!(!text_eq("abc", "abd"));
    assert_eq!(strip_prefix("game_channel::g1", "game_channel::"), Some("g1"));
    assert_eq!(strip_prefix("game", "game_channel::"), None);
}
