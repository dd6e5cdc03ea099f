use wukong::cache::store::{game_ops, leave_ops, player_ops, StoreOp};
use wukong::error::ErrorCode;
use wukong::game::game_manager::{generate_game_code, ClosedGame, GameManager, MAX_PLAYERS};
use wukong::game::messages::GameMessage;
use wukong::game::types::Player;
use wukong::team_draft::types::TeamDraftPhase;

fn open(manager: &mut GameManager, game: &str, host: &str, code: &str) {
    manager
        .create_game_with(
            host.to_uppercase(),
            game.to_string(),
            host.to_string(),
            format!("token-{}", host),
            code.to_string(),
            1_700_000_000,
        )
        .unwrap();
}

fn join(manager: &mut GameManager, game: &str, player: &str) {
    manager
        .join_game_with(player.to_uppercase(), game, player.to_string(), format!("token-{}", player))
        .unwrap();
}

fn ids(manager: &GameManager, game: &str) -> Vec<String> {
    manager.get_game(game).unwrap().players.iter().map(|p| p.id.clone()).collect()
}

#[test]
fn create_then_join_by_lower_case_code() {
    let mut manager = GameManager::new();
    let entry = manager.create_game("A".to_string()).unwrap();
    let code = entry.game.code.clone();
    assert_eq!(code.chars().count(), 6);
    assert!(code.chars().all(|c| "ABCDEFGHIJKLMNPQRSTUVWXYZ123456789".contains(c)));
    assert_eq!(entry.game.players.len(), 1);
    assert_eq!(entry.game.players[0].username, "A");
    assert_eq!(entry.game.players[0].id, entry.game.host_id);
    assert_eq!(entry.game.max_players, 8);
    assert!(manager.is_authorized(&entry.game.host_id, &entry.auth_token));

    let joined = manager.join_game_by_code("B".to_string(), code.to_lowercase()).unwrap();
    let game = &joined.entry.game;
    assert_eq!(game.id, entry.game.id);
    assert_eq!(game.max_players, 8);
    assert_eq!(game.players.len(), 2);
    assert_eq!(game.players[0], entry.game.players[0]);
    assert_eq!(game.players[1].username, "B");
    assert_eq!(game.players[1].id, joined.player_id);
    assert!(manager.is_authorized(&joined.player_id, &joined.entry.auth_token));
    assert_eq!(joined.broadcast.game_id, game.id);
    assert_eq!(joined.broadcast.player_id, joined.player_id);
    assert!(joined.broadcast.auth_token.is_none());
    assert!(matches!(
        &joined.broadcast.message,
        GameMessage::PlayerJoined { username, player_id }
            if username == "B" && *player_id == joined.player_id
    ));
}

#[test]
fn new_game_starts_with_a_fresh_team_draft() {
    let mut manager = GameManager::new();
    open(&mut manager, "g1", "a", "ABCDEF");
    let state = &manager.team_draft("g1").unwrap().state;
    assert_eq!(state.yapper_id, "a");
    assert_eq!(state.yapper_index, 0);
    assert_eq!(state.max_rounds, 3);
    assert_eq!(state.phase, TeamDraftPhase::YapperChoosing);
    assert_eq!(state.round_data.round, 1);
    assert_eq!(state.round_data.team_size, 2);
    assert!(manager.team_draft("g2").is_none());
}

#[test]
fn codes_stay_distinct_over_many_games() {
    let mut manager = GameManager::new();
    let mut codes = std::collections::HashSet::new();
    for _ in 0..300 {
        assert!(codes.iter().all(|code: &String| manager.code_in_use(code)));
        let entry = manager.create_game("host".to_string()).unwrap();
        assert!(codes.insert(entry.game.code.clone()));
        assert!(manager.code_in_use(&entry.game.code));
    }
    assert_eq!(manager.get_all_games().len(), 300);
    assert!(!manager.code_in_use("OOOOOO"));
}

#[test]
fn drawn_codes_have_six_characters_of_the_alphabet() {
    for _ in 0..200 {
        let code = generate_game_code();
        assert_eq!(code.len(), 6);
        assert!(code.chars().all(|c| c != 'O' && c != '0'));
        assert!(code.chars().all(|c| c.is_ascii_uppercase() || c.is_ascii_digit()));
    }
}

#[test]
fn empty_username_is_invalid_input() {
    let mut manager = GameManager::new();
    let refused = manager.create_game("   ".to_string()).unwrap_err();
    assert_eq!(refused.error, ErrorCode::InvalidInput("Username cannot be empty".to_string()));
    assert_eq!(refused.to_string(), "Username cannot be empty");
    assert!(manager.get_all_games().is_empty());

    open(&mut manager, "g1", "a", "ABCDEF");
    let refused = manager.join_game(" \t".to_string(), "g1".to_string()).unwrap_err();
    assert_eq!(refused.error, ErrorCode::InvalidInput("Username cannot be empty".to_string()));
    let refused = manager.join_game_by_code("".to_string(), "ABCDEF".to_string()).unwrap_err();
    assert_eq!(refused.error, ErrorCode::InvalidInput("Username cannot be empty".to_string()));
    assert_eq!(ids(&manager, "g1"), vec!["a"]);
}

#[test]
fn full_game_refuses_one_more() {
    let mut manager = GameManager::new();
    open(&mut manager, "g1", "u0", "ABCDEF");
    for i in 1..MAX_PLAYERS {
        join(&mut manager, "g1", &format!("u{}", i));
    }
    assert_eq!(manager.get_game("g1").unwrap().players.len(), 8);
    let refused = manager
        .join_game_with("late".to_string(), "g1", "u8th".to_string(), "token".to_string())
        .unwrap_err();
    assert_eq!(refused.error, ErrorCode::GameFull);
    assert_eq!(refused.message, "Game is full");
    assert_eq!(manager.get_game("g1").unwrap().players.len(), 8);
    assert!(!manager.is_authorized("u8th", "token"));
}

#[test]
fn joining_twice_under_one_id_is_refused() {
    let mut manager = GameManager::new();
    open(&mut manager, "g1", "a", "ABCDEF");
    open(&mut manager, "g2", "z", "ZZZZZZ");
    join(&mut manager, "g1", "b");
    let refused = manager
        .join_game_with("again".to_string(), "g1", "b".to_string(), "other".to_string())
        .unwrap_err();
    assert_eq!(refused.error, ErrorCode::PlayerAlreadyInGame);
    let refused = manager
        .join_game_with("again".to_string(), "g2", "b".to_string(), "other".to_string())
        .unwrap_err();
    assert_eq!(refused.error, ErrorCode::PlayerAlreadyInGame);
    let refused = manager
        .create_game_with(
            "again".to_string(),
            "g3".to_string(),
            "b".to_string(),
            "other".to_string(),
            "YYYYYY".to_string(),
            0,
        )
        .unwrap_err();
    assert_eq!(refused.error, ErrorCode::PlayerAlreadyInGame);
    assert_eq!(ids(&manager, "g1"), vec!["a", "b"]);
    assert_eq!(ids(&manager, "g2"), vec!["z"]);
    assert!(manager.is_authorized("b", "token-b"));
    assert!(!manager.is_authorized("b", "other"));
}

#[test]
fn unknown_game_and_taken_name_are_refused() {
    let mut manager = GameManager::new();
    open(&mut manager, "g1", "a", "ABCDEF");
    let refused = manager
        .join_game_with("B".to_string(), "nowhere", "b".to_string(), "t".to_string())
        .unwrap_err();
    assert_eq!(refused.error, ErrorCode::GameNotFound);
    let refused = manager.join_game_by_code("B".to_string(), "QQQQQQ".to_string()).unwrap_err();
    assert_eq!(refused.error, ErrorCode::GameNotFound);
    let refused = manager.join_game_by_code("A".to_string(), "abcdef".to_string()).unwrap_err();
    assert_eq!(refused.error, ErrorCode::PlayerAlreadyInGame);
    assert_eq!(refused.message, "Username taken.");
    assert_eq!(ids(&manager, "g1"), vec!["a"]);
}

#[test]
fn leaving_keeps_the_order_of_the_others() {
    let mut manager = GameManager::new();
    open(&mut manager, "g1", "a", "ABCDEF");
    join(&mut manager, "g1", "b");
    join(&mut manager, "g1", "c");
    join(&mut manager, "g1", "d");
    let removal = manager.remove_player_from_game("b");
    assert!(removal.closed_game.is_none());
    let broadcast = removal.broadcast.unwrap();
    assert_eq!(broadcast.game_id, "g1");
    assert_eq!(broadcast.player_id, "b");
    assert!(broadcast.auth_token.is_none());
    assert!(matches!(
        &broadcast.message,
        GameMessage::PlayerDisconnected { username, player_id } if username == "B" && player_id == "b"
    ));
    assert_eq!(ids(&manager, "g1"), vec!["a", "c", "d"]);
    assert!(!manager.is_authorized("b", "token-b"));
    assert!(manager.is_authorized("c", "token-c"));
    // Someone who is in no game leaves nothing.
    let removal = manager.remove_player_from_game("b");
    assert!(removal.broadcast.is_none());
    assert!(removal.closed_game.is_none());
    assert_eq!(ids(&manager, "g1"), vec!["a", "c", "d"]);
    // The seat is free again.
    join(&mut manager, "g1", "b");
    assert_eq!(ids(&manager, "g1"), vec!["a", "c", "d", "b"]);
}

#[test]
fn last_player_leaving_ends_the_game() {
    let mut manager = GameManager::new();
    open(&mut manager, "g1", "a", "ABCDEF");
    open(&mut manager, "g2", "z", "ZZZZZZ");
    join(&mut manager, "g1", "b");
    join(&mut manager, "g1", "c");
    assert!(manager.remove_player_from_game("b").closed_game.is_none());
    assert!(manager.remove_player_from_game("c").closed_game.is_none());
    let removal = manager.remove_player_from_game("a");
    assert!(removal.broadcast.is_some());
    let closed = removal.closed_game.unwrap();
    assert_eq!(closed, ClosedGame { game_id: "g1".to_string(), code: "ABCDEF".to_string() });
    assert!(manager.get_game("g1").is_none());
    assert!(manager.team_draft("g1").is_none());
    assert!(!manager.is_authorized("a", "token-a"));
    assert_eq!(manager.get_all_games().len(), 1);
    // The code is free again, and so is the player.
    let refused = manager.join_game_by_code("X".to_string(), "ABCDEF".to_string()).unwrap_err();
    assert_eq!(refused.error, ErrorCode::GameNotFound);
    open(&mut manager, "g3", "a", "ABCDEF");
    assert_eq!(ids(&manager, "g3"), vec!["a"]);

    let ops = leave_ops("g1", "a", Some(&closed));
    assert_eq!(
        ops,
        vec![
            StoreOp::Pull { key: "game::g1::players".to_string(), value: "a".to_string() },
            StoreOp::Delete { key: "player_usernames::a".to_string() },
            StoreOp::Delete { key: "player_to_game::a".to_string() },
            StoreOp::Delete { key: "player_auth::a".to_string() },
            StoreOp::DeleteMatching { pattern: "game::g1::*".to_string() },
            StoreOp::DeleteMatching { pattern: "team_draft::g1::*".to_string() },
            StoreOp::Delete { key: "game_code::ABCDEF".to_string() },
        ]
    );
    assert_eq!(leave_ops("g1", "b", None).len(), 4);
}

#[test]
fn opened_game_is_written_under_its_keys() {
    let mut manager = GameManager::new();
    open(&mut manager, "g1", "a", "ABCDEF");
    let game = manager.get_game("g1").unwrap();
    let host = Player { id: "a".to_string(), username: "A".to_string() };
    let put = |key: &str, value: &str| StoreOp::Put { key: key.to_string(), value: value.to_string() };
    assert_eq!(
        game_ops(&game, &host, "token-a"),
        vec![
            put("game::g1::code", "ABCDEF"),
            put("game::g1::host_id", "a"),
            put("game::g1::max_players", "8"),
            put("game::g1::created_at", "1700000000"),
            put("game_code::ABCDEF", "g1"),
            StoreOp::Push { key: "game::g1::players".to_string(), value: "a".to_string() },
            put("player_usernames::a", "A"),
            put("player_auth::a", "token-a"),
            put("player_to_game::a", "g1"),
        ]
    );
    let joiner = Player { id: "b".to_string(), username: "B".to_string() };
    assert_eq!(
        player_ops("g1", &joiner, "token-b"),
        vec![
            StoreOp::Push { key: "game::g1::players".to_string(), value: "b".to_string() },
            put("player_usernames::b", "B"),
            put("player_auth::b", "token-b"),
            put("player_to_game::b", "g1"),
        ]
    );
}

#[test]
fn indexes_agree_with_the_lists_of_players() {
    let mut manager = GameManager::new();
    open(&mut manager, "g1", "a", "ABCDEF");
    open(&mut manager, "g2", "z", "ZZZZZZ");
    join(&mut manager, "g1", "b");
    join(&mut manager, "g2", "y");
    manager.remove_player_from_game("a");
    for game in manager.get_all_games() {
        assert!(game.players.len() <= game.max_players as usize);
        assert!(!game.players.is_empty());
        for player in &game.players {
            assert!(manager.is_authorized(&player.id, &format!("token-{}", player.id)));
            assert!(manager.handle_player_left(&game.id, &player.id).is_some());
            let other = if game.id == "g1" { "g2" } else { "g1" };
            assert!(manager.handle_player_left(other, &player.id).is_none());
        }
    }
    assert!(!manager.is_authorized("a", "token-a"));
    assert!(manager.handle_player_left("g1", "a").is_none());
}

#[test]
fn ids_and_codes_in_use_are_refused() {
    let mut manager = GameManager::new();
    open(&mut manager, "g1", "a", "ABCDEF");
    let refused = manager
        .create_game_with(
            "Z".to_string(),
            "g1".to_string(),
            "z".to_string(),
            "token-z".to_string(),
            "ZZZZZZ".to_string(),
            0,
        )
        .unwrap_err();
    assert_eq!(refused.error, ErrorCode::InternalServerError);
    assert_eq!(refused.message, "Game id is in use");
    let refused = manager
        .create_game_with(
            "Z".to_string(),
            "g2".to_string(),
            "z".to_string(),
            "token-z".to_string(),
            "ABCDEF".to_string(),
            0,
        )
        .unwrap_err();
    assert_eq!(refused.error, ErrorCode::InvalidGameCode);
    assert_eq!(refused.message, "Game code is in use");
    assert_eq!(manager.get_all_games().len(), 1);
    assert!(!manager.is_authorized("z", "token-z"));
    assert_eq!(ids(&manager, "g1"), vec!["a"]);
}
