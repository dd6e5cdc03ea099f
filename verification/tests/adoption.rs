use wukong::cache::layout::{game_code_key, written_code_key};
use wukong::error::ErrorCode;
use wukong::game::game_manager::GameManager;
use wukong::game::messages::{GameMessage, WebSocketMessage};
use wukong::game::queue::{conclude_step, process_message};
use wukong::game::types::{Game, Player};
use wukong::team_draft::messages::{SetPoolMessage, TeamDraftMessage};
use wukong::team_draft::types::{TeamDraftPhase, TeamDraftState};

fn seated(ids: &[&str]) -> Vec<Player> {
    ids.iter().map(|id| Player { id: id.to_string(), username: id.to_uppercase() }).collect()
}

fn stored_game(id: &str, code: &str, ids: &[&str]) -> Game {
    Game {
        id: id.to_string(),
        code: code.to_string(),
        host_id: ids.first().map(|h| h.to_string()).unwrap_or_default(),
        players: seated(ids),
        max_players: 8,
        created_at: 1_700_000_000,
    }
}

fn tokens_of(ids: &[&str]) -> Vec<String> {
    ids.iter().map(|id| format!("token-{}", id)).collect()
}

fn drafting(yapper: &str) -> TeamDraftState {
    let mut state = TeamDraftState::new(yapper.to_string(), 0, 3);
    state.phase = TeamDraftPhase::Drafting;
    state.round_data.round = 2;
    state.round_data.current_drafter_id = "b".to_string();
    state
}

fn with_one_game() -> GameManager {
    let mut manager = GameManager::new();
    manager
        .create_game_with(
            "H".to_string(),
            "g0".to_string(),
            "h".to_string(),
            "token-h".to_string(),
            "HHHHHH".to_string(),
            1_700_000_000,
        )
        .unwrap();
    manager
}

#[test]
fn an_adopted_game_is_served_as_it_was_stored() {
    let mut manager = with_one_game();
    let ids = ["a", "b", "c"];
    manager.adopt_game(stored_game("g1", "ABCDEF", &ids), tokens_of(&ids), drafting("a")).unwrap();
    let game = manager.get_game("g1").unwrap();
    assert_eq!(game, stored_game("g1", "ABCDEF", &ids));
    assert!(manager.is_authorized("a", "token-a"));
    assert!(manager.is_authorized("c", "token-c"));
    assert!(!manager.is_authorized("c", "token-a"));
    assert!(manager.code_in_use("ABCDEF"));
    let draft = manager.team_draft("g1").unwrap();
    assert_eq!(draft.state.phase, TeamDraftPhase::Drafting);
    assert_eq!(draft.state.round_data.round, 2);
    assert_eq!(draft.state.round_data.current_drafter_id, "b");
    let joined = manager
        .join_game_by_code_with("D".to_string(), "abcdef", "d".to_string(), "token-d".to_string())
        .unwrap();
    assert_eq!(joined.entry.game.players.len(), 4);
    assert_eq!(joined.entry.game.players[3].id, "d");
    assert_eq!(manager.get_game("g0").unwrap().players.len(), 1);
    let left = manager.remove_player_from_game("b");
    assert!(left.broadcast.is_some());
    let after: Vec<String> =
        manager.get_game("g1").unwrap().players.iter().map(|p| p.id.clone()).collect();
    assert_eq!(after, vec!["a".to_string(), "c".to_string(), "d".to_string()]);
}

#[test]
fn a_game_that_does_not_fit_is_not_adopted() {
    let mut manager = with_one_game();
    let unfit = |e: wukong::error::ErrorResponse| {
        assert_eq!(e.error, ErrorCode::InternalServerError);
        assert_eq!(e.message, "Game is not fit");
    };
    unfit(manager.adopt_game(stored_game("g1", "ABCDEF", &[]), vec![], drafting("a")).unwrap_err());
    let nine = ["a", "b", "c", "d", "e", "f", "g", "i", "j"];
    unfit(
        manager
            .adopt_game(stored_game("g1", "ABCDEF", &nine), tokens_of(&nine), drafting("a"))
            .unwrap_err(),
    );
    unfit(
        manager
            .adopt_game(stored_game("g1", "ABCDEF", &["a", "b"]), tokens_of(&["a"]), drafting("a"))
            .unwrap_err(),
    );
    unfit(
        manager
            .adopt_game(
                stored_game("g1", "ABCDEF", &["a", "b", "a"]),
                tokens_of(&["a", "b", "a"]),
                drafting("a"),
            )
            .unwrap_err(),
    );
    assert!(manager.get_game("g1").is_none());
    assert!(!manager.is_authorized("a", "token-a"));
    assert!(!manager.code_in_use("ABCDEF"));
}

#[test]
fn what_is_in_use_is_not_adopted() {
    let mut manager = with_one_game();
    let taken = manager
        .adopt_game(stored_game("g1", "ABCDEF", &["a", "h"]), tokens_of(&["a", "h"]), drafting("a"))
        .unwrap_err();
    assert_eq!(taken.error, ErrorCode::PlayerAlreadyInGame);
    let same_id = manager
        .adopt_game(stored_game("g0", "ABCDEF", &["a"]), tokens_of(&["a"]), drafting("a"))
        .unwrap_err();
    assert_eq!(same_id.error, ErrorCode::InternalServerError);
    assert_eq!(same_id.message, "Game id is in use");
    let same_code = manager
        .adopt_game(stored_game("g1", "HHHHHH", &["a"]), tokens_of(&["a"]), drafting("a"))
        .unwrap_err();
    assert_eq!(same_code.error, ErrorCode::InvalidGameCode);
    assert_eq!(manager.get_all_games().len(), 1);
    assert!(!manager.is_authorized("a", "token-a"));
    assert!(manager.is_authorized("h", "token-h"));
}

#[test]
fn a_forgotten_game_leaves_the_others() {
    let mut manager = with_one_game();
    let ids = ["a", "b", "c"];
    manager.adopt_game(stored_game("g1", "ABCDEF", &ids), tokens_of(&ids), drafting("a")).unwrap();
    assert!(manager.forget_game("g1"));
    assert!(!manager.forget_game("g1"));
    assert!(manager.get_game("g1").is_none());
    assert!(manager.team_draft("g1").is_none());
    assert!(!manager.code_in_use("ABCDEF"));
    assert!(!manager.is_authorized("a", "token-a"));
    assert!(!manager.is_authorized("b", "token-b"));
    assert!(manager.is_authorized("h", "token-h"));
    assert!(manager.code_in_use("HHHHHH"));
    assert_eq!(manager.get_game("g0").unwrap().players.len(), 1);
    manager.adopt_game(stored_game("g1", "ABCDEF", &ids), tokens_of(&ids), drafting("a")).unwrap();
    assert_eq!(manager.get_all_games().len(), 2);
}

#[test]
fn a_draft_is_put_back() {
    let mut manager = with_one_game();
    assert!(!manager.put_team_draft("g9", drafting("h")));
    assert!(manager.put_team_draft("g0", drafting("h")));
    let draft = manager.team_draft("g0").unwrap();
    assert_eq!(draft.state.phase, TeamDraftPhase::Drafting);
    assert_eq!(draft.state.round_data.round, 2);
    assert_eq!(manager.get_game("g0").unwrap().players.len(), 1);
}

#[test]
fn a_step_that_the_store_did_not_take_is_abandoned() {
    let mut manager = with_one_game();
    let began_from = manager.team_draft("g0").unwrap().state.clone();
    let message = WebSocketMessage {
        game_id: "g0".to_string(),
        message: GameMessage::TeamDraft(TeamDraftMessage::SetPool(SetPoolMessage {
            pool: "anime".to_string(),
        })),
        player_id: "h".to_string(),
        auth_token: Some("token-h".to_string()),
    };
    let chunk = process_message(&mut manager, "g0", message.clone(), 1_000).unwrap();
    assert_eq!(manager.team_draft("g0").unwrap().state.round_data.pool, "anime");
    assert!(conclude_step(&mut manager, "g0", began_from.clone(), chunk, false).is_none());
    assert_eq!(manager.team_draft("g0").unwrap().state.round_data.pool, "");
    assert!(manager.get_game("g0").is_some());
    let chunk = process_message(&mut manager, "g0", message, 1_000).unwrap();
    let published = conclude_step(&mut manager, "g0", began_from, chunk, true).unwrap();
    assert_eq!(published.messages.len(), 1);
    assert_eq!(manager.team_draft("g0").unwrap().state.round_data.pool, "anime");
}

#[test]
fn a_written_code_is_looked_up_in_upper_case() {
    assert_eq!(written_code_key("abcdef"), "game_code::ABCDEF");
    assert_eq!(written_code_key("AbC123"), game_code_key("ABC123"));
}
