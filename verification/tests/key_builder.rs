use wukong::cache::key_builder::{key, KeyBuilder, KeySchemas, KeySegment};
use wukong::cache::key_parts::{build_key, extract_game_id_from_key, split_key};
use wukong::cache::layout::{
    draft_key, game_code_key, game_key, picks_key, round_key, DraftField, GameField, RoundField,
};
use wukong::cache::store::{draft_ops, StoreOp};
use wukong::cache::stored::{read_draft, read_game, StoredDraft, StoredGame, StoredPlayer};
use wukong::error::ErrorCode;
use wukong::team_draft::types::TeamDraftPhase;
use wukong::text::{parse_i32, parse_u8};
use wukong::team_draft::state::TeamDraftService;

#[test]
fn index_keys_have_two_segments() {
    assert_eq!(key("game_code").unwrap().field("ABC123").unwrap().get_key().unwrap(), "game_code::ABC123");
    assert_eq!(key("player_to_game").unwrap().field("player-1").unwrap().get_key().unwrap(), "player_to_game::player-1");
    assert_eq!(key("player_auth").unwrap().field("player-1").unwrap().get_key().unwrap(), "player_auth::player-1");
    assert_eq!(
        key("player_usernames").unwrap().field("player-1").unwrap().get_key().unwrap(),
        "player_usernames::player-1"
    );
    assert_eq!(game_code_key("ABC123"), "game_code::ABC123");
}

#[test]
fn game_keys_name_one_field() {
    for (field, word) in [
        (GameField::HostId, "host_id"),
        (GameField::Code, "code"),
        (GameField::Players, "players"),
        (GameField::MaxPlayers, "max_players"),
        (GameField::CreatedAt, "created_at"),
    ] {
        let built = key("game").unwrap().field("g1").unwrap().field(word).unwrap().get_key().unwrap();
        assert_eq!(built, format!("game::g1::{}", word));
        assert_eq!(game_key("g1", field), built);
    }
    assert_eq!(key("game").unwrap().field("g1").unwrap().get_key().unwrap(), "game::g1");
    assert_eq!(draft_key("g1", DraftField::Phase), "team_draft::g1::phase");
    assert_eq!(draft_key("g1", DraftField::PlayerPoints), "team_draft::g1::player_points");
    assert_eq!(round_key("g1", RoundField::TeamSize), "team_draft::g1::round::team_size");
    assert_eq!(picks_key("g1", "player-9"), "team_draft::g1::round::player_to_picks::player-9");
}

#[test]
fn unknown_schema_is_refused() {
    assert_eq!(key("nothing").unwrap_err(), "Unknown key schema: nothing");
    assert_eq!(KeyBuilder::new("game_channel").unwrap_err(), "Unknown key schema: game_channel");
    assert_eq!(build_key("nothing", &vec!["a"]).unwrap_err(), "Unknown key schema: nothing");
}

#[test]
fn missing_field_is_refused_at_the_end() {
    assert_eq!(key("game_code").unwrap().get_key().unwrap_err(), "Missing required field: code");
    assert_eq!(key("game").unwrap().get_key().unwrap_err(), "Missing required field: game_id");
    let picks = key("team_draft")
        .unwrap()
        .field("g1")
        .unwrap()
        .field("round")
        .unwrap()
        .field("player_to_picks")
        .unwrap();
    assert_eq!(picks.get_key().unwrap_err(), "Missing required field: player_id");
}

#[test]
fn unresolved_ambiguity_is_refused_at_the_end() {
    let round = key("team_draft").unwrap().field("g1").unwrap().field("round").unwrap();
    assert_eq!(round.get_key().unwrap_err(), "Ambiguous key: more than one extension path matches");
}

#[test]
fn value_without_a_place_is_refused_with_the_options() {
    let refused = key("game_code").unwrap().field("ABC").unwrap().field("more").unwrap_err();
    assert_eq!(refused, "No extensions allowed for this schema");
    let refused = key("game").unwrap().field("g1").unwrap().field("colour").unwrap_err();
    assert_eq!(
        refused,
        "No extension path matches 'colour' at position 0. Available options: \
         [\"host_id\"], [\"code\"], [\"players\"], [\"max_players\"], [\"created_at\"]"
    );
    let round = key("team_draft").unwrap().field("g1").unwrap().field("round").unwrap();
    assert_eq!(
        round.field("invalid_field").unwrap_err(),
        "No potential extension path matches 'invalid_field' at position 1. Available options: \
         [\"round\", \"pool\", \"competition\", \"team_size\", \"starting_drafter_id\", \
         \"current_drafter_id\"], [\"player_to_picks\"]"
    );
    let code = key("game").unwrap().field("g1").unwrap().field("code").unwrap();
    assert_eq!(
        code.field("x").unwrap_err(),
        "Extension path is complete, no more segments allowed"
    );
}

#[test]
fn build_key_takes_all_values_at_once() {
    assert_eq!(build_key("game", &vec!["g1", "players"]).unwrap(), "game::g1::players");
    assert_eq!(
        build_key("team_draft", &vec!["g1", "round", "player_to_picks", "player-1"]).unwrap(),
        "team_draft::g1::round::player_to_picks::player-1"
    );
    assert_eq!(build_key("game", &vec![]).unwrap_err(), "Missing required field: game_id");
    assert!(build_key("game", &vec!["g1", "colour", "code"]).unwrap_err().starts_with("No extension path"));
}

#[test]
fn split_restores_the_segments_of_a_key() {
    let values = vec!["g1", "round", "player_to_picks", "player-1"];
    let built = build_key("team_draft", &values).unwrap();
    assert_eq!(split_key(&built), vec!["team_draft", "g1", "round", "player_to_picks", "player-1"]);
    assert_eq!(split_key("game::::code"), vec!["game", "", "code"]);
    assert_eq!(split_key("plain"), vec!["plain"]);
    assert_eq!(split_key(""), vec![""]);
    assert_eq!(split_key("a:::b"), vec!["a", ":b"]);
    assert_eq!(split_key("a::b::"), vec!["a", "b", ""]);
}

#[test]
fn game_id_is_read_from_the_key_of_a_code() {
    assert_eq!(extract_game_id_from_key("game::g1::code"), Some("g1".to_string()));
    assert_eq!(extract_game_id_from_key("game::g1::players"), None);
    assert_eq!(extract_game_id_from_key("team_draft::g1::code"), None);
    assert_eq!(extract_game_id_from_key("game::g1"), None);
    assert_eq!(extract_game_id_from_key(&game_key("abc-123", GameField::Code)), Some("abc-123".to_string()));
}

#[test]
fn schemas_are_registered_by_name() {
    let schemas = KeySchemas::new();
    for name in ["game", "player_usernames", "team_draft", "game_code", "player_to_game", "player_auth"] {
        assert!(schemas.get(name).is_some());
    }
    assert!(schemas.get("mind_match").is_none());
    let game = schemas.get("game").unwrap();
    assert_eq!(game.base_pattern, vec![KeySegment::Fixed(vec!["game"]), KeySegment::Field("game_id")]);
    assert_eq!(game.allowed_extensions.len(), 5);
    assert_eq!(schemas.get("team_draft").unwrap().allowed_extensions.len(), 7);
    let mind_match = wukong::mind_match::types::get_key_schemas();
    assert_eq!(mind_match.len(), 1);
    assert_eq!(mind_match[0].0, "mind_match");
    assert_eq!(mind_match[0].1.allowed_extensions.len(), 3);
}

#[test]
fn team_draft_is_written_under_its_keys() {
    let host = wukong::game::types::Player { id: "a".to_string(), username: "A".to_string() };
    let mut service = TeamDraftService::new(&host);
    service.state.round_data.pool = "anime".to_string();
    service.state.round_data.player_to_picks.insert("b".to_string(), vec!["x".to_string(), "z".to_string()]);
    service.state.player_points.insert("b".to_string(), 12);
    let put = |key: &str, value: &str| StoreOp::Put { key: key.to_string(), value: value.to_string() };
    assert_eq!(
        draft_ops("g1", &service.state),
        vec![
            StoreOp::DeleteMatching { pattern: "team_draft::g1::*".to_string() },
            put("team_draft::g1::yapper_id", "a"),
            put("team_draft::g1::yapper_index", "0"),
            put("team_draft::g1::max_rounds", "3"),
            put("team_draft::g1::phase", "\"YapperChoosing\""),
            put("team_draft::g1::round::round", "1"),
            put("team_draft::g1::round::team_size", "2"),
            put("team_draft::g1::round::pool", "anime"),
            put("team_draft::g1::round::competition", ""),
            put("team_draft::g1::round::starting_drafter_id", ""),
            put("team_draft::g1::round::current_drafter_id", ""),
            StoreOp::Push {
                key: "team_draft::g1::round::player_to_picks::b".to_string(),
                value: "x".to_string()
            },
            StoreOp::Push {
                key: "team_draft::g1::round::player_to_picks::b".to_string(),
                value: "z".to_string()
            },
            StoreOp::PutField {
                key: "team_draft::g1::player_points".to_string(),
                field: "b".to_string(),
                value: "12".to_string()
            },
        ]
    );
}

#[test]
fn game_is_read_back_with_defaults() {
    let player = |id: &str, name: Option<&str>| StoredPlayer {
        id: id.to_string(),
        username: name.map(|n| n.to_string()),
    };
    let stored = StoredGame {
        code: Some("ABCDEF".to_string()),
        host_id: Some("a".to_string()),
        max_players: Some("6".to_string()),
        created_at: Some("-12".to_string()),
        players: vec![player("a", Some("A")), player("ghost", None), player("b", Some("B"))],
    };
    let game = read_game("g1", stored.clone(), 99).unwrap().unwrap();
    assert_eq!(game.id, "g1");
    assert_eq!(game.code, "ABCDEF");
    assert_eq!(game.host_id, "a");
    assert_eq!(game.max_players, 6);
    assert_eq!(game.created_at, -12);
    let names: Vec<&str> = game.players.iter().map(|p| p.username.as_str()).collect();
    assert_eq!(names, vec!["A", "B"]);

    let defaults = StoredGame {
        max_players: Some("many".to_string()),
        created_at: None,
        players: vec![],
        ..stored.clone()
    };
    let game = read_game("g1", defaults, 99).unwrap().unwrap();
    assert_eq!(game.max_players, 8);
    assert_eq!(game.created_at, 99);
    assert!(game.players.is_empty());

    assert_eq!(read_game("g1", StoredGame { code: None, ..stored.clone() }, 99), Ok(None));
    let refused = read_game("g1", StoredGame { host_id: None, ..stored }, 99).unwrap_err();
    assert_eq!(refused.error, ErrorCode::GameNotFound);
    assert_eq!(refused.message, "Game host not found");
}

#[test]
fn team_draft_is_read_back_with_defaults() {
    let nothing = StoredDraft {
        yapper_id: None,
        yapper_index: None,
        max_rounds: None,
        phase: None,
        round: None,
        team_size: None,
        pool: None,
        competition: None,
        starting_drafter_id: None,
        current_drafter_id: None,
        picks: vec![],
        points: vec![],
    };
    let state = read_draft(nothing.clone());
    assert_eq!(state.yapper_id, "");
    assert_eq!(state.yapper_index, 0);
    assert_eq!(state.max_rounds, 3);
    assert_eq!(state.phase, TeamDraftPhase::YapperChoosing);
    assert_eq!(state.round_data.round, 1);
    assert_eq!(state.round_data.team_size, 2);
    assert_eq!(state.round_data.player_to_picks.len(), 0);
    assert_eq!(state.player_points.len(), 0);

    let stored = StoredDraft {
        yapper_id: Some("b".to_string()),
        yapper_index: Some("1".to_string()),
        max_rounds: Some("+4".to_string()),
        phase: Some("\"Drafting\"".to_string()),
        round: Some("2".to_string()),
        team_size: Some("300".to_string()),
        pool: Some("anime".to_string()),
        current_drafter_id: Some("c".to_string()),
        picks: vec![
            ("c".to_string(), vec!["x".to_string()]),
            ("a".to_string(), vec![]),
            ("c".to_string(), vec!["y".to_string(), "z".to_string()]),
        ],
        points: vec![
            ("a".to_string(), "2".to_string()),
            ("b".to_string(), "two".to_string()),
            ("c".to_string(), "0".to_string()),
        ],
        ..nothing
    };
    let state = read_draft(stored);
    assert_eq!(state.yapper_id, "b");
    assert_eq!(state.yapper_index, 1);
    assert_eq!(state.max_rounds, 4);
    assert_eq!(state.phase, TeamDraftPhase::Drafting);
    assert_eq!(state.round_data.round, 2);
    assert_eq!(state.round_data.team_size, 2);
    assert_eq!(state.round_data.pool, "anime");
    assert_eq!(state.round_data.competition, "");
    assert_eq!(state.round_data.current_drafter_id, "c");
    assert_eq!(state.round_data.player_to_picks.len(), 2);
    assert_eq!(
        state.round_data.player_to_picks.get("c"),
        Some(&vec!["y".to_string(), "z".to_string()])
    );
    assert_eq!(state.round_data.player_to_picks.get("a"), Some(&vec![]));
    assert_eq!(state.player_points.len(), 2);
    assert_eq!(state.player_points.get("a"), Some(&2));
    assert_eq!(state.player_points.get("b"), None);
    assert_eq!(state.player_points.get("c"), Some(&0));
}

#[test]
fn numbers_are_read_as_the_standard_library_reads_them() {
    for text in ["0", "7", "+7", "007", "255", "256", "", "+", "-", "-0", "-1", " 1", "1 ", "1_0", "٣"] {
        assert_eq!(parse_u8(text), text.parse::<u8>().ok(), "{:?}", text);
    }
    for text in [
        "0", "-0", "+0", "12", "-12", "+12", "2147483647", "2147483648", "-2147483648",
        "-2147483649", "", "+", "-", "--1", "+-1", "1.5", "99999999999999999999",
    ] {
        assert_eq!(parse_i32(text), text.parse::<i32>().ok(), "{:?}", text);
    }
}
