use wukong::game::game_manager::GameManager;
use wukong::game::messages::{
    GameMessage, GameMode, GameStartedMessage, HaltTimer, TimerReason, WebSocketMessage,
};
use wukong::game::queue::{process_message, BroadcastMessageChunk};
use wukong::team_draft::messages::{
    AwardPoint, DraftPick, SetCompetitionMessage, SetPoolMessage, StartDraft, TeamDraftMessage,
    TeamDraftTimerReason,
};
use wukong::team_draft::state::{SERVER_ONLY_AUTHORIZED, TeamDraftService};
use wukong::game::types::Player;
use wukong::team_draft::types::TeamDraftPhase;

const NOW: u64 = 1_700_000_000_000;

fn three_players() -> Vec<Player> {
    vec![
        Player { id: "a".to_string(), username: "A".to_string() },
        Player { id: "b".to_string(), username: "B".to_string() },
        Player { id: "c".to_string(), username: "C".to_string() },
    ]
}

fn table() -> GameManager {
    let mut manager = GameManager::new();
    manager
        .create_game_with(
            "A".to_string(),
            "g1".to_string(),
            "a".to_string(),
            "token-a".to_string(),
            "ABCDEF".to_string(),
            1_700_000_000,
        )
        .unwrap();
    manager
        .join_game_with("B".to_string(), "g1", "b".to_string(), "token-b".to_string())
        .unwrap();
    manager
        .join_game_with("C".to_string(), "g1", "c".to_string(), "token-c".to_string())
        .unwrap();
    manager
}

fn from(player: &str, message: GameMessage) -> WebSocketMessage {
    WebSocketMessage {
        game_id: "g1".to_string(),
        message,
        player_id: player.to_string(),
        auth_token: Some(format!("token-{}", player)),
    }
}

fn send(manager: &mut GameManager, player: &str, message: TeamDraftMessage) -> Option<BroadcastMessageChunk> {
    process_message(manager, "g1", from(player, GameMessage::TeamDraft(message)), NOW)
}

fn pick(drafter: &str, what: &str) -> TeamDraftMessage {
    TeamDraftMessage::DraftPick(DraftPick { drafter_id: drafter.to_string(), pick: what.to_string() })
}

fn timer(delay: u64, reason: TeamDraftTimerReason) -> HaltTimer {
    HaltTimer { end_timestamp_ms: NOW + delay, reason: TimerReason::TeamDraft(reason) }
}

fn is_timer(message: &GameMessage, delay: u64, reason: TeamDraftTimerReason) -> bool {
    matches!(message, GameMessage::HaltTimer(t) if *t == timer(delay, reason))
}

fn start(manager: &mut GameManager) {
    let started = GameStartedMessage { game_type: GameMode::TeamDraft, initial_team_draft_state: None };
    process_message(manager, "g1", from("a", GameMessage::GameStarted(started)), NOW).unwrap();
    send(manager, "a", TeamDraftMessage::StartDraft(StartDraft { starting_drafter_id: "b".to_string() }))
        .unwrap();
}

fn draft_until_awarding(manager: &mut GameManager) {
    start(manager);
    send(manager, "b", pick("b", "x")).unwrap();
    send(manager, "c", pick("c", "y")).unwrap();
    send(manager, "b", pick("b", "z")).unwrap();
    send(manager, "c", pick("c", "w")).unwrap();
}

#[test]
fn game_start_announces_a_fresh_lobby() {
    let mut manager = table();
    let started = GameStartedMessage { game_type: GameMode::TeamDraft, initial_team_draft_state: None };
    let chunk =
        process_message(&mut manager, "g1", from("a", GameMessage::GameStarted(started)), NOW).unwrap();
    assert_eq!(chunk.game_id, "g1");
    assert_eq!(chunk.player_id, "a");
    assert_eq!(chunk.messages.len(), 1);
    match &chunk.messages[0] {
        GameMessage::GameStarted(message) => {
            assert_eq!(message.game_type, GameMode::TeamDraft);
            let state = message.initial_team_draft_state.as_ref().unwrap();
            assert_eq!(state.yapper_id, "a");
            assert_eq!(state.yapper_index, 0);
            assert_eq!(state.max_rounds, 3);
            assert_eq!(state.phase, TeamDraftPhase::YapperChoosing);
            assert_eq!(state.round_data.round, 1);
            assert_eq!(state.round_data.team_size, 2);
            assert_eq!(state.round_data.pool, "");
            assert_eq!(state.round_data.player_to_picks.len(), 0);
            assert_eq!(state.player_points.len(), 0);
        }
        other => panic!("unexpected message {:?}", other),
    }
    assert_eq!(manager.team_draft("g1").unwrap().state.max_rounds, 3);
}

#[test]
fn yapper_sets_pool_and_competition() {
    let mut manager = table();
    let chunk = send(
        &mut manager,
        "a",
        TeamDraftMessage::SetPool(SetPoolMessage { pool: "anime".to_string() }),
    )
    .unwrap();
    assert_eq!(chunk.player_id, "a");
    assert_eq!(chunk.messages.len(), 1);
    assert!(matches!(
        &chunk.messages[0],
        GameMessage::TeamDraft(TeamDraftMessage::SetPool(m)) if m.pool == "anime"
    ));
    let chunk = send(
        &mut manager,
        "a",
        TeamDraftMessage::SetCompetition(SetCompetitionMessage { competition: "karaoke".to_string() }),
    )
    .unwrap();
    assert_eq!(chunk.messages.len(), 1);
    assert!(matches!(
        &chunk.messages[0],
        GameMessage::TeamDraft(TeamDraftMessage::SetCompetition(m)) if m.competition == "karaoke"
    ));
    let state = &manager.team_draft("g1").unwrap().state;
    assert_eq!(state.round_data.pool, "anime");
    assert_eq!(state.round_data.competition, "karaoke");
    assert_eq!(state.phase, TeamDraftPhase::YapperChoosing);
}

#[test]
fn start_draft_pauses_then_starts() {
    let mut manager = table();
    let chunk = send(
        &mut manager,
        "a",
        TeamDraftMessage::StartDraft(StartDraft { starting_drafter_id: "b".to_string() }),
    )
    .unwrap();
    assert_eq!(chunk.messages.len(), 2);
    assert!(is_timer(&chunk.messages[0], 3000, TeamDraftTimerReason::YapperStartingDraft));
    assert!(matches!(
        &chunk.messages[1],
        GameMessage::TeamDraft(TeamDraftMessage::StartDraft(m)) if m.starting_drafter_id == "b"
    ));
    let state = &manager.team_draft("g1").unwrap().state;
    assert_eq!(state.phase, TeamDraftPhase::Drafting);
    assert_eq!(state.round_data.starting_drafter_id, "b");
    assert_eq!(state.round_data.current_drafter_id, "b");
    assert_eq!(state.player_points.get("a"), Some(&0));
    assert_eq!(state.player_points.get("b"), Some(&0));
    assert_eq!(state.player_points.get("c"), Some(&0));
}

#[test]
fn draft_rotation_skips_the_yapper() {
    let mut manager = table();
    start(&mut manager);
    let chunk = send(&mut manager, "b", pick("b", "x")).unwrap();
    assert_eq!(chunk.player_id, "b");
    assert_eq!(chunk.messages.len(), 3);
    assert!(matches!(
        &chunk.messages[0],
        GameMessage::TeamDraft(TeamDraftMessage::DraftPick(m)) if m.drafter_id == "b" && m.pick == "x"
    ));
    assert!(is_timer(&chunk.messages[1], 3000, TeamDraftTimerReason::DraftPickShowcase));
    assert!(matches!(
        &chunk.messages[2],
        GameMessage::TeamDraft(TeamDraftMessage::NextDrafter(m)) if m.drafter_id == "c"
    ));
    let chunk = send(&mut manager, "c", pick("c", "y")).unwrap();
    assert!(matches!(
        &chunk.messages[2],
        GameMessage::TeamDraft(TeamDraftMessage::NextDrafter(m)) if m.drafter_id == "b"
    ));
    let state = &manager.team_draft("g1").unwrap().state;
    assert_eq!(state.round_data.current_drafter_id, "b");
    assert_eq!(state.round_data.player_to_picks.get("b"), Some(&vec!["x".to_string()]));
    assert_eq!(state.round_data.player_to_picks.get("c"), Some(&vec!["y".to_string()]));
    assert_eq!(state.phase, TeamDraftPhase::Drafting);
}

#[test]
fn last_pick_begins_the_awarding() {
    let mut manager = table();
    start(&mut manager);
    send(&mut manager, "b", pick("b", "x")).unwrap();
    send(&mut manager, "c", pick("c", "y")).unwrap();
    let chunk = send(&mut manager, "b", pick("b", "z")).unwrap();
    assert_eq!(chunk.messages.len(), 3);
    assert_eq!(manager.team_draft("g1").unwrap().state.phase, TeamDraftPhase::Drafting);
    let chunk = send(&mut manager, "c", pick("c", "w")).unwrap();
    assert_eq!(chunk.messages.len(), 4);
    assert!(matches!(
        &chunk.messages[0],
        GameMessage::TeamDraft(TeamDraftMessage::DraftPick(m)) if m.drafter_id == "c" && m.pick == "w"
    ));
    assert!(is_timer(&chunk.messages[1], 3000, TeamDraftTimerReason::DraftPickShowcase));
    assert!(is_timer(&chunk.messages[2], 8000, TeamDraftTimerReason::TransitionToAwarding));
    assert!(matches!(
        &chunk.messages[3],
        GameMessage::TeamDraft(TeamDraftMessage::AwardingPhase(_))
    ));
    let state = &manager.team_draft("g1").unwrap().state;
    assert_eq!(state.phase, TeamDraftPhase::Awarding);
    assert_eq!(state.round_data.player_to_picks.get("b").unwrap().len(), 2);
    assert_eq!(state.round_data.player_to_picks.get("c").unwrap().len(), 2);
    assert!(state.round_data.player_to_picks.get("a").is_none());
}

#[test]
fn award_advances_to_the_next_round() {
    let mut manager = table();
    draft_until_awarding(&mut manager);
    let chunk = send(
        &mut manager,
        "a",
        TeamDraftMessage::AwardPoint(AwardPoint { player_id: "b".to_string() }),
    )
    .unwrap();
    assert_eq!(chunk.player_id, "a");
    assert_eq!(chunk.messages.len(), 3);
    assert!(matches!(
        &chunk.messages[0],
        GameMessage::TeamDraft(TeamDraftMessage::AwardPoint(m)) if m.player_id == "b"
    ));
    assert!(is_timer(&chunk.messages[1], 8000, TeamDraftTimerReason::WaitingForNextRound));
    assert!(matches!(
        &chunk.messages[2],
        GameMessage::TeamDraft(TeamDraftMessage::NextRound(m)) if m.round == 2 && m.team_size == 2
    ));
    let state = &manager.team_draft("g1").unwrap().state;
    assert_eq!(state.yapper_id, "b");
    assert_eq!(state.yapper_index, 1);
    assert_eq!(state.phase, TeamDraftPhase::YapperChoosing);
    assert_eq!(state.round_data.round, 2);
    assert_eq!(state.round_data.pool, "");
    assert_eq!(state.round_data.current_drafter_id, "");
    assert_eq!(state.round_data.player_to_picks.len(), 0);
    assert_eq!(state.player_points.len(), 0);
    assert_eq!(state.max_rounds, 3);
}

#[test]
fn award_in_the_last_round_completes_the_game() {
    let host = wukong::game::types::Player { id: "a".to_string(), username: "A".to_string() };
    let players = vec![
        host.clone(),
        wukong::game::types::Player { id: "b".to_string(), username: "B".to_string() },
        wukong::game::types::Player { id: "c".to_string(), username: "C".to_string() },
    ];
    let mut service = TeamDraftService::new(&host);
    service.state.round_data.round = 3;
    service.state.max_rounds = 3;
    service.state.yapper_id = "c".to_string();
    service.state.yapper_index = 2;
    service.state.phase = TeamDraftPhase::Awarding;
    service.state.player_points.insert("a".to_string(), 0);
    service.state.player_points.insert("b".to_string(), 1);
    service.state.player_points.insert("c".to_string(), 0);
    let out = service.handle_message(
        players,
        TeamDraftMessage::AwardPoint(AwardPoint { player_id: "c".to_string() }),
        NOW,
    );
    assert_eq!(out.len(), 2);
    assert!(matches!(
        &out[0],
        GameMessage::TeamDraft(TeamDraftMessage::AwardPoint(m)) if m.player_id == "c"
    ));
    match &out[1] {
        GameMessage::TeamDraft(TeamDraftMessage::CompleteGame(done)) => {
            assert_eq!(done.player_points.len(), 3);
            assert_eq!(done.player_points.get("a"), Some(&0));
            assert_eq!(done.player_points.get("b"), Some(&1));
            assert_eq!(done.player_points.get("c"), Some(&1));
        }
        other => panic!("unexpected message {:?}", other),
    }
    assert_eq!(service.state.yapper_id, "a");
    assert_eq!(service.state.yapper_index, 0);
    assert_eq!(service.state.max_rounds, 3);
    assert_eq!(service.state.phase, TeamDraftPhase::YapperChoosing);
    assert_eq!(service.state.round_data.round, 1);
    assert_eq!(service.state.round_data.team_size, 2);
    assert_eq!(service.state.player_points.len(), 0);
    assert_eq!(service.state.round_data.player_to_picks.len(), 0);
}

#[test]
fn only_the_player_whose_turn_it_is_may_act() {
    let mut manager = table();
    start(&mut manager);
    // It is b's turn: c's token does not open the draft for a pick.
    assert!(send(&mut manager, "c", pick("c", "y")).is_none());
    // A drafter is not the yapper.
    assert!(send(
        &mut manager,
        "b",
        TeamDraftMessage::SetPool(SetPoolMessage { pool: "films".to_string() })
    )
    .is_none());
    let state = &manager.team_draft("g1").unwrap().state;
    assert_eq!(state.round_data.player_to_picks.len(), 0);
    assert_eq!(state.round_data.pool, "");
    // Without a token nothing is taken.
    let mut message = from("b", GameMessage::TeamDraft(pick("b", "x")));
    message.auth_token = None;
    assert!(process_message(&mut manager, "g1", message, NOW).is_none());
    assert_eq!(manager.team_draft("g1").unwrap().state.round_data.player_to_picks.len(), 0);
}

#[test]
fn what_only_the_server_sends_is_never_taken() {
    let mut manager = table();
    draft_until_awarding(&mut manager);
    let service = manager.team_draft("g1").unwrap();
    let awarding = TeamDraftMessage::AwardingPhase(wukong::team_draft::messages::AwardingPhase {});
    assert_eq!(service.get_correct_player_source_id(&awarding), SERVER_ONLY_AUTHORIZED);
    assert_eq!(
        service.get_correct_player_source_id(&TeamDraftMessage::AwardPoint(AwardPoint {
            player_id: "b".to_string()
        })),
        "a"
    );
    // The turn stays with the one who made the last pick.
    assert_eq!(service.get_correct_player_source_id(&pick("b", "q")), "c");
    assert!(send(&mut manager, "a", awarding).is_none());
    assert_eq!(manager.team_draft("g1").unwrap().state.phase, TeamDraftPhase::Awarding);
}

#[test]
fn server_only_messages_change_nothing() {
    let host = wukong::game::types::Player { id: "a".to_string(), username: "A".to_string() };
    let mut service = TeamDraftService::new(&host);
    let out = service.handle_message(
        vec![host.clone()],
        TeamDraftMessage::NextDrafter(wukong::team_draft::messages::NextDrafter {
            drafter_id: "a".to_string(),
        }),
        NOW,
    );
    assert!(out.is_empty());
    assert_eq!(service.state.yapper_id, "a");
    assert_eq!(service.state.phase, TeamDraftPhase::YapperChoosing);
    assert_eq!(service.state.round_data.round, 1);
}

#[test]
fn state_is_put_back_to_a_fresh_lobby() {
    let host = wukong::game::types::Player { id: "a".to_string(), username: "A".to_string() };
    let other = wukong::game::types::Player { id: "b".to_string(), username: "B".to_string() };
    let mut service = TeamDraftService::new(&host);
    service.set_game_settings(5);
    assert_eq!(service.state.max_rounds, 5);
    service.handle_message(
        vec![host.clone(), other.clone()],
        TeamDraftMessage::StartDraft(StartDraft { starting_drafter_id: "b".to_string() }),
        NOW,
    );
    service.handle_message(vec![host.clone(), other.clone()], pick("b", "x"), NOW);
    assert_eq!(service.state.round_data.player_to_picks.len(), 1);
    service.init_state_cached(&other);
    assert_eq!(service.state.yapper_id, "b");
    assert_eq!(service.state.yapper_index, 0);
    assert_eq!(service.state.max_rounds, 3);
    assert_eq!(service.state.phase, TeamDraftPhase::YapperChoosing);
    assert_eq!(service.state.round_data.round, 1);
    assert_eq!(service.state.round_data.player_to_picks.len(), 0);
    assert_eq!(service.state.player_points.len(), 0);
}

#[test]
fn points_and_tables_stay_within_what_the_machine_holds() {
    let host = wukong::game::types::Player { id: "a".to_string(), username: "A".to_string() };
    let mut service = TeamDraftService::new(&host);
    let award = TeamDraftMessage::AwardPoint(AwardPoint { player_id: "a".to_string() });
    assert!(service.can_handle_message(&vec![host.clone()], &award, 0));
    assert!(!service.can_handle_message(&vec![], &award, 0));
    assert!(service.can_handle_message(&vec![], &pick("a", "x"), 0));
    service.state.player_points.insert("a".to_string(), 255);
    assert!(service.can_handle_message(&vec![host.clone()], &award, 0));
    service.state.round_data.round = 3;
    assert!(!service.can_handle_message(&vec![host.clone()], &award, 0));
    service.state.player_points.insert("a".to_string(), 254);
    assert!(service.can_handle_message(&vec![host.clone()], &award, 0));
}

#[test]
fn a_full_count_is_dropped_with_the_round() {
    let players = three_players();
    let mut service = TeamDraftService::new(&players[0]);
    service.state.player_points.insert("b".to_string(), 255);
    let award = TeamDraftMessage::AwardPoint(AwardPoint { player_id: "b".to_string() });
    assert!(service.can_handle_message(&players, &award, 1_000));
    let out = service.handle_message(players.clone(), award, 1_000);
    assert_eq!(out.len(), 3);
    assert_eq!(service.state.round_data.round, 2);
    assert_eq!(service.state.player_points.len(), 0);
}

#[test]
fn a_message_needs_room_for_its_own_pauses_only() {
    let players = three_players();
    let service = TeamDraftService::new(&players[0]);
    let start = TeamDraftMessage::StartDraft(StartDraft { starting_drafter_id: "b".to_string() });
    let pool = TeamDraftMessage::SetPool(SetPoolMessage { pool: "fruit".to_string() });
    let award = TeamDraftMessage::AwardPoint(AwardPoint { player_id: "b".to_string() });
    assert_eq!(service.longest_pause_of(&players, &start), 3000);
    assert_eq!(service.longest_pause_of(&players, &pool), 0);
    assert_eq!(service.longest_pause_of(&players, &award), 8000);
    assert!(service.can_handle_message(&players, &pool, u64::MAX));
    assert!(service.can_handle_message(&players, &start, u64::MAX - 3000));
    assert!(!service.can_handle_message(&players, &start, u64::MAX - 2999));
    assert!(service.can_handle_message(&players, &award, u64::MAX - 8000));
    assert!(!service.can_handle_message(&players, &award, u64::MAX - 7999));
}

#[test]
fn a_pick_needs_the_long_pause_only_where_it_ends_the_draft() {
    let players = three_players();
    let mut service = TeamDraftService::new(&players[0]);
    let start = TeamDraftMessage::StartDraft(StartDraft { starting_drafter_id: "b".to_string() });
    service.handle_message(players.clone(), start, 0);
    assert_eq!(service.longest_pause_of(&players, &pick("b", "x")), 3000);
    service.handle_message(players.clone(), pick("b", "x"), 0);
    service.handle_message(players.clone(), pick("c", "y"), 0);
    service.handle_message(players.clone(), pick("b", "z"), 0);
    assert_eq!(service.longest_pause_of(&players, &pick("c", "w")), 8000);
    assert!(service.can_handle_message(&players, &pick("b", "w"), u64::MAX - 3000));
    assert!(!service.can_handle_message(&players, &pick("c", "w"), u64::MAX - 3000));
    let late = service.handle_message(players.clone(), pick("b", "w"), u64::MAX - 3000);
    assert_eq!(late.len(), 3);
    service.state.round_data.current_drafter_id = "nobody".to_string();
    assert_eq!(service.longest_pause_of(&players, &pick("b", "v")), 0);
    assert!(service.can_handle_message(&players, &pick("b", "v"), u64::MAX));
}
