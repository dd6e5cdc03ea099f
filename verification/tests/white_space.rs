use wukong::error::ErrorCode;
use wukong::game::action_timer_manager::ActionTimerManager;
use wukong::game::game_manager::{code_from_draws, GameManager};
use wukong::text::{blank, white_space};

#[test]
fn white_space_is_what_the_language_takes_for_it() {
    let mut count: u32 = 0;
    let mut n: u32 = 0;
    while n <= 0x10ffff {
        if let Some(c) = char::from_u32(n) {
            assert_eq!(white_space(c), c.is_whitespace(), "code point {:#x}", n);
            if white_space(c) {
                count += 1;
            }
        }
        n += 1;
    }
    assert_eq!(count, 25);
}

#[test]
fn blank_texts_hold_white_space_only() {
    assert!(blank("   "));
    assert!(blank("\u{3000}\u{a0}\u{2003}\r\n"));
    assert!(!blank("\u{200b}"));
    assert!(!blank("  x"));
    assert!(!blank("x  "));
    assert!(!blank(" \u{180e} "));
}

#[test]
fn a_name_of_three_spaces_is_refused() {
    let mut manager = GameManager::new();
    let refused = manager
        .create_game_with(
            "   ".to_string(),
            "g1".to_string(),
            "a".to_string(),
            "token-a".to_string(),
            "ABCDEF".to_string(),
            1_700_000_000,
        )
        .unwrap_err();
    assert_eq!(refused.error, ErrorCode::InvalidInput("Username cannot be empty".to_string()));
    assert!(manager.get_game("g1").is_none());
    let refused = manager.create_game("   ".to_string()).unwrap_err();
    assert_eq!(refused.error, ErrorCode::InvalidInput("Username cannot be empty".to_string()));
    assert_eq!(manager.get_all_games().len(), 0);
}

#[test]
fn draws_pin_the_code() {
    assert_eq!(code_from_draws(&vec![0, 1, 2, 3, 4, 5]), Some("ABCDEF".to_string()));
    assert_eq!(code_from_draws(&vec![33, 24, 25, 14, 13, 0]), Some("9Z1PNA".to_string()));
    assert_eq!(code_from_draws(&vec![0, 0, 0, 0, 0, 0]), Some("AAAAAA".to_string()));
    assert_eq!(code_from_draws(&vec![0, 1, 2, 3, 4]), None);
    assert_eq!(code_from_draws(&vec![0, 1, 2, 3, 4, 5, 6]), None);
    assert_eq!(code_from_draws(&vec![0, 1, 2, 3, 4, 34]), None);
    assert_eq!(code_from_draws(&vec![]), None);
}

#[test]
fn a_copied_manager_starts_without_keys() {
    let mut keys = ActionTimerManager::new();
    keys.register_action_key("k1".to_string(), "g1");
    assert!(keys.validate_action_key("k1"));
    let copy = keys.clone();
    assert!(!copy.validate_action_key("k1"));
    assert!(keys.validate_action_key("k1"));
    let fresh = ActionTimerManager::default();
    assert!(!fresh.validate_action_key("k1"));
}
