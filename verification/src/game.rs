pub mod action_timer_manager;
pub mod game_manager;
pub mod laws;
pub mod messages;
pub mod queue;
pub mod types;
