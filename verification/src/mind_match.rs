pub mod messages;
pub mod state;
pub mod types;
