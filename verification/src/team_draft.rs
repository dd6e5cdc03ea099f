pub mod answers;
pub mod laws;
pub mod messages;
pub mod state;
pub mod types;
