pub mod draft;
pub mod http;
pub mod json;
pub mod messages;
pub mod state;
