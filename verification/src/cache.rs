pub mod key_builder;
pub mod key_parts;
pub mod layout;
pub mod meaning;
pub mod store;
pub mod stored;
