//! The core of a server for party games that are played in real time.
//!
//! Players join a game by its code and talk to the server over sockets. The
//! server alone changes a game: every message goes through the game's
//! serializer, which takes it to the state machine of the game's mode and
//! publishes the events that the machine answers with, so that every socket
//! of the game sees the same events in the same order.
//!
//! The library holds the rules of all this as functions on plain values:
//! the registry of games, the step of the serializer, the state machine of
//! the team draft, the plan by which a node delivers a chunk of events, the
//! shape in which messages travel, and the builder and layout of the keys
//! under which everything is kept. What talks to sockets and to the store
//! is left to the program around it, which the library hands the commands
//! and the events to carry out. The library also says what follows where
//! the store does not take a command, and how a node takes over a game that
//! another node has opened.

pub mod admin;
pub mod cache;
pub mod error;
pub mod game;
pub mod game_controller;
pub mod mind_match;
pub mod team_draft;
pub mod text;
pub mod text_map;
pub mod websocket_controller;
pub mod wire;
