use crate::team_draft::messages::{TeamDraftMessage, TeamDraftMessageView, TeamDraftTimerReason};
use crate::team_draft::types::{TeamDraftManager, TeamDraftView};
use vstd::prelude::*;
use vstd::string::*;

verus! {

/// The game modes that a lobby can start.
#[derive(Debug, Clone, Copy, PartialEq, Eq)]
pub enum GameMode {
    TeamDraft,
}

/// The announcement that a game has started, with the state it starts from.
#[derive(Debug, Clone)]
pub struct GameStartedMessage {
    pub game_type: GameMode,
    pub initial_team_draft_state: Option<TeamDraftManager>,
}

pub ghost struct GameStartedView {
    pub game_type: GameMode,
    pub initial_team_draft_state: Option<TeamDraftView>,
}

impl View for GameStartedMessage {
    type V = GameStartedView;

    open spec fn view(&self) -> GameStartedView {
        GameStartedView {
            game_type: self.game_type,
            initial_team_draft_state: match self.initial_team_draft_state {
                Some(state) => Some(state@),
                None => None,
            },
        }
    }
}

/// Whose rules gave the reason for a pause.
#[derive(Debug, Clone, Copy, PartialEq, Eq)]
pub enum TimerReason {
    TeamDraft(TeamDraftTimerReason),
}

/// A pause in the stream of events: nothing that follows it in its chunk is
/// delivered before the wall clock reaches `end_timestamp_ms`.
#[derive(Debug, Clone, Copy, PartialEq, Eq)]
pub struct HaltTimer {
    pub end_timestamp_ms: u64,
    pub reason: TimerReason,
}

#[derive(Debug, Clone, Copy, PartialEq, Eq)]
pub struct BackToLobby {}

/// Everything that travels between a player's socket and the server.
#[derive(Debug, Clone)]
pub enum GameMessage {
    PlayerJoined { username: String, player_id: String },
    PlayerLeft { username: String, player_id: String },
    PlayerDisconnected { username: String, player_id: String },
    GameStarted(GameStartedMessage),
    ChatMessage { username: String, message: String },
    HaltTimer(HaltTimer),
    BackToLobby(BackToLobby),
    TeamDraft(TeamDraftMessage),
}

pub ghost enum GameMessageView {
    PlayerJoined { username: Seq<char>, player_id: Seq<char> },
    PlayerLeft { username: Seq<char>, player_id: Seq<char> },
    PlayerDisconnected { username: Seq<char>, player_id: Seq<char> },
    GameStarted(GameStartedView),
    ChatMessage { username: Seq<char>, message: Seq<char> },
    HaltTimer(HaltTimer),
    BackToLobby,
    TeamDraft(TeamDraftMessageView),
}

impl View for GameMessage {
    type V = GameMessageView;

    open spec fn view(&self) -> GameMessageView {
        match self {
            GameMessage::PlayerJoined { username, player_id } => GameMessageView::PlayerJoined {
                username: username@,
                player_id: player_id@,
            },
            GameMessage::PlayerLeft { username, player_id } => GameMessageView::PlayerLeft {
                username: username@,
                player_id: player_id@,
            },
            GameMessage::PlayerDisconnected {
                username,
                player_id,
            } => GameMessageView::PlayerDisconnected {
                username: username@,
                player_id: player_id@,
            },
            GameMessage::GameStarted(m) => GameMessageView::GameStarted(m@),
            GameMessage::ChatMessage { username, message } => GameMessageView::ChatMessage {
                username: username@,
                message: message@,
            },
            GameMessage::HaltTimer(timer) => GameMessageView::HaltTimer(*timer),
            GameMessage::BackToLobby(_) => GameMessageView::BackToLobby,
            GameMessage::TeamDraft(m) => GameMessageView::TeamDraft(m@),
        }
    }
}

impl DeepView for GameMessage {
    type V = GameMessageView;

    open spec fn deep_view(&self) -> GameMessageView {
        self@
    }
}

impl GameMessage {
    /// Whether every table in the message is well formed.
    pub open spec fn wf(&self) -> bool {
        match self {
            GameMessage::GameStarted(m) => match m.initial_team_draft_state {
                Some(state) => state.wf(),
                None => true,
            },
            GameMessage::TeamDraft(m) => m.wf(),
            _ => true,
        }
    }
}

/// A message in its envelope: the game it belongs to, who sent it and, on the
/// way in, the sender's token.
#[derive(Debug, Clone)]
pub struct WebSocketMessage {
    pub game_id: String,
    pub message: GameMessage,
    pub player_id: String,
    pub auth_token: Option<String>,
}

pub ghost struct WebSocketMessageView {
    pub game_id: Seq<char>,
    pub message: GameMessageView,
    pub player_id: Seq<char>,
    pub auth_token: Option<Seq<char>>,
}

impl View for WebSocketMessage {
    type V = WebSocketMessageView;

    open spec fn view(&self) -> WebSocketMessageView {
        WebSocketMessageView {
            game_id: self.game_id@,
            message: self.message@,
            player_id: self.player_id@,
            auth_token: match self.auth_token {
                Some(token) => Some(token@),
                None => None,
            },
        }
    }
}

/// The envelope as it may be shown to players: the same message without the
/// sender's token.
pub fn client_safe_ws_message(ws_message: WebSocketMessage) -> (safe: WebSocketMessage)
    ensures
        safe@ == (WebSocketMessageView { auth_token: None, ..ws_message@ }),
        safe.message == ws_message.message,
{
    WebSocketMessage {
        game_id: ws_message.game_id,
        message: ws_message.message,
        player_id: ws_message.player_id,
        auth_token: None,
    }
}

} // verus!
