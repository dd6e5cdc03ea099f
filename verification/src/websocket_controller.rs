use crate::game::game_manager::{left_announcement, GameManager, RegistryView, Removal};
use crate::game::messages::{WebSocketMessage, WebSocketMessageView};
use vstd::prelude::*;
use vstd::string::*;

verus! {

/// What has come in on a player's socket: a text frame, with the message
/// that it holds if it could be read as one; the end of the connection; a
/// failure of the connection; or a frame of another kind.
#[derive(Debug, Clone)]
pub enum SocketFrame {
    Text(Option<WebSocketMessage>),
    Close,
    Failed,
    Other,
}

/// Why a frame is passed over.
#[derive(Debug, Clone, Copy, PartialEq, Eq)]
pub enum IgnoreReason {
    /// The frame holds no message.
    Malformed,
    /// The message names another game than the one that the socket is for.
    WrongGame,
    /// The token is not that of the player whose socket it is.
    Unauthorized,
    /// The frame is neither text nor the end of the connection.
    NotText,
}

/// What the session does with a frame: put its message into the queue of the
/// game's serializer, pass it over, or end.
#[derive(Debug, Clone)]
pub enum SocketAction {
    Enqueue(WebSocketMessage),
    Ignore(IgnoreReason),
    Disconnect,
}

/// Why the session of `player_id` at the game `game_id` passes `message`
/// over, if it does.
pub open spec fn ignored(
    r: RegistryView,
    game_id: Seq<char>,
    player_id: Seq<char>,
    message: WebSocketMessageView,
) -> Option<IgnoreReason> {
    if message.game_id != game_id {
        Some(IgnoreReason::WrongGame)
    } else if message.auth_token matches Some(token) && !(r.player_auth.contains_key(player_id)
        && r.player_auth[player_id] == token) {
        Some(IgnoreReason::Unauthorized)
    } else {
        None
    }
}

/// Whether a socket for the game `game_id` is let in: the game must be live.
pub fn open_socket(game_manager: &GameManager, game_id: &str) -> (r: bool)
    requires
        game_manager.wf(),
    ensures
        r == game_manager@.has_game(game_id@),
{
    game_manager.get_game(game_id).is_some()
}

/// What the session of `player_id` at the game `game_id` does with a frame.
///
/// A message goes into the queue if it names the socket's game and, where it
/// carries a token, the token is the player's own. A frame that cannot be
/// read, or that fails one of the two tests, is passed over and the socket
/// stays open. The session ends with the connection.
pub fn handle_frame(
    game_manager: &GameManager,
    game_id: &str,
    player_id: &str,
    frame: SocketFrame,
) -> (action: SocketAction)
    requires
        game_manager.wf(),
    ensures
        match frame {
            SocketFrame::Text(Some(message)) => match ignored(
                game_manager@,
                game_id@,
                player_id@,
                message@,
            ) {
                Some(reason) => action == SocketAction::Ignore(reason),
                None => action == SocketAction::Enqueue(message),
            },
            SocketFrame::Text(None) => action == SocketAction::Ignore(IgnoreReason::Malformed),
            SocketFrame::Close => action is Disconnect,
            SocketFrame::Failed => action is Disconnect,
            SocketFrame::Other => action == SocketAction::Ignore(IgnoreReason::NotText),
        },
{
    match frame {
        SocketFrame::Text(Some(message)) => {
            let wanted = String::from_str(game_id);
            if message.game_id != wanted {
                return SocketAction::Ignore(IgnoreReason::WrongGame);
            }
            let cleared = match &message.auth_token {
                Some(token) => game_manager.is_authorized(player_id, token.as_str()),
                None => true,
            };
            if cleared {
                SocketAction::Enqueue(message)
            } else {
                SocketAction::Ignore(IgnoreReason::Unauthorized)
            }
        },
        SocketFrame::Text(None) => SocketAction::Ignore(IgnoreReason::Malformed),
        SocketFrame::Close => SocketAction::Disconnect,
        SocketFrame::Failed => SocketAction::Disconnect,
        SocketFrame::Other => SocketAction::Ignore(IgnoreReason::NotText),
    }
}

/// What the end of a session does: the player leaves their game, as
/// `remove_player_from_game` has it.
pub fn close_socket(game_manager: &mut GameManager, player_id: &str) -> (r: Removal)
    requires
        old(game_manager).wf(),
    ensures
        final(game_manager).wf(),
        final(game_manager)@ == old(game_manager)@.without_player(player_id@),
        if old(game_manager)@.player_to_game.contains_key(player_id@) {
            let game_id = old(game_manager)@.player_to_game[player_id@];
            &&& r.broadcast is Some
            &&& r.broadcast->Some_0@ == left_announcement(
                game_id,
                old(game_manager)@.player(game_id, player_id@),
            )
            &&& if old(game_manager)@.is_last_player(player_id@) {
                &&& r.closed_game is Some
                &&& r.closed_game->Some_0.game_id@ == game_id
                &&& r.closed_game->Some_0.code@ == old(game_manager)@.games[game_id].code
            } else {
                r.closed_game is None
            }
        } else {
            r.broadcast is None && r.closed_game is None
        },
{
    game_manager.remove_player_from_game(player_id)
}

} // verus!
