use crate::error::{ErrorCode, ErrorCodeView, ErrorResponse};
use crate::game::game_manager::{
    already_in_game_error, code_in_use_error, game_id_in_use_error, is_game_code,
    joined_announcement, opened_game, username_error, GameManager,
};
use crate::game::messages::WebSocketMessage;
use crate::game::types::{Game, PlayerView};
use crate::text::{is_blank, uppercased};
use vstd::prelude::*;
use vstd::string::*;

verus! {

/// The status of a request that the caller got wrong.
pub const STATUS_BAD_REQUEST: u16 = 400;

/// The status of a request that the server could not answer.
pub const STATUS_INTERNAL_SERVER_ERROR: u16 = 500;

#[derive(Debug, Clone, PartialEq, Eq)]
pub struct CreateGameRequest {
    pub username: String,
}

#[derive(Debug, Clone, PartialEq, Eq)]
pub struct CreateGameResponse {
    pub game: Game,
    pub auth_token: String,
}

#[derive(Debug, Clone, PartialEq, Eq)]
pub struct JoinGameRequest {
    pub username: String,
    pub game_code: String,
}

#[derive(Debug, Clone, PartialEq, Eq)]
pub struct JoinGameResponse {
    pub game: Game,
    pub auth_token: String,
}

/// The status that a failure is answered with: 500 where the server is at
/// fault, and 400 where the request is.
pub open spec fn status_of(error: ErrorCodeView) -> u16 {
    if error is InternalServerError {
        STATUS_INTERNAL_SERVER_ERROR
    } else {
        STATUS_BAD_REQUEST
    }
}

/// The status that a failure is answered with.
pub fn status_code(error: &ErrorResponse) -> (status: u16)
    ensures
        status == status_of(error@.error),
{
    match error.error {
        ErrorCode::InternalServerError => STATUS_INTERNAL_SERVER_ERROR,
        _ => STATUS_BAD_REQUEST,
    }
}

/// Opens a game for the one who asks, as `GameManager::create_game` has it.
pub fn create_game(game_manager: &mut GameManager, payload: CreateGameRequest) -> (r: Result<
    CreateGameResponse,
    ErrorResponse,
>)
    requires
        old(game_manager).wf(),
    ensures
        final(game_manager).wf(),
        !is_blank(payload.username@) && (forall|game_id: Seq<char>|
            !old(game_manager)@.has_game(game_id)) ==> r is Ok,
        match r {
            Ok(response) => {
                let game = response.game@;
                let host = PlayerView { id: game.host_id, username: payload.username@ };
                &&& !is_blank(payload.username@)
                &&& is_game_code(game.code)
                &&& !old(game_manager)@.has_game(game.id)
                &&& !old(game_manager)@.game_codes.contains_key(game.code)
                &&& !old(game_manager)@.player_to_game.contains_key(game.host_id)
                &&& game == opened_game(game.id, game.code, host, game.created_at)
                &&& final(game_manager)@ == old(game_manager)@.with_new_game(
                    game,
                    response.auth_token@,
                )
            },
            Err(e) => final(game_manager)@ == old(game_manager)@ && exists|
                game_id: Seq<char>,
                host_id: Seq<char>,
                code: Seq<char>,
            |
                is_game_code(code) && #[trigger] old(game_manager)@.create_error(
                    payload.username@,
                    game_id,
                    host_id,
                    code,
                ) == Some(e@),
        },
{
    match game_manager.create_game(payload.username) {
        Ok(entry) => Ok(CreateGameResponse { game: entry.game, auth_token: entry.auth_token }),
        Err(e) => Err(e),
    }
}

/// Lets the one who asks join the game with the given code, as
/// `GameManager::join_game_by_code` has it. Beside the answer stands the
/// announcement for the players of the game.
pub fn join_game(game_manager: &mut GameManager, payload: JoinGameRequest) -> (r: Result<
    (JoinGameResponse, WebSocketMessage),
    ErrorResponse,
>)
    requires
        old(game_manager).wf(),
    ensures
        final(game_manager).wf(),
        match r {
            Ok((response, broadcast)) => {
                let game_id = old(game_manager)@.game_codes[uppercased(payload.game_code@)];
                let player = response.game@.players.last();
                &&& old(game_manager)@.code_error(payload.username@, payload.game_code@) is None
                &&& old(game_manager)@.join_error(payload.username@, game_id, player.id) is None
                &&& player.username == payload.username@
                &&& final(game_manager)@ == old(game_manager)@.with_player(
                    game_id,
                    player,
                    response.auth_token@,
                )
                &&& response.game@ == final(game_manager)@.games[game_id]
                &&& broadcast@ == joined_announcement(game_id, player)
            },
            Err(e) => final(game_manager)@ == old(game_manager)@ && match old(
                game_manager,
            )@.code_error(payload.username@, payload.game_code@) {
                Some(refusal) => e@ == refusal,
                None => exists|player_id: Seq<char>| #[trigger]
                    old(game_manager)@.join_error(
                        payload.username@,
                        old(game_manager)@.game_codes[uppercased(payload.game_code@)],
                        player_id,
                    ) == Some(e@),
            },
        },
{
    match game_manager.join_game_by_code(payload.username, payload.game_code) {
        Ok(joined) => Ok(
            (
                JoinGameResponse { game: joined.entry.game, auth_token: joined.entry.auth_token },
                joined.broadcast,
            ),
        ),
        Err(e) => Err(e),
    }
}

} // verus!
