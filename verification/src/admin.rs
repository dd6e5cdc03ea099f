use crate::game::game_manager::GameManager;
use crate::game::types::Game;
use crate::text::text_eq;
use vstd::prelude::*;
use vstd::string::*;

verus! {

/// The status of a request that went well.
pub const STATUS_OK: u16 = 200;

/// The status of a request without the right password.
pub const STATUS_UNAUTHORIZED: u16 = 401;

/// The status of a request for a game that is not there.
pub const STATUS_NOT_FOUND: u16 = 404;

/// The status of a request that the server could not answer.
pub const STATUS_INTERNAL_SERVER_ERROR: u16 = 500;

/// The list of the live games.
#[derive(Debug, Clone, PartialEq, Eq)]
pub struct GamesListResponse {
    pub count: usize,
    pub game_ids: Vec<String>,
}

/// One game in full.
#[derive(Debug, Clone, PartialEq, Eq)]
pub struct GameDetailsResponse {
    pub game: Game,
}

/// The question for one game.
#[derive(Debug, Clone, PartialEq, Eq)]
pub struct GameIdQuery {
    pub id: String,
}

/// The status with which a request to the admin routes is met before it is
/// looked at: the server must know its admin password, and the request must
/// show it.
pub open spec fn admin_status(configured: Option<Seq<char>>, shown: Option<Seq<char>>) -> u16 {
    match configured {
        None => STATUS_INTERNAL_SERVER_ERROR,
        Some(password) => if shown == Some(password) {
            STATUS_OK
        } else {
            STATUS_UNAUTHORIZED
        },
    }
}

/// The view of a text that may not be there.
pub open spec fn shown_text(t: Option<&str>) -> Option<Seq<char>> {
    match t {
        Some(s) => Some(s@),
        None => None,
    }
}

/// Checks the password of a request to the admin routes. `configured` is the
/// admin password that the server was started with, `shown` the one in the
/// request's header. The request goes on only with the status 200.
pub fn admin_auth_middleware(configured: Option<&str>, shown: Option<&str>) -> (status: u16)
    ensures
        status == admin_status(shown_text(configured), shown_text(shown)),
{
    let password = match configured {
        Some(password) => password,
        None => {
            return STATUS_INTERNAL_SERVER_ERROR;
        },
    };
    match shown {
        Some(given) => {
            if text_eq(given, password) {
                STATUS_OK
            } else {
                STATUS_UNAUTHORIZED
            }
        },
        None => STATUS_UNAUTHORIZED,
    }
}

/// The ids of the live games, each once, and how many they are.
pub fn list_games(game_manager: &GameManager) -> (r: GamesListResponse)
    requires
        game_manager.wf(),
    ensures
        r.count == r.game_ids@.len(),
        r.count == game_manager@.games.dom().len(),
        forall|i: int|
            0 <= i < r.game_ids@.len() ==> game_manager@.has_game((#[trigger] r.game_ids@[i])@),
        forall|i: int, j: int|
            0 <= i < j < r.game_ids@.len() ==> (#[trigger] r.game_ids@[i])@
                != (#[trigger] r.game_ids@[j])@,
{
    let games = game_manager.get_all_games();
    let mut game_ids: Vec<String> = Vec::new();
    let mut i: usize = 0;
    while i < games.len()
        invariant
            i <= games@.len(),
            game_ids@.len() == i,
            forall|k: int| 0 <= k < i ==> (#[trigger] game_ids@[k])@ == games@[k]@.id,
        decreases games@.len() - i,
    {
        game_ids.push(games[i].id.clone());
        i += 1;
    }
    GamesListResponse { count: games.len(), game_ids }
}

/// The game `id` in full, or the status 404 where it is not live.
pub fn get_game(game_manager: &GameManager, query: &GameIdQuery) -> (r: Result<
    GameDetailsResponse,
    u16,
>)
    requires
        game_manager.wf(),
    ensures
        match r {
            Ok(details) => game_manager@.has_game(query.id@) && details.game@
                == game_manager@.games[query.id@],
            Err(status) => !game_manager@.has_game(query.id@) && status == STATUS_NOT_FOUND,
        },
{
    match game_manager.get_game(query.id.as_str()) {
        Some(game) => Ok(GameDetailsResponse { game }),
        None => Err(STATUS_NOT_FOUND),
    }
}

} // verus!
