use crate::admin::{GameDetailsResponse, GamesListResponse};
use crate::error::{ErrorCode, ErrorCodeView, ErrorResponse};
use crate::game::types::{Game, GameView, Player, PlayerView};
use crate::game_controller::{
    CreateGameRequest, CreateGameResponse, JoinGameRequest, JoinGameResponse,
};
use crate::wire::json::{
    fields_view, get_text, items_view, lemma_views, list_value, object_value, put, text_field,
    text_value, Json, JsonView,
};
use vstd::prelude::*;
use vstd::string::*;

verus! {

// ---------------------------------------------------------------------------
// What is asked
// ---------------------------------------------------------------------------
/// The name under which someone asks to open a game, if the value is such a
/// request.
pub open spec fn decoded_create_request(j: JsonView) -> Option<Seq<char>> {
    match j {
        JsonView::Object(fields) => text_field(fields, "username"@),
        _ => None,
    }
}

/// The name and the code with which someone asks to join a game, if the
/// value is such a request.
pub open spec fn decoded_join_request(j: JsonView) -> Option<(Seq<char>, Seq<char>)> {
    match j {
        JsonView::Object(fields) => match (
            text_field(fields, "username"@),
            text_field(fields, "game_code"@),
        ) {
            (Some(username), Some(game_code)) => Some((username, game_code)),
            _ => None,
        },
        _ => None,
    }
}

/// The request to open a game that a value stands for, if it stands for
/// one.
pub fn decode_create_request(j: &Json) -> (r: Option<CreateGameRequest>)
    ensures
        match r {
            Some(request) => decoded_create_request(j@) == Some(request.username@),
            None => decoded_create_request(j@) is None,
        },
{
    proof {
        lemma_views(j);
    }
    match j {
        Json::Object(fields) => match get_text(fields, "username") {
            Some(username) => Some(CreateGameRequest { username: username.clone() }),
            None => None,
        },
        _ => None,
    }
}

/// The request to join a game that a value stands for, if it stands for
/// one.
pub fn decode_join_request(j: &Json) -> (r: Option<JoinGameRequest>)
    ensures
        match r {
            Some(request) => decoded_join_request(j@) == Some(
                (request.username@, request.game_code@),
            ),
            None => decoded_join_request(j@) is None,
        },
{
    proof {
        lemma_views(j);
    }
    match j {
        Json::Object(fields) => match (get_text(fields, "username"), get_text(fields, "game_code")) {
            (Some(username), Some(game_code)) => Some(
                JoinGameRequest { username: username.clone(), game_code: game_code.clone() },
            ),
            _ => None,
        },
        _ => None,
    }
}

// ---------------------------------------------------------------------------
// What is answered
// ---------------------------------------------------------------------------
/// A player as a value.
pub open spec fn encoded_player(player: PlayerView) -> JsonView {
    JsonView::Object(
        seq![("id"@, JsonView::Text(player.id)), ("username"@, JsonView::Text(player.username))],
    )
}

/// A game as a value: its fields, and its players in their order.
pub open spec fn encoded_game(game: GameView) -> JsonView {
    JsonView::Object(
        seq![
            ("id"@, JsonView::Text(game.id)),
            ("code"@, JsonView::Text(game.code)),
            ("host_id"@, JsonView::Text(game.host_id)),
            (
                "players"@,
                JsonView::List(
                    Seq::new(game.players.len(), |i: int| encoded_player(game.players[i])),
                ),
            ),
            ("max_players"@, JsonView::Number(game.max_players as i128)),
            ("created_at"@, JsonView::Number(game.created_at as i128)),
        ],
    )
}

/// A game with the token of the one who has opened or joined it, as a value.
pub open spec fn encoded_entry(game: GameView, auth_token: Seq<char>) -> JsonView {
    JsonView::Object(seq![("game"@, encoded_game(game)), ("auth_token"@, JsonView::Text(auth_token))])
}

/// The kind of a failure as a value: its name, and for an input that was
/// refused the reason under the name.
pub open spec fn encoded_error_code(code: ErrorCodeView) -> JsonView {
    match code {
        ErrorCodeView::GameNotFound => JsonView::Text("GameNotFound"@),
        ErrorCodeView::GameFull => JsonView::Text("GameFull"@),
        ErrorCodeView::PlayerNotFound => JsonView::Text("PlayerNotFound"@),
        ErrorCodeView::PlayerAlreadyExists => JsonView::Text("PlayerAlreadyExists"@),
        ErrorCodeView::InvalidGameCode => JsonView::Text("InvalidGameCode"@),
        ErrorCodeView::PlayerAlreadyInGame => JsonView::Text("PlayerAlreadyInGame"@),
        ErrorCodeView::UsernameTaken => JsonView::Text("UsernameTaken"@),
        ErrorCodeView::InvalidInput(reason) => JsonView::Object(
            seq![("InvalidInput"@, JsonView::Text(reason))],
        ),
        ErrorCodeView::InvalidGameMode => JsonView::Text("InvalidGameMode"@),
        ErrorCodeView::InternalServerError => JsonView::Text("InternalServerError"@),
    }
}

/// A failure as a value.
pub open spec fn encoded_error(code: ErrorCodeView, message: Seq<char>) -> JsonView {
    JsonView::Object(
        seq![("error"@, encoded_error_code(code)), ("message"@, JsonView::Text(message))],
    )
}

/// A player as a value.
pub fn encode_player(player: &Player) -> (j: Json)
    ensures
        j@ == encoded_player(player@),
{
    let mut fields: Vec<(String, Json)> = Vec::new();
    put(&mut fields, "id", text_value(player.id.as_str()));
    put(&mut fields, "username", text_value(player.username.as_str()));
    assert(fields_view(fields@) =~= encoded_player(player@)->Object_0);
    object_value(fields)
}

/// A game as a value.
pub fn encode_game(game: &Game) -> (j: Json)
    ensures
        j@ == encoded_game(game@),
{
    let ghost view = game@;
    let mut players: Vec<Json> = Vec::new();
    let mut i: usize = 0;
    while i < game.players.len()
        invariant
            i <= game.players@.len(),
            view == game@,
            players@.len() == i,
            forall|k: int| 0 <= k < i ==> (#[trigger] players@[k])@ == encoded_player(view.players[k]),
        decreases game.players@.len() - i,
    {
        assert(view.players[i as int] == game.players@[i as int]@);
        players.push(encode_player(&game.players[i]));
        i += 1;
    }
    assert(items_view(players@) =~= Seq::new(
        view.players.len(),
        |i: int| encoded_player(view.players[i]),
    ));
    let mut fields: Vec<(String, Json)> = Vec::new();
    put(&mut fields, "id", text_value(game.id.as_str()));
    put(&mut fields, "code", text_value(game.code.as_str()));
    put(&mut fields, "host_id", text_value(game.host_id.as_str()));
    put(&mut fields, "players", list_value(players));
    put(&mut fields, "max_players", Json::Number(game.max_players as i128));
    put(&mut fields, "created_at", Json::Number(game.created_at as i128));
    assert(fields_view(fields@) =~= encoded_game(view)->Object_0);
    object_value(fields)
}

fn encode_entry(game: &Game, auth_token: &str) -> (j: Json)
    ensures
        j@ == encoded_entry(game@, auth_token@),
{
    let mut fields: Vec<(String, Json)> = Vec::new();
    put(&mut fields, "game", encode_game(game));
    put(&mut fields, "auth_token", text_value(auth_token));
    assert(fields_view(fields@) =~= encoded_entry(game@, auth_token@)->Object_0);
    object_value(fields)
}

/// The answer to someone who has opened a game, as a value.
pub fn encode_create_response(response: &CreateGameResponse) -> (j: Json)
    ensures
        j@ == encoded_entry(response.game@, response.auth_token@),
{
    encode_entry(&response.game, response.auth_token.as_str())
}

/// The answer to someone who has joined a game, as a value.
pub fn encode_join_response(response: &JoinGameResponse) -> (j: Json)
    ensures
        j@ == encoded_entry(response.game@, response.auth_token@),
{
    encode_entry(&response.game, response.auth_token.as_str())
}

/// A failure as a value.
pub fn encode_error(error: &ErrorResponse) -> (j: Json)
    ensures
        j@ == encoded_error(error@.error, error@.message),
{
    let code = match &error.error {
        ErrorCode::GameNotFound => text_value("GameNotFound"),
        ErrorCode::GameFull => text_value("GameFull"),
        ErrorCode::PlayerNotFound => text_value("PlayerNotFound"),
        ErrorCode::PlayerAlreadyExists => text_value("PlayerAlreadyExists"),
        ErrorCode::InvalidGameCode => text_value("InvalidGameCode"),
        ErrorCode::PlayerAlreadyInGame => text_value("PlayerAlreadyInGame"),
        ErrorCode::UsernameTaken => text_value("UsernameTaken"),
        ErrorCode::InvalidInput(reason) => {
            let mut inner: Vec<(String, Json)> = Vec::new();
            put(&mut inner, "InvalidInput", text_value(reason.as_str()));
            assert(fields_view(inner@) =~= seq![("InvalidInput"@, JsonView::Text(reason@))]);
            object_value(inner)
        },
        ErrorCode::InvalidGameMode => text_value("InvalidGameMode"),
        ErrorCode::InternalServerError => text_value("InternalServerError"),
    };
    let mut fields: Vec<(String, Json)> = Vec::new();
    put(&mut fields, "error", code);
    put(&mut fields, "message", text_value(error.message.as_str()));
    assert(fields_view(fields@) =~= encoded_error(error@.error, error@.message)->Object_0);
    object_value(fields)
}

/// The list of the live games as a value: how many they are, and their ids.
pub open spec fn encoded_games_list(list: &GamesListResponse) -> JsonView {
    JsonView::Object(
        seq![
            ("count"@, JsonView::Number(list.count as i128)),
            (
                "game_ids"@,
                JsonView::List(
                    Seq::new(list.game_ids@.len(), |i: int| JsonView::Text(list.game_ids@[i]@)),
                ),
            ),
        ],
    )
}

/// The list of the live games as a value.
pub fn encode_games_list(list: &GamesListResponse) -> (j: Json)
    ensures
        j@ == encoded_games_list(list),
{
    let mut ids: Vec<Json> = Vec::new();
    let mut i: usize = 0;
    while i < list.game_ids.len()
        invariant
            i <= list.game_ids@.len(),
            ids@.len() == i,
            forall|k: int| 0 <= k < i ==> (#[trigger] ids@[k])@ == JsonView::Text(list.game_ids@[k]@),
        decreases list.game_ids@.len() - i,
    {
        ids.push(text_value(list.game_ids[i].as_str()));
        i += 1;
    }
    assert(items_view(ids@) =~= Seq::new(
        list.game_ids@.len(),
        |i: int| JsonView::Text(list.game_ids@[i]@),
    ));
    let mut fields: Vec<(String, Json)> = Vec::new();
    put(&mut fields, "count", Json::Number(list.count as i128));
    put(&mut fields, "game_ids", list_value(ids));
    assert(fields_view(fields@) =~= encoded_games_list(list)->Object_0);
    object_value(fields)
}

/// One game in full as a value.
pub fn encode_game_details(details: &GameDetailsResponse) -> (j: Json)
    ensures
        j@ == JsonView::Object(seq![("game"@, encoded_game(details.game@))]),
{
    let mut fields: Vec<(String, Json)> = Vec::new();
    put(&mut fields, "game", encode_game(&details.game));
    assert(fields_view(fields@) =~= seq![("game"@, encoded_game(details.game@))]);
    object_value(fields)
}

} // verus!
