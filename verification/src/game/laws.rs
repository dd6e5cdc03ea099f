use crate::game::game_manager::{
    already_in_game_error, game_full_error, game_not_found_error, has_name, joined_announcement,
    lemma_join_keeps_wf, lemma_open_keeps_wf, opened_game, username_error, RegistryView,
};
use crate::game::messages::GameMessageView;
use crate::game::types::PlayerView;
use crate::team_draft::state::{initial_state, DEFAULT_MAX_ROUNDS};
use crate::text::{is_blank, uppercased};
use vstd::prelude::*;

verus! {

/// A game that could be opened is live with its host as its only player,
/// takes eight players, and is found under its code; the host is in it and
/// holds their token; its team draft is a fresh lobby of three rounds with
/// the host as the yapper. Every other game is as it was.
pub proof fn lemma_opened_game_is_live(
    r: RegistryView,
    username: Seq<char>,
    game_id: Seq<char>,
    host_id: Seq<char>,
    code: Seq<char>,
    created_at: int,
    token: Seq<char>,
)
    requires
        r.wf(),
        r.create_error(username, game_id, host_id, code) is None,
    ensures
        ({
            let host = PlayerView { id: host_id, username };
            let next = r.with_new_game(opened_game(game_id, code, host, created_at), token);
            &&& next.wf()
            &&& next.has_game(game_id)
            &&& next.games[game_id].players == seq![host]
            &&& next.games[game_id].host_id == host_id
            &&& next.games[game_id].code == code
            &&& next.games[game_id].max_players == 8
            &&& next.games[game_id].created_at == created_at
            &&& next.game_codes.contains_key(code) && next.game_codes[code] == game_id
            &&& next.plays_in(host_id, game_id)
            &&& next.player_to_game[host_id] == game_id
            &&& next.player_auth[host_id] == token
            &&& next.drafts[game_id] == initial_state(host_id, 0, DEFAULT_MAX_ROUNDS as nat)
            &&& forall|other: Seq<char>| #[trigger]
                r.has_game(other) ==> next.has_game(other) && next.games[other] == r.games[other]
                    && next.drafts[other] == r.drafts[other]
        }),
{
    let host = PlayerView { id: host_id, username };
    let next = r.with_new_game(opened_game(game_id, code, host, created_at), token);
    lemma_open_keeps_wf(r, game_id, code, host, created_at, token);
    assert(next.games[game_id].players[0].id == host_id);
    assert forall|other: Seq<char>| #[trigger] r.has_game(other) implies next.has_game(other)
        && next.games[other] == r.games[other] && next.drafts[other] == r.drafts[other] by {
        assert(r.drafts.dom() == r.games.dom());
        assert(r.drafts.contains_key(other));
    }
}

/// Whoever could join a game by its code, in whatever case they wrote it,
/// is the last player of the game with that code in upper case. Those who
/// were in the game are in it as before and in their order, and the game
/// takes as many players as before. The others are told the name and the id
/// of the one who has joined, and no token.
pub proof fn lemma_joined_player_is_last(
    r: RegistryView,
    username: Seq<char>,
    given_code: Seq<char>,
    player_id: Seq<char>,
    token: Seq<char>,
)
    requires
        r.wf(),
        r.code_error(username, given_code) is None,
        r.join_error(username, r.game_codes[uppercased(given_code)], player_id) is None,
    ensures
        ({
            let game_id = r.game_codes[uppercased(given_code)];
            let player = PlayerView { id: player_id, username };
            let next = r.with_player(game_id, player, token);
            let word = joined_announcement(game_id, player);
            &&& r.games[game_id].code == uppercased(given_code)
            &&& next.wf()
            &&& next.games[game_id].players == r.games[game_id].players.push(player)
            &&& next.games[game_id].players.len() <= next.games[game_id].max_players
            &&& next.games[game_id].max_players == r.games[game_id].max_players
            &&& next.games[game_id].code == r.games[game_id].code
            &&& next.games[game_id].host_id == r.games[game_id].host_id
            &&& next.plays_in(player_id, game_id)
            &&& next.player_auth[player_id] == token
            &&& next.drafts == r.drafts
            &&& word.message == (GameMessageView::PlayerJoined { username, player_id })
            &&& word.game_id == game_id
            &&& word.auth_token is None
        }),
{
    let game_id = r.game_codes[uppercased(given_code)];
    let player = PlayerView { id: player_id, username };
    let next = r.with_player(game_id, player, token);
    assert(r.game_codes.contains_key(uppercased(given_code)));
    assert(r.has_game(game_id));
    lemma_join_keeps_wf(r, game_id, player, token);
    let seat = r.games[game_id].players.len() as int;
    assert(next.games[game_id].players[seat].id == player_id);
}

/// A code that no live game has, read in upper case, finds no game: whoever
/// asks by it under a name that is not blank is told that the game is not
/// found.
pub proof fn lemma_unknown_code_is_refused(
    r: RegistryView,
    username: Seq<char>,
    given_code: Seq<char>,
)
    requires
        !is_blank(username),
        !r.game_codes.contains_key(uppercased(given_code)),
    ensures
        r.code_error(username, given_code) == Some(game_not_found_error()),
{
}

/// A game that is full takes nobody: whoever asks under a name that is not
/// blank, and is in no game yet, is told that the game is full. By the
/// game's code the same holds of a name that nobody in the game has.
pub proof fn lemma_full_game_is_refused(
    r: RegistryView,
    username: Seq<char>,
    game_id: Seq<char>,
    player_id: Seq<char>,
)
    requires
        r.wf(),
        r.has_game(game_id),
        r.games[game_id].players.len() == r.games[game_id].max_players,
        !is_blank(username),
        !r.player_to_game.contains_key(player_id),
    ensures
        r.join_error(username, game_id, player_id) == Some(game_full_error()),
        forall|given_code: Seq<char>|
            uppercased(given_code) == r.games[game_id].code && !has_name(
                r.games[game_id].players,
                username,
            ) ==> #[trigger] r.code_error(username, given_code) is None
                && r.game_codes[uppercased(given_code)] == game_id,
{
    assert(r.games.contains_key(game_id));
}

/// Nobody is in a game twice: whoever is in a game is refused as a player
/// already in a game, whichever game they ask for and whether they ask to
/// join it or to open it. So is whoever has just joined or opened one.
pub proof fn lemma_second_entry_is_refused(
    r: RegistryView,
    username: Seq<char>,
    game_id: Seq<char>,
    player_id: Seq<char>,
    code: Seq<char>,
)
    requires
        !is_blank(username),
    ensures
        r.player_to_game.contains_key(player_id) ==> r.join_error(username, game_id, player_id)
            == Some(already_in_game_error()) && r.create_error(username, game_id, player_id, code)
            == Some(already_in_game_error()),
        forall|joined: Seq<char>, name: Seq<char>, token: Seq<char>|
            (#[trigger] r.with_player(
                joined,
                PlayerView { id: player_id, username: name },
                token,
            )).join_error(username, game_id, player_id) == Some(already_in_game_error()),
        forall|opened: Seq<char>, name: Seq<char>, at: int, token: Seq<char>|
            (#[trigger] r.with_new_game(
                opened_game(opened, code, PlayerView { id: player_id, username: name }, at),
                token,
            )).join_error(username, game_id, player_id) == Some(already_in_game_error()),
{
}

/// A name of nothing but white space is refused before anything else is
/// looked at, whether a game is to be opened or to be joined, by its id or
/// by its code.
pub proof fn lemma_blank_name_is_refused(
    r: RegistryView,
    username: Seq<char>,
    game_id: Seq<char>,
    player_id: Seq<char>,
    code: Seq<char>,
)
    requires
        is_blank(username),
    ensures
        r.create_error(username, game_id, player_id, code) == Some(username_error()),
        r.join_error(username, game_id, player_id) == Some(username_error()),
        r.code_error(username, code) == Some(username_error()),
{
}

} // verus!
