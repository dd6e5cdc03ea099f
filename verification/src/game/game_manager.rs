use crate::error::{ErrorCode, ErrorCodeView, ErrorResponse, ErrorResponseView};
use crate::game::messages::{
    GameMessage, GameMessageView, GameMode, GameStartedMessage, GameStartedView, WebSocketMessage,
    WebSocketMessageView,
};
use crate::game::types::{duplicate_players, Game, GameView, Player, PlayerView};
use crate::team_draft::messages::TeamDraftMessage;
use crate::team_draft::state::{
    all_ids, can_handle, events, find_seat, ids_before, initial_state, is_first_position,
    is_player, lemma_ids_before_all, lemma_ids_before_step, lemma_position_of, next_state,
    position_of, required_sender, TeamDraftService, DEFAULT_MAX_ROUNDS,
};
use crate::team_draft::types::{TeamDraftState, TeamDraftView};
use crate::text::{blank, is_blank, to_upper, uppercased};
use crate::text_map::TextMap;
use rand::Rng;
use vstd::prelude::*;
use vstd::string::*;

verus! {

/// How many players a game takes.
pub const MAX_PLAYERS: u8 = 8;

/// What a player gets back who has opened or joined a game: the game as it
/// stands, and the token that must come with every message of theirs that
/// changes it.
#[derive(Debug, Clone)]
pub struct GameEntry {
    pub game: Game,
    pub auth_token: String,
}

/// What the registry keeps of one game: the game and its team draft.
#[derive(Debug, Clone)]
pub struct GameSlot {
    pub game: Game,
    pub team_draft: TeamDraftService,
}

/// The registry of live games.
///
/// Besides the games it keeps three indexes: from a game's code to its id,
/// from a player's id to the id of the game they are in, and from a player's
/// id to their token.
#[derive(Debug, Clone)]
pub struct GameManager {
    games: TextMap<GameSlot>,
    game_codes: TextMap<String>,
    player_to_game: TextMap<String>,
    player_auth: TextMap<String>,
}

/// A table of texts with every text taken as a sequence of characters.
pub open spec fn text_values(m: Map<Seq<char>, String>) -> Map<Seq<char>, Seq<char>> {
    m.map_values(|t: String| t@)
}

/// The registry as the contracts see it.
pub ghost struct RegistryView {
    pub games: Map<Seq<char>, GameView>,
    pub drafts: Map<Seq<char>, TeamDraftView>,
    pub game_codes: Map<Seq<char>, Seq<char>>,
    pub player_to_game: Map<Seq<char>, Seq<char>>,
    pub player_auth: Map<Seq<char>, Seq<char>>,
}

/// Whether no two of `players` have the same id.
pub open spec fn distinct_ids(players: Seq<PlayerView>) -> bool {
    forall|i: int, j: int|
        0 <= i < j < players.len() ==> (#[trigger] players[i]).id != (#[trigger] players[j]).id
}

impl RegistryView {
    /// Whether `game_id` is the id of a live game.
    pub open spec fn has_game(self, game_id: Seq<char>) -> bool {
        self.games.contains_key(game_id)
    }

    /// Whether `player_id` is in the game `game_id`.
    pub open spec fn plays_in(self, player_id: Seq<char>, game_id: Seq<char>) -> bool {
        self.has_game(game_id) && is_player(self.games[game_id].players, player_id)
    }

    /// What holds of the registry in every state that it can reach.
    pub open spec fn wf(self) -> bool {
        &&& self.drafts.dom() == self.games.dom()
        &&& forall|game_id: Seq<char>| #[trigger]
            self.games.contains_key(game_id) ==> {
                let game = self.games[game_id];
                &&& game.id == game_id
                &&& 1 <= game.players.len() <= game.max_players <= u8::MAX
                &&& distinct_ids(game.players)
                &&& self.game_codes.contains_key(game.code)
                &&& self.game_codes[game.code] == game_id
            }
        &&& forall|code: Seq<char>| #[trigger]
            self.game_codes.contains_key(code) ==> self.games.contains_key(self.game_codes[code])
                && self.games[self.game_codes[code]].code == code
        &&& forall|player_id: Seq<char>| #[trigger]
            self.player_to_game.contains_key(player_id) ==> self.plays_in(
                player_id,
                self.player_to_game[player_id],
            )
        &&& forall|player_id: Seq<char>| #[trigger]
            self.player_auth.contains_key(player_id) <==> self.player_to_game.contains_key(
                player_id,
            )
        &&& forall|game_id: Seq<char>, i: int|
            self.games.contains_key(game_id) && 0 <= i < self.games[game_id].players.len() ==> {
                let player_id = (#[trigger] self.games[game_id].players[i]).id;
                self.player_to_game.contains_key(player_id) && self.player_to_game[player_id]
                    == game_id
            }
    }
}

// ---------------------------------------------------------------------------
// What holds of every registry
// ---------------------------------------------------------------------------
/// A player is in a game exactly if the index from players to games sends
/// them there, and a player has a token exactly if they are in a game.
pub proof fn lemma_membership(r: RegistryView, player_id: Seq<char>, game_id: Seq<char>)
    requires
        r.wf(),
    ensures
        r.plays_in(player_id, game_id) <==> (r.player_to_game.contains_key(player_id)
            && r.player_to_game[player_id] == game_id),
        r.player_auth.contains_key(player_id) <==> r.player_to_game.contains_key(player_id),
        r.player_auth.contains_key(player_id) <==> exists|g: Seq<char>| r.plays_in(player_id, g),
{
    if r.plays_in(player_id, game_id) {
        let i = choose|i: int|
            0 <= i < r.games[game_id].players.len() && r.games[game_id].players[i].id == player_id;
        assert(r.games[game_id].players[i].id == player_id);
    }
    if r.player_to_game.contains_key(player_id) {
        assert(r.plays_in(player_id, r.player_to_game[player_id]));
    }
    if exists|g: Seq<char>| r.plays_in(player_id, g) {
        let g = choose|g: Seq<char>| r.plays_in(player_id, g);
        let i = choose|i: int|
            0 <= i < r.games[g].players.len() && r.games[g].players[i].id == player_id;
        assert(r.games[g].players[i].id == player_id);
    }
}

/// No game has more players than it takes.
pub proof fn lemma_capacity(r: RegistryView, game_id: Seq<char>)
    requires
        r.wf(),
        r.has_game(game_id),
    ensures
        r.games[game_id].players.len() <= r.games[game_id].max_players,
        r.games[game_id].players.len() >= 1,
{
}

/// There is one game per code and one game per player: two games that share
/// their code or a player are the same game.
pub proof fn lemma_one_game(r: RegistryView, a: Seq<char>, b: Seq<char>, player_id: Seq<char>)
    requires
        r.wf(),
        r.has_game(a),
        r.has_game(b),
    ensures
        r.games[a].code == r.games[b].code ==> a == b,
        r.plays_in(player_id, a) && r.plays_in(player_id, b) ==> a == b,
{
    lemma_membership(r, player_id, a);
    lemma_membership(r, player_id, b);
}

// ---------------------------------------------------------------------------
// What opening, joining and leaving do to the registry
// ---------------------------------------------------------------------------
/// The refusal of a name that holds nothing but white space.
pub open spec fn username_error() -> ErrorResponseView {
    ErrorResponseView {
        error: ErrorCodeView::InvalidInput("Username cannot be empty"@),
        message: "Username cannot be empty"@,
    }
}

/// The refusal of a player who is in a game already.
pub open spec fn already_in_game_error() -> ErrorResponseView {
    ErrorResponseView {
        error: ErrorCodeView::PlayerAlreadyInGame,
        message: "Player already in a game"@,
    }
}

/// The refusal of a name that another player of the game has.
pub open spec fn username_taken_error() -> ErrorResponseView {
    ErrorResponseView { error: ErrorCodeView::PlayerAlreadyInGame, message: "Username taken."@ }
}

/// The answer to a game that is not there.
pub open spec fn game_not_found_error() -> ErrorResponseView {
    ErrorResponseView { error: ErrorCodeView::GameNotFound, message: "Game not found"@ }
}

/// The refusal of one player more than a game takes.
pub open spec fn game_full_error() -> ErrorResponseView {
    ErrorResponseView { error: ErrorCodeView::GameFull, message: "Game is full"@ }
}

/// The refusal of an id that a live game has.
pub open spec fn game_id_in_use_error() -> ErrorResponseView {
    ErrorResponseView { error: ErrorCodeView::InternalServerError, message: "Game id is in use"@ }
}

/// The refusal of a code that a live game has.
pub open spec fn code_in_use_error() -> ErrorResponseView {
    ErrorResponseView { error: ErrorCodeView::InvalidGameCode, message: "Game code is in use"@ }
}

/// The game that `host` has just opened.
pub open spec fn opened_game(game_id: Seq<char>, code: Seq<char>, host: PlayerView, created_at: int)
    -> GameView {
    GameView {
        id: game_id,
        code,
        host_id: host.id,
        players: seq![host],
        max_players: MAX_PLAYERS as nat,
        created_at,
    }
}

/// The game with one player more at the end of its list.
pub open spec fn game_with(game: GameView, player: PlayerView) -> GameView {
    GameView { players: game.players.push(player), ..game }
}

/// The game without the player at `seat`; the others keep their order.
pub open spec fn game_without(game: GameView, seat: int) -> GameView {
    GameView { players: game.players.remove(seat), ..game }
}

/// Whether one of `players` has the name `username`.
pub open spec fn has_name(players: Seq<PlayerView>, username: Seq<char>) -> bool {
    exists|i: int| 0 <= i < players.len() && (#[trigger] players[i]).username == username
}

impl RegistryView {
    /// The registry without any game.
    pub open spec fn empty() -> RegistryView {
        RegistryView {
            games: Map::empty(),
            drafts: Map::empty(),
            game_codes: Map::empty(),
            player_to_game: Map::empty(),
            player_auth: Map::empty(),
        }
    }

    /// Why `host_id` cannot open the game `game_id` with the code `code`
    /// under the name `username`, if they cannot.
    pub open spec fn create_error(
        self,
        username: Seq<char>,
        game_id: Seq<char>,
        host_id: Seq<char>,
        code: Seq<char>,
    ) -> Option<ErrorResponseView> {
        if is_blank(username) {
            Some(username_error())
        } else if self.player_to_game.contains_key(host_id) {
            Some(already_in_game_error())
        } else if self.has_game(game_id) {
            Some(game_id_in_use_error())
        } else if self.game_codes.contains_key(code) {
            Some(code_in_use_error())
        } else {
            None
        }
    }

    /// The registry with the game `game`, which its host has just opened and
    /// holds `token` for.
    pub open spec fn with_new_game(self, game: GameView, token: Seq<char>) -> RegistryView {
        RegistryView {
            games: self.games.insert(game.id, game),
            drafts: self.drafts.insert(
                game.id,
                initial_state(game.host_id, 0, DEFAULT_MAX_ROUNDS as nat),
            ),
            game_codes: self.game_codes.insert(game.code, game.id),
            player_to_game: self.player_to_game.insert(game.host_id, game.id),
            player_auth: self.player_auth.insert(game.host_id, token),
        }
    }

    /// Why `player_id` cannot join the game `game_id` under the name
    /// `username`, if they cannot.
    pub open spec fn join_error(self, username: Seq<char>, game_id: Seq<char>, player_id: Seq<char>)
        -> Option<ErrorResponseView> {
        if is_blank(username) {
            Some(username_error())
        } else if self.player_to_game.contains_key(player_id) {
            Some(already_in_game_error())
        } else if !self.has_game(game_id) {
            Some(game_not_found_error())
        } else if self.games[game_id].players.len() >= self.games[game_id].max_players {
            Some(game_full_error())
        } else {
            None
        }
    }

    /// The registry with `player` as the last player of the game `game_id`,
    /// holding `token`.
    pub open spec fn with_player(self, game_id: Seq<char>, player: PlayerView, token: Seq<char>)
        -> RegistryView {
        RegistryView {
            games: self.games.insert(game_id, game_with(self.games[game_id], player)),
            player_to_game: self.player_to_game.insert(player.id, game_id),
            player_auth: self.player_auth.insert(player.id, token),
            ..self
        }
    }

    /// Why nobody can join the game with the code `code` under the name
    /// `username`, if nobody can. The code is read in upper case.
    pub open spec fn code_error(self, username: Seq<char>, code: Seq<char>) -> Option<
        ErrorResponseView,
    > {
        if is_blank(username) {
            Some(username_error())
        } else if !self.game_codes.contains_key(uppercased(code)) {
            Some(game_not_found_error())
        } else if has_name(self.games[self.game_codes[uppercased(code)]].players, username) {
            Some(username_taken_error())
        } else {
            None
        }
    }

    /// The seat of `player_id` in the game that they are in.
    pub open spec fn seat_of(self, player_id: Seq<char>) -> int {
        position_of(self.games[self.player_to_game[player_id]].players, player_id).unwrap()
    }

    /// Whether `player_id` is the only player of the game that they are in.
    pub open spec fn is_last_player(self, player_id: Seq<char>) -> bool {
        self.player_to_game.contains_key(player_id)
            && self.games[self.player_to_game[player_id]].players.len() == 1
    }

    /// The registry after `player_id` has left: without them in their game
    /// and in the indexes, and without the game if nobody is left in it.
    /// Nothing changes where they are in no game.
    pub open spec fn without_player(self, player_id: Seq<char>) -> RegistryView {
        if !self.player_to_game.contains_key(player_id) {
            self
        } else {
            let game_id = self.player_to_game[player_id];
            let game = self.games[game_id];
            if self.is_last_player(player_id) {
                RegistryView {
                    games: self.games.remove(game_id),
                    drafts: self.drafts.remove(game_id),
                    game_codes: self.game_codes.remove(game.code),
                    player_to_game: self.player_to_game.remove(player_id),
                    player_auth: self.player_auth.remove(player_id),
                }
            } else {
                RegistryView {
                    games: self.games.insert(game_id, game_without(game, self.seat_of(player_id))),
                    player_to_game: self.player_to_game.remove(player_id),
                    player_auth: self.player_auth.remove(player_id),
                    ..self
                }
            }
        }
    }
}

/// The registry without any game is well formed.
pub proof fn lemma_empty_wf()
    ensures
        RegistryView::empty().wf(),
{
    assert(RegistryView::empty().drafts.dom() =~= RegistryView::empty().games.dom());
}

/// Opening a game under a fresh id and a free code, by someone who is in no
/// game, keeps the registry well formed.
pub proof fn lemma_open_keeps_wf(
    r: RegistryView,
    game_id: Seq<char>,
    code: Seq<char>,
    host: PlayerView,
    created_at: int,
    token: Seq<char>,
)
    requires
        r.wf(),
        !r.has_game(game_id),
        !r.game_codes.contains_key(code),
        !r.player_to_game.contains_key(host.id),
    ensures
        r.with_new_game(opened_game(game_id, code, host, created_at), token).wf(),
{
    let game = opened_game(game_id, code, host, created_at);
    let next = r.with_new_game(game, token);
    assert(next.drafts.dom() =~= next.games.dom());
    assert(game.players[0].id == host.id);
    assert forall|g: Seq<char>, i: int|
        next.games.contains_key(g) && 0 <= i < next.games[g].players.len() implies {
        let player_id = (#[trigger] next.games[g].players[i]).id;
        next.player_to_game.contains_key(player_id) && next.player_to_game[player_id] == g
    } by {
        if g != game_id {
            assert(r.games.contains_key(g));
            assert(r.games[g].players[i].id != host.id);
        }
    }
    assert forall|p: Seq<char>| #[trigger] next.player_to_game.contains_key(p) implies next.plays_in(
        p,
        next.player_to_game[p],
    ) by {
        if p != host.id {
            assert(r.player_to_game.contains_key(p));
            let g = r.player_to_game[p];
            assert(r.plays_in(p, g));
            let i = choose|i: int| 0 <= i < r.games[g].players.len() && r.games[g].players[i].id == p;
            assert(next.games[g].players[i].id == p);
        }
    }
    assert forall|c: Seq<char>| #[trigger] next.game_codes.contains_key(c) implies next.games.contains_key(
        next.game_codes[c],
    ) && next.games[next.game_codes[c]].code == c by {
        if c != code {
            assert(r.game_codes.contains_key(c));
        }
    }
    assert forall|g: Seq<char>| #[trigger] next.games.contains_key(g) implies {
        let ga = next.games[g];
        &&& ga.id == g
        &&& 1 <= ga.players.len() <= ga.max_players
        &&& distinct_ids(ga.players)
        &&& next.game_codes.contains_key(ga.code)
        &&& next.game_codes[ga.code] == g
    } by {
        if g != game_id {
            assert(r.games.contains_key(g));
            assert(r.game_codes.contains_key(r.games[g].code));
        }
    }
    assert forall|p: Seq<char>| #[trigger]
        next.player_auth.contains_key(p) <==> next.player_to_game.contains_key(p) by {
        assert(r.player_auth.contains_key(p) <==> r.player_to_game.contains_key(p));
    }
}

/// Joining a game that has a seat left, by someone who is in no game, keeps
/// the registry well formed.
pub proof fn lemma_join_keeps_wf(
    r: RegistryView,
    game_id: Seq<char>,
    player: PlayerView,
    token: Seq<char>,
)
    requires
        r.wf(),
        r.has_game(game_id),
        r.games[game_id].players.len() < r.games[game_id].max_players,
        !r.player_to_game.contains_key(player.id),
    ensures
        r.with_player(game_id, player, token).wf(),
{
    let next = r.with_player(game_id, player, token);
    let before = r.games[game_id];
    let after = next.games[game_id];
    assert(next.drafts.dom() =~= next.games.dom());
    assert forall|i: int| 0 <= i < before.players.len() implies (#[trigger] before.players[i]).id
        != player.id by {}
    assert(distinct_ids(after.players)) by {
        assert forall|i: int, j: int| 0 <= i < j < after.players.len() implies (
        #[trigger] after.players[i]).id != (#[trigger] after.players[j]).id by {
            if j < before.players.len() {
                assert(before.players[i].id != before.players[j].id);
            } else {
                assert(before.players[i].id != player.id);
            }
        }
    }
    assert forall|g: Seq<char>, i: int|
        next.games.contains_key(g) && 0 <= i < next.games[g].players.len() implies {
        let player_id = (#[trigger] next.games[g].players[i]).id;
        next.player_to_game.contains_key(player_id) && next.player_to_game[player_id] == g
    } by {
        if g != game_id {
            assert(r.games[g].players[i].id != player.id);
        } else if i < before.players.len() {
            assert(before.players[i].id != player.id);
        }
    }
    assert forall|p: Seq<char>| #[trigger] next.player_to_game.contains_key(p) implies next.plays_in(
        p,
        next.player_to_game[p],
    ) by {
        if p != player.id {
            let g = r.player_to_game[p];
            assert(r.plays_in(p, g));
            let i = choose|i: int| 0 <= i < r.games[g].players.len() && r.games[g].players[i].id == p;
            assert(next.games[g].players[i].id == p);
        } else {
            assert(after.players[before.players.len() as int].id == p);
        }
    }
    assert forall|c: Seq<char>| #[trigger] next.game_codes.contains_key(c) implies next.games.contains_key(
        next.game_codes[c],
    ) && next.games[next.game_codes[c]].code == c by {
        assert(r.game_codes.contains_key(c));
    }
    assert forall|g: Seq<char>| #[trigger] next.games.contains_key(g) implies {
        let ga = next.games[g];
        &&& ga.id == g
        &&& 1 <= ga.players.len() <= ga.max_players
        &&& distinct_ids(ga.players)
        &&& next.game_codes.contains_key(ga.code)
        &&& next.game_codes[ga.code] == g
    } by {
        assert(r.games.contains_key(g));
    }
    assert forall|p: Seq<char>| #[trigger]
        next.player_auth.contains_key(p) <==> next.player_to_game.contains_key(p) by {
        assert(r.player_auth.contains_key(p) <==> r.player_to_game.contains_key(p));
    }
}

/// A player's leaving keeps the registry well formed.
pub proof fn lemma_leave_keeps_wf(r: RegistryView, player_id: Seq<char>)
    requires
        r.wf(),
    ensures
        r.without_player(player_id).wf(),
{
    let next = r.without_player(player_id);
    if r.player_to_game.contains_key(player_id) {
        let game_id = r.player_to_game[player_id];
        let before = r.games[game_id];
        assert(r.plays_in(player_id, game_id));
        let seat = r.seat_of(player_id);
        lemma_position_of(before.players, player_id);
        assert(is_first_position(before.players, player_id, seat));
        assert(next.drafts.dom() =~= next.games.dom());
        assert forall|p: Seq<char>| #[trigger]
            next.player_auth.contains_key(p) <==> next.player_to_game.contains_key(p) by {
            assert(r.player_auth.contains_key(p) <==> r.player_to_game.contains_key(p));
        }
        assert forall|c: Seq<char>| #[trigger] next.game_codes.contains_key(c) implies next.games.contains_key(
            next.game_codes[c],
        ) && next.games[next.game_codes[c]].code == c by {
            assert(r.game_codes.contains_key(c));
            assert(r.game_codes.contains_key(before.code));
        }
        if r.is_last_player(player_id) {
            assert(seat == 0);
            assert forall|g: Seq<char>| #[trigger] next.games.contains_key(g) implies {
                let ga = next.games[g];
                &&& ga.id == g
                &&& 1 <= ga.players.len() <= ga.max_players
                &&& distinct_ids(ga.players)
                &&& next.game_codes.contains_key(ga.code)
                &&& next.game_codes[ga.code] == g
            } by {
                assert(r.games.contains_key(g));
                assert(r.game_codes.contains_key(r.games[g].code));
            }
            assert forall|g: Seq<char>, i: int|
                next.games.contains_key(g) && 0 <= i < next.games[g].players.len() implies {
                let q = (#[trigger] next.games[g].players[i]).id;
                next.player_to_game.contains_key(q) && next.player_to_game[q] == g
            } by {
                assert(r.games.contains_key(g));
                let q = r.games[g].players[i].id;
                assert(r.player_to_game[q] == g);
            }
            assert forall|p: Seq<char>| #[trigger]
                next.player_to_game.contains_key(p) implies next.plays_in(
                p,
                next.player_to_game[p],
            ) by {
                let g = r.player_to_game[p];
                assert(r.plays_in(p, g));
                if g == game_id {
                    let i = choose|i: int|
                        0 <= i < before.players.len() && before.players[i].id == p;
                    assert(before.players[i].id == p);
                    assert(before.players[0].id == player_id);
                }
                let i = choose|i: int|
                    0 <= i < r.games[g].players.len() && r.games[g].players[i].id == p;
                assert(next.games[g].players[i].id == p);
            }
        } else {
            let after = next.games[game_id];
            assert forall|i: int| 0 <= i < after.players.len() implies #[trigger] after.players[i]
                == before.players[if i < seat {
                i
            } else {
                i + 1
            }] by {}
            assert(distinct_ids(after.players)) by {
                assert forall|i: int, j: int| 0 <= i < j < after.players.len() implies (
                #[trigger] after.players[i]).id != (#[trigger] after.players[j]).id by {
                    let a = if i < seat {
                        i
                    } else {
                        i + 1
                    };
                    let b = if j < seat {
                        j
                    } else {
                        j + 1
                    };
                    assert(before.players[a].id != before.players[b].id);
                }
            }
            assert forall|g: Seq<char>| #[trigger] next.games.contains_key(g) implies {
                let ga = next.games[g];
                &&& ga.id == g
                &&& 1 <= ga.players.len() <= ga.max_players
                &&& distinct_ids(ga.players)
                &&& next.game_codes.contains_key(ga.code)
                &&& next.game_codes[ga.code] == g
            } by {
                assert(r.games.contains_key(g));
            }
            assert forall|g: Seq<char>, i: int|
                next.games.contains_key(g) && 0 <= i < next.games[g].players.len() implies {
                let q = (#[trigger] next.games[g].players[i]).id;
                next.player_to_game.contains_key(q) && next.player_to_game[q] == g
            } by {
                if g == game_id {
                    let a = if i < seat {
                        i
                    } else {
                        i + 1
                    };
                    assert(after.players[i] == before.players[a]);
                    let q = before.players[a].id;
                    assert(r.player_to_game[q] == g);
                    if a < seat {
                        assert(before.players[a].id != before.players[seat].id);
                    } else {
                        assert(before.players[seat].id != before.players[a].id);
                    }
                } else {
                    let q = r.games[g].players[i].id;
                    assert(r.player_to_game[q] == g);
                }
            }
            assert forall|p: Seq<char>| #[trigger]
                next.player_to_game.contains_key(p) implies next.plays_in(
                p,
                next.player_to_game[p],
            ) by {
                let g = r.player_to_game[p];
                assert(r.plays_in(p, g));
                let i = choose|i: int|
                    0 <= i < r.games[g].players.len() && r.games[g].players[i].id == p;
                if g == game_id {
                    let a = if i < seat {
                        i
                    } else {
                        i - 1
                    };
                    assert(after.players[a] == before.players[i]);
                    assert(after.players[a].id == p);
                } else {
                    assert(next.games[g].players[i].id == p);
                }
            }
        }
    }
}

// ---------------------------------------------------------------------------
// What comes from outside: ids, codes and the time
// ---------------------------------------------------------------------------
/// `Uuid::new_v4` and `Uuid::to_string` of the crate uuid: a fresh random
/// id as text. Nothing is claimed of the text.
#[verifier::external_body]
pub(crate) fn new_uuid() -> (id: String) {
    uuid::Uuid::new_v4().to_string()
}

/// `Rng::random_range` of the crate rand, on the generator of the thread:
/// a number below `n`, which the crate draws from the range from zero up to
/// but without `n`. The crate panics on an empty range, so `n` is not zero.
#[verifier::external_body]
fn random_index(n: usize) -> (i: usize)
    requires
        n > 0,
    ensures
        i < n,
{
    rand::rng().random_range(0..n)
}

/// `Utc::now` and `DateTime::timestamp` of the crate chrono: the seconds
/// since the start of 1970. Nothing is claimed of the number. (The crate
/// panics where the machine's clock stands before 1970.)
#[verifier::external_body]
fn unix_timestamp() -> (seconds: i64) {
    chrono::Utc::now().timestamp()
}

/// The characters that a game's code is made of: the capital letters
/// without O, and the digits without 0.
pub open spec fn code_alphabet() -> Seq<char> {
    "ABCDEFGHIJKLMNPQRSTUVWXYZ123456789"@
}

/// How many characters a game's code has.
pub const CODE_LENGTH: usize = 6;

/// Whether `code` has the shape of a game's code.
pub open spec fn is_game_code(code: Seq<char>) -> bool {
    code.len() == CODE_LENGTH && forall|i: int|
        0 <= i < code.len() ==> code_alphabet().contains(#[trigger] code[i])
}

/// The alphabet of the codes has 34 characters, and neither the letter O nor
/// the digit 0 is among them.
pub proof fn lemma_code_alphabet()
    ensures
        code_alphabet().len() == 34,
        !code_alphabet().contains('O'),
        !code_alphabet().contains('0'),
{
    reveal_strlit("ABCDEFGHIJKLMNPQRSTUVWXYZ123456789");
    let a = code_alphabet();
    assert(a.len() == 34);
    assert forall|i: int| 0 <= i < a.len() implies a[i] != 'O' && a[i] != '0' by {
        assert(a =~= seq![
            'A',
            'B',
            'C',
            'D',
            'E',
            'F',
            'G',
            'H',
            'I',
            'J',
            'K',
            'L',
            'M',
            'N',
            'P',
            'Q',
            'R',
            'S',
            'T',
            'U',
            'V',
            'W',
            'X',
            'Y',
            'Z',
            '1',
            '2',
            '3',
            '4',
            '5',
            '6',
            '7',
            '8',
            '9',
        ]);
    }
}

/// There is a text of the shape of a game's code.
pub proof fn lemma_code_exists()
    ensures
        exists|code: Seq<char>| is_game_code(code),
{
    lemma_code_alphabet();
    let code = Seq::new(CODE_LENGTH as nat, |i: int| code_alphabet()[0]);
    assert(is_game_code(code));
}

/// In a registry without games nothing that is drawn is in use: whoever
/// asks under a name that is not blank is refused nothing.
pub proof fn lemma_nothing_refused_without_games(
    r: RegistryView,
    username: Seq<char>,
    game_id: Seq<char>,
    host_id: Seq<char>,
    code: Seq<char>,
)
    requires
        r.wf(),
    ensures
        !is_blank(username) && (forall|g: Seq<char>| !r.has_game(g)) ==> r.create_error(
            username,
            game_id,
            host_id,
            code,
        ) is None,
{
    if r.player_to_game.contains_key(host_id) {
        assert(r.plays_in(host_id, r.player_to_game[host_id]));
        assert(r.has_game(r.player_to_game[host_id]));
    }
    if r.game_codes.contains_key(code) {
        assert(r.has_game(r.game_codes[code]));
    }
    assert(!r.has_game(game_id) || !(forall|g: Seq<char>| !r.has_game(g)));
}

/// Whether `draws` are the numbers drawn for a code: one for each of its
/// places, each the place of a character in the alphabet.
pub open spec fn are_draws(draws: Seq<usize>) -> bool {
    draws.len() == CODE_LENGTH && forall|i: int|
        0 <= i < draws.len() ==> (#[trigger] draws[i]) < code_alphabet().len()
}

/// The code that `draws` give: at each place stands the character that the
/// alphabet holds at the number drawn for that place.
pub open spec fn code_of(draws: Seq<usize>) -> Seq<char> {
    Seq::new(draws.len(), |i: int| code_alphabet()[draws[i] as int])
}

/// What is made of draws has the shape of a game's code.
pub proof fn lemma_code_of(draws: Seq<usize>)
    requires
        are_draws(draws),
    ensures
        is_game_code(code_of(draws)),
{
    let code = code_of(draws);
    assert forall|i: int| 0 <= i < code.len() implies code_alphabet().contains(
        #[trigger] code[i],
    ) by {
        assert(draws[i] < code_alphabet().len());
        assert(code[i] == code_alphabet()[draws[i] as int]);
    }
}

/// The code that `draws` give; none where they are not six numbers below
/// the length of the alphabet.
pub fn code_from_draws(draws: &Vec<usize>) -> (r: Option<String>)
    ensures
        r is Some <==> are_draws(draws@),
        r matches Some(code) ==> code@ == code_of(draws@) && is_game_code(code@),
{
    let alphabet = "ABCDEFGHIJKLMNPQRSTUVWXYZ123456789";
    proof {
        lemma_code_alphabet();
    }
    if draws.len() != CODE_LENGTH {
        return None;
    }
    let mut code = String::new();
    let mut i: usize = 0;
    while i < CODE_LENGTH
        invariant
            i <= CODE_LENGTH,
            draws@.len() == CODE_LENGTH,
            alphabet@ == code_alphabet(),
            alphabet@.len() == 34,
            code@.len() == i,
            forall|j: int| 0 <= j < i ==> (#[trigger] draws@[j]) < 34,
            forall|j: int| 0 <= j < i ==> #[trigger] code@[j] == code_alphabet()[draws@[j] as int],
        decreases CODE_LENGTH - i,
    {
        let at = draws[i];
        if at >= 34 {
            return None;
        }
        let drawn = alphabet.substring_char(at, at + 1);
        let ghost before = code@;
        code.append(drawn);
        proof {
            assert(drawn@ =~= seq![alphabet@[at as int]]);
            assert(code@[i as int] == alphabet@[at as int]);
            assert forall|j: int| 0 <= j < i + 1 implies #[trigger] code@[j] == code_alphabet()[draws@[j] as int] by {
                if j < i {
                    assert(code@[j] == before[j]);
                }
            }
        }
        i += 1;
    }
    proof {
        assert(code@ =~= code_of(draws@));
        lemma_code_of(draws@);
    }
    Some(code)
}

/// Draws a code: six characters of the alphabet, each drawn by itself.
pub fn generate_game_code() -> (code: String)
    ensures
        is_game_code(code@),
{
    proof {
        lemma_code_alphabet();
    }
    let mut draws: Vec<usize> = Vec::new();
    while draws.len() < CODE_LENGTH
        invariant
            draws@.len() <= CODE_LENGTH,
            code_alphabet().len() == 34,
            forall|j: int| 0 <= j < draws@.len() ==> (#[trigger] draws@[j]) < code_alphabet().len(),
        decreases CODE_LENGTH - draws@.len(),
    {
        let at = random_index(34);
        draws.push(at);
    }
    match code_from_draws(&draws) {
        Some(code) => code,
        None => String::new(),
    }
}

// ---------------------------------------------------------------------------
// The registry
// ---------------------------------------------------------------------------
/// What joining a game gives: what the new player gets back, their id, and
/// the announcement for the players of the game.
#[derive(Debug, Clone)]
pub struct Joined {
    pub entry: GameEntry,
    pub player_id: String,
    pub broadcast: WebSocketMessage,
}

/// A game that has come to its end because its last player has left.
#[derive(Debug, Clone, PartialEq, Eq)]
pub struct ClosedGame {
    pub game_id: String,
    pub code: String,
}

/// What a player's leaving gives: the announcement for the players of the
/// game, and the game if it has come to its end.
#[derive(Debug, Clone)]
pub struct Removal {
    pub broadcast: Option<WebSocketMessage>,
    pub closed_game: Option<ClosedGame>,
}

/// The announcement that `player` has joined the game `game_id`.
pub open spec fn joined_announcement(game_id: Seq<char>, player: PlayerView) -> WebSocketMessageView {
    WebSocketMessageView {
        game_id,
        message: GameMessageView::PlayerJoined { username: player.username, player_id: player.id },
        player_id: player.id,
        auth_token: None,
    }
}

/// The announcement that `player` has left the game `game_id` because their
/// connection has ended.
pub open spec fn left_announcement(game_id: Seq<char>, player: PlayerView) -> WebSocketMessageView {
    WebSocketMessageView {
        game_id,
        message: GameMessageView::PlayerDisconnected {
            username: player.username,
            player_id: player.id,
        },
        player_id: player.id,
        auth_token: None,
    }
}

fn username_refusal() -> (e: ErrorResponse)
    ensures
        e@ == username_error(),
{
    ErrorResponse {
        error: ErrorCode::InvalidInput(String::from_str("Username cannot be empty")),
        message: String::from_str("Username cannot be empty"),
    }
}

fn already_in_game_refusal() -> (e: ErrorResponse)
    ensures
        e@ == already_in_game_error(),
{
    ErrorResponse::new(ErrorCode::PlayerAlreadyInGame, "Player already in a game")
}

fn game_not_found_refusal() -> (e: ErrorResponse)
    ensures
        e@ == game_not_found_error(),
{
    ErrorResponse::new(ErrorCode::GameNotFound, "Game not found")
}

impl View for GameManager {
    type V = RegistryView;

    closed spec fn view(&self) -> RegistryView {
        RegistryView {
            games: self.games@.map_values(|slot: GameSlot| slot.game@),
            drafts: self.games@.map_values(|slot: GameSlot| slot.team_draft.state@),
            game_codes: text_values(self.game_codes@),
            player_to_game: text_values(self.player_to_game@),
            player_auth: text_values(self.player_auth@),
        }
    }
}

impl GameManager {
    /// Whether the registry is in a state that its operations can lead to.
    /// `new` gives such a registry and every operation keeps it so.
    pub closed spec fn wf(&self) -> bool {
        &&& self.games.wf()
        &&& self.game_codes.wf()
        &&& self.player_to_game.wf()
        &&& self.player_auth.wf()
        &&& forall|game_id: Seq<char>| #[trigger]
            self.games@.contains_key(game_id) ==> self.games@[game_id].team_draft.state.wf()
        &&& self@.wf()
    }

    /// What holds of the contents of a well formed registry.
    pub proof fn lemma_wf(&self)
        requires
            self.wf(),
        ensures
            self@.wf(),
    {
    }

    /// A registry without any game.
    pub fn new() -> (manager: GameManager)
        ensures
            manager.wf(),
            manager@ == RegistryView::empty(),
    {
        let manager = GameManager {
            games: TextMap::new(),
            game_codes: TextMap::new(),
            player_to_game: TextMap::new(),
            player_auth: TextMap::new(),
        };
        proof {
            assert(manager@.games =~= Map::empty());
            assert(manager@.drafts =~= Map::empty());
            assert(manager@.game_codes =~= Map::empty());
            assert(manager@.player_to_game =~= Map::empty());
            assert(manager@.player_auth =~= Map::empty());
            lemma_empty_wf();
        }
        manager
    }

    /// Whether `auth_token` is the token of `player_id`.
    pub fn is_authorized(&self, player_id: &str, auth_token: &str) -> (r: bool)
        requires
            self.wf(),
        ensures
            r == (self@.player_auth.contains_key(player_id@) && self@.player_auth[player_id@]
                == auth_token@),
    {
        match self.player_auth.get(player_id) {
            Some(stored) => {
                let given = String::from_str(auth_token);
                *stored == given
            },
            None => false,
        }
    }

    /// Whether a live game has the code `code`.
    pub fn code_in_use(&self, code: &str) -> (r: bool)
        requires
            self.wf(),
        ensures
            r == self@.game_codes.contains_key(code@),
    {
        self.game_codes.contains_key(code)
    }

    /// The game `game_id` as it stands, if it is live.
    pub fn get_game(&self, game_id: &str) -> (r: Option<Game>)
        requires
            self.wf(),
        ensures
            match r {
                Some(game) => self@.has_game(game_id@) && game@ == self@.games[game_id@],
                None => !self@.has_game(game_id@),
            },
    {
        match self.games.get(game_id) {
            Some(slot) => Some(slot.game.duplicate()),
            None => None,
        }
    }

    /// Every live game as it stands, each once.
    pub fn get_all_games(&self) -> (list: Vec<Game>)
        requires
            self.wf(),
        ensures
            list@.len() == self@.games.dom().len(),
            forall|i: int|
                0 <= i < list@.len() ==> self@.has_game((#[trigger] list@[i])@.id) && list@[i]@
                    == self@.games[list@[i]@.id],
            forall|i: int, j: int|
                0 <= i < j < list@.len() ==> (#[trigger] list@[i])@.id != (#[trigger] list@[j])@.id,
            forall|game_id: Seq<char>|
                self@.has_game(game_id) ==> exists|i: int|
                    0 <= i < list@.len() && (#[trigger] list@[i])@.id == game_id,
    {
        let n = self.games.len();
        let ghost keys = self.games.keys();
        let mut list: Vec<Game> = Vec::new();
        let mut i: usize = 0;
        assert(self@.games.dom() =~= self.games@.dom());
        while i < n
            invariant
                i <= n,
                n == keys.len(),
                keys == self.games.keys(),
                keys.no_duplicates(),
                forall|k: Seq<char>| self.games@.contains_key(k) <==> keys.contains(k),
                self.wf(),
                list@.len() == i,
                forall|k: int|
                    0 <= k < i ==> (#[trigger] list@[k])@.id == keys[k] && self@.has_game(keys[k])
                        && list@[k]@ == self@.games[keys[k]],
            decreases n - i,
        {
            let slot = self.games.value_at_index(i);
            proof {
                assert(self.games@.contains_key(keys[i as int])) by {
                    assert(keys.contains(keys[i as int]));
                }
                assert(self@.games.contains_key(keys[i as int]));
            }
            list.push(slot.game.duplicate());
            i += 1;
        }
        proof {
            assert forall|game_id: Seq<char>| self@.has_game(game_id) implies exists|i: int|
                0 <= i < list@.len() && (#[trigger] list@[i])@.id == game_id by {
                assert(self.games@.contains_key(game_id));
                assert(keys.contains(game_id));
                let k = choose|k: int| 0 <= k < keys.len() && keys[k] == game_id;
                assert(list@[k]@.id == game_id);
            }
        }
        list
    }

    /// Opens a game for `host_id` under the given id and code.
    ///
    /// Refused are, in this order: a name of nothing but white space, a host
    /// who is in a game already, an id that a live game has, and a code that
    /// a live game has. Otherwise the game is there with the host as its
    /// only player, its team draft in the state of a fresh lobby, and the
    /// three indexes know of it.
    pub fn create_game_with(
        &mut self,
        host_username: String,
        game_id: String,
        host_id: String,
        auth_token: String,
        code: String,
        created_at: i32,
    ) -> (r: Result<GameEntry, ErrorResponse>)
        requires
            old(self).wf(),
        ensures
            final(self).wf(),
            match old(self)@.create_error(host_username@, game_id@, host_id@, code@) {
                Some(e) => r is Err && r->Err_0@ == e && final(self)@ == old(self)@,
                None => {
                    let host = PlayerView { id: host_id@, username: host_username@ };
                    let game = opened_game(game_id@, code@, host, created_at as int);
                    &&& r is Ok
                    &&& r->Ok_0.game@ == game
                    &&& r->Ok_0.auth_token@ == auth_token@
                    &&& final(self)@ == old(self)@.with_new_game(game, auth_token@)
                },
            },
    {
        if blank(host_username.as_str()) {
            return Err(username_refusal());
        }
        if self.player_to_game.contains_key(host_id.as_str()) {
            return Err(already_in_game_refusal());
        }
        if self.games.contains_key(game_id.as_str()) {
            return Err(ErrorResponse::new(ErrorCode::InternalServerError, "Game id is in use"));
        }
        if self.game_codes.contains_key(code.as_str()) {
            return Err(ErrorResponse::new(ErrorCode::InvalidGameCode, "Game code is in use"));
        }
        let ghost before = self@;
        let ghost host_view = PlayerView { id: host_id@, username: host_username@ };
        let ghost game_view = opened_game(game_id@, code@, host_view, created_at as int);
        let host = Player { id: host_id.clone(), username: host_username };
        let mut players: Vec<Player> = Vec::new();
        players.push(host.duplicate());
        assert(players.deep_view() =~= seq![host_view]);
        let game = Game {
            id: game_id.clone(),
            code: code.clone(),
            host_id: host_id.clone(),
            players,
            max_players: MAX_PLAYERS,
            created_at,
        };
        let entry_game = game.duplicate();
        let slot = GameSlot { game, team_draft: TeamDraftService::new(&host) };
        self.games.insert(game_id.clone(), slot);
        self.game_codes.insert(code, game_id.clone());
        self.player_to_game.insert(host_id.clone(), game_id);
        self.player_auth.insert(host_id, auth_token.clone());
        proof {
            let next = before.with_new_game(game_view, auth_token@);
            assert(self@.games =~= next.games);
            assert(self@.drafts =~= next.drafts);
            assert(self@.game_codes =~= next.game_codes);
            assert(self@.player_to_game =~= next.player_to_game);
            assert(self@.player_auth =~= next.player_auth);
            lemma_open_keeps_wf(
                before,
                game_id@,
                code@,
                host_view,
                created_at as int,
                auth_token@,
            );
        }
        Ok(GameEntry { game: entry_game, auth_token })
    }

    /// Lets `player_id` join the game `game_id`.
    ///
    /// Refused are, in this order: a name of nothing but white space, a
    /// player who is in a game already, a game that is not there, and a game
    /// that is full. Otherwise the player is the last in the game's list, the
    /// indexes know of them, and the announcement is ready for the players.
    pub fn join_game_with(
        &mut self,
        player_username: String,
        game_id: &str,
        player_id: String,
        auth_token: String,
    ) -> (r: Result<Joined, ErrorResponse>)
        requires
            old(self).wf(),
        ensures
            final(self).wf(),
            match old(self)@.join_error(player_username@, game_id@, player_id@) {
                Some(e) => r is Err && r->Err_0@ == e && final(self)@ == old(self)@,
                None => {
                    let player = PlayerView { id: player_id@, username: player_username@ };
                    &&& r is Ok
                    &&& final(self)@ == old(self)@.with_player(game_id@, player, auth_token@)
                    &&& r->Ok_0.entry.game@ == final(self)@.games[game_id@]
                    &&& r->Ok_0.entry.auth_token@ == auth_token@
                    &&& r->Ok_0.player_id@ == player_id@
                    &&& r->Ok_0.broadcast@ == joined_announcement(game_id@, player)
                },
            },
    {
        if blank(player_username.as_str()) {
            return Err(username_refusal());
        }
        if self.player_to_game.contains_key(player_id.as_str()) {
            return Err(already_in_game_refusal());
        }
        let ghost before = self@;
        let ghost raw = self.games@;
        let ghost player_view = PlayerView { id: player_id@, username: player_username@ };
        let mut slot = match self.games.remove(game_id) {
            Some(slot) => slot,
            None => {
                assert(self.games@ =~= raw);
                return Err(game_not_found_refusal());
            },
        };
        assert(before.games[game_id@] == slot.game@);
        assert(raw.contains_key(game_id@));
        if slot.game.players.len() >= slot.game.max_players as usize {
            self.games.insert(String::from_str(game_id), slot);
            assert(self.games@ =~= raw);
            return Err(ErrorResponse::new(ErrorCode::GameFull, "Game is full"));
        }
        let ghost had = slot.game@;
        let player = Player { id: player_id.clone(), username: player_username };
        let broadcast = WebSocketMessage {
            game_id: String::from_str(game_id),
            message: GameMessage::PlayerJoined {
                username: player.username.clone(),
                player_id: player_id.clone(),
            },
            player_id: player_id.clone(),
            auth_token: None,
        };
        slot.game.players.push(player);
        assert(slot.game.players.deep_view() =~= had.players.push(player_view));
        let entry_game = slot.game.duplicate();
        self.games.insert(String::from_str(game_id), slot);
        self.player_to_game.insert(player_id.clone(), String::from_str(game_id));
        self.player_auth.insert(player_id.clone(), auth_token.clone());
        proof {
            let next = before.with_player(game_id@, player_view, auth_token@);
            assert(self.games@ =~= raw.insert(game_id@, slot));
            assert(self@.games =~= next.games);
            assert(self@.drafts =~= next.drafts);
            assert(self@.game_codes =~= next.game_codes);
            assert(self@.player_to_game =~= next.player_to_game);
            assert(self@.player_auth =~= next.player_auth);
            lemma_join_keeps_wf(before, game_id@, player_view, auth_token@);
        }
        Ok(Joined { entry: GameEntry { game: entry_game, auth_token }, player_id, broadcast })
    }
}

/// The refusal to show a token to the players of a game.
pub open spec fn unsafe_broadcast_error() -> ErrorResponseView {
    ErrorResponseView {
        error: ErrorCodeView::InternalServerError,
        message: "Cannot broadcast message with auth token to players - this would be unsafe"@,
    }
}

/// The server's word in the chat that `player` has left the game `game_id`.
pub open spec fn farewell(game_id: Seq<char>, player: PlayerView) -> WebSocketMessageView {
    WebSocketMessageView {
        game_id,
        message: GameMessageView::ChatMessage {
            username: "System"@,
            message: player.username + " left the game"@,
        },
        player_id: player.id,
        auth_token: None,
    }
}

impl RegistryView {
    /// The player `player_id` of the game `game_id`.
    pub open spec fn player(self, game_id: Seq<char>, player_id: Seq<char>) -> PlayerView {
        let players = self.games[game_id].players;
        players[position_of(players, player_id).unwrap()]
    }

    /// The registry in which the team draft of `game_id` stands at `state`.
    pub open spec fn with_draft(self, game_id: Seq<char>, state: TeamDraftView) -> RegistryView {
        RegistryView { drafts: self.drafts.insert(game_id, state), ..self }
    }
}

/// A change of the state of a live game's team draft keeps the registry well
/// formed.
pub proof fn lemma_draft_keeps_wf(r: RegistryView, game_id: Seq<char>, state: TeamDraftView)
    requires
        r.wf(),
        r.has_game(game_id),
    ensures
        r.with_draft(game_id, state).wf(),
{
    let next = r.with_draft(game_id, state);
    assert(next.drafts.dom() =~= next.games.dom());
    assert forall|p: Seq<char>| #[trigger] next.player_to_game.contains_key(p) implies next.plays_in(
        p,
        next.player_to_game[p],
    ) by {
        assert(r.plays_in(p, r.player_to_game[p]));
    }
}

impl GameManager {
    /// Opens a game for a new host under the name `host_username`.
    ///
    /// The ids and the token are drawn afresh, and codes are drawn until one
    /// is free. A name of nothing but white space is refused. Should what was
    /// drawn be in use all the same, the game is refused as
    /// `create_game_with` refuses it with what was drawn, and nothing has
    /// changed. So a game is opened whenever nothing that can be drawn is
    /// refused: in a registry without games, for every name that is not
    /// blank.
    pub fn create_game(&mut self, host_username: String) -> (r: Result<GameEntry, ErrorResponse>)
        requires
            old(self).wf(),
        ensures
            final(self).wf(),
            !is_blank(host_username@) && (forall|game_id: Seq<char>| !old(self)@.has_game(game_id))
                ==> r is Ok,
            match r {
                Ok(entry) => {
                    let game = entry.game@;
                    let host = PlayerView { id: game.host_id, username: host_username@ };
                    &&& !is_blank(host_username@)
                    &&& is_game_code(game.code)
                    &&& !old(self)@.has_game(game.id)
                    &&& !old(self)@.game_codes.contains_key(game.code)
                    &&& !old(self)@.player_to_game.contains_key(game.host_id)
                    &&& game == opened_game(game.id, game.code, host, game.created_at)
                    &&& final(self)@ == old(self)@.with_new_game(game, entry.auth_token@)
                },
                Err(e) => final(self)@ == old(self)@ && exists|
                    game_id: Seq<char>,
                    host_id: Seq<char>,
                    code: Seq<char>,
                |
                    is_game_code(code) && #[trigger] old(self)@.create_error(
                        host_username@,
                        game_id,
                        host_id,
                        code,
                    ) == Some(e@),
            },
    {
        if blank(host_username.as_str()) {
            let refusal = username_refusal();
            proof {
                lemma_code_exists();
                let code = choose|code: Seq<char>| is_game_code(code);
                assert(old(self)@.create_error(host_username@, code, code, code) == Some(
                    refusal@,
                ));
            }
            return Err(refusal);
        }
        let game_id = new_uuid();
        let host_id = new_uuid();
        let auth_token = new_uuid();
        let mut code = generate_game_code();
        let mut draws: usize = 0;
        while draws < usize::MAX && self.code_in_use(code.as_str())
            invariant
                self.wf(),
                self@ == old(self)@,
                is_game_code(code@),
            decreases usize::MAX - draws,
        {
            code = generate_game_code();
            draws += 1;
        }
        let seconds = unix_timestamp();
        let created_at = #[verifier::truncate]
        (seconds as i32);
        let ghost drawn = (game_id@, host_id@, code@);
        let r = self.create_game_with(host_username, game_id, host_id, auth_token, code, created_at);
        proof {
            old(self).lemma_wf();
            lemma_nothing_refused_without_games(
                old(self)@,
                host_username@,
                drawn.0,
                drawn.1,
                drawn.2,
            );
            if r is Err {
                assert(old(self)@.create_error(host_username@, drawn.0, drawn.1, drawn.2) == Some(
                    r->Err_0@,
                ));
            }
        }
        r
    }

    /// Lets a new player join the game `game_id` under the name
    /// `player_username`. The player's id and token are drawn afresh; for the
    /// rest see `join_game_with`.
    pub fn join_game(&mut self, player_username: String, game_id: String) -> (r: Result<
        Joined,
        ErrorResponse,
    >)
        requires
            old(self).wf(),
        ensures
            final(self).wf(),
            match r {
                Ok(joined) => {
                    let player = PlayerView { id: joined.player_id@, username: player_username@ };
                    &&& old(self)@.join_error(player_username@, game_id@, player.id) is None
                    &&& final(self)@ == old(self)@.with_player(
                        game_id@,
                        player,
                        joined.entry.auth_token@,
                    )
                    &&& joined.entry.game@ == final(self)@.games[game_id@]
                    &&& joined.broadcast@ == joined_announcement(game_id@, player)
                },
                Err(e) => final(self)@ == old(self)@ && exists|player_id: Seq<char>| #[trigger]
                    old(self)@.join_error(player_username@, game_id@, player_id) == Some(e@),
            },
    {
        let player_id = new_uuid();
        let auth_token = new_uuid();
        let ghost drawn = player_id@;
        let r = self.join_game_with(player_username, game_id.as_str(), player_id, auth_token);
        proof {
            if r is Err {
                assert(old(self)@.join_error(player_username@, game_id@, drawn) == Some(
                    r->Err_0@,
                ));
            }
        }
        r
    }

    /// Lets `player_id` join the game with the code `game_code`, which is
    /// read in upper case.
    ///
    /// Refused are, in this order: a name of nothing but white space, a code
    /// that no game has, and a name that a player of the game has already.
    /// For the rest see `join_game_with`.
    pub fn join_game_by_code_with(
        &mut self,
        player_username: String,
        game_code: &str,
        player_id: String,
        auth_token: String,
    ) -> (r: Result<Joined, ErrorResponse>)
        requires
            old(self).wf(),
        ensures
            final(self).wf(),
            match old(self)@.code_error(player_username@, game_code@) {
                Some(e) => r is Err && r->Err_0@ == e && final(self)@ == old(self)@,
                None => {
                    let game_id = old(self)@.game_codes[uppercased(game_code@)];
                    let player = PlayerView { id: player_id@, username: player_username@ };
                    match old(self)@.join_error(player_username@, game_id, player_id@) {
                        Some(e) => r is Err && r->Err_0@ == e && final(self)@ == old(self)@,
                        None => {
                            &&& r is Ok
                            &&& final(self)@ == old(self)@.with_player(game_id, player, auth_token@)
                            &&& r->Ok_0.entry.game@ == final(self)@.games[game_id]
                            &&& r->Ok_0.entry.auth_token@ == auth_token@
                            &&& r->Ok_0.player_id@ == player_id@
                            &&& r->Ok_0.broadcast@ == joined_announcement(game_id, player)
                        },
                    }
                },
            },
    {
        if blank(player_username.as_str()) {
            return Err(username_refusal());
        }
        let code = to_upper(game_code);
        let game_id = match self.game_codes.get(code.as_str()) {
            Some(id) => id.clone(),
            None => {
                return Err(game_not_found_refusal());
            },
        };
        proof {
            self.lemma_wf();
            assert(self@.game_codes.contains_key(code@));
            assert(self@.has_game(game_id@));
        }
        let taken = match self.games.get(game_id.as_str()) {
            Some(slot) => name_taken(&slot.game.players, &player_username),
            None => false,
        };
        if taken {
            return Err(ErrorResponse::new(ErrorCode::PlayerAlreadyInGame, "Username taken."));
        }
        self.join_game_with(player_username, game_id.as_str(), player_id, auth_token)
    }

    /// Lets a new player join the game with the code `game_code` under the
    /// name `player_username`. The player's id and token are drawn afresh;
    /// for the rest see `join_game_by_code_with`.
    pub fn join_game_by_code(&mut self, player_username: String, game_code: String) -> (r: Result<
        Joined,
        ErrorResponse,
    >)
        requires
            old(self).wf(),
        ensures
            final(self).wf(),
            match r {
                Ok(joined) => {
                    let game_id = old(self)@.game_codes[uppercased(game_code@)];
                    let player = PlayerView { id: joined.player_id@, username: player_username@ };
                    &&& old(self)@.code_error(player_username@, game_code@) is None
                    &&& old(self)@.join_error(player_username@, game_id, player.id) is None
                    &&& final(self)@ == old(self)@.with_player(
                        game_id,
                        player,
                        joined.entry.auth_token@,
                    )
                    &&& joined.entry.game@ == final(self)@.games[game_id]
                    &&& joined.broadcast@ == joined_announcement(game_id, player)
                },
                Err(e) => final(self)@ == old(self)@ && match old(self)@.code_error(
                    player_username@,
                    game_code@,
                ) {
                    Some(refusal) => e@ == refusal,
                    None => exists|player_id: Seq<char>| #[trigger]
                        old(self)@.join_error(
                            player_username@,
                            old(self)@.game_codes[uppercased(game_code@)],
                            player_id,
                        ) == Some(e@),
                },
            },
    {
        let player_id = new_uuid();
        let auth_token = new_uuid();
        let ghost drawn = player_id@;
        let r = self.join_game_by_code_with(
            player_username,
            game_code.as_str(),
            player_id,
            auth_token,
        );
        proof {
            if r is Err && old(self)@.code_error(player_username@, game_code@) is None {
                assert(old(self)@.join_error(
                    player_username@,
                    old(self)@.game_codes[uppercased(game_code@)],
                    drawn,
                ) == Some(r->Err_0@));
            }
        }
        r
    }

    /// Takes `player_id` out of the game that they are in, and ends the game
    /// if nobody is left in it. Where they are in no game, nothing happens.
    ///
    /// The others keep their order. The announcement that the player has
    /// left is ready for the game's players, and a game that has ended is
    /// named with its code, so that everything kept under the two can be
    /// deleted.
    pub fn remove_player_from_game(&mut self, player_id: &str) -> (r: Removal)
        requires
            old(self).wf(),
        ensures
            final(self).wf(),
            final(self)@ == old(self)@.without_player(player_id@),
            if old(self)@.player_to_game.contains_key(player_id@) {
                let game_id = old(self)@.player_to_game[player_id@];
                &&& r.broadcast is Some
                &&& r.broadcast->Some_0@ == left_announcement(
                    game_id,
                    old(self)@.player(game_id, player_id@),
                )
                &&& if old(self)@.is_last_player(player_id@) {
                    &&& r.closed_game is Some
                    &&& r.closed_game->Some_0.game_id@ == game_id
                    &&& r.closed_game->Some_0.code@ == old(self)@.games[game_id].code
                } else {
                    r.closed_game is None
                }
            } else {
                r.broadcast is None && r.closed_game is None
            },
    {
        let ghost before = self@;
        let ghost raw = self.games@;
        let ghost pid = player_id@;
        proof {
            lemma_leave_keeps_wf(before, pid);
        }
        let game_id = match self.player_to_game.remove(player_id) {
            Some(id) => id,
            None => {
                assert(self.player_to_game@ =~= old(self).player_to_game@);
                return Removal { broadcast: None, closed_game: None };
            },
        };
        let ghost gid = game_id@;
        assert(before.player_to_game.contains_key(pid));
        assert(before.player_to_game[pid] == gid);
        assert(before.plays_in(pid, gid));
        self.player_auth.remove(player_id);
        let mut slot = match self.games.remove(game_id.as_str()) {
            Some(slot) => slot,
            None => {
                assert(false);
                return Removal { broadcast: None, closed_game: None };
            },
        };
        let ghost had = slot.game@;
        assert(had == before.games[gid]);
        proof {
            lemma_position_of(had.players, pid);
        }
        let wanted = String::from_str(player_id);
        let seat = match find_seat(&slot.game.players, &wanted) {
            Some(seat) => seat,
            None => {
                assert(false);
                return Removal { broadcast: None, closed_game: None };
            },
        };
        assert(seat == before.seat_of(pid));
        let player = slot.game.players.remove(seat);
        assert(player@ == had.players[seat as int]);
        assert(slot.game.players.deep_view() =~= had.players.remove(seat as int));
        let broadcast = WebSocketMessage {
            game_id: game_id.clone(),
            message: GameMessage::PlayerDisconnected {
                username: player.username,
                player_id: player.id.clone(),
            },
            player_id: player.id,
            auth_token: None,
        };
        let closed_game = if slot.game.players.len() == 0 {
            self.game_codes.remove(slot.game.code.as_str());
            Some(ClosedGame { game_id, code: slot.game.code })
        } else {
            self.games.insert(game_id, slot);
            None
        };
        proof {
            let next = before.without_player(pid);
            assert(self@.games =~= next.games);
            assert(self@.drafts =~= next.drafts);
            assert(self@.game_codes =~= next.game_codes);
            assert(self@.player_to_game =~= next.player_to_game);
            assert(self@.player_auth =~= next.player_auth);
            assert forall|g: Seq<char>| #[trigger] self.games@.contains_key(g) implies self.games@[g].team_draft.state.wf() by {
                assert(raw.contains_key(g));
            }
        }
        Removal { broadcast: Some(broadcast), closed_game }
    }

    /// The server's word in the chat that `player_id` has left the game
    /// `game_id`, if they are in it.
    pub fn handle_player_left(&self, game_id: &str, player_id: &str) -> (r: Option<WebSocketMessage>)
        requires
            self.wf(),
        ensures
            match r {
                Some(message) => self@.plays_in(player_id@, game_id@) && message@ == farewell(
                    game_id@,
                    self@.player(game_id@, player_id@),
                ) && message@.player_id == player_id@ && message.message.wf(),
                None => !self@.plays_in(player_id@, game_id@),
            },
    {
        let slot = match self.games.get(game_id) {
            Some(slot) => slot,
            None => {
                return None;
            },
        };
        let wanted = String::from_str(player_id);
        match find_seat(&slot.game.players, &wanted) {
            Some(seat) => {
                assert(slot.game.players.deep_view()[seat as int] == slot.game.players@[seat as int]@);
                let mut text = slot.game.players[seat].username.clone();
                text.append(" left the game");
                Some(
                    WebSocketMessage {
                        game_id: String::from_str(game_id),
                        message: GameMessage::ChatMessage {
                            username: String::from_str("System"),
                            message: text,
                        },
                        player_id: slot.game.players[seat].id.clone(),
                        auth_token: None,
                    },
                )
            },
            None => None,
        }
    }

    /// Clears a message for the players of the game `game_id`.
    ///
    /// A message that carries a token is never shown to players, and there
    /// is nobody to show a message to where the game is not live.
    pub fn broadcast_to_game(&self, game_id: &str, ws_message: WebSocketMessage) -> (r: Result<
        WebSocketMessage,
        ErrorResponse,
    >)
        requires
            self.wf(),
        ensures
            match r {
                Ok(message) => ws_message@.auth_token is None && self@.has_game(game_id@)
                    && message == ws_message,
                Err(e) => if ws_message@.auth_token is Some {
                    e@ == unsafe_broadcast_error()
                } else {
                    !self@.has_game(game_id@) && e@ == game_not_found_error()
                },
            },
    {
        if ws_message.auth_token.is_some() {
            return Err(
                ErrorResponse::new(
                    ErrorCode::InternalServerError,
                    "Cannot broadcast message with auth token to players - this would be unsafe",
                ),
            );
        }
        if !self.games.contains_key(game_id) {
            return Err(game_not_found_refusal());
        }
        Ok(ws_message)
    }

    /// The team draft of the game `game_id` as it stands, if the game is
    /// live.
    pub fn team_draft(&self, game_id: &str) -> (r: Option<&TeamDraftService>)
        requires
            self.wf(),
        ensures
            match r {
                Some(service) => self@.has_game(game_id@) && service.state.wf() && service.state@
                    == self@.drafts[game_id@],
                None => !self@.has_game(game_id@),
            },
    {
        match self.games.get(game_id) {
            Some(slot) => Some(&slot.team_draft),
            None => None,
        }
    }

    /// The id of the player from whom alone the game `game_id` accepts
    /// `message`, if the game is live.
    pub fn team_draft_sender(&self, game_id: &str, message: &TeamDraftMessage) -> (r: Option<String>)
        requires
            self.wf(),
        ensures
            match r {
                Some(id) => self@.has_game(game_id@) && id@ == required_sender(
                    self@.drafts[game_id@],
                    message@,
                ),
                None => !self@.has_game(game_id@),
            },
    {
        match self.games.get(game_id) {
            Some(slot) => Some(slot.team_draft.get_correct_player_source_id(message)),
            None => None,
        }
    }

    /// Takes the team draft of the game `game_id` from `message` to its next
    /// state and gives the events for the players. Nothing happens, and
    /// nothing is given, where the game is not live or the machine's limits
    /// do not let the message be handled.
    pub fn handle_team_draft(&mut self, game_id: &str, message: TeamDraftMessage, now_ms: u64) -> (r:
        Option<Vec<GameMessage>>)
        requires
            old(self).wf(),
            message.wf(),
        ensures
            final(self).wf(),
            match r {
                Some(out) => {
                    let state = old(self)@.drafts[game_id@];
                    let players = old(self)@.games[game_id@].players;
                    &&& old(self)@.has_game(game_id@)
                    &&& can_handle(state, players, message@, now_ms)
                    &&& final(self)@ == old(self)@.with_draft(
                        game_id@,
                        next_state(state, players, message@),
                    )
                    &&& out.deep_view() == events(state, players, message@, now_ms)
                    &&& forall|i: int| 0 <= i < out@.len() ==> (#[trigger] out@[i]).wf()
                },
                None => final(self)@ == old(self)@ && (old(self)@.has_game(game_id@) ==> !can_handle(
                    old(self)@.drafts[game_id@],
                    old(self)@.games[game_id@].players,
                    message@,
                    now_ms,
                )),
            },
    {
        let ghost before = self@;
        let ghost raw = self.games@;
        let mut slot = match self.games.remove(game_id) {
            Some(slot) => slot,
            None => {
                assert(self.games@ =~= raw);
                return None;
            },
        };
        if !slot.team_draft.can_handle_message(&slot.game.players, &message, now_ms) {
            self.games.insert(String::from_str(game_id), slot);
            assert(self.games@ =~= raw);
            return None;
        }
        let players = duplicate_players(&slot.game.players);
        let out = slot.team_draft.handle_message(players, message, now_ms);
        self.games.insert(String::from_str(game_id), slot);
        proof {
            let next = before.with_draft(game_id@, slot.team_draft.state@);
            assert(self.games@ =~= raw.insert(game_id@, slot));
            assert(self@.games =~= next.games);
            assert(self@.drafts =~= next.drafts);
            lemma_draft_keeps_wf(before, game_id@, slot.team_draft.state@);
        }
        Some(out)
    }

    /// Puts `state` in the place of the state of the team draft of the game
    /// `game_id`, and says whether the game is live; nothing happens where it
    /// is not. With the state that a transition began from, this takes the
    /// transition back.
    pub fn put_team_draft(&mut self, game_id: &str, state: TeamDraftState) -> (r: bool)
        requires
            old(self).wf(),
            state.wf(),
        ensures
            final(self).wf(),
            r == old(self)@.has_game(game_id@),
            final(self)@ == if r {
                old(self)@.with_draft(game_id@, state@)
            } else {
                old(self)@
            },
    {
        let ghost before = self@;
        let ghost raw = self.games@;
        let mut slot = match self.games.remove(game_id) {
            Some(slot) => slot,
            None => {
                assert(self.games@ =~= raw);
                return false;
            },
        };
        slot.team_draft.state = state;
        self.games.insert(String::from_str(game_id), slot);
        proof {
            let next = before.with_draft(game_id@, slot.team_draft.state@);
            assert(self.games@ =~= raw.insert(game_id@, slot));
            assert(self@.games =~= next.games);
            assert(self@.drafts =~= next.drafts);
            lemma_draft_keeps_wf(before, game_id@, slot.team_draft.state@);
        }
        true
    }

    /// Starts the team draft of the game `game_id`: it is played for as many
    /// rounds as the game has players. Gives the announcement of the start,
    /// with the state of a fresh lobby in which the host is the yapper.
    /// Nothing happens where the game is not live.
    pub fn start_team_draft(&mut self, game_id: &str) -> (r: Option<GameStartedMessage>)
        requires
            old(self).wf(),
        ensures
            final(self).wf(),
            match r {
                Some(started) => {
                    let game = old(self)@.games[game_id@];
                    &&& old(self)@.has_game(game_id@)
                    &&& final(self)@ == old(self)@.with_draft(
                        game_id@,
                        TeamDraftView { max_rounds: game.players.len(), ..old(self)@.drafts[game_id@] },
                    )
                    &&& started@ == (GameStartedView {
                        game_type: GameMode::TeamDraft,
                        initial_team_draft_state: Some(
                            initial_state(game.host_id, 0, game.players.len()),
                        ),
                    })
                    &&& started.initial_team_draft_state->Some_0.wf()
                },
                None => final(self)@ == old(self)@ && !old(self)@.has_game(game_id@),
            },
    {
        let ghost before = self@;
        let ghost raw = self.games@;
        let mut slot = match self.games.remove(game_id) {
            Some(slot) => slot,
            None => {
                assert(self.games@ =~= raw);
                return None;
            },
        };
        assert(before.games[game_id@] == slot.game@);
        assert(before.has_game(game_id@));
        assert(slot.game.players@.len() <= slot.game.max_players);
        let rounds = slot.game.players.len() as u8;
        slot.team_draft.set_game_settings(rounds);
        let state = TeamDraftState::new(slot.game.host_id.clone(), 0, rounds);
        self.games.insert(String::from_str(game_id), slot);
        proof {
            let next = before.with_draft(game_id@, slot.team_draft.state@);
            assert(self.games@ =~= raw.insert(game_id@, slot));
            assert(self@.games =~= next.games);
            assert(self@.drafts =~= next.drafts);
            lemma_draft_keeps_wf(before, game_id@, slot.team_draft.state@);
        }
        Some(GameStartedMessage { game_type: GameMode::TeamDraft, initial_team_draft_state: Some(state) })
    }
}

/// Whether one of `players` has the name `username`.
fn name_taken(players: &Vec<Player>, username: &String) -> (r: bool)
    ensures
        r == has_name(players.deep_view(), username@),
{
    let ghost pv = players.deep_view();
    let mut i: usize = 0;
    while i < players.len()
        invariant
            i <= players@.len(),
            pv == players.deep_view(),
            forall|j: int| 0 <= j < i ==> (#[trigger] pv[j]).username != username@,
        decreases players@.len() - i,
    {
        assert(pv[i as int] == players@[i as int]@);
        if players[i].username == *username {
            return true;
        }
        i += 1;
    }
    false
}

// ---------------------------------------------------------------------------
// Games that another node has opened
// ---------------------------------------------------------------------------
/// The refusal of a game that cannot be a game of the registry: one without
/// players or with more than it takes, with two players under one id, or
/// with another number of tokens than of players.
pub open spec fn unfit_game_error() -> ErrorResponseView {
    ErrorResponseView { error: ErrorCodeView::InternalServerError, message: "Game is not fit"@ }
}

/// The index with an entry for each of the first `n` of `players`: under
/// the id of the player at a seat stands the value at the same seat.
pub open spec fn with_seats(
    index: Map<Seq<char>, Seq<char>>,
    players: Seq<PlayerView>,
    values: Seq<Seq<char>>,
    n: int,
) -> Map<Seq<char>, Seq<char>>
    decreases n,
{
    if n <= 0 {
        index
    } else {
        with_seats(index, players, values, n - 1).insert(players[n - 1].id, values[n - 1])
    }
}

/// What an index holds once the players have their entries: an entry for
/// every player and for whoever had one before, and nothing else; for a
/// player, the value at their seat; for anyone else, what they had.
pub proof fn lemma_with_seats(
    index: Map<Seq<char>, Seq<char>>,
    players: Seq<PlayerView>,
    values: Seq<Seq<char>>,
    n: int,
    id: Seq<char>,
)
    requires
        0 <= n <= players.len(),
        values.len() == players.len(),
        distinct_ids(players),
    ensures
        with_seats(index, players, values, n).contains_key(id) <==> index.contains_key(id) || exists|
            i: int,
        |
            0 <= i < n && (#[trigger] players[i]).id == id,
        forall|i: int|
            0 <= i < n && (#[trigger] players[i]).id == id ==> with_seats(index, players, values, n)[id]
                == values[i],
        (forall|i: int| 0 <= i < n ==> (#[trigger] players[i]).id != id) ==> with_seats(
            index,
            players,
            values,
            n,
        )[id] == index[id],
    decreases n,
{
    if n > 0 {
        lemma_with_seats(index, players, values, n - 1, id);
        let before = with_seats(index, players, values, n - 1);
        if players[n - 1].id == id {
            assert forall|i: int| 0 <= i < n && (#[trigger] players[i]).id == id implies i == n
                - 1 by {
                if i < n - 1 {
                    assert(players[i].id != players[n - 1].id);
                }
            }
        } else {
            if exists|i: int| 0 <= i < n && (#[trigger] players[i]).id == id {
                let i = choose|i: int| 0 <= i < n && (#[trigger] players[i]).id == id;
                assert(0 <= i < n - 1 && players[i].id == id);
            }
            if before.contains_key(id) && !index.contains_key(id) {
                let i = choose|i: int| 0 <= i < n - 1 && (#[trigger] players[i]).id == id;
                assert(0 <= i < n && players[i].id == id);
            }
        }
    }
}

impl RegistryView {
    /// Why the registry cannot take over `game`, whose players hold
    /// `tokens`, if it cannot.
    pub open spec fn adopt_error(self, game: GameView, tokens: Seq<Seq<char>>) -> Option<
        ErrorResponseView,
    > {
        if game.players.len() == 0 || game.players.len() > game.max_players || game.max_players
            > u8::MAX || tokens.len() != game.players.len() || !distinct_ids(game.players) {
            Some(unfit_game_error())
        } else if exists|i: int|
            0 <= i < game.players.len() && self.player_to_game.contains_key(
                (#[trigger] game.players[i]).id,
            ) {
            Some(already_in_game_error())
        } else if self.has_game(game.id) {
            Some(game_id_in_use_error())
        } else if self.game_codes.contains_key(game.code) {
            Some(code_in_use_error())
        } else {
            None
        }
    }

    /// The registry with `game` as one of its games, as it stands: with its
    /// players, each holding the token at their seat, and with `draft` as
    /// the state of its team draft.
    pub open spec fn with_adopted(self, game: GameView, tokens: Seq<Seq<char>>, draft: TeamDraftView)
        -> RegistryView {
        let seats = game.players.len() as int;
        RegistryView {
            games: self.games.insert(game.id, game),
            drafts: self.drafts.insert(game.id, draft),
            game_codes: self.game_codes.insert(game.code, game.id),
            player_to_game: with_seats(
                self.player_to_game,
                game.players,
                Seq::new(game.players.len(), |i: int| game.id),
                seats,
            ),
            player_auth: with_seats(self.player_auth, game.players, tokens, seats),
        }
    }
}

/// A registry that takes over a game stays well formed.
pub proof fn lemma_adopt_keeps_wf(
    r: RegistryView,
    game: GameView,
    tokens: Seq<Seq<char>>,
    draft: TeamDraftView,
)
    requires
        r.wf(),
        r.adopt_error(game, tokens) is None,
    ensures
        r.with_adopted(game, tokens, draft).wf(),
{
    let next = r.with_adopted(game, tokens, draft);
    let n = game.players.len() as int;
    let ids = Seq::new(game.players.len(), |i: int| game.id);
    assert(next.drafts.dom() =~= next.games.dom());
    assert forall|p: Seq<char>|
        (#[trigger] next.player_to_game.contains_key(p) <==> r.player_to_game.contains_key(p)
            || is_player(game.players, p)) && (next.player_auth.contains_key(p)
            <==> r.player_auth.contains_key(p) || is_player(game.players, p)) && (is_player(
            game.players,
            p,
        ) ==> next.player_to_game[p] == game.id) && (!is_player(game.players, p)
            ==> next.player_to_game[p] == r.player_to_game[p]) by {
        lemma_with_seats(r.player_to_game, game.players, ids, n, p);
        lemma_with_seats(r.player_auth, game.players, tokens, n, p);
        if is_player(game.players, p) {
            let i = choose|i: int| 0 <= i < game.players.len() && #[trigger] game.players[i].id == p;
            assert(0 <= i < n && game.players[i].id == p);
            assert(ids[i] == game.id);
        }
    }
    assert forall|g: Seq<char>| #[trigger] next.games.contains_key(g) implies ({
        let had = next.games[g];
        &&& had.id == g
        &&& 1 <= had.players.len() <= had.max_players
        &&& distinct_ids(had.players)
        &&& next.game_codes.contains_key(had.code)
        &&& next.game_codes[had.code] == g
    }) by {
        if g != game.id {
            assert(r.games.contains_key(g));
            assert(r.game_codes.contains_key(r.games[g].code));
        }
    }
    assert forall|code: Seq<char>| #[trigger] next.game_codes.contains_key(code) implies
        next.games.contains_key(next.game_codes[code]) && next.games[next.game_codes[code]].code
        == code by {
        if code != game.code {
            assert(r.game_codes.contains_key(code));
        }
    }
    assert forall|p: Seq<char>| #[trigger] next.player_to_game.contains_key(p) implies next.plays_in(
        p,
        next.player_to_game[p],
    ) by {
        if !is_player(game.players, p) {
            assert(r.player_to_game.contains_key(p));
            assert(r.plays_in(p, r.player_to_game[p]));
        }
    }
    assert forall|p: Seq<char>| #[trigger]
        next.player_auth.contains_key(p) <==> next.player_to_game.contains_key(p) by {
        assert(next.player_to_game.contains_key(p) <==> r.player_to_game.contains_key(p)
            || is_player(game.players, p));
        assert(r.player_auth.contains_key(p) <==> r.player_to_game.contains_key(p));
    }
    assert forall|g: Seq<char>, i: int|
        next.games.contains_key(g) && 0 <= i < next.games[g].players.len() implies ({
        let p = (#[trigger] next.games[g].players[i]).id;
        next.player_to_game.contains_key(p) && next.player_to_game[p] == g
    }) by {
        let p = next.games[g].players[i].id;
        assert(next.player_to_game.contains_key(p) <==> r.player_to_game.contains_key(p)
            || is_player(game.players, p));
        if g == game.id {
            assert(game.players[i].id == p);
            assert(is_player(game.players, p));
        } else {
            assert(r.games.contains_key(g));
            assert(r.games[g].players[i].id == p);
            assert(r.player_to_game.contains_key(p) && r.player_to_game[p] == g);
            if is_player(game.players, p) {
                let j = choose|j: int|
                    0 <= j < game.players.len() && #[trigger] game.players[j].id == p;
                assert(r.player_to_game.contains_key(game.players[j].id));
            }
        }
    }
}

/// Whether no two of `players` have the same id.
fn ids_are_distinct(players: &Vec<Player>) -> (r: bool)
    ensures
        r == distinct_ids(players.deep_view()),
{
    let ghost pv = players.deep_view();
    let mut j: usize = 0;
    while j < players.len()
        invariant
            j <= players@.len(),
            pv == players.deep_view(),
            forall|a: int, b: int| 0 <= a < b < j ==> (#[trigger] pv[a]).id != (#[trigger] pv[b]).id,
        decreases players@.len() - j,
    {
        let mut i: usize = 0;
        while i < j
            invariant
                i <= j < players@.len(),
                pv == players.deep_view(),
                forall|a: int| 0 <= a < i ==> (#[trigger] pv[a]).id != pv[j as int].id,
            decreases j - i,
        {
            proof {
                assert(pv[i as int].id == players@[i as int].id@);
                assert(pv[j as int].id == players@[j as int].id@);
            }
            if players[i].id == players[j].id {
                return false;
            }
            i += 1;
        }
        j += 1;
    }
    true
}

impl GameManager {
    /// Takes over a game that another node has opened, as the store holds
    /// it: `game` with its players, the token of each player at their seat
    /// in `tokens`, and `draft` as the state of its team draft.
    ///
    /// The game is refused, and nothing changes, where it cannot be a game
    /// of the registry, where one of its players is in a game of the
    /// registry already, or where its id or its code is in use.
    pub fn adopt_game(&mut self, game: Game, tokens: Vec<String>, draft: TeamDraftState) -> (r:
        Result<(), ErrorResponse>)
        requires
            old(self).wf(),
            draft.wf(),
        ensures
            final(self).wf(),
            match old(self)@.adopt_error(game@, tokens.deep_view()) {
                Some(e) => r is Err && r->Err_0@ == e && final(self)@ == old(self)@,
                None => r is Ok && final(self)@ == old(self)@.with_adopted(
                    game@,
                    tokens.deep_view(),
                    draft@,
                ),
            },
    {
        let ghost before = self@;
        let ghost pv = game.players.deep_view();
        let ghost tv = tokens.deep_view();
        let seats = game.players.len();
        if seats == 0 || seats > game.max_players as usize || tokens.len() != seats
            || !ids_are_distinct(&game.players) {
            return Err(ErrorResponse::new(ErrorCode::InternalServerError, "Game is not fit"));
        }
        let mut i: usize = 0;
        while i < seats
            invariant
                i <= seats,
                seats == game.players@.len(),
                pv == game.players.deep_view(),
                before == self@,
                self.wf(),
                *self == *old(self),
                0 < seats <= game.max_players,
                tokens@.len() == seats,
                distinct_ids(pv),
                forall|j: int| 0 <= j < i ==> !before.player_to_game.contains_key((#[trigger] pv[j]).id),
            decreases seats - i,
        {
            proof {
                assert(pv[i as int].id == game.players@[i as int].id@);
            }
            if self.player_to_game.contains_key(game.players[i].id.as_str()) {
                proof {
                    let seat = i as int;
                    assert(0 <= seat < game@.players.len() && before.player_to_game.contains_key(
                        game@.players[seat].id,
                    ));
                }
                return Err(already_in_game_refusal());
            }
            i += 1;
        }
        if self.games.contains_key(game.id.as_str()) {
            return Err(ErrorResponse::new(ErrorCode::InternalServerError, "Game id is in use"));
        }
        if self.game_codes.contains_key(game.code.as_str()) {
            return Err(ErrorResponse::new(ErrorCode::InvalidGameCode, "Game code is in use"));
        }
        assert(before.adopt_error(game@, tv) is None);
        let ghost ids = Seq::new(pv.len(), |i: int| game.id@);
        let ghost games = self.games;
        let ghost codes = self.game_codes;
        let mut k: usize = 0;
        while k < seats
            invariant
                k <= seats,
                seats == game.players@.len(),
                seats == tokens@.len(),
                pv == game.players.deep_view(),
                tv == tokens.deep_view(),
                ids == Seq::new(pv.len(), |i: int| game.id@),
                self.games == games,
                self.game_codes == codes,
                self.player_to_game.wf(),
                self.player_auth.wf(),
                text_values(self.player_to_game@) == with_seats(
                    before.player_to_game,
                    pv,
                    ids,
                    k as int,
                ),
                text_values(self.player_auth@) == with_seats(before.player_auth, pv, tv, k as int),
            decreases seats - k,
        {
            let ghost had_games = self.player_to_game@;
            let ghost had_auth = self.player_auth@;
            let id = game.id.clone();
            let token = tokens[k].clone();
            proof {
                assert(pv[k as int].id == game.players@[k as int].id@);
                assert(tv[k as int] == tokens@[k as int]@);
                assert(ids[k as int] == game.id@);
            }
            self.player_to_game.insert(game.players[k].id.clone(), id);
            self.player_auth.insert(game.players[k].id.clone(), token);
            proof {
                assert(text_values(self.player_to_game@) =~= text_values(had_games).insert(
                    pv[k as int].id,
                    ids[k as int],
                ));
                assert(text_values(self.player_auth@) =~= text_values(had_auth).insert(
                    pv[k as int].id,
                    tv[k as int],
                ));
            }
            k += 1;
        }
        let ghost raw_games = self.games@;
        let ghost raw_codes = self.game_codes@;
        let ghost game_view = game@;
        let ghost draft_view = draft@;
        self.game_codes.insert(game.code.clone(), game.id.clone());
        let slot = GameSlot { game, team_draft: TeamDraftService { state: draft } };
        self.games.insert(slot.game.id.clone(), slot);
        proof {
            let next = before.with_adopted(game_view, tv, draft_view);
            assert(self.games@ =~= raw_games.insert(game_view.id, slot));
            assert(self@.games =~= next.games);
            assert(self@.drafts =~= next.drafts);
            assert(self@.game_codes =~= next.game_codes);
            assert(self@.player_to_game =~= next.player_to_game);
            assert(self@.player_auth =~= next.player_auth);
            lemma_adopt_keeps_wf(before, game_view, tv, draft_view);
        }
        Ok(())
    }
}

impl RegistryView {
    /// The registry without the game `game_id`: without the game, its team
    /// draft and its code, and without its players in the indexes. Nothing
    /// changes where the game is not live.
    pub open spec fn without_game(self, game_id: Seq<char>) -> RegistryView {
        if !self.has_game(game_id) {
            self
        } else {
            let game = self.games[game_id];
            RegistryView {
                games: self.games.remove(game_id),
                drafts: self.drafts.remove(game_id),
                game_codes: self.game_codes.remove(game.code),
                player_to_game: self.player_to_game.remove_keys(all_ids(game.players)),
                player_auth: self.player_auth.remove_keys(all_ids(game.players)),
            }
        }
    }
}

/// A registry that forgets a game stays well formed.
pub proof fn lemma_forget_keeps_wf(r: RegistryView, game_id: Seq<char>)
    requires
        r.wf(),
    ensures
        r.without_game(game_id).wf(),
{
    if r.has_game(game_id) {
        let next = r.without_game(game_id);
        let game = r.games[game_id];
        assert(r.games.contains_key(game_id));
        assert(next.drafts.dom() =~= next.games.dom());
        assert forall|p: Seq<char>| is_player(game.players, p) implies r.player_to_game.contains_key(
            p,
        ) && r.player_to_game[p] == game_id by {
            let i = choose|i: int| 0 <= i < game.players.len() && #[trigger] game.players[i].id == p;
            assert(r.games[game_id].players[i].id == p);
        }
        assert forall|g: Seq<char>| #[trigger] next.games.contains_key(g) implies ({
            let had = next.games[g];
            &&& had.id == g
            &&& 1 <= had.players.len() <= had.max_players <= u8::MAX
            &&& distinct_ids(had.players)
            &&& next.game_codes.contains_key(had.code)
            &&& next.game_codes[had.code] == g
        }) by {
            assert(r.games.contains_key(g));
            assert(r.game_codes[r.games[g].code] == g);
        }
        assert forall|code: Seq<char>| #[trigger] next.game_codes.contains_key(code) implies
            next.games.contains_key(next.game_codes[code]) && next.games[next.game_codes[code]].code
            == code by {
            assert(r.game_codes.contains_key(code));
        }
        assert forall|p: Seq<char>| #[trigger]
            next.player_to_game.contains_key(p) implies next.plays_in(p, next.player_to_game[p]) by {
            assert(r.player_to_game.contains_key(p));
            assert(r.plays_in(p, r.player_to_game[p]));
        }
        assert forall|p: Seq<char>| #[trigger]
            next.player_auth.contains_key(p) <==> next.player_to_game.contains_key(p) by {
            assert(r.player_auth.contains_key(p) <==> r.player_to_game.contains_key(p));
        }
        assert forall|g: Seq<char>, i: int|
            next.games.contains_key(g) && 0 <= i < next.games[g].players.len() implies ({
            let p = (#[trigger] next.games[g].players[i]).id;
            next.player_to_game.contains_key(p) && next.player_to_game[p] == g
        }) by {
            let p = next.games[g].players[i].id;
            assert(r.games.contains_key(g));
            assert(r.games[g].players[i].id == p);
            assert(r.player_to_game.contains_key(p) && r.player_to_game[p] == g);
        }
    }
}

/// A game that is taken over and then forgotten leaves the registry as it
/// was.
pub proof fn lemma_adopted_game_is_forgotten(
    r: RegistryView,
    game: GameView,
    tokens: Seq<Seq<char>>,
    draft: TeamDraftView,
)
    requires
        r.wf(),
        r.adopt_error(game, tokens) is None,
    ensures
        r.with_adopted(game, tokens, draft).has_game(game.id),
        r.with_adopted(game, tokens, draft).games[game.id] == game,
        r.with_adopted(game, tokens, draft).drafts[game.id] == draft,
        r.with_adopted(game, tokens, draft).without_game(game.id) == r,
{
    let next = r.with_adopted(game, tokens, draft);
    let back = next.without_game(game.id);
    let n = game.players.len() as int;
    let ids = Seq::new(game.players.len(), |i: int| game.id);
    assert(r.drafts.dom() == r.games.dom());
    assert(back.games =~= r.games);
    assert(back.drafts =~= r.drafts);
    assert(back.game_codes =~= r.game_codes);
    assert forall|p: Seq<char>|
        (#[trigger] back.player_to_game.contains_key(p) <==> r.player_to_game.contains_key(p)) && (
        back.player_auth.contains_key(p) <==> r.player_auth.contains_key(p)) && (
        r.player_to_game.contains_key(p) ==> back.player_to_game[p] == r.player_to_game[p]) && (
        r.player_auth.contains_key(p) ==> back.player_auth[p] == r.player_auth[p]) by {
        lemma_with_seats(r.player_to_game, game.players, ids, n, p);
        lemma_with_seats(r.player_auth, game.players, tokens, n, p);
        assert(r.player_auth.contains_key(p) <==> r.player_to_game.contains_key(p));
        if is_player(game.players, p) {
            let i = choose|i: int| 0 <= i < game.players.len() && #[trigger] game.players[i].id == p;
            assert(!r.player_to_game.contains_key(game.players[i].id));
        }
    }
    assert(back.player_to_game =~= r.player_to_game);
    assert(back.player_auth =~= r.player_auth);
}

/// Drops the entry of each of `players` from `index`.
fn drop_entries(index: &mut TextMap<String>, players: &Vec<Player>)
    requires
        old(index).wf(),
    ensures
        final(index).wf(),
        text_values(final(index)@) == text_values(old(index)@).remove_keys(
            all_ids(players.deep_view()),
        ),
{
    let ghost pv = players.deep_view();
    let ghost before = index@;
    let mut i: usize = 0;
    proof {
        lemma_ids_before_all(pv, Seq::empty());
        assert(before.remove_keys(ids_before(pv, 0, None)) =~= before);
    }
    while i < players.len()
        invariant
            i <= players@.len(),
            pv == players.deep_view(),
            index.wf(),
            index@ == before.remove_keys(ids_before(pv, i as int, None)),
        decreases players@.len() - i,
    {
        let ghost prev = index@;
        proof {
            assert(pv[i as int].id == players@[i as int].id@);
            lemma_ids_before_step(pv, i as int, None);
        }
        index.remove(players[i].id.as_str());
        proof {
            assert(prev.remove(pv[i as int].id) =~= before.remove_keys(
                ids_before(pv, i as int, None).insert(pv[i as int].id),
            ));
        }
        i += 1;
    }
    proof {
        lemma_ids_before_all(pv, Seq::empty());
        assert(text_values(index@) =~= text_values(before).remove_keys(all_ids(pv)));
    }
}

impl GameManager {
    /// Forgets the game `game_id` with its players, and says whether it was
    /// live; nothing happens where it was not. Nobody is told: this is for a
    /// game that lives on in the store, to be taken over again as the store
    /// then holds it.
    pub fn forget_game(&mut self, game_id: &str) -> (r: bool)
        requires
            old(self).wf(),
        ensures
            final(self).wf(),
            r == old(self)@.has_game(game_id@),
            final(self)@ == old(self)@.without_game(game_id@),
    {
        let ghost before = self@;
        let ghost raw = self.games@;
        let ghost raw_codes = self.game_codes@;
        let slot = match self.games.remove(game_id) {
            Some(slot) => slot,
            None => {
                assert(self.games@ =~= raw);
                return false;
            },
        };
        assert(before.games[game_id@] == slot.game@);
        self.game_codes.remove(slot.game.code.as_str());
        drop_entries(&mut self.player_to_game, &slot.game.players);
        drop_entries(&mut self.player_auth, &slot.game.players);
        proof {
            let next = before.without_game(game_id@);
            assert(self@.games =~= next.games);
            assert(self@.drafts =~= next.drafts);
            assert(self@.game_codes =~= next.game_codes);
            assert(self@.player_to_game =~= next.player_to_game);
            assert(self@.player_auth =~= next.player_auth);
            lemma_forget_keeps_wf(before, game_id@);
        }
        true
    }
}

} // verus!
