use crate::cache::key_builder::{
    base_pattern, fixed, fixed_path, index_key_schema, index_schema, KeySchema, KeySegment,
    SchemaView, SegmentView,
};
use vstd::prelude::*;
use vstd::string::*;

verus! {

/// Someone in a game: an opaque id and the name they chose.
#[derive(Debug, Clone, PartialEq, Eq)]
pub struct Player {
    pub id: String,
    pub username: String,
}

pub ghost struct PlayerView {
    pub id: Seq<char>,
    pub username: Seq<char>,
}

impl View for Player {
    type V = PlayerView;

    open spec fn view(&self) -> PlayerView {
        PlayerView { id: self.id@, username: self.username@ }
    }
}

impl DeepView for Player {
    type V = PlayerView;

    open spec fn deep_view(&self) -> PlayerView {
        self@
    }
}

impl Player {
    /// A player with the same id and name.
    pub fn duplicate(&self) -> (r: Player)
        ensures
            r@ == self@,
    {
        Player { id: self.id.clone(), username: self.username.clone() }
    }
}

/// A copy of a list of players.
pub fn duplicate_players(players: &Vec<Player>) -> (r: Vec<Player>)
    ensures
        r.deep_view() == players.deep_view(),
{
    let mut out: Vec<Player> = Vec::new();
    let mut i: usize = 0;
    while i < players.len()
        invariant
            i <= players@.len(),
            out@.len() == i,
            forall|j: int| 0 <= j < i ==> out@[j]@ == players@[j]@,
        decreases players@.len() - i,
    {
        out.push(players[i].duplicate());
        i += 1;
    }
    assert(out.deep_view() =~= players.deep_view());
    out
}

/// A game as the registry hands it out: its players in the order in which
/// they joined.
#[derive(Debug, Clone, PartialEq, Eq)]
pub struct Game {
    pub id: String,
    pub code: String,
    pub host_id: String,
    pub players: Vec<Player>,
    pub max_players: u8,
    pub created_at: i32,
}

pub ghost struct GameView {
    pub id: Seq<char>,
    pub code: Seq<char>,
    pub host_id: Seq<char>,
    pub players: Seq<PlayerView>,
    pub max_players: nat,
    pub created_at: int,
}

impl View for Game {
    type V = GameView;

    open spec fn view(&self) -> GameView {
        GameView {
            id: self.id@,
            code: self.code@,
            host_id: self.host_id@,
            players: self.players.deep_view(),
            max_players: self.max_players as nat,
            created_at: self.created_at as int,
        }
    }
}

impl DeepView for Game {
    type V = GameView;

    open spec fn deep_view(&self) -> GameView {
        self@
    }
}

impl Game {
    /// A game with the same contents.
    pub fn duplicate(&self) -> (r: Game)
        ensures
            r@ == self@,
    {
        Game {
            id: self.id.clone(),
            code: self.code.clone(),
            host_id: self.host_id.clone(),
            players: duplicate_players(&self.players),
            max_players: self.max_players,
            created_at: self.created_at,
        }
    }
}

/// The schema of the keys of one game: `game::<game_id>`, which may go on
/// with the name of one of the game's fields.
pub open spec fn game_schema() -> SchemaView {
    SchemaView {
        base_pattern: seq![fixed("game"@), SegmentView::Field("game_id"@)],
        allowed_extensions: seq![
            seq![fixed("host_id"@)],
            seq![fixed("code"@)],
            seq![fixed("players"@)],
            seq![fixed("max_players"@)],
            seq![fixed("created_at"@)],
        ],
    }
}

/// The names and schemas of the keys that describe games and their players.
pub open spec fn game_key_schemas() -> Seq<(Seq<char>, SchemaView)> {
    seq![
        ("game"@, game_schema()),
        ("player_usernames"@, index_schema("player_usernames"@, "player_id"@)),
    ]
}

/// A list of named schemas as the contracts see it.
pub open spec fn named_schemas(list: Seq<(&'static str, KeySchema)>) -> Seq<(Seq<char>, SchemaView)> {
    Seq::new(list.len(), |i: int| (list[i].0@, list[i].1@))
}

/// The schemas of the keys that describe games and their players.
pub fn get_key_schemas() -> (list: Vec<(&'static str, KeySchema)>)
    ensures
        named_schemas(list@) == game_key_schemas(),
{
    let mut extensions: Vec<Vec<KeySegment>> = Vec::new();
    extensions.push(fixed_path("host_id"));
    extensions.push(fixed_path("code"));
    extensions.push(fixed_path("players"));
    extensions.push(fixed_path("max_players"));
    extensions.push(fixed_path("created_at"));
    let game = KeySchema { base_pattern: base_pattern("game", "game_id"), allowed_extensions: extensions };
    assert(game.allowed_extensions.deep_view() =~= game_schema().allowed_extensions);
    let mut list: Vec<(&'static str, KeySchema)> = Vec::new();
    list.push(("game", game));
    list.push(("player_usernames", index_key_schema("player_usernames", "player_id")));
    assert(named_schemas(list@) =~= game_key_schemas());
    list
}

} // verus!
