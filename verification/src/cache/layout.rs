use crate::cache::key_builder::{
    accepts, fixed, fresh_builder, index_schema, key_of, matcher, path_accepts, separator,
    standard_schemas, words, BuilderView,
};
use crate::cache::key_parts::{build_key, lemma_built_of};
use crate::game::types::game_schema;
use crate::team_draft::types::{round_fields, team_draft_schema};
use vstd::prelude::*;
use vstd::string::*;

verus! {

// ---------------------------------------------------------------------------
// Where everything is kept
// ---------------------------------------------------------------------------
/// The names of the registered schemas are six different names.
pub proof fn lemma_schema_names()
    ensures
        standard_schemas().dom() == set![
            "game"@,
            "player_usernames"@,
            "team_draft"@,
            "game_code"@,
            "player_to_game"@,
            "player_auth"@,
        ],
        standard_schemas()["game"@] == game_schema(),
        standard_schemas()["player_usernames"@] == index_schema(
            "player_usernames"@,
            "player_id"@,
        ),
        standard_schemas()["team_draft"@] == team_draft_schema(),
        standard_schemas()["game_code"@] == index_schema("game_code"@, "code"@),
        standard_schemas()["player_to_game"@] == index_schema("player_to_game"@, "player_id"@),
        standard_schemas()["player_auth"@] == index_schema("player_auth"@, "player_id"@),
{
    reveal_strlit("game");
    reveal_strlit("player_usernames");
    reveal_strlit("team_draft");
    reveal_strlit("game_code");
    reveal_strlit("player_to_game");
    reveal_strlit("player_auth");
    assert("game"@.len() == 4);
    assert("player_usernames"@.len() == 16);
    assert("team_draft"@.len() == 10);
    assert("game_code"@.len() == 9);
    assert("player_to_game"@.len() == 14);
    assert("player_auth"@.len() == 11);
    assert(standard_schemas().dom() =~= set![
        "game"@,
        "player_usernames"@,
        "team_draft"@,
        "game_code"@,
        "player_to_game"@,
        "player_auth"@,
    ]);
}

/// The key `name::id` of one of the indexes.
pub open spec fn index_key_text(name: Seq<char>, id: Seq<char>) -> Seq<char> {
    name + separator() + id
}

/// The key of two segments is the two with a separator between them.
proof fn lemma_key_of_two(a: Seq<char>, b: Seq<char>)
    ensures
        key_of(seq![a, b]) == a + separator() + b,
{
    let both = seq![a, b];
    assert(both.drop_last() =~= seq![a]);
    assert(key_of(seq![a]) == a);
    assert(both.last() == b);
}

/// The key of three segments is the three with separators between them.
proof fn lemma_key_of_three(a: Seq<char>, b: Seq<char>, c: Seq<char>)
    ensures
        key_of(seq![a, b, c]) == a + separator() + b + separator() + c,
{
    let all = seq![a, b, c];
    assert(all.drop_last() =~= seq![a, b]);
    lemma_key_of_two(a, b);
    assert(all.last() == c);
}

/// What a builder for an index schema makes of one value.
proof fn lemma_index_builder(name: Seq<char>, field: Seq<char>, id: Seq<char>)
    ensures
        fresh_builder(index_schema(name, field)).after_field(id) is Some,
        fresh_builder(index_schema(name, field)).after_field(id).unwrap().finished() == Some(
            seq![name, id],
        ),
{
    let schema = index_schema(name, field);
    let b = fresh_builder(schema);
    reveal_with_fuel(BuilderView::filled, 3);
    let named = b.with_base_value(name);
    assert(b.filled() == named);
    assert(named.at_field());
    let next = named.with_base_value(id);
    assert(b.after_field(id) == Some(next));
    assert(next.filled() == next);
    assert(next.values =~= seq![name, id]);
}

/// The key that was made, where one was made.
fn made(r: Result<String, String>) -> (text: String)
    requires
        r is Ok,
    ensures
        text@ == r->Ok_0@,
{
    match r {
        Ok(text) => text,
        Err(text) => text,
    }
}

/// The key of an index: `name::id`, where `name` is the name of a registered
/// schema of the shape `name::<field>`.
fn index_key(name: &'static str, id: &str) -> (r: String)
    requires
        standard_schemas().contains_key(name@),
        exists|field: Seq<char>| standard_schemas()[name@] == index_schema(name@, field),
    ensures
        r@ == index_key_text(name@, id@),
{
    let mut values: Vec<&str> = Vec::new();
    values.push(id);
    proof {
        let field = choose|field: Seq<char>| standard_schemas()[name@] == index_schema(name@, field);
        lemma_index_builder(name@, field, id@);
        lemma_key_of_two(name@, id@);
        lemma_built_of(index_schema(name@, field), Seq::empty(), id@);
        assert(words(values@) =~= Seq::<Seq<char>>::empty().push(id@));
    }
    made(build_key(name, &values))
}

/// The key under which the id of the game with the code `code` is kept.
pub fn game_code_key(code: &str) -> (r: String)
    ensures
        r@ == index_key_text("game_code"@, code@),
{
    proof {
        lemma_schema_names();
        assert(set![
            "game"@,
            "player_usernames"@,
            "team_draft"@,
            "game_code"@,
            "player_to_game"@,
            "player_auth"@,
        ].contains("game_code"@));
    }
    index_key("game_code", code)
}

/// The key under which the id of the game with the code `code` is kept,
/// for a code as a player has written it: it is read in upper case.
pub fn written_code_key(code: &str) -> (r: String)
    ensures
        r@ == index_key_text("game_code"@, crate::text::uppercased(code@)),
{
    let upper = crate::text::to_upper(code);
    game_code_key(upper.as_str())
}

/// The key under which the id of the game that `player_id` is in is kept.
pub fn player_to_game_key(player_id: &str) -> (r: String)
    ensures
        r@ == index_key_text("player_to_game"@, player_id@),
{
    proof {
        lemma_schema_names();
        assert(set![
            "game"@,
            "player_usernames"@,
            "team_draft"@,
            "game_code"@,
            "player_to_game"@,
            "player_auth"@,
        ].contains("player_to_game"@));
    }
    index_key("player_to_game", player_id)
}

/// The key under which the token of `player_id` is kept.
pub fn player_auth_key(player_id: &str) -> (r: String)
    ensures
        r@ == index_key_text("player_auth"@, player_id@),
{
    proof {
        lemma_schema_names();
        assert(set![
            "game"@,
            "player_usernames"@,
            "team_draft"@,
            "game_code"@,
            "player_to_game"@,
            "player_auth"@,
        ].contains("player_auth"@));
    }
    index_key("player_auth", player_id)
}

/// The key under which the name of `player_id` is kept.
pub fn player_username_key(player_id: &str) -> (r: String)
    ensures
        r@ == index_key_text("player_usernames"@, player_id@),
{
    proof {
        lemma_schema_names();
        assert(set![
            "game"@,
            "player_usernames"@,
            "team_draft"@,
            "game_code"@,
            "player_to_game"@,
            "player_auth"@,
        ].contains("player_usernames"@));
    }
    index_key("player_usernames", player_id)
}

/// The paths below `n` that pass `test`, in order.
spec fn kept_below(test: spec_fn(int) -> bool, n: nat) -> Seq<int>
    decreases n,
{
    if n == 0 {
        Seq::empty()
    } else if test(n - 1) {
        kept_below(test, (n - 1) as nat).push(n - 1)
    } else {
        kept_below(test, (n - 1) as nat)
    }
}

proof fn lemma_kept_below(test: spec_fn(int) -> bool, n: nat)
    ensures
        Seq::new(n, |i: int| i).filter(test) == kept_below(test, n),
    decreases n,
{
    reveal(Seq::filter);
    let all = Seq::new(n, |i: int| i);
    if n > 0 {
        lemma_kept_below(test, (n - 1) as nat);
        assert(all.drop_last() =~= Seq::new((n - 1) as nat, |i: int| i));
        assert(all.last() == n - 1);
    }
}

proof fn lemma_filter_two(a: int, b: int, test: spec_fn(int) -> bool)
    ensures
        seq![a, b].filter(test) == if test(a) {
            if test(b) {
                seq![a, b]
            } else {
                seq![a]
            }
        } else {
            if test(b) {
                seq![b]
            } else {
                Seq::<int>::empty()
            }
        },
        seq![a].filter(test) == if test(a) {
            seq![a]
        } else {
            Seq::<int>::empty()
        },
{
    reveal(Seq::filter);
    let one = seq![a];
    let two = seq![a, b];
    assert(one.drop_last() =~= Seq::<int>::empty());
    assert(one.last() == a);
    assert(Seq::<int>::empty().filter(test) =~= Seq::<int>::empty());
    assert(one.filter(test) =~= if test(a) {
        seq![a]
    } else {
        Seq::<int>::empty()
    });
    assert(two.drop_last() =~= one);
    assert(two.last() == b);
    assert(two.filter(test) =~= if test(a) {
        if test(b) {
            seq![a, b]
        } else {
            seq![a]
        }
    } else {
        if test(b) {
            seq![b]
        } else {
            Seq::<int>::empty()
        }
    });
}

/// A fixed segment of one word takes that word and no other.
proof fn lemma_fixed_accepts(word: Seq<char>, value: Seq<char>)
    ensures
        accepts(fixed(word), value) <==> word == value,
{
    let allowed = seq![word];
    if word == value {
        assert(allowed[0] == value);
    }
}

/// The fields of a game that have a key of their own.
#[derive(Debug, Clone, Copy, PartialEq, Eq)]
pub enum GameField {
    HostId,
    Code,
    Players,
    MaxPlayers,
    CreatedAt,
}

/// The fields of a team draft that have a key of their own.
#[derive(Debug, Clone, Copy, PartialEq, Eq)]
pub enum DraftField {
    YapperId,
    YapperIndex,
    MaxRounds,
    Phase,
    PlayerPoints,
}

/// The fields of a round that have a key of their own.
#[derive(Debug, Clone, Copy, PartialEq, Eq)]
pub enum RoundField {
    Round,
    Pool,
    Competition,
    TeamSize,
    StartingDrafterId,
    CurrentDrafterId,
}

impl GameField {
    /// The word by which the field stands in a key.
    pub open spec fn word(self) -> Seq<char> {
        match self {
            GameField::HostId => "host_id"@,
            GameField::Code => "code"@,
            GameField::Players => "players"@,
            GameField::MaxPlayers => "max_players"@,
            GameField::CreatedAt => "created_at"@,
        }
    }

    /// The number of the field's path among the extensions of the schema.
    pub open spec fn path(self) -> int {
        match self {
            GameField::HostId => 0,
            GameField::Code => 1,
            GameField::Players => 2,
            GameField::MaxPlayers => 3,
            GameField::CreatedAt => 4,
        }
    }

    /// The word by which the field stands in a key.
    pub fn name(self) -> (r: &'static str)
        ensures
            r@ == self.word(),
    {
        match self {
            GameField::HostId => "host_id",
            GameField::Code => "code",
            GameField::Players => "players",
            GameField::MaxPlayers => "max_players",
            GameField::CreatedAt => "created_at",
        }
    }
}

impl DraftField {
    /// The word by which the field stands in a key.
    pub open spec fn word(self) -> Seq<char> {
        match self {
            DraftField::YapperId => "yapper_id"@,
            DraftField::YapperIndex => "yapper_index"@,
            DraftField::MaxRounds => "max_rounds"@,
            DraftField::Phase => "phase"@,
            DraftField::PlayerPoints => "player_points"@,
        }
    }

    /// The number of the field's path among the extensions of the schema.
    pub open spec fn path(self) -> int {
        match self {
            DraftField::YapperId => 0,
            DraftField::YapperIndex => 1,
            DraftField::MaxRounds => 2,
            DraftField::Phase => 3,
            DraftField::PlayerPoints => 4,
        }
    }

    /// The word by which the field stands in a key.
    pub fn name(self) -> (r: &'static str)
        ensures
            r@ == self.word(),
    {
        match self {
            DraftField::YapperId => "yapper_id",
            DraftField::YapperIndex => "yapper_index",
            DraftField::MaxRounds => "max_rounds",
            DraftField::Phase => "phase",
            DraftField::PlayerPoints => "player_points",
        }
    }
}

impl RoundField {
    /// The word by which the field stands in a key.
    pub open spec fn word(self) -> Seq<char> {
        match self {
            RoundField::Round => "round"@,
            RoundField::Pool => "pool"@,
            RoundField::Competition => "competition"@,
            RoundField::TeamSize => "team_size"@,
            RoundField::StartingDrafterId => "starting_drafter_id"@,
            RoundField::CurrentDrafterId => "current_drafter_id"@,
        }
    }

    /// The word by which the field stands in a key.
    pub fn name(self) -> (r: &'static str)
        ensures
            r@ == self.word(),
    {
        match self {
            RoundField::Round => "round",
            RoundField::Pool => "pool",
            RoundField::Competition => "competition",
            RoundField::TeamSize => "team_size",
            RoundField::StartingDrafterId => "starting_drafter_id",
            RoundField::CurrentDrafterId => "current_drafter_id",
        }
    }
}

/// The key of the field `field` of the game `game_id`.
pub open spec fn game_key_text(game_id: Seq<char>, field: GameField) -> Seq<char> {
    "game"@ + separator() + game_id + separator() + field.word()
}

/// The key of the field `field` of the team draft of the game `game_id`.
pub open spec fn draft_key_text(game_id: Seq<char>, field: DraftField) -> Seq<char> {
    "team_draft"@ + separator() + game_id + separator() + field.word()
}

/// The key of the field `field` of the round of the game `game_id`.
pub open spec fn round_key_text(game_id: Seq<char>, field: RoundField) -> Seq<char> {
    "team_draft"@ + separator() + game_id + separator() + "round"@ + separator() + field.word()
}

/// The key of what `player_id` has picked in the round of the game `game_id`.
pub open spec fn picks_key_text(game_id: Seq<char>, player_id: Seq<char>) -> Seq<char> {
    "team_draft"@ + separator() + game_id + separator() + "round"@ + separator()
        + "player_to_picks"@ + separator() + player_id
}

/// What every key of the game `game_id` begins with.
pub open spec fn game_prefix_text(game_id: Seq<char>) -> Seq<char> {
    "game"@ + separator() + game_id
}

/// What every key of the team draft of the game `game_id` begins with.
pub open spec fn draft_prefix_text(game_id: Seq<char>) -> Seq<char> {
    "team_draft"@ + separator() + game_id
}

/// The words of the fields of a game are five different words.
proof fn lemma_game_words(field: GameField, path: int)
    requires
        0 <= path < 5,
    ensures
        game_schema().allowed_extensions.len() == 5,
        path_accepts(game_schema(), path, 0, field.word()) <==> path == field.path(),
        game_schema().allowed_extensions[field.path()] == seq![fixed(field.word())],
{
    reveal_strlit("host_id");
    reveal_strlit("code");
    reveal_strlit("players");
    reveal_strlit("max_players");
    reveal_strlit("created_at");
    let word = field.word();
    lemma_fixed_accepts("host_id"@, word);
    lemma_fixed_accepts("code"@, word);
    lemma_fixed_accepts("players"@, word);
    lemma_fixed_accepts("max_players"@, word);
    lemma_fixed_accepts("created_at"@, word);
    assert("host_id"@.len() == 7 && "host_id"@[0] == 'h');
    assert("code"@.len() == 4);
    assert("players"@.len() == 7 && "players"@[0] == 'p');
    assert("max_players"@.len() == 11);
    assert("created_at"@.len() == 10);
}

/// What a builder for the keys of a game makes of an id and a field.
proof fn lemma_game_builder(game_id: Seq<char>, field: GameField)
    ensures
        fresh_builder(game_schema()).after_field(game_id) is Some,
        fresh_builder(game_schema()).after_field(game_id).unwrap().wf(),
        fresh_builder(game_schema()).after_field(game_id).unwrap().finished() == Some(
            seq!["game"@, game_id],
        ),
        fresh_builder(game_schema()).after_field(game_id).unwrap().after_field(field.word())
            is Some,
        fresh_builder(game_schema()).after_field(game_id).unwrap().after_field(
            field.word(),
        ).unwrap().finished() == Some(seq!["game"@, game_id, field.word()]),
{
    let schema = game_schema();
    let b = fresh_builder(schema);
    reveal_with_fuel(BuilderView::filled, 3);
    let named = b.with_base_value("game"@);
    assert(b.filled() == named);
    let based = named.with_base_value(game_id);
    assert(b.after_field(game_id) == Some(based));
    assert(based.filled() == based);
    assert(based.values =~= seq!["game"@, game_id]);
    assert(based.candidates =~= Seq::new(5, |i: int| i));
    let word = field.word();
    let test = matcher(schema, 0, word);
    lemma_kept_below(test, 5);
    lemma_game_words(field, 0);
    lemma_game_words(field, 1);
    lemma_game_words(field, 2);
    lemma_game_words(field, 3);
    lemma_game_words(field, 4);
    reveal_with_fuel(kept_below, 6);
    assert(kept_below(test, 5) =~= seq![field.path()]);
    assert(based.pruned(word) == seq![field.path()]);
    let last = based.with_extension_value(word);
    assert(based.after_field(word) == Some(last));
    assert(last.filled() == last);
    assert(last.values =~= seq!["game"@, game_id, word]);
    assert(last.path() == seq![fixed(word)]);
    assert(!(exists|i: int| last.open_field(i)));
}

/// The key of the field `field` of the game `game_id`.
pub fn game_key(game_id: &str, field: GameField) -> (r: String)
    ensures
        r@ == game_key_text(game_id@, field),
{
    let mut values: Vec<&str> = Vec::new();
    values.push(game_id);
    values.push(field.name());
    proof {
        lemma_schema_names();
        lemma_game_builder(game_id@, field);
        lemma_key_of_three("game"@, game_id@, field.word());
        let none = Seq::<Seq<char>>::empty();
        lemma_built_of(game_schema(), none, game_id@);
        lemma_built_of(game_schema(), none.push(game_id@), field.word());
        assert(words(values@) =~= none.push(game_id@).push(field.word()));
    }
    made(build_key("game", &values))
}

/// What every key of the game `game_id` begins with.
pub fn game_prefix(game_id: &str) -> (r: String)
    ensures
        r@ == game_prefix_text(game_id@),
{
    let mut values: Vec<&str> = Vec::new();
    values.push(game_id);
    proof {
        lemma_schema_names();
        lemma_game_builder(game_id@, GameField::Code);
        lemma_key_of_two("game"@, game_id@);
        let none = Seq::<Seq<char>>::empty();
        lemma_built_of(game_schema(), none, game_id@);
        assert(words(values@) =~= none.push(game_id@));
    }
    made(build_key("game", &values))
}

/// The key of four segments is the four with separators between them.
proof fn lemma_key_of_four(a: Seq<char>, b: Seq<char>, c: Seq<char>, d: Seq<char>)
    ensures
        key_of(seq![a, b, c, d]) == a + separator() + b + separator() + c + separator() + d,
{
    let all = seq![a, b, c, d];
    assert(all.drop_last() =~= seq![a, b, c]);
    lemma_key_of_three(a, b, c);
    assert(all.last() == d);
}

/// The key of five segments is the five with separators between them.
proof fn lemma_key_of_five(a: Seq<char>, b: Seq<char>, c: Seq<char>, d: Seq<char>, e: Seq<char>)
    ensures
        key_of(seq![a, b, c, d, e]) == a + separator() + b + separator() + c + separator() + d
            + separator() + e,
{
    let all = seq![a, b, c, d, e];
    assert(all.drop_last() =~= seq![a, b, c, d]);
    lemma_key_of_four(a, b, c, d);
    assert(all.last() == e);
}

/// Which paths of the schema of a team draft take which word first.
proof fn lemma_draft_words(field: DraftField, path: int)
    requires
        0 <= path < 7,
    ensures
        team_draft_schema().allowed_extensions.len() == 7,
        path_accepts(team_draft_schema(), path, 0, field.word()) <==> path == field.path(),
        path_accepts(team_draft_schema(), path, 0, "round"@) <==> (path == 5 || path == 6),
        team_draft_schema().allowed_extensions[field.path()] == seq![fixed(field.word())],
{
    reveal_strlit("yapper_id");
    reveal_strlit("yapper_index");
    reveal_strlit("max_rounds");
    reveal_strlit("phase");
    reveal_strlit("player_points");
    reveal_strlit("round");
    let word = field.word();
    lemma_fixed_accepts("yapper_id"@, word);
    lemma_fixed_accepts("yapper_index"@, word);
    lemma_fixed_accepts("max_rounds"@, word);
    lemma_fixed_accepts("phase"@, word);
    lemma_fixed_accepts("player_points"@, word);
    lemma_fixed_accepts("round"@, word);
    lemma_fixed_accepts("yapper_id"@, "round"@);
    lemma_fixed_accepts("yapper_index"@, "round"@);
    lemma_fixed_accepts("max_rounds"@, "round"@);
    lemma_fixed_accepts("phase"@, "round"@);
    lemma_fixed_accepts("player_points"@, "round"@);
    lemma_fixed_accepts("round"@, "round"@);
    assert("yapper_id"@.len() == 9);
    assert("yapper_index"@.len() == 12);
    assert("max_rounds"@.len() == 10);
    assert("phase"@.len() == 5 && "phase"@[0] == 'p');
    assert("player_points"@.len() == 13);
    assert("round"@.len() == 5 && "round"@[0] == 'r');
}

/// Which of the two paths under `round` take which word second.
proof fn lemma_round_words(field: RoundField)
    ensures
        path_accepts(team_draft_schema(), 5, 1, field.word()),
        !path_accepts(team_draft_schema(), 6, 1, field.word()),
        !path_accepts(team_draft_schema(), 5, 1, "player_to_picks"@),
        path_accepts(team_draft_schema(), 6, 1, "player_to_picks"@),
        team_draft_schema().allowed_extensions[5].len() == 2,
        team_draft_schema().allowed_extensions[6].len() == 3,
        team_draft_schema().allowed_extensions[6][2] is Field,
        !(team_draft_schema().allowed_extensions[5][0] is Field),
        !(team_draft_schema().allowed_extensions[5][1] is Field),
{
    reveal_strlit("round");
    reveal_strlit("pool");
    reveal_strlit("competition");
    reveal_strlit("team_size");
    reveal_strlit("starting_drafter_id");
    reveal_strlit("current_drafter_id");
    reveal_strlit("player_to_picks");
    let fields = round_fields();
    let word = field.word();
    lemma_fixed_accepts("player_to_picks"@, word);
    lemma_fixed_accepts("player_to_picks"@, "player_to_picks"@);
    assert("round"@.len() == 5);
    assert("pool"@.len() == 4);
    assert("competition"@.len() == 11);
    assert("team_size"@.len() == 9);
    assert("starting_drafter_id"@.len() == 19);
    assert("current_drafter_id"@.len() == 18);
    assert("player_to_picks"@.len() == 15);
    assert(fields[0] == "round"@ && fields[1] == "pool"@ && fields[2] == "competition"@
        && fields[3] == "team_size"@ && fields[4] == "starting_drafter_id"@ && fields[5]
        == "current_drafter_id"@);
    assert(fields.contains(word));
    assert(!fields.contains("player_to_picks"@)) by {
        if fields.contains("player_to_picks"@) {
            let i = choose|i: int| 0 <= i < fields.len() && fields[i] == "player_to_picks"@;
            assert(fields[i].len() == 15);
        }
    }
}

/// The builder for the keys of a team draft after the game's id.
spec fn draft_based(game_id: Seq<char>) -> BuilderView {
    fresh_builder(team_draft_schema()).after_field(game_id).unwrap()
}

/// The builder for the keys of a team draft after the game's id and `round`.
spec fn round_based(game_id: Seq<char>) -> BuilderView {
    draft_based(game_id).after_field("round"@).unwrap()
}

/// What a builder for the keys of a team draft makes of an id.
proof fn lemma_draft_based(game_id: Seq<char>)
    ensures
        fresh_builder(team_draft_schema()).after_field(game_id) is Some,
        draft_based(game_id).wf(),
        draft_based(game_id).filled() == draft_based(game_id),
        draft_based(game_id).schema == team_draft_schema(),
        draft_based(game_id).values == seq!["team_draft"@, game_id],
        draft_based(game_id).candidates == Seq::new(7, |i: int| i),
        draft_based(game_id).extension_segment == 0,
        !draft_based(game_id).in_extensions,
        !draft_based(game_id).at_field(),
        draft_based(game_id).finished() == Some(seq!["team_draft"@, game_id]),
{
    let schema = team_draft_schema();
    let b = fresh_builder(schema);
    reveal_with_fuel(BuilderView::filled, 3);
    let named = b.with_base_value("team_draft"@);
    assert(b.filled() == named);
    let based = named.with_base_value(game_id);
    assert(b.after_field(game_id) == Some(based));
    assert(based.filled() == based);
    assert(based.values =~= seq!["team_draft"@, game_id]);
    assert(based.candidates =~= Seq::new(7, |i: int| i));
}

/// What a builder for the keys of a team draft makes of an id and a field.
proof fn lemma_draft_builder(game_id: Seq<char>, field: DraftField)
    ensures
        draft_based(game_id).after_field(field.word()) is Some,
        draft_based(game_id).after_field(field.word()).unwrap().finished() == Some(
            seq!["team_draft"@, game_id, field.word()],
        ),
{
    let schema = team_draft_schema();
    lemma_draft_based(game_id);
    let based = draft_based(game_id);
    let word = field.word();
    let test = matcher(schema, 0, word);
    lemma_kept_below(test, 7);
    lemma_draft_words(field, 0);
    lemma_draft_words(field, 1);
    lemma_draft_words(field, 2);
    lemma_draft_words(field, 3);
    lemma_draft_words(field, 4);
    lemma_draft_words(field, 5);
    lemma_draft_words(field, 6);
    reveal_with_fuel(kept_below, 8);
    assert(kept_below(test, 7) =~= seq![field.path()]);
    assert(based.pruned(word) == seq![field.path()]);
    let last = based.with_extension_value(word);
    assert(based.after_field(word) == Some(last));
    assert(last.filled() == last);
    assert(last.values =~= seq!["team_draft"@, game_id, word]);
    assert(last.path() == seq![fixed(word)]);
    assert(!(exists|i: int| last.open_field(i)));
}

/// What a builder for the keys of a team draft makes of an id and `round`.
proof fn lemma_round_based(game_id: Seq<char>)
    ensures
        draft_based(game_id).after_field("round"@) is Some,
        round_based(game_id).wf(),
        round_based(game_id).filled() == round_based(game_id),
        round_based(game_id).schema == team_draft_schema(),
        round_based(game_id).values == seq!["team_draft"@, game_id, "round"@],
        round_based(game_id).candidates == seq![5int, 6int],
        round_based(game_id).extension_segment == 1,
        round_based(game_id).in_extensions,
{
    let schema = team_draft_schema();
    lemma_draft_based(game_id);
    let based = draft_based(game_id);
    let test = matcher(schema, 0, "round"@);
    lemma_kept_below(test, 7);
    lemma_draft_words(DraftField::Phase, 0);
    lemma_draft_words(DraftField::Phase, 1);
    lemma_draft_words(DraftField::Phase, 2);
    lemma_draft_words(DraftField::Phase, 3);
    lemma_draft_words(DraftField::Phase, 4);
    lemma_draft_words(DraftField::Phase, 5);
    lemma_draft_words(DraftField::Phase, 6);
    reveal_with_fuel(kept_below, 8);
    assert(kept_below(test, 7) =~= seq![5int, 6int]);
    assert(based.pruned("round"@) == seq![5int, 6int]);
    let next = based.with_extension_value("round"@);
    assert(based.after_field("round"@) == Some(next));
    assert(next.filled() == next);
    assert(next.values =~= seq!["team_draft"@, game_id, "round"@]);
    lemma_round_words(RoundField::Pool);
}

/// What a builder for the keys of a team draft makes of an id, `round` and a
/// field of the round.
proof fn lemma_round_builder(game_id: Seq<char>, field: RoundField)
    ensures
        round_based(game_id).after_field(field.word()) is Some,
        round_based(game_id).after_field(field.word()).unwrap().finished() == Some(
            seq!["team_draft"@, game_id, "round"@, field.word()],
        ),
{
    let schema = team_draft_schema();
    lemma_round_based(game_id);
    let based = round_based(game_id);
    let word = field.word();
    let test = matcher(schema, 1, word);
    lemma_round_words(field);
    lemma_filter_two(5, 6, test);
    assert(based.pruned(word) == seq![5int]);
    let last = based.with_extension_value(word);
    assert(based.after_field(word) == Some(last));
    assert(last.filled() == last);
    assert(last.values =~= seq!["team_draft"@, game_id, "round"@, word]);
    assert(last.path() == schema.allowed_extensions[5]);
    assert(!(exists|i: int| last.open_field(i)));
}

/// What a builder for the keys of a team draft makes of an id, `round`,
/// `player_to_picks` and the id of a player.
proof fn lemma_picks_builder(game_id: Seq<char>, player_id: Seq<char>)
    ensures
        round_based(game_id).after_field("player_to_picks"@) is Some,
        round_based(game_id).after_field("player_to_picks"@).unwrap().wf(),
        round_based(game_id).after_field("player_to_picks"@).unwrap().after_field(player_id)
            is Some,
        round_based(game_id).after_field("player_to_picks"@).unwrap().after_field(
            player_id,
        ).unwrap().finished() == Some(
            seq!["team_draft"@, game_id, "round"@, "player_to_picks"@, player_id],
        ),
{
    let schema = team_draft_schema();
    lemma_round_based(game_id);
    let based = round_based(game_id);
    let word = "player_to_picks"@;
    lemma_round_words(RoundField::Pool);
    lemma_filter_two(5, 6, matcher(schema, 1, word));
    assert(based.pruned(word) == seq![6int]);
    let named = based.with_extension_value(word);
    assert(based.after_field(word) == Some(named));
    assert(named.filled() == named);
    assert(named.values =~= seq!["team_draft"@, game_id, "round"@, word]);
    lemma_filter_two(6, 6, matcher(schema, 2, player_id));
    assert(path_accepts(schema, 6, 2, player_id));
    assert(named.pruned(player_id) == seq![6int]);
    let last = named.with_extension_value(player_id);
    assert(named.after_field(player_id) == Some(last));
    assert(last.filled() == last);
    assert(last.values =~= seq!["team_draft"@, game_id, "round"@, word, player_id]);
    assert(last.path() == schema.allowed_extensions[6]);
    assert(!(exists|i: int| last.open_field(i)));
}

/// What every key of the team draft of the game `game_id` begins with.
pub fn draft_prefix(game_id: &str) -> (r: String)
    ensures
        r@ == draft_prefix_text(game_id@),
{
    let mut values: Vec<&str> = Vec::new();
    values.push(game_id);
    proof {
        lemma_schema_names();
        lemma_draft_based(game_id@);
        lemma_key_of_two("team_draft"@, game_id@);
        let none = Seq::<Seq<char>>::empty();
        lemma_built_of(team_draft_schema(), none, game_id@);
        assert(words(values@) =~= none.push(game_id@));
    }
    made(build_key("team_draft", &values))
}

/// The key of the field `field` of the team draft of the game `game_id`.
pub fn draft_key(game_id: &str, field: DraftField) -> (r: String)
    ensures
        r@ == draft_key_text(game_id@, field),
{
    let mut values: Vec<&str> = Vec::new();
    values.push(game_id);
    values.push(field.name());
    proof {
        lemma_schema_names();
        lemma_draft_based(game_id@);
        lemma_draft_builder(game_id@, field);
        lemma_key_of_three("team_draft"@, game_id@, field.word());
        let none = Seq::<Seq<char>>::empty();
        lemma_built_of(team_draft_schema(), none, game_id@);
        lemma_built_of(team_draft_schema(), none.push(game_id@), field.word());
        assert(words(values@) =~= none.push(game_id@).push(field.word()));
    }
    made(build_key("team_draft", &values))
}

/// The key of the field `field` of the round of the game `game_id`.
pub fn round_key(game_id: &str, field: RoundField) -> (r: String)
    ensures
        r@ == round_key_text(game_id@, field),
{
    let mut values: Vec<&str> = Vec::new();
    values.push(game_id);
    values.push("round");
    values.push(field.name());
    proof {
        lemma_schema_names();
        lemma_draft_based(game_id@);
        lemma_round_based(game_id@);
        lemma_round_builder(game_id@, field);
        lemma_key_of_four("team_draft"@, game_id@, "round"@, field.word());
        let none = Seq::<Seq<char>>::empty();
        let one = none.push(game_id@);
        let two = one.push("round"@);
        lemma_built_of(team_draft_schema(), none, game_id@);
        lemma_built_of(team_draft_schema(), one, "round"@);
        lemma_built_of(team_draft_schema(), two, field.word());
        assert(words(values@) =~= two.push(field.word()));
    }
    made(build_key("team_draft", &values))
}

/// The key of what `player_id` has picked in the round of the game
/// `game_id`.
pub fn picks_key(game_id: &str, player_id: &str) -> (r: String)
    ensures
        r@ == picks_key_text(game_id@, player_id@),
{
    let mut values: Vec<&str> = Vec::new();
    values.push(game_id);
    values.push("round");
    values.push("player_to_picks");
    values.push(player_id);
    proof {
        lemma_schema_names();
        lemma_draft_based(game_id@);
        lemma_round_based(game_id@);
        lemma_picks_builder(game_id@, player_id@);
        lemma_key_of_five("team_draft"@, game_id@, "round"@, "player_to_picks"@, player_id@);
        let none = Seq::<Seq<char>>::empty();
        let one = none.push(game_id@);
        let two = one.push("round"@);
        let three = two.push("player_to_picks"@);
        lemma_built_of(team_draft_schema(), none, game_id@);
        lemma_built_of(team_draft_schema(), one, "round"@);
        lemma_built_of(team_draft_schema(), two, "player_to_picks"@);
        lemma_built_of(team_draft_schema(), three, player_id@);
        assert(words(values@) =~= three.push(player_id@));
    }
    made(build_key("team_draft", &values))
}

} // verus!
