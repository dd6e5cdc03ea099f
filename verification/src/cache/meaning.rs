use crate::cache::key_builder::separator;
use crate::cache::layout::{
    draft_key_text, draft_prefix_text, game_key_text, game_prefix_text, index_key_text,
    picks_key_text, round_key_text, DraftField, GameField, RoundField,
};
use crate::cache::store::{
    below, draft_fields_written, draft_written, game_struck, game_written, list_written,
    phase_text, picks_written, player_struck, player_written, points_written, StoreOpView,
};
use crate::cache::stored::{
    draft_kept, game_kept, kept, lemma_phase_round_trip, picks_kept, points_kept, StoredDraft,
    StoredGame,
};
use crate::error::ErrorResponseView;
use crate::game::types::{GameView, PlayerView};
use crate::team_draft::state::picks_of;
use crate::team_draft::types::{TeamDraftState, TeamDraftView};
use crate::text::{decimal, lemma_signed_round_trip, lemma_unsigned_round_trip, signed_decimal};
use vstd::prelude::*;

verus! {

// ---------------------------------------------------------------------------
// What the commands mean
// ---------------------------------------------------------------------------
/// What a store keeps under one key: a text, a list or a table.
pub ghost enum Kept {
    Text(Seq<char>),
    List(Seq<Seq<char>>),
    Table(Map<Seq<char>, Seq<char>>),
}

/// The text under `key`, if there is one.
pub open spec fn text_at(store: Map<Seq<char>, Kept>, key: Seq<char>) -> Option<Seq<char>> {
    if store.contains_key(key) && store[key] is Text {
        Some(store[key]->Text_0)
    } else {
        None
    }
}

/// The list under `key`; the empty list where there is none.
pub open spec fn list_at(store: Map<Seq<char>, Kept>, key: Seq<char>) -> Seq<Seq<char>> {
    if store.contains_key(key) && store[key] is List {
        store[key]->List_0
    } else {
        Seq::empty()
    }
}

/// The table under `key`; the empty table where there is none.
pub open spec fn table_at(store: Map<Seq<char>, Kept>, key: Seq<char>) -> Map<Seq<char>, Seq<char>> {
    if store.contains_key(key) && store[key] is Table {
        store[key]->Table_0
    } else {
        Map::empty()
    }
}

/// Whether `pattern` ends in a star and `key` begins with what stands
/// before the star.
pub open spec fn is_matched(pattern: Seq<char>, key: Seq<char>) -> bool {
    pattern.len() >= 1 && pattern.last() == '*' && pattern.drop_last().is_prefix_of(key)
}

/// The keys that `pattern` matches.
pub open spec fn matched(pattern: Seq<char>) -> Set<Seq<char>> {
    Set::new(|key: Seq<char>| is_matched(pattern, key))
}

/// The list without the first occurrence of `value`.
pub open spec fn without_first(list: Seq<Seq<char>>, value: Seq<char>) -> Seq<Seq<char>> {
    if list.contains(value) {
        list.remove(list.index_of(value))
    } else {
        list
    }
}

/// The store after one command is carried out.
pub open spec fn carried_out(store: Map<Seq<char>, Kept>, op: StoreOpView) -> Map<Seq<char>, Kept> {
    match op {
        StoreOpView::Put { key, value } => store.insert(key, Kept::Text(value)),
        StoreOpView::Delete { key } => store.remove(key),
        StoreOpView::Push { key, value } => store.insert(
            key,
            Kept::List(list_at(store, key).push(value)),
        ),
        StoreOpView::Pull { key, value } => store.insert(
            key,
            Kept::List(without_first(list_at(store, key), value)),
        ),
        StoreOpView::PutField { key, field, value } => store.insert(
            key,
            Kept::Table(table_at(store, key).insert(field, value)),
        ),
        StoreOpView::DeleteMatching { pattern } => store.remove_keys(matched(pattern)),
    }
}

/// The store after the commands are carried out, one after the other.
pub open spec fn all_carried_out(store: Map<Seq<char>, Kept>, ops: Seq<StoreOpView>) -> Map<
    Seq<char>,
    Kept,
>
    decreases ops.len(),
{
    if ops.len() == 0 {
        store
    } else {
        carried_out(all_carried_out(store, ops.drop_last()), ops.last())
    }
}

/// Commands that are carried out one list after the other are carried out
/// as one list.
pub proof fn lemma_carried_out_in_turn(
    store: Map<Seq<char>, Kept>,
    first: Seq<StoreOpView>,
    then: Seq<StoreOpView>,
)
    ensures
        all_carried_out(store, first + then) == all_carried_out(
            all_carried_out(store, first),
            then,
        ),
    decreases then.len(),
{
    if then.len() == 0 {
        assert(first + then =~= first);
    } else {
        lemma_carried_out_in_turn(store, first, then.drop_last());
        assert((first + then).drop_last() =~= first + then.drop_last());
        assert((first + then).last() == then.last());
    }
}

/// One command more is carried out after the others.
pub proof fn lemma_carried_out_last(store: Map<Seq<char>, Kept>, ops: Seq<StoreOpView>, op: StoreOpView)
    ensures
        all_carried_out(store, ops.push(op)) == carried_out(all_carried_out(store, ops), op),
        all_carried_out(store, Seq::empty()) == store,
{
    assert(ops.push(op).drop_last() =~= ops);
    assert(ops.push(op).last() == op);
}


// ---------------------------------------------------------------------------
// The keys of a team draft do not get in each other's way
// ---------------------------------------------------------------------------
/// The places at which something of a team draft is kept: a field of the
/// state, a field of the round, and what a player has picked.
pub ghost enum DraftPlace {
    Field(DraftField),
    Round(RoundField),
    Picks(Seq<char>),
}

/// The key of a place in the team draft of the game `game_id`.
pub open spec fn place_key(game_id: Seq<char>, place: DraftPlace) -> Seq<char> {
    match place {
        DraftPlace::Field(field) => draft_key_text(game_id, field),
        DraftPlace::Round(field) => round_key_text(game_id, field),
        DraftPlace::Picks(player_id) => picks_key_text(game_id, player_id),
    }
}

/// What follows the game's own beginning in the key of a place.
pub open spec fn place_tail(place: DraftPlace) -> Seq<char> {
    match place {
        DraftPlace::Field(field) => field.word(),
        DraftPlace::Round(field) => "round"@ + separator() + field.word(),
        DraftPlace::Picks(player_id) => "round"@ + separator() + "player_to_picks"@ + separator()
            + player_id,
    }
}

/// Two texts that go on differently after the same beginning are different.
pub proof fn lemma_same_beginning(beginning: Seq<char>, a: Seq<char>, b: Seq<char>)
    requires
        beginning + a == beginning + b,
    ensures
        a == b,
{
    assert(a =~= (beginning + a).skip(beginning.len() as int));
    assert(b =~= (beginning + b).skip(beginning.len() as int));
}

/// The key of a place is the game's own beginning and the tail of the place,
/// and the pattern for everything below the team draft matches it.
pub proof fn lemma_place_key(game_id: Seq<char>, place: DraftPlace)
    ensures
        place_key(game_id, place) == draft_prefix_text(game_id) + separator() + place_tail(place),
        is_matched(below(draft_prefix_text(game_id)), place_key(game_id, place)),
{
    reveal_strlit("::*");
    reveal_strlit("::");
    let beginning = draft_prefix_text(game_id) + separator();
    let key = place_key(game_id, place);
    assert(key =~= beginning + place_tail(place));
    let pattern = below(draft_prefix_text(game_id));
    assert(pattern.drop_last() =~= beginning);
    assert(key.subrange(0, beginning.len() as int) =~= beginning);
}

/// Different places have different tails.
pub proof fn lemma_tails_differ(a: DraftPlace, b: DraftPlace)
    requires
        place_tail(a) == place_tail(b),
    ensures
        a == b,
{
    reveal_strlit("::");
    reveal_strlit("round");
    reveal_strlit("player_to_picks");
    reveal_strlit("yapper_id");
    reveal_strlit("yapper_index");
    reveal_strlit("max_rounds");
    reveal_strlit("phase");
    reveal_strlit("player_points");
    reveal_strlit("pool");
    reveal_strlit("competition");
    reveal_strlit("team_size");
    reveal_strlit("starting_drafter_id");
    reveal_strlit("current_drafter_id");
    let ta = place_tail(a);
    let tb = place_tail(b);
    let round = "round"@ + separator();
    assert(round.len() == 7);
    assert("yapper_id"@.len() == 9);
    assert("yapper_index"@.len() == 12 && "yapper_index"@[0] == 'y');
    assert("max_rounds"@.len() == 10);
    assert("phase"@.len() == 5);
    assert("player_points"@.len() == 13);
    assert("round"@.len() == 5 && "round"@[0] == 'r');
    assert("pool"@.len() == 4);
    assert("competition"@.len() == 11);
    assert("team_size"@.len() == 9);
    assert("starting_drafter_id"@.len() == 19 && "starting_drafter_id"@[0] == 's');
    assert("current_drafter_id"@.len() == 18 && "current_drafter_id"@[0] == 'c');
    assert("player_to_picks"@.len() == 15 && "player_to_picks"@[0] == 'p');
    match (a, b) {
        (DraftPlace::Field(x), DraftPlace::Field(y)) => {},
        (DraftPlace::Round(x), DraftPlace::Round(y)) => {
            lemma_same_beginning(round, x.word(), y.word());
        },
        (DraftPlace::Picks(x), DraftPlace::Picks(y)) => {
            let before = "round"@ + separator() + "player_to_picks"@ + separator();
            lemma_same_beginning(before, x, y);
        },
        (DraftPlace::Field(x), DraftPlace::Round(y)) => {
            assert(tb.len() == 7 + y.word().len());
            assert(tb[0] == 'r');
        },
        (DraftPlace::Round(x), DraftPlace::Field(y)) => {
            assert(ta.len() == 7 + x.word().len());
            assert(ta[0] == 'r');
        },
        (DraftPlace::Field(x), DraftPlace::Picks(y)) => {
            assert(tb.len() == 24 + y.len());
        },
        (DraftPlace::Picks(x), DraftPlace::Field(y)) => {
            assert(ta.len() == 24 + x.len());
        },
        (DraftPlace::Round(x), DraftPlace::Picks(y)) => {
            assert(ta.len() == 7 + x.word().len());
            assert(tb.len() == 24 + y.len());
            assert(ta[7] == x.word()[0]);
            assert(tb[7] == 'p');
        },
        (DraftPlace::Picks(x), DraftPlace::Round(y)) => {
            assert(tb.len() == 7 + y.word().len());
            assert(ta.len() == 24 + x.len());
            assert(tb[7] == y.word()[0]);
            assert(ta[7] == 'p');
        },
    }
}

/// Different places of the team draft of a game have different keys.
pub proof fn lemma_places_differ(game_id: Seq<char>, a: DraftPlace, b: DraftPlace)
    requires
        place_key(game_id, a) == place_key(game_id, b),
    ensures
        a == b,
{
    lemma_place_key(game_id, a);
    lemma_place_key(game_id, b);
    lemma_same_beginning(
        draft_prefix_text(game_id) + separator(),
        place_tail(a),
        place_tail(b),
    );
    lemma_tails_differ(a, b);
}


// ---------------------------------------------------------------------------
// What is written of a team draft, and where it is found
// ---------------------------------------------------------------------------
/// The text that stands for a field of the state or of the round; no text
/// stands for the table of points or for a player's picks.
pub open spec fn text_of_place(state: TeamDraftView, place: DraftPlace) -> Option<Seq<char>> {
    match place {
        DraftPlace::Field(DraftField::YapperId) => Some(state.yapper_id),
        DraftPlace::Field(DraftField::YapperIndex) => Some(decimal(state.yapper_index)),
        DraftPlace::Field(DraftField::MaxRounds) => Some(decimal(state.max_rounds)),
        DraftPlace::Field(DraftField::Phase) => Some(phase_text(state.phase)),
        DraftPlace::Field(DraftField::PlayerPoints) => None,
        DraftPlace::Round(RoundField::Round) => Some(decimal(state.round_data.round)),
        DraftPlace::Round(RoundField::TeamSize) => Some(decimal(state.round_data.team_size)),
        DraftPlace::Round(RoundField::Pool) => Some(state.round_data.pool),
        DraftPlace::Round(RoundField::Competition) => Some(state.round_data.competition),
        DraftPlace::Round(RoundField::StartingDrafterId) => Some(
            state.round_data.starting_drafter_id,
        ),
        DraftPlace::Round(RoundField::CurrentDrafterId) => Some(
            state.round_data.current_drafter_id,
        ),
        DraftPlace::Picks(_) => None,
    }
}

/// Where the keys of two places are the same, the places are.
proof fn lemma_other_place(game_id: Seq<char>, a: DraftPlace, b: DraftPlace)
    ensures
        a != b ==> place_key(game_id, a) != place_key(game_id, b),
{
    if place_key(game_id, a) == place_key(game_id, b) {
        lemma_places_differ(game_id, a, b);
    }
}

/// After the fields of a team draft are written down, every field is found
/// under its key, and nothing is left of the table of points and of the
/// picks that were kept before.
pub proof fn lemma_fields_are_kept(
    before: Map<Seq<char>, Kept>,
    game_id: Seq<char>,
    state: TeamDraftView,
    place: DraftPlace,
)
    ensures
        ({
            let after = all_carried_out(before, draft_fields_written(game_id, state));
            let key = place_key(game_id, place);
            match text_of_place(state, place) {
                Some(text) => after.contains_key(key) && after[key] == Kept::Text(text),
                None => !after.contains_key(key),
            }
        }),
{
    let ops = draft_fields_written(game_id, state);
    let key = place_key(game_id, place);
    let none = Seq::<StoreOpView>::empty();
    let o0 = none.push(ops[0]);
    let o1 = o0.push(ops[1]);
    let o2 = o1.push(ops[2]);
    let o3 = o2.push(ops[3]);
    let o4 = o3.push(ops[4]);
    let o5 = o4.push(ops[5]);
    let o6 = o5.push(ops[6]);
    let o7 = o6.push(ops[7]);
    let o8 = o7.push(ops[8]);
    let o9 = o8.push(ops[9]);
    let o10 = o9.push(ops[10]);
    assert(ops =~= o10);
    lemma_carried_out_last(before, none, ops[0]);
    lemma_carried_out_last(before, o0, ops[1]);
    lemma_carried_out_last(before, o1, ops[2]);
    lemma_carried_out_last(before, o2, ops[3]);
    lemma_carried_out_last(before, o3, ops[4]);
    lemma_carried_out_last(before, o4, ops[5]);
    lemma_carried_out_last(before, o5, ops[6]);
    lemma_carried_out_last(before, o6, ops[7]);
    lemma_carried_out_last(before, o7, ops[8]);
    lemma_carried_out_last(before, o8, ops[9]);
    lemma_carried_out_last(before, o9, ops[10]);
    lemma_place_key(game_id, place);
    let cleared = all_carried_out(before, o0);
    assert(!cleared.contains_key(key));
    lemma_other_place(game_id, place, DraftPlace::Field(DraftField::YapperId));
    lemma_other_place(game_id, place, DraftPlace::Field(DraftField::YapperIndex));
    lemma_other_place(game_id, place, DraftPlace::Field(DraftField::MaxRounds));
    lemma_other_place(game_id, place, DraftPlace::Field(DraftField::Phase));
    lemma_other_place(game_id, place, DraftPlace::Round(RoundField::Round));
    lemma_other_place(game_id, place, DraftPlace::Round(RoundField::TeamSize));
    lemma_other_place(game_id, place, DraftPlace::Round(RoundField::Pool));
    lemma_other_place(game_id, place, DraftPlace::Round(RoundField::Competition));
    lemma_other_place(game_id, place, DraftPlace::Round(RoundField::StartingDrafterId));
    lemma_other_place(game_id, place, DraftPlace::Round(RoundField::CurrentDrafterId));
}


/// Whether two stores keep the same under `key`.
pub open spec fn same_at(a: Map<Seq<char>, Kept>, b: Map<Seq<char>, Kept>, key: Seq<char>) -> bool {
    a.contains_key(key) == b.contains_key(key) && (a.contains_key(key) ==> a[key] == b[key])
}

/// After a list is written down under a key that held none, the list is
/// found there, and every other key keeps what it kept.
pub proof fn lemma_list_is_kept(
    before: Map<Seq<char>, Kept>,
    key: Seq<char>,
    list: Seq<Seq<char>>,
    other: Seq<char>,
)
    requires
        !before.contains_key(key),
    ensures
        list_at(all_carried_out(before, list_written(key, list)), key) == list,
        list.len() == 0 ==> all_carried_out(before, list_written(key, list)) == before,
        other != key ==> same_at(all_carried_out(before, list_written(key, list)), before, other),
    decreases list.len(),
{
    let ops = list_written(key, list);
    if list.len() == 0 {
        assert(list_at(before, key) =~= list);
    } else {
        let shorter = list.drop_last();
        lemma_list_is_kept(before, key, shorter, other);
        assert(ops.drop_last() =~= list_written(key, shorter));
        assert(ops.last() == StoreOpView::Push { key, value: list.last() });
        assert(shorter.push(list.last()) =~= list);
    }
}

/// After the picks of some players are written down, where nothing was kept
/// of them, the picks of each are found under their key, and every other key
/// keeps what it kept.
pub proof fn lemma_picks_are_kept(
    before: Map<Seq<char>, Kept>,
    game_id: Seq<char>,
    players: Seq<Seq<char>>,
    picks: Map<Seq<char>, Seq<Seq<char>>>,
    n: nat,
    key: Seq<char>,
)
    requires
        n <= players.len(),
        players.no_duplicates(),
        forall|i: int|
            0 <= i < n ==> !before.contains_key(
                #[trigger] place_key(game_id, DraftPlace::Picks(players[i])),
            ),
    ensures
        ({
            let after = all_carried_out(before, picks_written(game_id, players, picks, n));
            &&& forall|i: int|
                0 <= i < n && key == place_key(game_id, DraftPlace::Picks(#[trigger] players[i]))
                    ==> list_at(after, key) == picks[players[i]]
            &&& (forall|i: int|
                0 <= i < n ==> key != place_key(game_id, DraftPlace::Picks(#[trigger] players[i])))
                ==> same_at(after, before, key)
        }),
    decreases n,
{
    if n == 0 {
    } else {
        let m = (n - 1) as nat;
        let earlier = picks_written(game_id, players, picks, m);
        let last_key = place_key(game_id, DraftPlace::Picks(players[m as int]));
        let last_list = list_written(last_key, picks[players[m as int]]);
        let middle = all_carried_out(before, earlier);
        let after = all_carried_out(before, picks_written(game_id, players, picks, n));
        lemma_carried_out_in_turn(before, earlier, last_list);
        assert(after == all_carried_out(middle, last_list));
        lemma_picks_are_kept(before, game_id, players, picks, m, key);
        lemma_picks_are_kept(before, game_id, players, picks, m, last_key);
        assert forall|i: int| 0 <= i < m implies last_key != place_key(
            game_id,
            DraftPlace::Picks(#[trigger] players[i]),
        ) by {
            lemma_other_place(
                game_id,
                DraftPlace::Picks(players[m as int]),
                DraftPlace::Picks(players[i]),
            );
            assert(players[i] != players[m as int]);
        }
        assert(same_at(middle, before, last_key));
        assert(!middle.contains_key(last_key));
        lemma_list_is_kept(middle, last_key, picks[players[m as int]], key);
        assert forall|i: int|
            0 <= i < n && key == place_key(
                game_id,
                DraftPlace::Picks(#[trigger] players[i]),
            ) implies list_at(after, key) == picks[players[i]] by {
            if i < m {
                lemma_other_place(
                    game_id,
                    DraftPlace::Picks(players[i]),
                    DraftPlace::Picks(players[m as int]),
                );
                assert(players[i] != players[m as int]);
                assert(key != last_key);
                assert(same_at(after, middle, key));
            }
        }
    }
}

/// After the points of some players are written down, where no table was
/// kept, the table holds each player's points in decimal digits and nothing
/// else, and every other key keeps what it kept.
pub proof fn lemma_points_are_kept(
    before: Map<Seq<char>, Kept>,
    game_id: Seq<char>,
    players: Seq<Seq<char>>,
    points: Map<Seq<char>, u8>,
    n: int,
    other: Seq<char>,
)
    requires
        0 <= n <= players.len(),
        !before.contains_key(place_key(game_id, DraftPlace::Field(DraftField::PlayerPoints))),
    ensures
        ({
            let key = place_key(game_id, DraftPlace::Field(DraftField::PlayerPoints));
            let after = all_carried_out(before, points_written(game_id, players, points).take(n));
            &&& forall|player: Seq<char>| #[trigger]
                table_at(after, key).contains_key(player) <==> exists|i: int|
                    0 <= i < n && players[i] == player
            &&& forall|i: int|
                0 <= i < n ==> table_at(after, key)[#[trigger] players[i]] == decimal(
                    points[players[i]] as nat,
                )
            &&& other != key ==> same_at(after, before, other)
        }),
    decreases n,
{
    let key = place_key(game_id, DraftPlace::Field(DraftField::PlayerPoints));
    let all = points_written(game_id, players, points);
    let after = all_carried_out(before, all.take(n));
    if n == 0 {
        assert(all.take(0) =~= Seq::<StoreOpView>::empty());
    } else {
        lemma_points_are_kept(before, game_id, players, points, n - 1, other);
        let middle = all_carried_out(before, all.take(n - 1));
        assert(all.take(n).drop_last() =~= all.take(n - 1));
        assert(all.take(n).last() == all[n - 1]);
        let had = table_at(middle, key);
        let new = players[n - 1];
        assert(table_at(after, key) == had.insert(new, decimal(points[new] as nat)));
        assert forall|player: Seq<char>| #[trigger]
            table_at(after, key).contains_key(player) <==> exists|i: int|
                0 <= i < n && players[i] == player by {
            if had.contains_key(player) {
                let i = choose|i: int| 0 <= i < n - 1 && players[i] == player;
                assert(players[i] == player);
            }
            if exists|i: int| 0 <= i < n && players[i] == player {
                let i = choose|i: int| 0 <= i < n && players[i] == player;
                if i < n - 1 {
                    assert(had.contains_key(player));
                }
            }
            if player == new {
                assert(players[n - 1] == player);
            }
        }
        assert forall|i: int| 0 <= i < n implies table_at(after, key)[#[trigger] players[i]]
            == decimal(points[players[i]] as nat) by {
            if players[i] != new {
                assert(i < n - 1);
            }
        }
    }
}


/// A table of points with every number in decimal digits.
pub open spec fn points_text(points: Map<Seq<char>, u8>) -> Map<Seq<char>, Seq<char>> {
    points.map_values(|v: u8| decimal(v as nat))
}

/// Whatever a store kept before, after a team draft is written down the
/// store keeps the team draft: every field under its key, under every
/// player's key what the player has picked, and the points in their table.
pub proof fn lemma_draft_is_kept(
    before: Map<Seq<char>, Kept>,
    game_id: Seq<char>,
    state: &TeamDraftState,
    place: DraftPlace,
)
    requires
        state.wf(),
    ensures
        ({
            let after = all_carried_out(before, draft_written(game_id, state));
            let key = place_key(game_id, place);
            match place {
                DraftPlace::Picks(player) => list_at(after, key) == picks_of(state@, player),
                DraftPlace::Field(DraftField::PlayerPoints) => table_at(after, key) == points_text(
                    state@.player_points,
                ),
                _ => text_at(after, key) == text_of_place(state@, place),
            }
        }),
{
    let view = state@;
    let key = place_key(game_id, place);
    let points_key = place_key(game_id, DraftPlace::Field(DraftField::PlayerPoints));
    let drafters = state.round_data.player_to_picks.keys();
    let picks = view.round_data.player_to_picks;
    let scorers = state.player_points.keys();
    let points = view.player_points;
    let fields = draft_fields_written(game_id, view);
    let lists = picks_written(game_id, drafters, picks, drafters.len());
    let table = points_written(game_id, scorers, points);
    let s1 = all_carried_out(before, fields);
    let s2 = all_carried_out(s1, lists);
    let s3 = all_carried_out(s2, table);
    lemma_carried_out_in_turn(before, fields, lists);
    lemma_carried_out_in_turn(before, fields + lists, table);
    assert(all_carried_out(before, draft_written(game_id, state)) == s3);
    state.round_data.player_to_picks.lemma_keys();
    state.player_points.lemma_keys();
    assert(table.take(scorers.len() as int) =~= table);
    // What the fields leave.
    lemma_fields_are_kept(before, game_id, view, place);
    lemma_fields_are_kept(before, game_id, view, DraftPlace::Field(DraftField::PlayerPoints));
    assert forall|i: int| 0 <= i < drafters.len() implies !s1.contains_key(
        #[trigger] place_key(game_id, DraftPlace::Picks(drafters[i])),
    ) by {
        lemma_fields_are_kept(before, game_id, view, DraftPlace::Picks(drafters[i]));
    }
    // What the lists leave.
    lemma_picks_are_kept(s1, game_id, drafters, picks, drafters.len(), key);
    lemma_picks_are_kept(s1, game_id, drafters, picks, drafters.len(), points_key);
    assert forall|i: int| 0 <= i < drafters.len() implies points_key != place_key(
        game_id,
        DraftPlace::Picks(#[trigger] drafters[i]),
    ) by {
        lemma_other_place(
            game_id,
            DraftPlace::Field(DraftField::PlayerPoints),
            DraftPlace::Picks(drafters[i]),
        );
    }
    assert(!s2.contains_key(points_key));
    // What the table leaves.
    lemma_points_are_kept(s2, game_id, scorers, points, scorers.len() as int, key);
    match place {
        DraftPlace::Picks(player) => {
            lemma_other_place(game_id, place, DraftPlace::Field(DraftField::PlayerPoints));
            assert(same_at(s3, s2, key));
            if picks.contains_key(player) {
                assert(drafters.contains(player));
                let i = choose|i: int| 0 <= i < drafters.len() && drafters[i] == player;
                assert(key == place_key(game_id, DraftPlace::Picks(drafters[i])));
            } else {
                assert forall|i: int| 0 <= i < drafters.len() implies key != place_key(
                    game_id,
                    DraftPlace::Picks(#[trigger] drafters[i]),
                ) by {
                    lemma_other_place(game_id, place, DraftPlace::Picks(drafters[i]));
                    assert(drafters.contains(drafters[i]));
                }
                assert(same_at(s2, s1, key));
            }
        },
        DraftPlace::Field(DraftField::PlayerPoints) => {
            let kept = table_at(s3, key);
            assert forall|player: Seq<char>| #[trigger]
                kept.contains_key(player) <==> points_text(points).contains_key(player) by {
                if kept.contains_key(player) {
                    let i = choose|i: int| 0 <= i < scorers.len() && scorers[i] == player;
                    assert(scorers.contains(player));
                }
                if points.contains_key(player) {
                    assert(scorers.contains(player));
                    let i = choose|i: int| 0 <= i < scorers.len() && scorers[i] == player;
                    assert(scorers[i] == player);
                }
            }
            assert forall|player: Seq<char>| #[trigger] kept.contains_key(player) implies kept[player]
                == points_text(points)[player] by {
                let i = choose|i: int| 0 <= i < scorers.len() && scorers[i] == player;
                assert(kept[scorers[i]] == decimal(points[scorers[i]] as nat));
            }
            assert(kept =~= points_text(points));
        },
        _ => {
            assert forall|i: int| 0 <= i < drafters.len() implies key != place_key(
                game_id,
                DraftPlace::Picks(#[trigger] drafters[i]),
            ) by {
                lemma_other_place(game_id, place, DraftPlace::Picks(drafters[i]));
            }
            assert(same_at(s2, s1, key));
            lemma_other_place(game_id, place, DraftPlace::Field(DraftField::PlayerPoints));
            assert(same_at(s3, s2, key));
        },
    }
}


// ---------------------------------------------------------------------------
// What is written of a team draft is read back
// ---------------------------------------------------------------------------
/// Whether `stored` is what a reader finds of the team draft of the game
/// `game_id` in `store`: every field as it is kept, for every player whom
/// the reader asks for what is kept of their picks, with nobody passed over
/// who has picks, and the table of points entry by entry.
pub open spec fn is_read_from(stored: StoredDraft, game_id: Seq<char>, store: Map<Seq<char>, Kept>)
    -> bool {
    let at = |place: DraftPlace| text_at(store, place_key(game_id, place));
    let table = table_at(store, place_key(game_id, DraftPlace::Field(DraftField::PlayerPoints)));
    &&& kept(stored.yapper_id) == at(DraftPlace::Field(DraftField::YapperId))
    &&& kept(stored.yapper_index) == at(DraftPlace::Field(DraftField::YapperIndex))
    &&& kept(stored.max_rounds) == at(DraftPlace::Field(DraftField::MaxRounds))
    &&& kept(stored.phase) == at(DraftPlace::Field(DraftField::Phase))
    &&& kept(stored.round) == at(DraftPlace::Round(RoundField::Round))
    &&& kept(stored.team_size) == at(DraftPlace::Round(RoundField::TeamSize))
    &&& kept(stored.pool) == at(DraftPlace::Round(RoundField::Pool))
    &&& kept(stored.competition) == at(DraftPlace::Round(RoundField::Competition))
    &&& kept(stored.starting_drafter_id) == at(DraftPlace::Round(RoundField::StartingDrafterId))
    &&& kept(stored.current_drafter_id) == at(DraftPlace::Round(RoundField::CurrentDrafterId))
    &&& forall|i: int|
        0 <= i < stored.picks@.len() ==> (#[trigger] stored.picks@[i]).1.deep_view() == list_at(
            store,
            place_key(game_id, DraftPlace::Picks(stored.picks@[i].0@)),
        )
    &&& forall|player: Seq<char>|
        list_at(store, #[trigger] place_key(game_id, DraftPlace::Picks(player))).len() > 0
            ==> exists|i: int| 0 <= i < stored.picks@.len() && (#[trigger] stored.picks@[i]).0@ == player
    &&& forall|i: int|
        0 <= i < stored.points@.len() ==> table.contains_key((#[trigger] stored.points@[i]).0@)
            && table[stored.points@[i].0@] == stored.points@[i].1@
    &&& forall|player: Seq<char>| #[trigger]
        table.contains_key(player) ==> exists|i: int|
            0 <= i < stored.points@.len() && (#[trigger] stored.points@[i]).0@ == player
}

/// Whether two states are the same but for lists of picks that are empty,
/// which are as good as no lists.
pub open spec fn same_draft(a: TeamDraftView, b: TeamDraftView) -> bool {
    &&& a.yapper_id == b.yapper_id
    &&& a.yapper_index == b.yapper_index
    &&& a.max_rounds == b.max_rounds
    &&& a.phase == b.phase
    &&& a.round_data.round == b.round_data.round
    &&& a.round_data.pool == b.round_data.pool
    &&& a.round_data.competition == b.round_data.competition
    &&& a.round_data.team_size == b.round_data.team_size
    &&& a.round_data.starting_drafter_id == b.round_data.starting_drafter_id
    &&& a.round_data.current_drafter_id == b.round_data.current_drafter_id
    &&& a.player_points == b.player_points
    &&& forall|player: Seq<char>| #[trigger] picks_of(a, player) == picks_of(b, player)
}

proof fn lemma_picks_read(
    entries: Seq<(String, Vec<String>)>,
    n: nat,
    found: spec_fn(Seq<char>) -> Seq<Seq<char>>,
    player: Seq<char>,
)
    requires
        n <= entries.len(),
        forall|i: int| 0 <= i < n ==> (#[trigger] entries[i]).1.deep_view() == found(entries[i].0@),
    ensures
        picks_kept(entries, n).contains_key(player) <==> exists|i: int|
            0 <= i < n && (#[trigger] entries[i]).0@ == player,
        picks_kept(entries, n).contains_key(player) ==> picks_kept(entries, n)[player] == found(
            player,
        ),
    decreases n,
{
    if n > 0 {
        lemma_picks_read(entries, (n - 1) as nat, found, player);
        if picks_kept(entries, (n - 1) as nat).contains_key(player) {
            let i = choose|i: int| 0 <= i < n - 1 && (#[trigger] entries[i]).0@ == player;
            assert(entries[i].0@ == player);
        }
        if exists|i: int| 0 <= i < n && (#[trigger] entries[i]).0@ == player {
            let i = choose|i: int| 0 <= i < n && (#[trigger] entries[i]).0@ == player;
            if i < n - 1 {
                assert(picks_kept(entries, (n - 1) as nat).contains_key(player));
            }
        }
        if entries[n - 1].0@ == player {
            assert(entries[n - 1].0@ == player);
        }
    }
}

proof fn lemma_points_read(
    entries: Seq<(String, String)>,
    n: nat,
    points: Map<Seq<char>, u8>,
    player: Seq<char>,
)
    requires
        n <= entries.len(),
        forall|i: int|
            0 <= i < n ==> points.contains_key((#[trigger] entries[i]).0@) && entries[i].1@
                == decimal(points[entries[i].0@] as nat),
    ensures
        points_kept(entries, n).contains_key(player) <==> exists|i: int|
            0 <= i < n && (#[trigger] entries[i]).0@ == player,
        points_kept(entries, n).contains_key(player) ==> points_kept(entries, n)[player]
            == points[player],
    decreases n,
{
    if n > 0 {
        lemma_points_read(entries, (n - 1) as nat, points, player);
        let last = entries[n - 1];
        lemma_unsigned_round_trip(points[last.0@] as nat);
        if points_kept(entries, (n - 1) as nat).contains_key(player) {
            let i = choose|i: int| 0 <= i < n - 1 && (#[trigger] entries[i]).0@ == player;
            assert(entries[i].0@ == player);
        }
        if exists|i: int| 0 <= i < n && (#[trigger] entries[i]).0@ == player {
            let i = choose|i: int| 0 <= i < n && (#[trigger] entries[i]).0@ == player;
            if i < n - 1 {
                assert(points_kept(entries, (n - 1) as nat).contains_key(player));
            }
        }
        if last.0@ == player {
            assert(entries[n - 1].0@ == player);
        }
    }
}

/// What is written of a team draft is read back: whatever the store kept
/// before, a reader who finds in it what `draft_written` has left reads the
/// state that was written, but for lists of picks that are empty.
pub proof fn lemma_draft_is_read_back(
    before: Map<Seq<char>, Kept>,
    game_id: Seq<char>,
    state: &TeamDraftState,
    stored: StoredDraft,
)
    requires
        state.wf(),
        is_read_from(stored, game_id, all_carried_out(before, draft_written(game_id, state))),
    ensures
        same_draft(draft_kept(stored), state@),
{
    let store = all_carried_out(before, draft_written(game_id, state));
    let view = state@;
    let read = draft_kept(stored);
    lemma_draft_is_kept(before, game_id, state, DraftPlace::Field(DraftField::YapperId));
    lemma_draft_is_kept(before, game_id, state, DraftPlace::Field(DraftField::YapperIndex));
    lemma_draft_is_kept(before, game_id, state, DraftPlace::Field(DraftField::MaxRounds));
    lemma_draft_is_kept(before, game_id, state, DraftPlace::Field(DraftField::Phase));
    lemma_draft_is_kept(before, game_id, state, DraftPlace::Field(DraftField::PlayerPoints));
    lemma_draft_is_kept(before, game_id, state, DraftPlace::Round(RoundField::Round));
    lemma_draft_is_kept(before, game_id, state, DraftPlace::Round(RoundField::TeamSize));
    lemma_draft_is_kept(before, game_id, state, DraftPlace::Round(RoundField::Pool));
    lemma_draft_is_kept(before, game_id, state, DraftPlace::Round(RoundField::Competition));
    lemma_draft_is_kept(before, game_id, state, DraftPlace::Round(RoundField::StartingDrafterId));
    lemma_draft_is_kept(before, game_id, state, DraftPlace::Round(RoundField::CurrentDrafterId));
    lemma_unsigned_round_trip(view.yapper_index);
    lemma_unsigned_round_trip(view.max_rounds);
    lemma_unsigned_round_trip(view.round_data.round);
    lemma_unsigned_round_trip(view.round_data.team_size);
    lemma_phase_round_trip(view.phase);
    // The points.
    let table = table_at(store, place_key(game_id, DraftPlace::Field(DraftField::PlayerPoints)));
    let entries = stored.points@;
    assert forall|player: Seq<char>| #[trigger]
        read.player_points.contains_key(player) <==> view.player_points.contains_key(
            player,
        ) by {
        lemma_points_read(entries, entries.len(), view.player_points, player);
        if view.player_points.contains_key(player) {
            assert(table.contains_key(player));
        }
    }
    assert forall|player: Seq<char>| #[trigger]
        read.player_points.contains_key(player) implies read.player_points[player]
        == view.player_points[player] by {
        lemma_points_read(entries, entries.len(), view.player_points, player);
    }
    assert(read.player_points =~= view.player_points);
    // The picks.
    let found = |player: Seq<char>| picks_of(view, player);
    assert forall|i: int| 0 <= i < stored.picks@.len() implies (
    #[trigger] stored.picks@[i]).1.deep_view() == found(stored.picks@[i].0@) by {
        lemma_draft_is_kept(before, game_id, state, DraftPlace::Picks(stored.picks@[i].0@));
    }
    assert forall|player: Seq<char>| #[trigger] picks_of(read, player) == picks_of(view, player) by {
        lemma_picks_read(stored.picks@, stored.picks@.len(), found, player);
        lemma_draft_is_kept(before, game_id, state, DraftPlace::Picks(player));
        if !read.round_data.player_to_picks.contains_key(player) {
            let key = place_key(game_id, DraftPlace::Picks(player));
            if list_at(store, key).len() > 0 {
                let i = choose|i: int|
                    0 <= i < stored.picks@.len() && (#[trigger] stored.picks@[i]).0@ == player;
                assert(stored.picks@[i].0@ == player);
            }
            assert(picks_of(view, player) =~= Seq::empty());
        }
    }
}


// ---------------------------------------------------------------------------
// What is written of a game that was opened is read back
// ---------------------------------------------------------------------------
/// The places at which something of a game and its players is kept: a field
/// of the game, the game of a code, and the name, the token and the game of
/// a player.
pub ghost enum GamePlace {
    Field(GameField),
    GameOfCode(Seq<char>),
    Username(Seq<char>),
    Token(Seq<char>),
    GameOfPlayer(Seq<char>),
}

/// The key of a place of the game `game_id`.
pub open spec fn game_place_key(game_id: Seq<char>, place: GamePlace) -> Seq<char> {
    match place {
        GamePlace::Field(field) => game_key_text(game_id, field),
        GamePlace::GameOfCode(code) => index_key_text("game_code"@, code),
        GamePlace::Username(player_id) => index_key_text("player_usernames"@, player_id),
        GamePlace::Token(player_id) => index_key_text("player_auth"@, player_id),
        GamePlace::GameOfPlayer(player_id) => index_key_text("player_to_game"@, player_id),
    }
}

/// Different places of a game have different keys.
pub proof fn lemma_game_places_differ(game_id: Seq<char>, a: GamePlace, b: GamePlace)
    ensures
        a != b ==> game_place_key(game_id, a) != game_place_key(game_id, b),
{
    reveal_strlit("::");
    reveal_strlit("game");
    reveal_strlit("game_code");
    reveal_strlit("player_usernames");
    reveal_strlit("player_auth");
    reveal_strlit("player_to_game");
    reveal_strlit("host_id");
    reveal_strlit("code");
    reveal_strlit("players");
    reveal_strlit("max_players");
    reveal_strlit("created_at");
    let ka = game_place_key(game_id, a);
    let kb = game_place_key(game_id, b);
    assert("game"@.len() == 4 && "game"@[0] == 'g');
    assert("game_code"@.len() == 9 && "game_code"@[0] == 'g' && "game_code"@[4] == '_');
    assert("player_usernames"@.len() == 16 && "player_usernames"@[0] == 'p'
        && "player_usernames"@[7] == 'u');
    assert("player_auth"@.len() == 11 && "player_auth"@[0] == 'p' && "player_auth"@[7] == 'a');
    assert("player_to_game"@.len() == 14 && "player_to_game"@[0] == 'p' && "player_to_game"@[7]
        == 't');
    assert("host_id"@.len() == 7 && "host_id"@[0] == 'h');
    assert("code"@.len() == 4);
    assert("players"@.len() == 7 && "players"@[0] == 'p');
    assert("max_players"@.len() == 11);
    assert("created_at"@.len() == 10);
    assert(separator().len() == 2 && separator()[0] == ':');
    if ka == kb && a != b {
        match (a, b) {
            (GamePlace::Field(x), GamePlace::Field(y)) => {
                lemma_same_beginning(
                    "game"@ + separator() + game_id + separator(),
                    x.word(),
                    y.word(),
                );
            },
            (GamePlace::GameOfCode(x), GamePlace::GameOfCode(y)) => {
                lemma_same_beginning("game_code"@ + separator(), x, y);
            },
            (GamePlace::Username(x), GamePlace::Username(y)) => {
                lemma_same_beginning("player_usernames"@ + separator(), x, y);
            },
            (GamePlace::Token(x), GamePlace::Token(y)) => {
                lemma_same_beginning("player_auth"@ + separator(), x, y);
            },
            (GamePlace::GameOfPlayer(x), GamePlace::GameOfPlayer(y)) => {
                lemma_same_beginning("player_to_game"@ + separator(), x, y);
            },
            _ => {
                assert(ka[0] == kb[0]);
                assert(ka[4] == kb[4]);
                assert(ka[7] == kb[7]);
            },
        }
    }
}

/// What a game that was opened leaves at a place: a text, the list of its
/// players, or whatever was there before.
pub proof fn lemma_game_is_kept(
    before: Map<Seq<char>, Kept>,
    game: GameView,
    host: PlayerView,
    token: Seq<char>,
    place: GamePlace,
)
    ensures
        ({
            let after = all_carried_out(before, game_written(game, host, token));
            let key = game_place_key(game.id, place);
            let text = |t: Seq<char>| text_at(after, key) == Some(t);
            match place {
                GamePlace::Field(GameField::Code) => text(game.code),
                GamePlace::Field(GameField::HostId) => text(game.host_id),
                GamePlace::Field(GameField::MaxPlayers) => text(decimal(game.max_players)),
                GamePlace::Field(GameField::CreatedAt) => text(signed_decimal(game.created_at)),
                GamePlace::Field(GameField::Players) => list_at(after, key) == list_at(
                    before,
                    key,
                ).push(host.id),
                GamePlace::GameOfCode(code) => if code == game.code {
                    text(game.id)
                } else {
                    same_at(after, before, key)
                },
                GamePlace::Username(player_id) => if player_id == host.id {
                    text(host.username)
                } else {
                    same_at(after, before, key)
                },
                GamePlace::Token(player_id) => if player_id == host.id {
                    text(token)
                } else {
                    same_at(after, before, key)
                },
                GamePlace::GameOfPlayer(player_id) => if player_id == host.id {
                    text(game.id)
                } else {
                    same_at(after, before, key)
                },
            }
        }),
{
    let ops = game_written(game, host, token);
    let none = Seq::<StoreOpView>::empty();
    let o0 = none.push(ops[0]);
    let o1 = o0.push(ops[1]);
    let o2 = o1.push(ops[2]);
    let o3 = o2.push(ops[3]);
    let o4 = o3.push(ops[4]);
    let o5 = o4.push(ops[5]);
    let o6 = o5.push(ops[6]);
    let o7 = o6.push(ops[7]);
    let o8 = o7.push(ops[8]);
    assert(ops =~= o8);
    lemma_carried_out_last(before, none, ops[0]);
    lemma_carried_out_last(before, o0, ops[1]);
    lemma_carried_out_last(before, o1, ops[2]);
    lemma_carried_out_last(before, o2, ops[3]);
    lemma_carried_out_last(before, o3, ops[4]);
    lemma_carried_out_last(before, o4, ops[5]);
    lemma_carried_out_last(before, o5, ops[6]);
    lemma_carried_out_last(before, o6, ops[7]);
    lemma_carried_out_last(before, o7, ops[8]);
    lemma_game_places_differ(game.id, place, GamePlace::Field(GameField::Code));
    lemma_game_places_differ(game.id, place, GamePlace::Field(GameField::HostId));
    lemma_game_places_differ(game.id, place, GamePlace::Field(GameField::MaxPlayers));
    lemma_game_places_differ(game.id, place, GamePlace::Field(GameField::CreatedAt));
    lemma_game_places_differ(game.id, place, GamePlace::Field(GameField::Players));
    lemma_game_places_differ(game.id, place, GamePlace::GameOfCode(game.code));
    lemma_game_places_differ(game.id, place, GamePlace::Username(host.id));
    lemma_game_places_differ(game.id, place, GamePlace::Token(host.id));
    lemma_game_places_differ(game.id, place, GamePlace::GameOfPlayer(host.id));
}

/// Whether `stored` is what a reader finds of the game `game_id` in `store`:
/// every field as it is kept, and the players of the list, each with the
/// name that is kept of them.
pub open spec fn is_game_read_from(stored: StoredGame, game_id: Seq<char>, store: Map<Seq<char>, Kept>)
    -> bool {
    let at = |place: GamePlace| text_at(store, game_place_key(game_id, place));
    let list = list_at(store, game_place_key(game_id, GamePlace::Field(GameField::Players)));
    &&& kept(stored.code) == at(GamePlace::Field(GameField::Code))
    &&& kept(stored.host_id) == at(GamePlace::Field(GameField::HostId))
    &&& kept(stored.max_players) == at(GamePlace::Field(GameField::MaxPlayers))
    &&& kept(stored.created_at) == at(GamePlace::Field(GameField::CreatedAt))
    &&& stored.players@.len() == list.len()
    &&& forall|i: int|
        0 <= i < list.len() ==> (#[trigger] stored.players@[i]).id@ == list[i] && kept(
            stored.players@[i].username,
        ) == at(GamePlace::Username(list[i]))
}

/// What is written of a game that was opened is read back: where no list of
/// players was kept for the game before, a reader who finds what
/// `game_written` has left reads the game that was opened.
pub proof fn lemma_game_is_read_back(
    before: Map<Seq<char>, Kept>,
    game: GameView,
    host: PlayerView,
    token: Seq<char>,
    stored: StoredGame,
    now: i32,
)
    requires
        !before.contains_key(game_place_key(game.id, GamePlace::Field(GameField::Players))),
        game.max_players <= 255,
        i32::MIN <= game.created_at <= i32::MAX,
        is_game_read_from(stored, game.id, all_carried_out(before, game_written(game, host, token))),
    ensures
        game_kept(game.id, stored, now) == Ok::<Option<GameView>, ErrorResponseView>(
            Some(GameView { players: seq![host], ..game }),
        ),
{
    lemma_game_is_kept(before, game, host, token, GamePlace::Field(GameField::Code));
    lemma_game_is_kept(before, game, host, token, GamePlace::Field(GameField::HostId));
    lemma_game_is_kept(before, game, host, token, GamePlace::Field(GameField::MaxPlayers));
    lemma_game_is_kept(before, game, host, token, GamePlace::Field(GameField::CreatedAt));
    lemma_game_is_kept(before, game, host, token, GamePlace::Field(GameField::Players));
    lemma_game_is_kept(before, game, host, token, GamePlace::Username(host.id));
    lemma_unsigned_round_trip(game.max_players);
    lemma_signed_round_trip(game.created_at);
    let players = crate::cache::stored::named_players(stored.players@, stored.players@.len());
    assert(stored.players@.len() == 1);
    assert(stored.players@[0].id@ == host.id);
    reveal_with_fuel(crate::cache::stored::named_players, 2);
    assert(players =~= seq![host]);
}


// ---------------------------------------------------------------------------
// What joining and leaving do to the store
// ---------------------------------------------------------------------------
/// What a player who has joined leaves at a place: their id at the end of
/// the game's list of players, their name, their token and their game under
/// their own keys, and everything else as it was.
pub proof fn lemma_player_is_kept(
    before: Map<Seq<char>, Kept>,
    game_id: Seq<char>,
    player: PlayerView,
    token: Seq<char>,
    place: GamePlace,
)
    ensures
        ({
            let after = all_carried_out(before, player_written(game_id, player, token));
            let key = game_place_key(game_id, place);
            if place == GamePlace::Field(GameField::Players) {
                list_at(after, key) == list_at(before, key).push(player.id)
            } else if place == GamePlace::Username(player.id) {
                text_at(after, key) == Some(player.username)
            } else if place == GamePlace::Token(player.id) {
                text_at(after, key) == Some(token)
            } else if place == GamePlace::GameOfPlayer(player.id) {
                text_at(after, key) == Some(game_id)
            } else {
                same_at(after, before, key)
            }
        }),
{
    let ops = player_written(game_id, player, token);
    let none = Seq::<StoreOpView>::empty();
    let o0 = none.push(ops[0]);
    let o1 = o0.push(ops[1]);
    let o2 = o1.push(ops[2]);
    let o3 = o2.push(ops[3]);
    assert(ops =~= o3);
    lemma_carried_out_last(before, none, ops[0]);
    lemma_carried_out_last(before, o0, ops[1]);
    lemma_carried_out_last(before, o1, ops[2]);
    lemma_carried_out_last(before, o2, ops[3]);
    lemma_game_places_differ(game_id, place, GamePlace::Field(GameField::Players));
    lemma_game_places_differ(game_id, place, GamePlace::Username(player.id));
    lemma_game_places_differ(game_id, place, GamePlace::Token(player.id));
    lemma_game_places_differ(game_id, place, GamePlace::GameOfPlayer(player.id));
}

/// What a player who has left leaves at a place: the game's list of players
/// without them, nothing under their own keys, and everything else as it
/// was.
pub proof fn lemma_player_is_struck(
    before: Map<Seq<char>, Kept>,
    game_id: Seq<char>,
    player_id: Seq<char>,
    place: GamePlace,
)
    ensures
        ({
            let after = all_carried_out(before, player_struck(game_id, player_id));
            let key = game_place_key(game_id, place);
            if place == GamePlace::Field(GameField::Players) {
                list_at(after, key) == without_first(list_at(before, key), player_id)
            } else if place == GamePlace::Username(player_id) || place == GamePlace::Token(
                player_id,
            ) || place == GamePlace::GameOfPlayer(player_id) {
                !after.contains_key(key)
            } else {
                same_at(after, before, key)
            }
        }),
{
    let ops = player_struck(game_id, player_id);
    let none = Seq::<StoreOpView>::empty();
    let o0 = none.push(ops[0]);
    let o1 = o0.push(ops[1]);
    let o2 = o1.push(ops[2]);
    let o3 = o2.push(ops[3]);
    assert(ops =~= o3);
    lemma_carried_out_last(before, none, ops[0]);
    lemma_carried_out_last(before, o0, ops[1]);
    lemma_carried_out_last(before, o1, ops[2]);
    lemma_carried_out_last(before, o2, ops[3]);
    lemma_game_places_differ(game_id, place, GamePlace::Field(GameField::Players));
    lemma_game_places_differ(game_id, place, GamePlace::Username(player_id));
    lemma_game_places_differ(game_id, place, GamePlace::Token(player_id));
    lemma_game_places_differ(game_id, place, GamePlace::GameOfPlayer(player_id));
}

/// Once a game has come to its end, nothing is left of it: no field of the
/// game, nothing of its team draft, and not its code in the index of codes.
/// What is kept of players and of other codes stays as it was.
pub proof fn lemma_closed_game_is_struck(
    before: Map<Seq<char>, Kept>,
    game_id: Seq<char>,
    code: Seq<char>,
    of_game: GamePlace,
    of_draft: DraftPlace,
)
    ensures
        ({
            let after = all_carried_out(before, game_struck(game_id, code));
            let key = game_place_key(game_id, of_game);
            &&& !after.contains_key(place_key(game_id, of_draft))
            &&& match of_game {
                GamePlace::Field(_) => !after.contains_key(key),
                GamePlace::GameOfCode(other) => if other == code {
                    !after.contains_key(key)
                } else {
                    same_at(after, before, key)
                },
                _ => same_at(after, before, key),
            }
        }),
{
    reveal_strlit("::*");
    reveal_strlit("::");
    reveal_strlit("game");
    reveal_strlit("team_draft");
    reveal_strlit("game_code");
    reveal_strlit("player_usernames");
    reveal_strlit("player_auth");
    reveal_strlit("player_to_game");
    let ops = game_struck(game_id, code);
    let none = Seq::<StoreOpView>::empty();
    let o0 = none.push(ops[0]);
    let o1 = o0.push(ops[1]);
    let o2 = o1.push(ops[2]);
    assert(ops =~= o2);
    lemma_carried_out_last(before, none, ops[0]);
    lemma_carried_out_last(before, o0, ops[1]);
    lemma_carried_out_last(before, o1, ops[2]);
    let games = below(game_prefix_text(game_id));
    let drafts = below(draft_prefix_text(game_id));
    let game_beginning = game_prefix_text(game_id) + separator();
    let draft_beginning = draft_prefix_text(game_id) + separator();
    assert(games.drop_last() =~= game_beginning);
    assert(drafts.drop_last() =~= draft_beginning);
    assert("game"@.len() == 4 && "game"@[0] == 'g');
    assert("team_draft"@.len() == 10 && "team_draft"@[0] == 't');
    assert("game_code"@.len() == 9 && "game_code"@[0] == 'g' && "game_code"@[4] == '_');
    assert("player_usernames"@.len() == 16 && "player_usernames"@[0] == 'p');
    assert("player_auth"@.len() == 11 && "player_auth"@[0] == 'p');
    assert("player_to_game"@.len() == 14 && "player_to_game"@[0] == 'p');
    assert(separator().len() == 2 && separator()[0] == ':');
    assert(game_beginning.len() >= 6 && game_beginning[0] == 'g' && game_beginning[4] == ':');
    assert(draft_beginning.len() >= 12 && draft_beginning[0] == 't');
    // The team draft goes with the second pattern.
    lemma_place_key(game_id, of_draft);
    let draft_key = place_key(game_id, of_draft);
    assert(is_matched(drafts, draft_key));
    lemma_code_key_is_no_draft_key(game_id, code, of_draft);
    // The game goes with the first.
    let key = game_place_key(game_id, of_game);
    match of_game {
        GamePlace::Field(field) => {
            assert(key =~= game_beginning + field.word());
            assert(key.subrange(0, game_beginning.len() as int) =~= game_beginning);
            assert(is_matched(games, key));
        },
        _ => {
            if is_matched(games, key) {
                assert(key.subrange(0, game_beginning.len() as int) == game_beginning);
                assert(key[0] == game_beginning[0]);
                assert(key[4] == game_beginning[4]);
            }
            if is_matched(drafts, key) {
                assert(key.subrange(0, draft_beginning.len() as int) == draft_beginning);
                assert(key[0] == draft_beginning[0]);
            }
            lemma_game_places_differ(game_id, of_game, GamePlace::GameOfCode(code));
        },
    }
}

/// The key of a code is the key of nothing in a team draft.
proof fn lemma_code_key_is_no_draft_key(game_id: Seq<char>, code: Seq<char>, of_draft: DraftPlace)
    ensures
        place_key(game_id, of_draft) != index_key_text("game_code"@, code),
{
    reveal_strlit("::");
    reveal_strlit("team_draft");
    reveal_strlit("game_code");
    lemma_place_key(game_id, of_draft);
    let beginning = draft_prefix_text(game_id) + separator();
    let key = place_key(game_id, of_draft);
    assert("team_draft"@.len() == 10 && "team_draft"@[0] == 't');
    assert("game_code"@.len() == 9 && "game_code"@[0] == 'g');
    assert(key[0] == beginning[0]);
    assert(beginning[0] == 't');
    assert(index_key_text("game_code"@, code)[0] == 'g');
}

// ---------------------------------------------------------------------------
// Commands that the store does not take
// ---------------------------------------------------------------------------
/// The store after those of the commands are carried out that it takes,
/// one after the other: `taken` says of each command whether it is taken. A
/// command that is not taken changes nothing and does not keep the store
/// from taking those that come after it.
pub open spec fn carried_out_where(
    store: Map<Seq<char>, Kept>,
    ops: Seq<StoreOpView>,
    taken: Seq<bool>,
) -> Map<Seq<char>, Kept>
    decreases ops.len(),
{
    if ops.len() == 0 {
        store
    } else {
        let before = carried_out_where(store, ops.drop_last(), taken);
        if taken[ops.len() - 1] {
            carried_out(before, ops.last())
        } else {
            before
        }
    }
}

/// Whether the command takes away what is kept under `key`.
pub open spec fn takes_away(op: StoreOpView, key: Seq<char>) -> bool {
    match op {
        StoreOpView::Delete { key: struck } => struck == key,
        StoreOpView::DeleteMatching { pattern } => is_matched(pattern, key),
        _ => false,
    }
}

/// Whether the command puts something under `key`.
pub open spec fn puts_at(op: StoreOpView, key: Seq<char>) -> bool {
    match op {
        StoreOpView::Put { key: written, .. } => written == key,
        StoreOpView::Push { key: written, .. } => written == key,
        StoreOpView::Pull { key: written, .. } => written == key,
        StoreOpView::PutField { key: written, .. } => written == key,
        _ => false,
    }
}

/// Where the store takes every command, the commands are carried out.
pub proof fn lemma_all_taken(store: Map<Seq<char>, Kept>, ops: Seq<StoreOpView>, taken: Seq<bool>)
    requires
        taken.len() == ops.len(),
        forall|i: int| 0 <= i < taken.len() ==> taken[i],
    ensures
        carried_out_where(store, ops, taken) == all_carried_out(store, ops),
    decreases ops.len(),
{
    if ops.len() > 0 {
        let rest = taken.drop_last();
        lemma_all_taken(store, ops.drop_last(), rest);
        lemma_taken_before(store, ops.drop_last(), taken, rest);
    }
}

/// What the store comes to goes by what is said of the commands
/// themselves, not by what is said beyond them.
pub proof fn lemma_taken_before(
    store: Map<Seq<char>, Kept>,
    ops: Seq<StoreOpView>,
    taken: Seq<bool>,
    other: Seq<bool>,
)
    requires
        forall|i: int| 0 <= i < ops.len() ==> taken[i] == other[i],
    ensures
        carried_out_where(store, ops, taken) == carried_out_where(store, ops, other),
    decreases ops.len(),
{
    if ops.len() > 0 {
        lemma_taken_before(store, ops.drop_last(), taken, other);
    }
}

/// Clearing away goes on past a command that fails. What a command that
/// the store took has taken away is gone in the end, whichever of the other
/// commands failed, as long as no command that comes after it puts
/// something there again.
pub proof fn lemma_clearing_goes_on(
    store: Map<Seq<char>, Kept>,
    ops: Seq<StoreOpView>,
    taken: Seq<bool>,
    i: int,
    key: Seq<char>,
)
    requires
        taken.len() == ops.len(),
        0 <= i < ops.len(),
        taken[i],
        takes_away(ops[i], key),
        forall|j: int| i < j < ops.len() ==> !puts_at(#[trigger] ops[j], key),
    ensures
        !carried_out_where(store, ops, taken).contains_key(key),
    decreases ops.len(),
{
    let before = carried_out_where(store, ops.drop_last(), taken);
    if i < ops.len() - 1 {
        assert forall|j: int| i < j < ops.drop_last().len() implies !puts_at(
            #[trigger] ops.drop_last()[j],
            key,
        ) by {
            assert(ops.drop_last()[j] == ops[j]);
        }
        assert(ops.drop_last()[i] == ops[i]);
        lemma_taken_before(store, ops.drop_last(), taken, taken.drop_last());
        lemma_clearing_goes_on(store, ops.drop_last(), taken.drop_last(), i, key);
        assert(!before.contains_key(key));
        assert(!puts_at(ops[ops.len() - 1], key));
    }
}

/// Of a game that has come to its end, each of the three commands that
/// clear it away does its part without the others: below the game nothing
/// is left where the first is taken, below its team draft nothing where the
/// second is, and its code is out of the index of codes where the third is.
pub proof fn lemma_closed_game_is_cleared_in_parts(
    store: Map<Seq<char>, Kept>,
    game_id: Seq<char>,
    code: Seq<char>,
    taken: Seq<bool>,
    key: Seq<char>,
)
    requires
        taken.len() == 3,
    ensures
        ({
            let after = carried_out_where(store, game_struck(game_id, code), taken);
            &&& taken[0] && is_matched(below(game_prefix_text(game_id)), key) ==> !after.contains_key(
                key,
            )
            &&& taken[1] && is_matched(below(draft_prefix_text(game_id)), key)
                ==> !after.contains_key(key)
            &&& taken[2] ==> !after.contains_key(index_key_text("game_code"@, code))
        }),
{
    let ops = game_struck(game_id, code);
    if taken[0] && is_matched(below(game_prefix_text(game_id)), key) {
        lemma_clearing_goes_on(store, ops, taken, 0, key);
    }
    if taken[1] && is_matched(below(draft_prefix_text(game_id)), key) {
        lemma_clearing_goes_on(store, ops, taken, 1, key);
    }
    if taken[2] {
        lemma_clearing_goes_on(store, ops, taken, 2, index_key_text("game_code"@, code));
    }
}

} // verus!
