use crate::team_draft::types::{
    picks_view, Round, RoundView, TeamDraftManager, TeamDraftPhase, TeamDraftView,
};
use crate::text::text_eq;
use crate::text_map::TextMap;
use crate::wire::draft::{
    decode_points, decoded_points, encode_points, encoded_points, lemma_field_at,
    lemma_points_round_trip,
};
use crate::wire::json::{
    fields_view, get_object, get_small, get_text, items_view, lemma_views,
    list_value, object_field, object_value, put, small_field, text_field, text_value, Json,
    JsonView,
};
use vstd::prelude::*;
use vstd::string::*;

verus! {

// ---------------------------------------------------------------------------
// Lists of picks
// ---------------------------------------------------------------------------
/// A list of texts as a list of values.
pub open spec fn encoded_texts(list: Seq<Seq<char>>) -> Seq<JsonView> {
    Seq::new(list.len(), |i: int| JsonView::Text(list[i]))
}

/// The list of texts that the first `n` of some values make, if each of
/// them is a text.
pub open spec fn decoded_texts(items: Seq<JsonView>, n: nat) -> Option<Seq<Seq<char>>>
    decreases n,
{
    if n == 0 {
        Some(Seq::empty())
    } else {
        match (decoded_texts(items, (n - 1) as nat), items[n - 1]) {
            (Some(before), JsonView::Text(t)) => Some(before.push(t)),
            _ => None,
        }
    }
}

/// A table of picks as the fields of an object: every player's list under
/// the player's id, in the order in which the table knows the players.
pub open spec fn encoded_picks(table: &TextMap<Vec<String>>) -> Seq<(Seq<char>, JsonView)> {
    Seq::new(
        table.keys().len(),
        |i: int|
            (
                table.keys()[i],
                JsonView::List(encoded_texts(picks_view(table@)[table.keys()[i]])),
            ),
    )
}

/// The table of picks that the first `n` fields of an object make, if each
/// of them is a list of texts; a later field of a player takes the place of
/// an earlier one.
pub open spec fn decoded_picks(fields: Seq<(Seq<char>, JsonView)>, n: nat) -> Option<
    Map<Seq<char>, Seq<Seq<char>>>,
>
    decreases n,
{
    if n == 0 {
        Some(Map::empty())
    } else {
        match (decoded_picks(fields, (n - 1) as nat), fields[n - 1].1) {
            (Some(before), JsonView::List(items)) => match decoded_texts(items, items.len()) {
                Some(list) => Some(before.insert(fields[n - 1].0, list)),
                None => None,
            },
            _ => None,
        }
    }
}

proof fn lemma_texts_stay_refused(items: Seq<JsonView>, n: nat, m: nat)
    requires
        n <= m,
        decoded_texts(items, n) is None,
    ensures
        decoded_texts(items, m) is None,
    decreases m - n,
{
    if n < m {
        lemma_texts_stay_refused(items, n, (m - 1) as nat);
    }
}

proof fn lemma_picks_stay_refused(fields: Seq<(Seq<char>, JsonView)>, n: nat, m: nat)
    requires
        n <= m,
        decoded_picks(fields, n) is None,
    ensures
        decoded_picks(fields, m) is None,
    decreases m - n,
{
    if n < m {
        lemma_picks_stay_refused(fields, n, (m - 1) as nat);
    }
}

/// A list of texts that is taken apart is put together again.
pub proof fn lemma_texts_round_trip(list: Seq<Seq<char>>, n: nat)
    requires
        n <= list.len(),
    ensures
        decoded_texts(encoded_texts(list), n) == Some(list.take(n as int)),
    decreases n,
{
    if n == 0 {
        assert(list.take(0) =~= Seq::<Seq<char>>::empty());
    } else {
        lemma_texts_round_trip(list, (n - 1) as nat);
        assert(list.take(n as int) =~= list.take(n - 1).push(list[n - 1]));
    }
}

/// A list of texts as a list of values.
pub fn encode_texts(list: &Vec<String>) -> (items: Vec<Json>)
    ensures
        items_view(items@) == encoded_texts(list.deep_view()),
{
    let mut items: Vec<Json> = Vec::new();
    let mut i: usize = 0;
    while i < list.len()
        invariant
            i <= list@.len(),
            items@.len() == i,
            forall|k: int| 0 <= k < i ==> (#[trigger] items@[k])@ == JsonView::Text(list@[k]@),
        decreases list@.len() - i,
    {
        items.push(text_value(list[i].as_str()));
        i += 1;
    }
    assert(items_view(items@) =~= encoded_texts(list.deep_view()));
    items
}

/// The list of texts that some values make, if each of them is a text.
pub fn decode_texts(items: &Vec<Json>) -> (r: Option<Vec<String>>)
    ensures
        match r {
            Some(list) => decoded_texts(items_view(items@), items@.len() as nat) == Some(
                list.deep_view(),
            ),
            None => decoded_texts(items_view(items@), items@.len() as nat) is None,
        },
{
    let ghost view = items_view(items@);
    let mut list: Vec<String> = Vec::new();
    let mut i: usize = 0;
    assert(list.deep_view() =~= Seq::<Seq<char>>::empty());
    while i < items.len()
        invariant
            i <= items@.len(),
            view == items_view(items@),
            decoded_texts(view, i as nat) == Some(list.deep_view()),
        decreases items@.len() - i,
    {
        assert(view[i as int] == items@[i as int]@);
        let ghost had = list.deep_view();
        match &items[i] {
            Json::Text(t) => {
                list.push(t.clone());
                assert(list.deep_view() =~= had.push(t@));
            },
            _ => {
                proof {
                    lemma_texts_stay_refused(view, (i + 1) as nat, items@.len() as nat);
                }
                return None;
            },
        }
        i += 1;
    }
    Some(list)
}

/// A table of picks as the fields of an object.
pub fn encode_picks(table: &TextMap<Vec<String>>) -> (fields: Vec<(String, Json)>)
    requires
        table.wf(),
    ensures
        fields_view(fields@) == encoded_picks(table),
{
    let n = table.len();
    let mut fields: Vec<(String, Json)> = Vec::new();
    let mut i: usize = 0;
    assert(fields_view(fields@) =~= encoded_picks(table).take(0));
    while i < n
        invariant
            i <= n,
            n == table.keys().len(),
            table.wf(),
            fields_view(fields@) == encoded_picks(table).take(i as int),
        decreases n - i,
    {
        let player = table.key_at(i);
        let list = table.value_at_index(i);
        let ghost had = fields_view(fields@);
        fields.push((player.clone(), list_value(encode_texts(list))));
        proof {
            let all = encoded_picks(table);
            assert(table@.contains_key(table.keys()[i as int]));
            assert(fields_view(fields@) =~= had.push(all[i as int]));
            assert(all.take(i + 1) =~= all.take(i as int).push(all[i as int]));
        }
        i += 1;
    }
    assert(encoded_picks(table).take(n as int) =~= encoded_picks(table));
    fields
}

/// The table of picks that the fields of an object make, if each of them is
/// a list of texts.
pub fn decode_picks(fields: &Vec<(String, Json)>) -> (r: Option<TextMap<Vec<String>>>)
    ensures
        match r {
            Some(table) => table.wf() && decoded_picks(
                fields_view(fields@),
                fields@.len() as nat,
            ) == Some(picks_view(table@)),
            None => decoded_picks(fields_view(fields@), fields@.len() as nat) is None,
        },
{
    let ghost view = fields_view(fields@);
    let mut table: TextMap<Vec<String>> = TextMap::new();
    let mut i: usize = 0;
    assert(picks_view(table@) =~= Map::<Seq<char>, Seq<Seq<char>>>::empty());
    while i < fields.len()
        invariant
            i <= fields@.len(),
            view == fields_view(fields@),
            table.wf(),
            decoded_picks(view, i as nat) == Some(picks_view(table@)),
        decreases fields@.len() - i,
    {
        assert(view[i as int].1 == fields@[i as int].1@);
        let ghost had = table@;
        proof {
            lemma_views(&fields@[i as int].1);
        }
        match &fields[i].1 {
            Json::List(items) => {
                match decode_texts(items) {
                    Some(list) => {
                        let ghost shown = list.deep_view();
                        let ghost raw = list;
                        table.insert(fields[i].0.clone(), list);
                        assert(picks_view(table@) =~= picks_view(had).insert(
                            fields@[i as int].0@,
                            shown,
                        ));
                    },
                    None => {
                        proof {
                            lemma_picks_stay_refused(view, (i + 1) as nat, fields@.len() as nat);
                        }
                        return None;
                    },
                }
            },
            _ => {
                proof {
                    lemma_picks_stay_refused(view, (i + 1) as nat, fields@.len() as nat);
                }
                return None;
            },
        }
        i += 1;
    }
    Some(table)
}

proof fn lemma_picks_upto(table: &TextMap<Vec<String>>, n: nat)
    requires
        table.wf(),
        n <= table.keys().len(),
    ensures
        decoded_picks(encoded_picks(table), n) is Some,
        forall|k: Seq<char>| #[trigger]
            decoded_picks(encoded_picks(table), n).unwrap().contains_key(k) <==> exists|i: int|
                0 <= i < n && table.keys()[i] == k,
        forall|k: Seq<char>| #[trigger]
            decoded_picks(encoded_picks(table), n).unwrap().contains_key(k) ==> decoded_picks(
                encoded_picks(table),
                n,
            ).unwrap()[k] == picks_view(table@)[k],
    decreases n,
{
    table.lemma_keys();
    if n > 0 {
        lemma_picks_upto(table, (n - 1) as nat);
        let fields = encoded_picks(table);
        let new = table.keys()[n - 1];
        let list = picks_view(table@)[new];
        lemma_texts_round_trip(list, list.len());
        assert(list.take(list.len() as int) =~= list);
        let before = decoded_picks(fields, (n - 1) as nat).unwrap();
        let now = decoded_picks(fields, n).unwrap();
        assert(now == before.insert(new, list));
        assert forall|k: Seq<char>| #[trigger] now.contains_key(k) <==> exists|i: int|
            0 <= i < n && table.keys()[i] == k by {
            if before.contains_key(k) {
                let i = choose|i: int| 0 <= i < n - 1 && table.keys()[i] == k;
                assert(table.keys()[i] == k);
            }
            if exists|i: int| 0 <= i < n && table.keys()[i] == k {
                let i = choose|i: int| 0 <= i < n && table.keys()[i] == k;
                if i < n - 1 {
                    assert(before.contains_key(k));
                }
            }
            if k == new {
                assert(table.keys()[n - 1] == k);
            }
        }
    }
}

/// A table of picks that is taken apart is put together again.
pub proof fn lemma_picks_round_trip(table: &TextMap<Vec<String>>)
    requires
        table.wf(),
    ensures
        decoded_picks(encoded_picks(table), encoded_picks(table).len()) == Some(
            picks_view(table@),
        ),
{
    table.lemma_keys();
    let fields = encoded_picks(table);
    lemma_picks_upto(table, fields.len());
    let made = decoded_picks(fields, fields.len()).unwrap();
    assert(made =~= picks_view(table@)) by {
        assert forall|k: Seq<char>| made.contains_key(k) <==> picks_view(table@).contains_key(
            k,
        ) by {
            if table@.contains_key(k) {
                assert(table.keys().contains(k));
                let i = choose|i: int| 0 <= i < table.keys().len() && table.keys()[i] == k;
                assert(table.keys()[i] == k);
                assert(made.contains_key(k));
            }
            if made.contains_key(k) {
                let i = choose|i: int| 0 <= i < fields.len() && table.keys()[i] == k;
                assert(table.keys()[i] == k);
                assert(table.keys().contains(k));
            }
        }
    }
}


// ---------------------------------------------------------------------------
// The state of a team draft
// ---------------------------------------------------------------------------
/// The word for a phase.
pub open spec fn phase_word(phase: TeamDraftPhase) -> Seq<char> {
    match phase {
        TeamDraftPhase::YapperChoosing => "YapperChoosing"@,
        TeamDraftPhase::Drafting => "Drafting"@,
        TeamDraftPhase::Awarding => "Awarding"@,
        TeamDraftPhase::Complete => "Complete"@,
    }
}

/// The phase that a word stands for, if it stands for one.
pub open spec fn phase_of_word(word: Seq<char>) -> Option<TeamDraftPhase> {
    if word == "YapperChoosing"@ {
        Some(TeamDraftPhase::YapperChoosing)
    } else if word == "Drafting"@ {
        Some(TeamDraftPhase::Drafting)
    } else if word == "Awarding"@ {
        Some(TeamDraftPhase::Awarding)
    } else if word == "Complete"@ {
        Some(TeamDraftPhase::Complete)
    } else {
        None
    }
}

/// The word for a phase stands for the phase.
pub proof fn lemma_phase_word(phase: TeamDraftPhase)
    ensures
        phase_of_word(phase_word(phase)) == Some(phase),
{
    reveal_strlit("YapperChoosing");
    reveal_strlit("Drafting");
    reveal_strlit("Awarding");
    reveal_strlit("Complete");
    assert("YapperChoosing"@.len() == 14);
    assert("Drafting"@.len() == 8 && "Drafting"@[0] == 'D');
    assert("Awarding"@.len() == 8 && "Awarding"@[0] == 'A');
    assert("Complete"@.len() == 8 && "Complete"@[0] == 'C');
}

/// The word for a phase.
pub fn phase_to_word(phase: TeamDraftPhase) -> (word: &'static str)
    ensures
        word@ == phase_word(phase),
{
    match phase {
        TeamDraftPhase::YapperChoosing => "YapperChoosing",
        TeamDraftPhase::Drafting => "Drafting",
        TeamDraftPhase::Awarding => "Awarding",
        TeamDraftPhase::Complete => "Complete",
    }
}

/// The phase that a word stands for, if it stands for one.
pub fn word_to_phase(word: &str) -> (r: Option<TeamDraftPhase>)
    ensures
        r == phase_of_word(word@),
{
    if text_eq(word, "YapperChoosing") {
        Some(TeamDraftPhase::YapperChoosing)
    } else if text_eq(word, "Drafting") {
        Some(TeamDraftPhase::Drafting)
    } else if text_eq(word, "Awarding") {
        Some(TeamDraftPhase::Awarding)
    } else if text_eq(word, "Complete") {
        Some(TeamDraftPhase::Complete)
    } else {
        None
    }
}

/// The fields of a round.
pub open spec fn encoded_round(round: &Round) -> Seq<(Seq<char>, JsonView)> {
    seq![
        ("round"@, JsonView::Number(round.round as i128)),
        ("pool"@, JsonView::Text(round.pool@)),
        ("competition"@, JsonView::Text(round.competition@)),
        ("team_size"@, JsonView::Number(round.team_size as i128)),
        ("starting_drafter_id"@, JsonView::Text(round.starting_drafter_id@)),
        ("current_drafter_id"@, JsonView::Text(round.current_drafter_id@)),
        ("player_to_picks"@, JsonView::Object(encoded_picks(&round.player_to_picks))),
    ]
}

/// The fields of the state of a team draft.
pub open spec fn encoded_state(state: &TeamDraftManager) -> Seq<(Seq<char>, JsonView)> {
    seq![
        ("yapper_id"@, JsonView::Text(state.yapper_id@)),
        ("yapper_index"@, JsonView::Number(state.yapper_index as i128)),
        ("max_rounds"@, JsonView::Number(state.max_rounds as i128)),
        ("phase"@, JsonView::Text(phase_word(state.phase))),
        ("round_data"@, JsonView::Object(encoded_round(&state.round_data))),
        ("player_points"@, JsonView::Object(encoded_points(&state.player_points))),
    ]
}

/// The round that the fields of an object stand for, if they stand for one.
pub open spec fn decoded_round(fields: Seq<(Seq<char>, JsonView)>) -> Option<RoundView> {
    match (
        small_field(fields, "round"@),
        text_field(fields, "pool"@),
        text_field(fields, "competition"@),
        small_field(fields, "team_size"@),
        text_field(fields, "starting_drafter_id"@),
        text_field(fields, "current_drafter_id"@),
        object_field(fields, "player_to_picks"@),
    ) {
        (
            Some(round),
            Some(pool),
            Some(competition),
            Some(team_size),
            Some(starting_drafter_id),
            Some(current_drafter_id),
            Some(picks),
        ) => match decoded_picks(picks, picks.len()) {
            Some(player_to_picks) => Some(
                RoundView {
                    round: round as nat,
                    pool,
                    competition,
                    team_size: team_size as nat,
                    starting_drafter_id,
                    current_drafter_id,
                    player_to_picks,
                },
            ),
            None => None,
        },
        _ => None,
    }
}

/// The state of a team draft that the fields of an object stand for, if
/// they stand for one.
pub open spec fn decoded_state(fields: Seq<(Seq<char>, JsonView)>) -> Option<TeamDraftView> {
    match (
        text_field(fields, "yapper_id"@),
        small_field(fields, "yapper_index"@),
        small_field(fields, "max_rounds"@),
        text_field(fields, "phase"@),
        object_field(fields, "round_data"@),
        object_field(fields, "player_points"@),
    ) {
        (
            Some(yapper_id),
            Some(yapper_index),
            Some(max_rounds),
            Some(word),
            Some(round),
            Some(points),
        ) => match (phase_of_word(word), decoded_round(round), decoded_points(points, points.len())) {
            (Some(phase), Some(round_data), Some(player_points)) => Some(
                TeamDraftView {
                    yapper_id,
                    yapper_index: yapper_index as nat,
                    max_rounds: max_rounds as nat,
                    phase,
                    round_data,
                    player_points,
                },
            ),
            _ => None,
        },
        _ => None,
    }
}

/// The fields of a round.
pub fn encode_round(round: &Round) -> (fields: Vec<(String, Json)>)
    requires
        round.player_to_picks.wf(),
    ensures
        fields_view(fields@) == encoded_round(round),
{
    let mut fields: Vec<(String, Json)> = Vec::new();
    put(&mut fields, "round", Json::Number(round.round as i128));
    put(&mut fields, "pool", text_value(round.pool.as_str()));
    put(&mut fields, "competition", text_value(round.competition.as_str()));
    put(&mut fields, "team_size", Json::Number(round.team_size as i128));
    put(&mut fields, "starting_drafter_id", text_value(round.starting_drafter_id.as_str()));
    put(&mut fields, "current_drafter_id", text_value(round.current_drafter_id.as_str()));
    put(&mut fields, "player_to_picks", object_value(encode_picks(&round.player_to_picks)));
    assert(fields_view(fields@) =~= encoded_round(round));
    fields
}

/// The fields of the state of a team draft.
pub fn encode_state(state: &TeamDraftManager) -> (fields: Vec<(String, Json)>)
    requires
        state.wf(),
    ensures
        fields_view(fields@) == encoded_state(state),
{
    let mut fields: Vec<(String, Json)> = Vec::new();
    put(&mut fields, "yapper_id", text_value(state.yapper_id.as_str()));
    put(&mut fields, "yapper_index", Json::Number(state.yapper_index as i128));
    put(&mut fields, "max_rounds", Json::Number(state.max_rounds as i128));
    put(&mut fields, "phase", text_value(phase_to_word(state.phase)));
    put(&mut fields, "round_data", object_value(encode_round(&state.round_data)));
    put(&mut fields, "player_points", object_value(encode_points(&state.player_points)));
    assert(fields_view(fields@) =~= encoded_state(state));
    fields
}

/// The round that the fields of an object stand for, if they stand for one.
pub fn decode_round(fields: &Vec<(String, Json)>) -> (r: Option<Round>)
    ensures
        match r {
            Some(round) => round.player_to_picks.wf() && decoded_round(fields_view(fields@))
                == Some(round@),
            None => decoded_round(fields_view(fields@)) is None,
        },
{
    let round = get_small(fields, "round");
    let pool = get_text(fields, "pool");
    let competition = get_text(fields, "competition");
    let team_size = get_small(fields, "team_size");
    let starting = get_text(fields, "starting_drafter_id");
    let current = get_text(fields, "current_drafter_id");
    let picks = get_object(fields, "player_to_picks");
    match (round, pool, competition, team_size, starting, current, picks) {
        (
            Some(round),
            Some(pool),
            Some(competition),
            Some(team_size),
            Some(starting),
            Some(current),
            Some(picks),
        ) => match decode_picks(picks) {
            Some(player_to_picks) => Some(
                Round {
                    round,
                    pool: pool.clone(),
                    competition: competition.clone(),
                    team_size,
                    starting_drafter_id: starting.clone(),
                    current_drafter_id: current.clone(),
                    player_to_picks,
                },
            ),
            None => None,
        },
        _ => None,
    }
}

/// The state of a team draft that the fields of an object stand for, if
/// they stand for one.
pub fn decode_state(fields: &Vec<(String, Json)>) -> (r: Option<TeamDraftManager>)
    ensures
        match r {
            Some(state) => state.wf() && decoded_state(fields_view(fields@)) == Some(state@),
            None => decoded_state(fields_view(fields@)) is None,
        },
{
    let yapper_id = get_text(fields, "yapper_id");
    let yapper_index = get_small(fields, "yapper_index");
    let max_rounds = get_small(fields, "max_rounds");
    let word = get_text(fields, "phase");
    let round = get_object(fields, "round_data");
    let points = get_object(fields, "player_points");
    match (yapper_id, yapper_index, max_rounds, word, round, points) {
        (
            Some(yapper_id),
            Some(yapper_index),
            Some(max_rounds),
            Some(word),
            Some(round),
            Some(points),
        ) => {
            let phase = word_to_phase(word.as_str());
            let round_data = decode_round(round);
            let player_points = decode_points(points);
            match (phase, round_data, player_points) {
                (Some(phase), Some(round_data), Some(player_points)) => Some(
                    TeamDraftManager {
                        yapper_id: yapper_id.clone(),
                        yapper_index,
                        max_rounds,
                        phase,
                        round_data,
                        player_points,
                    },
                ),
                _ => None,
            }
        },
        _ => None,
    }
}

/// A round that is taken apart is put together again.
pub proof fn lemma_round_round_trip(round: &Round)
    requires
        round.player_to_picks.wf(),
    ensures
        decoded_round(encoded_round(round)) == Some(round@),
{
    reveal_strlit("round");
    reveal_strlit("pool");
    reveal_strlit("competition");
    reveal_strlit("team_size");
    reveal_strlit("starting_drafter_id");
    reveal_strlit("current_drafter_id");
    reveal_strlit("player_to_picks");
    assert("round"@.len() == 5);
    assert("pool"@.len() == 4);
    assert("competition"@.len() == 11);
    assert("team_size"@.len() == 9);
    assert("starting_drafter_id"@.len() == 19);
    assert("current_drafter_id"@.len() == 18);
    assert("player_to_picks"@.len() == 15);
    let fields = encoded_round(round);
    lemma_field_at(fields, 0);
    lemma_field_at(fields, 1);
    lemma_field_at(fields, 2);
    lemma_field_at(fields, 3);
    lemma_field_at(fields, 4);
    lemma_field_at(fields, 5);
    lemma_field_at(fields, 6);
    lemma_picks_round_trip(&round.player_to_picks);
}

/// The state of a team draft that is taken apart is put together again.
pub proof fn lemma_state_round_trip(state: &TeamDraftManager)
    requires
        state.wf(),
    ensures
        decoded_state(encoded_state(state)) == Some(state@),
{
    reveal_strlit("yapper_id");
    reveal_strlit("yapper_index");
    reveal_strlit("max_rounds");
    reveal_strlit("phase");
    reveal_strlit("round_data");
    reveal_strlit("player_points");
    assert("yapper_id"@.len() == 9);
    assert("yapper_index"@.len() == 12);
    assert("max_rounds"@.len() == 10 && "max_rounds"@[0] == 'm');
    assert("phase"@.len() == 5);
    assert("round_data"@.len() == 10 && "round_data"@[0] == 'r');
    assert("player_points"@.len() == 13);
    let fields = encoded_state(state);
    lemma_field_at(fields, 0);
    lemma_field_at(fields, 1);
    lemma_field_at(fields, 2);
    lemma_field_at(fields, 3);
    lemma_field_at(fields, 4);
    lemma_field_at(fields, 5);
    lemma_phase_word(state.phase);
    lemma_round_round_trip(&state.round_data);
    lemma_points_round_trip(&state.player_points);
}

} // verus!
