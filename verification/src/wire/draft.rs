use crate::team_draft::messages::{
    AwardPoint, AwardingPhase, CompleteGame, DraftPick, NextDrafter, NextRound,
    SetCompetitionMessage, SetPoolMessage, StartDraft, TeamDraftMessage, TeamDraftMessageView,
};
use crate::text::text_eq;
use crate::text_map::TextMap;
use crate::wire::json::{
    field, fields_view, get_object, get_small, get_text, is_first_named, lemma_field_is,
    object_field, object_value, put, small_field, text_field, text_value, Json, JsonView,
};
use vstd::prelude::*;
use vstd::string::*;

verus! {

// ---------------------------------------------------------------------------
// Tables of points
// ---------------------------------------------------------------------------
/// A table of points as the fields of an object: every player's points
/// under the player's id, in the order in which the table knows the players.
pub open spec fn encoded_points(table: &TextMap<u8>) -> Seq<(Seq<char>, JsonView)> {
    Seq::new(
        table.keys().len(),
        |i: int| (table.keys()[i], JsonView::Number(table@[table.keys()[i]] as i128)),
    )
}

/// The table of points that the first `n` fields of an object make, if each
/// of them is a number of at most 255; a later field of a player takes the
/// place of an earlier one.
pub open spec fn decoded_points(fields: Seq<(Seq<char>, JsonView)>, n: nat) -> Option<
    Map<Seq<char>, u8>,
>
    decreases n,
{
    if n == 0 {
        Some(Map::empty())
    } else {
        match (decoded_points(fields, (n - 1) as nat), fields[n - 1].1) {
            (Some(before), JsonView::Number(points)) => if 0 <= points <= 255 {
                Some(before.insert(fields[n - 1].0, points as u8))
            } else {
                None
            },
            _ => None,
        }
    }
}

/// A table of points as the fields of an object.
pub fn encode_points(table: &TextMap<u8>) -> (fields: Vec<(String, Json)>)
    requires
        table.wf(),
    ensures
        fields_view(fields@) == encoded_points(table),
{
    let n = table.len();
    let mut fields: Vec<(String, Json)> = Vec::new();
    let mut i: usize = 0;
    assert(fields_view(fields@) =~= encoded_points(table).take(0));
    while i < n
        invariant
            i <= n,
            n == table.keys().len(),
            table.wf(),
            fields_view(fields@) == encoded_points(table).take(i as int),
        decreases n - i,
    {
        let player = table.key_at(i);
        let points = *table.value_at_index(i);
        let ghost had = fields_view(fields@);
        fields.push((player.clone(), Json::Number(points as i128)));
        proof {
            let all = encoded_points(table);
            assert(fields_view(fields@) =~= had.push(all[i as int]));
            assert(all.take(i + 1) =~= all.take(i as int).push(all[i as int]));
        }
        i += 1;
    }
    assert(encoded_points(table).take(n as int) =~= encoded_points(table));
    fields
}

/// The table of points that the fields of an object make, if each of them is
/// a number of at most 255.
pub fn decode_points(fields: &Vec<(String, Json)>) -> (r: Option<TextMap<u8>>)
    ensures
        match r {
            Some(table) => table.wf() && decoded_points(
                fields_view(fields@),
                fields@.len() as nat,
            ) == Some(table@),
            None => decoded_points(fields_view(fields@), fields@.len() as nat) is None,
        },
{
    let ghost view = fields_view(fields@);
    let mut table: TextMap<u8> = TextMap::new();
    let mut i: usize = 0;
    while i < fields.len()
        invariant
            i <= fields@.len(),
            view == fields_view(fields@),
            table.wf(),
            decoded_points(view, i as nat) == Some(table@),
        decreases fields@.len() - i,
    {
        assert(view[i as int].1 == fields@[i as int].1@);
        match &fields[i].1 {
            Json::Number(points) => {
                if 0 <= *points && *points <= 255 {
                    table.insert(fields[i].0.clone(), *points as u8);
                } else {
                    proof {
                        lemma_points_stay_refused(view, (i + 1) as nat, fields@.len() as nat);
                    }
                    return None;
                }
            },
            _ => {
                proof {
                    lemma_points_stay_refused(view, (i + 1) as nat, fields@.len() as nat);
                }
                return None;
            },
        }
        i += 1;
    }
    Some(table)
}

/// Once a field is refused, the fields after it change nothing.
proof fn lemma_points_stay_refused(fields: Seq<(Seq<char>, JsonView)>, n: nat, m: nat)
    requires
        n <= m,
        decoded_points(fields, n) is None,
    ensures
        decoded_points(fields, m) is None,
    decreases m - n,
{
    if n < m {
        lemma_points_stay_refused(fields, n, (m - 1) as nat);
    }
}

/// A table of points that is taken apart is put together again.
pub proof fn lemma_points_round_trip(table: &TextMap<u8>)
    requires
        table.wf(),
    ensures
        decoded_points(encoded_points(table), encoded_points(table).len()) == Some(table@),
{
    table.lemma_keys();
    let fields = encoded_points(table);
    lemma_points_upto(table, fields.len());
    let made = decoded_points(fields, fields.len()).unwrap();
    assert(made =~= table@) by {
        assert forall|k: Seq<char>| made.contains_key(k) <==> table@.contains_key(k) by {
            if table@.contains_key(k) {
                assert(table.keys().contains(k));
                let i = choose|i: int| 0 <= i < table.keys().len() && table.keys()[i] == k;
                assert(table.keys()[i] == k);
                assert(made.contains_key(k));
            }
            if made.contains_key(k) {
                let i = choose|i: int| 0 <= i < fields.len() && table.keys()[i] == k;
                assert(table.keys()[i] == k);
                assert(table.keys().contains(k));
            }
        }
    }
}

proof fn lemma_points_upto(table: &TextMap<u8>, n: nat)
    requires
        table.wf(),
        n <= table.keys().len(),
    ensures
        decoded_points(encoded_points(table), n) is Some,
        forall|k: Seq<char>| #[trigger]
            decoded_points(encoded_points(table), n).unwrap().contains_key(k) <==> exists|i: int|
                0 <= i < n && table.keys()[i] == k,
        forall|k: Seq<char>| #[trigger]
            decoded_points(encoded_points(table), n).unwrap().contains_key(k) ==> decoded_points(
                encoded_points(table),
                n,
            ).unwrap()[k] == table@[k],
    decreases n,
{
    table.lemma_keys();
    if n > 0 {
        lemma_points_upto(table, (n - 1) as nat);
        let fields = encoded_points(table);
        let before = decoded_points(fields, (n - 1) as nat).unwrap();
        let now = decoded_points(fields, n).unwrap();
        let new = table.keys()[n - 1];
        assert(now == before.insert(new, table@[new]));
        assert forall|k: Seq<char>| #[trigger] now.contains_key(k) <==> exists|i: int|
            0 <= i < n && table.keys()[i] == k by {
            if before.contains_key(k) {
                let i = choose|i: int| 0 <= i < n - 1 && table.keys()[i] == k;
                assert(table.keys()[i] == k);
            }
            if exists|i: int| 0 <= i < n && table.keys()[i] == k {
                let i = choose|i: int| 0 <= i < n && table.keys()[i] == k;
                if i < n - 1 {
                    assert(before.contains_key(k));
                }
            }
            if k == new {
                assert(table.keys()[n - 1] == k);
            }
        }
    }
}


// ---------------------------------------------------------------------------
// Messages of the team draft
// ---------------------------------------------------------------------------
/// The fields of a message of the team draft: its kind under `msg_type`, and
/// what it says.
pub open spec fn encoded_draft_message(m: &TeamDraftMessage) -> Seq<(Seq<char>, JsonView)> {
    match m {
        TeamDraftMessage::SetPool(x) => seq![
            ("msg_type"@, JsonView::Text("SetPool"@)),
            ("pool"@, JsonView::Text(x.pool@)),
        ],
        TeamDraftMessage::SetCompetition(x) => seq![
            ("msg_type"@, JsonView::Text("SetCompetition"@)),
            ("competition"@, JsonView::Text(x.competition@)),
        ],
        TeamDraftMessage::StartDraft(x) => seq![
            ("msg_type"@, JsonView::Text("StartDraft"@)),
            ("starting_drafter_id"@, JsonView::Text(x.starting_drafter_id@)),
        ],
        TeamDraftMessage::DraftPick(x) => seq![
            ("msg_type"@, JsonView::Text("DraftPick"@)),
            ("drafter_id"@, JsonView::Text(x.drafter_id@)),
            ("pick"@, JsonView::Text(x.pick@)),
        ],
        TeamDraftMessage::NextDrafter(x) => seq![
            ("msg_type"@, JsonView::Text("NextDrafter"@)),
            ("drafter_id"@, JsonView::Text(x.drafter_id@)),
        ],
        TeamDraftMessage::AwardingPhase(_) => seq![
            ("msg_type"@, JsonView::Text("AwardingPhase"@)),
        ],
        TeamDraftMessage::AwardPoint(x) => seq![
            ("msg_type"@, JsonView::Text("AwardPoint"@)),
            ("player_id"@, JsonView::Text(x.player_id@)),
        ],
        TeamDraftMessage::NextRound(x) => seq![
            ("msg_type"@, JsonView::Text("NextRound"@)),
            ("round"@, JsonView::Number(x.round as i128)),
            ("team_size"@, JsonView::Number(x.team_size as i128)),
        ],
        TeamDraftMessage::CompleteGame(x) => seq![
            ("msg_type"@, JsonView::Text("CompleteGame"@)),
            ("player_points"@, JsonView::Object(encoded_points(&x.player_points))),
        ],
    }
}

/// The message of the team draft that the fields of an object stand for, if
/// they stand for one.
pub open spec fn decoded_draft_message(fields: Seq<(Seq<char>, JsonView)>) -> Option<
    TeamDraftMessageView,
> {
    match text_field(fields, "msg_type"@) {
        None => None,
        Some(kind) => if kind == "SetPool"@ {
            match text_field(fields, "pool"@) {
                Some(pool) => Some(TeamDraftMessageView::SetPool { pool }),
                None => None,
            }
        } else if kind == "SetCompetition"@ {
            match text_field(fields, "competition"@) {
                Some(competition) => Some(TeamDraftMessageView::SetCompetition { competition }),
                None => None,
            }
        } else if kind == "StartDraft"@ {
            match text_field(fields, "starting_drafter_id"@) {
                Some(starting_drafter_id) => Some(
                    TeamDraftMessageView::StartDraft { starting_drafter_id },
                ),
                None => None,
            }
        } else if kind == "DraftPick"@ {
            match (text_field(fields, "drafter_id"@), text_field(fields, "pick"@)) {
                (Some(drafter_id), Some(pick)) => Some(
                    TeamDraftMessageView::DraftPick { drafter_id, pick },
                ),
                _ => None,
            }
        } else if kind == "NextDrafter"@ {
            match text_field(fields, "drafter_id"@) {
                Some(drafter_id) => Some(TeamDraftMessageView::NextDrafter { drafter_id }),
                None => None,
            }
        } else if kind == "AwardingPhase"@ {
            Some(TeamDraftMessageView::AwardingPhase)
        } else if kind == "AwardPoint"@ {
            match text_field(fields, "player_id"@) {
                Some(player_id) => Some(TeamDraftMessageView::AwardPoint { player_id }),
                None => None,
            }
        } else if kind == "NextRound"@ {
            match (small_field(fields, "round"@), small_field(fields, "team_size"@)) {
                (Some(round), Some(team_size)) => Some(
                    TeamDraftMessageView::NextRound {
                        round: round as nat,
                        team_size: team_size as nat,
                    },
                ),
                _ => None,
            }
        } else if kind == "CompleteGame"@ {
            match object_field(fields, "player_points"@) {
                Some(inner) => match decoded_points(inner, inner.len()) {
                    Some(player_points) => Some(TeamDraftMessageView::CompleteGame { player_points }),
                    None => None,
                },
                None => None,
            }
        } else {
            None
        },
    }
}

/// Puts the fields of a message of the team draft at the end of a list of
/// fields.
pub fn append_draft_message(fields: &mut Vec<(String, Json)>, m: &TeamDraftMessage)
    requires
        m.wf(),
    ensures
        fields_view(final(fields)@) == fields_view(old(fields)@) + encoded_draft_message(m),
{
    let ghost before = fields_view(fields@);
    match m {
        TeamDraftMessage::SetPool(x) => {
            put(fields, "msg_type", text_value("SetPool"));
            put(fields, "pool", text_value(x.pool.as_str()));
        },
        TeamDraftMessage::SetCompetition(x) => {
            put(fields, "msg_type", text_value("SetCompetition"));
            put(fields, "competition", text_value(x.competition.as_str()));
        },
        TeamDraftMessage::StartDraft(x) => {
            put(fields, "msg_type", text_value("StartDraft"));
            put(fields, "starting_drafter_id", text_value(x.starting_drafter_id.as_str()));
        },
        TeamDraftMessage::DraftPick(x) => {
            put(fields, "msg_type", text_value("DraftPick"));
            put(fields, "drafter_id", text_value(x.drafter_id.as_str()));
            put(fields, "pick", text_value(x.pick.as_str()));
        },
        TeamDraftMessage::NextDrafter(x) => {
            put(fields, "msg_type", text_value("NextDrafter"));
            put(fields, "drafter_id", text_value(x.drafter_id.as_str()));
        },
        TeamDraftMessage::AwardingPhase(_) => {
            put(fields, "msg_type", text_value("AwardingPhase"));
        },
        TeamDraftMessage::AwardPoint(x) => {
            put(fields, "msg_type", text_value("AwardPoint"));
            put(fields, "player_id", text_value(x.player_id.as_str()));
        },
        TeamDraftMessage::NextRound(x) => {
            put(fields, "msg_type", text_value("NextRound"));
            put(fields, "round", Json::Number(x.round as i128));
            put(fields, "team_size", Json::Number(x.team_size as i128));
        },
        TeamDraftMessage::CompleteGame(x) => {
            put(fields, "msg_type", text_value("CompleteGame"));
            put(fields, "player_points", object_value(encode_points(&x.player_points)));
        },
    }
    assert(fields_view(fields@) =~= before + encoded_draft_message(m));
}

/// The message of the team draft that the fields of an object stand for, if
/// they stand for one.
pub fn decode_draft_message(fields: &Vec<(String, Json)>) -> (r: Option<TeamDraftMessage>)
    ensures
        match r {
            Some(m) => m.wf() && decoded_draft_message(fields_view(fields@)) == Some(m@),
            None => decoded_draft_message(fields_view(fields@)) is None,
        },
{
    let kind = match get_text(fields, "msg_type") {
        Some(kind) => kind.as_str(),
        None => {
            return None;
        },
    };
    if text_eq(kind, "SetPool") {
        match get_text(fields, "pool") {
            Some(pool) => Some(TeamDraftMessage::SetPool(SetPoolMessage { pool: pool.clone() })),
            None => None,
        }
    } else if text_eq(kind, "SetCompetition") {
        match get_text(fields, "competition") {
            Some(competition) => Some(
                TeamDraftMessage::SetCompetition(
                    SetCompetitionMessage { competition: competition.clone() },
                ),
            ),
            None => None,
        }
    } else if text_eq(kind, "StartDraft") {
        match get_text(fields, "starting_drafter_id") {
            Some(id) => Some(
                TeamDraftMessage::StartDraft(StartDraft { starting_drafter_id: id.clone() }),
            ),
            None => None,
        }
    } else if text_eq(kind, "DraftPick") {
        match (get_text(fields, "drafter_id"), get_text(fields, "pick")) {
            (Some(drafter_id), Some(pick)) => Some(
                TeamDraftMessage::DraftPick(
                    DraftPick { drafter_id: drafter_id.clone(), pick: pick.clone() },
                ),
            ),
            _ => None,
        }
    } else if text_eq(kind, "NextDrafter") {
        match get_text(fields, "drafter_id") {
            Some(id) => Some(TeamDraftMessage::NextDrafter(NextDrafter { drafter_id: id.clone() })),
            None => None,
        }
    } else if text_eq(kind, "AwardingPhase") {
        Some(TeamDraftMessage::AwardingPhase(AwardingPhase {  }))
    } else if text_eq(kind, "AwardPoint") {
        match get_text(fields, "player_id") {
            Some(id) => Some(TeamDraftMessage::AwardPoint(AwardPoint { player_id: id.clone() })),
            None => None,
        }
    } else if text_eq(kind, "NextRound") {
        match (get_small(fields, "round"), get_small(fields, "team_size")) {
            (Some(round), Some(team_size)) => Some(
                TeamDraftMessage::NextRound(NextRound { round, team_size }),
            ),
            _ => None,
        }
    } else if text_eq(kind, "CompleteGame") {
        match get_object(fields, "player_points") {
            Some(inner) => match decode_points(inner) {
                Some(player_points) => Some(
                    TeamDraftMessage::CompleteGame(CompleteGame { player_points }),
                ),
                None => None,
            },
            None => None,
        }
    } else {
        None
    }
}

/// The value at a place is the field of its name, where no place before it
/// has the same name.
pub proof fn lemma_field_at(fields: Seq<(Seq<char>, JsonView)>, i: int)
    requires
        0 <= i < fields.len(),
        forall|j: int| 0 <= j < i ==> (#[trigger] fields[j]).0 != fields[i].0,
    ensures
        field(fields, fields[i].0) == Some(fields[i].1),
{
    assert(is_first_named(fields, fields[i].0, i));
    lemma_field_is(fields, fields[i].0, i);
}

/// A message of the team draft that is taken apart is put together again,
/// also where its fields stand behind the kind of an enclosing message.
pub proof fn lemma_draft_message_round_trip(m: &TeamDraftMessage, outer: JsonView)
    requires
        m.wf(),
    ensures
        decoded_draft_message(encoded_draft_message(m)) == Some(m@),
        decoded_draft_message(seq![("type"@, outer)] + encoded_draft_message(m)) == Some(m@),
{
    reveal_strlit("type");
    reveal_strlit("msg_type");
    reveal_strlit("pool");
    reveal_strlit("competition");
    reveal_strlit("starting_drafter_id");
    reveal_strlit("drafter_id");
    reveal_strlit("pick");
    reveal_strlit("player_id");
    reveal_strlit("round");
    reveal_strlit("team_size");
    reveal_strlit("player_points");
    reveal_strlit("SetPool");
    reveal_strlit("SetCompetition");
    reveal_strlit("StartDraft");
    reveal_strlit("DraftPick");
    reveal_strlit("NextDrafter");
    reveal_strlit("AwardingPhase");
    reveal_strlit("AwardPoint");
    reveal_strlit("NextRound");
    reveal_strlit("CompleteGame");
    assert("type"@.len() == 4 && "type"@[0] == 't');
    assert("msg_type"@.len() == 8);
    assert("pool"@.len() == 4 && "pool"@[0] == 'p');
    assert("competition"@.len() == 11);
    assert("starting_drafter_id"@.len() == 19);
    assert("drafter_id"@.len() == 10);
    assert("pick"@.len() == 4 && "pick"@[0] == 'p');
    assert("player_id"@.len() == 9 && "player_id"@[0] == 'p');
    assert("round"@.len() == 5);
    assert("team_size"@.len() == 9 && "team_size"@[0] == 't');
    assert("player_points"@.len() == 13);
    assert("SetPool"@.len() == 7);
    assert("SetCompetition"@.len() == 14);
    assert("StartDraft"@.len() == 10 && "StartDraft"@[0] == 'S');
    assert("DraftPick"@.len() == 9 && "DraftPick"@[0] == 'D');
    assert("NextDrafter"@.len() == 11);
    assert("AwardingPhase"@.len() == 13);
    assert("AwardPoint"@.len() == 10 && "AwardPoint"@[0] == 'A');
    assert("NextRound"@.len() == 9 && "NextRound"@[0] == 'N');
    assert("CompleteGame"@.len() == 12);
    let alone = encoded_draft_message(m);
    let behind = seq![("type"@, outer)] + alone;
    assert(behind[0] == ("type"@, outer));
    assert forall|i: int| 0 <= i < alone.len() implies behind[i + 1] == alone[i] by {}
    lemma_field_at(alone, 0);
    lemma_field_at(behind, 1);
    if alone.len() >= 2 {
        lemma_field_at(alone, 1);
        lemma_field_at(behind, 2);
    }
    if alone.len() >= 3 {
        lemma_field_at(alone, 2);
        lemma_field_at(behind, 3);
    }
    match m {
        TeamDraftMessage::CompleteGame(x) => {
            lemma_points_round_trip(&x.player_points);
        },
        _ => {},
    }
}

} // verus!
