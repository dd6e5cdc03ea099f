use crate::cache::layout::{
    draft_key, draft_key_text, draft_prefix, draft_prefix_text, game_code_key, game_key,
    game_key_text, game_prefix, game_prefix_text, index_key_text, picks_key, picks_key_text,
    player_auth_key, player_to_game_key, player_username_key, round_key, round_key_text,
    DraftField, GameField, RoundField,
};
use crate::game::game_manager::ClosedGame;
use crate::game::types::{Game, GameView, Player, PlayerView};
use crate::team_draft::types::{picks_view, TeamDraftPhase, TeamDraftState, TeamDraftView};
use crate::text::{decimal, decimal_text, signed_decimal};
use vstd::prelude::*;
use vstd::string::*;

verus! {

/// A message as it comes from a channel of the store.
#[derive(Debug, Clone, PartialEq, Eq)]
pub struct PubSubMessage {
    pub channel: String,
    pub payload: String,
}

// ---------------------------------------------------------------------------
// What is written where
// ---------------------------------------------------------------------------
/// One command for the store.
#[derive(Debug, Clone, PartialEq, Eq)]
pub enum StoreOp {
    /// Puts `value` under `key`.
    Put { key: String, value: String },
    /// Deletes `key`.
    Delete { key: String },
    /// Appends `value` to the list under `key`.
    Push { key: String, value: String },
    /// Takes the first occurrence of `value` out of the list under `key`.
    Pull { key: String, value: String },
    /// Puts `value` under `field` in the table under `key`.
    PutField { key: String, field: String, value: String },
    /// Deletes every key that matches `pattern`.
    DeleteMatching { pattern: String },
}

pub ghost enum StoreOpView {
    Put { key: Seq<char>, value: Seq<char> },
    Delete { key: Seq<char> },
    Push { key: Seq<char>, value: Seq<char> },
    Pull { key: Seq<char>, value: Seq<char> },
    PutField { key: Seq<char>, field: Seq<char>, value: Seq<char> },
    DeleteMatching { pattern: Seq<char> },
}

impl View for StoreOp {
    type V = StoreOpView;

    open spec fn view(&self) -> StoreOpView {
        match self {
            StoreOp::Put { key, value } => StoreOpView::Put { key: key@, value: value@ },
            StoreOp::Delete { key } => StoreOpView::Delete { key: key@ },
            StoreOp::Push { key, value } => StoreOpView::Push { key: key@, value: value@ },
            StoreOp::Pull { key, value } => StoreOpView::Pull { key: key@, value: value@ },
            StoreOp::PutField { key, field, value } => StoreOpView::PutField {
                key: key@,
                field: field@,
                value: value@,
            },
            StoreOp::DeleteMatching { pattern } => StoreOpView::DeleteMatching { pattern: pattern@ },
        }
    }
}

impl DeepView for StoreOp {
    type V = StoreOpView;

    open spec fn deep_view(&self) -> StoreOpView {
        self@
    }
}

/// The pattern that matches every key below `prefix`.
pub open spec fn below(prefix: Seq<char>) -> Seq<char> {
    prefix + "::*"@
}

/// A phase as it is written into the store: its name between quotation
/// marks.
pub open spec fn phase_text(phase: TeamDraftPhase) -> Seq<char> {
    match phase {
        TeamDraftPhase::YapperChoosing => "\"YapperChoosing\""@,
        TeamDraftPhase::Drafting => "\"Drafting\""@,
        TeamDraftPhase::Awarding => "\"Awarding\""@,
        TeamDraftPhase::Complete => "\"Complete\""@,
    }
}

/// What a new player of the game `game_id` is written down with: their
/// place at the end of the list of players, their name, their token, and
/// the game that they are in.
pub open spec fn player_written(game_id: Seq<char>, player: PlayerView, token: Seq<char>) -> Seq<
    StoreOpView,
> {
    seq![
        StoreOpView::Push { key: game_key_text(game_id, GameField::Players), value: player.id },
        StoreOpView::Put {
            key: index_key_text("player_usernames"@, player.id),
            value: player.username,
        },
        StoreOpView::Put { key: index_key_text("player_auth"@, player.id), value: token },
        StoreOpView::Put { key: index_key_text("player_to_game"@, player.id), value: game_id },
    ]
}

/// What a game that `host` has just opened is written down with: its
/// fields, its code in the index of codes, and its host as its first player.
pub open spec fn game_written(game: GameView, host: PlayerView, token: Seq<char>) -> Seq<
    StoreOpView,
> {
    seq![
        StoreOpView::Put { key: game_key_text(game.id, GameField::Code), value: game.code },
        StoreOpView::Put { key: game_key_text(game.id, GameField::HostId), value: game.host_id },
        StoreOpView::Put {
            key: game_key_text(game.id, GameField::MaxPlayers),
            value: decimal(game.max_players),
        },
        StoreOpView::Put {
            key: game_key_text(game.id, GameField::CreatedAt),
            value: signed_decimal(game.created_at),
        },
        StoreOpView::Put { key: index_key_text("game_code"@, game.code), value: game.id },
    ] + player_written(game.id, host, token)
}

/// What is struck out when `player_id` leaves the game `game_id`.
pub open spec fn player_struck(game_id: Seq<char>, player_id: Seq<char>) -> Seq<StoreOpView> {
    seq![
        StoreOpView::Pull { key: game_key_text(game_id, GameField::Players), value: player_id },
        StoreOpView::Delete { key: index_key_text("player_usernames"@, player_id) },
        StoreOpView::Delete { key: index_key_text("player_to_game"@, player_id) },
        StoreOpView::Delete { key: index_key_text("player_auth"@, player_id) },
    ]
}

/// What is struck out when the game `game_id` with the code `code` has come
/// to its end: every key below the game, every key below its team draft,
/// and its code in the index of codes.
pub open spec fn game_struck(game_id: Seq<char>, code: Seq<char>) -> Seq<StoreOpView> {
    seq![
        StoreOpView::DeleteMatching { pattern: below(game_prefix_text(game_id)) },
        StoreOpView::DeleteMatching { pattern: below(draft_prefix_text(game_id)) },
        StoreOpView::Delete { key: index_key_text("game_code"@, code) },
    ]
}

/// Writes a whole number in decimal digits, with a minus sign where it is
/// negative.
pub fn signed_decimal_text(n: i32) -> (r: String)
    ensures
        r@ == signed_decimal(n as int),
{
    if n < 0 {
        let size: u64 = (-(n as i64)) as u64;
        let mut text = String::from_str("-");
        let digits = decimal_text(size);
        text.append(digits.as_str());
        text
    } else {
        decimal_text(n as u64)
    }
}

/// The commands that write down a new player of the game `game_id`.
pub fn player_ops(game_id: &str, player: &Player, auth_token: &str) -> (ops: Vec<StoreOp>)
    ensures
        ops.deep_view() == player_written(game_id@, player@, auth_token@),
{
    let mut ops: Vec<StoreOp> = Vec::new();
    ops.push(
        StoreOp::Push { key: game_key(game_id, GameField::Players), value: player.id.clone() },
    );
    ops.push(
        StoreOp::Put {
            key: player_username_key(player.id.as_str()),
            value: player.username.clone(),
        },
    );
    ops.push(
        StoreOp::Put {
            key: player_auth_key(player.id.as_str()),
            value: String::from_str(auth_token),
        },
    );
    ops.push(
        StoreOp::Put {
            key: player_to_game_key(player.id.as_str()),
            value: String::from_str(game_id),
        },
    );
    assert(ops.deep_view() =~= player_written(game_id@, player@, auth_token@));
    ops
}

/// The commands that write down a game that `host` has just opened. The
/// state of its team draft is written down by `draft_ops`.
pub fn game_ops(game: &Game, host: &Player, auth_token: &str) -> (ops: Vec<StoreOp>)
    ensures
        ops.deep_view() == game_written(game@, host@, auth_token@),
{
    let id = game.id.as_str();
    let mut ops: Vec<StoreOp> = Vec::new();
    ops.push(StoreOp::Put { key: game_key(id, GameField::Code), value: game.code.clone() });
    ops.push(StoreOp::Put { key: game_key(id, GameField::HostId), value: game.host_id.clone() });
    ops.push(
        StoreOp::Put {
            key: game_key(id, GameField::MaxPlayers),
            value: decimal_text(game.max_players as u64),
        },
    );
    ops.push(
        StoreOp::Put {
            key: game_key(id, GameField::CreatedAt),
            value: signed_decimal_text(game.created_at),
        },
    );
    ops.push(StoreOp::Put { key: game_code_key(game.code.as_str()), value: game.id.clone() });
    let ghost head = ops.deep_view();
    let mut player = player_ops(id, host, auth_token);
    let ghost tail_ops = player.deep_view();
    ops.append(&mut player);
    proof {
        assert(ops.deep_view() =~= head + tail_ops);
        assert(ops.deep_view() =~= game_written(game@, host@, auth_token@));
    }
    ops
}

/// The commands that strike out what was written down of a player who has
/// left the game `game_id`, and of the game itself where it has come to its
/// end.
pub fn leave_ops(game_id: &str, player_id: &str, closed_game: Option<&ClosedGame>) -> (ops: Vec<
    StoreOp,
>)
    ensures
        ops.deep_view() == player_struck(game_id@, player_id@) + match closed_game {
            Some(closed) => game_struck(closed.game_id@, closed.code@),
            None => Seq::empty(),
        },
{
    let mut ops: Vec<StoreOp> = Vec::new();
    ops.push(
        StoreOp::Pull {
            key: game_key(game_id, GameField::Players),
            value: String::from_str(player_id),
        },
    );
    ops.push(StoreOp::Delete { key: player_username_key(player_id) });
    ops.push(StoreOp::Delete { key: player_to_game_key(player_id) });
    ops.push(StoreOp::Delete { key: player_auth_key(player_id) });
    assert(ops.deep_view() =~= player_struck(game_id@, player_id@));
    match closed_game {
        Some(closed) => {
            let mut games = game_prefix(closed.game_id.as_str());
            games.append("::*");
            let mut drafts = draft_prefix(closed.game_id.as_str());
            drafts.append("::*");
            ops.push(StoreOp::DeleteMatching { pattern: games });
            ops.push(StoreOp::DeleteMatching { pattern: drafts });
            ops.push(StoreOp::Delete { key: game_code_key(closed.code.as_str()) });
            assert(ops.deep_view() =~= player_struck(game_id@, player_id@) + game_struck(
                closed.game_id@,
                closed.code@,
            ));
        },
        None => {
            assert(ops.deep_view() =~= player_struck(game_id@, player_id@) + Seq::empty());
        },
    }
    ops
}

/// What the fields of a team draft are written down with, after everything
/// that was kept of the team draft before is struck out.
pub open spec fn draft_fields_written(game_id: Seq<char>, state: TeamDraftView) -> Seq<StoreOpView> {
    seq![
        StoreOpView::DeleteMatching { pattern: below(draft_prefix_text(game_id)) },
        StoreOpView::Put {
            key: draft_key_text(game_id, DraftField::YapperId),
            value: state.yapper_id,
        },
        StoreOpView::Put {
            key: draft_key_text(game_id, DraftField::YapperIndex),
            value: decimal(state.yapper_index),
        },
        StoreOpView::Put {
            key: draft_key_text(game_id, DraftField::MaxRounds),
            value: decimal(state.max_rounds),
        },
        StoreOpView::Put {
            key: draft_key_text(game_id, DraftField::Phase),
            value: phase_text(state.phase),
        },
        StoreOpView::Put {
            key: round_key_text(game_id, RoundField::Round),
            value: decimal(state.round_data.round),
        },
        StoreOpView::Put {
            key: round_key_text(game_id, RoundField::TeamSize),
            value: decimal(state.round_data.team_size),
        },
        StoreOpView::Put {
            key: round_key_text(game_id, RoundField::Pool),
            value: state.round_data.pool,
        },
        StoreOpView::Put {
            key: round_key_text(game_id, RoundField::Competition),
            value: state.round_data.competition,
        },
        StoreOpView::Put {
            key: round_key_text(game_id, RoundField::StartingDrafterId),
            value: state.round_data.starting_drafter_id,
        },
        StoreOpView::Put {
            key: round_key_text(game_id, RoundField::CurrentDrafterId),
            value: state.round_data.current_drafter_id,
        },
    ]
}

/// What the picks of one player are written down with: one after the other
/// at the end of the player's list.
pub open spec fn list_written(key: Seq<char>, list: Seq<Seq<char>>) -> Seq<StoreOpView> {
    Seq::new(list.len(), |j: int| StoreOpView::Push { key, value: list[j] })
}

/// What the picks of the first `n` of `players` are written down with.
pub open spec fn picks_written(
    game_id: Seq<char>,
    players: Seq<Seq<char>>,
    picks: Map<Seq<char>, Seq<Seq<char>>>,
    n: nat,
) -> Seq<StoreOpView>
    decreases n,
{
    if n == 0 {
        Seq::empty()
    } else {
        picks_written(game_id, players, picks, (n - 1) as nat) + list_written(
            picks_key_text(game_id, players[n - 1]),
            picks[players[n - 1]],
        )
    }
}

/// What the points of `players` are written down with: each under the
/// player's id in the table of points.
pub open spec fn points_written(
    game_id: Seq<char>,
    players: Seq<Seq<char>>,
    points: Map<Seq<char>, u8>,
) -> Seq<StoreOpView> {
    Seq::new(
        players.len(),
        |i: int|
            StoreOpView::PutField {
                key: draft_key_text(game_id, DraftField::PlayerPoints),
                field: players[i],
                value: decimal(points[players[i]] as nat),
            },
    )
}

/// What a team draft is written down with: its fields, then the picks of
/// every player who has a list, then the points of every player who has
/// any, each in the order in which the table knows the players.
pub open spec fn draft_written(game_id: Seq<char>, state: &TeamDraftState) -> Seq<StoreOpView> {
    draft_fields_written(game_id, state@) + picks_written(
        game_id,
        state.round_data.player_to_picks.keys(),
        state@.round_data.player_to_picks,
        state.round_data.player_to_picks.keys().len(),
    ) + points_written(game_id, state.player_points.keys(), state@.player_points)
}

/// A phase as it is written into the store.
pub fn phase_name(phase: TeamDraftPhase) -> (r: &'static str)
    ensures
        r@ == phase_text(phase),
{
    match phase {
        TeamDraftPhase::YapperChoosing => "\"YapperChoosing\"",
        TeamDraftPhase::Drafting => "\"Drafting\"",
        TeamDraftPhase::Awarding => "\"Awarding\"",
        TeamDraftPhase::Complete => "\"Complete\"",
    }
}

/// The commands that write down the team draft of the game `game_id` as it
/// stands.
pub fn draft_ops(game_id: &str, state: &TeamDraftState) -> (ops: Vec<StoreOp>)
    requires
        state.wf(),
    ensures
        ops.deep_view() == draft_written(game_id@, state),
{
    let ghost gid = game_id@;
    let mut pattern = draft_prefix(game_id);
    pattern.append("::*");
    let mut ops: Vec<StoreOp> = Vec::new();
    ops.push(StoreOp::DeleteMatching { pattern });
    ops.push(
        StoreOp::Put {
            key: draft_key(game_id, DraftField::YapperId),
            value: state.yapper_id.clone(),
        },
    );
    ops.push(
        StoreOp::Put {
            key: draft_key(game_id, DraftField::YapperIndex),
            value: decimal_text(state.yapper_index as u64),
        },
    );
    ops.push(
        StoreOp::Put {
            key: draft_key(game_id, DraftField::MaxRounds),
            value: decimal_text(state.max_rounds as u64),
        },
    );
    ops.push(
        StoreOp::Put {
            key: draft_key(game_id, DraftField::Phase),
            value: String::from_str(phase_name(state.phase)),
        },
    );
    ops.push(
        StoreOp::Put {
            key: round_key(game_id, RoundField::Round),
            value: decimal_text(state.round_data.round as u64),
        },
    );
    ops.push(
        StoreOp::Put {
            key: round_key(game_id, RoundField::TeamSize),
            value: decimal_text(state.round_data.team_size as u64),
        },
    );
    ops.push(
        StoreOp::Put {
            key: round_key(game_id, RoundField::Pool),
            value: state.round_data.pool.clone(),
        },
    );
    ops.push(
        StoreOp::Put {
            key: round_key(game_id, RoundField::Competition),
            value: state.round_data.competition.clone(),
        },
    );
    ops.push(
        StoreOp::Put {
            key: round_key(game_id, RoundField::StartingDrafterId),
            value: state.round_data.starting_drafter_id.clone(),
        },
    );
    ops.push(
        StoreOp::Put {
            key: round_key(game_id, RoundField::CurrentDrafterId),
            value: state.round_data.current_drafter_id.clone(),
        },
    );
    assert(ops.deep_view() =~= draft_fields_written(gid, state@));
    let ghost fields = ops.deep_view();
    let picks = &state.round_data.player_to_picks;
    let ghost pick_keys = picks.keys();
    let ghost pick_map = state@.round_data.player_to_picks;
    let n = picks.len();
    let mut i: usize = 0;
    assert(fields + picks_written(gid, pick_keys, pick_map, 0) =~= fields);
    while i < n
        invariant
            i <= n,
            n == pick_keys.len(),
            gid == game_id@,
            picks.wf(),
            pick_keys == picks.keys(),
            pick_map == picks_view(picks@),
            ops.deep_view() == fields + picks_written(gid, pick_keys, pick_map, i as nat),
        decreases n - i,
    {
        let player = picks.key_at(i);
        let list = picks.value_at_index(i);
        let key = picks_key(game_id, player.as_str());
        let ghost before = ops.deep_view();
        let ghost shown = list.deep_view();
        assert(pick_map[pick_keys[i as int]] == shown);
        let mut j: usize = 0;
        assert(before + list_written(key@, shown).take(0) =~= before);
        while j < list.len()
            invariant
                j <= list@.len(),
                shown == list.deep_view(),
                ops.deep_view() == before + list_written(key@, shown).take(j as int),
            decreases list@.len() - j,
        {
            let ghost had = ops.deep_view();
            ops.push(StoreOp::Push { key: key.clone(), value: list[j].clone() });
            proof {
                assert(shown[j as int] == list@[j as int]@);
                assert(ops.deep_view() =~= had.push(list_written(key@, shown)[j as int]));
                assert(list_written(key@, shown).take(j + 1) =~= list_written(key@, shown).take(
                    j as int,
                ).push(list_written(key@, shown)[j as int]));
            }
            j += 1;
        }
        proof {
            assert(list_written(key@, shown).take(list@.len() as int) =~= list_written(
                key@,
                shown,
            ));
            assert(before + list_written(key@, shown) =~= fields + (picks_written(
                gid,
                pick_keys,
                pick_map,
                i as nat,
            ) + list_written(key@, shown)));
            assert(key@ == picks_key_text(gid, pick_keys[i as int]));
            assert(picks_written(gid, pick_keys, pick_map, (i + 1) as nat) == picks_written(
                gid,
                pick_keys,
                pick_map,
                i as nat,
            ) + list_written(key@, shown));
        }
        i += 1;
    }
    let ghost with_picks = ops.deep_view();
    let points = &state.player_points;
    let ghost point_keys = points.keys();
    let m = points.len();
    let mut k: usize = 0;
    assert(with_picks + points_written(gid, point_keys, points@).take(0) =~= with_picks);
    while k < m
        invariant
            k <= m,
            m == point_keys.len(),
            gid == game_id@,
            points.wf(),
            point_keys == points.keys(),
            ops.deep_view() == with_picks + points_written(gid, point_keys, points@).take(k as int),
        decreases m - k,
    {
        let player = points.key_at(k);
        let value = *points.value_at_index(k);
        let ghost had = ops.deep_view();
        let op = StoreOp::PutField {
            key: draft_key(game_id, DraftField::PlayerPoints),
            field: player.clone(),
            value: decimal_text(value as u64),
        };
        proof {
            let all = points_written(gid, point_keys, points@);
            assert(player@ == point_keys[k as int]);
            assert(value == points@[point_keys[k as int]]);
            assert(op@ == all[k as int]);
        }
        ops.push(op);
        proof {
            let all = points_written(gid, point_keys, points@);
            assert(ops.deep_view() =~= had.push(all[k as int]));
            assert(all.take(k + 1) =~= all.take(k as int).push(all[k as int]));
        }
        k += 1;
    }
    proof {
        let all = points_written(gid, point_keys, points@);
        assert(all.take(m as int) =~= all);
    }
    ops
}

} // verus!
