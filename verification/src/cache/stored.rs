use crate::cache::store::{phase_name, phase_text};
use crate::error::{ErrorCode, ErrorCodeView, ErrorResponse, ErrorResponseView};
use crate::game::game_manager::MAX_PLAYERS;
use crate::game::types::{Game, GameView, Player, PlayerView};
use crate::team_draft::state::{DEFAULT_MAX_ROUNDS, DEFAULT_TEAM_SIZE};
use crate::team_draft::types::{
    picks_view, Round, RoundView, TeamDraftPhase, TeamDraftState, TeamDraftView,
};
use crate::text::{parse_i32, parse_u8, signed_value, text_eq, unsigned_value};
use crate::text_map::TextMap;
use vstd::prelude::*;
use vstd::string::*;

verus! {

// ---------------------------------------------------------------------------
// What is read back
// ---------------------------------------------------------------------------
/// A player as the store holds them: their id from the list of players, and
/// their name where one is kept.
#[derive(Debug, Clone, PartialEq, Eq)]
pub struct StoredPlayer {
    pub id: String,
    pub username: Option<String>,
}

/// What the store holds of a game: each value where there is one, and the
/// players in the order of the list.
#[derive(Debug, Clone, PartialEq, Eq)]
pub struct StoredGame {
    pub code: Option<String>,
    pub host_id: Option<String>,
    pub max_players: Option<String>,
    pub created_at: Option<String>,
    pub players: Vec<StoredPlayer>,
}

/// The view of a text that may not be there.
pub open spec fn kept(t: Option<String>) -> Option<Seq<char>> {
    match t {
        Some(s) => Some(s@),
        None => None,
    }
}

/// The number of at most 255 that is kept as `t`, and `default` where
/// nothing is kept or what is kept is no such number.
pub open spec fn small_number(t: Option<Seq<char>>, default: u8) -> u8 {
    match t {
        Some(text) => match unsigned_value(text) {
            Some(v) => if v <= 255 {
                v as u8
            } else {
                default
            },
            None => default,
        },
        None => default,
    }
}

/// The time that is kept as `t`, and `now` where nothing is kept or what is
/// kept is no such number.
pub open spec fn time_kept(t: Option<Seq<char>>, now: i32) -> i32 {
    match t {
        Some(text) => match signed_value(text) {
            Some(v) => if i32::MIN <= v <= i32::MAX {
                v as i32
            } else {
                now
            },
            None => now,
        },
        None => now,
    }
}

/// The first `n` of the stored players who have a name, in order.
pub open spec fn named_players(stored: Seq<StoredPlayer>, n: nat) -> Seq<PlayerView>
    decreases n,
{
    if n == 0 {
        Seq::empty()
    } else {
        let before = named_players(stored, (n - 1) as nat);
        match stored[n - 1].username {
            Some(name) => before.push(PlayerView { id: stored[n - 1].id@, username: name@ }),
            None => before,
        }
    }
}

/// The answer to a game whose host is not kept.
pub open spec fn host_not_found_error() -> ErrorResponseView {
    ErrorResponseView { error: ErrorCodeView::GameNotFound, message: "Game host not found"@ }
}

/// Reads a number of at most 255, with `default` where there is none.
pub fn read_small_number(t: &Option<String>, default: u8) -> (r: u8)
    ensures
        r == small_number(kept(*t), default),
{
    match t {
        Some(text) => match parse_u8(text.as_str()) {
            Some(v) => v,
            None => default,
        },
        None => default,
    }
}

/// The game that the stored values stand for, read at the time `now`.
pub open spec fn game_kept(game_id: Seq<char>, stored: StoredGame, now: i32) -> Result<
    Option<GameView>,
    ErrorResponseView,
> {
    match (stored.code, stored.host_id) {
        (None, _) => Ok(None),
        (Some(_), None) => Err(host_not_found_error()),
        (Some(code), Some(host_id)) => Ok(
            Some(
                GameView {
                    id: game_id,
                    code: code@,
                    host_id: host_id@,
                    players: named_players(stored.players@, stored.players@.len()),
                    max_players: small_number(kept(stored.max_players), MAX_PLAYERS) as nat,
                    created_at: time_kept(kept(stored.created_at), now) as int,
                },
            ),
        ),
    }
}

/// The game `game_id` as the store holds it, read at the time `now`.
///
/// There is no game where no code is kept. A game without a host is a
/// failure. A game takes eight players and was made now where the store
/// does not say otherwise, and a player of whom no name is kept is passed
/// over.
pub fn read_game(game_id: &str, stored: StoredGame, now: i32) -> (r: Result<
    Option<Game>,
    ErrorResponse,
>)
    ensures
        match game_kept(game_id@, stored, now) {
            Ok(Some(game)) => r is Ok && r->Ok_0 is Some && r->Ok_0->Some_0@ == game,
            Ok(None) => r == Ok::<Option<Game>, ErrorResponse>(None),
            Err(e) => r is Err && r->Err_0@ == e,
        },
{
    let code = match stored.code {
        Some(code) => code,
        None => {
            return Ok(None);
        },
    };
    let host_id = match stored.host_id {
        Some(host_id) => host_id,
        None => {
            return Err(ErrorResponse::new(ErrorCode::GameNotFound, "Game host not found"));
        },
    };
    let max_players = read_small_number(&stored.max_players, MAX_PLAYERS);
    let created_at = match &stored.created_at {
        Some(text) => match parse_i32(text.as_str()) {
            Some(v) => v,
            None => now,
        },
        None => now,
    };
    let mut players: Vec<Player> = Vec::new();
    let mut i: usize = 0;
    assert(players.deep_view() =~= named_players(stored.players@, 0));
    while i < stored.players.len()
        invariant
            i <= stored.players@.len(),
            players.deep_view() == named_players(stored.players@, i as nat),
        decreases stored.players@.len() - i,
    {
        let ghost had = players.deep_view();
        match &stored.players[i].username {
            Some(name) => {
                let player = Player { id: stored.players[i].id.clone(), username: name.clone() };
                players.push(player);
                assert(players.deep_view() =~= had.push(player@));
            },
            None => {},
        }
        i += 1;
    }
    Ok(
        Some(
            Game { id: String::from_str(game_id), code, host_id, players, max_players, created_at },
        ),
    )
}

/// The phase that is kept as `t`; the choosing of the yapper where nothing
/// is kept or what is kept names no phase.
pub open spec fn phase_kept(t: Option<Seq<char>>) -> TeamDraftPhase {
    if t == Some(phase_text(TeamDraftPhase::Drafting)) {
        TeamDraftPhase::Drafting
    } else if t == Some(phase_text(TeamDraftPhase::Awarding)) {
        TeamDraftPhase::Awarding
    } else if t == Some(phase_text(TeamDraftPhase::Complete)) {
        TeamDraftPhase::Complete
    } else {
        TeamDraftPhase::YapperChoosing
    }
}

/// A phase that is written down is read back as itself.
pub proof fn lemma_phase_round_trip(phase: TeamDraftPhase)
    ensures
        phase_kept(Some(phase_text(phase))) == phase,
{
    reveal_strlit("\"YapperChoosing\"");
    reveal_strlit("\"Drafting\"");
    reveal_strlit("\"Awarding\"");
    reveal_strlit("\"Complete\"");
    assert("\"YapperChoosing\""@.len() == 16);
    assert("\"Drafting\""@.len() == 10 && "\"Drafting\""@[1] == 'D');
    assert("\"Awarding\""@.len() == 10 && "\"Awarding\""@[1] == 'A');
    assert("\"Complete\""@.len() == 10 && "\"Complete\""@[1] == 'C');
}

/// Reads a phase, with the choosing of the yapper where there is none.
pub fn read_phase(t: &Option<String>) -> (r: TeamDraftPhase)
    ensures
        r == phase_kept(kept(*t)),
{
    match t {
        Some(text) => {
            if text_eq(text.as_str(), phase_name(TeamDraftPhase::Drafting)) {
                TeamDraftPhase::Drafting
            } else if text_eq(text.as_str(), phase_name(TeamDraftPhase::Awarding)) {
                TeamDraftPhase::Awarding
            } else if text_eq(text.as_str(), phase_name(TeamDraftPhase::Complete)) {
                TeamDraftPhase::Complete
            } else {
                TeamDraftPhase::YapperChoosing
            }
        },
        None => TeamDraftPhase::YapperChoosing,
    }
}

/// What the store holds of a team draft: each value where there is one, the
/// lists of picks by player, and the table of points as it is kept, in text.
#[derive(Debug, Clone, PartialEq, Eq)]
pub struct StoredDraft {
    pub yapper_id: Option<String>,
    pub yapper_index: Option<String>,
    pub max_rounds: Option<String>,
    pub phase: Option<String>,
    pub round: Option<String>,
    pub team_size: Option<String>,
    pub pool: Option<String>,
    pub competition: Option<String>,
    pub starting_drafter_id: Option<String>,
    pub current_drafter_id: Option<String>,
    pub picks: Vec<(String, Vec<String>)>,
    pub points: Vec<(String, String)>,
}

/// The text that is kept as `t`, and the empty text where nothing is kept.
pub open spec fn text_kept(t: Option<Seq<char>>) -> Seq<char> {
    match t {
        Some(text) => text,
        None => Seq::empty(),
    }
}

/// The table of picks that the first `n` stored lists make; a later list
/// of a player takes the place of an earlier one.
pub open spec fn picks_kept(stored: Seq<(String, Vec<String>)>, n: nat) -> Map<
    Seq<char>,
    Seq<Seq<char>>,
>
    decreases n,
{
    if n == 0 {
        Map::empty()
    } else {
        picks_kept(stored, (n - 1) as nat).insert(stored[n - 1].0@, stored[n - 1].1.deep_view())
    }
}

/// The table of points that the first `n` stored entries make; an entry
/// that is no number of at most 255 is passed over.
pub open spec fn points_kept(stored: Seq<(String, String)>, n: nat) -> Map<Seq<char>, u8>
    decreases n,
{
    if n == 0 {
        Map::empty()
    } else {
        let before = points_kept(stored, (n - 1) as nat);
        match unsigned_value(stored[n - 1].1@) {
            Some(v) => if v <= 255 {
                before.insert(stored[n - 1].0@, v as u8)
            } else {
                before
            },
            None => before,
        }
    }
}

/// The state that the stored values of a team draft stand for.
pub open spec fn draft_kept(stored: StoredDraft) -> TeamDraftView {
    TeamDraftView {
        yapper_id: text_kept(kept(stored.yapper_id)),
        yapper_index: small_number(kept(stored.yapper_index), 0) as nat,
        max_rounds: small_number(kept(stored.max_rounds), DEFAULT_MAX_ROUNDS) as nat,
        phase: phase_kept(kept(stored.phase)),
        round_data: RoundView {
            round: small_number(kept(stored.round), 1) as nat,
            pool: text_kept(kept(stored.pool)),
            competition: text_kept(kept(stored.competition)),
            team_size: small_number(kept(stored.team_size), DEFAULT_TEAM_SIZE) as nat,
            starting_drafter_id: text_kept(kept(stored.starting_drafter_id)),
            current_drafter_id: text_kept(kept(stored.current_drafter_id)),
            player_to_picks: picks_kept(stored.picks@, stored.picks@.len()),
        },
        player_points: points_kept(stored.points@, stored.points@.len()),
    }
}

/// Reads a text, with the empty text where there is none.
fn read_text(t: Option<String>) -> (r: String)
    ensures
        r@ == text_kept(kept(t)),
{
    match t {
        Some(text) => text,
        None => String::new(),
    }
}

/// The team draft as the store holds it.
///
/// Where the store does not say otherwise, the yapper sits at the first
/// seat, the game has three rounds and stands in its first, a team has two
/// picks, the yapper is choosing, and every text is empty.
pub fn read_draft(stored: StoredDraft) -> (state: TeamDraftState)
    ensures
        state.wf(),
        state@ == draft_kept(stored),
{
    let yapper_index = read_small_number(&stored.yapper_index, 0);
    let max_rounds = read_small_number(&stored.max_rounds, DEFAULT_MAX_ROUNDS);
    let round = read_small_number(&stored.round, 1);
    let team_size = read_small_number(&stored.team_size, DEFAULT_TEAM_SIZE);
    let phase = read_phase(&stored.phase);
    let ghost stored_picks = stored.picks@;
    let ghost stored_points = stored.points@;
    let mut lists = stored.picks;
    let mut picks: TextMap<Vec<String>> = TextMap::new();
    let n = lists.len();
    let mut taken: Vec<(String, Vec<String>)> = Vec::new();
    // The lists are taken from the end and put back in their order.
    while lists.len() > 0
        invariant
            lists@.len() + taken@.len() == n,
            n == stored_picks.len(),
            forall|i: int| 0 <= i < lists@.len() ==> lists@[i] == stored_picks[i],
            forall|i: int| 0 <= i < taken@.len() ==> taken@[i] == stored_picks[n - 1 - i],
        decreases lists@.len(),
    {
        match lists.pop() {
            Some(entry) => taken.push(entry),
            None => {},
        }
    }
    assert(picks_view(picks@) =~= picks_kept(stored_picks, 0));
    while taken.len() > 0
        invariant
            taken@.len() <= n,
            n == stored_picks.len(),
            forall|i: int| 0 <= i < taken@.len() ==> taken@[i] == stored_picks[n - 1 - i],
            picks.wf(),
            picks_view(picks@) == picks_kept(stored_picks, (n - taken@.len()) as nat),
        decreases taken@.len(),
    {
        let ghost before = picks@;
        let ghost at = n - taken@.len();
        match taken.pop() {
            Some(entry) => {
                assert(entry == stored_picks[at]);
                let (player, list) = entry;
                picks.insert(player, list);
                assert(picks_view(picks@) =~= picks_view(before).insert(
                    stored_picks[at].0@,
                    stored_picks[at].1.deep_view(),
                ));
            },
            None => {},
        }
    }
    let mut points: TextMap<u8> = TextMap::new();
    let mut k: usize = 0;
    assert(points@ =~= points_kept(stored_points, 0));
    while k < stored.points.len()
        invariant
            k <= stored.points@.len(),
            stored_points == stored.points@,
            points.wf(),
            points@ == points_kept(stored_points, k as nat),
        decreases stored.points@.len() - k,
    {
        match parse_u8(stored.points[k].1.as_str()) {
            Some(v) => {
                points.insert(stored.points[k].0.clone(), v);
            },
            None => {},
        }
        k += 1;
    }
    TeamDraftState {
        yapper_id: read_text(stored.yapper_id),
        yapper_index,
        max_rounds,
        phase,
        round_data: Round {
            round,
            pool: read_text(stored.pool),
            competition: read_text(stored.competition),
            team_size,
            starting_drafter_id: read_text(stored.starting_drafter_id),
            current_drafter_id: read_text(stored.current_drafter_id),
            player_to_picks: picks,
        },
        player_points: points,
    }
}

} // verus!
