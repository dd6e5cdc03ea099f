use crate::game::game_manager::distinct_ids;
use crate::game::types::PlayerView;
use crate::team_draft::messages::TeamDraftMessageView;
use crate::team_draft::state::{
    draft_started, initial_state, is_first_position, is_player, lemma_position_of,
    next_drafter_seat, next_seat, next_state, pick_made, picks_of, points_of, position_of,
    required_sender,
    skip_yapper, teams_complete, with_pick, DEFAULT_MAX_ROUNDS, SERVER_ONLY_AUTHORIZED,
};
use crate::team_draft::types::{TeamDraftPhase, TeamDraftView};
use vstd::prelude::*;

verus! {

// ---------------------------------------------------------------------------
// Whose turn it is
// ---------------------------------------------------------------------------
/// While a draft is going on, the one whose turn it is is a player and is
/// not the yapper.
pub open spec fn drafter_in_place(s: TeamDraftView, players: Seq<PlayerView>) -> bool {
    s.phase == TeamDraftPhase::Drafting ==> is_player(players, s.round_data.current_drafter_id)
        && s.round_data.current_drafter_id != s.yapper_id
}

/// How many seats one goes from `from` to reach `to`, going round a table
/// of `n` seats.
pub open spec fn seats_between(from: int, to: int, n: int) -> int {
    if to >= from {
        to - from
    } else {
        to - from + n
    }
}

/// Where a drafter sits within reach, the search for the next drafter ends
/// at a drafter.
pub proof fn lemma_skip_ends_at_drafter(
    players: Seq<PlayerView>,
    yapper_id: Seq<char>,
    i: int,
    budget: nat,
    drafter: int,
)
    requires
        0 <= i < players.len(),
        0 <= drafter < players.len(),
        players[drafter].id != yapper_id,
        seats_between(i, drafter, players.len() as int) <= budget,
    ensures
        0 <= skip_yapper(players, yapper_id, i, budget) < players.len(),
        players[skip_yapper(players, yapper_id, i, budget)].id != yapper_id,
    decreases budget,
{
    if budget == 0 || players[i].id != yapper_id {
    } else {
        lemma_skip_ends_at_drafter(
            players,
            yapper_id,
            next_seat(i, players.len() as int),
            (budget - 1) as nat,
            drafter,
        );
    }
}

/// Where anyone but the yapper is at the table, the next drafter is a
/// player and is not the yapper.
pub proof fn lemma_next_drafter(
    players: Seq<PlayerView>,
    yapper_id: Seq<char>,
    current: int,
    drafter: int,
)
    requires
        0 <= current < players.len(),
        0 <= drafter < players.len(),
        players[drafter].id != yapper_id,
    ensures
        0 <= next_drafter_seat(players, yapper_id, current) < players.len(),
        players[next_drafter_seat(players, yapper_id, current)].id != yapper_id,
{
    lemma_skip_ends_at_drafter(
        players,
        yapper_id,
        next_seat(current, players.len() as int),
        players.len(),
        drafter,
    );
}

/// No message takes the turn away from the drafters: if the one whose turn
/// it is is a drafter before a message is handled, the same holds after it,
/// as long as a draft is only ever started with a drafter.
pub proof fn lemma_drafter_stays_in_place(
    s: TeamDraftView,
    players: Seq<PlayerView>,
    message: TeamDraftMessageView,
)
    requires
        drafter_in_place(s, players),
        message matches TeamDraftMessageView::StartDraft { starting_drafter_id } ==> is_player(
            players,
            starting_drafter_id,
        ) && starting_drafter_id != s.yapper_id,
    ensures
        drafter_in_place(next_state(s, players, message), players),
{
    match message {
        TeamDraftMessageView::DraftPick { drafter_id, pick } => {
            let picked = with_pick(s, drafter_id, pick);
            if !teams_complete(picked, players) && s.phase == TeamDraftPhase::Drafting {
                let current = s.round_data.current_drafter_id;
                lemma_position_of(players, current);
                let seat = position_of(players, current).unwrap();
                let drafter = choose|i: int|
                    0 <= i < players.len() && #[trigger] players[i].id != picked.yapper_id
                        && !(picks_of(picked, players[i].id).len() >= picked.round_data.team_size);
                lemma_next_drafter(players, s.yapper_id, seat, drafter);
                let next = next_drafter_seat(players, s.yapper_id, seat);
                assert(players[next].id == players[next].id);
            }
        },
        _ => {},
    }
}

// ---------------------------------------------------------------------------
// How many picks everyone has
// ---------------------------------------------------------------------------
/// The seat of a player who is at the table.
pub open spec fn seat_of(players: Seq<PlayerView>, id: Seq<char>) -> int {
    position_of(players, id).unwrap()
}

/// What holds of a draft that was started with a drafter and in which every
/// pick so far was made by the one whose turn it was.
///
/// The turn has gone round the table `cycles` times, starting with the
/// starting drafter. Every drafter has made `cycles` picks, and those who
/// come before the current drafter in this order have made one more. Nobody
/// has a full team yet.
pub open spec fn draft_in_order(s: TeamDraftView, players: Seq<PlayerView>, cycles: nat) -> bool {
    let n = players.len() as int;
    let start = seat_of(players, s.round_data.starting_drafter_id);
    let current = seat_of(players, s.round_data.current_drafter_id);
    &&& s.phase == TeamDraftPhase::Drafting
    &&& distinct_ids(players)
    &&& cycles < s.round_data.team_size
    &&& is_player(players, s.round_data.starting_drafter_id)
    &&& s.round_data.starting_drafter_id != s.yapper_id
    &&& is_player(players, s.round_data.current_drafter_id)
    &&& s.round_data.current_drafter_id != s.yapper_id
    &&& forall|i: int|
        0 <= i < n && #[trigger] players[i].id != s.yapper_id ==> picks_of(s, players[i].id).len()
            == cycles + if seats_between(start, i, n) < seats_between(start, current, n) {
            1int
        } else {
            0int
        }
}

/// Whether every drafter has exactly a full team.
pub open spec fn teams_exactly_full(s: TeamDraftView, players: Seq<PlayerView>) -> bool {
    forall|i: int|
        0 <= i < players.len() && #[trigger] players[i].id != s.yapper_id ==> picks_of(
            s,
            players[i].id,
        ).len() == s.round_data.team_size
}

/// Whether no drafter has more than a full team.
pub open spec fn teams_within_size(s: TeamDraftView, players: Seq<PlayerView>) -> bool {
    forall|i: int|
        0 <= i < players.len() && #[trigger] players[i].id != s.yapper_id ==> picks_of(
            s,
            players[i].id,
        ).len() <= s.round_data.team_size
}

/// At a table where no two players have the same id, a player's seat is the
/// only seat with their id.
pub proof fn lemma_own_seat(players: Seq<PlayerView>, seat: int)
    requires
        distinct_ids(players),
        0 <= seat < players.len(),
    ensures
        is_player(players, players[seat].id),
        seat_of(players, players[seat].id) == seat,
{
    let id = players[seat].id;
    assert(players[seat].id == id);
    lemma_position_of(players, id);
    let first = position_of(players, id).unwrap();
    assert(is_first_position(players, id, first));
    if first < seat {
        assert(players[first].id != players[seat].id);
    } else if seat < first {
        assert(players[seat].id != players[first].id);
    }
}

/// A draft that goes in order has no team of more than the full size.
pub proof fn lemma_in_order_within_size(s: TeamDraftView, players: Seq<PlayerView>, cycles: nat)
    requires
        draft_in_order(s, players, cycles),
    ensures
        teams_within_size(s, players),
        !teams_complete(s, players),
{
    let current = seat_of(players, s.round_data.current_drafter_id);
    lemma_position_of(players, s.round_data.current_drafter_id);
    assert(players[current].id != s.yapper_id);
}

/// A draft that is started with a drafter, for teams of at least one, goes
/// in order from its first moment.
pub proof fn lemma_start_in_order(
    s: TeamDraftView,
    players: Seq<PlayerView>,
    starting_drafter_id: Seq<char>,
)
    requires
        distinct_ids(players),
        s.round_data.team_size >= 1,
        is_player(players, starting_drafter_id),
        starting_drafter_id != s.yapper_id,
    ensures
        draft_in_order(draft_started(s, players, starting_drafter_id), players, 0),
{
    let started = draft_started(s, players, starting_drafter_id);
    lemma_position_of(players, starting_drafter_id);
    assert forall|i: int|
        0 <= i < players.len() && #[trigger] players[i].id != started.yapper_id implies picks_of(
        started,
        players[i].id,
    ).len() == 0 by {
        assert(is_player(players, players[i].id));
    }
}

/// A pick by the one whose turn it is keeps the draft in order, until it is
/// the pick that fills the last team: then the awarding begins, and every
/// drafter has exactly a full team.
pub proof fn lemma_pick_in_order(
    s: TeamDraftView,
    players: Seq<PlayerView>,
    cycles: nat,
    pick: Seq<char>,
) -> (after: nat)
    requires
        draft_in_order(s, players, cycles),
    ensures
        ({
            let next = pick_made(s, players, s.round_data.current_drafter_id, pick);
            if next.phase == TeamDraftPhase::Drafting {
                draft_in_order(next, players, after)
            } else {
                next.phase == TeamDraftPhase::Awarding && teams_exactly_full(next, players)
            }
        }),
{
    let n = players.len() as int;
    let y = s.yapper_id;
    let current_id = s.round_data.current_drafter_id;
    let start_id = s.round_data.starting_drafter_id;
    lemma_position_of(players, current_id);
    lemma_position_of(players, start_id);
    let cur = seat_of(players, current_id);
    let start = seat_of(players, start_id);
    let picked = with_pick(s, current_id, pick);
    let next = pick_made(s, players, current_id, pick);
    let dc = seats_between(start, cur, n);
    // What the pick has changed: the current drafter has one pick more, and
    // everyone else has what they had.
    assert forall|i: int| 0 <= i < n implies picks_of(picked, #[trigger] players[i].id).len() == (
    if i == cur {
        picks_of(s, players[i].id).len() + 1
    } else {
        picks_of(s, players[i].id).len()
    }) by {
        if i < cur {
            assert(players[i].id != players[cur].id);
        } else if cur < i {
            assert(players[cur].id != players[i].id);
        }
    }
    let a = next_seat(cur, n);
    let b = next_seat(a, n);
    assert(players[cur].id != y);
    assert(players[start].id != y);
    // The next drafter sits one seat on, or two where the yapper sits between.
    let to = next_drafter_seat(players, y, cur);
    assert(to == if players[a].id != y {
        a
    } else {
        b
    } && players[to].id != y) by {
        reveal_with_fuel(skip_yapper, 3);
        if players[a].id == y {
            assert(a != cur);
            if a < b {
                assert(players[a].id != players[b].id);
            } else {
                assert(players[b].id != players[a].id);
            }
        }
    }
    lemma_own_seat(players, to);
    let round_done = if players[a].id != y {
        dc == n - 1
    } else {
        dc == n - 2
    };
    if players[a].id == y {
        // The yapper does not sit at the starting seat.
        assert(dc != n - 1);
    }
    if round_done {
        assert(to == start);
        assert forall|i: int| 0 <= i < n && #[trigger] players[i].id != y implies picks_of(
            picked,
            players[i].id,
        ).len() == cycles + 1 by {
            if i != cur {
                assert(seats_between(start, i, n) != dc);
                if players[a].id == y {
                    assert(i != a);
                }
            }
        }
        if cycles + 1 >= s.round_data.team_size {
            assert(teams_complete(picked, players));
            assert(teams_exactly_full(next, players));
            cycles
        } else {
            assert(!teams_complete(picked, players));
            assert(next.round_data.current_drafter_id == players[to].id);
            assert forall|i: int| 0 <= i < n && #[trigger] players[i].id != next.yapper_id implies picks_of(
                next,
                players[i].id,
            ).len() == (cycles + 1) + if seats_between(start, i, n) < seats_between(start, to, n) {
                1int
            } else {
                0int
            } by {
                assert(picks_of(next, players[i].id) == picks_of(picked, players[i].id));
            }
            cycles + 1
        }
    } else {
        assert(picks_of(picked, players[to].id).len() == cycles) by {
            assert(to != cur);
        }
        assert(!teams_complete(picked, players));
        assert(next.round_data.current_drafter_id == players[to].id);
        assert forall|i: int| 0 <= i < n && #[trigger] players[i].id != next.yapper_id implies picks_of(
            next,
            players[i].id,
        ).len() == cycles + if seats_between(start, i, n) < seats_between(start, to, n) {
            1int
        } else {
            0int
        } by {
            assert(picks_of(next, players[i].id) == picks_of(picked, players[i].id));
            if i != cur {
                assert(seats_between(start, i, n) != dc);
                if players[a].id == y {
                    assert(i != a);
                }
            }
        }
        cycles
    }
}

/// The awarding begins with the very pick that fills the last team, and with
/// no other.
pub proof fn lemma_awarding_begins(
    s: TeamDraftView,
    players: Seq<PlayerView>,
    drafter_id: Seq<char>,
    pick: Seq<char>,
)
    ensures
        teams_complete(with_pick(s, drafter_id, pick), players) ==> pick_made(
            s,
            players,
            drafter_id,
            pick,
        ).phase == TeamDraftPhase::Awarding,
        !teams_complete(with_pick(s, drafter_id, pick), players) ==> pick_made(
            s,
            players,
            drafter_id,
            pick,
        ).phase == s.phase,
{
}

// ---------------------------------------------------------------------------
// Rounds, and who may say what
// ---------------------------------------------------------------------------
/// Whether the round that the state stands in is one of the rounds that the
/// game is played for.
pub open spec fn round_in_range(s: TeamDraftView) -> bool {
    1 <= s.round_data.round <= s.max_rounds
}

/// A fresh lobby stands in the first of its three rounds.
pub proof fn lemma_fresh_round_in_range(yapper_id: Seq<char>)
    ensures
        round_in_range(initial_state(yapper_id, 0, DEFAULT_MAX_ROUNDS as nat)),
{
}

/// No message takes the game past its last round: the point of the last
/// round ends the game, and every other point begins the next round.
pub proof fn lemma_round_stays_in_range(
    s: TeamDraftView,
    players: Seq<PlayerView>,
    message: TeamDraftMessageView,
)
    requires
        round_in_range(s),
    ensures
        round_in_range(next_state(s, players, message)),
{
}

/// What only the server sends is asked of the server alone, and everything
/// else of a player: of the yapper, or of the one whose turn it is.
pub proof fn lemma_required_sender(s: TeamDraftView, message: TeamDraftMessageView)
    ensures
        (message is AwardingPhase || message is NextDrafter || message is NextRound
            || message is CompleteGame) ==> required_sender(s, message) == SERVER_ONLY_AUTHORIZED@,
        (message is SetPool || message is SetCompetition || message is StartDraft
            || message is AwardPoint) ==> required_sender(s, message) == s.yapper_id,
        message is DraftPick ==> required_sender(s, message) == s.round_data.current_drafter_id,
{
}

// ---------------------------------------------------------------------------
// Points
// ---------------------------------------------------------------------------
/// Whether nobody has a point.
pub open spec fn points_at_zero(s: TeamDraftView) -> bool {
    forall|id: Seq<char>| #[trigger] points_of(s, id) == 0
}

/// A fresh lobby has no points, and no message leaves any behind: the point
/// of a round is told to the players and is dropped with the round. So the
/// count of a player is a number that the machine holds, whenever a point
/// is awarded in a game that began as a fresh lobby.
pub proof fn lemma_points_stay_at_zero(
    s: TeamDraftView,
    players: Seq<PlayerView>,
    message: TeamDraftMessageView,
    yapper_id: Seq<char>,
    yapper_index: nat,
    max_rounds: nat,
)
    requires
        points_at_zero(s),
    ensures
        points_at_zero(initial_state(yapper_id, yapper_index, max_rounds)),
        points_at_zero(next_state(s, players, message)),
{
    let next = next_state(s, players, message);
    assert forall|id: Seq<char>| #[trigger] points_of(next, id) == 0 by {
        assert(points_of(s, id) == 0);
    }
}

} // verus!
