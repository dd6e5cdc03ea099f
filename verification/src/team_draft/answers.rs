use crate::game::game_manager::distinct_ids;
use crate::game::messages::{GameMessageView, HaltTimer, TimerReason};
use crate::game::types::PlayerView;
use crate::team_draft::laws::lemma_own_seat;
use crate::team_draft::messages::{TeamDraftMessageView, TeamDraftTimerReason};
use crate::team_draft::state::{
    can_handle, events, initial_state, is_last_round, longest_pause, next_drafter_seat, next_seat,
    next_state, picks_of, points_of, position_of, skip_yapper, teams_complete, with_pick,
    DEFAULT_MAX_ROUNDS, DEFAULT_TEAM_SIZE, SHOWCASE_MS, TRANSITION_MS,
};
use crate::team_draft::types::{TeamDraftPhase, TeamDraftView};
use vstd::prelude::*;

verus! {

/// A pause that ends at `end_timestamp_ms`.
pub open spec fn pause_until(end_timestamp_ms: int, reason: TeamDraftTimerReason) -> GameMessageView {
    GameMessageView::HaltTimer(
        HaltTimer {
            end_timestamp_ms: end_timestamp_ms as u64,
            reason: TimerReason::TeamDraft(reason),
        },
    )
}

/// The word with which the server hands a player's message on.
pub open spec fn echo(message: TeamDraftMessageView) -> GameMessageView {
    GameMessageView::TeamDraft(message)
}

/// The seat after `seat`, going round the table, or the one after that
/// where the yapper sits at the first.
pub open spec fn seat_after(players: Seq<PlayerView>, yapper_id: Seq<char>, seat: int) -> int {
    let following = next_seat(seat, players.len() as int);
    if players[following].id != yapper_id {
        following
    } else {
        next_seat(following, players.len() as int)
    }
}

/// No message needs more room on the clock than its own pauses take: the
/// longest of them takes no more than the long pause, and a message that is
/// answered without a pause can be handled at any time.
pub proof fn lemma_pauses_are_bounded(
    s: TeamDraftView,
    players: Seq<PlayerView>,
    message: TeamDraftMessageView,
    now_ms: u64,
)
    ensures
        longest_pause(s, players, message) == 0 || longest_pause(s, players, message) == SHOWCASE_MS
            || longest_pause(s, players, message) == TRANSITION_MS,
        !(message is AwardPoint) ==> (can_handle(s, players, message, now_ms) <==> now_ms
            + longest_pause(s, players, message) <= u64::MAX),
        message is SetPool || message is SetCompetition ==> can_handle(s, players, message, now_ms),
{
}

/// The start of a draft is answered with a pause of three seconds and then
/// with the start itself, whenever the clock has room for three seconds. The
/// draft is then going on, and the turn is the starting drafter's.
pub proof fn lemma_start_is_answered(
    s: TeamDraftView,
    players: Seq<PlayerView>,
    starting_drafter_id: Seq<char>,
    now_ms: u64,
)
    ensures
        ({
            let message = TeamDraftMessageView::StartDraft { starting_drafter_id };
            let next = next_state(s, players, message);
            &&& can_handle(s, players, message, now_ms) <==> now_ms + SHOWCASE_MS <= u64::MAX
            &&& can_handle(s, players, message, now_ms) ==> events(s, players, message, now_ms)
                == seq![
                pause_until(now_ms + SHOWCASE_MS, TeamDraftTimerReason::YapperStartingDraft),
                echo(message),
            ]
            &&& next.phase == TeamDraftPhase::Drafting
            &&& next.round_data.starting_drafter_id == starting_drafter_id
            &&& next.round_data.current_drafter_id == starting_drafter_id
            &&& next.yapper_id == s.yapper_id
        }),
{
}

/// At a table where no two players have the same id, the turn goes from a
/// drafter to the next seat, round the table, and past the yapper: the next
/// drafter sits one seat on, or two where the yapper sits in between, and is
/// not the yapper.
pub proof fn lemma_turn_goes_round(players: Seq<PlayerView>, yapper_id: Seq<char>, seat: int)
    requires
        distinct_ids(players),
        0 <= seat < players.len(),
        players[seat].id != yapper_id,
    ensures
        next_drafter_seat(players, yapper_id, seat) == seat_after(players, yapper_id, seat),
        0 <= seat_after(players, yapper_id, seat) < players.len(),
        players[seat_after(players, yapper_id, seat)].id != yapper_id,
{
    let n = players.len() as int;
    let following = next_seat(seat, n);
    reveal_with_fuel(skip_yapper, 3);
    if players[following].id == yapper_id {
        assert(following != seat);
        let second = next_seat(following, n);
        assert(second != following);
        if second < following {
            assert(players[second].id != players[following].id);
        } else {
            assert(players[following].id != players[second].id);
        }
    }
}

/// A pick that leaves a team short passes the turn on. Where the one whose
/// turn it was sits at `seat`, the pick is answered with the pick itself, a
/// pause of three seconds and the name of the next drafter, who sits at the
/// seat after `seat` that is not the yapper's. The clock needs room for
/// three seconds and for no more.
pub proof fn lemma_pick_passes_the_turn(
    s: TeamDraftView,
    players: Seq<PlayerView>,
    drafter_id: Seq<char>,
    pick: Seq<char>,
    seat: int,
    now_ms: u64,
)
    requires
        distinct_ids(players),
        0 <= seat < players.len(),
        players[seat].id == s.round_data.current_drafter_id,
        s.round_data.current_drafter_id != s.yapper_id,
        !teams_complete(with_pick(s, drafter_id, pick), players),
    ensures
        ({
            let message = TeamDraftMessageView::DraftPick { drafter_id, pick };
            let next = next_state(s, players, message);
            let then = players[seat_after(players, s.yapper_id, seat)].id;
            &&& can_handle(s, players, message, now_ms) <==> now_ms + SHOWCASE_MS <= u64::MAX
            &&& can_handle(s, players, message, now_ms) ==> events(s, players, message, now_ms)
                == seq![
                echo(message),
                pause_until(now_ms + SHOWCASE_MS, TeamDraftTimerReason::DraftPickShowcase),
                echo(TeamDraftMessageView::NextDrafter { drafter_id: then }),
            ]
            &&& next.round_data.current_drafter_id == then
            &&& then != s.yapper_id
            &&& next.phase == s.phase
            &&& picks_of(next, drafter_id) == picks_of(s, drafter_id).push(pick)
            &&& forall|other: Seq<char>|
                other != drafter_id ==> #[trigger] picks_of(next, other) == picks_of(s, other)
        }),
{
    lemma_own_seat(players, seat);
    assert(position_of(players, s.round_data.current_drafter_id) == Some(seat));
    lemma_turn_goes_round(players, s.yapper_id, seat);
}

/// The pick that fills the last team is answered with the pick itself, a
/// pause of three seconds, a pause of eight seconds and the word that the
/// awarding begins; and the awarding has then begun. The clock needs room
/// for eight seconds.
pub proof fn lemma_last_pick_is_answered(
    s: TeamDraftView,
    players: Seq<PlayerView>,
    drafter_id: Seq<char>,
    pick: Seq<char>,
    now_ms: u64,
)
    requires
        teams_complete(with_pick(s, drafter_id, pick), players),
    ensures
        ({
            let message = TeamDraftMessageView::DraftPick { drafter_id, pick };
            let next = next_state(s, players, message);
            &&& can_handle(s, players, message, now_ms) <==> now_ms + TRANSITION_MS <= u64::MAX
            &&& can_handle(s, players, message, now_ms) ==> events(s, players, message, now_ms)
                == seq![
                echo(message),
                pause_until(now_ms + SHOWCASE_MS, TeamDraftTimerReason::DraftPickShowcase),
                pause_until(now_ms + TRANSITION_MS, TeamDraftTimerReason::TransitionToAwarding),
                echo(TeamDraftMessageView::AwardingPhase),
            ]
            &&& next.phase == TeamDraftPhase::Awarding
            &&& next.round_data.current_drafter_id == s.round_data.current_drafter_id
        }),
{
}

/// A point that is awarded before the last round is answered with the point
/// itself, a pause of eight seconds and the word of the next round, which is
/// played for teams of two. The player who sits after the yapper, round the
/// table, is the yapper of the next round. The round begins without pool,
/// competition, drafters, and points, whatever points there were.
pub proof fn lemma_point_begins_the_next_round(
    s: TeamDraftView,
    players: Seq<PlayerView>,
    player_id: Seq<char>,
    now_ms: u64,
)
    requires
        !is_last_round(s),
        players.len() >= 1,
    ensures
        ({
            let message = TeamDraftMessageView::AwardPoint { player_id };
            let next = next_state(s, players, message);
            let seat = (s.yapper_index + 1) as int % (players.len() as int);
            &&& can_handle(s, players, message, now_ms) <==> now_ms + TRANSITION_MS <= u64::MAX
                && seat <= 255
            &&& can_handle(s, players, message, now_ms) ==> events(s, players, message, now_ms)
                == seq![
                echo(message),
                pause_until(now_ms + TRANSITION_MS, TeamDraftTimerReason::WaitingForNextRound),
                echo(
                    TeamDraftMessageView::NextRound {
                        round: s.round_data.round + 1,
                        team_size: DEFAULT_TEAM_SIZE as nat,
                    },
                ),
            ]
            &&& next.yapper_index == seat
            &&& next.yapper_id == players[seat].id
            &&& next.max_rounds == s.max_rounds
            &&& next.phase == TeamDraftPhase::YapperChoosing
            &&& next.round_data.round == s.round_data.round + 1
            &&& next.round_data.team_size == DEFAULT_TEAM_SIZE
            &&& next.round_data.pool.len() == 0
            &&& next.round_data.competition.len() == 0
            &&& next.round_data.starting_drafter_id.len() == 0
            &&& next.round_data.current_drafter_id.len() == 0
            &&& next.player_points == Map::<Seq<char>, u8>::empty()
            &&& forall|i: int|
                0 <= i < players.len() ==> !next.round_data.player_to_picks.contains_key(
                    #[trigger] players[i].id,
                )
        }),
{
}

/// The point of the last round ends the game. It is answered with the point
/// itself and with the final count, in which the awarded player has one
/// point more than before and everyone else what they had; no pause is
/// made, so the clock needs no room. The team draft is then a fresh lobby
/// of three rounds with the first player as the yapper.
pub proof fn lemma_last_point_ends_the_game(
    s: TeamDraftView,
    players: Seq<PlayerView>,
    player_id: Seq<char>,
    now_ms: u64,
)
    requires
        is_last_round(s),
        players.len() >= 1,
    ensures
        ({
            let message = TeamDraftMessageView::AwardPoint { player_id };
            let next = next_state(s, players, message);
            &&& can_handle(s, players, message, now_ms) <==> points_of(s, player_id) < 255
            &&& can_handle(s, players, message, now_ms) ==> {
                let out = events(s, players, message, now_ms);
                &&& out.len() == 2
                &&& out[0] == echo(message)
                &&& out[1] is TeamDraft
                &&& out[1]->TeamDraft_0 is CompleteGame
                &&& {
                    let count = out[1]->TeamDraft_0->CompleteGame_player_points;
                    &&& count.dom() == s.player_points.dom().insert(player_id)
                    &&& count[player_id] == points_of(s, player_id) + 1
                    &&& forall|other: Seq<char>|
                        other != player_id && s.player_points.contains_key(other)
                            ==> #[trigger] count[other] == s.player_points[other]
                }
            }
            &&& next == initial_state(players[0].id, 0, DEFAULT_MAX_ROUNDS as nat)
        }),
{
}

} // verus!
