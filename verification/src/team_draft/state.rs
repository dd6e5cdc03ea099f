use crate::game::messages::{GameMessage, GameMessageView, HaltTimer, TimerReason};
use crate::game::types::{Player, PlayerView};
use crate::team_draft::messages::{
    AwardingPhase, CompleteGame, NextDrafter, NextRound, TeamDraftMessage, TeamDraftMessageView,
    TeamDraftTimerReason,
};
use crate::team_draft::types::{
    picks_view, Round, RoundView, TeamDraftPhase, TeamDraftState, TeamDraftView,
};
use crate::text_map::TextMap;
use vstd::prelude::*;
use vstd::string::*;

verus! {

/// The id that stands for the server itself. No player has it, so no token
/// matches it, and a message that only the server may send is never accepted
/// from a socket.
pub const SERVER_ONLY_AUTHORIZED: &'static str = "00000000-0000-0000-0000-000000000000";

pub const DEFAULT_TEAM_SIZE: u8 = 2;

pub const DEFAULT_MAX_ROUNDS: u8 = 3;

/// How long the start of a draft and each pick are shown, in milliseconds.
pub const SHOWCASE_MS: u64 = 3000;

/// How long the change to the awarding phase and to the next round takes, in
/// milliseconds.
pub const TRANSITION_MS: u64 = 8000;

// ---------------------------------------------------------------------------
// The model: states, and what each message does to them
// ---------------------------------------------------------------------------
/// The state that a fresh lobby starts from.
pub open spec fn initial_state(yapper_id: Seq<char>, yapper_index: nat, max_rounds: nat)
    -> TeamDraftView {
    TeamDraftView {
        yapper_id,
        yapper_index,
        max_rounds,
        phase: TeamDraftPhase::YapperChoosing,
        round_data: RoundView {
            round: 1,
            pool: Seq::empty(),
            competition: Seq::empty(),
            team_size: DEFAULT_TEAM_SIZE as nat,
            starting_drafter_id: Seq::empty(),
            current_drafter_id: Seq::empty(),
            player_to_picks: Map::empty(),
        },
        player_points: Map::empty(),
    }
}

/// What `id` has picked in this round; nothing where no list is kept.
pub open spec fn picks_of(s: TeamDraftView, id: Seq<char>) -> Seq<Seq<char>> {
    if s.round_data.player_to_picks.contains_key(id) {
        s.round_data.player_to_picks[id]
    } else {
        Seq::empty()
    }
}

/// The points of `id`; zero where none are kept.
pub open spec fn points_of(s: TeamDraftView, id: Seq<char>) -> nat {
    if s.player_points.contains_key(id) {
        s.player_points[id] as nat
    } else {
        0
    }
}

/// Whether `id` is the id of one of `players`.
pub open spec fn is_player(players: Seq<PlayerView>, id: Seq<char>) -> bool {
    exists|i: int| 0 <= i < players.len() && #[trigger] players[i].id == id
}

/// The ids of the players who draft: everyone but the yapper.
pub open spec fn drafter_ids(players: Seq<PlayerView>, yapper_id: Seq<char>) -> Set<Seq<char>> {
    Set::new(|id: Seq<char>| is_player(players, id) && id != yapper_id)
}

/// The ids of all players.
pub open spec fn all_ids(players: Seq<PlayerView>) -> Set<Seq<char>> {
    Set::new(|id: Seq<char>| is_player(players, id))
}

/// Whether every drafter has picked a full team.
pub open spec fn teams_complete(s: TeamDraftView, players: Seq<PlayerView>) -> bool {
    forall|i: int|
        0 <= i < players.len() && #[trigger] players[i].id != s.yapper_id ==> picks_of(
            s,
            players[i].id,
        ).len() >= s.round_data.team_size
}

/// The first position of `players` that holds `id`, if there is one.
pub open spec fn position_of(players: Seq<PlayerView>, id: Seq<char>) -> Option<int> {
    if is_player(players, id) {
        Some(choose|i: int| is_first_position(players, id, i))
    } else {
        None
    }
}

/// Whether `i` is the first position of `players` that holds `id`.
pub open spec fn is_first_position(players: Seq<PlayerView>, id: Seq<char>, i: int) -> bool {
    &&& 0 <= i < players.len()
    &&& players[i].id == id
    &&& forall|j: int| 0 <= j < i ==> (#[trigger] players[j]).id != id
}

/// Below every seat that holds `id` there is a first one.
proof fn lemma_first_seat(players: Seq<PlayerView>, id: Seq<char>, k: int)
    requires
        0 <= k < players.len(),
        players[k].id == id,
    ensures
        exists|i: int| is_first_position(players, id, i),
    decreases k,
{
    if exists|j: int| 0 <= j < k && (#[trigger] players[j]).id == id {
        let j = choose|j: int| 0 <= j < k && (#[trigger] players[j]).id == id;
        lemma_first_seat(players, id, j);
    } else {
        assert(is_first_position(players, id, k));
    }
}

/// A player has a first seat, and `position_of` gives it.
pub proof fn lemma_position_of(players: Seq<PlayerView>, id: Seq<char>)
    requires
        is_player(players, id),
    ensures
        position_of(players, id) is Some,
        is_first_position(players, id, position_of(players, id).unwrap()),
{
    let k = choose|k: int| 0 <= k < players.len() && #[trigger] players[k].id == id;
    lemma_first_seat(players, id, k);
}

/// The seat after `i` at a table of `n` seats.
pub open spec fn next_seat(i: int, n: int) -> int {
    if i + 1 >= n {
        0
    } else {
        i + 1
    }
}

/// The first seat from `i` on, going round the table, whose player is not the
/// yapper; after `budget` seats the search stops where it stands.
pub open spec fn skip_yapper(players: Seq<PlayerView>, yapper_id: Seq<char>, i: int, budget: nat)
    -> int
    decreases budget,
{
    if budget == 0 || players[i].id != yapper_id {
        i
    } else {
        skip_yapper(players, yapper_id, next_seat(i, players.len() as int), (budget - 1) as nat)
    }
}

/// The seat of the player who drafts after the one at seat `current`.
pub open spec fn next_drafter_seat(players: Seq<PlayerView>, yapper_id: Seq<char>, current: int)
    -> int {
    skip_yapper(players, yapper_id, next_seat(current, players.len() as int), players.len())
}

/// The state with `pool` as the pool of the round.
pub open spec fn with_pool(s: TeamDraftView, pool: Seq<char>) -> TeamDraftView {
    TeamDraftView { round_data: RoundView { pool, ..s.round_data }, ..s }
}

/// The state with `competition` as the competition of the round.
pub open spec fn with_competition(s: TeamDraftView, competition: Seq<char>) -> TeamDraftView {
    TeamDraftView { round_data: RoundView { competition, ..s.round_data }, ..s }
}

/// The points table in which every id of `ids` stands at zero.
pub open spec fn zeroed(points: Map<Seq<char>, u8>, ids: Set<Seq<char>>) -> Map<Seq<char>, u8> {
    Map::new(
        |id: Seq<char>| points.contains_key(id) || ids.contains(id),
        |id: Seq<char>|
            if ids.contains(id) {
                0u8
            } else {
                points[id]
            },
    )
}

/// The state after the yapper has started the draft with `starting_drafter_id`.
pub open spec fn draft_started(
    s: TeamDraftView,
    players: Seq<PlayerView>,
    starting_drafter_id: Seq<char>,
) -> TeamDraftView {
    TeamDraftView {
        phase: TeamDraftPhase::Drafting,
        round_data: RoundView {
            starting_drafter_id,
            current_drafter_id: starting_drafter_id,
            player_to_picks: s.round_data.player_to_picks.remove_keys(
                drafter_ids(players, s.yapper_id),
            ),
            ..s.round_data
        },
        player_points: zeroed(s.player_points, all_ids(players)),
        ..s
    }
}

/// The state with `pick` added to what `drafter_id` has picked.
pub open spec fn with_pick(s: TeamDraftView, drafter_id: Seq<char>, pick: Seq<char>)
    -> TeamDraftView {
    TeamDraftView {
        round_data: RoundView {
            player_to_picks: s.round_data.player_to_picks.insert(
                drafter_id,
                picks_of(s, drafter_id).push(pick),
            ),
            ..s.round_data
        },
        ..s
    }
}

/// The state after a pick: the awarding phase once every team is complete,
/// and otherwise the next drafter's turn (where the current drafter is no
/// player at all, the turn stays where it is).
pub open spec fn pick_made(
    s: TeamDraftView,
    players: Seq<PlayerView>,
    drafter_id: Seq<char>,
    pick: Seq<char>,
) -> TeamDraftView {
    let picked = with_pick(s, drafter_id, pick);
    if teams_complete(picked, players) {
        TeamDraftView { phase: TeamDraftPhase::Awarding, ..picked }
    } else {
        match position_of(players, s.round_data.current_drafter_id) {
            Some(seat) => TeamDraftView {
                round_data: RoundView {
                    current_drafter_id: players[next_drafter_seat(players, s.yapper_id, seat)].id,
                    ..picked.round_data
                },
                ..picked
            },
            None => picked,
        }
    }
}

/// The state with one more point for `player_id`.
pub open spec fn with_point(s: TeamDraftView, player_id: Seq<char>) -> TeamDraftView {
    TeamDraftView {
        player_points: s.player_points.insert(player_id, (points_of(s, player_id) + 1) as u8),
        ..s
    }
}

/// Whether the round that the state stands in is the last one.
pub open spec fn is_last_round(s: TeamDraftView) -> bool {
    s.round_data.round >= s.max_rounds
}

/// The seat of the yapper of the next round.
pub open spec fn next_yapper_seat(s: TeamDraftView, players: Seq<PlayerView>) -> nat {
    ((s.yapper_index + 1) as int % (players.len() as int)) as nat
}

/// The state at the start of the next round: the next player is the yapper,
/// and nothing of the old round is left but its number.
pub open spec fn next_round(s: TeamDraftView, players: Seq<PlayerView>) -> TeamDraftView {
    TeamDraftView {
        yapper_id: players[next_yapper_seat(s, players) as int].id,
        yapper_index: next_yapper_seat(s, players),
        max_rounds: s.max_rounds,
        phase: TeamDraftPhase::YapperChoosing,
        round_data: RoundView {
            round: s.round_data.round + 1,
            pool: Seq::empty(),
            competition: Seq::empty(),
            team_size: DEFAULT_TEAM_SIZE as nat,
            starting_drafter_id: Seq::empty(),
            current_drafter_id: Seq::empty(),
            player_to_picks: s.round_data.player_to_picks.remove_keys(all_ids(players)),
        },
        player_points: Map::empty(),
    }
}

/// The state after the yapper has given the round's point to `player_id`: a
/// fresh lobby after the last round, and the next round otherwise.
pub open spec fn point_awarded(s: TeamDraftView, players: Seq<PlayerView>, player_id: Seq<char>)
    -> TeamDraftView {
    if is_last_round(s) {
        initial_state(players[0].id, 0, DEFAULT_MAX_ROUNDS as nat)
    } else {
        next_round(s, players)
    }
}

/// The state that `message` leads to. A message that only the server sends
/// changes nothing.
pub open spec fn next_state(s: TeamDraftView, players: Seq<PlayerView>, message: TeamDraftMessageView)
    -> TeamDraftView {
    match message {
        TeamDraftMessageView::SetPool { pool } => with_pool(s, pool),
        TeamDraftMessageView::SetCompetition { competition } => with_competition(s, competition),
        TeamDraftMessageView::StartDraft { starting_drafter_id } => draft_started(
            s,
            players,
            starting_drafter_id,
        ),
        TeamDraftMessageView::DraftPick { drafter_id, pick } => pick_made(
            s,
            players,
            drafter_id,
            pick,
        ),
        TeamDraftMessageView::AwardPoint { player_id } => point_awarded(s, players, player_id),
        _ => s,
    }
}

/// A pause that ends `delay` milliseconds after `now_ms`.
pub open spec fn pause(now_ms: u64, delay: u64, reason: TeamDraftTimerReason) -> GameMessageView {
    GameMessageView::HaltTimer(
        HaltTimer {
            end_timestamp_ms: (now_ms + delay) as u64,
            reason: TimerReason::TeamDraft(reason),
        },
    )
}

/// The events that a pick is answered with.
pub open spec fn pick_events(
    s: TeamDraftView,
    players: Seq<PlayerView>,
    drafter_id: Seq<char>,
    pick: Seq<char>,
    now_ms: u64,
) -> Seq<GameMessageView> {
    let echo = GameMessageView::TeamDraft(TeamDraftMessageView::DraftPick { drafter_id, pick });
    if teams_complete(with_pick(s, drafter_id, pick), players) {
        seq![
            echo,
            pause(now_ms, SHOWCASE_MS, TeamDraftTimerReason::DraftPickShowcase),
            pause(now_ms, TRANSITION_MS, TeamDraftTimerReason::TransitionToAwarding),
            GameMessageView::TeamDraft(TeamDraftMessageView::AwardingPhase),
        ]
    } else {
        match position_of(players, s.round_data.current_drafter_id) {
            Some(seat) => seq![
                echo,
                pause(now_ms, SHOWCASE_MS, TeamDraftTimerReason::DraftPickShowcase),
                GameMessageView::TeamDraft(
                    TeamDraftMessageView::NextDrafter {
                        drafter_id: players[next_drafter_seat(players, s.yapper_id, seat)].id,
                    },
                ),
            ],
            None => seq![echo],
        }
    }
}

/// The events that an awarded point is answered with.
pub open spec fn award_events(s: TeamDraftView, player_id: Seq<char>, now_ms: u64) -> Seq<
    GameMessageView,
> {
    let echo = GameMessageView::TeamDraft(TeamDraftMessageView::AwardPoint { player_id });
    if is_last_round(s) {
        seq![
            echo,
            GameMessageView::TeamDraft(
                TeamDraftMessageView::CompleteGame {
                    player_points: with_point(s, player_id).player_points,
                },
            ),
        ]
    } else {
        seq![
            echo,
            pause(now_ms, TRANSITION_MS, TeamDraftTimerReason::WaitingForNextRound),
            GameMessageView::TeamDraft(
                TeamDraftMessageView::NextRound {
                    round: s.round_data.round + 1,
                    team_size: DEFAULT_TEAM_SIZE as nat,
                },
            ),
        ]
    }
}

/// The events that `message` is answered with, in the order in which they
/// are to reach the players.
pub open spec fn events(
    s: TeamDraftView,
    players: Seq<PlayerView>,
    message: TeamDraftMessageView,
    now_ms: u64,
) -> Seq<GameMessageView> {
    match message {
        TeamDraftMessageView::SetPool { pool } => seq![GameMessageView::TeamDraft(message)],
        TeamDraftMessageView::SetCompetition { competition } => seq![
            GameMessageView::TeamDraft(message),
        ],
        TeamDraftMessageView::StartDraft { starting_drafter_id } => seq![
            pause(now_ms, SHOWCASE_MS, TeamDraftTimerReason::YapperStartingDraft),
            GameMessageView::TeamDraft(message),
        ],
        TeamDraftMessageView::DraftPick { drafter_id, pick } => pick_events(
            s,
            players,
            drafter_id,
            pick,
            now_ms,
        ),
        TeamDraftMessageView::AwardPoint { player_id } => award_events(s, player_id, now_ms),
        _ => Seq::empty(),
    }
}

/// The id of the player from whom alone `message` is accepted.
pub open spec fn required_sender(s: TeamDraftView, message: TeamDraftMessageView) -> Seq<char> {
    match message {
        TeamDraftMessageView::SetPool { .. } => s.yapper_id,
        TeamDraftMessageView::SetCompetition { .. } => s.yapper_id,
        TeamDraftMessageView::StartDraft { .. } => s.yapper_id,
        TeamDraftMessageView::AwardPoint { .. } => s.yapper_id,
        TeamDraftMessageView::DraftPick { .. } => s.round_data.current_drafter_id,
        _ => SERVER_ONLY_AUTHORIZED@,
    }
}

/// The longest pause among the events that `message` is answered with, in
/// milliseconds; zero where none of them is a pause.
pub open spec fn longest_pause(
    s: TeamDraftView,
    players: Seq<PlayerView>,
    message: TeamDraftMessageView,
) -> u64 {
    match message {
        TeamDraftMessageView::StartDraft { .. } => SHOWCASE_MS,
        TeamDraftMessageView::DraftPick { drafter_id, pick } => if teams_complete(
            with_pick(s, drafter_id, pick),
            players,
        ) {
            TRANSITION_MS
        } else if position_of(players, s.round_data.current_drafter_id) is Some {
            SHOWCASE_MS
        } else {
            0
        },
        TeamDraftMessageView::AwardPoint { .. } => if is_last_round(s) {
            0
        } else {
            TRANSITION_MS
        },
        _ => 0,
    }
}

/// What the machine's limits ask of a message before it can be handled at
/// the time `now_ms`. The end of its longest pause is a time that a `u64`
/// holds. A point is awarded at a table that has a first seat; in the last
/// round the final count of the awarded player fits a `u8`, and in any other
/// round the seat of the next yapper does.
pub open spec fn can_handle(
    s: TeamDraftView,
    players: Seq<PlayerView>,
    message: TeamDraftMessageView,
    now_ms: u64,
) -> bool {
    &&& now_ms + longest_pause(s, players, message) <= u64::MAX
    &&& message matches TeamDraftMessageView::AwardPoint { player_id } ==> {
        &&& players.len() >= 1
        &&& if is_last_round(s) {
            points_of(s, player_id) < 255
        } else {
            next_yapper_seat(s, players) <= 255
        }
    }
}

// ---------------------------------------------------------------------------
// The state machine
// ---------------------------------------------------------------------------
impl TeamDraftState {
    /// The state of a fresh lobby with the given yapper and number of rounds.
    pub fn new(yapper_id: String, yapper_index: u8, max_rounds: u8) -> (state: TeamDraftState)
        ensures
            state.wf(),
            state@ == initial_state(yapper_id@, yapper_index as nat, max_rounds as nat),
    {
        let state = TeamDraftState {
            yapper_id,
            yapper_index,
            max_rounds,
            phase: TeamDraftPhase::YapperChoosing,
            round_data: Round {
                round: 1,
                pool: String::new(),
                competition: String::new(),
                team_size: DEFAULT_TEAM_SIZE,
                player_to_picks: TextMap::new(),
                starting_drafter_id: String::new(),
                current_drafter_id: String::new(),
            },
            player_points: TextMap::new(),
        };
        assert(state@.round_data.player_to_picks =~= Map::empty());
        state
    }
}

/// Whether one of the first `n` players has the id `id`.
pub open spec fn is_player_before(players: Seq<PlayerView>, n: int, id: Seq<char>) -> bool {
    exists|i: int| 0 <= i < n && i < players.len() && #[trigger] players[i].id == id
}

/// The ids of the first `n` players, without `spared` where one is given.
pub open spec fn ids_before(players: Seq<PlayerView>, n: int, spared: Option<Seq<char>>) -> Set<
    Seq<char>,
> {
    Set::new(|id: Seq<char>| is_player_before(players, n, id) && spared != Some(id))
}

/// The ids of one player more are those of the players before, and that of
/// the one more unless it is the one spared.
pub proof fn lemma_ids_before_step(players: Seq<PlayerView>, n: int, spared: Option<Seq<char>>)
    requires
        0 <= n < players.len(),
    ensures
        ids_before(players, n + 1, spared) == if spared == Some(players[n].id) {
            ids_before(players, n, spared)
        } else {
            ids_before(players, n, spared).insert(players[n].id)
        },
{
    let next = ids_before(players, n + 1, spared);
    let now = ids_before(players, n, spared);
    let id_n = players[n].id;
    assert forall|id: Seq<char>| next.contains(id) <==> (now.contains(id) || (id == id_n && spared
        != Some(id))) by {
        if is_player_before(players, n + 1, id) {
            let i = choose|i: int| 0 <= i < n + 1 && i < players.len() && players[i].id == id;
            if i < n {
                assert(is_player_before(players, n, id));
            }
        }
        if is_player_before(players, n, id) {
            let i = choose|i: int| 0 <= i < n && i < players.len() && players[i].id == id;
            assert(players[i].id == id);
            assert(is_player_before(players, n + 1, id));
        }
        if id == id_n {
            assert(players[n].id == id);
            assert(is_player_before(players, n + 1, id));
        }
    }
    if spared == Some(id_n) {
        assert(next =~= now);
    } else {
        assert(next =~= now.insert(id_n));
    }
}

/// The ids of all players are the ids of the players, and the ids of no
/// players are none.
pub proof fn lemma_ids_before_all(players: Seq<PlayerView>, yapper_id: Seq<char>)
    ensures
        ids_before(players, players.len() as int, None) == all_ids(players),
        ids_before(players, players.len() as int, Some(yapper_id)) == drafter_ids(
            players,
            yapper_id,
        ),
        ids_before(players, 0, None) == Set::<Seq<char>>::empty(),
        ids_before(players, 0, Some(yapper_id)) == Set::<Seq<char>>::empty(),
{
    let n = players.len() as int;
    assert forall|id: Seq<char>| is_player(players, id) <==> is_player_before(players, n, id) by {
        if is_player(players, id) {
            let i = choose|i: int| 0 <= i < players.len() && players[i].id == id;
            assert(players[i].id == id);
        }
        if is_player_before(players, n, id) {
            let i = choose|i: int| 0 <= i < n && i < players.len() && players[i].id == id;
            assert(players[i].id == id);
        }
    }
    assert(ids_before(players, n, None) =~= all_ids(players));
    assert(ids_before(players, n, Some(yapper_id)) =~= drafter_ids(players, yapper_id));
    assert(ids_before(players, 0, None) =~= Set::<Seq<char>>::empty());
    assert(ids_before(players, 0, Some(yapper_id)) =~= Set::<Seq<char>>::empty());
}

/// The view of an optional text.
pub open spec fn text_of(t: Option<&String>) -> Option<Seq<char>> {
    match t {
        Some(s) => Some(s@),
        None => None,
    }
}

/// Drops what each player has picked, but for the player with the id
/// `spared`, where one is given.
fn drop_picks(picks: &mut TextMap<Vec<String>>, players: &Vec<Player>, spared: Option<&String>)
    requires
        old(picks).wf(),
    ensures
        final(picks).wf(),
        picks_view(final(picks)@) == picks_view(old(picks)@).remove_keys(
            ids_before(players.deep_view(), players@.len() as int, text_of(spared)),
        ),
{
    let ghost pv = players.deep_view();
    let ghost before = picks@;
    let ghost sp = text_of(spared);
    let mut i: usize = 0;
    proof {
        lemma_ids_before_all(pv, Seq::empty());
        assert(ids_before(pv, 0, sp) =~= Set::<Seq<char>>::empty());
        assert(before.remove_keys(ids_before(pv, 0, sp)) =~= before);
    }
    while i < players.len()
        invariant
            i <= players@.len(),
            pv == players.deep_view(),
            sp == text_of(spared),
            picks.wf(),
            picks@ == before.remove_keys(ids_before(pv, i as int, sp)),
        decreases players@.len() - i,
    {
        let is_spared = match spared {
            Some(id) => players[i].id == *id,
            None => false,
        };
        proof {
            assert(pv[i as int].id == players@[i as int].id@);
            lemma_ids_before_step(pv, i as int, sp);
        }
        if !is_spared {
            let ghost prev = picks@;
            picks.remove(players[i].id.as_str());
            proof {
                assert(prev.remove(pv[i as int].id) =~= before.remove_keys(
                    ids_before(pv, i as int, sp).insert(pv[i as int].id),
                ));
            }
        }
        i += 1;
    }
    proof {
        assert(picks_view(picks@) =~= picks_view(before).remove_keys(
            ids_before(pv, players@.len() as int, sp),
        ));
    }
}

/// Puts every player's points at zero.
fn zero_points(points: &mut TextMap<u8>, players: &Vec<Player>)
    requires
        old(points).wf(),
    ensures
        final(points).wf(),
        final(points)@ == zeroed(old(points)@, all_ids(players.deep_view())),
{
    let ghost pv = players.deep_view();
    let ghost before = points@;
    let mut i: usize = 0;
    proof {
        lemma_ids_before_all(pv, Seq::empty());
        assert(zeroed(before, ids_before(pv, 0, None)) =~= before);
    }
    while i < players.len()
        invariant
            i <= players@.len(),
            pv == players.deep_view(),
            points.wf(),
            points@ == zeroed(before, ids_before(pv, i as int, None)),
        decreases players@.len() - i,
    {
        let ghost prev = points@;
        proof {
            assert(pv[i as int].id == players@[i as int].id@);
            lemma_ids_before_step(pv, i as int, None);
        }
        points.insert(players[i].id.clone(), 0);
        proof {
            assert(prev.insert(pv[i as int].id, 0u8) =~= zeroed(
                before,
                ids_before(pv, i as int, None).insert(pv[i as int].id),
            ));
        }
        i += 1;
    }
    proof {
        lemma_ids_before_all(pv, Seq::empty());
    }
}

/// Whether every drafter has picked a full team.
/// Whether one more pick by `drafter_id` would make every team complete.
fn completes_teams(
    state: &TeamDraftState,
    players: &Vec<Player>,
    drafter_id: &String,
    Ghost(pick): Ghost<Seq<char>>,
) -> (r: bool)
    requires
        state.wf(),
    ensures
        r == teams_complete(with_pick(state@, drafter_id@, pick), players.deep_view()),
{
    let ghost pv = players.deep_view();
    let ghost picked = with_pick(state@, drafter_id@, pick);
    let mut i: usize = 0;
    while i < players.len()
        invariant
            i <= players@.len(),
            pv == players.deep_view(),
            state.wf(),
            picked == with_pick(state@, drafter_id@, pick),
            forall|j: int|
                0 <= j < i && #[trigger] pv[j].id != picked.yapper_id ==> picks_of(
                    picked,
                    pv[j].id,
                ).len() >= picked.round_data.team_size,
        decreases players@.len() - i,
    {
        proof {
            assert(pv[i as int].id == players@[i as int].id@);
        }
        if players[i].id != state.yapper_id {
            let had = match state.round_data.player_to_picks.get(players[i].id.as_str()) {
                Some(list) => list.len(),
                None => 0,
            };
            assert(had == picks_of(state@, pv[i as int].id).len());
            let own = players[i].id == *drafter_id;
            assert(picks_of(picked, pv[i as int].id).len() == if own {
                had + 1
            } else {
                had as int
            });
            let short = if own {
                had < usize::MAX && had + 1 < state.round_data.team_size as usize
            } else {
                had < state.round_data.team_size as usize
            };
            if short {
                assert(pv[i as int].id != picked.yapper_id);
                return false;
            }
        }
        i += 1;
    }
    true
}

fn all_teams_complete(state: &TeamDraftState, players: &Vec<Player>) -> (r: bool)
    requires
        state.wf(),
    ensures
        r == teams_complete(state@, players.deep_view()),
{
    let ghost pv = players.deep_view();
    let mut i: usize = 0;
    while i < players.len()
        invariant
            i <= players@.len(),
            pv == players.deep_view(),
            state.wf(),
            forall|j: int|
                0 <= j < i && #[trigger] pv[j].id != state@.yapper_id ==> picks_of(
                    state@,
                    pv[j].id,
                ).len() >= state@.round_data.team_size,
        decreases players@.len() - i,
    {
        proof {
            assert(pv[i as int].id == players@[i as int].id@);
        }
        if players[i].id != state.yapper_id {
            let count = match state.round_data.player_to_picks.get(players[i].id.as_str()) {
                Some(list) => list.len(),
                None => 0,
            };
            assert(count == picks_of(state@, pv[i as int].id).len());
            if count < state.round_data.team_size as usize {
                assert(pv[i as int].id != state@.yapper_id);
                return false;
            }
        }
        i += 1;
    }
    true
}

/// The first seat that holds `id`, if there is one.
pub fn find_seat(players: &Vec<Player>, id: &String) -> (r: Option<usize>)
    ensures
        match r {
            Some(i) => position_of(players.deep_view(), id@) == Some(i as int)
                && is_first_position(players.deep_view(), id@, i as int),
            None => position_of(players.deep_view(), id@).is_none(),
        },
{
    let ghost pv = players.deep_view();
    let mut i: usize = 0;
    while i < players.len()
        invariant
            i <= players@.len(),
            pv == players.deep_view(),
            forall|j: int| 0 <= j < i ==> (#[trigger] pv[j]).id != id@,
        decreases players@.len() - i,
    {
        proof {
            assert(pv[i as int].id == players@[i as int].id@);
        }
        if players[i].id == *id {
            proof {
                assert(is_first_position(pv, id@, i as int));
                assert(is_player(pv, id@));
                let c = choose|c: int| is_first_position(pv, id@, c);
                assert(c == i);
            }
            return Some(i);
        }
        i += 1;
    }
    proof {
        if is_player(pv, id@) {
            let c = choose|c: int| 0 <= c < pv.len() && pv[c].id == id@;
            assert(pv[c].id != id@);
        }
    }
    None
}

/// The seat whose player drafts after the one at `current`.
fn find_next_drafter(players: &Vec<Player>, yapper_id: &String, current: usize) -> (r: usize)
    requires
        current < players@.len(),
    ensures
        r < players@.len(),
        r == next_drafter_seat(players.deep_view(), yapper_id@, current as int),
{
    let ghost pv = players.deep_view();
    let n = players.len();
    let mut seat: usize = if current + 1 >= n {
        0
    } else {
        current + 1
    };
    let mut left: usize = n;
    while left > 0 && players[seat].id == *yapper_id
        invariant
            n == players@.len(),
            pv == players.deep_view(),
            seat < n,
            left <= n,
            skip_yapper(pv, yapper_id@, seat as int, left as nat) == next_drafter_seat(
                pv,
                yapper_id@,
                current as int,
            ),
        decreases left,
    {
        proof {
            assert(pv[seat as int].id == players@[seat as int].id@);
        }
        seat = if seat + 1 >= n {
            0
        } else {
            seat + 1
        };
        left -= 1;
    }
    proof {
        assert(pv[seat as int].id == players@[seat as int].id@);
    }
    seat
}

/// The team draft of one game: its state, and the transitions that take it
/// from message to message.
#[derive(Debug, Clone)]
pub struct TeamDraftService {
    pub state: TeamDraftState,
}

impl TeamDraftService {
    /// The team draft of a game that `host_player` has just opened.
    pub fn new(host_player: &Player) -> (service: TeamDraftService)
        ensures
            service.state.wf(),
            service.state@ == initial_state(host_player@.id, 0, DEFAULT_MAX_ROUNDS as nat),
    {
        TeamDraftService { state: TeamDraftState::new(host_player.id.clone(), 0, DEFAULT_MAX_ROUNDS) }
    }

    /// Puts the state back to that of a fresh lobby with `host_player` as the
    /// yapper.
    pub fn init_state_cached(&mut self, host_player: &Player)
        ensures
            final(self).state.wf(),
            final(self).state@ == initial_state(host_player@.id, 0, DEFAULT_MAX_ROUNDS as nat),
    {
        self.state = TeamDraftState::new(host_player.id.clone(), 0, DEFAULT_MAX_ROUNDS);
    }

    /// Sets the number of rounds that the game is played for.
    pub fn set_game_settings(&mut self, max_rounds: u8)
        ensures
            final(self).state@ == (TeamDraftView {
                max_rounds: max_rounds as nat,
                ..old(self).state@
            }),
            final(self).state.wf() == old(self).state.wf(),
    {
        self.state.max_rounds = max_rounds;
    }

    /// The id of the player from whom alone `message` is accepted: the yapper
    /// for what the yapper decides, the current drafter for a pick, and the
    /// server's own id for what only the server sends.
    pub fn get_correct_player_source_id(&self, message: &TeamDraftMessage) -> (id: String)
        ensures
            id@ == required_sender(self.state@, message@),
    {
        match message {
            TeamDraftMessage::SetPool(_) => self.state.yapper_id.clone(),
            TeamDraftMessage::SetCompetition(_) => self.state.yapper_id.clone(),
            TeamDraftMessage::StartDraft(_) => self.state.yapper_id.clone(),
            TeamDraftMessage::AwardPoint(_) => self.state.yapper_id.clone(),
            TeamDraftMessage::DraftPick(_) => self.state.round_data.current_drafter_id.clone(),
            TeamDraftMessage::AwardingPhase(_) => String::from_str(SERVER_ONLY_AUTHORIZED),
            TeamDraftMessage::NextRound(_) => String::from_str(SERVER_ONLY_AUTHORIZED),
            TeamDraftMessage::NextDrafter(_) => String::from_str(SERVER_ONLY_AUTHORIZED),
            TeamDraftMessage::CompleteGame(_) => String::from_str(SERVER_ONLY_AUTHORIZED),
        }
    }

    /// The longest pause among the events that `message` is answered with.
    pub fn longest_pause_of(&self, players: &Vec<Player>, message: &TeamDraftMessage) -> (r: u64)
        requires
            self.state.wf(),
        ensures
            r == longest_pause(self.state@, players.deep_view(), message@),
            r <= TRANSITION_MS,
    {
        match message {
            TeamDraftMessage::StartDraft(_) => SHOWCASE_MS,
            TeamDraftMessage::DraftPick(draft_pick) => {
                if completes_teams(&self.state, players, &draft_pick.drafter_id, Ghost(draft_pick.pick@)) {
                    TRANSITION_MS
                } else {
                    match find_seat(players, &self.state.round_data.current_drafter_id) {
                        Some(_) => SHOWCASE_MS,
                        None => 0,
                    }
                }
            },
            TeamDraftMessage::AwardPoint(_) => {
                if self.state.round_data.round >= self.state.max_rounds {
                    0
                } else {
                    TRANSITION_MS
                }
            },
            _ => 0,
        }
    }

    /// Whether the machine's limits let `message` be handled at this table at
    /// the time `now_ms`.
    pub fn can_handle_message(
        &self,
        players: &Vec<Player>,
        message: &TeamDraftMessage,
        now_ms: u64,
    ) -> (r: bool)
        requires
            self.state.wf(),
        ensures
            r == can_handle(self.state@, players.deep_view(), message@, now_ms),
    {
        if now_ms > u64::MAX - self.longest_pause_of(players, message) {
            return false;
        }
        match message {
            TeamDraftMessage::AwardPoint(award) => {
                if players.len() == 0 {
                    false
                } else if self.state.round_data.round >= self.state.max_rounds {
                    let points = match self.state.player_points.get(award.player_id.as_str()) {
                        Some(p) => *p,
                        None => 0,
                    };
                    points < 255
                } else {
                    (self.state.yapper_index as usize + 1) % players.len() <= 255
                }
            },
            _ => true,
        }
    }

    /// Takes the state from `message` to the next state and gives the events
    /// to send to the players, in order. Every pause among them ends at a
    /// fixed time after `now_ms`, the time at which the message is handled.
    pub fn handle_message(
        &mut self,
        players: Vec<Player>,
        message: TeamDraftMessage,
        now_ms: u64,
    ) -> (out: Vec<GameMessage>)
        requires
            old(self).state.wf(),
            message.wf(),
            can_handle(old(self).state@, players.deep_view(), message@, now_ms),
        ensures
            final(self).state.wf(),
            final(self).state@ == next_state(old(self).state@, players.deep_view(), message@),
            out.deep_view() == events(old(self).state@, players.deep_view(), message@, now_ms),
            out@.len() == out.deep_view().len(),
            forall|i: int| 0 <= i < out@.len() ==> (#[trigger] out@[i]).wf(),
    {
        let ghost pv = players.deep_view();
        let ghost s0 = self.state@;
        let ghost m = message@;
        let mut out: Vec<GameMessage> = Vec::new();
        match message {
            TeamDraftMessage::SetPool(set_pool) => {
                self.state.round_data.pool = set_pool.pool.clone();
                out.push(GameMessage::TeamDraft(TeamDraftMessage::SetPool(set_pool)));
                assert(out.deep_view() =~= events(s0, pv, m, now_ms));
            },
            TeamDraftMessage::SetCompetition(set_competition) => {
                self.state.round_data.competition = set_competition.competition.clone();
                out.push(GameMessage::TeamDraft(TeamDraftMessage::SetCompetition(set_competition)));
                assert(out.deep_view() =~= events(s0, pv, m, now_ms));
            },
            TeamDraftMessage::StartDraft(start) => {
                self.state.phase = TeamDraftPhase::Drafting;
                self.state.round_data.starting_drafter_id = start.starting_drafter_id.clone();
                self.state.round_data.current_drafter_id = start.starting_drafter_id.clone();
                drop_picks(
                    &mut self.state.round_data.player_to_picks,
                    &players,
                    Some(&self.state.yapper_id),
                );
                zero_points(&mut self.state.player_points, &players);
                proof {
                    lemma_ids_before_all(pv, s0.yapper_id);
                }
                out.push(
                    GameMessage::HaltTimer(
                        HaltTimer {
                            end_timestamp_ms: now_ms + SHOWCASE_MS,
                            reason: TimerReason::TeamDraft(
                                TeamDraftTimerReason::YapperStartingDraft,
                            ),
                        },
                    ),
                );
                out.push(GameMessage::TeamDraft(TeamDraftMessage::StartDraft(start)));
                assert(out.deep_view() =~= events(s0, pv, m, now_ms));
            },
            TeamDraftMessage::DraftPick(draft_pick) => {
                let ghost raw = self.state.round_data.player_to_picks@;
                let mut list = match self.state.round_data.player_to_picks.remove(
                    draft_pick.drafter_id.as_str(),
                ) {
                    Some(list) => list,
                    None => Vec::new(),
                };
                assert(list.deep_view() =~= picks_of(s0, draft_pick.drafter_id@));
                let ghost had = list.deep_view();
                list.push(draft_pick.pick.clone());
                assert(list.deep_view() =~= had.push(draft_pick.pick@));
                let ghost pushed = list;
                self.state.round_data.player_to_picks.insert(draft_pick.drafter_id.clone(), list);
                proof {
                    assert(self.state.round_data.player_to_picks@ =~= raw.insert(
                        draft_pick.drafter_id@,
                        pushed,
                    ));
                    assert(picks_view(raw.insert(draft_pick.drafter_id@, pushed)) =~= picks_view(
                        raw,
                    ).insert(draft_pick.drafter_id@, pushed.deep_view()));
                    assert(self.state@ == with_pick(s0, draft_pick.drafter_id@, draft_pick.pick@));
                }
                let complete = all_teams_complete(&self.state, &players);
                if complete {
                    self.state.phase = TeamDraftPhase::Awarding;
                    out.push(GameMessage::TeamDraft(TeamDraftMessage::DraftPick(draft_pick)));
                    out.push(
                        GameMessage::HaltTimer(
                            HaltTimer {
                                end_timestamp_ms: now_ms + SHOWCASE_MS,
                                reason: TimerReason::TeamDraft(
                                    TeamDraftTimerReason::DraftPickShowcase,
                                ),
                            },
                        ),
                    );
                    out.push(
                        GameMessage::HaltTimer(
                            HaltTimer {
                                end_timestamp_ms: now_ms + TRANSITION_MS,
                                reason: TimerReason::TeamDraft(
                                    TeamDraftTimerReason::TransitionToAwarding,
                                ),
                            },
                        ),
                    );
                    out.push(
                        GameMessage::TeamDraft(TeamDraftMessage::AwardingPhase(AwardingPhase {  })),
                    );
                    assert(out.deep_view() =~= events(s0, pv, m, now_ms));
                } else {
                    match find_seat(&players, &self.state.round_data.current_drafter_id) {
                        Some(seat) => {
                            let next = find_next_drafter(&players, &self.state.yapper_id, seat);
                            assert(pv[next as int].id == players@[next as int].id@);
                            self.state.round_data.current_drafter_id = players[next].id.clone();
                            out.push(
                                GameMessage::TeamDraft(TeamDraftMessage::DraftPick(draft_pick)),
                            );
                            out.push(
                                GameMessage::HaltTimer(
                                    HaltTimer {
                                        end_timestamp_ms: now_ms + SHOWCASE_MS,
                                        reason: TimerReason::TeamDraft(
                                            TeamDraftTimerReason::DraftPickShowcase,
                                        ),
                                    },
                                ),
                            );
                            out.push(
                                GameMessage::TeamDraft(
                                    TeamDraftMessage::NextDrafter(
                                        NextDrafter { drafter_id: players[next].id.clone() },
                                    ),
                                ),
                            );
                            assert(out.deep_view() =~= events(s0, pv, m, now_ms));
                        },
                        None => {
                            out.push(
                                GameMessage::TeamDraft(TeamDraftMessage::DraftPick(draft_pick)),
                            );
                            assert(out.deep_view() =~= events(s0, pv, m, now_ms));
                        },
                    }
                }
            },
            TeamDraftMessage::AwardPoint(award) => {
                assert(pv[0].id == players@[0].id@);
                if self.state.round_data.round >= self.state.max_rounds {
                    let points = match self.state.player_points.get(award.player_id.as_str()) {
                        Some(p) => *p,
                        None => 0,
                    };
                    self.state.player_points.insert(award.player_id.clone(), points + 1);
                    assert(self.state@ == with_point(s0, award.player_id@));
                    let mut final_points: TextMap<u8> = TextMap::new();
                    core::mem::swap(&mut final_points, &mut self.state.player_points);
                    self.state = TeamDraftState::new(players[0].id.clone(), 0, DEFAULT_MAX_ROUNDS);
                    out.push(GameMessage::TeamDraft(TeamDraftMessage::AwardPoint(award)));
                    out.push(
                        GameMessage::TeamDraft(
                            TeamDraftMessage::CompleteGame(
                                CompleteGame { player_points: final_points },
                            ),
                        ),
                    );
                    assert(out.deep_view() =~= events(s0, pv, m, now_ms));
                } else {
                    let seat = (self.state.yapper_index as usize + 1) % players.len();
                    assert(seat == next_yapper_seat(s0, pv));
                    assert(pv[seat as int].id == players@[seat as int].id@);
                    let next_round_number = self.state.round_data.round + 1;
                    self.state.yapper_id = players[seat].id.clone();
                    self.state.yapper_index = seat as u8;
                    self.state.phase = TeamDraftPhase::YapperChoosing;
                    self.state.round_data.round = next_round_number;
                    self.state.round_data.team_size = DEFAULT_TEAM_SIZE;
                    self.state.round_data.pool = String::new();
                    self.state.round_data.competition = String::new();
                    self.state.round_data.starting_drafter_id = String::new();
                    self.state.round_data.current_drafter_id = String::new();
                    drop_picks(&mut self.state.round_data.player_to_picks, &players, None);
                    self.state.player_points = TextMap::new();
                    proof {
                        lemma_ids_before_all(pv, s0.yapper_id);
                    }
                    out.push(GameMessage::TeamDraft(TeamDraftMessage::AwardPoint(award)));
                    out.push(
                        GameMessage::HaltTimer(
                            HaltTimer {
                                end_timestamp_ms: now_ms + TRANSITION_MS,
                                reason: TimerReason::TeamDraft(
                                    TeamDraftTimerReason::WaitingForNextRound,
                                ),
                            },
                        ),
                    );
                    out.push(
                        GameMessage::TeamDraft(
                            TeamDraftMessage::NextRound(
                                NextRound {
                                    round: next_round_number,
                                    team_size: DEFAULT_TEAM_SIZE,
                                },
                            ),
                        ),
                    );
                    assert(out.deep_view() =~= events(s0, pv, m, now_ms));
                }
            },
            TeamDraftMessage::AwardingPhase(_) => {
                assert(out.deep_view() =~= events(s0, pv, m, now_ms));
            },
            TeamDraftMessage::CompleteGame(_) => {
                assert(out.deep_view() =~= events(s0, pv, m, now_ms));
            },
            TeamDraftMessage::NextRound(_) => {
                assert(out.deep_view() =~= events(s0, pv, m, now_ms));
            },
            TeamDraftMessage::NextDrafter(_) => {
                assert(out.deep_view() =~= events(s0, pv, m, now_ms));
            },
        }
        out
    }
}

} // verus!
