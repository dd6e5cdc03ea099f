use crate::game::game_manager::{farewell, GameManager, RegistryView};
use crate::game::messages::{
    GameMessage, GameMessageView, GameMode, GameStartedView, WebSocketMessage,
    WebSocketMessageView,
};
use crate::team_draft::messages::TeamDraftMessageView;
use crate::team_draft::state::{
    can_handle, events, initial_state, longest_pause, next_state, required_sender,
    SERVER_ONLY_AUTHORIZED,
};
use crate::team_draft::types::{TeamDraftState, TeamDraftView};
use crate::text::{after_prefix, strip_prefix};
use vstd::prelude::*;
use vstd::string::*;

verus! {

/// What one step of a game's serializer sends to every node: the events that
/// one message has led to, in the order in which they are to reach the
/// players, with the game and the player whose action caused them.
#[derive(Debug, Clone)]
pub struct BroadcastMessageChunk {
    pub game_id: String,
    pub player_id: String,
    pub messages: Vec<GameMessage>,
}

pub ghost struct ChunkView {
    pub game_id: Seq<char>,
    pub player_id: Seq<char>,
    pub messages: Seq<GameMessageView>,
}

impl View for BroadcastMessageChunk {
    type V = ChunkView;

    open spec fn view(&self) -> ChunkView {
        ChunkView {
            game_id: self.game_id@,
            player_id: self.player_id@,
            messages: self.messages.deep_view(),
        }
    }
}

impl BroadcastMessageChunk {
    /// Whether every table in the chunk's messages is well formed.
    pub open spec fn wf(&self) -> bool {
        forall|i: int| 0 <= i < self.messages@.len() ==> (#[trigger] self.messages@[i]).wf()
    }
}

/// The view of a chunk that may not be there.
pub open spec fn chunk_view(chunk: Option<BroadcastMessageChunk>) -> Option<ChunkView> {
    match chunk {
        Some(c) => Some(c@),
        None => None,
    }
}

// ---------------------------------------------------------------------------
// One step of a game's serializer
// ---------------------------------------------------------------------------
/// The chunk of a single event.
pub open spec fn single(game_id: Seq<char>, player_id: Seq<char>, message: GameMessageView)
    -> ChunkView {
    ChunkView { game_id, player_id, messages: seq![message] }
}

/// Whether the game `game_id` takes the team draft message `inner` from a
/// sender who shows `token`, at the time `now_ms`.
///
/// The token must be that of the one player from whom the message is
/// accepted. No player is the server, so a message that only the server
/// sends is never taken. The machine's limits must let the message be
/// handled.
pub open spec fn accepted(
    r: RegistryView,
    game_id: Seq<char>,
    token: Option<Seq<char>>,
    inner: TeamDraftMessageView,
    now_ms: u64,
) -> bool {
    &&& token is Some
    &&& r.has_game(game_id)
    &&& {
        let required = required_sender(r.drafts[game_id], inner);
        &&& required != SERVER_ONLY_AUTHORIZED@
        &&& r.player_auth.contains_key(required)
        &&& r.player_auth[required] == token->Some_0
    }
    &&& can_handle(r.drafts[game_id], r.games[game_id].players, inner, now_ms)
}

/// The registry after the serializer of the game `game_id` has taken
/// `message`, and the chunk that it publishes, if it publishes one.
pub open spec fn processed(
    r: RegistryView,
    game_id: Seq<char>,
    message: WebSocketMessageView,
    now_ms: u64,
) -> (RegistryView, Option<ChunkView>) {
    match message.message {
        GameMessageView::PlayerLeft { username, player_id } => (
            r,
            if r.plays_in(player_id, game_id) {
                Some(
                    single(game_id, player_id, farewell(game_id, r.player(game_id, player_id)).message),
                )
            } else {
                None
            },
        ),
        GameMessageView::BackToLobby => (
            r,
            if r.has_game(game_id) && r.games[game_id].host_id == message.player_id {
                Some(single(game_id, message.player_id, message.message))
            } else {
                None
            },
        ),
        GameMessageView::GameStarted(started) => if r.has_game(game_id) {
            let game = r.games[game_id];
            (
                r.with_draft(
                    game_id,
                    TeamDraftView { max_rounds: game.players.len(), ..r.drafts[game_id] },
                ),
                Some(
                    single(
                        game_id,
                        message.player_id,
                        GameMessageView::GameStarted(
                            GameStartedView {
                                game_type: GameMode::TeamDraft,
                                initial_team_draft_state: Some(
                                    initial_state(game.host_id, 0, game.players.len()),
                                ),
                            },
                        ),
                    ),
                ),
            )
        } else {
            (r, Some(single(game_id, message.player_id, message.message)))
        },
        GameMessageView::TeamDraft(inner) => if accepted(
            r,
            game_id,
            message.auth_token,
            inner,
            now_ms,
        ) {
            let state = r.drafts[game_id];
            let players = r.games[game_id].players;
            let out = events(state, players, inner, now_ms);
            (
                r.with_draft(game_id, next_state(state, players, inner)),
                if out.len() > 0 {
                    Some(
                        ChunkView {
                            game_id,
                            player_id: required_sender(state, inner),
                            messages: out,
                        },
                    )
                } else {
                    None
                },
            )
        } else {
            (r, None)
        },
        _ => (r, Some(single(game_id, message.player_id, message.message))),
    }
}

/// What only the server sends is never taken from a socket, whatever token
/// comes with it, and leaves the registry as it is.
pub proof fn lemma_server_only_is_refused(
    r: RegistryView,
    game_id: Seq<char>,
    message: WebSocketMessageView,
    now_ms: u64,
)
    requires
        message.message matches GameMessageView::TeamDraft(inner) && (inner is AwardingPhase
            || inner is NextDrafter || inner is NextRound || inner is CompleteGame),
    ensures
        processed(r, game_id, message, now_ms) == (r, None::<ChunkView>),
{
}

/// The serializer changes nothing but the team draft of its own game: the
/// games, their players and the three indexes stay as they are, and so does
/// the team draft of every other game.
pub proof fn lemma_serializer_keeps_membership(
    r: RegistryView,
    game_id: Seq<char>,
    message: WebSocketMessageView,
    now_ms: u64,
    other: Seq<char>,
)
    requires
        r.wf(),
    ensures
        processed(r, game_id, message, now_ms).0.wf(),
        processed(r, game_id, message, now_ms).0.games == r.games,
        processed(r, game_id, message, now_ms).0.game_codes == r.game_codes,
        processed(r, game_id, message, now_ms).0.player_to_game == r.player_to_game,
        processed(r, game_id, message, now_ms).0.player_auth == r.player_auth,
        other != game_id && r.has_game(other) ==> processed(r, game_id, message, now_ms).0.drafts[other]
            == r.drafts[other],
{
    let next = processed(r, game_id, message, now_ms).0;
    if next != r {
        assert(r.has_game(game_id));
        crate::game::game_manager::lemma_draft_keeps_wf(r, game_id, next.drafts[game_id]);
        assert(next.drafts =~= r.with_draft(game_id, next.drafts[game_id]).drafts);
    }
}

/// A step of the serializer is taken back by putting the team draft of its
/// game back to where it was: the registry is then what it was before the
/// step.
pub proof fn lemma_step_is_taken_back(
    r: RegistryView,
    game_id: Seq<char>,
    message: WebSocketMessageView,
    now_ms: u64,
)
    requires
        r.wf(),
        r.has_game(game_id),
    ensures
        processed(r, game_id, message, now_ms).0.with_draft(game_id, r.drafts[game_id]) == r,
{
    let next = processed(r, game_id, message, now_ms).0;
    let back = next.with_draft(game_id, r.drafts[game_id]);
    lemma_serializer_keeps_membership(r, game_id, message, now_ms, game_id);
    assert forall|other: Seq<char>| r.drafts.contains_key(other) implies #[trigger] back.drafts[other]
        == r.drafts[other] by {
        lemma_serializer_keeps_membership(r, game_id, message, now_ms, other);
    }
    assert(back.drafts =~= r.drafts);
}

/// No chunk that the serializer publishes is without events, and every
/// chunk is the chunk of the serializer's own game.
pub proof fn lemma_chunks_are_not_empty(
    r: RegistryView,
    game_id: Seq<char>,
    message: WebSocketMessageView,
    now_ms: u64,
)
    ensures
        processed(r, game_id, message, now_ms).1 matches Some(chunk) ==> chunk.messages.len() > 0
            && chunk.game_id == game_id,
{
}

/// The start of a game is answered with a single chunk of a single event:
/// the start, with the state of a fresh lobby in which the host is the
/// yapper, the yapper is choosing, the round is the first and the teams are
/// of two. The game is played for as many rounds as it has players.
pub proof fn lemma_game_start_is_answered(
    r: RegistryView,
    game_id: Seq<char>,
    message: WebSocketMessageView,
    now_ms: u64,
)
    requires
        r.has_game(game_id),
        message.message is GameStarted,
    ensures
        ({
            let (next, chunk) = processed(r, game_id, message, now_ms);
            let game = r.games[game_id];
            &&& chunk is Some
            &&& chunk->Some_0.game_id == game_id
            &&& chunk->Some_0.player_id == message.player_id
            &&& chunk->Some_0.messages.len() == 1
            &&& chunk->Some_0.messages[0] matches GameMessageView::GameStarted(started)
            &&& started.game_type == GameMode::TeamDraft
            &&& started.initial_team_draft_state matches Some(state)
            &&& state.yapper_id == game.host_id
            &&& state.yapper_index == 0
            &&& state.phase == crate::team_draft::types::TeamDraftPhase::YapperChoosing
            &&& state.round_data.round == 1
            &&& state.round_data.team_size == 2
            &&& state.max_rounds == game.players.len()
            &&& state.player_points == Map::<Seq<char>, u8>::empty()
            &&& next.drafts[game_id].max_rounds == game.players.len()
        }),
{
}

/// What the yapper sets for the round is handed on as it is, at any time:
/// from the yapper, by their token, the pool and the competition are each
/// answered with a chunk of that one message, under the yapper's id.
pub proof fn lemma_settings_are_handed_on(
    r: RegistryView,
    game_id: Seq<char>,
    message: WebSocketMessageView,
    now_ms: u64,
)
    requires
        r.has_game(game_id),
        message.message matches GameMessageView::TeamDraft(inner) && (inner is SetPool
            || inner is SetCompetition),
        message.auth_token is Some,
        r.player_auth.contains_key(r.drafts[game_id].yapper_id),
        r.player_auth[r.drafts[game_id].yapper_id] == message.auth_token->Some_0,
        r.drafts[game_id].yapper_id != SERVER_ONLY_AUTHORIZED@,
    ensures
        ({
            let (next, chunk) = processed(r, game_id, message, now_ms);
            let inner = message.message->TeamDraft_0;
            &&& chunk == Some(
                ChunkView {
                    game_id,
                    player_id: r.drafts[game_id].yapper_id,
                    messages: seq![GameMessageView::TeamDraft(inner)],
                },
            )
            &&& next == r.with_draft(
                game_id,
                next_state(r.drafts[game_id], r.games[game_id].players, inner),
            )
            &&& inner matches TeamDraftMessageView::SetPool { pool }
                ==> next.drafts[game_id].round_data.pool == pool
            &&& inner matches TeamDraftMessageView::SetCompetition { competition }
                ==> next.drafts[game_id].round_data.competition == competition
        }),
{
    let inner = message.message->TeamDraft_0;
    assert(accepted(r, game_id, message.auth_token, inner, now_ms));
    let out = events(r.drafts[game_id], r.games[game_id].players, inner, now_ms);
    assert(out =~= seq![GameMessageView::TeamDraft(inner)]);
}

/// In a well formed registry the yapper's point is taken whenever the clock
/// has room for the pause that follows it, as long as nobody has more
/// points than a round gives: every game has a first seat, and no more
/// seats than the machine can count.
pub proof fn lemma_point_is_taken(
    r: RegistryView,
    game_id: Seq<char>,
    player_id: Seq<char>,
    token: Seq<char>,
    now_ms: u64,
)
    requires
        r.wf(),
        r.has_game(game_id),
        r.drafts[game_id].yapper_id != SERVER_ONLY_AUTHORIZED@,
        r.player_auth.contains_key(r.drafts[game_id].yapper_id),
        r.player_auth[r.drafts[game_id].yapper_id] == token,
        r.drafts[game_id].yapper_index <= u8::MAX,
        crate::team_draft::state::points_of(r.drafts[game_id], player_id) < u8::MAX,
    ensures
        ({
            let inner = TeamDraftMessageView::AwardPoint { player_id };
            accepted(r, game_id, Some(token), inner, now_ms) <==> now_ms + longest_pause(
                r.drafts[game_id],
                r.games[game_id].players,
                inner,
            ) <= u64::MAX
        }),
{
    let players = r.games[game_id].players;
    assert(r.games.contains_key(game_id));
    assert(1 <= players.len() <= u8::MAX);
    let seat = crate::team_draft::state::next_yapper_seat(r.drafts[game_id], players);
    assert(seat < players.len()) by (nonlinear_arith)
        requires
            seat == ((r.drafts[game_id].yapper_index + 1) as int % (players.len() as int)) as nat,
            players.len() >= 1,
    ;
}

/// The chunk of a single event.
fn single_chunk(game_id: &str, player_id: String, message: GameMessage) -> (chunk:
    BroadcastMessageChunk)
    requires
        message.wf(),
    ensures
        chunk@ == single(game_id@, player_id@, message@),
        chunk.wf(),
{
    let mut messages: Vec<GameMessage> = Vec::new();
    messages.push(message);
    assert(messages.deep_view() =~= seq![message@]);
    BroadcastMessageChunk { game_id: String::from_str(game_id), player_id, messages }
}

/// One step of the serializer of the game `game_id`: takes `ws_message`,
/// changes the registry as the message asks, and gives the chunk to publish,
/// if there is one. `now_ms` is the time at which the step is made.
///
/// A player who leaves is answered with the server's word in the chat. Only
/// the host sends a game back to the lobby. The start of a game sets the
/// number of rounds and announces the state of a fresh lobby. A message of
/// the team draft is taken only from the player whose turn it is, by their
/// token, and is answered with the events that the state machine gives.
/// Every other message is published as it is. No chunk ever carries a token.
pub fn process_message(
    game_manager: &mut GameManager,
    game_id: &str,
    ws_message: WebSocketMessage,
    now_ms: u64,
) -> (r: Option<BroadcastMessageChunk>)
    requires
        old(game_manager).wf(),
        ws_message.message.wf(),
    ensures
        final(game_manager).wf(),
        final(game_manager)@ == processed(old(game_manager)@, game_id@, ws_message@, now_ms).0,
        chunk_view(r) == processed(old(game_manager)@, game_id@, ws_message@, now_ms).1,
        r matches Some(chunk) ==> chunk.wf(),
{
    let sender = ws_message.player_id;
    let auth_token = ws_message.auth_token;
    match ws_message.message {
        GameMessage::PlayerLeft { username, player_id } => {
            match game_manager.handle_player_left(game_id, player_id.as_str()) {
                Some(word) => Some(single_chunk(game_id, word.player_id, word.message)),
                None => None,
            }
        },
        GameMessage::BackToLobby(back) => {
            match game_manager.get_game(game_id) {
                Some(game) => {
                    if game.host_id == sender {
                        Some(single_chunk(game_id, sender, GameMessage::BackToLobby(back)))
                    } else {
                        None
                    }
                },
                None => None,
            }
        },
        GameMessage::GameStarted(started) => {
            match game_manager.start_team_draft(game_id) {
                Some(fresh) => Some(single_chunk(game_id, sender, GameMessage::GameStarted(fresh))),
                None => Some(single_chunk(game_id, sender, GameMessage::GameStarted(started))),
            }
        },
        GameMessage::TeamDraft(inner) => {
            let token = match auth_token {
                Some(token) => token,
                None => {
                    return None;
                },
            };
            let required = match game_manager.team_draft_sender(game_id, &inner) {
                Some(id) => id,
                None => {
                    return None;
                },
            };
            let server = String::from_str(SERVER_ONLY_AUTHORIZED);
            if required == server {
                return None;
            }
            if !game_manager.is_authorized(required.as_str(), token.as_str()) {
                return None;
            }
            match game_manager.handle_team_draft(game_id, inner, now_ms) {
                Some(messages) => {
                    if messages.len() > 0 {
                        Some(
                            BroadcastMessageChunk {
                                game_id: String::from_str(game_id),
                                player_id: required,
                                messages,
                            },
                        )
                    } else {
                        None
                    }
                },
                None => None,
            }
        },
        other => Some(single_chunk(game_id, sender, other)),
    }
}

/// Ends a step of the serializer once the store has answered.
///
/// `began_from` is the state of the team draft from which the step began,
/// `chunk` what the step gave to publish, and `stored` whether the store has
/// taken everything that the step wrote. Where it has, the chunk is
/// published. Where it has not, the transition is abandoned: the team draft
/// is put back to where it was, nothing is published, and the game stays
/// live.
pub fn conclude_step(
    game_manager: &mut GameManager,
    game_id: &str,
    began_from: TeamDraftState,
    chunk: BroadcastMessageChunk,
    stored: bool,
) -> (r: Option<BroadcastMessageChunk>)
    requires
        old(game_manager).wf(),
        began_from.wf(),
    ensures
        final(game_manager).wf(),
        stored ==> r == Some(chunk) && final(game_manager)@ == old(game_manager)@,
        !stored ==> r is None && final(game_manager)@ == if old(game_manager)@.has_game(game_id@) {
            old(game_manager)@.with_draft(game_id@, began_from@)
        } else {
            old(game_manager)@
        },
{
    if stored {
        Some(chunk)
    } else {
        game_manager.put_team_draft(game_id, began_from);
        None
    }
}

// ---------------------------------------------------------------------------
// From the serializer to every node, and from a node to its sockets
// ---------------------------------------------------------------------------
/// What stands before the game's id in the name of its channel.
pub open spec fn channel_prefix() -> Seq<char> {
    "game_channel::"@
}

/// The name of the channel on which the chunks of the game `game_id` travel.
pub open spec fn channel_of(game_id: Seq<char>) -> Seq<char> {
    channel_prefix() + game_id
}

/// A chunk with the name of the channel on which it is to be published.
#[derive(Debug, Clone)]
pub struct Publication {
    pub channel: String,
    pub chunk: BroadcastMessageChunk,
}

/// One thing that a node does with a chunk that has reached it: hand a
/// message to the game's sockets, or wait until the wall clock shows at
/// least the given time, in milliseconds since the start of 1970.
#[derive(Debug, Clone)]
pub enum Delivery {
    Broadcast(WebSocketMessage),
    WaitUntil(u64),
}

pub ghost enum DeliveryView {
    Broadcast(WebSocketMessageView),
    WaitUntil(u64),
}

impl View for Delivery {
    type V = DeliveryView;

    open spec fn view(&self) -> DeliveryView {
        match self {
            Delivery::Broadcast(message) => DeliveryView::Broadcast(message@),
            Delivery::WaitUntil(time) => DeliveryView::WaitUntil(*time),
        }
    }
}

impl DeepView for Delivery {
    type V = DeliveryView;

    open spec fn deep_view(&self) -> DeliveryView {
        self@
    }
}

/// Message `i` of a chunk in the envelope in which the sockets get it: with
/// the chunk's game and player, and without any token.
pub open spec fn envelope(chunk: ChunkView, i: int) -> WebSocketMessageView {
    WebSocketMessageView {
        game_id: chunk.game_id,
        message: chunk.messages[i],
        player_id: chunk.player_id,
        auth_token: None,
    }
}

/// What a node does with message `i` of a chunk: it hands the message on,
/// and after a pause it waits for the pause to end.
pub open spec fn steps_of(chunk: ChunkView, i: int) -> Seq<DeliveryView> {
    match chunk.messages[i] {
        GameMessageView::HaltTimer(timer) => seq![
            DeliveryView::Broadcast(envelope(chunk, i)),
            DeliveryView::WaitUntil(timer.end_timestamp_ms),
        ],
        _ => seq![DeliveryView::Broadcast(envelope(chunk, i))],
    }
}

/// What a node does with the first `n` messages of a chunk, in order.
pub open spec fn plan_of(chunk: ChunkView, n: nat) -> Seq<DeliveryView>
    decreases n,
{
    if n == 0 {
        Seq::empty()
    } else {
        plan_of(chunk, (n - 1) as nat) + steps_of(chunk, n - 1)
    }
}

/// What a node does with a chunk, in order.
pub open spec fn delivery_plan(chunk: ChunkView) -> Seq<DeliveryView> {
    plan_of(chunk, chunk.messages.len())
}

/// The place in the plan at which message `i` of the chunk is handed on.
pub open spec fn place_of(chunk: ChunkView, i: nat) -> int {
    plan_of(chunk, i).len() as int
}

/// The messages that a plan hands on, in order.
pub open spec fn handed_on(plan: Seq<DeliveryView>) -> Seq<WebSocketMessageView>
    decreases plan.len(),
{
    if plan.len() == 0 {
        Seq::empty()
    } else {
        match plan.last() {
            DeliveryView::Broadcast(message) => handed_on(plan.drop_last()).push(message),
            DeliveryView::WaitUntil(_) => handed_on(plan.drop_last()),
        }
    }
}

/// Whether `times` can be the times at which the steps of `plan` are done,
/// one after the other: time does not run backwards, and a wait is done no
/// earlier than the time that it waits for.
pub open spec fn is_run(plan: Seq<DeliveryView>, times: Seq<int>) -> bool {
    &&& times.len() == plan.len()
    &&& forall|a: int, b: int| 0 <= a <= b < times.len() ==> times[a] <= times[b]
    &&& forall|k: int|
        0 <= k < plan.len() ==> (#[trigger] plan[k] matches DeliveryView::WaitUntil(time)
            ==> times[k] >= time)
}

/// The plan of the first `n` messages is the beginning of the plan of the
/// first `m`, for `n` up to `m`.
pub proof fn lemma_plan_grows(chunk: ChunkView, n: nat, m: nat)
    requires
        n <= m <= chunk.messages.len(),
    ensures
        plan_of(chunk, n).len() <= plan_of(chunk, m).len(),
        plan_of(chunk, m).take(plan_of(chunk, n).len() as int) == plan_of(chunk, n),
    decreases m - n,
{
    if n == m {
        assert(plan_of(chunk, m).take(plan_of(chunk, n).len() as int) =~= plan_of(chunk, n));
    } else {
        lemma_plan_grows(chunk, n, (m - 1) as nat);
        let shorter = plan_of(chunk, (m - 1) as nat);
        assert(plan_of(chunk, m) == shorter + steps_of(chunk, m - 1));
        assert(plan_of(chunk, m).take(plan_of(chunk, n).len() as int) =~= shorter.take(
            plan_of(chunk, n).len() as int,
        ));
    }
}

/// Every message of a chunk is handed on at its place, in its envelope, and
/// a pause is followed at once by the wait for its end.
pub proof fn lemma_place(chunk: ChunkView, i: nat)
    requires
        i < chunk.messages.len(),
    ensures
        0 <= place_of(chunk, i) < delivery_plan(chunk).len(),
        delivery_plan(chunk)[place_of(chunk, i)] == DeliveryView::Broadcast(
            envelope(chunk, i as int),
        ),
        chunk.messages[i as int] matches GameMessageView::HaltTimer(timer) ==> {
            &&& place_of(chunk, i) + 1 < delivery_plan(chunk).len()
            &&& delivery_plan(chunk)[place_of(chunk, i) + 1] == DeliveryView::WaitUntil(
                timer.end_timestamp_ms,
            )
        },
        place_of(chunk, i) < place_of(chunk, i + 1),
        chunk.messages[i as int] is HaltTimer ==> place_of(chunk, i) + 1 < place_of(chunk, i + 1),
{
    let whole = delivery_plan(chunk);
    let upto = plan_of(chunk, i + 1);
    let before = plan_of(chunk, i);
    lemma_plan_grows(chunk, i + 1, chunk.messages.len());
    assert(upto == before + steps_of(chunk, i as int));
    let at = place_of(chunk, i);
    assert(upto[at] == steps_of(chunk, i as int)[0]);
    assert(whole.take(upto.len() as int)[at] == whole[at]);
    if chunk.messages[i as int] is HaltTimer {
        assert(upto[at + 1] == steps_of(chunk, i as int)[1]);
        assert(whole.take(upto.len() as int)[at + 1] == whole[at + 1]);
    }
}

/// Nothing that a node hands to the sockets carries a token.
pub proof fn lemma_no_token_leaves(chunk: ChunkView, k: int)
    requires
        0 <= k < delivery_plan(chunk).len(),
    ensures
        delivery_plan(chunk)[k] matches DeliveryView::Broadcast(message) ==> message.auth_token
            is None,
{
    lemma_no_token_in(chunk, chunk.messages.len(), k);
}

proof fn lemma_no_token_in(chunk: ChunkView, n: nat, k: int)
    requires
        n <= chunk.messages.len(),
        0 <= k < plan_of(chunk, n).len(),
    ensures
        plan_of(chunk, n)[k] matches DeliveryView::Broadcast(message) ==> message.auth_token
            is None,
    decreases n,
{
    if n > 0 {
        let before = plan_of(chunk, (n - 1) as nat);
        if k < before.len() {
            lemma_no_token_in(chunk, (n - 1) as nat, k);
        }
    }
}

/// Places follow the order of the messages.
pub proof fn lemma_places_in_order(chunk: ChunkView, i: nat, j: nat)
    requires
        i <= j <= chunk.messages.len(),
    ensures
        place_of(chunk, i) <= place_of(chunk, j),
{
    lemma_plan_grows(chunk, i, j);
}

/// What a node hands on from a chunk is every message of the chunk, once,
/// in the chunk's order, each in its envelope.
pub proof fn lemma_emit_order(chunk: ChunkView)
    ensures
        handed_on(delivery_plan(chunk)) == Seq::new(
            chunk.messages.len(),
            |i: int| envelope(chunk, i),
        ),
{
    lemma_handed_on(chunk, chunk.messages.len());
}

/// The events with which the state machine answers a message that was
/// taken reach the sockets of every node, all of them and in the order in
/// which the machine gave them.
pub proof fn lemma_events_reach_sockets(
    r: RegistryView,
    game_id: Seq<char>,
    message: WebSocketMessageView,
    now_ms: u64,
)
    requires
        message.message is TeamDraft,
        accepted(r, game_id, message.auth_token, message.message->TeamDraft_0, now_ms),
        processed(r, game_id, message, now_ms).1 is Some,
    ensures
        ({
            let inner = message.message->TeamDraft_0;
            let out = events(r.drafts[game_id], r.games[game_id].players, inner, now_ms);
            let chunk = processed(r, game_id, message, now_ms).1->Some_0;
            handed_on(delivery_plan(chunk)) == Seq::new(
                out.len(),
                |i: int|
                    WebSocketMessageView {
                        game_id,
                        message: out[i],
                        player_id: required_sender(r.drafts[game_id], inner),
                        auth_token: None,
                    },
            )
        }),
{
    let chunk = processed(r, game_id, message, now_ms).1->Some_0;
    lemma_emit_order(chunk);
    assert(Seq::new(chunk.messages.len(), |i: int| envelope(chunk, i)) =~= Seq::new(
        chunk.messages.len(),
        |i: int|
            WebSocketMessageView {
                game_id,
                message: chunk.messages[i],
                player_id: chunk.player_id,
                auth_token: None,
            },
    ));
}

proof fn lemma_handed_on(chunk: ChunkView, n: nat)
    requires
        n <= chunk.messages.len(),
    ensures
        handed_on(plan_of(chunk, n)) == Seq::new(n, |i: int| envelope(chunk, i)),
    decreases n,
{
    if n == 0 {
        assert(handed_on(plan_of(chunk, n)) =~= Seq::new(n, |i: int| envelope(chunk, i)));
    } else {
        lemma_handed_on(chunk, (n - 1) as nat);
        let before = plan_of(chunk, (n - 1) as nat);
        let hand = DeliveryView::Broadcast(envelope(chunk, n - 1));
        let with_hand = before.push(hand);
        assert(with_hand.drop_last() =~= before);
        assert(with_hand.last() == hand);
        assert(handed_on(with_hand) == handed_on(before).push(envelope(chunk, n - 1)));
        match chunk.messages[n - 1] {
            GameMessageView::HaltTimer(timer) => {
                let wait = DeliveryView::WaitUntil(timer.end_timestamp_ms);
                let all = with_hand.push(wait);
                assert(all.drop_last() =~= with_hand);
                assert(all.last() == wait);
                assert(plan_of(chunk, n) =~= all);
            },
            _ => {
                assert(plan_of(chunk, n) =~= with_hand);
            },
        }
        assert(handed_on(plan_of(chunk, n)) =~= Seq::new(n, |i: int| envelope(chunk, i)));
    }
}

/// Whenever a node goes through the plan of a chunk, no message that follows
/// a pause in the chunk is handed on before the pause has ended.
pub proof fn lemma_pause_holds(chunk: ChunkView, times: Seq<int>, i: nat, j: nat)
    requires
        is_run(delivery_plan(chunk), times),
        i < j < chunk.messages.len(),
        chunk.messages[i as int] is HaltTimer,
    ensures
        times[place_of(chunk, j)] >= chunk.messages[i as int]->HaltTimer_0.end_timestamp_ms,
{
    lemma_place(chunk, i);
    lemma_place(chunk, j);
    lemma_places_in_order(chunk, i + 1, j);
    let wait = place_of(chunk, i) + 1;
    assert(delivery_plan(chunk)[wait] is WaitUntil);
    assert(times[wait] <= times[place_of(chunk, j)]);
}

impl GameManager {
    /// Makes the chunk of the events that an action of `player_id` has led to
    /// in the game `game_id`, with the name of the game's channel. Nothing is
    /// published where there are no events.
    pub fn publish_broadcast_messages(game_id: &str, player_id: &str, messages: Vec<GameMessage>)
        -> (r: Option<Publication>)
        ensures
            match r {
                Some(publication) => {
                    &&& messages@.len() > 0
                    &&& publication.channel@ == channel_of(game_id@)
                    &&& publication.chunk.game_id@ == game_id@
                    &&& publication.chunk.player_id@ == player_id@
                    &&& publication.chunk.messages == messages
                },
                None => messages@.len() == 0,
            },
    {
        if messages.len() == 0 {
            return None;
        }
        let mut channel = String::from_str("game_channel::");
        channel.append(game_id);
        Some(
            Publication {
                channel,
                chunk: BroadcastMessageChunk {
                    game_id: String::from_str(game_id),
                    player_id: String::from_str(player_id),
                    messages,
                },
            },
        )
    }

    /// The id of the game whose chunks travel on `channel`, if it is the
    /// channel of a game.
    pub fn channel_game_id(channel: &str) -> (r: Option<String>)
        ensures
            match r {
                Some(game_id) => after_prefix(channel@, channel_prefix()) == Some(game_id@),
                None => after_prefix(channel@, channel_prefix()) is None,
            },
    {
        match strip_prefix(channel, "game_channel::") {
            Some(rest) => Some(String::from_str(rest)),
            None => None,
        }
    }

    /// How long a node that reads `now_ms` on its clock has to wait for the
    /// time `end_timestamp_ms`, in milliseconds: not at all where the time
    /// has come.
    pub fn remaining_wait(end_timestamp_ms: u64, now_ms: u64) -> (wait_ms: u64)
        ensures
            wait_ms == if end_timestamp_ms > now_ms {
                end_timestamp_ms - now_ms
            } else {
                0
            },
            now_ms + wait_ms >= end_timestamp_ms,
    {
        if end_timestamp_ms > now_ms {
            end_timestamp_ms - now_ms
        } else {
            0
        }
    }

    /// What a node does with a chunk that has reached it, in order: every
    /// message is handed to the game's sockets in an envelope without a
    /// token, and after a pause the node waits for the pause to end before it
    /// goes on.
    pub fn process_broadcast_messages(broadcast_chunk: BroadcastMessageChunk) -> (plan: Vec<
        Delivery,
    >)
        ensures
            plan.deep_view() == delivery_plan(broadcast_chunk@),
    {
        let ghost chunk = broadcast_chunk@;
        let game_id = broadcast_chunk.game_id;
        let player_id = broadcast_chunk.player_id;
        let mut messages = broadcast_chunk.messages;
        let ghost all = messages@;
        let n = messages.len();
        // The messages are taken from the end, so each step goes to the
        // front of the plan.
        let mut plan: Vec<Delivery> = Vec::new();
        let mut left: usize = n;
        assert(plan_of(chunk, n as nat) + plan.deep_view() =~= plan_of(chunk, n as nat));
        while left > 0
            invariant
                left <= n,
                n == all.len(),
                messages@ == all.take(left as int),
                chunk.messages == Seq::new(all.len(), |i: int| all[i]@),
                chunk.game_id == game_id@,
                chunk.player_id == player_id@,
                plan_of(chunk, left as nat) + plan.deep_view() == plan_of(chunk, n as nat),
            decreases left,
        {
            let ghost before = plan.deep_view();
            let message = match messages.pop() {
                Some(message) => message,
                None => {
                    assert(false);
                    return plan;
                },
            };
            left -= 1;
            assert(message == all[left as int]);
            assert(chunk.messages[left as int] == message@);
            match &message {
                GameMessage::HaltTimer(timer) => {
                    plan.insert(0, Delivery::WaitUntil(timer.end_timestamp_ms));
                },
                _ => {},
            }
            plan.insert(
                0,
                Delivery::Broadcast(
                    WebSocketMessage {
                        game_id: game_id.clone(),
                        message,
                        player_id: player_id.clone(),
                        auth_token: None,
                    },
                ),
            );
            proof {
                assert(messages@ =~= all.take(left as int));
                assert(plan.deep_view() =~= steps_of(chunk, left as int) + before);
                assert(plan_of(chunk, (left + 1) as nat) == plan_of(chunk, left as nat) + steps_of(
                    chunk,
                    left as int,
                ));
                assert(plan_of(chunk, left as nat) + plan.deep_view() =~= plan_of(
                    chunk,
                    (left + 1) as nat,
                ) + before);
            }
        }
        proof {
            assert(left == 0);
            assert(plan_of(chunk, 0) =~= Seq::<DeliveryView>::empty());
            assert(plan_of(chunk, 0) + plan.deep_view() =~= plan.deep_view());
            assert(chunk.messages.len() == n);
            assert(plan.deep_view() == plan_of(chunk, n as nat));
        }
        plan
    }
}

} // verus!
