use crate::game::messages::{
    BackToLobby, GameMessage, GameMessageView, GameMode, GameStartedMessage, GameStartedView,
    HaltTimer, TimerReason, WebSocketMessage, WebSocketMessageView,
};
use crate::game::queue::{BroadcastMessageChunk, ChunkView};
use crate::team_draft::messages::TeamDraftTimerReason;
use crate::text::text_eq;
use crate::wire::draft::{
    append_draft_message, decode_draft_message, decoded_draft_message, encoded_draft_message,
    lemma_draft_message_round_trip, lemma_field_at,
};
use crate::wire::json::{
    field, fields_view, get_field, get_number, get_object, get_text, items_view, lemma_views,
    list_value, number_field, object_field, object_value, put, text_field, text_value, Json,
    JsonView,
};
use crate::wire::state::{decode_state, decoded_state, encode_state, encoded_state, lemma_state_round_trip};
use vstd::prelude::*;
use vstd::string::*;

verus! {

// ---------------------------------------------------------------------------
// Reasons for a pause
// ---------------------------------------------------------------------------
/// The word for a reason.
pub open spec fn reason_word(reason: TeamDraftTimerReason) -> Seq<char> {
    match reason {
        TeamDraftTimerReason::WaitingForPoolAndCompetition => "WaitingForPoolAndCompetition"@,
        TeamDraftTimerReason::YapperStartingDraft => "YapperStartingDraft"@,
        TeamDraftTimerReason::DraftPickShowcase => "DraftPickShowcase"@,
        TeamDraftTimerReason::WaitingForDraftPick => "WaitingForDraftPick"@,
        TeamDraftTimerReason::TransitionToAwarding => "TransitionToAwarding"@,
        TeamDraftTimerReason::WaitingForNextRound => "WaitingForNextRound"@,
    }
}

/// The reason that a word stands for, if it stands for one.
pub open spec fn reason_of_word(word: Seq<char>) -> Option<TeamDraftTimerReason> {
    if word == "WaitingForPoolAndCompetition"@ {
        Some(TeamDraftTimerReason::WaitingForPoolAndCompetition)
    } else if word == "YapperStartingDraft"@ {
        Some(TeamDraftTimerReason::YapperStartingDraft)
    } else if word == "DraftPickShowcase"@ {
        Some(TeamDraftTimerReason::DraftPickShowcase)
    } else if word == "WaitingForDraftPick"@ {
        Some(TeamDraftTimerReason::WaitingForDraftPick)
    } else if word == "TransitionToAwarding"@ {
        Some(TeamDraftTimerReason::TransitionToAwarding)
    } else if word == "WaitingForNextRound"@ {
        Some(TeamDraftTimerReason::WaitingForNextRound)
    } else {
        None
    }
}

/// The word for a reason stands for the reason.
pub proof fn lemma_reason_word(reason: TeamDraftTimerReason)
    ensures
        reason_of_word(reason_word(reason)) == Some(reason),
{
    reveal_strlit("WaitingForPoolAndCompetition");
    reveal_strlit("YapperStartingDraft");
    reveal_strlit("DraftPickShowcase");
    reveal_strlit("WaitingForDraftPick");
    reveal_strlit("TransitionToAwarding");
    reveal_strlit("WaitingForNextRound");
    assert("WaitingForPoolAndCompetition"@.len() == 28);
    assert("YapperStartingDraft"@.len() == 19 && "YapperStartingDraft"@[0] == 'Y');
    assert("DraftPickShowcase"@.len() == 17);
    assert("WaitingForDraftPick"@.len() == 19 && "WaitingForDraftPick"@[0] == 'W'
        && "WaitingForDraftPick"@[10] == 'D');
    assert("TransitionToAwarding"@.len() == 20);
    assert("WaitingForNextRound"@.len() == 19 && "WaitingForNextRound"@[0] == 'W'
        && "WaitingForNextRound"@[10] == 'N');
}

/// The word for a reason.
pub fn reason_to_word(reason: TeamDraftTimerReason) -> (word: &'static str)
    ensures
        word@ == reason_word(reason),
{
    match reason {
        TeamDraftTimerReason::WaitingForPoolAndCompetition => "WaitingForPoolAndCompetition",
        TeamDraftTimerReason::YapperStartingDraft => "YapperStartingDraft",
        TeamDraftTimerReason::DraftPickShowcase => "DraftPickShowcase",
        TeamDraftTimerReason::WaitingForDraftPick => "WaitingForDraftPick",
        TeamDraftTimerReason::TransitionToAwarding => "TransitionToAwarding",
        TeamDraftTimerReason::WaitingForNextRound => "WaitingForNextRound",
    }
}

/// The reason that a word stands for, if it stands for one.
pub fn word_to_reason(word: &str) -> (r: Option<TeamDraftTimerReason>)
    ensures
        r == reason_of_word(word@),
{
    if text_eq(word, "WaitingForPoolAndCompetition") {
        Some(TeamDraftTimerReason::WaitingForPoolAndCompetition)
    } else if text_eq(word, "YapperStartingDraft") {
        Some(TeamDraftTimerReason::YapperStartingDraft)
    } else if text_eq(word, "DraftPickShowcase") {
        Some(TeamDraftTimerReason::DraftPickShowcase)
    } else if text_eq(word, "WaitingForDraftPick") {
        Some(TeamDraftTimerReason::WaitingForDraftPick)
    } else if text_eq(word, "TransitionToAwarding") {
        Some(TeamDraftTimerReason::TransitionToAwarding)
    } else if text_eq(word, "WaitingForNextRound") {
        Some(TeamDraftTimerReason::WaitingForNextRound)
    } else {
        None
    }
}

// ---------------------------------------------------------------------------
// Messages
// ---------------------------------------------------------------------------
/// The fields of a message about a player: its kind, the player's name and
/// the player's id.
pub open spec fn about_player(kind: Seq<char>, username: Seq<char>, player_id: Seq<char>) -> Seq<
    (Seq<char>, JsonView),
> {
    seq![
        ("type"@, JsonView::Text(kind)),
        ("username"@, JsonView::Text(username)),
        ("player_id"@, JsonView::Text(player_id)),
    ]
}

/// The state with which a game starts as a value: nothing, or an object.
pub open spec fn encoded_start(started: &GameStartedMessage) -> JsonView {
    match started.initial_team_draft_state {
        Some(state) => JsonView::Object(encoded_state(&state)),
        None => JsonView::Null,
    }
}

/// The fields of a message: its kind under `type`, and what it says.
pub open spec fn encoded_message(m: &GameMessage) -> Seq<(Seq<char>, JsonView)> {
    match m {
        GameMessage::PlayerJoined { username, player_id } => about_player(
            "PlayerJoined"@,
            username@,
            player_id@,
        ),
        GameMessage::PlayerLeft { username, player_id } => about_player(
            "PlayerLeft"@,
            username@,
            player_id@,
        ),
        GameMessage::PlayerDisconnected { username, player_id } => about_player(
            "PlayerDisconnected"@,
            username@,
            player_id@,
        ),
        GameMessage::GameStarted(started) => seq![
            ("type"@, JsonView::Text("GameStarted"@)),
            ("game_type"@, JsonView::Object(seq![("type"@, JsonView::Text("TeamDraft"@))])),
            ("initial_team_draft_state"@, encoded_start(started)),
        ],
        GameMessage::ChatMessage { username, message } => seq![
            ("type"@, JsonView::Text("ChatMessage"@)),
            ("username"@, JsonView::Text(username@)),
            ("message"@, JsonView::Text(message@)),
        ],
        GameMessage::HaltTimer(timer) => seq![
            ("type"@, JsonView::Text("HaltTimer"@)),
            ("end_timestamp_ms"@, JsonView::Number(timer.end_timestamp_ms as i128)),
            (
                "reason"@,
                JsonView::Object(
                    seq![
                        (
                            "TeamDraft"@,
                            JsonView::Text(
                                match timer.reason {
                                    TimerReason::TeamDraft(reason) => reason_word(reason),
                                },
                            ),
                        ),
                    ],
                ),
            ),
        ],
        GameMessage::BackToLobby(_) => seq![("type"@, JsonView::Text("BackToLobby"@))],
        GameMessage::TeamDraft(inner) => seq![("type"@, JsonView::Text("TeamDraft"@))]
            + encoded_draft_message(inner),
    }
}

/// The name and the id of the player that the fields of an object tell of.
pub open spec fn decoded_player(fields: Seq<(Seq<char>, JsonView)>) -> Option<
    (Seq<char>, Seq<char>),
> {
    match (text_field(fields, "username"@), text_field(fields, "player_id"@)) {
        (Some(username), Some(player_id)) => Some((username, player_id)),
        _ => None,
    }
}

/// The start of a game that the fields of an object stand for: the mode
/// must be the team draft, and the state may be left out.
pub open spec fn decoded_start(fields: Seq<(Seq<char>, JsonView)>) -> Option<GameStartedView> {
    match object_field(fields, "game_type"@) {
        Some(mode) => if text_field(mode, "type"@) == Some("TeamDraft"@) {
            match field(fields, "initial_team_draft_state"@) {
                None => Some(
                    GameStartedView { game_type: GameMode::TeamDraft, initial_team_draft_state: None },
                ),
                Some(JsonView::Null) => Some(
                    GameStartedView { game_type: GameMode::TeamDraft, initial_team_draft_state: None },
                ),
                Some(JsonView::Object(inner)) => match decoded_state(inner) {
                    Some(state) => Some(
                        GameStartedView {
                            game_type: GameMode::TeamDraft,
                            initial_team_draft_state: Some(state),
                        },
                    ),
                    None => None,
                },
                _ => None,
            }
        } else {
            None
        },
        None => None,
    }
}

/// The pause that the fields of an object stand for.
pub open spec fn decoded_timer(fields: Seq<(Seq<char>, JsonView)>) -> Option<HaltTimer> {
    match (number_field(fields, "end_timestamp_ms"@), object_field(fields, "reason"@)) {
        (Some(end_timestamp_ms), Some(reason)) => match text_field(reason, "TeamDraft"@) {
            Some(word) => match reason_of_word(word) {
                Some(reason) => Some(
                    HaltTimer { end_timestamp_ms, reason: TimerReason::TeamDraft(reason) },
                ),
                None => None,
            },
            None => None,
        },
        _ => None,
    }
}

/// The message that the fields of an object stand for, if they stand for
/// one.
pub open spec fn decoded_message(fields: Seq<(Seq<char>, JsonView)>) -> Option<GameMessageView> {
    match text_field(fields, "type"@) {
        None => None,
        Some(kind) => if kind == "PlayerJoined"@ {
            match decoded_player(fields) {
                Some((username, player_id)) => Some(
                    GameMessageView::PlayerJoined { username, player_id },
                ),
                None => None,
            }
        } else if kind == "PlayerLeft"@ {
            match decoded_player(fields) {
                Some((username, player_id)) => Some(
                    GameMessageView::PlayerLeft { username, player_id },
                ),
                None => None,
            }
        } else if kind == "PlayerDisconnected"@ {
            match decoded_player(fields) {
                Some((username, player_id)) => Some(
                    GameMessageView::PlayerDisconnected { username, player_id },
                ),
                None => None,
            }
        } else if kind == "GameStarted"@ {
            match decoded_start(fields) {
                Some(started) => Some(GameMessageView::GameStarted(started)),
                None => None,
            }
        } else if kind == "ChatMessage"@ {
            match (text_field(fields, "username"@), text_field(fields, "message"@)) {
                (Some(username), Some(message)) => Some(
                    GameMessageView::ChatMessage { username, message },
                ),
                _ => None,
            }
        } else if kind == "HaltTimer"@ {
            match decoded_timer(fields) {
                Some(timer) => Some(GameMessageView::HaltTimer(timer)),
                None => None,
            }
        } else if kind == "BackToLobby"@ {
            Some(GameMessageView::BackToLobby)
        } else if kind == "TeamDraft"@ {
            match decoded_draft_message(fields) {
                Some(inner) => Some(GameMessageView::TeamDraft(inner)),
                None => None,
            }
        } else {
            None
        },
    }
}

/// The fields of a message.
pub fn encode_message(m: &GameMessage) -> (fields: Vec<(String, Json)>)
    requires
        m.wf(),
    ensures
        fields_view(fields@) == encoded_message(m),
{
    let mut fields: Vec<(String, Json)> = Vec::new();
    match m {
        GameMessage::PlayerJoined { username, player_id } => {
            put(&mut fields, "type", text_value("PlayerJoined"));
            put(&mut fields, "username", text_value(username.as_str()));
            put(&mut fields, "player_id", text_value(player_id.as_str()));
        },
        GameMessage::PlayerLeft { username, player_id } => {
            put(&mut fields, "type", text_value("PlayerLeft"));
            put(&mut fields, "username", text_value(username.as_str()));
            put(&mut fields, "player_id", text_value(player_id.as_str()));
        },
        GameMessage::PlayerDisconnected { username, player_id } => {
            put(&mut fields, "type", text_value("PlayerDisconnected"));
            put(&mut fields, "username", text_value(username.as_str()));
            put(&mut fields, "player_id", text_value(player_id.as_str()));
        },
        GameMessage::GameStarted(started) => {
            let mut mode: Vec<(String, Json)> = Vec::new();
            put(&mut mode, "type", text_value("TeamDraft"));
            assert(fields_view(mode@) =~= seq![("type"@, JsonView::Text("TeamDraft"@))]);
            let state = match &started.initial_team_draft_state {
                Some(state) => object_value(encode_state(state)),
                None => Json::Null,
            };
            put(&mut fields, "type", text_value("GameStarted"));
            put(&mut fields, "game_type", object_value(mode));
            put(&mut fields, "initial_team_draft_state", state);
        },
        GameMessage::ChatMessage { username, message } => {
            put(&mut fields, "type", text_value("ChatMessage"));
            put(&mut fields, "username", text_value(username.as_str()));
            put(&mut fields, "message", text_value(message.as_str()));
        },
        GameMessage::HaltTimer(timer) => {
            let word = match timer.reason {
                TimerReason::TeamDraft(reason) => reason_to_word(reason),
            };
            let mut reason: Vec<(String, Json)> = Vec::new();
            put(&mut reason, "TeamDraft", text_value(word));
            assert(fields_view(reason@) =~= seq![("TeamDraft"@, JsonView::Text(word@))]);
            put(&mut fields, "type", text_value("HaltTimer"));
            put(&mut fields, "end_timestamp_ms", Json::Number(timer.end_timestamp_ms as i128));
            put(&mut fields, "reason", object_value(reason));
        },
        GameMessage::BackToLobby(_) => {
            put(&mut fields, "type", text_value("BackToLobby"));
        },
        GameMessage::TeamDraft(inner) => {
            put(&mut fields, "type", text_value("TeamDraft"));
            append_draft_message(&mut fields, inner);
        },
    }
    assert(fields_view(fields@) =~= encoded_message(m));
    fields
}

fn decode_player(fields: &Vec<(String, Json)>) -> (r: Option<(String, String)>)
    ensures
        match r {
            Some((username, player_id)) => decoded_player(fields_view(fields@)) == Some(
                (username@, player_id@),
            ),
            None => decoded_player(fields_view(fields@)) is None,
        },
{
    match (get_text(fields, "username"), get_text(fields, "player_id")) {
        (Some(username), Some(player_id)) => Some((username.clone(), player_id.clone())),
        _ => None,
    }
}

fn decode_start(fields: &Vec<(String, Json)>) -> (r: Option<GameStartedMessage>)
    ensures
        match r {
            Some(started) => decoded_start(fields_view(fields@)) == Some(started@) && (
            started.initial_team_draft_state matches Some(state) ==> state.wf()),
            None => decoded_start(fields_view(fields@)) is None,
        },
{
    let mode = match get_object(fields, "game_type") {
        Some(mode) => mode,
        None => {
            return None;
        },
    };
    let is_team_draft = match get_text(mode, "type") {
        Some(word) => text_eq(word.as_str(), "TeamDraft"),
        None => false,
    };
    if !is_team_draft {
        return None;
    }
    match get_field(fields, "initial_team_draft_state") {
        None => Some(
            GameStartedMessage { game_type: GameMode::TeamDraft, initial_team_draft_state: None },
        ),
        Some(value) => {
            proof {
                lemma_views(value);
            }
            match value {
                Json::Null => Some(
                    GameStartedMessage {
                        game_type: GameMode::TeamDraft,
                        initial_team_draft_state: None,
                    },
                ),
                Json::Object(inner) => match decode_state(inner) {
                    Some(state) => Some(
                        GameStartedMessage {
                            game_type: GameMode::TeamDraft,
                            initial_team_draft_state: Some(state),
                        },
                    ),
                    None => None,
                },
                _ => None,
            }
        },
    }
}

fn decode_timer(fields: &Vec<(String, Json)>) -> (r: Option<HaltTimer>)
    ensures
        r == decoded_timer(fields_view(fields@)),
{
    match (get_number(fields, "end_timestamp_ms"), get_object(fields, "reason")) {
        (Some(end_timestamp_ms), Some(reason)) => match get_text(reason, "TeamDraft") {
            Some(word) => match word_to_reason(word.as_str()) {
                Some(reason) => Some(
                    HaltTimer { end_timestamp_ms, reason: TimerReason::TeamDraft(reason) },
                ),
                None => None,
            },
            None => None,
        },
        _ => None,
    }
}

/// The message that the fields of an object stand for, if they stand for
/// one.
pub fn decode_message(fields: &Vec<(String, Json)>) -> (r: Option<GameMessage>)
    ensures
        match r {
            Some(m) => m.wf() && decoded_message(fields_view(fields@)) == Some(m@),
            None => decoded_message(fields_view(fields@)) is None,
        },
{
    let kind = match get_text(fields, "type") {
        Some(kind) => kind.as_str(),
        None => {
            return None;
        },
    };
    if text_eq(kind, "PlayerJoined") {
        match decode_player(fields) {
            Some((username, player_id)) => Some(GameMessage::PlayerJoined { username, player_id }),
            None => None,
        }
    } else if text_eq(kind, "PlayerLeft") {
        match decode_player(fields) {
            Some((username, player_id)) => Some(GameMessage::PlayerLeft { username, player_id }),
            None => None,
        }
    } else if text_eq(kind, "PlayerDisconnected") {
        match decode_player(fields) {
            Some((username, player_id)) => Some(
                GameMessage::PlayerDisconnected { username, player_id },
            ),
            None => None,
        }
    } else if text_eq(kind, "GameStarted") {
        match decode_start(fields) {
            Some(started) => Some(GameMessage::GameStarted(started)),
            None => None,
        }
    } else if text_eq(kind, "ChatMessage") {
        match (get_text(fields, "username"), get_text(fields, "message")) {
            (Some(username), Some(message)) => Some(
                GameMessage::ChatMessage { username: username.clone(), message: message.clone() },
            ),
            _ => None,
        }
    } else if text_eq(kind, "HaltTimer") {
        match decode_timer(fields) {
            Some(timer) => Some(GameMessage::HaltTimer(timer)),
            None => None,
        }
    } else if text_eq(kind, "BackToLobby") {
        Some(GameMessage::BackToLobby(BackToLobby {  }))
    } else if text_eq(kind, "TeamDraft") {
        match decode_draft_message(fields) {
            Some(inner) => Some(GameMessage::TeamDraft(inner)),
            None => None,
        }
    } else {
        None
    }
}

/// A message that is taken apart is put together again.
pub proof fn lemma_message_round_trip(m: &GameMessage)
    requires
        m.wf(),
    ensures
        decoded_message(encoded_message(m)) == Some(m@),
{
    reveal_strlit("type");
    reveal_strlit("username");
    reveal_strlit("player_id");
    reveal_strlit("message");
    reveal_strlit("game_type");
    reveal_strlit("initial_team_draft_state");
    reveal_strlit("end_timestamp_ms");
    reveal_strlit("reason");
    reveal_strlit("TeamDraft");
    reveal_strlit("PlayerJoined");
    reveal_strlit("PlayerLeft");
    reveal_strlit("PlayerDisconnected");
    reveal_strlit("GameStarted");
    reveal_strlit("ChatMessage");
    reveal_strlit("HaltTimer");
    reveal_strlit("BackToLobby");
    assert("type"@.len() == 4);
    assert("username"@.len() == 8);
    assert("player_id"@.len() == 9 && "player_id"@[0] == 'p');
    assert("message"@.len() == 7);
    assert("game_type"@.len() == 9 && "game_type"@[0] == 'g');
    assert("initial_team_draft_state"@.len() == 24);
    assert("end_timestamp_ms"@.len() == 16);
    assert("reason"@.len() == 6);
    assert("TeamDraft"@.len() == 9 && "TeamDraft"@[0] == 'T');
    assert("PlayerJoined"@.len() == 12);
    assert("PlayerLeft"@.len() == 10);
    assert("PlayerDisconnected"@.len() == 18);
    assert("GameStarted"@.len() == 11 && "GameStarted"@[0] == 'G');
    assert("ChatMessage"@.len() == 11 && "ChatMessage"@[0] == 'C');
    assert("HaltTimer"@.len() == 9 && "HaltTimer"@[0] == 'H');
    assert("BackToLobby"@.len() == 11 && "BackToLobby"@[0] == 'B');
    let fields = encoded_message(m);
    lemma_field_at(fields, 0);
    match m {
        GameMessage::TeamDraft(inner) => {
            lemma_draft_message_round_trip(inner, JsonView::Text("TeamDraft"@));
        },
        GameMessage::BackToLobby(_) => {},
        GameMessage::GameStarted(started) => {
            lemma_field_at(fields, 1);
            lemma_field_at(fields, 2);
            let mode = seq![("type"@, JsonView::Text("TeamDraft"@))];
            lemma_field_at(mode, 0);
            match started.initial_team_draft_state {
                Some(state) => {
                    lemma_state_round_trip(&state);
                },
                None => {},
            }
        },
        GameMessage::HaltTimer(timer) => {
            lemma_field_at(fields, 1);
            lemma_field_at(fields, 2);
            match timer.reason {
                TimerReason::TeamDraft(reason) => {
                    let inner = seq![("TeamDraft"@, JsonView::Text(reason_word(reason)))];
                    lemma_field_at(inner, 0);
                    lemma_reason_word(reason);
                },
            }
        },
        _ => {
            lemma_field_at(fields, 1);
            lemma_field_at(fields, 2);
        },
    }
}


// ---------------------------------------------------------------------------
// Envelopes and chunks
// ---------------------------------------------------------------------------
/// A token as a value: the token, or nothing.
pub open spec fn encoded_token(token: Option<String>) -> JsonView {
    match token {
        Some(t) => JsonView::Text(t@),
        None => JsonView::Null,
    }
}

/// A message in its envelope as a value.
pub open spec fn encoded_envelope(m: &WebSocketMessage) -> JsonView {
    JsonView::Object(
        seq![
            ("game_id"@, JsonView::Text(m.game_id@)),
            ("message"@, JsonView::Object(encoded_message(&m.message))),
            ("player_id"@, JsonView::Text(m.player_id@)),
            ("auth_token"@, encoded_token(m.auth_token)),
        ],
    )
}

/// The token that the fields of an envelope carry: none where the field is
/// left out or holds nothing; an envelope with anything but a text there
/// is no envelope.
pub open spec fn decoded_token(fields: Seq<(Seq<char>, JsonView)>) -> Option<Option<Seq<char>>> {
    match field(fields, "auth_token"@) {
        None => Some(None),
        Some(JsonView::Null) => Some(None),
        Some(JsonView::Text(t)) => Some(Some(t)),
        _ => None,
    }
}

/// The message in its envelope that a value stands for, if it stands for
/// one.
pub open spec fn decoded_envelope(j: JsonView) -> Option<WebSocketMessageView> {
    match j {
        JsonView::Object(fields) => match (
            text_field(fields, "game_id"@),
            object_field(fields, "message"@),
            text_field(fields, "player_id"@),
            decoded_token(fields),
        ) {
            (Some(game_id), Some(inner), Some(player_id), Some(auth_token)) => match decoded_message(
                inner,
            ) {
                Some(message) => Some(
                    WebSocketMessageView { game_id, message, player_id, auth_token },
                ),
                None => None,
            },
            _ => None,
        },
        _ => None,
    }
}

/// The messages of a chunk as a list of values.
pub open spec fn encoded_messages(messages: Seq<GameMessage>) -> Seq<JsonView> {
    Seq::new(messages.len(), |i: int| JsonView::Object(encoded_message(&messages[i])))
}

/// A chunk as a value.
pub open spec fn encoded_chunk(chunk: &BroadcastMessageChunk) -> JsonView {
    JsonView::Object(
        seq![
            ("game_id"@, JsonView::Text(chunk.game_id@)),
            ("player_id"@, JsonView::Text(chunk.player_id@)),
            ("messages"@, JsonView::List(encoded_messages(chunk.messages@))),
        ],
    )
}

/// The messages that the first `n` of some values make, if each of them
/// stands for a message.
pub open spec fn decoded_messages(items: Seq<JsonView>, n: nat) -> Option<Seq<GameMessageView>>
    decreases n,
{
    if n == 0 {
        Some(Seq::empty())
    } else {
        match (decoded_messages(items, (n - 1) as nat), items[n - 1]) {
            (Some(before), JsonView::Object(fields)) => match decoded_message(fields) {
                Some(message) => Some(before.push(message)),
                None => None,
            },
            _ => None,
        }
    }
}

/// The chunk that a value stands for, if it stands for one.
pub open spec fn decoded_chunk(j: JsonView) -> Option<ChunkView> {
    match j {
        JsonView::Object(fields) => match (
            text_field(fields, "game_id"@),
            text_field(fields, "player_id"@),
            field(fields, "messages"@),
        ) {
            (Some(game_id), Some(player_id), Some(JsonView::List(items))) => match decoded_messages(
                items,
                items.len(),
            ) {
                Some(messages) => Some(ChunkView { game_id, player_id, messages }),
                None => None,
            },
            _ => None,
        },
        _ => None,
    }
}

/// A message in its envelope as a value.
pub fn encode_envelope(m: &WebSocketMessage) -> (j: Json)
    requires
        m.message.wf(),
    ensures
        j@ == encoded_envelope(m),
{
    let token = match &m.auth_token {
        Some(t) => text_value(t.as_str()),
        None => Json::Null,
    };
    let mut fields: Vec<(String, Json)> = Vec::new();
    put(&mut fields, "game_id", text_value(m.game_id.as_str()));
    put(&mut fields, "message", object_value(encode_message(&m.message)));
    put(&mut fields, "player_id", text_value(m.player_id.as_str()));
    put(&mut fields, "auth_token", token);
    assert(fields_view(fields@) =~= encoded_envelope(m)->Object_0);
    object_value(fields)
}

/// The message in its envelope that a value stands for, if it stands for
/// one.
pub fn decode_envelope(j: &Json) -> (r: Option<WebSocketMessage>)
    ensures
        match r {
            Some(m) => m.message.wf() && decoded_envelope(j@) == Some(m@),
            None => decoded_envelope(j@) is None,
        },
{
    proof {
        lemma_views(j);
    }
    let fields = match j {
        Json::Object(fields) => fields,
        _ => {
            return None;
        },
    };
    let auth_token = match get_field(fields, "auth_token") {
        None => None,
        Some(Json::Null) => None,
        Some(Json::Text(t)) => Some(t.clone()),
        Some(_) => {
            return None;
        },
    };
    match (get_text(fields, "game_id"), get_object(fields, "message"), get_text(fields, "player_id")) {
        (Some(game_id), Some(inner), Some(player_id)) => match decode_message(inner) {
            Some(message) => Some(
                WebSocketMessage {
                    game_id: game_id.clone(),
                    message,
                    player_id: player_id.clone(),
                    auth_token,
                },
            ),
            None => None,
        },
        _ => None,
    }
}

/// A chunk as a value.
pub fn encode_chunk(chunk: &BroadcastMessageChunk) -> (j: Json)
    requires
        chunk.wf(),
    ensures
        j@ == encoded_chunk(chunk),
{
    let mut items: Vec<Json> = Vec::new();
    let mut i: usize = 0;
    while i < chunk.messages.len()
        invariant
            i <= chunk.messages@.len(),
            chunk.wf(),
            items@.len() == i,
            forall|k: int|
                0 <= k < i ==> (#[trigger] items@[k])@ == JsonView::Object(
                    encoded_message(&chunk.messages@[k]),
                ),
        decreases chunk.messages@.len() - i,
    {
        items.push(object_value(encode_message(&chunk.messages[i])));
        i += 1;
    }
    assert(items_view(items@) =~= encoded_messages(chunk.messages@));
    let mut fields: Vec<(String, Json)> = Vec::new();
    put(&mut fields, "game_id", text_value(chunk.game_id.as_str()));
    put(&mut fields, "player_id", text_value(chunk.player_id.as_str()));
    put(&mut fields, "messages", list_value(items));
    assert(fields_view(fields@) =~= encoded_chunk(chunk)->Object_0);
    object_value(fields)
}

proof fn lemma_messages_stay_refused(items: Seq<JsonView>, n: nat, m: nat)
    requires
        n <= m,
        decoded_messages(items, n) is None,
    ensures
        decoded_messages(items, m) is None,
    decreases m - n,
{
    if n < m {
        lemma_messages_stay_refused(items, n, (m - 1) as nat);
    }
}

/// The chunk that a value stands for, if it stands for one.
pub fn decode_chunk(j: &Json) -> (r: Option<BroadcastMessageChunk>)
    ensures
        match r {
            Some(chunk) => chunk.wf() && decoded_chunk(j@) == Some(chunk@),
            None => decoded_chunk(j@) is None,
        },
{
    proof {
        lemma_views(j);
    }
    let fields = match j {
        Json::Object(fields) => fields,
        _ => {
            return None;
        },
    };
    let (game_id, player_id) = match (get_text(fields, "game_id"), get_text(fields, "player_id")) {
        (Some(game_id), Some(player_id)) => (game_id, player_id),
        _ => {
            return None;
        },
    };
    let list = match get_field(fields, "messages") {
        Some(value) => value,
        None => {
            return None;
        },
    };
    proof {
        lemma_views(list);
    }
    let items = match list {
        Json::List(items) => items,
        _ => {
            return None;
        },
    };
    let ghost view = items_view(items@);
    let mut messages: Vec<GameMessage> = Vec::new();
    let mut i: usize = 0;
    assert(messages.deep_view() =~= Seq::<GameMessageView>::empty());
    while i < items.len()
        invariant
            i <= items@.len(),
            view == items_view(items@),
            decoded_chunk(j@) == match decoded_messages(view, view.len()) {
                Some(all) => Some(
                    ChunkView { game_id: game_id@, player_id: player_id@, messages: all },
                ),
                None => None,
            },
            decoded_messages(view, i as nat) == Some(messages.deep_view()),
            forall|k: int| 0 <= k < messages@.len() ==> (#[trigger] messages@[k]).wf(),
        decreases items@.len() - i,
    {
        assert(view[i as int] == items@[i as int]@);
        proof {
            lemma_views(&items@[i as int]);
        }
        let ghost had = messages.deep_view();
        let decoded = match &items[i] {
            Json::Object(inner) => decode_message(inner),
            _ => None,
        };
        match decoded {
            Some(message) => {
                messages.push(message);
                assert(messages.deep_view() =~= had.push(message@));
            },
            None => {
                proof {
                    lemma_messages_stay_refused(view, (i + 1) as nat, items@.len() as nat);
                }
                return None;
            },
        }
        i += 1;
    }
    Some(BroadcastMessageChunk { game_id: game_id.clone(), player_id: player_id.clone(), messages })
}

/// A message in its envelope that is taken apart is put together again:
/// nothing is lost and nothing is added on the way over a socket.
pub proof fn lemma_envelope_round_trip(m: &WebSocketMessage)
    requires
        m.message.wf(),
    ensures
        decoded_envelope(encoded_envelope(m)) == Some(m@),
{
    reveal_strlit("game_id");
    reveal_strlit("message");
    reveal_strlit("player_id");
    reveal_strlit("auth_token");
    assert("game_id"@.len() == 7 && "game_id"@[0] == 'g');
    assert("message"@.len() == 7 && "message"@[0] == 'm');
    assert("player_id"@.len() == 9);
    assert("auth_token"@.len() == 10);
    let fields = encoded_envelope(m)->Object_0;
    lemma_field_at(fields, 0);
    lemma_field_at(fields, 1);
    lemma_field_at(fields, 2);
    lemma_field_at(fields, 3);
    lemma_message_round_trip(&m.message);
}

proof fn lemma_messages_round_trip(messages: Seq<GameMessage>, n: nat)
    requires
        n <= messages.len(),
        forall|i: int| 0 <= i < messages.len() ==> (#[trigger] messages[i]).wf(),
    ensures
        decoded_messages(encoded_messages(messages), n) == Some(
            Seq::new(n, |i: int| messages[i]@),
        ),
    decreases n,
{
    if n == 0 {
        assert(Seq::new(n, |i: int| messages[i]@) =~= Seq::<GameMessageView>::empty());
    } else {
        lemma_messages_round_trip(messages, (n - 1) as nat);
        lemma_message_round_trip(&messages[n - 1]);
        assert(Seq::new(n, |i: int| messages[i]@) =~= Seq::new(
            (n - 1) as nat,
            |i: int| messages[i]@,
        ).push(messages[n - 1]@));
    }
}

/// A chunk that is taken apart is put together again: every node gets the
/// events that the serializer has published, all of them and in their order.
pub proof fn lemma_chunk_round_trip(chunk: &BroadcastMessageChunk)
    requires
        chunk.wf(),
    ensures
        decoded_chunk(encoded_chunk(chunk)) == Some(chunk@),
{
    reveal_strlit("game_id");
    reveal_strlit("player_id");
    reveal_strlit("messages");
    assert("game_id"@.len() == 7);
    assert("player_id"@.len() == 9);
    assert("messages"@.len() == 8);
    let fields = encoded_chunk(chunk)->Object_0;
    lemma_field_at(fields, 0);
    lemma_field_at(fields, 1);
    lemma_field_at(fields, 2);
    lemma_messages_round_trip(chunk.messages@, chunk.messages@.len());
    assert(Seq::new(chunk.messages@.len(), |i: int| chunk.messages@[i]@)
        =~= chunk.messages.deep_view());
}

} // verus!
