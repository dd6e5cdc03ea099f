use crate::cache::key_builder::{
    base_pattern, fixed, fixed_path, fixed_segment, words, KeySchema, KeySegment, SchemaView,
    SegmentView,
};
use crate::game::types::named_schemas;
use crate::text_map::TextMap;
use vstd::prelude::*;
use vstd::string::*;

verus! {

/// Where a game of team draft stands within its round.
#[derive(Debug, Clone, Copy, PartialEq, Eq)]
pub enum TeamDraftPhase {
    YapperChoosing,
    Drafting,
    Awarding,
    Complete,
}

/// The state of one round: its theme, whose turn it is and what each player
/// has picked so far.
#[derive(Debug, Clone)]
pub struct Round {
    pub round: u8,
    pub pool: String,
    pub competition: String,
    pub team_size: u8,
    pub starting_drafter_id: String,
    pub current_drafter_id: String,
    pub player_to_picks: TextMap<Vec<String>>,
}

pub ghost struct RoundView {
    pub round: nat,
    pub pool: Seq<char>,
    pub competition: Seq<char>,
    pub team_size: nat,
    pub starting_drafter_id: Seq<char>,
    pub current_drafter_id: Seq<char>,
    pub player_to_picks: Map<Seq<char>, Seq<Seq<char>>>,
}

/// A table of picks with every pick taken as a sequence of characters.
pub open spec fn picks_view(picks: Map<Seq<char>, Vec<String>>) -> Map<Seq<char>, Seq<Seq<char>>> {
    picks.map_values(|v: Vec<String>| v.deep_view())
}

impl View for Round {
    type V = RoundView;

    open spec fn view(&self) -> RoundView {
        RoundView {
            round: self.round as nat,
            pool: self.pool@,
            competition: self.competition@,
            team_size: self.team_size as nat,
            starting_drafter_id: self.starting_drafter_id@,
            current_drafter_id: self.current_drafter_id@,
            player_to_picks: picks_view(self.player_to_picks@),
        }
    }
}

/// The whole state of a game of team draft.
#[derive(Debug, Clone)]
pub struct TeamDraftManager {
    pub yapper_id: String,
    pub yapper_index: u8,
    pub max_rounds: u8,
    pub phase: TeamDraftPhase,
    pub round_data: Round,
    pub player_points: TextMap<u8>,
}

/// The name under which the state machine speaks of the state.
pub type TeamDraftState = TeamDraftManager;

pub ghost struct TeamDraftView {
    pub yapper_id: Seq<char>,
    pub yapper_index: nat,
    pub max_rounds: nat,
    pub phase: TeamDraftPhase,
    pub round_data: RoundView,
    pub player_points: Map<Seq<char>, u8>,
}

impl View for TeamDraftManager {
    type V = TeamDraftView;

    open spec fn view(&self) -> TeamDraftView {
        TeamDraftView {
            yapper_id: self.yapper_id@,
            yapper_index: self.yapper_index as nat,
            max_rounds: self.max_rounds as nat,
            phase: self.phase,
            round_data: self.round_data@,
            player_points: self.player_points@,
        }
    }
}

impl DeepView for TeamDraftManager {
    type V = TeamDraftView;

    open spec fn deep_view(&self) -> TeamDraftView {
        self@
    }
}

impl TeamDraftManager {
    /// Whether the two tables of the state are well formed.
    pub open spec fn wf(&self) -> bool {
        self.round_data.player_to_picks.wf() && self.player_points.wf()
    }
}

/// The names of the fields of a round that have a key of their own.
pub open spec fn round_fields() -> Seq<Seq<char>> {
    seq![
        "round"@,
        "pool"@,
        "competition"@,
        "team_size"@,
        "starting_drafter_id"@,
        "current_drafter_id"@,
    ]
}

/// The schema of the keys of one team draft: `team_draft::<game_id>`, which
/// may go on with the name of a field of the state, with `round` and the name
/// of a field of the round, or with `round::player_to_picks` and the id of a
/// player.
pub open spec fn team_draft_schema() -> SchemaView {
    SchemaView {
        base_pattern: seq![fixed("team_draft"@), SegmentView::Field("game_id"@)],
        allowed_extensions: seq![
            seq![fixed("yapper_id"@)],
            seq![fixed("yapper_index"@)],
            seq![fixed("max_rounds"@)],
            seq![fixed("phase"@)],
            seq![fixed("player_points"@)],
            seq![fixed("round"@), SegmentView::Fixed(round_fields())],
            seq![fixed("round"@), fixed("player_to_picks"@), SegmentView::Field("player_id"@)],
        ],
    }
}

/// The names and schemas of the keys that hold the state of a team draft.
pub open spec fn team_draft_key_schemas() -> Seq<(Seq<char>, SchemaView)> {
    seq![("team_draft"@, team_draft_schema())]
}

/// The schemas of the keys that hold the state of a team draft.
pub fn get_key_schemas() -> (list: Vec<(&'static str, KeySchema)>)
    ensures
        named_schemas(list@) == team_draft_key_schemas(),
{
    let mut fields: Vec<&'static str> = Vec::new();
    fields.push("round");
    fields.push("pool");
    fields.push("competition");
    fields.push("team_size");
    fields.push("starting_drafter_id");
    fields.push("current_drafter_id");
    assert(words(fields@) =~= round_fields());
    let mut round: Vec<KeySegment> = Vec::new();
    round.push(fixed_segment("round"));
    round.push(KeySegment::Fixed(fields));
    assert(round.deep_view() =~= seq![fixed("round"@), SegmentView::Fixed(round_fields())]);
    let mut picks: Vec<KeySegment> = Vec::new();
    picks.push(fixed_segment("round"));
    picks.push(fixed_segment("player_to_picks"));
    picks.push(KeySegment::Field("player_id"));
    assert(picks.deep_view() =~= seq![
        fixed("round"@),
        fixed("player_to_picks"@),
        SegmentView::Field("player_id"@),
    ]);
    let mut extensions: Vec<Vec<KeySegment>> = Vec::new();
    extensions.push(fixed_path("yapper_id"));
    extensions.push(fixed_path("yapper_index"));
    extensions.push(fixed_path("max_rounds"));
    extensions.push(fixed_path("phase"));
    extensions.push(fixed_path("player_points"));
    extensions.push(round);
    extensions.push(picks);
    let schema = KeySchema {
        base_pattern: base_pattern("team_draft", "game_id"),
        allowed_extensions: extensions,
    };
    assert(schema.allowed_extensions.deep_view() =~= team_draft_schema().allowed_extensions);
    let mut list: Vec<(&'static str, KeySchema)> = Vec::new();
    list.push(("team_draft", schema));
    assert(named_schemas(list@) =~= team_draft_key_schemas());
    list
}

} // verus!
