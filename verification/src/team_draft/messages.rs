use crate::text_map::TextMap;
use vstd::prelude::*;
use vstd::string::*;

verus! {

/// Why a pause was put into the stream of events of a draft.
#[derive(Debug, Clone, Copy, PartialEq, Eq)]
pub enum TeamDraftTimerReason {
    WaitingForPoolAndCompetition,
    YapperStartingDraft,
    DraftPickShowcase,
    WaitingForDraftPick,
    TransitionToAwarding,
    WaitingForNextRound,
}

#[derive(Debug, Clone, PartialEq, Eq)]
pub struct SetPoolMessage {
    pub pool: String,
}

#[derive(Debug, Clone, PartialEq, Eq)]
pub struct SetCompetitionMessage {
    pub competition: String,
}

#[derive(Debug, Clone, PartialEq, Eq)]
pub struct StartDraft {
    pub starting_drafter_id: String,
}

#[derive(Debug, Clone, PartialEq, Eq)]
pub struct DraftPick {
    pub drafter_id: String,
    pub pick: String,
}

#[derive(Debug, Clone, PartialEq, Eq)]
pub struct NextDrafter {
    pub drafter_id: String,
}

#[derive(Debug, Clone, Copy, PartialEq, Eq)]
pub struct AwardingPhase {}

#[derive(Debug, Clone, PartialEq, Eq)]
pub struct AwardPoint {
    pub player_id: String,
}

#[derive(Debug, Clone, Copy, PartialEq, Eq)]
pub struct NextRound {
    pub round: u8,
    pub team_size: u8,
}

/// The points of every player at the end of a game.
#[derive(Debug, Clone)]
pub struct CompleteGame {
    pub player_points: TextMap<u8>,
}

/// What players and the server say to each other during a draft.
#[derive(Debug, Clone)]
pub enum TeamDraftMessage {
    SetPool(SetPoolMessage),
    SetCompetition(SetCompetitionMessage),
    StartDraft(StartDraft),
    DraftPick(DraftPick),
    NextDrafter(NextDrafter),
    AwardingPhase(AwardingPhase),
    AwardPoint(AwardPoint),
    NextRound(NextRound),
    CompleteGame(CompleteGame),
}

/// A `TeamDraftMessage` with each text taken as a sequence of characters and
/// each table as a map.
pub ghost enum TeamDraftMessageView {
    SetPool { pool: Seq<char> },
    SetCompetition { competition: Seq<char> },
    StartDraft { starting_drafter_id: Seq<char> },
    DraftPick { drafter_id: Seq<char>, pick: Seq<char> },
    NextDrafter { drafter_id: Seq<char> },
    AwardingPhase,
    AwardPoint { player_id: Seq<char> },
    NextRound { round: nat, team_size: nat },
    CompleteGame { player_points: Map<Seq<char>, u8> },
}

impl View for TeamDraftMessage {
    type V = TeamDraftMessageView;

    open spec fn view(&self) -> TeamDraftMessageView {
        match self {
            TeamDraftMessage::SetPool(m) => TeamDraftMessageView::SetPool { pool: m.pool@ },
            TeamDraftMessage::SetCompetition(m) => TeamDraftMessageView::SetCompetition {
                competition: m.competition@,
            },
            TeamDraftMessage::StartDraft(m) => TeamDraftMessageView::StartDraft {
                starting_drafter_id: m.starting_drafter_id@,
            },
            TeamDraftMessage::DraftPick(m) => TeamDraftMessageView::DraftPick {
                drafter_id: m.drafter_id@,
                pick: m.pick@,
            },
            TeamDraftMessage::NextDrafter(m) => TeamDraftMessageView::NextDrafter {
                drafter_id: m.drafter_id@,
            },
            TeamDraftMessage::AwardingPhase(_) => TeamDraftMessageView::AwardingPhase,
            TeamDraftMessage::AwardPoint(m) => TeamDraftMessageView::AwardPoint {
                player_id: m.player_id@,
            },
            TeamDraftMessage::NextRound(m) => TeamDraftMessageView::NextRound {
                round: m.round as nat,
                team_size: m.team_size as nat,
            },
            TeamDraftMessage::CompleteGame(m) => TeamDraftMessageView::CompleteGame {
                player_points: m.player_points@,
            },
        }
    }
}

impl TeamDraftMessage {
    /// Whether every table in the message is well formed.
    pub open spec fn wf(&self) -> bool {
        match self {
            TeamDraftMessage::CompleteGame(m) => m.player_points.wf(),
            _ => true,
        }
    }
}

} // verus!
