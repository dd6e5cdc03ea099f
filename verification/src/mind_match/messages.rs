use vstd::prelude::*;
use vstd::string::*;

verus! {

/// The question that the players are asked.
#[derive(Debug, Clone, PartialEq, Eq)]
pub struct ShowQuestionMessage {
    pub player_id: String,
    pub question: String,
}

/// The answer of one player.
#[derive(Debug, Clone, PartialEq, Eq)]
pub struct AnswerMessage {
    pub player_id: String,
    pub answer: String,
}

/// What players and the server say to each other during a mind match.
#[derive(Debug, Clone, PartialEq, Eq)]
pub enum MindMatchMessage {
    ShowQuestion(ShowQuestionMessage),
    Answer(AnswerMessage),
}

} // verus!
