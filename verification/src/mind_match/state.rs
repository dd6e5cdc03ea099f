use crate::mind_match::types::{MindMatchPhase, MindMatchState};
use crate::text_map::TextMap;
use vstd::prelude::*;
use vstd::string::*;

verus! {

impl MindMatchState {
    /// The state before the first question: no question and no answers.
    pub fn new() -> (state: MindMatchState)
        ensures
            state.phase == MindMatchPhase::Question,
            state.question@ == Seq::<char>::empty(),
            state.answers.wf(),
            state.answers@ == Map::<Seq<char>, String>::empty(),
    {
        MindMatchState {
            phase: MindMatchPhase::Question,
            question: String::new(),
            answers: TextMap::new(),
        }
    }
}

} // verus!
