use crate::cache::key_builder::{
    base_pattern, fixed, fixed_path, KeySchema, KeySegment, SchemaView, SegmentView,
};
use crate::game::types::named_schemas;
use crate::text_map::TextMap;
use vstd::prelude::*;
use vstd::string::*;

verus! {

/// Where a mind match stands.
#[derive(Debug, Clone, Copy, PartialEq, Eq)]
pub enum MindMatchPhase {
    Question,
    Answer,
}

/// The whole state of a mind match: the question and each player's answer.
#[derive(Debug, Clone)]
pub struct MindMatchState {
    pub phase: MindMatchPhase,
    pub question: String,
    pub answers: TextMap<String>,
}

/// The schema of the keys of one mind match: `mind_match::<game_id>`, which
/// may go on with the name of one of the state's fields.
pub open spec fn mind_match_schema() -> SchemaView {
    SchemaView {
        base_pattern: seq![fixed("mind_match"@), SegmentView::Field("game_id"@)],
        allowed_extensions: seq![
            seq![fixed("phase"@)],
            seq![fixed("question"@)],
            seq![fixed("answers"@)],
        ],
    }
}

/// The schemas of the keys that hold the state of a mind match.
pub fn get_key_schemas() -> (list: Vec<(&'static str, KeySchema)>)
    ensures
        named_schemas(list@) == seq![("mind_match"@, mind_match_schema())],
{
    let mut extensions: Vec<Vec<KeySegment>> = Vec::new();
    extensions.push(fixed_path("phase"));
    extensions.push(fixed_path("question"));
    extensions.push(fixed_path("answers"));
    let schema = KeySchema {
        base_pattern: base_pattern("mind_match", "game_id"),
        allowed_extensions: extensions,
    };
    assert(schema.allowed_extensions.deep_view() =~= mind_match_schema().allowed_extensions);
    let mut list: Vec<(&'static str, KeySchema)> = Vec::new();
    list.push(("mind_match", schema));
    assert(named_schemas(list@) =~= seq![("mind_match"@, mind_match_schema())]);
    list
}

} // verus!
