use crate::text::{decimal, decimal_text, join_texts, joined, text_eq, texts};
use crate::text_map::TextMap;
use vstd::prelude::*;
use vstd::string::*;

verus! {

/// One place of a key: a word out of a fixed set, or a value that the caller
/// gives and that the schema only names.
#[derive(Debug, Clone, PartialEq)]
pub enum KeySegment {
    Fixed(Vec<&'static str>),
    Field(&'static str),
}

pub ghost enum SegmentView {
    Fixed(Seq<Seq<char>>),
    Field(Seq<char>),
}

/// The views of a list of words.
pub open spec fn words(list: Seq<&'static str>) -> Seq<Seq<char>> {
    Seq::new(list.len(), |i: int| list[i]@)
}

impl View for KeySegment {
    type V = SegmentView;

    open spec fn view(&self) -> SegmentView {
        match self {
            KeySegment::Fixed(allowed) => SegmentView::Fixed(words(allowed@)),
            KeySegment::Field(name) => SegmentView::Field(name@),
        }
    }
}

impl DeepView for KeySegment {
    type V = SegmentView;

    open spec fn deep_view(&self) -> SegmentView {
        self@
    }
}

/// The shape of the keys of one family: the segments that every key starts
/// with, and the paths by which a key may go on after them.
#[derive(Debug, Clone)]
pub struct KeySchema {
    pub base_pattern: Vec<KeySegment>,
    pub allowed_extensions: Vec<Vec<KeySegment>>,
}

pub ghost struct SchemaView {
    pub base_pattern: Seq<SegmentView>,
    pub allowed_extensions: Seq<Seq<SegmentView>>,
}

impl View for KeySchema {
    type V = SchemaView;

    open spec fn view(&self) -> SchemaView {
        SchemaView {
            base_pattern: self.base_pattern.deep_view(),
            allowed_extensions: self.allowed_extensions.deep_view(),
        }
    }
}

impl SchemaView {
    /// Whether every fixed segment of the base pattern has a word to be
    /// filled in with.
    pub open spec fn wf(self) -> bool {
        forall|i: int|
            0 <= i < self.base_pattern.len() ==> (#[trigger] self.base_pattern[i]
                matches SegmentView::Fixed(allowed) ==> allowed.len() >= 1)
    }
}

/// The separator between the segments of a key.
pub open spec fn separator() -> Seq<char> {
    "::"@
}

/// The key made of `segments`.
pub open spec fn key_of(segments: Seq<Seq<char>>) -> Seq<char> {
    joined(segments, separator())
}

/// Whether `value` may stand at a place that `segment` describes.
pub open spec fn accepts(segment: SegmentView, value: Seq<char>) -> bool {
    match segment {
        SegmentView::Fixed(allowed) => allowed.contains(value),
        SegmentView::Field(_) => true,
    }
}

/// Whether extension path `path` of `schema` has a place `position` at which
/// `value` may stand.
pub open spec fn path_accepts(schema: SchemaView, path: int, position: nat, value: Seq<char>)
    -> bool {
    &&& 0 <= path < schema.allowed_extensions.len()
    &&& position < schema.allowed_extensions[path].len()
    &&& accepts(schema.allowed_extensions[path][position as int], value)
}

/// The test by which a value at `position` prunes the extension paths.
pub open spec fn matcher(schema: SchemaView, position: nat, value: Seq<char>) -> spec_fn(int)
    -> bool {
    |path: int| path_accepts(schema, path, position, value)
}

/// All the extension paths of a schema, by their numbers.
pub open spec fn all_paths(schema: SchemaView) -> Seq<int> {
    Seq::new(schema.allowed_extensions.len(), |i: int| i)
}

/// A builder as the contracts see it.
///
/// `values` are the segments so far. `current_segment` counts the segments of
/// the base pattern that are filled. Once the base is complete and a value
/// has gone into an extension, `in_extensions` holds, `extension_segment`
/// counts the values taken by the extension, and `candidates` are the paths
/// that match all of them: with one candidate the builder is committed, with
/// several it is ambiguous.
pub ghost struct BuilderView {
    pub schema: SchemaView,
    pub values: Seq<Seq<char>>,
    pub current_segment: nat,
    pub in_extensions: bool,
    pub extension_segment: nat,
    pub candidates: Seq<int>,
}

impl BuilderView {
    pub open spec fn wf(self) -> bool {
        &&& self.schema.wf()
        &&& self.current_segment <= self.schema.base_pattern.len()
        &&& self.values.len() == self.current_segment + self.extension_segment
        &&& forall|i: int|
            0 <= i < self.candidates.len() ==> 0 <= #[trigger] self.candidates[i]
                < self.schema.allowed_extensions.len()
                && self.schema.allowed_extensions[self.candidates[i]].len()
                >= self.extension_segment
        &&& if self.in_extensions {
            &&& self.current_segment == self.schema.base_pattern.len()
            &&& self.extension_segment >= 1
            &&& self.candidates.len() >= 1
        } else {
            &&& self.extension_segment == 0
            &&& self.candidates == all_paths(self.schema)
        }
    }

    /// Whether the next segment of the base pattern is a fixed one.
    pub open spec fn at_fixed(self) -> bool {
        &&& !self.in_extensions
        &&& self.current_segment < self.schema.base_pattern.len()
        &&& self.schema.base_pattern[self.current_segment as int] is Fixed
    }

    /// Whether the next segment of the base pattern is a field.
    pub open spec fn at_field(self) -> bool {
        &&& !self.in_extensions
        &&& self.current_segment < self.schema.base_pattern.len()
        &&& self.schema.base_pattern[self.current_segment as int] is Field
    }

    /// The builder with `value` as its next segment of the base pattern.
    pub open spec fn with_base_value(self, value: Seq<char>) -> BuilderView {
        BuilderView {
            values: self.values.push(value),
            current_segment: self.current_segment + 1,
            ..self
        }
    }

    /// The builder after every fixed segment that stands next in the base
    /// pattern has been filled with the first of its words.
    pub open spec fn filled(self) -> BuilderView
        decreases self.schema.base_pattern.len() - self.current_segment,
    {
        if self.at_fixed() {
            self.with_base_value(
                self.schema.base_pattern[self.current_segment as int]->Fixed_0[0],
            ).filled()
        } else {
            self
        }
    }

    /// The paths that still match once `value` is the next value of the
    /// extension.
    pub open spec fn pruned(self, value: Seq<char>) -> Seq<int> {
        self.candidates.filter(matcher(self.schema, self.extension_segment, value))
    }

    /// The builder with `value` as its next value of the extension.
    pub open spec fn with_extension_value(self, value: Seq<char>) -> BuilderView {
        BuilderView {
            values: self.values.push(value),
            in_extensions: true,
            extension_segment: self.extension_segment + 1,
            candidates: self.pruned(value),
            ..self
        }
    }

    /// The builder after `value`, or `None` where the schema has no place
    /// for it.
    ///
    /// Fixed segments of the base pattern fill themselves; a field takes the
    /// value. After the base pattern the value goes into the extension and
    /// prunes the paths; it is refused when no path is left.
    pub open spec fn after_field(self, value: Seq<char>) -> Option<BuilderView> {
        let f = self.filled();
        if f.at_field() {
            Some(f.with_base_value(value))
        } else if f.pruned(value).len() == 0 {
            None
        } else {
            Some(f.with_extension_value(value))
        }
    }

    /// The path that the builder is committed to.
    pub open spec fn path(self) -> Seq<SegmentView> {
        self.schema.allowed_extensions[self.candidates[0]]
    }

    /// Whether `i` is a place of the committed path, not yet reached, that
    /// wants a value from the caller.
    pub open spec fn open_field(self, i: int) -> bool {
        self.extension_segment <= i < self.path().len() && self.path()[i] is Field
    }

    /// The segments of the finished key, or `None` where the key is not
    /// complete: a field of the base pattern or of the chosen path has no
    /// value, or more than one path still matches.
    pub open spec fn finished(self) -> Option<Seq<Seq<char>>> {
        let f = self.filled();
        if f.at_field() {
            None
        } else if f.in_extensions && f.candidates.len() > 1 {
            None
        } else if f.in_extensions && exists|i: int| f.open_field(i) {
            None
        } else {
            Some(f.values)
        }
    }
}

// ---------------------------------------------------------------------------
// The words of refusal
// ---------------------------------------------------------------------------
/// A word between quotation marks.
pub open spec fn quoted(word: Seq<char>) -> Seq<char> {
    "\""@ + word + "\""@
}

/// A list of words as it is shown: quoted, with commas, in square brackets.
pub open spec fn shown_words(list: Seq<Seq<char>>) -> Seq<char> {
    "["@ + joined(Seq::new(list.len(), |i: int| quoted(list[i])), ", "@) + "]"@
}

/// A segment as it is shown among the options of a refusal.
pub open spec fn shown_segment(segment: SegmentView) -> Seq<char> {
    match segment {
        SegmentView::Fixed(allowed) => shown_words(allowed),
        SegmentView::Field(name) => "Field("@ + name + ")"@,
    }
}

/// What each of `paths` offers at `position`, for those that reach so far.
pub open spec fn options(schema: SchemaView, paths: Seq<int>, position: nat) -> Seq<Seq<char>>
    decreases paths.len(),
{
    if paths.len() == 0 {
        Seq::empty()
    } else {
        let before = options(schema, paths.drop_last(), position);
        let path = schema.allowed_extensions[paths.last()];
        if position < path.len() {
            before.push(shown_segment(path[position as int]))
        } else {
            before
        }
    }
}

/// The text with which a value is refused for which no path is left.
pub open spec fn no_match_text(f: BuilderView, value: Seq<char>) -> Seq<char> {
    (if f.in_extensions {
        "No potential extension path matches '"@
    } else {
        "No extension path matches '"@
    }) + value + "' at position "@ + decimal(f.extension_segment) + ". Available options: "@
        + joined(options(f.schema, f.candidates, f.extension_segment), ", "@)
}

/// The text with which `after_field` refuses `value`.
pub open spec fn field_refusal(b: BuilderView, value: Seq<char>) -> Seq<char> {
    let f = b.filled();
    if f.schema.allowed_extensions.len() == 0 {
        if b.current_segment < f.current_segment {
            "No field expected after base pattern"@
        } else {
            "No extensions allowed for this schema"@
        }
    } else if f.in_extensions && f.candidates.len() == 1 {
        if f.extension_segment >= f.path().len() {
            "Extension path is complete, no more segments allowed"@
        } else {
            "Invalid fixed segment '"@ + value + "'. Allowed values: "@ + shown_segment(
                f.path()[f.extension_segment as int],
            )
        }
    } else {
        no_match_text(f, value)
    }
}

/// The name of a field.
pub open spec fn field_name(segment: SegmentView) -> Seq<char> {
    match segment {
        SegmentView::Field(name) => name,
        SegmentView::Fixed(_) => Seq::empty(),
    }
}

/// The first place of the committed path, from the one that stands next,
/// that wants a value from the caller.
pub open spec fn first_open_field(f: BuilderView) -> int {
    choose|i: int| f.open_field(i) && forall|j: int| f.extension_segment <= j < i ==> !f.open_field(j)
}

/// The text with which `finished` refuses a key that is not complete.
pub open spec fn finish_refusal(b: BuilderView) -> Seq<char> {
    let f = b.filled();
    if f.at_field() {
        "Missing required field: "@ + field_name(f.schema.base_pattern[f.current_segment as int])
    } else if f.in_extensions && f.candidates.len() > 1 {
        "Ambiguous key: more than one extension path matches"@
    } else {
        "Missing required field: "@ + field_name(f.path()[first_open_field(f)])
    }
}

// ---------------------------------------------------------------------------
// The builder
// ---------------------------------------------------------------------------
/// Builds one key against one schema, value by value.
#[derive(Debug, Clone)]
pub struct KeyBuilder {
    schema: KeySchema,
    values: Vec<String>,
    current_segment: usize,
    in_extensions: bool,
    extension_segment: usize,
    candidates: Vec<usize>,
}

/// A list of path numbers as the contracts see it.
pub open spec fn path_numbers(list: Seq<usize>) -> Seq<int> {
    Seq::new(list.len(), |i: int| list[i] as int)
}

impl View for KeyBuilder {
    type V = BuilderView;

    closed spec fn view(&self) -> BuilderView {
        BuilderView {
            schema: self.schema@,
            values: texts(self.values@),
            current_segment: self.current_segment as nat,
            in_extensions: self.in_extensions,
            extension_segment: self.extension_segment as nat,
            candidates: path_numbers(self.candidates@),
        }
    }
}

/// Whether `value` is one of `allowed`.
fn is_allowed(allowed: &Vec<&'static str>, value: &str) -> (r: bool)
    ensures
        r == words(allowed@).contains(value@),
{
    let mut i: usize = 0;
    while i < allowed.len()
        invariant
            i <= allowed@.len(),
            forall|j: int| 0 <= j < i ==> words(allowed@)[j] != value@,
        decreases allowed@.len() - i,
    {
        if text_eq(allowed[i], value) {
            assert(words(allowed@)[i as int] == value@);
            return true;
        }
        i += 1;
    }
    false
}

/// Whether `value` may stand at a place that `segment` describes.
fn segment_accepts(segment: &KeySegment, value: &str) -> (r: bool)
    ensures
        r == accepts(segment@, value@),
{
    match segment {
        KeySegment::Fixed(allowed) => is_allowed(allowed, value),
        KeySegment::Field(_) => true,
    }
}

/// Shows a list of words: quoted, with commas, in square brackets.
fn show_words(list: &Vec<&'static str>) -> (r: String)
    ensures
        r@ == shown_words(words(list@)),
{
    let mut parts: Vec<String> = Vec::new();
    let mut i: usize = 0;
    while i < list.len()
        invariant
            i <= list@.len(),
            parts@.len() == i,
            forall|j: int| 0 <= j < i ==> (#[trigger] parts@[j])@ == quoted(words(list@)[j]),
        decreases list@.len() - i,
    {
        let mut word = String::from_str("\"");
        word.append(list[i]);
        word.append("\"");
        parts.push(word);
        i += 1;
    }
    assert(texts(parts@) =~= Seq::new(
        words(list@).len(),
        |i: int| quoted(words(list@)[i]),
    ));
    let mut out = String::from_str("[");
    let inner = join_texts(&parts, ", ");
    out.append(inner.as_str());
    out.append("]");
    out
}

/// Shows a segment as it stands among the options of a refusal.
fn show_segment(segment: &KeySegment) -> (r: String)
    ensures
        r@ == shown_segment(segment@),
{
    match segment {
        KeySegment::Fixed(allowed) => show_words(allowed),
        KeySegment::Field(name) => {
            let mut out = String::from_str("Field(");
            out.append(name);
            out.append(")");
            out
        },
    }
}

impl KeyBuilder {
    /// Whether the builder is in a state that `new` and `field` can lead to.
    pub open spec fn wf(&self) -> bool {
        self@.wf()
    }

    /// A builder that has taken no value yet.
    fn start(schema: KeySchema) -> (b: KeyBuilder)
        requires
            schema@.wf(),
        ensures
            b.wf(),
            b@ == fresh_builder(schema@),
    {
        let mut candidates: Vec<usize> = Vec::new();
        let mut i: usize = 0;
        while i < schema.allowed_extensions.len()
            invariant
                i <= schema.allowed_extensions@.len(),
                candidates@.len() == i,
                forall|j: int| 0 <= j < i ==> candidates@[j] == j,
            decreases schema.allowed_extensions@.len() - i,
        {
            candidates.push(i);
            i += 1;
        }
        let b = KeyBuilder {
            schema,
            values: Vec::new(),
            current_segment: 0,
            in_extensions: false,
            extension_segment: 0,
            candidates,
        };
        assert(b@.candidates =~= all_paths(b@.schema));
        assert(b@.values =~= Seq::empty());
        b
    }

    /// A builder for the keys of the schema that is registered as
    /// `schema_name`.
    pub fn new(schema_name: &str) -> (r: Result<KeyBuilder, String>)
        ensures
            match r {
                Ok(b) => standard_schemas().contains_key(schema_name@) && b.wf() && b@
                    == fresh_builder(standard_schemas()[schema_name@]),
                Err(e) => !standard_schemas().contains_key(schema_name@) && e@
                    == "Unknown key schema: "@ + schema_name@,
            },
    {
        let mut schemas = KeySchemas::new();
        assert(schemas@.contains_key(schema_name@) ==> schemas@[schema_name@]
            == schemas.schemas@[schema_name@]@);
        match schemas.schemas.remove(schema_name) {
            Some(schema) => {
                proof {
                    lemma_standard_schemas_wf();
                }
                Ok(KeyBuilder::start(schema))
            },
            None => {
                let mut text = String::from_str("Unknown key schema: ");
                text.append(schema_name);
                Err(text)
            },
        }
    }

    /// Fills every fixed segment that stands next in the base pattern.
    fn fill(&mut self)
        requires
            old(self).wf(),
        ensures
            final(self).wf(),
            final(self)@ == old(self)@.filled(),
            !final(self)@.at_fixed(),
    {
        let ghost start = self@;
        let mut going = true;
        while going && !self.in_extensions && self.current_segment < self.schema.base_pattern.len()
            invariant
                self.wf(),
                self@.filled() == start.filled(),
                !going ==> !self@.at_fixed(),
            decreases
                    self.schema.base_pattern@.len() - self.current_segment + (if going {
                        1int
                    } else {
                        0int
                    }),
        {
            let ghost here = self@;
            assert(here.schema.base_pattern[here.current_segment as int]
                == self.schema.base_pattern@[self.current_segment as int]@);
            match &self.schema.base_pattern[self.current_segment] {
                KeySegment::Fixed(allowed) => {
                    assert(words(allowed@).len() >= 1);
                    let word: &'static str = allowed[0];
                    self.values.push(String::from_str(word));
                    self.current_segment += 1;
                    proof {
                        assert(self@.values =~= here.values.push(word@));
                        assert(self@ == here.with_base_value(words(allowed@)[0]));
                        assert(self@.candidates == all_paths(self@.schema));
                    }
                },
                KeySegment::Field(_) => {
                    going = false;
                },
            }
        }
    }

    /// The paths among the candidates that have a place for `value` next.
    fn prune(&self, value: &str) -> (kept: Vec<usize>)
        requires
            self.wf(),
        ensures
            path_numbers(kept@) == self@.pruned(value@),
            forall|i: int|
                0 <= i < kept@.len() ==> (#[trigger] kept@[i]) < self@.schema.allowed_extensions.len()
                    && self@.schema.allowed_extensions[kept@[i] as int].len()
                    > self@.extension_segment,
    {
        let ghost b = self@;
        let ghost test = matcher(b.schema, b.extension_segment, value@);
        let mut kept: Vec<usize> = Vec::new();
        let mut i: usize = 0;
        proof {
            reveal(Seq::filter);
            assert(b.candidates.take(0) =~= Seq::empty());
            assert(path_numbers(kept@) =~= Seq::empty());
        }
        while i < self.candidates.len()
            invariant
                i <= self.candidates@.len(),
                self.wf(),
                b == self@,
                test == matcher(b.schema, b.extension_segment, value@),
                path_numbers(kept@) == b.candidates.take(i as int).filter(test),
                forall|k: int|
                    0 <= k < kept@.len() ==> (#[trigger] kept@[k]) < b.schema.allowed_extensions.len()
                        && b.schema.allowed_extensions[kept@[k] as int].len()
                        > b.extension_segment,
            decreases self.candidates@.len() - i,
        {
            let path = self.candidates[i];
            assert(b.candidates[i as int] == path);
            assert(b.schema.allowed_extensions[path as int]
                == self.schema.allowed_extensions@[path as int].deep_view());
            let segments = &self.schema.allowed_extensions[path];
            let fits = if self.extension_segment < segments.len() {
                assert(segments.deep_view()[self.extension_segment as int]
                    == segments@[self.extension_segment as int]@);
                segment_accepts(&segments[self.extension_segment], value)
            } else {
                false
            };
            assert(fits == test(path as int));
            proof {
                reveal(Seq::filter);
                let upto = b.candidates.take(i + 1);
                assert(upto.drop_last() =~= b.candidates.take(i as int));
                assert(upto.last() == path);
            }
            let ghost had = path_numbers(kept@);
            if fits {
                kept.push(path);
                assert(path_numbers(kept@) =~= had.push(path as int));
            }
            i += 1;
        }
        assert(b.candidates.take(self.candidates@.len() as int) =~= b.candidates);
        kept
    }

    /// What each candidate offers at the place that stands next.
    fn list_options(&self) -> (out: Vec<String>)
        requires
            self.wf(),
        ensures
            texts(out@) == options(self@.schema, self@.candidates, self@.extension_segment),
    {
        let ghost b = self@;
        let mut out: Vec<String> = Vec::new();
        let mut i: usize = 0;
        proof {
            assert(b.candidates.take(0) =~= Seq::empty());
            assert(texts(out@) =~= Seq::empty());
        }
        while i < self.candidates.len()
            invariant
                i <= self.candidates@.len(),
                self.wf(),
                b == self@,
                texts(out@) == options(b.schema, b.candidates.take(i as int), b.extension_segment),
            decreases self.candidates@.len() - i,
        {
            let path = self.candidates[i];
            assert(b.candidates[i as int] == path);
            assert(b.schema.allowed_extensions[path as int]
                == self.schema.allowed_extensions@[path as int].deep_view());
            proof {
                let upto = b.candidates.take(i + 1);
                assert(upto.drop_last() =~= b.candidates.take(i as int));
                assert(upto.last() == path);
            }
            let segments = &self.schema.allowed_extensions[path];
            let ghost had = texts(out@);
            if self.extension_segment < segments.len() {
                assert(segments.deep_view()[self.extension_segment as int]
                    == segments@[self.extension_segment as int]@);
                let shown = show_segment(&segments[self.extension_segment]);
                out.push(shown);
                assert(texts(out@) =~= had.push(shown@));
            }
            i += 1;
        }
        assert(b.candidates.take(self.candidates@.len() as int) =~= b.candidates);
        out
    }

    /// The words with which a value is refused for which no path is left.
    fn refuse(&self, value: &str, filled_now: bool) -> (text: String)
        requires
            self.wf(),
            !self@.at_fixed(),
            !self@.at_field(),
            self@.pruned(value@).len() == 0,
        ensures
            text@ == if self@.schema.allowed_extensions.len() == 0 {
                if filled_now {
                    "No field expected after base pattern"@
                } else {
                    "No extensions allowed for this schema"@
                }
            } else if self@.in_extensions && self@.candidates.len() == 1 {
                if self@.extension_segment >= self@.path().len() {
                    "Extension path is complete, no more segments allowed"@
                } else {
                    "Invalid fixed segment '"@ + value@ + "'. Allowed values: "@ + shown_segment(
                        self@.path()[self@.extension_segment as int],
                    )
                }
            } else {
                no_match_text(self@, value@)
            },
    {
        if self.schema.allowed_extensions.len() == 0 {
            if filled_now {
                String::from_str("No field expected after base pattern")
            } else {
                String::from_str("No extensions allowed for this schema")
            }
        } else if self.in_extensions && self.candidates.len() == 1 {
            let path = self.candidates[0];
            assert(self@.candidates[0] == path);
            assert(self@.path() == self.schema.allowed_extensions@[path as int].deep_view());
            let segments = &self.schema.allowed_extensions[path];
            if self.extension_segment >= segments.len() {
                String::from_str("Extension path is complete, no more segments allowed")
            } else {
                assert(segments.deep_view()[self.extension_segment as int]
                    == segments@[self.extension_segment as int]@);
                let mut text = String::from_str("Invalid fixed segment '");
                text.append(value);
                text.append("'. Allowed values: ");
                let shown = show_segment(&segments[self.extension_segment]);
                text.append(shown.as_str());
                text
            }
        } else {
            let mut text = if self.in_extensions {
                String::from_str("No potential extension path matches '")
            } else {
                String::from_str("No extension path matches '")
            };
            text.append(value);
            text.append("' at position ");
            let position = decimal_text(self.extension_segment as u64);
            text.append(position.as_str());
            text.append(". Available options: ");
            let list = self.list_options();
            let shown = join_texts(&list, ", ");
            text.append(shown.as_str());
            text
        }
    }

    /// Takes `value` as the next value of the key.
    ///
    /// Fixed segments of the base pattern fill themselves, so the value goes
    /// to the next field. After the base pattern it goes into the extension
    /// and prunes the extension paths. It is refused, with the options that
    /// were open, when the schema has no place for it.
    pub fn field(self, value: &str) -> (r: Result<KeyBuilder, String>)
        requires
            self.wf(),
        ensures
            match self@.after_field(value@) {
                Some(next) => r is Ok && r->Ok_0.wf() && r->Ok_0@ == next,
                None => r is Err && r->Err_0@ == field_refusal(self@, value@),
            },
    {
        let ghost b = self@;
        let mut builder = self;
        let was = builder.current_segment;
        builder.fill();
        let ghost f = builder@;
        if !builder.in_extensions && builder.current_segment < builder.schema.base_pattern.len() {
            assert(f.schema.base_pattern[f.current_segment as int]
                == builder.schema.base_pattern@[builder.current_segment as int]@);
            assert(f.at_field());
            builder.values.push(String::from_str(value));
            builder.current_segment += 1;
            proof {
                assert(builder@.values =~= f.values.push(value@));
                assert(builder@ == f.with_base_value(value@));
            }
            return Ok(builder);
        }
        assert(!f.at_field());
        let kept = builder.prune(value);
        if kept.len() == 0 {
            let text = builder.refuse(value, was < builder.current_segment);
            return Err(text);
        }
        let reach = builder.schema.allowed_extensions[kept[0]].len();
        proof {
            let first = kept@[0];
            assert(f.schema.allowed_extensions[first as int]
                == builder.schema.allowed_extensions@[first as int].deep_view());
            assert(builder.extension_segment < reach);
        }
        builder.candidates = kept;
        builder.in_extensions = true;
        builder.values.push(String::from_str(value));
        builder.extension_segment += 1;
        proof {
            assert(builder@.values =~= f.values.push(value@));
            assert(builder@ == f.with_extension_value(value@));
        }
        Ok(builder)
    }

    /// The name of the first field that the committed path still wants, if
    /// there is one.
    fn find_open_field(&self) -> (r: Option<&'static str>)
        requires
            self.wf(),
            self@.in_extensions,
        ensures
            match r {
                Some(name) => (exists|i: int| self@.open_field(i)) && name@ == field_name(
                    self@.path()[first_open_field(self@)],
                ),
                None => !(exists|i: int| self@.open_field(i)),
            },
    {
        let ghost b = self@;
        let path = self.candidates[0];
        assert(b.candidates[0] == path);
        assert(b.path() == self.schema.allowed_extensions@[path as int].deep_view());
        let segments = &self.schema.allowed_extensions[path];
        let mut i: usize = self.extension_segment;
        while i < segments.len()
            invariant
                self.extension_segment <= i <= segments@.len(),
                b == self@,
                b.path() == segments.deep_view(),
                forall|j: int| b.extension_segment <= j < i ==> !b.open_field(j),
            decreases segments@.len() - i,
        {
            assert(segments.deep_view()[i as int] == segments@[i as int]@);
            match &segments[i] {
                KeySegment::Field(name) => {
                    proof {
                        assert(b.open_field(i as int));
                        let c = first_open_field(b);
                        assert(b.open_field(c) && forall|j: int|
                            b.extension_segment <= j < c ==> !b.open_field(j));
                        assert(c == i);
                    }
                    return Some(*name);
                },
                KeySegment::Fixed(_) => {},
            }
            i += 1;
        }
        None
    }

    /// The finished key: its segments joined by `::`.
    ///
    /// Fixed segments that the base pattern still wants fill themselves. The
    /// key is refused when a field of the base pattern or of the chosen
    /// extension path has no value, and when more than one extension path
    /// still matches.
    pub fn get_key(self) -> (r: Result<String, String>)
        requires
            self.wf(),
        ensures
            match self@.finished() {
                Some(segments) => r is Ok && r->Ok_0@ == key_of(segments),
                None => r is Err && r->Err_0@ == finish_refusal(self@),
            },
    {
        let mut builder = self;
        builder.fill();
        let ghost f = builder@;
        if !builder.in_extensions && builder.current_segment < builder.schema.base_pattern.len() {
            assert(f.schema.base_pattern[f.current_segment as int]
                == builder.schema.base_pattern@[builder.current_segment as int]@);
            let mut text = String::from_str("Missing required field: ");
            match &builder.schema.base_pattern[builder.current_segment] {
                KeySegment::Field(name) => {
                    text.append(name);
                },
                KeySegment::Fixed(_) => {},
            }
            return Err(text);
        }
        if builder.in_extensions {
            if builder.candidates.len() > 1 {
                return Err(String::from_str("Ambiguous key: more than one extension path matches"));
            }
            match builder.find_open_field() {
                Some(name) => {
                    let mut text = String::from_str("Missing required field: ");
                    text.append(name);
                    return Err(text);
                },
                None => {},
            }
        }
        Ok(join_texts(&builder.values, "::"))
    }
}

/// The builder that has taken no value yet.
pub open spec fn fresh_builder(schema: SchemaView) -> BuilderView {
    BuilderView {
        schema,
        values: Seq::empty(),
        current_segment: 0,
        in_extensions: false,
        extension_segment: 0,
        candidates: all_paths(schema),
    }
}

/// A builder for the keys of the schema that is registered as `schema_name`.
pub fn key(schema_name: &str) -> (r: Result<KeyBuilder, String>)
    ensures
        match r {
            Ok(b) => standard_schemas().contains_key(schema_name@) && b.wf() && b@ == fresh_builder(
                standard_schemas()[schema_name@],
            ),
            Err(e) => !standard_schemas().contains_key(schema_name@) && e@
                == "Unknown key schema: "@ + schema_name@,
        },
{
    KeyBuilder::new(schema_name)
}

// ---------------------------------------------------------------------------
// The schemas
// ---------------------------------------------------------------------------
/// A fixed segment with a single word.
pub open spec fn fixed(word: Seq<char>) -> SegmentView {
    SegmentView::Fixed(seq![word])
}

/// The schema of the keys `name::<field>`.
pub open spec fn index_schema(name: Seq<char>, field: Seq<char>) -> SchemaView {
    SchemaView {
        base_pattern: seq![fixed(name), SegmentView::Field(field)],
        allowed_extensions: Seq::empty(),
    }
}

/// A fixed segment with the single word `word`.
pub fn fixed_segment(word: &'static str) -> (segment: KeySegment)
    ensures
        segment@ == fixed(word@),
{
    let mut allowed: Vec<&'static str> = Vec::new();
    allowed.push(word);
    assert(words(allowed@) =~= seq![word@]);
    KeySegment::Fixed(allowed)
}

/// An extension path of one fixed word.
pub fn fixed_path(word: &'static str) -> (path: Vec<KeySegment>)
    ensures
        path.deep_view() == seq![fixed(word@)],
{
    let mut path: Vec<KeySegment> = Vec::new();
    path.push(fixed_segment(word));
    assert(path.deep_view() =~= seq![fixed(word@)]);
    path
}

/// The base pattern `name::<field>`.
pub fn base_pattern(name: &'static str, field: &'static str) -> (base: Vec<KeySegment>)
    ensures
        base.deep_view() == seq![fixed(name@), SegmentView::Field(field@)],
{
    let mut base: Vec<KeySegment> = Vec::new();
    base.push(fixed_segment(name));
    base.push(KeySegment::Field(field));
    assert(base.deep_view() =~= seq![fixed(name@), SegmentView::Field(field@)]);
    base
}

/// The schema of the keys `name::<field>`.
pub fn index_key_schema(name: &'static str, field: &'static str) -> (schema: KeySchema)
    ensures
        schema@ == index_schema(name@, field@),
{
    let schema = KeySchema { base_pattern: base_pattern(name, field), allowed_extensions: Vec::new() };
    assert(schema.allowed_extensions.deep_view() =~= Seq::empty());
    schema
}

/// The schemas of every key that the service keeps, by their names.
pub open spec fn standard_schemas() -> Map<Seq<char>, SchemaView> {
    Map::<Seq<char>, SchemaView>::empty().insert("game"@, crate::game::types::game_schema()).insert(
        "player_usernames"@,
        index_schema("player_usernames"@, "player_id"@),
    ).insert("team_draft"@, crate::team_draft::types::team_draft_schema()).insert(
        "game_code"@,
        index_schema("game_code"@, "code"@),
    ).insert("player_to_game"@, index_schema("player_to_game"@, "player_id"@)).insert(
        "player_auth"@,
        index_schema("player_auth"@, "player_id"@),
    )
}

/// Every registered schema can fill its fixed segments.
pub proof fn lemma_standard_schemas_wf()
    ensures
        forall|name: Seq<char>| #[trigger]
            standard_schemas().contains_key(name) ==> standard_schemas()[name].wf(),
{
}

/// The registered schemas.
#[derive(Debug, Clone)]
pub struct KeySchemas {
    schemas: TextMap<KeySchema>,
}

impl View for KeySchemas {
    type V = Map<Seq<char>, SchemaView>;

    closed spec fn view(&self) -> Map<Seq<char>, SchemaView> {
        self.schemas@.map_values(|schema: KeySchema| schema@)
    }
}

impl KeySchemas {
    pub closed spec fn wf(&self) -> bool {
        self.schemas.wf()
    }

    /// The schemas of every key that the service keeps.
    pub fn new() -> (schemas: KeySchemas)
        ensures
            schemas.wf(),
            schemas@ == standard_schemas(),
    {
        let mut schemas: TextMap<KeySchema> = TextMap::new();
        let mut game = crate::game::types::get_key_schemas();
        proof {
            let named = crate::game::types::named_schemas(game@);
            assert(named.len() == 2);
            assert(named[0] == crate::game::types::game_key_schemas()[0]);
            assert(named[1] == crate::game::types::game_key_schemas()[1]);
        }
        let usernames = game.pop();
        let games = game.pop();
        let mut team_draft = crate::team_draft::types::get_key_schemas();
        proof {
            let named = crate::game::types::named_schemas(team_draft@);
            assert(named.len() == 1);
            assert(named[0] == crate::team_draft::types::team_draft_key_schemas()[0]);
        }
        let drafts = team_draft.pop();
        let ghost m0 = schemas@;
        match games {
            Some((name, schema)) => schemas.insert(String::from_str(name), schema),
            None => {},
        }
        match usernames {
            Some((name, schema)) => schemas.insert(String::from_str(name), schema),
            None => {},
        }
        match drafts {
            Some((name, schema)) => schemas.insert(String::from_str(name), schema),
            None => {},
        }
        schemas.insert(String::from_str("game_code"), index_key_schema("game_code", "code"));
        schemas.insert(
            String::from_str("player_to_game"),
            index_key_schema("player_to_game", "player_id"),
        );
        schemas.insert(String::from_str("player_auth"), index_key_schema("player_auth", "player_id"));
        let all = KeySchemas { schemas };
        assert(all@ =~= standard_schemas());
        all
    }

    /// The schema that is registered as `name`, if there is one.
    pub fn get(&self, name: &str) -> (r: Option<&KeySchema>)
        requires
            self.wf(),
        ensures
            match r {
                Some(schema) => self@.contains_key(name@) && schema@ == self@[name@],
                None => !self@.contains_key(name@),
            },
    {
        self.schemas.get(name)
    }
}

} // verus!
