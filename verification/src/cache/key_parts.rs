use crate::cache::key_builder::{
    field_refusal, finish_refusal, fresh_builder, key, key_of, separator, standard_schemas, words,
    BuilderView, SchemaView, SegmentView,
};
use crate::text::{text_eq, texts};
use vstd::prelude::*;
use vstd::string::*;

verus! {

// ---------------------------------------------------------------------------
// Taking a key apart
// ---------------------------------------------------------------------------
/// Whether a separator begins at place `i` of `t`.
pub open spec fn separator_at(t: Seq<char>, i: int) -> bool {
    0 <= i && i + 1 < t.len() && t[i] == ':' && t[i + 1] == ':'
}

/// Whether the first separator of `t` begins at place `i`.
pub open spec fn is_first_separator(t: Seq<char>, i: int) -> bool {
    separator_at(t, i) && forall|j: int| 0 <= j < i ==> !separator_at(t, j)
}

/// The place at which the first separator of `t` begins, if `t` has one.
pub open spec fn first_separator(t: Seq<char>) -> Option<int> {
    if exists|i: int| separator_at(t, i) {
        Some(choose|i: int| is_first_separator(t, i))
    } else {
        None
    }
}

/// The pieces of `t` between its separators, read from the left: a piece
/// ends where the next separator begins, and the next piece begins right
/// after that separator.
pub open spec fn split_text(t: Seq<char>) -> Seq<Seq<char>>
    decreases t.len(),
{
    match first_separator(t) {
        Some(i) => if 0 <= i && i + 2 <= t.len() {
            seq![t.take(i)] + split_text(t.skip(i + 2))
        } else {
            seq![t]
        },
        None => seq![t],
    }
}

proof fn lemma_least_separator(t: Seq<char>, k: int)
    requires
        separator_at(t, k),
    ensures
        exists|i: int| is_first_separator(t, i),
    decreases k,
{
    if exists|j: int| 0 <= j < k && separator_at(t, j) {
        let j = choose|j: int| 0 <= j < k && separator_at(t, j);
        lemma_least_separator(t, j);
    } else {
        assert(is_first_separator(t, k));
    }
}

/// A text with a separator has a first one, and `first_separator` gives it.
pub proof fn lemma_first_separator(t: Seq<char>)
    ensures
        match first_separator(t) {
            Some(i) => is_first_separator(t, i),
            None => forall|j: int| !separator_at(t, j),
        },
{
    if exists|i: int| separator_at(t, i) {
        let k = choose|i: int| separator_at(t, i);
        lemma_least_separator(t, k);
    }
}

/// The first separator begins where `i` says, if a separator begins there
/// and none begins before.
pub proof fn lemma_first_separator_is(t: Seq<char>, i: int)
    requires
        is_first_separator(t, i),
    ensures
        first_separator(t) == Some(i),
{
    lemma_first_separator(t);
    let f = first_separator(t).unwrap();
    if f < i {
        assert(!separator_at(t, f));
    } else if i < f {
        assert(!separator_at(t, i));
    }
}

/// Takes a key apart at its separators.
pub fn split_key(key: &str) -> (parts: Vec<String>)
    ensures
        texts(parts@) == split_text(key@),
{
    let n = key.unicode_len();
    let mut parts: Vec<String> = Vec::new();
    let mut start: usize = 0;
    let mut i: usize = 0;
    proof {
        assert(key@.skip(0) =~= key@);
        assert(texts(parts@) + split_text(key@.skip(0)) =~= split_text(key@));
    }
    while n - i > 1
        invariant
            n == key@.len(),
            start <= i <= n,
            texts(parts@) + split_text(key@.skip(start as int)) == split_text(key@),
            forall|j: int| 0 <= j < i - start ==> !separator_at(key@.skip(start as int), j),
        decreases n - i,
    {
        let ghost rest = key@.skip(start as int);
        if key.get_char(i) == ':' && key.get_char(i + 1) == ':' {
            let piece = key.substring_char(start, i);
            let ghost had = texts(parts@);
            parts.push(String::from_str(piece));
            proof {
                assert(separator_at(rest, i - start));
                lemma_first_separator_is(rest, i - start);
                assert(piece@ =~= rest.take(i - start));
                assert(rest.skip(i - start + 2) =~= key@.skip(i + 2));
                assert(texts(parts@) =~= had.push(piece@));
                assert(had + (seq![piece@] + split_text(key@.skip(i + 2))) =~= had.push(piece@)
                    + split_text(key@.skip(i + 2)));
            }
            start = i + 2;
            i = i + 2;
        } else {
            proof {
                assert(!separator_at(rest, i - start));
            }
            i = i + 1;
        }
    }
    let piece = key.substring_char(start, n);
    let ghost had = texts(parts@);
    parts.push(String::from_str(piece));
    proof {
        let rest = key@.skip(start as int);
        assert(piece@ =~= rest);
        lemma_first_separator(rest);
        assert(first_separator(rest) is None) by {
            if first_separator(rest) is Some {
                let f = first_separator(rest).unwrap();
                assert(separator_at(rest, f));
                assert(f < i - start);
            }
        }
        assert(texts(parts@) =~= had.push(piece@));
        assert(had + seq![rest] =~= had.push(rest));
    }
    parts
}

/// The id of the game whose code is kept under `key`: the middle piece of
/// `game::<game_id>::code`.
pub open spec fn game_id_of_code_key(key: Seq<char>) -> Option<Seq<char>> {
    let parts = split_text(key);
    if parts.len() >= 3 && parts[0] == "game"@ && parts[2] == "code"@ {
        Some(parts[1])
    } else {
        None
    }
}

/// The id of the game whose code is kept under `key`, if `key` is the key of
/// a game's code.
pub fn extract_game_id_from_key(key: &str) -> (r: Option<String>)
    ensures
        match r {
            Some(id) => game_id_of_code_key(key@) == Some(id@),
            None => game_id_of_code_key(key@) is None,
        },
{
    let mut parts = split_key(key);
    proof {
        assert(forall|i: int| 0 <= i < parts@.len() ==> texts(parts@)[i] == parts@[i]@);
    }
    if parts.len() >= 3 && text_eq(parts[0].as_str(), "game") && text_eq(parts[2].as_str(), "code") {
        Some(parts.swap_remove(1))
    } else {
        None
    }
}

// ---------------------------------------------------------------------------
// A key taken apart gives back what it was made of
// ---------------------------------------------------------------------------
/// Whether a segment can be found again in a key: no separator begins in
/// it, and unless it is the last segment it does not end in a colon, which
/// would run into the separator that follows.
pub open spec fn is_plain(segment: Seq<char>, is_last: bool) -> bool {
    &&& forall|j: int| !separator_at(segment, j)
    &&& !is_last ==> (segment.len() == 0 || segment.last() != ':')
}

/// Whether every segment of a key can be found again.
pub open spec fn all_plain(segments: Seq<Seq<char>>) -> bool {
    forall|i: int|
        0 <= i < segments.len() ==> is_plain(#[trigger] segments[i], i == segments.len() - 1)
}

/// A key of several segments is its first segment, a separator, and the key
/// of the others.
pub proof fn lemma_key_from_front(segments: Seq<Seq<char>>)
    requires
        segments.len() >= 2,
    ensures
        key_of(segments) == segments[0] + separator() + key_of(segments.drop_first()),
    decreases segments.len(),
{
    let front = segments.drop_last();
    let rest = segments.drop_first();
    if segments.len() == 2 {
        assert(front =~= seq![segments[0]]);
        assert(rest =~= seq![segments[1]]);
        assert(key_of(front) == segments[0]);
        assert(key_of(rest) == segments[1]);
    } else {
        lemma_key_from_front(front);
        assert(front.drop_first() =~= rest.drop_last());
        assert(rest.last() == segments.last());
        assert(front[0] == segments[0]);
        assert(key_of(rest) == key_of(rest.drop_last()) + separator() + rest.last());
        assert(key_of(segments) =~= segments[0] + separator() + key_of(rest));
    }
}

/// Taking apart the key of plain segments gives the segments back.
pub proof fn lemma_split_of_key(segments: Seq<Seq<char>>)
    requires
        segments.len() >= 1,
        all_plain(segments),
    ensures
        split_text(key_of(segments)) == segments,
    decreases segments.len(),
{
    reveal_strlit("::");
    if segments.len() == 1 {
        let only = segments[0];
        assert(key_of(segments) == only);
        assert(is_plain(only, true));
        lemma_first_separator(only);
        assert(segments =~= seq![only]);
    } else {
        let first = segments[0];
        let rest = segments.drop_first();
        lemma_key_from_front(segments);
        let key = key_of(segments);
        let at = first.len() as int;
        assert(key == first + separator() + key_of(rest));
        assert(is_plain(first, false));
        assert(separator().len() == 2 && separator()[0] == ':' && separator()[1] == ':');
        assert(key[at] == ':' && key[at + 1] == ':');
        assert forall|j: int| 0 <= j < at implies !separator_at(key, j) by {
            if j + 1 < at {
                assert(!separator_at(first, j));
                assert(key[j] == first[j] && key[j + 1] == first[j + 1]);
            } else {
                assert(key[j] == first.last());
            }
        }
        lemma_first_separator_is(key, at);
        assert(key.take(at) =~= first);
        assert(key.skip(at + 2) =~= key_of(rest));
        assert forall|i: int| 0 <= i < rest.len() implies is_plain(
            #[trigger] rest[i],
            i == rest.len() - 1,
        ) by {
            assert(rest[i] == segments[i + 1]);
        }
        lemma_split_of_key(rest);
        assert(seq![first] + rest =~= segments);
    }
}

/// Keys partition what is kept: two lists of plain segments that make the
/// same key are the same list.
pub proof fn lemma_keys_differ(a: Seq<Seq<char>>, b: Seq<Seq<char>>)
    requires
        a.len() >= 1,
        b.len() >= 1,
        all_plain(a),
        all_plain(b),
        key_of(a) == key_of(b),
    ensures
        a == b,
{
    lemma_split_of_key(a);
    lemma_split_of_key(b);
}

// ---------------------------------------------------------------------------
// What a finished key is made of
// ---------------------------------------------------------------------------
/// The builder after the values `values` have gone into a fresh builder for
/// `schema`, one after the other; `None` where one of them was refused.
pub open spec fn built(schema: SchemaView, values: Seq<Seq<char>>) -> Option<BuilderView>
    decreases values.len(),
{
    if values.len() == 0 {
        Some(fresh_builder(schema))
    } else {
        match built(schema, values.drop_last()) {
            Some(b) => b.after_field(values.last()),
            None => None,
        }
    }
}

/// One value more goes into the builder that the values before it have led
/// to.
pub proof fn lemma_built_of(schema: SchemaView, values: Seq<Seq<char>>, value: Seq<char>)
    ensures
        built(schema, Seq::<Seq<char>>::empty()) == Some(fresh_builder(schema)),
        built(schema, values.push(value)) == match built(schema, values) {
            Some(b) => b.after_field(value),
            None => None,
        },
{
    assert(values.push(value).drop_last() =~= values);
    assert(values.push(value).last() == value);
}

/// The caller's values between the words of the base pattern: every fixed
/// segment gives its first word, every field takes the next value, and the
/// values that are left over follow.
pub open spec fn interleaved(base: Seq<SegmentView>, values: Seq<Seq<char>>) -> Seq<Seq<char>>
    decreases base.len(),
{
    if base.len() == 0 {
        values
    } else {
        match base[0] {
            SegmentView::Fixed(allowed) => seq![allowed[0]] + interleaved(base.drop_first(), values),
            SegmentView::Field(_) => if values.len() == 0 {
                Seq::empty()
            } else {
                seq![values[0]] + interleaved(base.drop_first(), values.drop_first())
            },
        }
    }
}

/// What is still to come of the segments when the builder stands at `b`
/// and the caller's values `coming` are still to go in.
pub open spec fn to_come(b: BuilderView, coming: Seq<Seq<char>>) -> Seq<Seq<char>> {
    interleaved(b.schema.base_pattern.skip(b.current_segment as int), coming)
}

proof fn lemma_filled(b: BuilderView, coming: Seq<Seq<char>>)
    requires
        b.wf(),
    ensures
        b.filled().wf(),
        b.filled().schema == b.schema,
        !b.filled().at_fixed(),
        b.filled().values + to_come(b.filled(), coming) == b.values + to_come(b, coming),
        b.in_extensions ==> b.filled() == b,
    decreases b.schema.base_pattern.len() - b.current_segment,
{
    if b.at_fixed() {
        let base = b.schema.base_pattern;
        let at = b.current_segment as int;
        let word = base[at]->Fixed_0[0];
        let next = b.with_base_value(word);
        lemma_filled(next, coming);
        assert(base.skip(at)[0] == base[at]);
        assert(base.skip(at).drop_first() =~= base.skip(at + 1));
        assert(b.values + (seq![word] + to_come(next, coming)) =~= next.values + to_come(
            next,
            coming,
        ));
    }
}

/// The builder that some values have led to is well formed, and its
/// segments, with what is still to come, are the interleaving of the base
/// pattern with all the caller's values.
pub proof fn lemma_built(schema: SchemaView, values: Seq<Seq<char>>, coming: Seq<Seq<char>>)
    requires
        schema.wf(),
        built(schema, values) is Some,
    ensures
        built(schema, values).unwrap().wf(),
        built(schema, values).unwrap().schema == schema,
        built(schema, values).unwrap().values + to_come(built(schema, values).unwrap(), coming)
            == interleaved(schema.base_pattern, values + coming),
    decreases values.len(),
{
    let base = schema.base_pattern;
    if values.len() == 0 {
        let b = fresh_builder(schema);
        assert(base.skip(0) =~= base);
        assert(values + coming =~= coming);
        assert(b.values + to_come(b, coming) =~= to_come(b, coming));
    } else {
        let earlier = values.drop_last();
        let value = values.last();
        let after = seq![value] + coming;
        lemma_built(schema, earlier, after);
        assert(earlier + after =~= values + coming);
        let b = built(schema, earlier).unwrap();
        lemma_filled(b, after);
        let f = b.filled();
        let next = b.after_field(value).unwrap();
        let at = f.current_segment as int;
        if f.at_field() {
            assert(base.skip(at)[0] == base[at]);
            assert(base.skip(at).drop_first() =~= base.skip(at + 1));
            assert(after.drop_first() =~= coming);
            assert(f.values + (seq![value] + to_come(next, coming)) =~= next.values + to_come(
                next,
                coming,
            ));
        } else {
            assert(at == base.len());
            assert(base.skip(at) =~= Seq::empty());
            assert(to_come(f, after) == after);
            assert(to_come(next, coming) == coming);
            assert(f.values + after =~= next.values + coming);
            lemma_pruned_in_range(f, value);
        }
    }
}

proof fn lemma_pruned_in_range(f: BuilderView, value: Seq<char>)
    requires
        f.wf(),
    ensures
        forall|i: int|
            0 <= i < f.pruned(value).len() ==> 0 <= #[trigger] f.pruned(value)[i]
                < f.schema.allowed_extensions.len()
                && f.schema.allowed_extensions[f.pruned(value)[i]].len() > f.extension_segment,
{
    let test = crate::cache::key_builder::matcher(f.schema, f.extension_segment, value);
    let kept = f.candidates.filter(test);
    f.candidates.filter_lemma(test);
    assert forall|i: int| 0 <= i < kept.len() implies 0 <= #[trigger] kept[i]
        < f.schema.allowed_extensions.len() && f.schema.allowed_extensions[kept[i]].len()
        > f.extension_segment by {
        assert(test(kept[i]));
    }
}

/// A finished key is made of the caller's values between the words of the
/// base pattern, and taking the key apart gives exactly these segments back,
/// as long as there is a segment at all and the segments are plain.
pub proof fn lemma_key_round_trip(schema: SchemaView, values: Seq<Seq<char>>)
    requires
        schema.wf(),
        built(schema, values) is Some,
        built(schema, values).unwrap().finished() is Some,
    ensures
        built(schema, values).unwrap().finished().unwrap() == interleaved(
            schema.base_pattern,
            values,
        ),
        all_plain(interleaved(schema.base_pattern, values)) && interleaved(
            schema.base_pattern,
            values,
        ).len() >= 1 ==> split_text(key_of(built(schema, values).unwrap().finished().unwrap()))
            == interleaved(schema.base_pattern, values),
{
    let none = Seq::<Seq<char>>::empty();
    lemma_built(schema, values, none);
    let b = built(schema, values).unwrap();
    lemma_filled(b, none);
    let f = b.filled();
    let base = schema.base_pattern;
    assert(values + none =~= values);
    assert(f.current_segment == base.len());
    assert(base.skip(f.current_segment as int) =~= Seq::empty());
    assert(f.values + to_come(f, none) =~= f.values);
    let segments = f.values;
    if all_plain(segments) && segments.len() >= 1 {
        lemma_split_of_key(segments);
    }
}

// ---------------------------------------------------------------------------
// A key in one go
// ---------------------------------------------------------------------------
/// The words with which the first of `values` that has no place is refused.
pub open spec fn value_refusal(schema: SchemaView, values: Seq<Seq<char>>) -> Seq<char>
    decreases values.len(),
{
    if values.len() == 0 {
        Seq::empty()
    } else {
        match built(schema, values.drop_last()) {
            Some(b) => field_refusal(b, values.last()),
            None => value_refusal(schema, values.drop_last()),
        }
    }
}

/// What the key of the schema `schema_name` made of `values` is: the key, or
/// the words with which it is refused. It is refused where no such schema is
/// registered, where a value has no place, and where the key is not complete
/// after the last value.
pub open spec fn key_made(schema_name: Seq<char>, values: Seq<Seq<char>>) -> Result<
    Seq<char>,
    Seq<char>,
> {
    if !standard_schemas().contains_key(schema_name) {
        Err("Unknown key schema: "@ + schema_name)
    } else {
        let schema = standard_schemas()[schema_name];
        match built(schema, values) {
            None => Err(value_refusal(schema, values)),
            Some(b) => match b.finished() {
                Some(segments) => Ok(key_of(segments)),
                None => Err(finish_refusal(b)),
            },
        }
    }
}

/// Once a value is refused, the values after it change nothing.
proof fn lemma_refused_stays(schema: SchemaView, values: Seq<Seq<char>>, n: int)
    requires
        0 <= n <= values.len(),
        built(schema, values.take(n)) is None,
    ensures
        built(schema, values) is None,
        value_refusal(schema, values) == value_refusal(schema, values.take(n)),
    decreases values.len() - n,
{
    if n == values.len() {
        assert(values.take(n) =~= values);
    } else {
        assert(values.take(n + 1).drop_last() =~= values.take(n));
        lemma_refused_stays(schema, values, n + 1);
    }
}

/// The key of the schema `schema_name` made of `values`, one after the
/// other.
pub fn build_key(schema_name: &str, values: &Vec<&str>) -> (r: Result<String, String>)
    ensures
        match key_made(schema_name@, words(values@)) {
            Ok(text) => r is Ok && r->Ok_0@ == text,
            Err(text) => r is Err && r->Err_0@ == text,
        },
{
    let ghost vals = words(values@);
    let mut builder = match key(schema_name) {
        Ok(builder) => builder,
        Err(text) => {
            return Err(text);
        },
    };
    let ghost schema = standard_schemas()[schema_name@];
    let mut i: usize = 0;
    proof {
        assert(vals.take(0) =~= Seq::<Seq<char>>::empty());
    }
    while i < values.len()
        invariant
            i <= values@.len(),
            vals == words(values@),
            standard_schemas().contains_key(schema_name@),
            schema == standard_schemas()[schema_name@],
            builder.wf(),
            built(schema, vals.take(i as int)) == Some(builder@),
        decreases values@.len() - i,
    {
        proof {
            assert(vals.take(i + 1).drop_last() =~= vals.take(i as int));
            assert(vals.take(i + 1).last() == values@[i as int]@);
        }
        builder = match builder.field(values[i]) {
            Ok(builder) => builder,
            Err(text) => {
                proof {
                    lemma_refused_stays(schema, vals, i + 1);
                }
                return Err(text);
            },
        };
        i += 1;
    }
    proof {
        assert(vals.take(values@.len() as int) =~= vals);
    }
    builder.get_key()
}

} // verus!
