use crate::text::text_eq;
use vstd::prelude::*;
use vstd::string::*;

verus! {

/// A value as it travels over a socket or a channel, taken apart into a
/// tree: nothing, a whole number, a text, a list of values, or an object,
/// which is a list of named values. Whatever else may travel there (a truth
/// value, a number with a fraction) is of no use to anyone here and is all
/// the same.
#[derive(Debug, PartialEq)]
pub enum Json {
    Null,
    Number(i128),
    Text(String),
    List(Vec<Json>),
    Object(Vec<(String, Json)>),
    Other,
}

pub ghost enum JsonView {
    Null,
    Number(i128),
    Text(Seq<char>),
    List(Seq<JsonView>),
    Object(Seq<(Seq<char>, JsonView)>),
    Other,
}

impl View for Json {
    type V = JsonView;

    open spec fn view(&self) -> JsonView
        decreases self,
    {
        match self {
            Json::Null => JsonView::Null,
            Json::Other => JsonView::Other,
            Json::Number(n) => JsonView::Number(*n),
            Json::Text(t) => JsonView::Text(t@),
            Json::List(items) => JsonView::List(
                Seq::new(
                    items@.len(),
                    |i: int|
                        if 0 <= i < items@.len() {
                            items@[i].view()
                        } else {
                            JsonView::Null
                        },
                ),
            ),
            Json::Object(fields) => JsonView::Object(
                Seq::new(
                    fields@.len(),
                    |i: int|
                        if 0 <= i < fields@.len() {
                            (fields@[i].0@, fields@[i].1.view())
                        } else {
                            (Seq::empty(), JsonView::Null)
                        },
                ),
            ),
        }
    }
}

impl DeepView for Json {
    type V = JsonView;

    open spec fn deep_view(&self) -> JsonView {
        self@
    }
}

/// The named values of a list of fields as the contracts see them.
pub open spec fn fields_view(fields: Seq<(String, Json)>) -> Seq<(Seq<char>, JsonView)> {
    Seq::new(fields.len(), |i: int| (fields[i].0@, fields[i].1@))
}

/// The values of a list as the contracts see them.
pub open spec fn items_view(items: Seq<Json>) -> Seq<JsonView> {
    Seq::new(items.len(), |i: int| items[i]@)
}

/// The view of an object is the view of its fields, and the view of a list
/// the view of its items.
pub proof fn lemma_views(j: &Json)
    ensures
        j matches Json::Object(fields) ==> j@ == JsonView::Object(fields_view(fields@)),
        j matches Json::List(items) ==> j@ == JsonView::List(items_view(items@)),
{
    reveal_with_fuel(<Json as View>::view, 2);
    match j {
        Json::Object(fields) => {
            assert(j@ is Object);
            assert(j@->Object_0.len() == fields@.len());
            assert(j@->Object_0 =~= fields_view(fields@));
        },
        Json::List(items) => {
            assert(j@ is List);
            assert(j@->List_0 =~= items_view(items@));
        },
        _ => {},
    }
}

/// Whether `i` is the first place of `fields` with the name `name`.
pub open spec fn is_first_named(fields: Seq<(Seq<char>, JsonView)>, name: Seq<char>, i: int) -> bool {
    &&& 0 <= i < fields.len()
    &&& fields[i].0 == name
    &&& forall|j: int| 0 <= j < i ==> (#[trigger] fields[j]).0 != name
}

/// Whether `fields` has a value with the name `name`.
pub open spec fn has_field(fields: Seq<(Seq<char>, JsonView)>, name: Seq<char>) -> bool {
    exists|i: int| 0 <= i < fields.len() && (#[trigger] fields[i]).0 == name
}

/// The first value of `fields` with the name `name`, if there is one.
pub open spec fn field(fields: Seq<(Seq<char>, JsonView)>, name: Seq<char>) -> Option<JsonView> {
    if has_field(fields, name) {
        Some(fields[choose|i: int| is_first_named(fields, name, i)].1)
    } else {
        None
    }
}

proof fn lemma_least_named(fields: Seq<(Seq<char>, JsonView)>, name: Seq<char>, k: int)
    requires
        0 <= k < fields.len(),
        fields[k].0 == name,
    ensures
        exists|i: int| is_first_named(fields, name, i),
    decreases k,
{
    if exists|j: int| 0 <= j < k && (#[trigger] fields[j]).0 == name {
        let j = choose|j: int| 0 <= j < k && (#[trigger] fields[j]).0 == name;
        lemma_least_named(fields, name, j);
    } else {
        assert(is_first_named(fields, name, k));
    }
}

/// The field with a name is the value at the first place with that name.
pub proof fn lemma_field_is(fields: Seq<(Seq<char>, JsonView)>, name: Seq<char>, i: int)
    requires
        is_first_named(fields, name, i),
    ensures
        field(fields, name) == Some(fields[i].1),
{
    assert(fields[i].0 == name);
    lemma_least_named(fields, name, i);
    let c = choose|c: int| is_first_named(fields, name, c);
    if c < i {
        assert(fields[c].0 != name);
    } else if i < c {
        assert(fields[i].0 != name);
    }
}

/// The text with the name `name`, if the first value with that name is one.
pub open spec fn text_field(fields: Seq<(Seq<char>, JsonView)>, name: Seq<char>) -> Option<Seq<char>> {
    match field(fields, name) {
        Some(JsonView::Text(t)) => Some(t),
        _ => None,
    }
}

/// The number that 64 bits can hold with the name `name`, if the first
/// value with that name is one.
pub open spec fn number_field(fields: Seq<(Seq<char>, JsonView)>, name: Seq<char>) -> Option<u64> {
    match field(fields, name) {
        Some(JsonView::Number(n)) => if 0 <= n <= u64::MAX {
            Some(n as u64)
        } else {
            None
        },
        _ => None,
    }
}

/// The number of at most 255 with the name `name`, if the first value with
/// that name is one.
pub open spec fn small_field(fields: Seq<(Seq<char>, JsonView)>, name: Seq<char>) -> Option<u8> {
    match field(fields, name) {
        Some(JsonView::Number(n)) => if 0 <= n <= 255 {
            Some(n as u8)
        } else {
            None
        },
        _ => None,
    }
}

/// The fields of the object with the name `name`, if the first value with
/// that name is one.
pub open spec fn object_field(fields: Seq<(Seq<char>, JsonView)>, name: Seq<char>) -> Option<
    Seq<(Seq<char>, JsonView)>,
> {
    match field(fields, name) {
        Some(JsonView::Object(inner)) => Some(inner),
        _ => None,
    }
}

/// The first value of `fields` with the name `name`, if there is one.
pub fn get_field<'a>(fields: &'a Vec<(String, Json)>, name: &str) -> (r: Option<&'a Json>)
    ensures
        match r {
            Some(value) => field(fields_view(fields@), name@) == Some(value@),
            None => field(fields_view(fields@), name@) is None,
        },
{
    let ghost view = fields_view(fields@);
    let mut i: usize = 0;
    while i < fields.len()
        invariant
            i <= fields@.len(),
            view == fields_view(fields@),
            forall|j: int| 0 <= j < i ==> (#[trigger] view[j]).0 != name@,
        decreases fields@.len() - i,
    {
        if text_eq(fields[i].0.as_str(), name) {
            proof {
                assert(is_first_named(view, name@, i as int));
                lemma_field_is(view, name@, i as int);
            }
            return Some(&fields[i].1);
        }
        i += 1;
    }
    proof {
        if has_field(view, name@) {
            let k = choose|k: int| 0 <= k < view.len() && (#[trigger] view[k]).0 == name@;
            assert(view[k].0 != name@);
        }
    }
    None
}

/// The text with the name `name`, if the first value with that name is one.
pub fn get_text<'a>(fields: &'a Vec<(String, Json)>, name: &str) -> (r: Option<&'a String>)
    ensures
        match r {
            Some(text) => text_field(fields_view(fields@), name@) == Some(text@),
            None => text_field(fields_view(fields@), name@) is None,
        },
{
    match get_field(fields, name) {
        Some(Json::Text(text)) => Some(text),
        _ => None,
    }
}

/// The number that 64 bits can hold with the name `name`, if the first
/// value with that name is one.
pub fn get_number(fields: &Vec<(String, Json)>, name: &str) -> (r: Option<u64>)
    ensures
        r == number_field(fields_view(fields@), name@),
{
    match get_field(fields, name) {
        Some(Json::Number(n)) => if 0 <= *n && *n <= 18446744073709551615 {
            Some(*n as u64)
        } else {
            None
        },
        _ => None,
    }
}

/// The number of at most 255 with the name `name`, if the first value with
/// that name is one.
pub fn get_small(fields: &Vec<(String, Json)>, name: &str) -> (r: Option<u8>)
    ensures
        r == small_field(fields_view(fields@), name@),
{
    match get_field(fields, name) {
        Some(Json::Number(n)) => if 0 <= *n && *n <= 255 {
            Some(*n as u8)
        } else {
            None
        },
        _ => None,
    }
}

/// The fields of the object with the name `name`, if the first value with
/// that name is one.
pub fn get_object<'a>(fields: &'a Vec<(String, Json)>, name: &str) -> (r: Option<
    &'a Vec<(String, Json)>,
>)
    ensures
        match r {
            Some(inner) => object_field(fields_view(fields@), name@) == Some(fields_view(inner@)),
            None => object_field(fields_view(fields@), name@) is None,
        },
{
    match get_field(fields, name) {
        Some(value) => {
            proof {
                lemma_views(value);
            }
            match value {
                Json::Object(inner) => Some(inner),
                _ => None,
            }
        },
        None => None,
    }
}

/// A text as a value.
pub fn text_value(t: &str) -> (j: Json)
    ensures
        j@ == JsonView::Text(t@),
{
    Json::Text(String::from_str(t))
}

/// An object of the given fields.
pub fn object_value(fields: Vec<(String, Json)>) -> (j: Json)
    ensures
        j@ == JsonView::Object(fields_view(fields@)),
{
    let j = Json::Object(fields);
    proof {
        lemma_views(&j);
    }
    j
}

/// A list of the given items.
pub fn list_value(items: Vec<Json>) -> (j: Json)
    ensures
        j@ == JsonView::List(items_view(items@)),
{
    let j = Json::List(items);
    proof {
        lemma_views(&j);
    }
    j
}

/// Puts a named value at the end of a list of fields.
pub fn put(fields: &mut Vec<(String, Json)>, name: &str, value: Json)
    ensures
        fields_view(final(fields)@) == fields_view(old(fields)@).push((name@, value@)),
{
    fields.push((String::from_str(name), value));
    assert(fields_view(fields@) =~= fields_view(old(fields)@).push((name@, value@)));
}

} // verus!
