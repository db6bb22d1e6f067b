//! JSON values, and the text they travel as.
//!
//! `serde_json` reads and writes the text. In between a value is a `Json`, whose parts the rest of
//! the library can look at.

use vstd::prelude::*;
use crate::text::same_text;

verus! {

/// A number of `serde_json`, carried as it is.
#[verifier::external_type_specification]
#[verifier::external_body]
pub struct ExNumber(serde_json::Number);

/// A value of `serde_json`, on its way between text and `Json`.
#[verifier::external_type_specification]
#[verifier::external_body]
pub struct ExValue(serde_json::Value);

/// Why `serde_json` could not read a text.
#[verifier::external_type_specification]
#[verifier::external_body]
pub struct ExError(serde_json::Error);

/// A JSON value.
///
/// A number that was read from text is a `Number`. `Uint` is a number that the library itself
/// writes.
#[derive(Debug)]
pub enum Json {
    Null,
    Bool(bool),
    Uint(u64),
    Number(serde_json::Number),
    Str(String),
    Array(Vec<Json>),
    Object(Vec<(String, Json)>),
}

/// What a JSON value is, with an object as its fields in order.
pub enum JsonView {
    Null,
    Bool(bool),
    Uint(u64),
    Number(serde_json::Number),
    Str(Seq<char>),
    Array(Seq<JsonView>),
    Object(Seq<(Seq<char>, JsonView)>),
}

/// What a `Json` stands for.
pub open spec fn json_view(j: Json) -> JsonView
    decreases j,
{
    match j {
        Json::Null => JsonView::Null,
        Json::Bool(b) => JsonView::Bool(b),
        Json::Uint(n) => JsonView::Uint(n),
        Json::Number(n) => JsonView::Number(n),
        Json::Str(s) => JsonView::Str(s@),
        Json::Array(v) => JsonView::Array(
            Seq::new(
                v@.len(),
                |i: int|
                    if 0 <= i < v@.len() {
                        json_view(v@[i])
                    } else {
                        arbitrary()
                    },
            ),
        ),
        Json::Object(v) => JsonView::Object(
            Seq::new(
                v@.len(),
                |i: int|
                    if 0 <= i < v@.len() {
                        (v@[i].0@, json_view(v@[i].1))
                    } else {
                        arbitrary()
                    },
            ),
        ),
    }
}

impl View for Json {
    type V = JsonView;

    open spec fn view(&self) -> JsonView {
        json_view(*self)
    }
}

/// What an optional JSON value stands for.
pub open spec fn opt_json_view(json: Option<Json>) -> Option<JsonView> {
    match json {
        Some(json) => Some(json@),
        None => None,
    }
}

/// What the items of an array stand for.
pub open spec fn items_view(items: Seq<Json>) -> Seq<JsonView> {
    items.map_values(|j: Json| j@)
}

/// What the fields of an object stand for.
pub open spec fn fields_view(fields: Seq<(String, Json)>) -> Seq<(Seq<char>, JsonView)> {
    fields.map_values(|f: (String, Json)| (f.0@, f.1@))
}

impl JsonView {
    /// The text of a string; nothing else has one.
    pub open spec fn as_str(self) -> Option<Seq<char>> {
        match self {
            JsonView::Str(s) => Some(s),
            _ => None,
        }
    }

    /// The items of an array; nothing else has any.
    pub open spec fn as_array(self) -> Option<Seq<JsonView>> {
        match self {
            JsonView::Array(items) => Some(items),
            _ => None,
        }
    }

    /// The fields of an object; nothing else has any.
    pub open spec fn as_object(self) -> Option<Seq<(Seq<char>, JsonView)>> {
        match self {
            JsonView::Object(fields) => Some(fields),
            _ => None,
        }
    }
}

/// The value of the field `key`: of several, the last one.
pub open spec fn lookup(fields: Seq<(Seq<char>, JsonView)>, key: Seq<char>) -> Option<JsonView>
    decreases fields.len(),
{
    if fields.len() == 0 {
        None
    } else if fields.last().0 == key {
        Some(fields.last().1)
    } else {
        lookup(fields.drop_last(), key)
    }
}

/// The text of the field `key`, where it is a string.
pub open spec fn lookup_str(fields: Seq<(Seq<char>, JsonView)>, key: Seq<char>) -> Option<
    Seq<char>,
> {
    match lookup(fields, key) {
        Some(v) => v.as_str(),
        None => None,
    }
}

/// The value that `serde_json` reads from a text, where it can read one.
pub uninterp spec fn value_of_text(text: Seq<char>) -> Option<serde_json::Value>;

/// What a value of `serde_json` holds.
pub uninterp spec fn json_of_value(value: serde_json::Value) -> JsonView;

/// The value of `serde_json` that holds a JSON value.
pub uninterp spec fn value_of_json(json: JsonView) -> serde_json::Value;

/// The text that `serde_json` writes for one of its values.
pub uninterp spec fn text_of_value(value: serde_json::Value) -> Seq<char>;

/// The JSON value that a text stands for, where it stands for one.
pub open spec fn json_of_text(text: Seq<char>) -> Option<JsonView> {
    match value_of_text(text) {
        Some(value) => Some(json_of_value(value)),
        None => None,
    }
}

/// The text of a JSON value.
pub open spec fn text_of_json(json: JsonView) -> Seq<char> {
    text_of_value(value_of_json(json))
}

/// `serde_json::from_str` into a `Value`: reads a whole text as one JSON value. The outcome is a
/// function of the text; which texts it takes is left to `serde_json`.
#[verifier::external_body]
fn value_from_text(text: &str) -> (r: Result<serde_json::Value, serde_json::Error>)
    ensures
        match r {
            Ok(value) => value_of_text(text@) == Some(value),
            Err(_) => value_of_text(text@) is None,
        },
{
    serde_json::from_str(text)
}

/// Takes a `serde_json::Value` apart, variant by variant, down to its leaves. The outcome is a
/// function of the value.
#[verifier::external_body]
fn json_from_value(value: serde_json::Value) -> (r: Json)
    ensures
        r@ == json_of_value(value),
{
    match value {
        serde_json::Value::Null => Json::Null,
        serde_json::Value::Bool(b) => Json::Bool(b),
        serde_json::Value::Number(n) => Json::Number(n),
        serde_json::Value::String(s) => Json::Str(s),
        serde_json::Value::Array(v) => Json::Array(v.into_iter().map(json_from_value).collect()),
        serde_json::Value::Object(m) => Json::Object(
            m.into_iter().map(|e| (e.0, json_from_value(e.1))).collect(),
        ),
    }
}

/// Puts a `serde_json::Value` together, variant by variant, from its leaves. The outcome is a
/// function of what the `Json` stands for: the fields enter a `serde_json::Map` in order.
#[verifier::external_body]
fn value_from_json(json: &Json) -> (r: serde_json::Value)
    ensures
        r == value_of_json(json@),
{
    match json {
        Json::Null => serde_json::Value::Null,
        Json::Bool(b) => serde_json::Value::Bool(*b),
        Json::Uint(n) => serde_json::Value::from(*n),
        Json::Number(n) => serde_json::Value::Number(n.clone()),
        Json::Str(s) => serde_json::Value::String(s.clone()),
        Json::Array(v) => serde_json::Value::Array(v.iter().map(value_from_json).collect()),
        Json::Object(v) => serde_json::Value::Object(
            v.iter().map(|e| (e.0.clone(), value_from_json(&e.1))).collect(),
        ),
    }
}

/// `serde_json::Value::to_string`: the compact text of a value, a function of the value.
#[verifier::external_body]
fn text_from_value(value: &serde_json::Value) -> (r: String)
    ensures
        r@ == text_of_value(*value),
{
    value.to_string()
}

/// Reads a text as JSON.
pub fn parse(text: &str) -> (r: Option<Json>)
    ensures
        match r {
            Some(json) => json_of_text(text@) == Some(json@),
            None => json_of_text(text@) is None,
        },
{
    match value_from_text(text) {
        Ok(value) => Some(json_from_value(value)),
        Err(_) => None,
    }
}

impl Json {
    /// Writes JSON as text.
    pub fn to_text(&self) -> (r: String)
        ensures
            r@ == text_of_json(self@),
    {
        let value: serde_json::Value = value_from_json(self);
        text_from_value(&value)
    }

    /// A string.
    pub fn text(s: &str) -> (r: Json)
        ensures
            r@ == JsonView::Str(s@),
    {
        Json::Str(s.to_owned())
    }

    /// An array of these items.
    pub fn array(items: Vec<Json>) -> (r: Json)
        ensures
            r@ == JsonView::Array(items_view(items@)),
    {
        proof {
            lemma_array_view(items);
        }
        Json::Array(items)
    }

    /// An object with these fields.
    pub fn object(fields: Vec<(String, Json)>) -> (r: Json)
        ensures
            r@ == JsonView::Object(fields_view(fields@)),
    {
        proof {
            lemma_object_view(fields);
        }
        Json::Object(fields)
    }

    /// The text of a string.
    pub fn as_str(&self) -> (r: Option<&str>)
        ensures
            match r {
                Some(s) => self@.as_str() == Some(s@),
                None => self@.as_str() is None,
            },
    {
        match self {
            Json::Str(s) => Some(s.as_str()),
            _ => None,
        }
    }

    /// The items of an array, taken out of it.
    pub fn into_array(self) -> (r: Option<Vec<Json>>)
        ensures
            match r {
                Some(items) => self@.as_array() == Some(items_view(items@)),
                None => self@.as_array() is None,
            },
    {
        match self {
            Json::Array(items) => {
                proof {
                    lemma_array_view(items);
                }
                Some(items)
            },
            _ => None,
        }
    }

    /// The fields of an object, taken out of it.
    pub fn into_object(self) -> (r: Option<Vec<(String, Json)>>)
        ensures
            match r {
                Some(fields) => self@.as_object() == Some(fields_view(fields@)),
                None => self@.as_object() is None,
            },
    {
        match self {
            Json::Object(fields) => {
                proof {
                    lemma_object_view(fields);
                }
                Some(fields)
            },
            _ => None,
        }
    }
}

/// The value of the field `key`: of several, the last one.
pub fn find<'a>(fields: &'a Vec<(String, Json)>, key: &str) -> (r: Option<&'a Json>)
    ensures
        match r {
            Some(json) => lookup(fields_view(fields@), key@) == Some(json@),
            None => lookup(fields_view(fields@), key@) is None,
        },
{
    let ghost all = fields_view(fields@);
    let mut n: usize = fields.len();
    proof {
        assert(all.take(n as int) =~= all);
    }
    while n > 0
        invariant
            n <= fields@.len(),
            all == fields_view(fields@),
            lookup(all, key@) == lookup(all.take(n as int), key@),
        decreases n,
    {
        n -= 1;
        let ghost head = all.take(n + 1);
        assert(head.drop_last() =~= all.take(n as int));
        assert(head.last() == (fields@[n as int].0@, fields@[n as int].1@));
        if same_text(fields[n].0.as_str(), key) {
            return Some(&fields[n].1);
        }
    }
    None
}

/// The text of the field `key`, where it is a string.
pub fn find_str(fields: &Vec<(String, Json)>, key: &str) -> (r: Option<String>)
    ensures
        match r {
            Some(s) => lookup_str(fields_view(fields@), key@) == Some(s@),
            None => lookup_str(fields_view(fields@), key@) is None,
        },
{
    match find(fields, key) {
        Some(json) => match json.as_str() {
            Some(s) => Some(s.to_owned()),
            None => None,
        },
        None => None,
    }
}

/// The value of the field `key`, taken out of the fields: of several, the last one.
pub fn take(fields: Vec<(String, Json)>, key: &str) -> (r: Option<Json>)
    ensures
        match r {
            Some(json) => lookup(fields_view(fields@), key@) == Some(json@),
            None => lookup(fields_view(fields@), key@) is None,
        },
{
    let ghost all = fields_view(fields@);
    let mut rest: Vec<(String, Json)> = fields;
    while rest.len() > 0
        invariant
            all == fields_view(fields@),
            lookup(all, key@) == lookup(fields_view(rest@), key@),
        decreases rest@.len(),
    {
        let ghost before = rest@;
        match rest.pop() {
            Some(field) => {
                assert(fields_view(before).drop_last() =~= fields_view(rest@));
                assert(fields_view(before).last() == (field.0@, field.1@));
                if same_text(field.0.as_str(), key) {
                    return Some(field.1);
                }
            },
            None => {},
        }
    }
    None
}

/// An array stands for what its items stand for.
pub proof fn lemma_array_view(items: Vec<Json>)
    ensures
        Json::Array(items)@ == JsonView::Array(items_view(items@)),
{
    assert(Json::Array(items)@->Array_0 =~= items_view(items@));
}

/// An object stands for what its fields stand for.
pub proof fn lemma_object_view(fields: Vec<(String, Json)>)
    ensures
        Json::Object(fields)@ == JsonView::Object(fields_view(fields@)),
{
    assert(Json::Object(fields)@->Object_0 =~= fields_view(fields@));
}

/// What is found under a key is the value of the last field with that key. Nothing is found only
/// where no field has it.
pub proof fn law_lookup(fields: Seq<(Seq<char>, JsonView)>, key: Seq<char>)
    ensures
        lookup(fields, key) is None ==> forall|i: int|
            0 <= i < fields.len() ==> (#[trigger] fields[i]).0 != key,
        lookup(fields, key) is Some ==> exists|i: int|
            0 <= i < fields.len() && #[trigger] fields[i] == (key, lookup(fields, key)->0) && forall|
                j: int,
            |
                i < j < fields.len() ==> (#[trigger] fields[j]).0 != key,
        forall|s: Seq<char>|
            lookup_str(fields, key) == Some(s) <==> lookup(fields, key) == Some(JsonView::Str(s)),
    decreases fields.len(),
{
    if fields.len() > 0 {
        let rest = fields.drop_last();
        law_lookup(rest, key);
        if fields.last().0 == key {
            assert(fields[fields.len() - 1] == (key, lookup(fields, key)->0));
        } else {
            if lookup(fields, key) is Some {
                let i = choose|i: int|
                    0 <= i < rest.len() && #[trigger] rest[i] == (key, lookup(rest, key)->0)
                        && forall|j: int| i < j < rest.len() ==> (#[trigger] rest[j]).0 != key;
                assert(fields[i] == (key, lookup(fields, key)->0));
                assert forall|j: int| i < j < fields.len() implies (#[trigger] fields[j]).0
                    != key by {
                    if j < rest.len() {
                        assert(rest[j] == fields[j]);
                    }
                }
            } else {
                assert forall|i: int| 0 <= i < fields.len() implies (#[trigger] fields[i]).0
                    != key by {
                    if i < rest.len() {
                        assert(rest[i] == fields[i]);
                    }
                }
            }
        }
    }
}

/// A text stands for what is in the value that is read from it, and JSON is written as the text of
/// the value that holds it.
pub proof fn law_text(text: Seq<char>, json: JsonView)
    ensures
        json_of_text(text) is Some <==> value_of_text(text) is Some,
        value_of_text(text) is Some ==> json_of_text(text) == Some(
            json_of_value(value_of_text(text)->0),
        ),
        text_of_json(json) == text_of_value(value_of_json(json)),
{
}

/// Only a string has a text, only an array has items, and only an object has fields: its own.
pub proof fn law_kinds(json: JsonView)
    ensures
        forall|s: Seq<char>| json.as_str() == Some(s) <==> json == JsonView::Str(s),
        forall|items: Seq<JsonView>|
            json.as_array() == Some(items) <==> json == JsonView::Array(items),
        forall|fields: Seq<(Seq<char>, JsonView)>|
            json.as_object() == Some(fields) <==> json == JsonView::Object(fields),
{
}

/// A field that no later one has the same key as is the one that is found.
pub proof fn lemma_lookup(fields: Seq<(Seq<char>, JsonView)>, key: Seq<char>, i: int)
    requires
        0 <= i < fields.len(),
        fields[i].0 == key,
        forall|j: int| i < j < fields.len() ==> (#[trigger] fields[j]).0 != key,
    ensures
        lookup(fields, key) == Some(fields[i].1),
    decreases fields.len(),
{
    if i < fields.len() - 1 {
        assert(fields[fields.len() - 1].0 != key);
        lemma_lookup(fields.drop_last(), key, i);
    }
}

} // verus!
