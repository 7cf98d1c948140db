//! JSON documents as trees of plain values.
//!
//! Text is parsed by `serde_json`; everything after the parse works on
//! [`Json`], whose model is [`JsonModel`].

use vstd::prelude::*;
use crate::keyed::{keys_distinct, lemma_index_of_key_is, value_at_key};
use crate::text::same_text;

verus! {

/// A JSON document. A number is carried as its decimal text; an object is
/// the list of its members, in order.
#[derive(Debug, PartialEq, Eq)]
pub enum Json {
    Null,
    Bool(bool),
    Number(String),
    Text(String),
    Array(Vec<Json>),
    Object(Vec<(String, Json)>),
}

/// A member of an object: its key and its value.
pub type Member = (Seq<char>, JsonModel);

/// The mathematical model of a [`Json`] tree.
pub ghost enum JsonModel {
    Null,
    Bool(bool),
    Number(Seq<char>),
    Text(Seq<char>),
    Array(Seq<JsonModel>),
    Object(Seq<Member>),
}

impl JsonModel {
    /// The value of the member `key`, if this is an object that has one.
    pub open spec fn get(self, key: Seq<char>) -> Option<JsonModel> {
        match self {
            JsonModel::Object(m) => value_at_key(m, key),
            _ => None,
        }
    }

    /// The text, if this is a string.
    pub open spec fn as_str(self) -> Option<Seq<char>> {
        match self {
            JsonModel::Text(s) => Some(s),
            _ => None,
        }
    }

    /// The truth value, if this is a boolean.
    pub open spec fn as_bool(self) -> Option<bool> {
        match self {
            JsonModel::Bool(b) => Some(b),
            _ => None,
        }
    }

    /// The elements, if this is an array.
    pub open spec fn as_array(self) -> Option<Seq<JsonModel>> {
        match self {
            JsonModel::Array(a) => Some(a),
            _ => None,
        }
    }

    /// The members, if this is an object.
    pub open spec fn as_object(self) -> Option<Seq<Member>> {
        match self {
            JsonModel::Object(m) => Some(m),
            _ => None,
        }
    }

    /// The text of the member `key`, if there is such a member and it is a
    /// string.
    pub open spec fn str_at(self, key: Seq<char>) -> Option<Seq<char>> {
        match self.get(key) {
            Some(v) => v.as_str(),
            None => None,
        }
    }

    /// The truth value of the member `key`, if there is such a member and
    /// it is a boolean.
    pub open spec fn bool_at(self, key: Seq<char>) -> Option<bool> {
        match self.get(key) {
            Some(v) => v.as_bool(),
            None => None,
        }
    }
}

/// The model of a tree.
pub open spec fn json_model(j: Json) -> JsonModel
    decreases j,
{
    match j {
        Json::Null => JsonModel::Null,
        Json::Bool(b) => JsonModel::Bool(b),
        Json::Number(n) => JsonModel::Number(n@),
        Json::Text(s) => JsonModel::Text(s@),
        Json::Array(items) => JsonModel::Array(
            Seq::new(
                items@.len(),
                |i: int|
                    if 0 <= i < items@.len() {
                        json_model(items@[i])
                    } else {
                        JsonModel::Null
                    },
            ),
        ),
        Json::Object(members) => JsonModel::Object(
            Seq::new(
                members@.len(),
                |i: int|
                    if 0 <= i < members@.len() {
                        (members@[i].0@, json_model(members@[i].1))
                    } else {
                        (Seq::empty(), JsonModel::Null)
                    },
            ),
        ),
    }
}

impl View for Json {
    type V = JsonModel;

    open spec fn view(&self) -> JsonModel {
        json_model(*self)
    }
}

impl DeepView for Json {
    type V = JsonModel;

    open spec fn deep_view(&self) -> JsonModel {
        self@
    }
}

/// The model of an array is the sequence of its elements' models.
pub proof fn lemma_array_view(items: Vec<Json>)
    ensures
        Json::Array(items)@ == JsonModel::Array(items.deep_view()),
{
    assert(Json::Array(items)@->Array_0 =~= items.deep_view());
}

/// The model of an object is the sequence of its members' models.
pub proof fn lemma_object_view(members: Vec<(String, Json)>)
    ensures
        Json::Object(members)@ == JsonModel::Object(members.deep_view()),
{
    assert(Json::Object(members)@->Object_0 =~= members.deep_view());
}

impl Json {
    /// Whether this is `null`.
    pub fn is_null(&self) -> (r: bool)
        ensures
            r == (self@ is Null),
    {
        match self {
            Json::Null => true,
            _ => false,
        }
    }

    /// The value of the member `key`, if this is an object that has one.
    pub fn get(&self, key: &str) -> (r: Option<&Json>)
        ensures
            r.deep_view() == self@.get(key@),
    {
        match self {
            Json::Object(members) => {
                proof {
                    lemma_object_view(*members);
                }
                let mut i: usize = 0;
                while i < members.len()
                    invariant
                        i <= members.len(),
                        self@ == JsonModel::Object(members.deep_view()),
                        forall|j: int| 0 <= j < i ==> members.deep_view()[j].0 != key@,
                    decreases members.len() - i,
                {
                    if same_text(members[i].0.as_str(), key) {
                        proof {
                            lemma_index_of_key_is(members.deep_view(), key@, i as int);
                        }
                        return Some(&members[i].1);
                    }
                    i += 1;
                }
                proof {
                    lemma_index_of_key_is(members.deep_view(), key@, i as int);
                }
                None
            },
            _ => None,
        }
    }

    /// The text, if this is a string.
    pub fn as_str(&self) -> (r: Option<&String>)
        ensures
            r.deep_view() == self@.as_str(),
    {
        match self {
            Json::Text(s) => Some(s),
            _ => None,
        }
    }

    /// The truth value, if this is a boolean.
    pub fn as_bool(&self) -> (r: Option<bool>)
        ensures
            r == self@.as_bool(),
    {
        match self {
            Json::Bool(b) => Some(*b),
            _ => None,
        }
    }

    /// The elements, if this is an array.
    pub fn as_array(&self) -> (r: Option<&Vec<Json>>)
        ensures
            r.deep_view() == self@.as_array(),
    {
        match self {
            Json::Array(items) => {
                proof {
                    lemma_array_view(*items);
                }
                Some(items)
            },
            _ => None,
        }
    }

    /// The members, if this is an object.
    pub fn as_object(&self) -> (r: Option<&Vec<(String, Json)>>)
        ensures
            r.deep_view() == self@.as_object(),
    {
        match self {
            Json::Object(members) => {
                proof {
                    lemma_object_view(*members);
                }
                Some(members)
            },
            _ => None,
        }
    }

    /// A copy of the text of the member `key`, if there is such a member
    /// and it is a string.
    pub fn str_at(&self, key: &str) -> (r: Option<String>)
        ensures
            r.deep_view() == self@.str_at(key@),
    {
        match self.get(key) {
            Some(v) => match v.as_str() {
                Some(s) => Some(s.clone()),
                None => None,
            },
            None => None,
        }
    }

    /// The truth value of the member `key`, if there is such a member and
    /// it is a boolean.
    pub fn bool_at(&self, key: &str) -> (r: Option<bool>)
        ensures
            r == self@.bool_at(key@),
    {
        match self.get(key) {
            Some(v) => v.as_bool(),
            None => None,
        }
    }

    /// A deep copy.
    pub fn duplicate(&self) -> (r: Json)
        ensures
            r@ == self@,
        decreases self,
    {
        match self {
            Json::Null => Json::Null,
            Json::Bool(b) => Json::Bool(*b),
            Json::Number(n) => Json::Number(n.clone()),
            Json::Text(s) => Json::Text(s.clone()),
            Json::Array(items) => {
                let mut out: Vec<Json> = Vec::new();
                let mut i: usize = 0;
                while i < items.len()
                    invariant
                        i <= items.len(),
                        out.len() == i,
                        forall|k: int| 0 <= k < items.len() ==> decreases_to!(*self => items[k]),
                        forall|j: int| 0 <= j < i ==> out@[j]@ == items@[j]@,
                    decreases items.len() - i,
                {
                    out.push(items[i].duplicate());
                    i += 1;
                }
                proof {
                    lemma_array_view(*items);
                    lemma_array_view(out);
                    assert(out.deep_view() =~= items.deep_view());
                }
                Json::Array(out)
            },
            Json::Object(members) => {
                let mut out: Vec<(String, Json)> = Vec::new();
                let mut i: usize = 0;
                while i < members.len()
                    invariant
                        i <= members.len(),
                        out.len() == i,
                        forall|k: int|
                            0 <= k < members.len() ==> decreases_to!(*self => members[k].1),
                        forall|j: int|
                            0 <= j < i ==> out@[j].deep_view() == members@[j].deep_view(),
                    decreases members.len() - i,
                {
                    out.push((members[i].0.clone(), members[i].1.duplicate()));
                    i += 1;
                }
                proof {
                    lemma_object_view(*members);
                    lemma_object_view(out);
                    assert(out.deep_view() =~= members.deep_view());
                }
                Json::Object(out)
            },
        }
    }
}

impl Clone for Json {
    fn clone(&self) -> (r: Self)
        ensures
            r@ == self@,
    {
        self.duplicate()
    }
}

/// No object of the tree, at any depth, holds a key twice.
pub open spec fn well_keyed(j: JsonModel) -> bool
    decreases j,
{
    match j {
        JsonModel::Array(items) => forall|i: int|
            0 <= i < items.len() ==> well_keyed(#[trigger] items[i]),
        JsonModel::Object(members) => keys_distinct(members) && forall|i: int|
            0 <= i < members.len() ==> well_keyed((#[trigger] members[i]).1),
        _ => true,
    }
}

/// The outside type of a parsed JSON value. Nothing inside it is visible
/// here: a value is opened one level at a time by [`open_value`].
#[verifier::external_type_specification]
#[verifier::external_body]
pub struct ExValue(serde_json::Value);

/// What `serde_json::from_str` makes of a text: the tree it parsed, or the
/// message of the error it reported.
pub uninterp spec fn parsed_json(text: Seq<char>) -> Result<JsonModel, Seq<char>>;

/// The tree that a `serde_json::Value` holds.
pub uninterp spec fn value_tree(value: serde_json::Value) -> JsonModel;

/// Parses a text with `serde_json::from_str`. Parsing is a function of the
/// text alone: the value, or the text that the error displays as, is the
/// one that [`parsed_json`] names for this text.
#[verifier::external_body]
fn value_from_str(text: &str) -> (r: Result<serde_json::Value, String>)
    ensures
        match r {
            Ok(v) => parsed_json(text@) == Ok::<JsonModel, Seq<char>>(value_tree(v)),
            Err(m) => parsed_json(text@) == Err::<JsonModel, Seq<char>>(m@),
        },
{
    match serde_json::from_str::<serde_json::Value>(text) {
        Ok(value) => Ok(value),
        Err(error) => Err(error.to_string()),
    }
}

/// The top level of a `serde_json::Value`: its kind, with a scalar as a
/// plain value and the children of an array or an object still unopened.
pub enum Level<'a> {
    Null,
    Bool(bool),
    Number(String),
    Text(String),
    Array(Vec<&'a serde_json::Value>),
    Object(Vec<(String, &'a serde_json::Value)>),
}

/// The tree that a level stands for, given the trees of its children.
pub open spec fn level_tree(level: Level) -> JsonModel {
    match level {
        Level::Null => JsonModel::Null,
        Level::Bool(b) => JsonModel::Bool(b),
        Level::Number(n) => JsonModel::Number(n@),
        Level::Text(s) => JsonModel::Text(s@),
        Level::Array(items) => JsonModel::Array(
            Seq::new(items@.len(), |i: int| value_tree(*items@[i])),
        ),
        Level::Object(members) => JsonModel::Object(
            Seq::new(members@.len(), |i: int| (members@[i].0@, value_tree(*members@[i].1))),
        ),
    }
}

/// Opens the top level of a `serde_json::Value`, variant by variant: a
/// number comes out as the text that `serde_json::Number` displays as, an
/// array as its elements in order, an object as its members in the order
/// in which `serde_json::Map::iter` walks them. The tree of the value is
/// what this level stands for. A `serde_json::Map` holds each key once,
/// so no two members that come out of an object have one key.
#[verifier::external_body]
fn open_value<'a>(value: &'a serde_json::Value) -> (r: Level<'a>)
    ensures
        level_tree(r) == value_tree(*value),
        match r {
            Level::Object(members) => forall|i: int, j: int|
                0 <= i < j < members@.len() ==> members@[i].0@ != members@[j].0@,
            _ => true,
        },
{
    match value {
        serde_json::Value::Null => Level::Null,
        serde_json::Value::Bool(b) => Level::Bool(*b),
        serde_json::Value::Number(n) => Level::Number(n.to_string()),
        serde_json::Value::String(s) => Level::Text(s.clone()),
        serde_json::Value::Array(a) => Level::Array(a.iter().collect()),
        serde_json::Value::Object(o) => Level::Object(o.iter().map(|(k, v)| (k.clone(), v)).collect()),
    }
}

/// Copies a parsed value into a tree, level by level.
fn json_of_value(value: &serde_json::Value) -> (r: Json)
    ensures
        r@ == value_tree(*value),
        well_keyed(r@),
    decreases value_tree(*value),
{
    let ghost tree = value_tree(*value);
    match open_value(value) {
        Level::Null => Json::Null,
        Level::Bool(b) => Json::Bool(b),
        Level::Number(n) => Json::Number(n),
        Level::Text(s) => Json::Text(s),
        Level::Array(items) => {
            let mut out: Vec<Json> = Vec::new();
            let mut i: usize = 0;
            while i < items.len()
                invariant
                    i <= items.len(),
                    out.len() == i,
                    tree == value_tree(*value),
                    tree == JsonModel::Array(
                        Seq::new(items@.len(), |k: int| value_tree(*items@[k])),
                    ),
                    forall|j: int| 0 <= j < i ==> out@[j]@ == value_tree(*items@[j]),
                    forall|j: int| 0 <= j < i ==> well_keyed(#[trigger] out@[j]@),
                decreases items.len() - i,
            {
                proof {
                    let children = tree->Array_0;
                    assert(children[i as int] == value_tree(*items@[i as int]));
                    assert(decreases_to!(tree => children));
                    assert(decreases_to!(children => children[i as int]));
                    assert(decreases_to!(tree => value_tree(*items@[i as int])));
                }
                out.push(json_of_value(items[i]));
                i += 1;
            }
            proof {
                lemma_array_view(out);
                assert(out.deep_view() =~= tree->Array_0);
                assert forall|j: int| 0 <= j < tree->Array_0.len() implies well_keyed(
                    #[trigger] tree->Array_0[j],
                ) by {
                    assert(well_keyed(out@[j]@));
                }
            }
            Json::Array(out)
        },
        Level::Object(members) => {
            let mut out: Vec<(String, Json)> = Vec::new();
            let mut i: usize = 0;
            while i < members.len()
                invariant
                    i <= members.len(),
                    out.len() == i,
                    tree == value_tree(*value),
                    tree == JsonModel::Object(
                        Seq::new(
                            members@.len(),
                            |k: int| (members@[k].0@, value_tree(*members@[k].1)),
                        ),
                    ),
                    forall|j: int|
                        0 <= j < i ==> out@[j].deep_view() == (
                            members@[j].0@,
                            value_tree(*members@[j].1),
                        ),
                    forall|j: int| 0 <= j < i ==> well_keyed(#[trigger] out@[j].1@),
                    forall|a: int, b: int|
                        0 <= a < b < members@.len() ==> members@[a].0@ != members@[b].0@,
                decreases members.len() - i,
            {
                proof {
                    let children = tree->Object_0;
                    assert(children[i as int].1 == value_tree(*members@[i as int].1));
                    assert(decreases_to!(tree => children));
                    assert(decreases_to!(children => children[i as int]));
                    assert(decreases_to!(children[i as int] => children[i as int].1));
                    assert(decreases_to!(tree => value_tree(*members@[i as int].1)));
                }
                out.push((members[i].0.clone(), json_of_value(members[i].1)));
                i += 1;
            }
            proof {
                lemma_object_view(out);
                assert(out.deep_view() =~= tree->Object_0);
                assert forall|j: int| 0 <= j < tree->Object_0.len() implies well_keyed(
                    (#[trigger] tree->Object_0[j]).1,
                ) by {
                    assert(well_keyed(out@[j].1@));
                }
            }
            Json::Object(out)
        },
    }
}

/// Parses a JSON text. The result is the tree, or the error message, that
/// [`parsed_json`] names for the text. No object of a parsed tree holds a
/// key twice.
pub fn parse_json(text: &str) -> (r: Result<Json, String>)
    ensures
        match r {
            Ok(j) => parsed_json(text@) == Ok::<JsonModel, Seq<char>>(j@) && well_keyed(j@),
            Err(m) => parsed_json(text@) == Err::<JsonModel, Seq<char>>(m@),
        },
{
    match value_from_str(text) {
        Ok(v) => Ok(json_of_value(&v)),
        Err(m) => Err(m),
    }
}

} // verus!
