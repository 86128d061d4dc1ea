//! A JSON value as plain data, with the object operations the client needs.
//!
//! Objects keep their members in order; a key is looked up at its first
//! occurrence, and inserting a present key replaces its value in place.

use vstd::prelude::*;
use crate::text::str_eq;

verus! {

/// A JSON value. Numbers are held in their printed form.
#[derive(Debug)]
pub enum Json {
    Null,
    Bool(bool),
    Number(String),
    String(String),
    Array(Vec<Json>),
    Object(Vec<(String, Json)>),
}

/// No two members share a name.
pub open spec fn names_distinct(members: Seq<(Seq<char>, Json)>) -> bool {
    forall|i: int, j: int|
        0 <= i < j < members.len() ==> (#[trigger] members[i]).0 != (#[trigger] members[j]).0
}

/// A JSON value as a parser gives it: within every object, no two members
/// share a name.
pub open spec fn json_wf(j: Json) -> bool
    decreases j,
{
    match j {
        Json::Array(items) => forall|i: int|
            0 <= i < items@.len() ==> json_wf(#[trigger] items@[i]),
        Json::Object(ms) => {
            &&& names_distinct(members_view(ms@))
            &&& forall|i: int| 0 <= i < ms@.len() ==> json_wf(#[trigger] ms@[i].1)
        },
        _ => true,
    }
}

/// The names of an object's members, with their values.
pub open spec fn members_view(members: Seq<(String, Json)>) -> Seq<(Seq<char>, Json)> {
    members.map_values(|m: (String, Json)| (m.0@, m.1))
}

/// The index of the first member of `members` whose name is `key`.
pub open spec fn find_member(members: Seq<(Seq<char>, Json)>, key: Seq<char>) -> Option<int> {
    if exists|i: int| 0 <= i < members.len() && (#[trigger] members[i]).0 == key {
        let i = choose|i: int|
            0 <= i < members.len() && (#[trigger] members[i]).0 == key && forall|j: int|
                0 <= j < i ==> (#[trigger] members[j]).0 != key;
        Some(i)
    } else {
        None
    }
}

/// The value of the first member of `members` named `key`.
pub open spec fn member_value(members: Seq<(Seq<char>, Json)>, key: Seq<char>) -> Option<Json> {
    match find_member(members, key) {
        Some(i) => Some(members[i].1),
        None => None,
    }
}

/// `members` after inserting `key` with `value`: the first member with that
/// name gets the new value, or the member is appended when the name is absent.
pub open spec fn insert_member(members: Seq<(Seq<char>, Json)>, key: Seq<char>, value: Json) -> Seq<
    (Seq<char>, Json),
> {
    match find_member(members, key) {
        Some(i) => members.update(i, (key, value)),
        None => members.push((key, value)),
    }
}

/// There is a first member with a given name whenever some member has it.
pub proof fn lemma_find_member(members: Seq<(Seq<char>, Json)>, key: Seq<char>)
    ensures
        match find_member(members, key) {
            Some(i) => 0 <= i < members.len() && members[i].0 == key && forall|j: int|
                0 <= j < i ==> (#[trigger] members[j]).0 != key,
            None => forall|j: int| 0 <= j < members.len() ==> (#[trigger] members[j]).0 != key,
        },
{
    if exists|i: int| 0 <= i < members.len() && (#[trigger] members[i]).0 == key {
        let w = choose|i: int| 0 <= i < members.len() && (#[trigger] members[i]).0 == key;
        lemma_first_index(members, key, w);
    }
}

proof fn lemma_first_index(members: Seq<(Seq<char>, Json)>, key: Seq<char>, w: int)
    requires
        0 <= w < members.len(),
        members[w].0 == key,
    ensures
        exists|i: int|
            0 <= i < members.len() && (#[trigger] members[i]).0 == key && forall|j: int|
                0 <= j < i ==> (#[trigger] members[j]).0 != key,
    decreases w,
{
    if exists|j: int| 0 <= j < w && (#[trigger] members[j]).0 == key {
        let j = choose|j: int| 0 <= j < w && (#[trigger] members[j]).0 == key;
        lemma_first_index(members, key, j);
    } else {
        assert(forall|j: int| 0 <= j < w ==> (#[trigger] members[j]).0 != key);
    }
}

/// The index of the first member named `key`.
pub fn find_key(members: &Vec<(String, Json)>, key: &str) -> (res: Option<usize>)
    ensures
        match res {
            Some(i) => find_member(members_view(members@), key@) == Some(i as int),
            None => find_member(members_view(members@), key@) is None,
        },
{
    let ghost mv = members_view(members@);
    proof {
        lemma_find_member(mv, key@);
    }
    for i in 0..members.len()
        invariant
            mv == members_view(members@),
            forall|j: int| 0 <= j < i ==> (#[trigger] mv[j]).0 != key@,
    {
        if str_eq(members[i].0.as_str(), key) {
            proof {
                assert(mv[i as int].0 == key@);
                lemma_find_member(mv, key@);
                let f = find_member(mv, key@);
                match f {
                    Some(k) => {
                        if k > i {
                            assert(mv[i as int].0 == key@);
                        }
                    },
                    None => {
                        assert(mv[i as int].0 != key@);
                    },
                }
            }
            return Some(i);
        }
    }
    None
}

/// Inserts `key` with `value` into an object's members (as `Map::insert`).
pub fn insert_key(members: &mut Vec<(String, Json)>, key: String, value: Json)
    ensures
        members_view(final(members)@) == insert_member(members_view(old(members)@), key@, value),
        names_distinct(members_view(old(members)@)) ==> names_distinct(
            members_view(final(members)@),
        ),
{
    let ghost mv = members_view(members@);
    proof {
        lemma_find_member(mv, key@);
    }
    match find_key(members, key.as_str()) {
        Some(i) => {
            let name = members[i].0.clone();
            members.set(i, (name, value));
            assert(members_view(members@) =~= mv.update(i as int, (key@, value)));
        },
        None => {
            members.push((key, value));
            assert(members_view(members@) =~= mv.push((key@, value)));
        },
    }
}

// ---------------------------------------------------------------------------
// Reading JSON text
// ---------------------------------------------------------------------------

#[verifier::external_type_specification]
#[verifier::external_body]
pub struct ExValue(serde_json::Value);

/// What `serde_json::from_str` reads from `text`, in the library's form: the
/// value, or the message of the parser's error when the text is not one JSON
/// value.
pub uninterp spec fn parsed_json(text: Seq<char>) -> Result<Json, Seq<char>>;

/// `serde_json::from_str::<serde_json::Value>`: the JSON value written in
/// `text`, or the message (`Display`) of the parser's error when it is not
/// valid JSON. The parser's objects are maps, so no two members of an object
/// share a name.
#[verifier::external_body]
pub(crate) fn parse_json(text: &str) -> (r: Result<Json, String>)
    ensures
        match r {
            Ok(j) => parsed_json(text@) == Ok::<Json, Seq<char>>(j) && json_wf(j),
            Err(e) => parsed_json(text@) == Err::<Json, Seq<char>>(e@),
        },
{
    match serde_json::from_str::<serde_json::Value>(text) {
        Ok(v) => Ok(json_of_value(v)),
        Err(e) => Err(e.to_string()),
    }
}

/// The library's form of a `serde_json::Value`, one variant for one, numbers
/// in their printed form. It only changes the representation of what
/// `parse_json` read, and nothing else calls it.
#[verifier::external_body]
fn json_of_value(v: serde_json::Value) -> Json {
    match v {
        serde_json::Value::Null => Json::Null,
        serde_json::Value::Bool(b) => Json::Bool(b),
        serde_json::Value::Number(n) => Json::Number(n.to_string()),
        serde_json::Value::String(s) => Json::String(s),
        serde_json::Value::Array(a) => Json::Array(a.into_iter().map(json_of_value).collect()),
        serde_json::Value::Object(m) => Json::Object(
            m.into_iter().map(|(k, x)| (k, json_of_value(x))).collect(),
        ),
    }
}

} // verus!
