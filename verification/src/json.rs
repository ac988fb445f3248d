//! A JSON document as plain values: what the manifest logic reads and
//! edits. Object members keep their order; a key names the first member
//! that has it.
use vstd::prelude::*;
use crate::text::str_eq;

verus! {

/// A JSON value. Numbers are kept as their text.
#[derive(Debug, PartialEq, Eq)]
pub enum JsonValue {
    Null,
    Bool(bool),
    Number(String),
    Str(String),
    Array(Vec<JsonValue>),
    Object(Vec<(String, JsonValue)>),
}

/// Index of the first member of `entries` whose key is `key`, searching
/// from `from`.
pub open spec fn member_index(entries: Seq<(String, JsonValue)>, key: Seq<char>, from: int) -> Option<int>
    decreases entries.len() - from,
{
    if from < 0 || from >= entries.len() {
        None
    } else if entries[from].0@ == key {
        Some(from)
    } else {
        member_index(entries, key, from + 1)
    }
}

/// What `member_index` returns, stated by quantifiers.
pub proof fn lemma_member_index(entries: Seq<(String, JsonValue)>, key: Seq<char>, from: int)
    requires
        0 <= from,
    ensures
        match member_index(entries, key, from) {
            Some(i) => from <= i < entries.len() && entries[i].0@ == key
                && forall|j: int| from <= j < i ==> entries[j].0@ != key,
            None => forall|j: int| from <= j < entries.len() ==> entries[j].0@ != key,
        },
    decreases entries.len() - from,
{
    if from < entries.len() && entries[from].0@ != key {
        lemma_member_index(entries, key, from + 1);
    }
}

/// The value of member `key` of an object (`None` for other values or an
/// absent key).
pub open spec fn spec_get(v: JsonValue, key: Seq<char>) -> Option<JsonValue> {
    match v {
        JsonValue::Object(entries) => match member_index(entries@, key, 0) {
            Some(i) => Some(entries@[i].1),
            None => None,
        },
        _ => None,
    }
}

/// The text of a string value.
pub open spec fn spec_as_str(v: JsonValue) -> Option<Seq<char>> {
    match v {
        JsonValue::Str(s) => Some(s@),
        _ => None,
    }
}

/// The value of a boolean.
pub open spec fn spec_as_bool(v: JsonValue) -> Option<bool> {
    match v {
        JsonValue::Bool(b) => Some(b),
        _ => None,
    }
}

/// `entries` with member `key` set to `value`: replaced in place where the
/// key is present, appended otherwise.
pub open spec fn spec_set_member(entries: Seq<(String, JsonValue)>, key: String, value: JsonValue) -> Seq<(String, JsonValue)> {
    match member_index(entries, key@, 0) {
        Some(i) => entries.update(i, (entries[i].0, value)),
        None => entries.push((key, value)),
    }
}

/// The index of member `key` in `entries`.
pub fn find_member(entries: &Vec<(String, JsonValue)>, key: &str) -> (r: Option<usize>)
    ensures
        r matches Some(i) ==> member_index(entries@, key@, 0) == Some(i as int),
        r is None ==> member_index(entries@, key@, 0) is None,
{
    let mut i: usize = 0;
    while i < entries.len()
        invariant
            i <= entries@.len(),
            member_index(entries@, key@, 0) == member_index(entries@, key@, i as int),
        decreases entries.len() - i,
    {
        if str_eq(entries[i].0.as_str(), key) {
            return Some(i);
        }
        i = i + 1;
    }
    None
}

impl JsonValue {
    /// Member `key` of an object.
    pub fn get(&self, key: &str) -> (r: Option<&JsonValue>)
        ensures
            r matches Some(x) ==> spec_get(*self, key@) == Some(*x),
            r is None ==> spec_get(*self, key@) is None,
    {
        match self {
            JsonValue::Object(entries) => {
                proof {
                    lemma_member_index(entries@, key@, 0);
                }
            },
            _ => {},
        }
        match self {
            JsonValue::Object(entries) => match find_member(entries, key) {
                Some(i) if i < entries.len() => Some(&entries[i].1),
                _ => None,
            },
            _ => None,
        }
    }

    /// The text of a string value.
    pub fn as_str(&self) -> (r: Option<&str>)
        ensures
            r matches Some(s) ==> spec_as_str(*self) == Some(s@),
            r is None ==> spec_as_str(*self) is None,
    {
        match self {
            JsonValue::Str(s) => Some(s.as_str()),
            _ => None,
        }
    }

    /// The value of a boolean.
    pub fn as_bool(&self) -> (r: Option<bool>)
        ensures
            r == spec_as_bool(*self),
    {
        match self {
            JsonValue::Bool(b) => Some(*b),
            _ => None,
        }
    }
}

/// Set member `key` of an object's members to `value`.
pub fn set_member(entries: &mut Vec<(String, JsonValue)>, key: String, value: JsonValue)
    ensures
        final(entries)@ == spec_set_member(old(entries)@, key, value),
{
    proof {
        lemma_member_index(old(entries)@, key@, 0);
    }
    match find_member(entries, key.as_str()) {
        Some(i) => {
            let k = entries[i].0.clone();
            entries.set(i, (k, value));
        },
        None => {
            entries.push((key, value));
        },
    }
}

} // verus!
