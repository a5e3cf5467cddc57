//! JSON documents as a tree of plain values.
//!
//! Reading and writing JSON text is left to `serde_json`; what it reads is
//! copied into [`JsonValue`], on which the rest of the library works.

use vstd::prelude::*;

verus! {

/// A number of a JSON document, carried as `serde_json` holds it.
#[verifier::external_type_specification]
#[verifier::external_body]
pub struct ExNumber(serde_json::Number);

/// A JSON document as `serde_json` holds it.
#[verifier::external_type_specification]
#[verifier::external_body]
pub struct ExValue(serde_json::Value);

/// The reason `serde_json` gives for refusing a text.
#[verifier::external_type_specification]
#[verifier::external_body]
pub struct ExError(serde_json::Error);

/// A JSON document. An object holds its members in the order in which the
/// document's map hands them out.
#[derive(Debug, PartialEq)]
pub enum JsonValue {
    Null,
    Bool(bool),
    Number(serde_json::Number),
    String(String),
    Array(Vec<JsonValue>),
    Object(Vec<(String, JsonValue)>),
}

/// The document that `serde_json::from_slice` reads from a text, as a tree;
/// `None` where it refuses the text.
pub uninterp spec fn json_document(data: Seq<u8>) -> Option<JsonValue>;

/// The tree that a `serde_json::Value` holds.
pub uninterp spec fn json_tree(v: serde_json::Value) -> JsonValue;

/// The tree that is held by the `serde_json::Value` built from a tree: the
/// same tree, but that `serde_json` keeps the members of an object in its
/// own order, and one member for each name.
pub uninterp spec fn json_kept(v: JsonValue) -> JsonValue;

/// The compact text that `serde_json` writes for a value that holds the
/// tree `v`.
pub uninterp spec fn json_written(v: JsonValue) -> Seq<char>;

/// The compact JSON text of a tree.
pub open spec fn json_text(v: JsonValue) -> Seq<char> {
    json_written(json_kept(v))
}

/// Calls `serde_json::from_slice` for a `serde_json::Value`. The result is
/// determined by the text: an error exactly where [`json_document`] has
/// none, and else a value that holds that document.
#[verifier::external_body]
fn read_value(data: &[u8]) -> (r: Result<serde_json::Value, serde_json::Error>)
    ensures
        match r {
            Ok(v) => json_document(data@) == Some(json_tree(v)),
            Err(_) => json_document(data@) is None,
        },
{
    serde_json::from_slice::<serde_json::Value>(data)
}

/// Copies what a `serde_json::Value` holds into a tree, variant by variant;
/// the members of an object in the order of `serde_json::Map::iter`.
#[verifier::external_body]
fn tree_of(v: &serde_json::Value) -> (r: JsonValue)
    ensures
        r == json_tree(*v),
{
    match v {
        serde_json::Value::Null => JsonValue::Null,
        serde_json::Value::Bool(b) => JsonValue::Bool(*b),
        serde_json::Value::Number(n) => JsonValue::Number(n.clone()),
        serde_json::Value::String(s) => JsonValue::String(s.clone()),
        serde_json::Value::Array(a) => JsonValue::Array(a.iter().map(tree_of).collect()),
        serde_json::Value::Object(m) => JsonValue::Object(
            m.iter().map(|(k, x)| (k.clone(), tree_of(x))).collect(),
        ),
    }
}

/// Builds a `serde_json::Value` from a tree, variant by variant; the
/// members of an object are collected into a `serde_json::Map`. What the
/// value then holds is determined by the tree.
#[verifier::external_body]
fn value_of(v: &JsonValue) -> (r: serde_json::Value)
    ensures
        json_tree(r) == json_kept(*v),
{
    match v {
        JsonValue::Null => serde_json::Value::Null,
        JsonValue::Bool(b) => serde_json::Value::Bool(*b),
        JsonValue::Number(n) => serde_json::Value::Number(n.clone()),
        JsonValue::String(s) => serde_json::Value::String(s.clone()),
        JsonValue::Array(a) => serde_json::Value::Array(a.iter().map(value_of).collect()),
        JsonValue::Object(m) => serde_json::Value::Object(
            m.iter().map(|e| (e.0.clone(), value_of(&e.1))).collect(),
        ),
    }
}

/// Calls `to_string` of `serde_json::Value`, which writes the value as
/// compact JSON text. The text is determined by what the value holds.
#[verifier::external_body]
fn write_value(v: &serde_json::Value) -> (text: String)
    ensures
        text@ == json_written(json_tree(*v)),
{
    v.to_string()
}

/// The first member of `members` that is named `key`.
pub open spec fn member(members: Seq<(String, JsonValue)>, key: Seq<char>) -> Option<JsonValue>
    decreases members.len(),
{
    if members.len() == 0 {
        None
    } else if members[0].0@ == key {
        Some(members[0].1)
    } else {
        member(members.subrange(1, members.len() as int), key)
    }
}

/// The first member named `key` among those from position `i` on is the
/// member that [`member`] finds in the rest.
proof fn lemma_member_skip(members: Seq<(String, JsonValue)>, key: Seq<char>, i: int)
    requires
        0 <= i <= members.len(),
        forall|j: int| 0 <= j < i ==> (#[trigger] members[j]).0@ != key,
    ensures
        member(members, key) == member(members.subrange(i, members.len() as int), key),
    decreases i,
{
    if i == 0 {
        assert(members.subrange(0, members.len() as int) =~= members);
    } else {
        lemma_member_skip(members, key, i - 1);
        let rest = members.subrange(i - 1, members.len() as int);
        assert(rest[0] == members[i - 1]);
        assert(rest.subrange(1, rest.len() as int) =~= members.subrange(i, members.len() as int));
    }
}

impl JsonValue {
    /// The elements, where the value is an array.
    pub open spec fn spec_as_array(self) -> Option<Seq<JsonValue>> {
        match self {
            JsonValue::Array(items) => Some(items@),
            _ => None,
        }
    }

    /// The members, where the value is an object.
    pub open spec fn spec_as_object(self) -> Option<Seq<(String, JsonValue)>> {
        match self {
            JsonValue::Object(members) => Some(members@),
            _ => None,
        }
    }

    /// The characters, where the value is a string.
    pub open spec fn spec_as_str(self) -> Option<Seq<char>> {
        match self {
            JsonValue::String(s) => Some(s@),
            _ => None,
        }
    }

    /// The member named `key`, where the value is an object that has one.
    pub open spec fn spec_get(self, key: Seq<char>) -> Option<JsonValue> {
        match self {
            JsonValue::Object(members) => member(members@, key),
            _ => None,
        }
    }

    /// The element at `i`, where the value is an array that long.
    pub open spec fn spec_at(self, i: int) -> Option<JsonValue> {
        match self {
            JsonValue::Array(items) => if 0 <= i < items@.len() {
                Some(items@[i])
            } else {
                None
            },
            _ => None,
        }
    }

    /// Reads a JSON text.
    pub fn parse(data: &[u8]) -> (r: Option<JsonValue>)
        ensures
            r == json_document(data@),
    {
        match read_value(data) {
            Ok(v) => Some(tree_of(&v)),
            Err(_) => None,
        }
    }

    /// Writes the value as compact JSON text.
    pub fn render(&self) -> (text: String)
        ensures
            text@ == json_text(*self),
    {
        let v = value_of(self);
        write_value(&v)
    }

    /// The elements, where the value is an array.
    pub fn as_array(&self) -> (r: Option<&Vec<JsonValue>>)
        ensures
            match r {
                Some(items) => self.spec_as_array() == Some(items@),
                None => self.spec_as_array() is None,
            },
    {
        match self {
            JsonValue::Array(items) => Some(items),
            _ => None,
        }
    }

    /// The members, where the value is an object.
    pub fn as_object(&self) -> (r: Option<&Vec<(String, JsonValue)>>)
        ensures
            match r {
                Some(members) => self.spec_as_object() == Some(members@),
                None => self.spec_as_object() is None,
            },
    {
        match self {
            JsonValue::Object(members) => Some(members),
            _ => None,
        }
    }

    /// The characters, where the value is a string.
    pub fn as_str(&self) -> (r: Option<&String>)
        ensures
            match r {
                Some(s) => self.spec_as_str() == Some(s@),
                None => self.spec_as_str() is None,
            },
    {
        match self {
            JsonValue::String(s) => Some(s),
            _ => None,
        }
    }

    /// The member named `key`, where the value is an object that has one.
    pub fn get(&self, key: &str) -> (r: Option<&JsonValue>)
        ensures
            match r {
                Some(v) => self.spec_get(key@) == Some(*v),
                None => self.spec_get(key@) is None,
            },
    {
        match self {
            JsonValue::Object(members) => {
                let mut i: usize = 0;
                while i < members.len()
                    invariant
                        i <= members@.len(),
                        self.spec_get(key@) == member(members@, key@),
                        forall|j: int| 0 <= j < i ==> (#[trigger] members@[j]).0@ != key@,
                    decreases members@.len() - i,
                {
                    proof {
                        lemma_member_skip(members@, key@, i as int);
                        let rest = members@.subrange(i as int, members@.len() as int);
                        assert(rest[0] == members@[i as int]);
                    }
                    if crate::text::str_eq(members[i].0.as_str(), key) {
                        proof {
                            let rest = members@.subrange(i as int, members@.len() as int);
                            assert(member(rest, key@) == Some(rest[0].1));
                        }
                        return Some(&members[i].1);
                    }
                    i = i + 1;
                }
                proof {
                    lemma_member_skip(members@, key@, i as int);
                }
                None
            },
            _ => None,
        }
    }

    /// The element at `i`, where the value is an array that long.
    pub fn at(&self, i: usize) -> (r: Option<&JsonValue>)
        ensures
            match r {
                Some(v) => self.spec_at(i as int) == Some(*v),
                None => self.spec_at(i as int) is None,
            },
    {
        match self {
            JsonValue::Array(items) => if i < items.len() {
                Some(&items[i])
            } else {
                None
            },
            _ => None,
        }
    }
}

} // verus!
