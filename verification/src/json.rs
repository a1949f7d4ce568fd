//! A JSON value as the entity lists of a message carry it, with the lookups
//! that the entity readers make. A number keeps what the readers can ask of
//! it: whether it is a non-negative integer and which one.
use vstd::prelude::*;
use crate::lexical::str_chars;
use crate::lexical::range_equals;

verus! {

/// A JSON number: a non-negative integer, a negative integer, or a number
/// with a fraction or an exponent.
#[derive(Clone, Copy, Debug, PartialEq, Eq, Structural)]
pub enum JsonNumber {
    PosInt(u64),
    NegInt(i64),
    Float,
}

/// A JSON value. The entries of an object are kept in the order in which
/// they are walked.
#[derive(Debug)]
pub enum JsonValue {
    Null,
    Bool(bool),
    Number(JsonNumber),
    String(String),
    Array(Vec<JsonValue>),
    Object(Vec<(String, JsonValue)>),
}

/// Index of the first entry of `entries` whose key is `key`, if any.
pub open spec fn first_key_index(entries: Seq<(String, JsonValue)>, key: Seq<char>) -> Option<int>
    decreases entries.len(),
{
    if entries.len() == 0 {
        None
    } else if entries[0].0@ == key {
        Some(0)
    } else {
        match first_key_index(entries.drop_first(), key) {
            Some(i) => Some(i + 1),
            None => None,
        }
    }
}

/// `value.get(key)`: the entry of an object under `key`.
pub open spec fn spec_get(value: JsonValue, key: Seq<char>) -> Option<JsonValue> {
    match value {
        JsonValue::Object(entries) => match first_key_index(entries@, key) {
            Some(i) => Some(entries@[i].1),
            None => None,
        },
        _ => None,
    }
}

/// `value.as_str()`.
pub open spec fn spec_as_str(value: JsonValue) -> Option<Seq<char>> {
    match value {
        JsonValue::String(s) => Some(s@),
        _ => None,
    }
}

/// `value.as_u64()`.
pub open spec fn spec_as_u64(value: JsonValue) -> Option<u64> {
    match value {
        JsonValue::Number(JsonNumber::PosInt(n)) => Some(n),
        _ => None,
    }
}

/// `value.get(key).and_then(|v| v.as_str())`.
pub open spec fn spec_get_str(value: JsonValue, key: Seq<char>) -> Option<Seq<char>> {
    match spec_get(value, key) {
        Some(v) => spec_as_str(v),
        None => None,
    }
}

/// `value.get(key).and_then(|v| v.as_u64())`.
pub open spec fn spec_get_u64(value: JsonValue, key: Seq<char>) -> Option<u64> {
    match spec_get(value, key) {
        Some(v) => spec_as_u64(v),
        None => None,
    }
}

proof fn lemma_first_key_index(entries: Seq<(String, JsonValue)>, key: Seq<char>, i: int)
    requires
        0 <= i <= entries.len(),
        forall|j: int| 0 <= j < i ==> (#[trigger] entries[j]).0@ != key,
    ensures
        i < entries.len() && entries[i].0@ == key ==> first_key_index(entries, key) == Some(i),
        i == entries.len() ==> first_key_index(entries, key) is None,
    decreases i,
{
    if i > 0 {
        let rest = entries.drop_first();
        assert forall|j: int| 0 <= j < i - 1 implies (#[trigger] rest[j]).0@ != key by {
            assert(rest[j] == entries[j + 1]);
        }
        lemma_first_key_index(rest, key, i - 1);
        assert(entries[0].0@ != key);
    }
}

/// The entry that a key selects is the first one under that key: where
/// the lookup gives index `i`, entry `i` has the key and no earlier entry
/// has it; where it gives nothing, no entry has the key.
pub proof fn law_first_key(entries: Seq<(String, JsonValue)>, key: Seq<char>)
    ensures
        first_key_index(entries, key) matches Some(i) ==> 0 <= i < entries.len() && entries[i].0@
            == key && forall|j: int| 0 <= j < i ==> (#[trigger] entries[j]).0@ != key,
        first_key_index(entries, key) is None ==> forall|j: int|
            0 <= j < entries.len() ==> (#[trigger] entries[j]).0@ != key,
    decreases entries.len(),
{
    if entries.len() > 0 && entries[0].0@ != key {
        let rest = entries.drop_first();
        law_first_key(rest, key);
        if let Some(i) = first_key_index(rest, key) {
            assert forall|j: int| 0 <= j < i + 1 implies (#[trigger] entries[j]).0@ != key by {
                if j > 0 {
                    assert(entries[j] == rest[j - 1]);
                }
            }
        } else {
            assert forall|j: int| 0 <= j < entries.len() implies (#[trigger] entries[j]).0@ != key by {
                if j > 0 {
                    assert(entries[j] == rest[j - 1]);
                }
            }
        }
    }
}

impl JsonValue {
    /// The entry of an object under `key`; `None` for an absent key or a
    /// value that is not an object.
    pub fn get(&self, key: &str) -> (r: Option<&JsonValue>)
        ensures
            r matches Some(v) ==> spec_get(*self, key@) == Some(*v),
            r is None ==> spec_get(*self, key@) is None,
    {
        match self {
            JsonValue::Object(entries) => {
                let mut i: usize = 0;
                while i < entries.len()
                    invariant
                        *self == JsonValue::Object(*entries),
                        0 <= i <= entries.len(),
                        forall|j: int| 0 <= j < i ==> (#[trigger] entries@[j]).0@ != key@,
                    decreases entries.len() - i,
                {
                    let k = str_chars(entries[i].0.as_str());
                    if range_equals(&k, 0, k.len(), key) {
                        proof {
                            assert(k@.subrange(0, k@.len() as int) == k@);
                            assert(entries@[i as int].0@ == key@);
                            lemma_first_key_index(entries@, key@, i as int);
                            assert(first_key_index(entries@, key@) == Some(i as int));
                            assert(*self == JsonValue::Object(*entries));
                        }
                        return Some(&entries[i].1);
                    }
                    assert(k@.subrange(0, k@.len() as int) == k@);
                    i += 1;
                }
                proof {
                    lemma_first_key_index(entries@, key@, i as int);
                }
                None
            },
            _ => None,
        }
    }

    /// The text of a string value.
    pub fn as_str(&self) -> (r: Option<&str>)
        ensures
            r matches Some(s) ==> spec_as_str(*self) == Some(s@),
            r is None ==> spec_as_str(*self) is None,
    {
        match self {
            JsonValue::String(s) => Some(s.as_str()),
            _ => None,
        }
    }

    /// The value of a non-negative integer.
    pub fn as_u64(&self) -> (r: Option<u64>)
        ensures
            r == spec_as_u64(*self),
    {
        match self {
            JsonValue::Number(JsonNumber::PosInt(n)) => Some(*n),
            _ => None,
        }
    }

    /// The items of an array.
    pub fn as_array(&self) -> (r: Option<&Vec<JsonValue>>)
        ensures
            r matches Some(items) ==> *self == JsonValue::Array(*items),
            r is None ==> !(*self is Array),
    {
        match self {
            JsonValue::Array(items) => Some(items),
            _ => None,
        }
    }

    /// The entries of an object.
    pub fn as_object(&self) -> (r: Option<&Vec<(String, JsonValue)>>)
        ensures
            r matches Some(entries) ==> *self == JsonValue::Object(*entries),
            r is None ==> !(*self is Object),
    {
        match self {
            JsonValue::Object(entries) => Some(entries),
            _ => None,
        }
    }
}

} // verus!
