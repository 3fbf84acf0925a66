//! A JSON value as plain values: what a training-pair record holds once the
//! JSON text has been parsed.
use vstd::prelude::*;

verus! {

/// A parsed JSON value. A number keeps its text; an object keeps its members
/// in order, each key once.
#[derive(Debug)]
pub enum JsonValue {
    Null,
    Bool(bool),
    Number(String),
    Str(String),
    Array(Vec<JsonValue>),
    Object(Vec<(String, JsonValue)>),
}

#[verifier::external_type_specification]
#[verifier::external_body]
pub struct ExSerdeJsonValue(serde_json::Value);

/// What `serde_json` parses from this text, as a `JsonValue`: the value, or
/// the text of the error it reports.
pub uninterp spec fn json_parse(text: Seq<char>) -> Result<JsonValue, Seq<char>>;

/// The `JsonValue` for a `serde_json::Value`, variant for variant (a number
/// keeps its `Display` text, an object its members in `serde_json`'s order).
/// Nothing is stated of it here; `parse_json`, its one caller, names the
/// composed result.
#[verifier::external_body]
fn json_from_serde(v: serde_json::Value) -> JsonValue {
    match v {
        serde_json::Value::Null => JsonValue::Null,
        serde_json::Value::Bool(b) => JsonValue::Bool(b),
        serde_json::Value::Number(n) => JsonValue::Number(n.to_string()),
        serde_json::Value::String(s) => JsonValue::Str(s),
        serde_json::Value::Array(items) => JsonValue::Array(items.into_iter().map(json_from_serde).collect()),
        serde_json::Value::Object(m) => JsonValue::Object(m.into_iter().map(|(k, v)| (k, json_from_serde(v))).collect()),
    }
}

/// `serde_json::from_str::<serde_json::Value>`, converted to a `JsonValue`.
/// The parser is deterministic and returns on any text, so its value, and the
/// `Display` text of its error, are named as a function of the text.
#[verifier::external_body]
pub(crate) fn parse_json(text: &str) -> (r: Result<JsonValue, String>)
    ensures
        r is Ok <==> json_parse(text@) is Ok,
        r matches Ok(v) ==> json_parse(text@)->Ok_0 == v,
        r matches Err(e) ==> json_parse(text@)->Err_0 == e@,
{
    match serde_json::from_str::<serde_json::Value>(text) {
        Ok(v) => Ok(json_from_serde(v)),
        Err(e) => Err(e.to_string()),
    }
}

/// The member of `members` named `key`: the first one with that key.
pub open spec fn find_member(members: Seq<(String, JsonValue)>, key: Seq<char>) -> Option<JsonValue>
    decreases members.len(),
{
    if members.len() == 0 {
        None
    } else if members[0].0@ == key {
        Some(members[0].1)
    } else {
        find_member(members.drop_first(), key)
    }
}

/// The member `key` of `v` when `v` is an object that has one; `None`
/// otherwise (also for arrays and scalars).
pub open spec fn member(v: JsonValue, key: Seq<char>) -> Option<JsonValue> {
    match v {
        JsonValue::Object(members) => find_member(members@, key),
        _ => None,
    }
}

/// The text of `v` when it is a string.
pub open spec fn string_of(v: Option<JsonValue>) -> Option<Seq<char>> {
    match v {
        Some(JsonValue::Str(s)) => Some(s@),
        _ => None,
    }
}

/// The value of `v` when it is a boolean.
pub open spec fn bool_of(v: Option<JsonValue>) -> Option<bool> {
    match v {
        Some(JsonValue::Bool(b)) => Some(b),
        _ => None,
    }
}

impl JsonValue {
    /// The member `key` of this value, when it is an object that has one.
    pub fn get(&self, key: &str) -> (r: Option<&JsonValue>)
        ensures
            r matches Some(m) ==> member(*self, key@) == Some(*m),
            r is None ==> member(*self, key@) is None,
    {
        match self {
            JsonValue::Object(members) => {
                let key_owned = key.to_owned();
                let n = members.len();
                let mut i: usize = 0;
                assert(members@.skip(0) =~= members@);
                assert(member(*self, key@) == find_member(members@, key@));
                while i < n
                    invariant
                        n == members@.len(),
                        i <= n,
                        key_owned@ == key@,
                        member(*self, key@) == find_member(members@, key@),
                        find_member(members@, key@) == find_member(members@.skip(i as int), key@),
                    decreases n - i,
                {
                    let ghost rest = members@.skip(i as int);
                    assert(rest.drop_first() =~= members@.skip(i + 1));
                    if members[i].0 == key_owned {
                        return Some(&members[i].1);
                    }
                    i = i + 1;
                }
                None
            },
            _ => None,
        }
    }

    /// The text of this value, when it is a string.
    pub fn as_str(&self) -> (r: Option<&String>)
        ensures
            r matches Some(s) ==> string_of(Some(*self)) == Some(s@),
            r is None ==> string_of(Some(*self)) is None,
    {
        match self {
            JsonValue::Str(s) => Some(s),
            _ => None,
        }
    }

    /// The value of this value, when it is a boolean.
    pub fn as_bool(&self) -> (r: Option<bool>)
        ensures
            r == bool_of(Some(*self)),
    {
        match self {
            JsonValue::Bool(b) => Some(*b),
            _ => None,
        }
    }
}

} // verus!
