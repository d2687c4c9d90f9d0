//! A small JSON document model.
//!
//! The control tool answers a query with a JSON document on its standard
//! output.  The library models a parsed document with the [`Json`] enum,
//! so that everything the utility reads out of a document — field
//! lookups and string extraction — is ordinary verified code.  Only the
//! parse itself is handed to an outside crate, behind a trusted wrapper
//! at the bottom of this file.

use vstd::prelude::*;

verus! {

/// A parsed JSON value.
///
/// Numbers carry no payload: the utility never reads one, and keeping
/// them abstract spares the model a floating-point field.  Object fields
/// keep their order; keys coming out of the parser are unique, but the
/// model does not depend on that — a lookup takes the first match.
pub enum Json {
    Null,
    Bool(bool),
    Number,
    Str(String),
    Array(Vec<Json>),
    Object(Vec<(String, Json)>),
}

/// First field of `fields` whose key reads `key`, if any.
pub open spec fn lookup(fields: Seq<(String, Json)>, key: Seq<char>) -> Option<Json>
    decreases fields.len(),
{
    if fields.len() == 0 {
        None
    } else if fields[0].0@ == key {
        Some(fields[0].1)
    } else {
        lookup(fields.drop_first(), key)
    }
}

/// Field `key` of `j`, when `j` is an object that has it.
pub open spec fn json_get(j: Json, key: Seq<char>) -> Option<Json> {
    match j {
        Json::Object(fields) => lookup(fields@, key),
        _ => None,
    }
}

/// The characters of `j`, when `j` is a string.
pub open spec fn json_str(j: Json) -> Option<Seq<char>> {
    match j {
        Json::Str(s) => Some(s@),
        _ => None,
    }
}

proof fn lemma_lookup_hit(fields: Seq<(String, Json)>, key: Seq<char>, i: int)
    requires
        0 <= i < fields.len(),
        forall|k: int| 0 <= k < i ==> fields[k].0@ != key,
        fields[i].0@ == key,
    ensures
        lookup(fields, key) == Some(fields[i].1),
    decreases i,
{
    if i > 0 {
        lemma_lookup_hit(fields.drop_first(), key, i - 1);
    }
}

proof fn lemma_lookup_miss(fields: Seq<(String, Json)>, key: Seq<char>)
    requires
        forall|k: int| 0 <= k < fields.len() ==> fields[k].0@ != key,
    ensures
        lookup(fields, key) is None,
    decreases fields.len(),
{
    if fields.len() > 0 {
        lemma_lookup_miss(fields.drop_first(), key);
    }
}

impl Json {
    /// Field `key` of this value, when it is an object that has one.
    pub fn get<'a>(&'a self, key: &String) -> (r: Option<&'a Json>)
        ensures
            match r {
                Some(j) => json_get(*self, key@) == Some(*j),
                None => json_get(*self, key@) is None,
            },
    {
        match self {
            Json::Object(fields) => {
                let n = fields.len();
                let mut i: usize = 0;
                while i < n
                    invariant
                        *self == Json::Object(*fields),
                        n == fields@.len(),
                        0 <= i <= n,
                        forall|k: int| 0 <= k < i ==> fields@[k].0@ != key@,
                    decreases n - i,
                {
                    if fields[i].0 == *key {
                        proof {
                            lemma_lookup_hit(fields@, key@, i as int);
                        }
                        return Some(&fields[i].1);
                    }
                    i = i + 1;
                }
                proof {
                    lemma_lookup_miss(fields@, key@);
                }
                None
            },
            _ => None,
        }
    }

    /// The string held by this value, when it is a string.
    pub fn as_str<'a>(&'a self) -> (r: Option<&'a String>)
        ensures
            match r {
                Some(s) => json_str(*self) == Some(s@),
                None => json_str(*self) is None,
            },
    {
        match self {
            Json::Str(s) => Some(s),
            _ => None,
        }
    }
}

#[verifier::external_type_specification]
#[verifier::external_body]
pub struct ExValue(serde_json::Value);

/// The document that `bytes` parse to, or `None` when they are not
/// well-formed JSON.  Names the (deterministic) result of
/// `serde_json::from_slice::<serde_json::Value>`, carried over into the
/// [`Json`] model.
pub uninterp spec fn json_of(bytes: Seq<u8>) -> Option<Json>;

/// Relies on `serde_json::from_slice::<serde_json::Value>`: parses a
/// complete JSON document from bytes, deterministically, returning an
/// error value exactly when the bytes are not well-formed JSON.
#[verifier::external_body]
pub(crate) fn parse_json_bytes(bytes: &[u8]) -> (r: Option<Json>)
    ensures
        r == json_of(bytes@),
{
    match serde_json::from_slice::<serde_json::Value>(bytes) {
        Ok(v) => Some(value_to_json(v)),
        Err(_) => None,
    }
}

/// Relies on `serde_json::Value`: carries each variant of the parsed
/// document over into the [`Json`] model, field for field.  Number
/// payloads are dropped; nothing in the library reads one.
#[verifier::external_body]
fn value_to_json(v: serde_json::Value) -> Json {
    match v {
        serde_json::Value::Null => Json::Null,
        serde_json::Value::Bool(b) => Json::Bool(b),
        serde_json::Value::Number(_) => Json::Number,
        serde_json::Value::String(s) => Json::Str(s),
        serde_json::Value::Array(a) => Json::Array(a.into_iter().map(value_to_json).collect()),
        serde_json::Value::Object(m) => Json::Object(
            m.into_iter().map(|f| (f.0, value_to_json(f.1))).collect(),
        ),
    }
}

} // verus!
