//! Structured documents (JSON manifests and lockfiles, TOML manifests) as
//! the library's own value type, parsed by `serde_json` and `toml`.
use vstd::prelude::*;
use crate::text::{chars_of, seq_eq};

verus! {

/// A parsed JSON or TOML value. Object entries come in the order the parser's
/// map iterates them.
pub enum DocValue {
    Null,
    Bool(bool),
    Number(String),
    Str(String),
    Datetime(String),
    Array(Vec<DocValue>),
    Object(Vec<(String, DocValue)>),
}

/// What `serde_json::from_str::<serde_json::Value>` gives for `text` (`None` on a parse error).
pub uninterp spec fn json_parse(text: Seq<char>) -> Option<DocValue>;

/// What `text.parse::<toml::Value>()` gives (`None` on a parse error).
pub uninterp spec fn toml_parse(text: Seq<char>) -> Option<DocValue>;

#[verifier::external_type_specification]
#[verifier::external_body]
pub struct ExJsonValue(serde_json::Value);

#[verifier::external_type_specification]
#[verifier::external_body]
pub struct ExTomlValue(toml::Value);

/// Converts a `serde_json` value, variant for variant.
#[verifier::external_body]
fn from_json(v: &serde_json::Value) -> DocValue {
    match v {
        serde_json::Value::Null => DocValue::Null,
        serde_json::Value::Bool(b) => DocValue::Bool(*b),
        serde_json::Value::Number(n) => DocValue::Number(n.to_string()),
        serde_json::Value::String(s) => DocValue::Str(s.clone()),
        serde_json::Value::Array(a) => DocValue::Array(a.iter().map(from_json).collect()),
        serde_json::Value::Object(m) => DocValue::Object(
            m.iter().map(|(k, x)| (k.clone(), from_json(x))).collect(),
        ),
    }
}

/// Converts a `toml` value, variant for variant.
#[verifier::external_body]
fn from_toml(v: &toml::Value) -> DocValue {
    match v {
        toml::Value::String(s) => DocValue::Str(s.clone()),
        toml::Value::Integer(i) => DocValue::Number(i.to_string()),
        toml::Value::Float(f) => DocValue::Number(f.to_string()),
        toml::Value::Boolean(b) => DocValue::Bool(*b),
        toml::Value::Datetime(d) => DocValue::Datetime(d.to_string()),
        toml::Value::Array(a) => DocValue::Array(a.iter().map(from_toml).collect()),
        toml::Value::Table(t) => DocValue::Object(
            t.iter().map(|(k, x)| (k.clone(), from_toml(x))).collect(),
        ),
    }
}

/// Parses JSON text.
///
/// Trusted: calls `serde_json::from_str::<serde_json::Value>` and converts the
/// value variant for variant; the result is named [`json_parse`].
#[verifier::external_body]
pub(crate) fn parse_json(text: &str) -> (r: Option<DocValue>)
    ensures
        r == json_parse(text@),
{
    match serde_json::from_str::<serde_json::Value>(text) {
        Ok(v) => Some(from_json(&v)),
        Err(_) => None,
    }
}

/// Parses a TOML document.
///
/// Trusted: calls `str::parse::<toml::Value>` (that is, `toml::from_str`) and
/// converts the value variant for variant; the result is named [`toml_parse`].
#[verifier::external_body]
pub(crate) fn parse_toml(text: &str) -> (r: Option<DocValue>)
    ensures
        r == toml_parse(text@),
{
    match text.parse::<toml::Value>() {
        Ok(v) => Some(from_toml(&v)),
        Err(_) => None,
    }
}

/// The value under `key` among object entries (the first entry with that key).
pub open spec fn lookup(entries: Seq<(String, DocValue)>, key: Seq<char>) -> Option<DocValue>
    decreases entries.len(),
{
    if entries.len() == 0 {
        None
    } else if entries[0].0@ == key {
        Some(entries[0].1)
    } else {
        lookup(entries.drop_first(), key)
    }
}

/// `DocValue::get(key)`: the field of an object; `None` for anything else.
pub open spec fn get(v: DocValue, key: Seq<char>) -> Option<DocValue> {
    match v {
        DocValue::Object(entries) => lookup(entries@, key),
        _ => None,
    }
}

/// `DocValue::as_str`.
pub open spec fn as_str(v: DocValue) -> Option<Seq<char>> {
    match v {
        DocValue::Str(s) => Some(s@),
        _ => None,
    }
}

/// The keys of an object, in order; `None` for anything else.
pub open spec fn object_keys(v: DocValue) -> Option<Seq<Seq<char>>> {
    match v {
        DocValue::Object(entries) => Some(Seq::new(entries@.len(), |i: int| entries@[i].0@)),
        _ => None,
    }
}

/// `get(key)` followed by `as_str`.
pub open spec fn get_str(v: DocValue, key: Seq<char>) -> Option<Seq<char>> {
    match get(v, key) {
        Some(x) => as_str(x),
        None => None,
    }
}

/// `get(key)` followed by the keys of an object.
pub open spec fn get_keys(v: DocValue, key: Seq<char>) -> Option<Seq<Seq<char>>> {
    match get(v, key) {
        Some(x) => object_keys(x),
        None => None,
    }
}

/// `DocValue::get(key)`.
pub fn get_field<'a>(v: &'a DocValue, key: &str) -> (r: Option<&'a DocValue>)
    ensures
        r matches Some(x) ==> get(*v, key@) == Some(*x),
        r is None ==> get(*v, key@) is None,
{
    match v {
        DocValue::Object(entries) => {
            let k = chars_of(key);
            let mut i: usize = 0;
            proof {
                assert(entries@.skip(0) == entries@);
            }
            while i < entries.len()
                invariant
                    i <= entries@.len(),
                    k@ == key@,
                    get(*v, key@) == lookup(entries@, key@),
                    lookup(entries@, key@) == lookup(entries@.skip(i as int), key@),
                decreases entries@.len() - i,
            {
                let ek = chars_of(entries[i].0.as_str());
                proof {
                    assert(entries@.skip(i as int)[0] == entries@[i as int]);
                    assert(entries@.skip(i as int).drop_first() == entries@.skip(i + 1));
                }
                if seq_eq(&ek, &k) {
                    proof {
                        assert(entries@.skip(i as int)[0].0@ == key@);
                        assert(lookup(entries@.skip(i as int), key@) == Some(entries@[i as int].1));
                    }
                    return Some(&entries[i].1);
                }
                i += 1;
            }
            None
        },
        _ => None,
    }
}

/// `DocValue::as_str`.
pub fn str_of(v: &DocValue) -> (r: Option<&String>)
    ensures
        r matches Some(s) ==> as_str(*v) == Some(s@),
        r is None ==> as_str(*v) is None,
{
    match v {
        DocValue::Str(s) => Some(s),
        _ => None,
    }
}

/// The keys of an object, in order.
pub fn keys_of(v: &DocValue) -> (r: Option<Vec<String>>)
    ensures
        r matches Some(ks) ==> object_keys(*v) == Some(Seq::new(ks@.len(), |i: int| ks@[i]@)),
        r is None ==> object_keys(*v) is None,
{
    match v {
        DocValue::Object(entries) => {
            let mut ks: Vec<String> = Vec::new();
            let mut i: usize = 0;
            while i < entries.len()
                invariant
                    i <= entries@.len(),
                    ks@.len() == i,
                    forall|j: int| 0 <= j < i ==> ks@[j]@ == entries@[j].0@,
                decreases entries@.len() - i,
            {
                ks.push(entries[i].0.clone());
                i += 1;
            }
            proof {
                assert(Seq::new(ks@.len(), |i: int| ks@[i]@) =~= Seq::new(
                    entries@.len(),
                    |i: int| entries@[i].0@,
                ));
            }
            Some(ks)
        },
        _ => None,
    }
}

/// `get(key)` then `as_str`, as an owned string.
pub fn get_str_exec(v: &DocValue, key: &str) -> (r: Option<String>)
    ensures
        r matches Some(s) ==> get_str(*v, key@) == Some(s@),
        r is None ==> get_str(*v, key@) is None,
{
    match get_field(v, key) {
        Some(x) => match str_of(x) {
            Some(s) => Some(s.clone()),
            None => None,
        },
        None => None,
    }
}

/// `get(key)` then the keys of that object.
pub fn get_keys_exec(v: &DocValue, key: &str) -> (r: Option<Vec<String>>)
    ensures
        r matches Some(ks) ==> get_keys(*v, key@) == Some(Seq::new(ks@.len(), |i: int| ks@[i]@)),
        r is None ==> get_keys(*v, key@) is None,
{
    match get_field(v, key) {
        Some(x) => keys_of(x),
        None => None,
    }
}

} // verus!
