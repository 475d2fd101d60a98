//! Trusted bindings to serde_json: the JSON value type and the handful of
//! calls the store and the module codecs are built on. A `Value` is opaque
//! here; what the library knows of one is expressed through named
//! observations (`json_object_fields`, `json_string_of`, ...), one name per
//! serde_json function, and every binding's contract speaks over those
//! names.

use vstd::prelude::*;

verus! {

#[verifier::external_type_specification]
#[verifier::external_body]
pub struct ExValue(serde_json::Value);

#[verifier::external_type_specification]
#[verifier::external_body]
pub struct ExError(serde_json::Error);

/// What `serde_json::from_str::<Value>` parses this text to: `None` when
/// the text is not a JSON document.
pub uninterp spec fn json_parse(text: Seq<char>) -> Option<serde_json::Value>;

/// What `serde_json::to_string` writes for this value.
pub uninterp spec fn json_text(v: serde_json::Value) -> Seq<char>;

/// What `Value::as_object` observes: the fields of a JSON object, in the
/// map's order; `None` for any other value.
pub uninterp spec fn json_object_fields(v: serde_json::Value) -> Option<
    Seq<(Seq<char>, serde_json::Value)>,
>;

/// What `Value::as_array` observes: the items of a JSON array, in order;
/// `None` for any other value.
pub uninterp spec fn json_array_elems(v: serde_json::Value) -> Option<Seq<serde_json::Value>>;

/// What `Value::as_str` observes: the text of a JSON string; `None` for any
/// other value.
pub uninterp spec fn json_string_of(v: serde_json::Value) -> Option<Seq<char>>;

/// What `Value::as_u64` observes: the value of a JSON unsigned integer;
/// `None` for any other value.
pub uninterp spec fn json_u64_of(v: serde_json::Value) -> Option<u64>;

/// The fields hold pairwise distinct keys.
pub open spec fn fields_unique(fields: Seq<(Seq<char>, serde_json::Value)>) -> bool {
    forall|i: int, j: int| 0 <= i < j < fields.len() ==> fields[i].0 != fields[j].0
}

/// Two field lists bind the same keys to the same values, each key once,
/// though possibly in different orders.
pub open spec fn fields_equivalent(
    a: Seq<(Seq<char>, serde_json::Value)>,
    b: Seq<(Seq<char>, serde_json::Value)>,
) -> bool {
    &&& a.len() == b.len()
    &&& fields_unique(a)
    &&& fields_unique(b)
    &&& forall|i: int| 0 <= i < a.len() ==> b.contains(#[trigger] a[i])
    &&& forall|i: int| 0 <= i < b.len() ==> a.contains(#[trigger] b[i])
}

/// Relies on serde_json::from_str::<Value>: parses one JSON document, or
/// reports why the text is not one.
#[verifier::external_body]
pub(crate) fn parse_value(text: &str) -> (r: Result<serde_json::Value, serde_json::Error>)
    ensures
        match r {
            Ok(v) => json_parse(text@) == Some(v),
            Err(_) => json_parse(text@) is None,
        },
{
    serde_json::from_str(text)
}

/// Relies on serde_json::to_string: serializes a JSON value. On a `Value`
/// this cannot fail (object keys are strings and `Value`'s `Serialize` is
/// total), and whenever the written text parses at all — the parser caps
/// nesting, so a deep enough value's text does not — it parses back to the
/// same value.
#[verifier::external_body]
pub(crate) fn value_to_text(v: &serde_json::Value) -> (r: Result<String, serde_json::Error>)
    ensures
        match r {
            Ok(t) => t@ == json_text(*v),
            Err(_) => false,
        },
        match r {
            Ok(t) => json_parse(t@) is Some ==> json_parse(t@) == Some(*v),
            Err(_) => false,
        },
{
    serde_json::to_string(v)
}

/// Relies on Value::as_object: the fields of a JSON object, in the map's
/// order. Keys of a serde_json object map are unique.
#[verifier::external_body]
pub(crate) fn object_entries(v: &serde_json::Value) -> (r: Option<
    Vec<(String, serde_json::Value)>,
>)
    ensures
        match r {
            Some(entries) => json_object_fields(*v) matches Some(fields) && fields.len()
                == entries@.len() && (forall|i: int|
                0 <= i < fields.len() ==> fields[i] == (entries@[i].0@, entries@[i].1))
                && fields_unique(fields),
            None => json_object_fields(*v) is None,
        },
{
    v.as_object().map(|m| m.iter().map(|(k, val)| (k.clone(), val.clone())).collect())
}

/// Relies on Value::as_array: the items of a JSON array, in order.
#[verifier::external_body]
pub(crate) fn array_items(v: &serde_json::Value) -> (r: Option<Vec<serde_json::Value>>)
    ensures
        match r {
            Some(items) => json_array_elems(*v) == Some(items@),
            None => json_array_elems(*v) is None,
        },
{
    v.as_array().map(|items| items.clone())
}

/// Relies on Value::as_str: the text of a JSON string.
#[verifier::external_body]
pub(crate) fn value_as_string(v: &serde_json::Value) -> (r: Option<String>)
    ensures
        match r {
            Some(s) => json_string_of(*v) == Some(s@),
            None => json_string_of(*v) is None,
        },
{
    v.as_str().map(|s| s.to_owned())
}

/// Relies on Value::as_u64: the value of a JSON unsigned integer.
#[verifier::external_body]
pub(crate) fn value_as_u64(v: &serde_json::Value) -> (r: Option<u64>)
    ensures
        r == json_u64_of(*v),
{
    v.as_u64()
}

/// Relies on Value::from for strings: builds a JSON string, which
/// `as_str` observes back.
#[verifier::external_body]
pub(crate) fn string_value(s: &str) -> (r: serde_json::Value)
    ensures
        json_string_of(r) == Some(s@),
{
    serde_json::Value::from(s)
}

/// Relies on Value::from for unsigned integers: builds a JSON number,
/// which `as_u64` observes back.
#[verifier::external_body]
pub(crate) fn u64_value(n: u64) -> (r: serde_json::Value)
    ensures
        json_u64_of(r) == Some(n),
{
    serde_json::Value::from(n)
}

/// Relies on Value::Array: builds a JSON array of exactly the items, which
/// `as_array` observes back.
#[verifier::external_body]
pub(crate) fn array_value(items: Vec<serde_json::Value>) -> (r: serde_json::Value)
    ensures
        json_array_elems(r) == Some(items@),
{
    serde_json::Value::Array(items)
}

/// Relies on Value::Object and the map's FromIterator: builds a JSON object
/// of the fields. The map is ordered by key, so with unique keys `as_object`
/// observes the same bindings back, possibly reordered; a repeated key would
/// keep the later value.
#[verifier::external_body]
pub(crate) fn object_value(entries: Vec<(String, serde_json::Value)>) -> (r: serde_json::Value)
    ensures
        match json_object_fields(r) {
            Some(fields) => (forall|i: int, j: int|
                0 <= i < j < entries@.len() ==> entries@[i].0@ != entries@[j].0@)
                ==> fields_equivalent(
                fields,
                Seq::new(entries@.len(), |i: int| (entries@[i].0@, entries@[i].1)),
            ),
            None => false,
        },
{
    serde_json::Value::Object(entries.into_iter().collect())
}

/// Relies on Value::clone: a deep copy, equal to the value cloned.
#[verifier::external_body]
pub(crate) fn clone_value(v: &serde_json::Value) -> (r: serde_json::Value)
    ensures
        r == *v,
{
    v.clone()
}

} // verus!
