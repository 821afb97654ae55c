//! The library's own representation of a decoded metadata document, and
//! the trusted boundary to the outside JSON decoder.

use vstd::prelude::*;

verus! {

/// A structured document node. The registry's validator reads these;
/// numbers are kept only as their textual form, since no rule reads one.
pub enum Json {
    Null,
    Bool(bool),
    Num(String),
    Str(String),
    Arr(Vec<Json>),
    Obj(Vec<(String, Json)>),
}

/// The document a blob of text denotes, or `None` when the text is not a
/// well-formed document. Named, not stated: what the outside decoder
/// accepts takes pages to write down, and depends on the text alone.
pub uninterp spec fn json_doc_of(s: Seq<char>) -> Option<Json>;

#[verifier::external_type_specification]
#[verifier::external_body]
pub struct ExJsonValue(serde_json::Value);

/// Relies on serde_json::Value: each document node is mapped, one variant
/// arm each, into the library's own representation, moving the fields.
#[verifier::external_body]
fn from_outside_value(v: serde_json::Value) -> Json {
    match v {
        serde_json::Value::Null => Json::Null,
        serde_json::Value::Bool(b) => Json::Bool(b),
        serde_json::Value::Number(n) => Json::Num(n.to_string()),
        serde_json::Value::String(s) => Json::Str(s),
        serde_json::Value::Array(a) => Json::Arr(a.into_iter().map(from_outside_value).collect()),
        serde_json::Value::Object(m) => Json::Obj(
            m.into_iter().map(|(k, val)| (k, from_outside_value(val))).collect(),
        ),
    }
}

/// Relies on serde_json::from_str: whether a blob is well-formed JSON and
/// which document it denotes depend on the blob's text alone.
#[verifier::external_body]
pub fn parse_json_text(s: &str) -> (r: Option<Json>)
    ensures
        r == json_doc_of(s@),
{
    match serde_json::from_str::<serde_json::Value>(s) {
        Ok(v) => Some(from_outside_value(v)),
        Err(_) => None,
    }
}

/// First binding of `key` among an object's fields.
pub open spec fn obj_lookup(fields: Seq<(String, Json)>, key: Seq<char>) -> Option<Json>
    decreases fields.len(),
{
    if fields.len() == 0 {
        None
    } else if fields[0].0@ == key {
        Some(fields[0].1)
    } else {
        obj_lookup(fields.drop_first(), key)
    }
}

/// Looking a key up in a node: a binding only when the node is an object
/// that carries the key.
pub open spec fn json_get(j: Json, key: Seq<char>) -> Option<Json> {
    match j {
        Json::Obj(fields) => obj_lookup(fields@, key),
        _ => None,
    }
}

/// The text of a node, only when the node is a string.
pub open spec fn json_str_of(j: Json) -> Option<Seq<char>> {
    match j {
        Json::Str(s) => Some(s@),
        _ => None,
    }
}

/// The text bound to `key`, only when the node is an object carrying the
/// key and the bound value is a string.
pub open spec fn str_field(j: Json, key: Seq<char>) -> Option<Seq<char>> {
    match json_get(j, key) {
        Some(v) => json_str_of(v),
        None => None,
    }
}

/// First binding of `key` among an object's fields, by linear scan.
fn lookup_in_fields<'a>(fields: &'a Vec<(String, Json)>, key: &String) -> (r: Option<&'a Json>)
    ensures
        match r {
            Some(v) => obj_lookup(fields@, key@) == Some(*v),
            None => obj_lookup(fields@, key@) is None,
        },
{
    let n = fields.len();
    let mut i: usize = 0;
    proof {
        assert(fields@.skip(0) =~= fields@);
    }
    while i < n
        invariant
            i <= n,
            n == fields@.len(),
            obj_lookup(fields@, key@) == obj_lookup(fields@.skip(i as int), key@),
        decreases n - i,
    {
        proof {
            assert(fields@.skip(i as int)[0] == fields@[i as int]);
            assert(fields@.skip(i as int).drop_first() =~= fields@.skip(i as int + 1));
        }
        let pair = &fields[i];
        if pair.0 == *key {
            proof {
                assert(obj_lookup(fields@.skip(i as int), key@) == Some(fields@[i as int].1));
            }
            return Some(&pair.1);
        }
        i = i + 1;
    }
    proof {
        assert(fields@.skip(n as int) =~= Seq::<(String, Json)>::empty());
    }
    None
}

/// Looks `key` up in a node, as the outside decoder's own lookup does:
/// a binding only on an object that carries the key.
pub fn get_field<'a>(j: &'a Json, key: &String) -> (r: Option<&'a Json>)
    ensures
        match r {
            Some(v) => json_get(*j, key@) == Some(*v),
            None => json_get(*j, key@) is None,
        },
{
    match j {
        Json::Obj(fields) => lookup_in_fields(fields, key),
        _ => None,
    }
}

/// The text bound to `key` in a node, cloned out; `None` when the key is
/// absent or bound to something other than a string.
pub fn get_str_field(j: &Json, key: &String) -> (r: Option<String>)
    ensures
        crate::records::opt_text(r) == str_field(*j, key@),
{
    match get_field(j, key) {
        Some(v) => match v {
            Json::Str(s) => Some(s.clone()),
            _ => None,
        },
        None => None,
    }
}

} // verus!
