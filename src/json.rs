//! JSON documents as plain values. Parsing is serde_json's; what the library
//! reads out of a document is its own.

use vstd::prelude::*;

verus! {

#[verifier::external_type_specification]
#[verifier::external_body]
pub struct ExJsonValue(serde_json::Value);

/// A JSON value. Numbers keep the text serde_json writes for them.
pub enum Json {
    Null,
    Bool(bool),
    Number(String),
    Str(String),
    Array(Vec<Json>),
    Object(Vec<JsonMember>),
}

/// One member of an object: its name, its value, and the compact JSON text of the value.
pub struct JsonMember {
    pub name: String,
    pub value: Json,
    pub text: String,
}

/// The document that a text parses to, if it is JSON.
pub uninterp spec fn json_document_of(text: Seq<char>) -> Option<Json>;

/// Relies on `serde_json::from_str::<serde_json::Value>`: whether a text is JSON, and what
/// document it holds, depends on the text alone. The error is serde_json's message.
#[verifier::external_body]
fn parse_json(text: &str) -> (r: Result<Json, String>)
    ensures
        r is Ok <==> json_document_of(text@) is Some,
        r matches Ok(doc) ==> json_document_of(text@) == Some(doc),
{
    match serde_json::from_str::<serde_json::Value>(text) {
        Ok(v) => Ok(json_of_value(&v)),
        Err(e) => Err(e.to_string()),
    }
}

/// Relies on the variants of `serde_json::Value` and on its `Display`, the compact JSON
/// text, for each object member; converts one for one.
#[verifier::external_body]
fn json_of_value(v: &serde_json::Value) -> Json {
    match v {
        serde_json::Value::Null => Json::Null,
        serde_json::Value::Bool(b) => Json::Bool(*b),
        serde_json::Value::Number(n) => Json::Number(n.to_string()),
        serde_json::Value::String(s) => Json::Str(s.clone()),
        serde_json::Value::Array(a) => Json::Array(a.iter().map(json_of_value).collect()),
        serde_json::Value::Object(m) => Json::Object(
            m.iter().map(|(k, x)| JsonMember { name: k.clone(), value: json_of_value(x), text: x.to_string() }).collect(),
        ),
    }
}

/// Parses a JSON text.
pub fn parse_document(text: &str) -> (r: Result<Json, String>)
    ensures
        r is Ok <==> json_document_of(text@) is Some,
        r matches Ok(doc) ==> json_document_of(text@) == Some(doc),
{
    parse_json(text)
}

/// The first member named `key` among `ms`.
pub open spec fn find_member(ms: Seq<JsonMember>, key: Seq<char>) -> Option<JsonMember>
    decreases ms.len(),
{
    if ms.len() == 0 {
        None
    } else if ms[0].name@ == key {
        Some(ms[0])
    } else {
        find_member(ms.drop_first(), key)
    }
}

/// The member `key` of an object; nothing for any other value.
pub open spec fn member(j: Json, key: Seq<char>) -> Option<JsonMember> {
    match j {
        Json::Object(ms) => find_member(ms@, key),
        _ => None,
    }
}

/// The string that member `key` holds, if it holds a string.
pub open spec fn str_member(j: Json, key: Seq<char>) -> Option<String> {
    match member(j, key) {
        Some(m) => match m.value {
            Json::Str(s) => Some(s),
            _ => None,
        },
        None => None,
    }
}

/// The JSON text of member `key`, whatever it holds.
pub open spec fn text_member(j: Json, key: Seq<char>) -> Option<String> {
    match member(j, key) {
        Some(m) => Some(m.text),
        None => None,
    }
}

/// Element `i` of an array; nothing for any other value.
pub open spec fn element(j: Json, i: int) -> Option<Json> {
    match j {
        Json::Array(a) => if 0 <= i < a@.len() {
            Some(a@[i])
        } else {
            None
        },
        _ => None,
    }
}

fn member_ref<'a>(j: &'a Json, key: &str) -> (r: Option<&'a JsonMember>)
    ensures
        match member(*j, key@) {
            Some(m) => r matches Some(x) && *x == m,
            None => r is None,
        },
{
    match j {
        Json::Object(ms) => {
            let mut i: usize = 0;
            assert(ms@.skip(0) =~= ms@);
            while i < ms.len()
                invariant
                    i <= ms@.len(),
                    member(*j, key@) == find_member(ms@, key@),
                    find_member(ms@, key@) == find_member(ms@.skip(i as int), key@),
                decreases ms@.len() - i,
            {
                assert(ms@.skip(i as int).drop_first() =~= ms@.skip(i + 1));
                let name = crate::text::chars_of(ms[i].name.as_str());
                assert(ms@.skip(i as int)[0] == ms@[i as int]);
                if crate::text::is_text(&name, key) {
                    assert(find_member(ms@.skip(i as int), key@) == Some(ms@[i as int]));
                    return Some(&ms[i]);
                }
                i = i + 1;
            }
            None
        },
        _ => None,
    }
}

/// `str_member` of `j`, copied out.
pub fn get_str(j: &Json, key: &str) -> (r: Option<String>)
    ensures
        r == str_member(*j, key@),
{
    match member_ref(j, key) {
        Some(m) => match &m.value {
            Json::Str(s) => Some(s.clone()),
            _ => None,
        },
        None => None,
    }
}

/// `text_member` of `j`, copied out.
pub fn get_text(j: &Json, key: &str) -> (r: Option<String>)
    ensures
        r == text_member(*j, key@),
{
    match member_ref(j, key) {
        Some(m) => Some(m.text.clone()),
        None => None,
    }
}

pub fn get_member<'a>(j: &'a Json, key: &str) -> (r: Option<&'a Json>)
    ensures
        match member(*j, key@) {
            Some(m) => r matches Some(x) && *x == m.value,
            None => r is None,
        },
{
    match member_ref(j, key) {
        Some(m) => Some(&m.value),
        None => None,
    }
}

pub fn get_element(j: &Json, i: usize) -> (r: Option<&Json>)
    ensures
        match element(*j, i as int) {
            Some(e) => r matches Some(x) && *x == e,
            None => r is None,
        },
{
    match j {
        Json::Array(a) => if i < a.len() {
            Some(&a[i])
        } else {
            None
        },
        _ => None,
    }
}

} // verus!
