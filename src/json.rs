use vstd::prelude::*;

use crate::addr::ip_of;
use crate::utils::{
    acceptable, lemma_status_decides, status_outcome, status_verdict, ParseError, ParsingStatus,
};

verus! {

#[verifier::external_type_specification]
#[verifier::external_body]
pub struct ExValue(serde_json::Value);

#[verifier::external_type_specification]
#[verifier::external_body]
pub struct ExJsonError(serde_json::Error);

/// A JSON value as serde_json holds it: numbers are non-negative integers,
/// negative integers or floats (whose value is not modelled here); an object
/// maps each key to one value.
pub enum JsonTree {
    Null,
    Bool(bool),
    PosInt(u64),
    NegInt(i64),
    Float,
    Str(Seq<char>),
    Array(Seq<JsonTree>),
    Object(Map<Seq<char>, JsonTree>),
}

/// The document that serde_json reads from `text`; `None` where `text` is
/// not one well-formed JSON value.
pub uninterp spec fn json_document(text: Seq<char>) -> Option<JsonTree>;

/// What a `serde_json::Value` holds.
pub uninterp spec fn json_tree(v: serde_json::Value) -> JsonTree;

/// The member `key` of an object; `None` for a missing key or a value that
/// is no object.
pub open spec fn member_of(t: JsonTree, key: Seq<char>) -> Option<JsonTree> {
    match t {
        JsonTree::Object(m) => if m.contains_key(key) {
            Some(m[key])
        } else {
            None
        },
        _ => None,
    }
}

/// Relies on `serde_json::from_str`: reads `text` as one JSON document.
#[verifier::external_body]
fn parse_document(text: &str) -> (r: Result<serde_json::Value, serde_json::Error>)
    ensures
        match r {
            Ok(v) => json_document(text@) == Some(json_tree(v)),
            Err(_) => json_document(text@) is None,
        },
{
    serde_json::from_str(text)
}

/// Relies on `serde_json::Value::get` with a string key: the member of an
/// object, `None` for a missing key or a value that is no object.
#[verifier::external_body]
fn member<'v>(v: &'v serde_json::Value, key: &str) -> (r: Option<&'v serde_json::Value>)
    ensures
        match r {
            Some(m) => member_of(json_tree(*v), key@) == Some(json_tree(*m)),
            None => member_of(json_tree(*v), key@) is None,
        },
{
    v.get(key)
}

/// Relies on `serde_json::Value::as_str`: the text of a string value.
#[verifier::external_body]
fn string_value(v: &serde_json::Value) -> (r: Option<&str>)
    ensures
        match r {
            Some(s) => json_tree(*v) == JsonTree::Str(s@),
            None => !(json_tree(*v) is Str),
        },
{
    v.as_str()
}

/// Relies on `serde_json::Value::as_u64`: a non-negative integer value.
#[verifier::external_body]
fn unsigned_value(v: &serde_json::Value) -> (r: Option<u64>)
    ensures
        match r {
            Some(n) => json_tree(*v) == JsonTree::PosInt(n),
            None => !(json_tree(*v) is PosInt),
        },
{
    v.as_u64()
}

/// The string at `request.remote_ip` of a document.
pub open spec fn remote_ip_of(d: JsonTree) -> Option<Seq<char>> {
    match member_of(d, "request"@) {
        Some(r) => match member_of(r, "remote_ip"@) {
            Some(JsonTree::Str(s)) => Some(s),
            _ => None,
        },
        None => None,
    }
}

/// The non-negative integer at `status` of a document.
pub open spec fn status_of(d: JsonTree) -> Option<int> {
    match member_of(d, "status"@) {
        Some(JsonTree::PosInt(n)) => Some(n as int),
        _ => None,
    }
}

/// The verdict on a line of a JSON access log: a failure where it is no
/// JSON document; else as for any access log, with the address at
/// `request.remote_ip` and the status at `status`.
pub open spec fn json_outcome(line: Seq<char>, statuses: Seq<u32>) -> Result<
    ParsingStatus,
    ParseError,
> {
    match json_document(line) {
        Some(d) => status_outcome(remote_ip_of(d), status_of(d), statuses),
        None => Err(ParseError::Document),
    }
}

/// Classifies one line of a JSON access log: an offence by its
/// `request.remote_ip` where its `status` is not one of `valid_statuses`,
/// benign where it is.
pub fn parse(line: &str, valid_statuses: &[u32]) -> (r: Result<ParsingStatus, ParseError>)
    ensures
        r == json_outcome(line@, valid_statuses@),
{
    let doc = match parse_document(line) {
        Ok(d) => d,
        Err(_) => return Err(ParseError::Document),
    };
    let remote_ip: Option<&str> = match member(&doc, "request") {
        Some(request) => match member(request, "remote_ip") {
            Some(ip) => string_value(ip),
            None => None,
        },
        None => None,
    };
    let status: Option<u64> = match member(&doc, "status") {
        Some(s) => unsigned_value(s),
        None => None,
    };
    status_verdict(remote_ip, status, valid_statuses)
}


/// A JSON log line with a valid `request.remote_ip` and a `status`: benign
/// where the status is acceptable, else an offence by exactly that address.
pub proof fn lemma_json_status_decides(line: Seq<char>, statuses: Seq<u32>)
    requires
        json_document(line) is Some,
        remote_ip_of(json_document(line)->0) is Some,
        ip_of(remote_ip_of(json_document(line)->0)->0) is Some,
        status_of(json_document(line)->0) is Some,
    ensures
        ({
            let d = json_document(line)->0;
            let s = status_of(d)->0;
            let r = json_outcome(line, statuses);
            &&& acceptable(statuses, s) ==> r == Ok::<ParsingStatus, ParseError>(
                ParsingStatus::OkEntry,
            )
            &&& !acceptable(statuses, s) ==> r == Ok::<ParsingStatus, ParseError>(
                ParsingStatus::BadEntry(ip_of(remote_ip_of(d)->0)->0),
            )
        }),
{
    let d = json_document(line)->0;
    lemma_status_decides(remote_ip_of(d)->0, status_of(d)->0, statuses);
}

} // verus!
