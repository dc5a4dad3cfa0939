//! Reading the remote response body: a JSON array of objects, each carrying
//! a string field "phrase". Any other shape counts as a parse failure and
//! degrades to an empty suggestion set.

use vstd::prelude::*;
use crate::suggest::{titles, is_fetch_result, suggestions};

verus! {

/// The phrases held under "phrase" by a body that is a JSON array of
/// objects each carrying that string field, in order; `None` where the body
/// does not have that shape. A pure function of the body's characters.
pub uninterp spec fn parsed_phrases(body: Seq<char>) -> Option<Seq<Seq<char>>>;

/// Relies on serde_json::from_str (deserializing to a vector of JSON
/// objects), serde_json::Map::get and serde_json::Value: whether the body is
/// an array of objects, and which string each object holds under "phrase",
/// depend on the body's characters alone. Fields other than "phrase" are
/// ignored; an element without a string "phrase" fails the whole parse.
#[verifier::external_body]
fn parse_phrases(body: &str) -> (r: Option<Vec<String>>)
    ensures
        match r {
            Some(v) => parsed_phrases(body@) == Some(titles(v@)),
            None => parsed_phrases(body@) is None,
        },
{
    let records: Vec<serde_json::Map<String, serde_json::Value>> =
        match serde_json::from_str(body) {
            Ok(v) => v,
            Err(_) => return None,
        };
    let mut phrases: Vec<String> = Vec::new();
    for record in records.iter() {
        match record.get("phrase") {
            Some(serde_json::Value::String(s)) => phrases.push(s.clone()),
            _ => return None,
        }
    }
    Some(phrases)
}

/// What an optional response body offers: `None` both for a transport
/// failure and for a body of the wrong shape.
pub open spec fn body_titles(body: Option<&str>) -> Option<Seq<Seq<char>>> {
    match body {
        Some(b) => parsed_phrases(b@),
        None => None,
    }
}

/// The pipeline from the raw transport outcome: `None` stands for a
/// transport failure, `Some` carries the body that came back.
pub fn suggestions_from_body(query: &str, body: Option<&str>, always_include_query: bool) -> (r:
    Vec<String>)
    ensures
        is_fetch_result(query@, body_titles(body), always_include_query, titles(r@)),
{
    let parsed = match body {
        Some(b) => parse_phrases(b),
        None => None,
    };
    suggestions(query, parsed, always_include_query)
}

} // verus!
