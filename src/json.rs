//! Reading a pricing response with serde_json.

use vstd::prelude::*;
use serde_json::Value as JsonValue;
use crate::currency::{EntryView, RateEntry, ResponseFields, entries_view};

verus! {

/// What serde_json reads from a response body: `None` where it is not a
/// JSON document; else the `timestamp` member as an `i64` (where it is an
/// integer in range), and the members of the `rates` object (where there is
/// one), each code with its number's text (where the value is a number).
pub uninterp spec fn response_fields(body: Seq<char>) -> Option<(Option<i64>, Option<Seq<(Seq<char>, Option<Seq<char>>)>>)>;

pub open spec fn fields_view(r: Option<(Option<i64>, Option<Vec<RateEntry>>)>) -> ResponseFields {
    match r {
        None => None,
        Some(f) => Some(
            (
                f.0,
                match f.1 {
                    Some(es) => Some(entries_view(es@)),
                    None => None,
                },
            ),
        ),
    }
}

/// Relies on serde_json::from_str, Value::get, Value::as_i64,
/// Value::as_object, Map::iter, Value::as_number and the `Display` of
/// `Number`: the fields of `body` that `response_fields` names.
#[verifier::external_body]
pub(crate) fn read_response(body: &str) -> (r: Option<(Option<i64>, Option<Vec<RateEntry>>)>)
    ensures
        fields_view(r) == response_fields(body@),
{
    let doc: JsonValue = serde_json::from_str(body).ok()?;
    let timestamp = doc.get("timestamp").and_then(|t| t.as_i64());
    let rates = doc.get("rates").and_then(|v| v.as_object()).map(|m| {
        m.iter().map(|(code, v)| RateEntry { code: code.clone(), rate: v.as_number().map(|n| n.to_string()) }).collect()
    });
    Some((timestamp, rates))
}

} // verus!
