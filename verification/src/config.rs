//! Reading the service's secrets: blank values count as missing, and the Keepa key may come
//! from a JSON key file.

use vstd::prelude::*;
use crate::text::{chars_of, string_of, trim_chars, trim_spec};

verus! {

/// What serde_json gives for `text` read as a JSON document: the string value of the member
/// `key` of its top-level object; `None` when the text is no JSON, is no object, lacks the
/// member, or the member is no string.
pub uninterp spec fn json_string_member(text: Seq<char>, key: Seq<char>) -> Option<Seq<char>>;

/// Calls `serde_json::from_str` into `serde_json::Value`, then `Value::get` with a string key
/// and `Value::as_str`. Trusted: the result is the string member `key` of the top-level object
/// of `text`, a function of the two texts alone; JSON syntax is left to the name.
#[verifier::external_body]
fn json_top_string_member(text: &str, key: &str) -> (r: Option<String>)
    ensures
        r matches Some(s) ==> json_string_member(text@, key@) == Some(s@),
        r is None ==> json_string_member(text@, key@) is None,
{
    let value: serde_json::Value = serde_json::from_str(text).ok()?;
    value.get(key).and_then(serde_json::Value::as_str).map(|s| s.to_string())
}

/// A configured secret: kept as it is unless it is empty once trimmed.
pub fn non_blank(value: Option<String>) -> (r: Option<String>)
    ensures
        r is Some <==> (value matches Some(v) && trim_spec(v@).len() > 0),
        r matches Some(x) ==> value matches Some(v) && x@ == v@,
{
    match value {
        Some(v) => {
            let cs = chars_of(v.as_str());
            let t = trim_chars(cs.as_slice());
            if t.len() == 0 {
                None
            } else {
                Some(v)
            }
        },
        None => None,
    }
}

/// The Keepa key held by a key file: its top-level string member `KEEPA_API_KEY`, trimmed,
/// unless that is empty.
pub fn keepa_key_from_file(contents: &str) -> (r: Option<String>)
    ensures
        match json_string_member(contents@, "KEEPA_API_KEY"@) {
            Some(m) => if trim_spec(m).len() > 0 {
                r matches Some(x) && x@ == trim_spec(m)
            } else {
                r is None
            },
            None => r is None,
        },
{
    match json_top_string_member(contents, "KEEPA_API_KEY") {
        Some(m) => {
            let cs = chars_of(m.as_str());
            let t = trim_chars(cs.as_slice());
            if t.len() == 0 {
                None
            } else {
                Some(string_of(t.as_slice()))
            }
        },
        None => None,
    }
}

} // verus!
