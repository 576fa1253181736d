//! Calls into outside crates that the rest of the library relies on.
//!
//! Each function here is believed on its stated contract; its body only makes
//! the outside call and converts values.

use vstd::prelude::*;

verus! {

/// What parsing a discovery response body as a JSON array of strings yields:
/// the bytes of each string, in order, or nothing when the body is not such a
/// document. The result depends on the body text alone.
pub uninterp spec fn json_string_list(body: Seq<char>) -> Option<Seq<Seq<u8>>>;

/// The byte sequences a vector of byte vectors holds.
pub open spec fn bytes_view(v: Seq<Vec<u8>>) -> Seq<Seq<u8>> {
    v.map_values(|e: Vec<u8>| e@)
}

/// Relies on rand::random: draws a fresh value from the process's random
/// generator. Nothing is promised of the value.
#[verifier::external_body]
pub fn fresh_seed() -> u64 {
    rand::random()
}

/// Relies on serde_json::from_str::<Vec<String>>: parses the body as a JSON
/// array of strings and hands back the bytes of each element, or `None` when
/// the body is not such a document.
#[verifier::external_body]
pub fn parse_json_string_list(body: &str) -> (r: Option<Vec<Vec<u8>>>)
    ensures
        match r {
            Some(v) => json_string_list(body@) == Some(bytes_view(v@)),
            None => json_string_list(body@) is None,
        },
{
    match serde_json::from_str::<Vec<String>>(body) {
        Ok(v) => Some(v.into_iter().map(String::into_bytes).collect()),
        Err(_) => None,
    }
}

} // verus!
