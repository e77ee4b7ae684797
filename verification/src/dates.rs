//! RFC 3339 date text, read and written through the store driver's bson
//! `DateTime`.  The library holds instants as milliseconds since the Unix
//! epoch; only the text forms are entrusted to the outside parser.
use vstd::prelude::*;

verus! {

/// The instant an RFC 3339 text names, truncated to milliseconds since the
/// Unix epoch; `None` where the text does not parse.
pub uninterp spec fn rfc3339_millis_of(s: Seq<char>) -> Option<i64>;

/// Relies on bson's `DateTime::parse_rfc3339_str` (the `time` crate's RFC
/// 3339 parser underneath): the outcome is a function of the text alone.
#[verifier::external_body]
pub(crate) fn parse_rfc3339(s: &str) -> (r: Option<i64>)
    ensures
        r == rfc3339_millis_of(s@),
{
    match mongodb::bson::DateTime::parse_rfc3339_str(s) {
        Ok(d) => Some(d.timestamp_millis()),
        Err(_) => None,
    }
}

/// The RFC 3339 rendering of a millisecond timestamp; `None` for instants
/// the format cannot carry.
pub uninterp spec fn rfc3339_text_of(ms: i64) -> Option<Seq<char>>;

/// Relies on bson's `DateTime::from_millis` and `try_to_rfc3339_string`:
/// the rendering is a function of the millisecond timestamp alone.
#[verifier::external_body]
pub(crate) fn format_rfc3339(ms: i64) -> (r: Option<String>)
    ensures
        match r {
            Some(s) => rfc3339_text_of(ms) == Some(s@),
            None => rfc3339_text_of(ms) is None,
        },
{
    match mongodb::bson::DateTime::from_millis(ms).try_to_rfc3339_string() {
        Ok(s) => Some(s),
        Err(_) => None,
    }
}

} // verus!
