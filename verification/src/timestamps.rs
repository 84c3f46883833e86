//! RFC 3339 timestamps, parsed by `chrono`.

use vstd::prelude::*;

verus! {

/// What `chrono` makes of an RFC 3339 date-time: its Unix time in seconds, or
/// the text of the parse error.
pub uninterp spec fn rfc3339_parse(s: Seq<char>) -> Result<i64, Seq<char>>;

/// Calls `chrono::DateTime::parse_from_rfc3339`, then `DateTime::timestamp` on
/// success or the error's `to_string` on failure. The result is named
/// [`rfc3339_parse`] of the text; which texts parse, to what instant, and the
/// wording of the errors are not restated here.
#[verifier::external_body]
pub(crate) fn parse_rfc3339(s: &str) -> (r: Result<i64, String>)
    ensures
        match r {
            Ok(t) => rfc3339_parse(s@) == Ok::<i64, Seq<char>>(t),
            Err(e) => rfc3339_parse(s@) == Err::<i64, Seq<char>>(e@),
        },
{
    chrono::DateTime::parse_from_rfc3339(s).map(|t| t.timestamp()).map_err(|e| e.to_string())
}

} // verus!
