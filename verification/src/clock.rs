//! Evidence file names: the RFC 3339 text of an infraction's timestamp,
//! taken from the calendar arithmetic of an outside crate.

use vstd::prelude::*;

verus! {

/// The RFC 3339 rendering (UTC offset) of a millisecond Unix timestamp.
/// The text depends on the timestamp alone.
pub uninterp spec fn rfc3339_of(ms: i64) -> Seq<u8>;

/// Relies on chrono's `DateTime::from_timestamp_millis` and `to_rfc3339`:
/// the rendering is a pure function of the timestamp, and a timestamp
/// within chrono's documented calendar range (about 262,000 years around
/// the epoch; far beyond any value the clock hands us) renders
/// successfully.
#[verifier::external_body]
fn rfc3339_utc_ms(ms: i64) -> (r: Option<Vec<u8>>)
    ensures
        match r {
            Option::Some(s) => s@ == rfc3339_of(ms),
            Option::None => true,
        },
        -4_000_000_000_000_000 <= ms <= 4_000_000_000_000_000 ==> r is Some,
{
    chrono::DateTime::from_timestamp_millis(ms).map(|d| d.to_rfc3339().into_bytes())
}

/// The basename of an infraction's evidence pair: the RFC 3339 text of its
/// timestamp. `None` only for timestamps outside the calendar's range.
pub fn infraction_base_name(datetime_taken_ms: i64) -> (r: Option<Vec<u8>>)
    ensures
        match r {
            Option::Some(s) => s@ == rfc3339_of(datetime_taken_ms),
            Option::None => true,
        },
        -4_000_000_000_000_000 <= datetime_taken_ms <= 4_000_000_000_000_000 ==> r is Some,
{
    rfc3339_utc_ms(datetime_taken_ms)
}

} // verus!
