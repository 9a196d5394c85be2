//! Calendar facts obtained from the `time` crate: RFC 3339 parsing and UTC civil fields.
use vstd::prelude::*;

verus! {

/// The instant `time::OffsetDateTime::parse(text, &Rfc3339)` yields for this text, as
/// Unix seconds and nanoseconds; None when the text is rejected.
pub uninterp spec fn rfc3339_instant(text: Seq<char>) -> Option<(i64, u32)>;

/// The UTC civil fields (year, month, day, hour, minute, second) that
/// `time::OffsetDateTime::from_unix_timestamp` yields; None outside its supported range.
pub uninterp spec fn utc_fields(seconds: i64) -> Option<(i32, u8, u8, u8, u8, u8)>;

/// Calls `time::OffsetDateTime::parse` with the RFC 3339 format and keeps the Unix
/// timestamp and the nanosecond. Trusted: the result is the crate's parse of the text
/// alone, `nanosecond()` is documented to lie in `0..1_000_000_000`, and the crate's
/// dates lie in the years -9999..=9999, so the timestamp lies within 10^12 seconds
/// of the epoch.
#[verifier::external_body]
pub(crate) fn parse_rfc3339(text: &str) -> (result: Option<(i64, u32)>)
    ensures
        result == rfc3339_instant(text@),
        result matches Some((_, nanos)) ==> nanos < 1_000_000_000,
        result matches Some((seconds, _)) ==> -1_000_000_000_000 <= seconds <= 1_000_000_000_000,
{
    match time::OffsetDateTime::parse(text, &time::format_description::well_known::Rfc3339) {
        Ok(value) => Some((value.unix_timestamp(), value.nanosecond())),
        Err(_) => None,
    }
}

/// Calls `time::OffsetDateTime::from_unix_timestamp` and reads the UTC civil fields.
/// Trusted: the fields depend on the timestamp alone; the crate's source bounds month
/// to 1..=12, day to 1..=31, hour to 0..24, minute and second to 0..60, and the year to
/// its supported range of -9999..=9999.
#[verifier::external_body]
pub(crate) fn civil_utc(seconds: i64) -> (result: Option<(i32, u8, u8, u8, u8, u8)>)
    ensures
        result == utc_fields(seconds),
        result matches Some((year, month, day, hour, minute, second)) ==> {
            &&& -9999 <= year <= 9999
            &&& 1 <= month <= 12
            &&& 1 <= day <= 31
            &&& hour < 24
            &&& minute < 60
            &&& second < 60
        },
{
    match time::OffsetDateTime::from_unix_timestamp(seconds) {
        Ok(value) => Some((value.year(), u8::from(value.month()), value.day(), value.hour(), value.minute(), value.second())),
        Err(_) => None,
    }
}

} // verus!
