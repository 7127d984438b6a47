//! Feed timestamps, held as plain calendar components.
//!
//! The feed publishes RFC 3339 date-times; notifications show them in
//! RFC 2822. Both conversions are the `time` crate's work and run behind
//! trusted wrappers; the library itself only carries the components.

use vstd::prelude::*;

verus! {

/// A parsed date-time: calendar components plus the UTC offset in
/// seconds.
#[derive(Clone, Copy, PartialEq, Eq, Structural, Debug)]
pub struct Timestamp {
    pub year: i32,
    pub month: u8,
    pub day: u8,
    pub hour: u8,
    pub minute: u8,
    pub second: u8,
    pub nanosecond: u32,
    pub offset_seconds: i32,
}

/// What `time` reads out of an RFC 3339 date-time text, or nothing when
/// the text does not parse.
pub uninterp spec fn rfc3339_of(text: Seq<char>) -> Option<Timestamp>;

/// What `time` writes for a timestamp in the RFC 2822 shape, or nothing
/// when the timestamp cannot be formatted.
pub uninterp spec fn rfc2822_of(ts: Timestamp) -> Option<Seq<char>>;

/// Relies on time::OffsetDateTime::parse with the RFC 3339 format, and
/// on its component accessors; the result is a function of the text
/// alone.
#[verifier::external_body]
pub(crate) fn parse_rfc3339(text: &str) -> (r: Option<Timestamp>)
    ensures
        r == rfc3339_of(text@),
{
    let odt = time::OffsetDateTime::parse(
        text,
        &time::format_description::well_known::Rfc3339,
    ).ok()?;
    Some(Timestamp {
        year: odt.year(),
        month: odt.month() as u8,
        day: odt.day(),
        hour: odt.hour(),
        minute: odt.minute(),
        second: odt.second(),
        nanosecond: odt.nanosecond(),
        offset_seconds: odt.offset().whole_seconds(),
    })
}

/// Relies on time::Date::from_calendar_date, with_hms_nano,
/// assume_offset and OffsetDateTime::format with the RFC 2822 format;
/// the result is a function of the components alone.
#[verifier::external_body]
pub(crate) fn format_rfc2822(ts: &Timestamp) -> (r: Option<String>)
    ensures
        (r is Some) == (rfc2822_of(*ts) is Some),
        r matches Some(s) ==> rfc2822_of(*ts) == Some(s@),
{
    let month = time::Month::try_from(ts.month).ok()?;
    let date = time::Date::from_calendar_date(ts.year, month, ts.day).ok()?;
    let dt = date.with_hms_nano(ts.hour, ts.minute, ts.second, ts.nanosecond).ok()?;
    let offset = time::UtcOffset::from_whole_seconds(ts.offset_seconds).ok()?;
    dt.assume_offset(offset).format(&time::format_description::well_known::Rfc2822).ok()
}

} // verus!
