//! Instants, as the `data-created` / `data-modified` / `data-valid-*`
//! attributes hold them. Reading and writing RFC 3339 text is done by the
//! `time` crate; the library keeps an instant as plain integers.
use vstd::prelude::*;
use time::format_description::well_known::Rfc3339;
use time::{Date, OffsetDateTime, UtcOffset};

verus! {

/// An instant together with the UTC offset it is written in.
#[derive(Debug, Clone, Copy, PartialEq, Eq, Structural)]
pub struct Timestamp {
    /// Seconds since 1970-01-01T00:00:00Z.
    pub unix_seconds: i64,
    /// Nanoseconds within the second.
    pub nanosecond: u32,
    /// Offset from UTC, in seconds.
    pub offset_seconds: i32,
}

/// What `OffsetDateTime::parse(s, &Rfc3339)` reads from a text, if anything.
pub uninterp spec fn rfc3339_parse(s: Seq<char>) -> Option<Timestamp>;

/// What `OffsetDateTime::format(&Rfc3339)` writes for an instant, if it can.
pub uninterp spec fn rfc3339_format(t: Timestamp) -> Option<Seq<char>>;

/// The UTC midnight of a `[year]-[month]-[day]` date, as `time::Date::parse`
/// reads it.
pub uninterp spec fn date_midnight_utc(s: Seq<char>) -> Option<Timestamp>;

/// The current time, from `OffsetDateTime::now_utc`. Only its offset is
/// stated: it is UTC.
#[verifier::external_body]
pub(crate) fn now_utc() -> (t: Timestamp)
    ensures
        t.offset_seconds == 0,
{
    let t = OffsetDateTime::now_utc();
    Timestamp {
        unix_seconds: t.unix_timestamp(),
        nanosecond: t.nanosecond(),
        offset_seconds: t.offset().whole_seconds(),
    }
}

/// `OffsetDateTime::parse(s, &Rfc3339)`; the result is the named parse.
#[verifier::external_body]
pub(crate) fn parse_rfc3339(s: &str) -> (r: Option<Timestamp>)
    ensures
        r == rfc3339_parse(s@),
{
    let t = OffsetDateTime::parse(s, &Rfc3339).ok()?;
    Some(
        Timestamp {
            unix_seconds: t.unix_timestamp(),
            nanosecond: t.nanosecond(),
            offset_seconds: t.offset().whole_seconds(),
        },
    )
}

/// `OffsetDateTime::format(&Rfc3339)` of the instant, in its own offset.
#[verifier::external_body]
pub(crate) fn format_rfc3339(t: &Timestamp) -> (r: Option<String>)
    ensures
        match r {
            Some(s) => rfc3339_format(*t) == Some(s@),
            None => rfc3339_format(*t) is None,
        },
{
    let offset = UtcOffset::from_whole_seconds(t.offset_seconds).ok()?;
    let utc = OffsetDateTime::from_unix_timestamp(t.unix_seconds).ok()?;
    let utc = utc.replace_nanosecond(t.nanosecond).ok()?;
    utc.checked_to_offset(offset)?.format(&Rfc3339).ok()
}

/// `time::Date::parse(s, "[year]-[month]-[day]")`, taken at midnight UTC.
#[verifier::external_body]
pub(crate) fn parse_date_only(s: &str) -> (r: Option<Timestamp>)
    ensures
        r == date_midnight_utc(s@),
{
    let format = time::format_description::parse("[year]-[month]-[day]").ok()?;
    let t = Date::parse(s, &format).ok()?.midnight().assume_utc();
    Some(
        Timestamp {
            unix_seconds: t.unix_timestamp(),
            nanosecond: t.nanosecond(),
            offset_seconds: t.offset().whole_seconds(),
        },
    )
}

/// The RFC 3339 text of an instant, or the empty text when it cannot be
/// written (`format(..).unwrap_or_default()`).
pub open spec fn rfc3339_text(t: Timestamp) -> Seq<char> {
    match rfc3339_format(t) {
        Some(s) => s,
        None => Seq::empty(),
    }
}

pub fn rfc3339_or_empty(t: &Timestamp) -> (r: String)
    ensures
        r@ == rfc3339_text(*t),
{
    match format_rfc3339(t) {
        Some(s) => s,
        None => String::new(),
    }
}

/// The instant is written as a non-empty RFC 3339 text that reads back as
/// the same instant.
pub open spec fn instant_round_trips(t: Timestamp) -> bool {
    rfc3339_format(t) matches Some(s) && s.len() > 0 && rfc3339_parse(s) == Some(t)
}

} // verus!
