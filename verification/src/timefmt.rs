//! Timestamp text handling, resting on chrono.
//!
//! An instant is carried as a pair of epoch milliseconds and a UTC-offset in
//! seconds. Parsing and formatting are chrono's; what they return is named by
//! uninterpreted spec functions, since the full text form takes pages to
//! state. chrono datetimes are bounded (about 262000 years away from the
//! common era at most), which bounds every instant these functions accept or
//! return; a chrono fixed offset is strictly between -86400 and 86400
//! seconds.

use vstd::prelude::*;
use chrono::Datelike;
use crate::errors::SyncError;

verus! {

/// The lowest epoch-millisecond value a parsed chrono datetime can read
/// back as a UTC instant (one day below the first constructible
/// midnight, reached through a positive offset).
pub const MIN_INSTANT_MS: i64 = -8334601315200000;

/// The highest epoch-millisecond value `from_timestamp_millis` accepts
/// (the last millisecond of chrono's highest year).
pub const MAX_INSTANT_MS: i64 = 8210266876799999;

/// The highest epoch-millisecond value a parsed datetime can read back:
/// a leap second at the end of chrono's highest day can exceed the
/// ordinary maximum by up to two seconds.
pub const MAX_PARSED_MS: i64 = 8210266876802000;

/// The lowest epoch-millisecond value `from_timestamp_millis` accepts.
/// Parsing can reach one day lower than this (a positive offset at the
/// calendar's first day subtracts toward UTC), so the constructible
/// minimum sits one day above the parseable one.
pub const MIN_FORMAT_MS: i64 = -8334601228800000;

/// A bound on plausible wall-clock readings: the engine accepts clock
/// instants from 1970 up to roughly the year 9890, which keeps every
/// derived date within the four-digit-year range.
pub const MAX_CLOCK_MS: i64 = 250000000000000;

/// What RFC 3339 parsing yields on a text: the instant in epoch milliseconds
/// and the UTC-offset in seconds, or nothing if the text is not a valid
/// RFC 3339 date-and-time.
pub uninterp spec fn rfc3339_instant_of(s: Seq<char>) -> Option<(int, int)>;

/// What parsing the remote wire format `YYYY-MM-DDTHH:mm:ss.SSS±HHMM` yields
/// on a text: the instant in epoch milliseconds and the UTC-offset in
/// seconds, or nothing.
pub uninterp spec fn wire_instant_of(s: Seq<char>) -> Option<(int, int)>;

/// The remote wire format text of an instant with an offset.
pub uninterp spec fn wire_text_of(epoch_ms: int, offset_secs: int) -> Seq<char>;

/// The RFC 3339 text of an instant taken as UTC.
pub uninterp spec fn utc_rfc3339_of(epoch_ms: int) -> Seq<char>;

/// Relies on chrono's `DateTime::parse_from_rfc3339`: the parsed instant and
/// offset depend on the text alone, and every chrono datetime and fixed
/// offset lies within the stated bounds.
#[verifier::external_body]
pub fn parse_rfc3339_ms(s: &str) -> (r: Option<(i64, i32)>)
    ensures
        r is Some <==> rfc3339_instant_of(s@) is Some,
        r matches Some(p) ==> rfc3339_instant_of(s@) == Some((p.0 as int, p.1 as int)),
        r matches Some(p) ==> MIN_INSTANT_MS <= p.0 <= MAX_PARSED_MS,
        r matches Some(p) ==> -86400 < p.1 < 86400,
{
    match chrono::DateTime::parse_from_rfc3339(s) {
        Ok(dt) => Some((dt.timestamp_millis(), dt.offset().local_minus_utc())),
        Err(_) => None,
    }
}

/// Relies on chrono's `DateTime::parse_from_str` with the fixed wire format
/// `%Y-%m-%dT%H:%M:%S%.3f%z`: the parsed instant and offset depend on the
/// text alone, within the same chrono bounds.
#[verifier::external_body]
pub fn parse_wire_ms(s: &str) -> (r: Option<(i64, i32)>)
    ensures
        r is Some <==> wire_instant_of(s@) is Some,
        r matches Some(p) ==> wire_instant_of(s@) == Some((p.0 as int, p.1 as int)),
        r matches Some(p) ==> MIN_INSTANT_MS <= p.0 <= MAX_PARSED_MS,
        r matches Some(p) ==> -86400 < p.1 < 86400,
{
    match chrono::DateTime::parse_from_str(s, "%Y-%m-%dT%H:%M:%S%.3f%z") {
        Ok(dt) => Some((dt.timestamp_millis(), dt.offset().local_minus_utc())),
        Err(_) => None,
    }
}

/// Relies on chrono's strftime formatting with `%Y-%m-%dT%H:%M:%S%.3f%z`:
/// the text depends on the instant and offset alone.
#[verifier::external_body]
pub fn format_wire(epoch_ms: i64, offset_secs: i32) -> (r: String)
    requires
        MIN_FORMAT_MS <= epoch_ms <= MAX_INSTANT_MS,
        -86400 < offset_secs < 86400,
    ensures
        r@ == wire_text_of(epoch_ms as int, offset_secs as int),
{
    let off = chrono::FixedOffset::east_opt(offset_secs).unwrap();
    let dt = chrono::DateTime::from_timestamp_millis(epoch_ms).unwrap().with_timezone(&off);
    dt.format("%Y-%m-%dT%H:%M:%S%.3f%z").to_string()
}

/// Relies on chrono's `DateTime::to_rfc3339` on a UTC datetime: the text
/// depends on the instant alone. For an instant whose year has four
/// digits — every plausible clock reading — `parse_from_rfc3339` reads
/// the same instant back with a zero offset; outside that range the
/// writer pads the year with a sign, which the parser does not take.
#[verifier::external_body]
pub fn utc_rfc3339(epoch_ms: i64) -> (r: String)
    requires
        MIN_FORMAT_MS <= epoch_ms <= MAX_INSTANT_MS,
    ensures
        r@ == utc_rfc3339_of(epoch_ms as int),
        0 <= epoch_ms <= MAX_CLOCK_MS ==> rfc3339_instant_of(r@) == Some((epoch_ms as int, 0int)),
{
    let dt = chrono::DateTime::from_timestamp_millis(epoch_ms).unwrap();
    dt.to_rfc3339()
}

/// Relies on chrono's `DateTime::to_rfc3339` after `with_timezone(&Local)`:
/// the offset in the text depends on this machine's timezone, but the
/// instant read back by `parse_from_rfc3339` is the one given. The clock
/// range keeps the rendered local year at four digits, which the parser
/// takes.
#[verifier::external_body]
pub fn local_rfc3339(epoch_ms: i64) -> (r: String)
    requires
        0 <= epoch_ms <= MAX_CLOCK_MS,
    ensures
        rfc3339_instant_of(r@) is Some,
        rfc3339_instant_of(r@) matches Some(p) ==> p.0 == epoch_ms as int,
{
    let dt = chrono::DateTime::from_timestamp_millis(epoch_ms).unwrap();
    dt.with_timezone(&chrono::Local).to_rfc3339()
}

/// Relies on chrono's `date_naive` after `with_timezone(&Local)`: the
/// calendar date of an instant in this machine's timezone. The date depends
/// on the timezone database and so is not a function of the instant alone;
/// all that is promised is a real calendar date, which the bounds on the
/// instant keep within the four-digit-year range.
#[verifier::external_body]
pub fn local_civil_date(epoch_ms: i64) -> (r: crate::dates::Date)
    requires
        0 <= epoch_ms <= MAX_CLOCK_MS,
    ensures
        r.valid(),
{
    let d = chrono::DateTime::from_timestamp_millis(epoch_ms)
        .unwrap()
        .with_timezone(&chrono::Local)
        .date_naive();
    crate::dates::Date { year: d.year(), month: d.month() as u8, day: d.day() as u8 }
}

/// The instant an RFC 3339 text denotes, where it parses and lies in the
/// range wire formatting can render (a leap second at the extreme end of
/// the calendar falls outside it).
pub open spec fn formattable_instant(s: Seq<char>) -> Option<(int, int)> {
    match rfc3339_instant_of(s) {
        Some(p) => if MIN_FORMAT_MS <= p.0 <= MAX_INSTANT_MS {
            Some(p)
        } else {
            None
        },
        None => None,
    }
}

/// Convert a stored RFC 3339 start instant into the remote wire format.
/// Returns `InvalidTimestamp` exactly when the text does not parse to a
/// renderable instant.
pub fn format_for_jira(date_str: &str) -> (r: Result<String, SyncError>)
    ensures
        formattable_instant(date_str@) matches Some(p) ==> r matches Ok(w) && w@ == wire_text_of(
            p.0,
            p.1,
        ),
        formattable_instant(date_str@) is None <==> r == Err::<String, SyncError>(
            SyncError::InvalidTimestamp,
        ),
{
    match parse_rfc3339_ms(date_str) {
        Some((ms, off)) => {
            if MIN_FORMAT_MS <= ms && ms <= MAX_INSTANT_MS {
                Ok(format_wire(ms, off))
            } else {
                Err(SyncError::InvalidTimestamp)
            }
        },
        None => Err(SyncError::InvalidTimestamp),
    }
}

} // verus!
