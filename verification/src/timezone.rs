//! The two timezone lookups the booking-query validation needs, answered by
//! the IANA timezone database compiled into chrono-tz.

use chrono::Datelike;
use chrono::TimeZone;
use vstd::prelude::*;

verus! {

/// Whether the IANA timezone database knows a timezone of this name.
pub uninterp spec fn is_iana_timezone(name: Seq<char>) -> bool;

/// The epoch milliseconds of local midnight of the given calendar day in
/// the named timezone; nothing when the name is unknown or that day has no
/// unique usable midnight.
pub uninterp spec fn local_midnight_millis(name: Seq<char>, y: int, m: int, d: int) -> Option<i64>;

/// Relies on chrono_tz::Tz::from_str (through str::parse): whether a name
/// is in the timezone database depends on the name alone, over the table
/// compiled into the crate.
#[verifier::external_body]
pub fn timezone_exists(name: &str) -> (r: bool)
    ensures
        r == is_iana_timezone(name@),
{
    name.parse::<chrono_tz::Tz>().is_ok()
}

/// Relies on chrono_tz::Tz::from_str, chrono's TimeZone::with_ymd_and_hms
/// and DateTime::timestamp_millis: the timestamp of a day's local midnight
/// depends on the name and the date alone, over the compiled-in database.
/// An unknown name yields nothing; a midnight that a daylight-saving jump
/// removes yields nothing; of an ambiguous midnight the earlier one is
/// taken.
#[verifier::external_body]
pub fn resolve_local_midnight(name: &str, year: i32, month: u32, day: u32) -> (r: Option<i64>)
    ensures
        r == local_midnight_millis(name@, year as int, month as int, day as int),
        !is_iana_timezone(name@) ==> r is None,
{
    let tz: chrono_tz::Tz = match name.parse() {
        Ok(tz) => tz,
        Err(_) => return None,
    };
    match tz.with_ymd_and_hms(year, month, day, 0, 0, 0) {
        chrono::LocalResult::Single(dt) => Some(dt.timestamp_millis()),
        chrono::LocalResult::Ambiguous(dt, _) => Some(dt.timestamp_millis()),
        chrono::LocalResult::None => None,
    }
}

/// The local calendar date (year, month, day) that a timestamp falls on in
/// the named timezone; nothing when the name is unknown.
pub uninterp spec fn local_civil_date(name: Seq<char>, ts: i64) -> Option<(i32, u32, u32)>;

/// Relies on chrono_tz::Tz::from_str and chrono's TimeZone::timestamp_millis_opt
/// with Datelike::year/month/day: the local date of a timestamp depends on
/// the name and the timestamp alone, over the compiled-in database; chrono
/// keeps months in 1..=12 and days in 1..=31.
#[verifier::external_body]
pub fn resolve_local_date(name: &str, ts: i64) -> (r: Option<(i32, u32, u32)>)
    ensures
        r == local_civil_date(name@, ts),
        r matches Some(t) ==> 1 <= t.1 <= 12 && 1 <= t.2 <= 31,
{
    let tz: chrono_tz::Tz = match name.parse() {
        Ok(tz) => tz,
        Err(_) => return None,
    };
    match tz.timestamp_millis_opt(ts) {
        chrono::LocalResult::Single(dt) => Some((dt.year(), dt.month(), dt.day())),
        chrono::LocalResult::Ambiguous(dt, _) => Some((dt.year(), dt.month(), dt.day())),
        chrono::LocalResult::None => None,
    }
}

} // verus!
