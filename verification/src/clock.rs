//! Wall-clock readings for the dispatcher: today's date text, the current
//! timestamp text, and the current time in seconds.
//!
//! A clock reading depends on the moment it is taken, so nothing beyond
//! shape is promised of the values; the dispatcher takes a [`Clock`] as an
//! argument and is verified for every possible reading.  A system clock
//! that reads before the Unix epoch is clamped to zero seconds, and one
//! beyond the representable calendar range falls back to the epoch texts;
//! neither aborts.

use vstd::prelude::*;

verus! {

/// One reading of the wall clock.
pub struct Clock {
    /// The current UTC date, as `year-month-day`.
    pub today: String,
    /// The current UTC time, as RFC 3339 text.
    pub now_text: String,
    /// Whole seconds since the Unix epoch, clamped to zero before it.
    pub now_secs: u64,
}

/// Relies on `std::time::SystemTime::now` and `duration_since` against
/// the Unix epoch: the current time in whole seconds since the epoch, or
/// `None` when the system clock reads before it.  Neither call panics:
/// the pre-epoch case comes back as `duration_since`'s error.
#[verifier::external_body]
fn unix_now_secs() -> (r: Option<u64>) {
    match std::time::SystemTime::now().duration_since(std::time::UNIX_EPOCH) {
        Ok(d) => Some(d.as_secs()),
        Err(_) => None,
    }
}

/// Relies on `chrono::DateTime::<Utc>::from_timestamp`, which never
/// panics and answers `None` outside the representable calendar range,
/// and on `DateTime::format` with `%Y-%m-%d`: the UTC date of the given
/// epoch second as a zero-padded, four-or-more-digit year, month and day
/// joined by dashes, so at least ten characters.
#[verifier::external_body]
fn date_text(secs: i64) -> (r: Option<String>)
    ensures
        (r matches Some(s) ==> s@.len() >= 10),
{
    match chrono::DateTime::from_timestamp(secs, 0) {
        Some(dt) => Some(dt.format("%Y-%m-%d").to_string()),
        None => None,
    }
}

/// Relies on `chrono::DateTime::<Utc>::from_timestamp` (as above) and on
/// `DateTime::to_rfc3339`: the UTC time of the given epoch second as
/// RFC 3339 text, never empty.
#[verifier::external_body]
fn rfc3339_text(secs: i64) -> (r: Option<String>)
    ensures
        (r matches Some(s) ==> s@.len() > 0),
{
    match chrono::DateTime::from_timestamp(secs, 0) {
        Some(dt) => Some(dt.to_rfc3339()),
        None => None,
    }
}

/// Takes one reading of the system clock.  A time before the epoch is
/// clamped to zero seconds; one beyond the representable calendar range
/// keeps its seconds and falls back to the epoch texts.
pub fn system_clock() -> (c: Clock)
    ensures
        c.today@.len() >= 10,
        c.now_text@.len() > 0,
{
    let secs: u64 = match unix_now_secs() {
        Some(s) => s,
        None => 0,
    };
    let secs_signed: i64 = if secs > i64::MAX as u64 {
        i64::MAX
    } else {
        secs as i64
    };
    match (date_text(secs_signed), rfc3339_text(secs_signed)) {
        (Some(today), Some(now_text)) => Clock { today, now_text, now_secs: secs },
        _ => {
            let today = "1970-01-01".to_owned();
            let now_text = "1970-01-01T00:00:00+00:00".to_owned();
            proof {
                reveal_strlit("1970-01-01");
                reveal_strlit("1970-01-01T00:00:00+00:00");
            }
            Clock { today, now_text, now_secs: secs }
        },
    }
}

} // verus!
