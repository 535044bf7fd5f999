//! Time: readings of the monotonic clock, seconds since the epoch, and dates.
use std::time::SystemTime;
use vstd::prelude::*;

verus! {

/// Nanoseconds in a second.
pub const SECOND: u64 = 1_000_000_000;

/// A reading of a clock that never goes back, in nanoseconds.
#[derive(Clone, Copy, Debug, PartialEq, Eq, Structural)]
pub struct Instant {
    pub nanos: u64,
}

impl Instant {
    /// The nanoseconds from `earlier` to this reading; zero if `earlier` is later than it.
    pub open spec fn since(self, earlier: Instant) -> nat {
        if self.nanos >= earlier.nanos {
            (self.nanos - earlier.nanos) as nat
        } else {
            0
        }
    }

    pub fn saturating_duration_since(&self, earlier: Instant) -> (d: u64)
        ensures
            d == self.since(earlier),
    {
        if self.nanos >= earlier.nanos {
            self.nanos - earlier.nanos
        } else {
            0
        }
    }
}

/// `std::time::SystemTime`: a reading of the machine's clock.
#[verifier::external_type_specification]
#[verifier::external_body]
pub struct ExSystemTime(SystemTime);

/// `SystemTime::now` of std. What it returns rests on the machine's clock, so nothing
/// is claimed of it.
pub assume_specification[ SystemTime::now ]() -> (t: SystemTime)
;

/// `SystemTime::duration_since` of std, from the Unix epoch, in whole seconds; `None` where
/// the reading lies before the epoch. A reading has no value that could be spoken of here,
/// so nothing is claimed of the result.
#[verifier::external_body]
fn seconds_since_epoch(t: SystemTime) -> (s: Option<u64>)
{
    t.duration_since(SystemTime::UNIX_EPOCH).ok().map(|d| d.as_secs())
}

/// The seconds that are recorded for a reading of the clock: its whole seconds since
/// the epoch, or zero where it lies before the epoch.
pub fn epoch_or_zero(seconds: Option<u64>) -> (s: u64)
    ensures
        s == match seconds {
            Some(n) => n,
            None => 0,
        },
{
    match seconds {
        Some(n) => n,
        None => 0,
    }
}

/// The seconds since the epoch, or zero where the machine's clock stands before it. Which
/// second it is rests on that clock alone, so nothing holds of every result;
/// `epoch_or_zero` says what is made of a reading.
pub fn now_epoch() -> (s: u64)
{
    epoch_or_zero(seconds_since_epoch(SystemTime::now()))
}

/// Today's year, month and day in the machine's time zone, by `chrono::Local::now`. It
/// reads the system clock, and does not return where that stands before 1970; the zone
/// shifts the date by less than a day.
#[verifier::external_body]
fn local_date() -> (d: (i32, u32, u32))
    ensures
        1969 <= d.0 <= 262143,
        1 <= d.1 <= 12,
        1 <= d.2 <= 31,
{
    let now = chrono::Local::now();
    (chrono::Datelike::year(&now), chrono::Datelike::month(&now), chrono::Datelike::day(&now))
}

/// A date as one number whose decimal digits are the year, the month and the day.
pub open spec fn date_number(year: int, month: int, day: int) -> int {
    year * 10000 + month * 100 + day
}

pub fn date_val(year: i32, month: u32, day: u32) -> (v: u64)
    requires
        year >= 0,
    ensures
        v == date_number(year as int, month as int, day as int),
{
    year as u64 * 10000 + month as u64 * 100 + day as u64
}

/// Today's date as one number.
pub fn current_date_val() -> (v: u64)
    ensures
        exists|year: int, month: int, day: int|
            1969 <= year <= 262143 && 1 <= month <= 12 && 1 <= day <= 31 && v == #[trigger] date_number(
                year,
                month,
                day,
            ),
        v < 0x1_0000_0000,
{
    let (year, month, day) = local_date();
    date_val(year, month, day)
}

/// A later date has a larger number.
pub proof fn law_date_numbers_follow_dates(
    y1: int,
    m1: int,
    d1: int,
    y2: int,
    m2: int,
    d2: int,
)
    requires
        1 <= m1 <= 12,
        1 <= m2 <= 12,
        1 <= d1 <= 31,
        1 <= d2 <= 31,
    ensures
        date_number(y1, m1, d1) < date_number(y2, m2, d2) <==> (y1 < y2 || (y1 == y2 && (m1 < m2
            || (m1 == m2 && d1 < d2)))),
{
}

} // verus!
