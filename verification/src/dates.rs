//! Calendar dates as plain values, and the two readings of the system clock
//! that the task engine needs.

use vstd::prelude::*;

verus! {

/// A calendar date with no time component, held as plain numbers so that the
/// ordering used for overdue checks is stated directly over the fields.
#[derive(Clone, Copy, PartialEq, Eq, Structural, Debug)]
pub struct Date {
    pub year: i32,
    pub month: u8,
    pub day: u8,
}

/// `a` falls strictly before `b` in calendar order: years first, then months,
/// then days.
pub open spec fn date_lt(a: Date, b: Date) -> bool {
    ||| a.year < b.year
    ||| (a.year == b.year && a.month < b.month)
    ||| (a.year == b.year && a.month == b.month && a.day < b.day)
}

impl Date {
    /// True exactly when `self` falls strictly before `other`.
    pub fn is_before(&self, other: &Date) -> (r: bool)
        ensures
            r == date_lt(*self, *other),
    {
        if self.year != other.year {
            self.year < other.year
        } else if self.month != other.month {
            self.month < other.month
        } else {
            self.day < other.day
        }
    }
}

/// Relies on chrono's `Local::now` and `DateTime::date_naive`: the current
/// calendar date in the local time zone. chrono documents `month` as 1..=12
/// and `day` as 1..=31.
#[verifier::external_body]
pub fn today() -> (r: Date)
    ensures
        1 <= r.month <= 12,
        1 <= r.day <= 31,
{
    let d = chrono::Local::now().date_naive();
    Date { year: chrono::Datelike::year(&d), month: chrono::Datelike::month(&d) as u8, day: chrono::Datelike::day(&d) as u8 }
}

/// Relies on chrono's `Local::now` and `DateTime::timestamp`: the current
/// moment as whole seconds since the Unix epoch. Nothing is promised of the
/// value: it moves with the clock.
#[verifier::external_body]
pub fn now_timestamp() -> (r: i64) {
    chrono::Local::now().timestamp()
}

} // verus!
