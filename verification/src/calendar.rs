//! Dates and wall-clock times as plain values. What only the calendar crate can
//! answer (the weekday of a date, the date some days away) is asked of chrono.
use vstd::prelude::*;
use chrono::Datelike;

verus! {

/// Years chrono's `NaiveDate` can hold.
pub const MIN_YEAR: i32 = -262143;

pub const MAX_YEAR: i32 = 262142;

pub open spec fn is_leap(y: int) -> bool {
    (y % 4 == 0 && y % 100 != 0) || y % 400 == 0
}

pub open spec fn days_in_month(y: int, m: int) -> int {
    if m == 2 {
        if is_leap(y) { 29 } else { 28 }
    } else if m == 4 || m == 6 || m == 9 || m == 11 {
        30
    } else {
        31
    }
}

/// A day of the proleptic Gregorian calendar within chrono's range.
pub open spec fn valid_ymd(y: int, m: int, d: int) -> bool {
    &&& MIN_YEAR <= y <= MAX_YEAR
    &&& 1 <= m <= 12
    &&& 1 <= d <= days_in_month(y, m)
}

/// A calendar date.
#[derive(Clone, Copy, Debug, PartialEq, Eq, Structural)]
pub struct Date {
    pub year: i32,
    pub month: u32,
    pub day: u32,
}

impl Date {
    pub open spec fn wf(self) -> bool {
        valid_ymd(self.year as int, self.month as int, self.day as int)
    }

    /// Chronological order, which for real dates is the order of (year, month, day).
    pub open spec fn lt(self, other: Date) -> bool {
        ||| self.year < other.year
        ||| self.year == other.year && self.month < other.month
        ||| self.year == other.year && self.month == other.month && self.day < other.day
    }

    pub open spec fn le(self, other: Date) -> bool {
        self.lt(other) || self == other
    }

    pub fn before(&self, other: &Date) -> (r: bool)
        ensures
            r == self.lt(*other),
    {
        self.year < other.year || (self.year == other.year && self.month < other.month) || (
        self.year == other.year && self.month == other.month && self.day < other.day)
    }

    pub fn same(&self, other: &Date) -> (r: bool)
        ensures
            r == (*self == *other),
    {
        self.year == other.year && self.month == other.month && self.day == other.day
    }
}

pub fn days_in(y: i32, m: u32) -> (r: u32)
    requires
        1 <= m <= 12,
    ensures
        r == days_in_month(y as int, m as int),
{
    if m == 2 {
        if (y % 4 == 0 && y % 100 != 0) || y % 400 == 0 {
            29
        } else {
            28
        }
    } else if m == 4 || m == 6 || m == 9 || m == 11 {
        30
    } else {
        31
    }
}

/// `NaiveDate::from_ymd_opt`: `None` on an invalid month or day, or a year out of range.
#[verifier::external_body]
pub(crate) fn date_from_ymd(y: i32, m: u32, d: u32) -> (r: Option<Date>)
    ensures
        r == (if valid_ymd(y as int, m as int, d as int) {
            Some(Date { year: y, month: m, day: d })
        } else {
            None
        }),
{
    match chrono::NaiveDate::from_ymd_opt(y, m, d) {
        Some(x) => Some(Date { year: x.year(), month: x.month(), day: x.day() }),
        None => None,
    }
}

/// Days since Monday (0) of a date, as chrono's `Weekday::num_days_from_monday` gives it.
pub uninterp spec fn weekday_of(y: i32, m: u32, d: u32) -> u32;

/// The date `k` days after a date, as chrono's `NaiveDate::checked_add_signed` gives it.
pub uninterp spec fn date_plus(y: i32, m: u32, d: u32, k: i64) -> Option<(i32, u32, u32)>;

pub open spec fn weekday(d: Date) -> u32 {
    weekday_of(d.year, d.month, d.day)
}

pub open spec fn plus(d: Date, k: i64) -> Option<Date> {
    match date_plus(d.year, d.month, d.day, k) {
        Some((y, m, dd)) => Some(Date { year: y, month: m, day: dd }),
        None => None,
    }
}

/// `NaiveDate::weekday().num_days_from_monday()`: Monday is 0, Sunday 6.
#[verifier::external_body]
pub(crate) fn weekday_num(d: &Date) -> (r: u32)
    requires
        d.wf(),
    ensures
        r == weekday_of(d.year, d.month, d.day),
        r < 7,
{
    chrono::NaiveDate::from_ymd_opt(d.year, d.month, d.day).unwrap().weekday().num_days_from_monday()
}

/// `NaiveDate::checked_add_signed(Duration::days(k))`: `None` past either end of
/// the calendar. The weekday advances by `k` modulo seven, and the date moves
/// forward when `k` is positive and back when it is negative. A week or less
/// from a date that is at least that far from either end of the calendar is
/// still in it (December and January both have 31 days). Steps compose: `j`
/// days after the result is `k + j` days after `d` (chrono counts days, and
/// both ways refuse exactly the dates past either end); in particular `k` days
/// back from the result is `d` again.
#[verifier::external_body]
pub(crate) fn add_days(d: &Date, k: i64) -> (r: Option<Date>)
    requires
        d.wf(),
        -1_000_000_000 <= k <= 1_000_000_000,
    ensures
        r == (match date_plus(d.year, d.month, d.day, k) {
            Some((y, m, dd)) => Some(Date { year: y, month: m, day: dd }),
            None => None,
        }),
        r matches Some(x) ==> {
            &&& x.wf()
            &&& weekday(x) as int == (weekday(*d) + k) % 7
            &&& k > 0 ==> d.lt(x)
            &&& k < 0 ==> x.lt(*d)
            &&& k == 0 ==> x == *d
            &&& forall|j: i64|
                -1_000_000_000 <= j <= 1_000_000_000 ==> #[trigger] date_plus(x.year, x.month, x.day, j)
                    == date_plus(d.year, d.month, d.day, (k + j) as i64)
            &&& date_plus(x.year, x.month, x.day, (0 - k) as i64) == Some((d.year, d.month, d.day))
        },
        0 <= k <= 7 && d.le(Date { year: MAX_YEAR, month: 12, day: (31 - k) as u32 }) ==> r is Some,
        -7 <= k <= 0 && (Date { year: MIN_YEAR, month: 1, day: (1 - k) as u32 }).le(*d) ==> r is Some,
{
    chrono::NaiveDate::from_ymd_opt(d.year, d.month, d.day)
        .unwrap()
        .checked_add_signed(chrono::Duration::days(k))
        .map(|x| Date { year: x.year(), month: x.month(), day: x.day() })
}

/// A wall-clock time of day, to the minute.
#[derive(Clone, Copy, Debug, PartialEq, Eq, Structural)]
pub struct Time {
    pub hour: u32,
    pub minute: u32,
}

impl Time {
    pub open spec fn wf(self) -> bool {
        self.hour < 24 && self.minute < 60
    }

    pub open spec fn minutes(self) -> int {
        self.hour * 60 + self.minute
    }
}

/// `NaiveTime::from_hms_opt(h, m, 0)`.
pub fn time_from_hm(h: u32, m: u32) -> (r: Option<Time>)
    ensures
        r == (if h < 24 && m < 60 { Some(Time { hour: h, minute: m }) } else { None }),
{
    if h < 24 && m < 60 {
        Some(Time { hour: h, minute: m })
    } else {
        None
    }
}

} // verus!
