//! Calendar dates and UTC timestamps with one-second resolution.
//!
//! The calendar is the proleptic Gregorian one. Arithmetic that moves a date
//! (by days, by a month, to another year) is done by chrono; the contracts of
//! those calls are stated here over plain year / month / day values.
use chrono::Datelike;
use chrono::Timelike;
use vstd::prelude::*;

verus! {

/// Earliest year that the calendar arithmetic can represent.
pub const MIN_YEAR: i32 = -262143;

/// Latest year that the calendar arithmetic can represent.
pub const MAX_YEAR: i32 = 262142;

/// Number of seconds in a (UTC) day.
pub const SECONDS_PER_DAY: u32 = 86400;

pub open spec fn is_leap_year(y: int) -> bool {
    (y % 4 == 0 && y % 100 != 0) || y % 400 == 0
}

pub open spec fn days_in_month(y: int, m: int) -> int {
    if m == 2 {
        if is_leap_year(y) {
            29
        } else {
            28
        }
    } else if m == 4 || m == 6 || m == 9 || m == 11 {
        30
    } else {
        31
    }
}

/// A day of the calendar.
#[derive(Clone, Copy, Debug, PartialEq, Eq, Structural)]
pub struct Date {
    pub year: i32,
    pub month: u32,
    pub day: u32,
}

pub open spec fn is_valid_date(y: int, m: int, d: int) -> bool {
    &&& MIN_YEAR <= y <= MAX_YEAR
    &&& 1 <= m <= 12
    &&& 1 <= d <= days_in_month(y, m)
}

impl Date {
    pub open spec fn wf(self) -> bool {
        is_valid_date(self.year as int, self.month as int, self.day as int)
    }

    /// A number that grows with the date: earlier dates have smaller ranks.
    pub open spec fn rank(self) -> int {
        (self.year * 12 + (self.month - 1)) * 31 + (self.day - 1)
    }
}

/// The day after `d`.
pub open spec fn next_day(d: Date) -> Date {
    if d.day < days_in_month(d.year as int, d.month as int) {
        Date { year: d.year, month: d.month, day: (d.day + 1) as u32 }
    } else if d.month < 12 {
        Date { year: d.year, month: (d.month + 1) as u32, day: 1 }
    } else {
        Date { year: (d.year + 1) as i32, month: 1, day: 1 }
    }
}

/// The day before `d`.
pub open spec fn prev_day(d: Date) -> Date {
    if d.day > 1 {
        Date { year: d.year, month: d.month, day: (d.day - 1) as u32 }
    } else if d.month > 1 {
        Date {
            year: d.year,
            month: (d.month - 1) as u32,
            day: days_in_month(d.year as int, d.month - 1) as u32,
        }
    } else {
        Date { year: (d.year - 1) as i32, month: 12, day: 31 }
    }
}

/// The date `n` days after `d`.
pub open spec fn plus_days(d: Date, n: nat) -> Date
    decreases n,
{
    if n == 0 {
        d
    } else {
        next_day(plus_days(d, (n - 1) as nat))
    }
}

/// The date `n` days before `d`.
pub open spec fn minus_days(d: Date, n: nat) -> Date
    decreases n,
{
    if n == 0 {
        d
    } else {
        prev_day(minus_days(d, (n - 1) as nat))
    }
}

/// The same day of the following month, or the last day of that month where
/// it is shorter.
pub open spec fn next_month_clamped(d: Date) -> Date {
    let y: int = if d.month == 12 { d.year + 1 } else { d.year as int };
    let m: int = if d.month == 12 { 1 } else { d.month + 1 };
    let last = days_in_month(y, m);
    Date { year: y as i32, month: m as u32, day: if d.day > last { last as u32 } else { d.day } }
}

/// The same month and day of the following year; February 29 becomes
/// February 28 where the following year is not a leap year.
pub open spec fn next_year_clamped(d: Date) -> Date {
    let y: int = d.year + 1;
    Date {
        year: y as i32,
        month: d.month,
        day: if d.month == 2 && d.day == 29 && !is_leap_year(y) { 28 } else { d.day },
    }
}

/// An instant in UTC: a calendar day and the second within it.
#[derive(Clone, Copy, Debug, PartialEq, Eq, Structural)]
pub struct Timestamp {
    pub date: Date,
    pub second_of_day: u32,
}

impl Timestamp {
    pub open spec fn wf(self) -> bool {
        self.date.wf() && self.second_of_day < SECONDS_PER_DAY
    }

    /// A number that grows with time: earlier instants have smaller ranks.
    pub open spec fn rank(self) -> int {
        self.date.rank() * 86400 + self.second_of_day
    }

    /// Whether the calendar can still move this instant forward by a year.
    pub open spec fn movable(self) -> bool {
        self.wf() && self.date.year < MAX_YEAR
    }

    /// The instant at `hour:minute:second` on the given day, where it exists.
    pub fn new(year: i32, month: u32, day: u32, hour: u32, minute: u32, second: u32) -> (r: Option<
        Timestamp,
    >)
        ensures
            r is Some <==> is_valid_date(year as int, month as int, day as int) && hour < 24
                && minute < 60 && second < 60,
            r matches Some(t) ==> t.wf() && t.date == (Date { year, month, day })
                && t.second_of_day == hour * 3600 + minute * 60 + second,
    {
        if hour >= 24 || minute >= 60 || second >= 60 {
            return None;
        }
        match from_ymd(year, month, day) {
            Some(date) => Some(Timestamp { date, second_of_day: hour * 3600 + minute * 60 + second }),
            None => None,
        }
    }

    /// Midnight at the start of the given day.
    pub fn start_of_day(date: Date) -> (r: Timestamp)
        requires
            date.wf(),
        ensures
            r.wf(),
            r.date == date,
            r.second_of_day == 0,
    {
        Timestamp { date, second_of_day: 0 }
    }

    /// Whether `self` is strictly earlier than `other`.
    pub fn is_before(&self, other: &Timestamp) -> (r: bool)
        requires
            self.wf(),
            other.wf(),
        ensures
            r == (self.rank() < other.rank()),
    {
        let a = self.date;
        let b = other.date;
        if a.year != b.year {
            a.year < b.year
        } else if a.month != b.month {
            a.month < b.month
        } else if a.day != b.day {
            a.day < b.day
        } else {
            self.second_of_day < other.second_of_day
        }
    }
}

/// Relies on chrono's `NaiveDate::from_ymd_opt`: the date exists iff the year
/// is in chrono's range and the month and day name a real calendar day.
#[verifier::external_body]
fn from_ymd(year: i32, month: u32, day: u32) -> (r: Option<Date>)
    ensures
        r is Some <==> is_valid_date(year as int, month as int, day as int),
        r matches Some(d) ==> d == (Date { year, month, day }),
{
    match chrono::NaiveDate::from_ymd_opt(year, month, day) {
        Some(d) => Some(Date { year: d.year(), month: d.month(), day: d.day() }),
        None => None,
    }
}

/// The day after `d` is a valid date, later than `d`, and moves into a new
/// year only from December 31.
pub proof fn lemma_next_day(d: Date)
    requires
        d.wf(),
        d.year < MAX_YEAR || d.month < 12 || d.day < 31,
    ensures
        next_day(d).wf(),
        next_day(d).rank() > d.rank(),
        next_day(d).year == d.year || (next_day(d).year == d.year + 1 && next_day(d).month == 1
            && next_day(d).day == 1),
{
}

/// The day before `d` is a valid date, earlier than `d`, and moves into an
/// earlier year only from January 1.
pub proof fn lemma_prev_day(d: Date)
    requires
        d.wf(),
        d.year > MIN_YEAR || d.month > 1 || d.day > 1,
    ensures
        prev_day(d).wf(),
        prev_day(d).rank() < d.rank(),
        prev_day(d).year == d.year || (prev_day(d).year == d.year - 1 && prev_day(d).month == 12
            && prev_day(d).day == 31),
{
}

/// Moving forward up to four weeks stays within the calendar and crosses at
/// most one new year.
pub proof fn lemma_plus_days(d: Date, n: nat)
    requires
        d.wf(),
        d.year < MAX_YEAR,
        n <= 28,
    ensures
        plus_days(d, n).wf(),
        n > 0 ==> plus_days(d, n).rank() > d.rank(),
        plus_days(d, n).year == d.year || (plus_days(d, n).year == d.year + 1 && plus_days(
            d,
            n,
        ).month == 1 && plus_days(d, n).day <= n),
    decreases n,
{
    if n > 0 {
        let p = plus_days(d, (n - 1) as nat);
        lemma_plus_days(d, (n - 1) as nat);
        lemma_next_day(p);
    }
}

/// Moving back up to four weeks stays within the calendar and crosses at most
/// one year boundary.
pub proof fn lemma_minus_days(d: Date, n: nat)
    requires
        d.wf(),
        d.year > MIN_YEAR,
        n <= 28,
    ensures
        minus_days(d, n).wf(),
        n > 0 ==> minus_days(d, n).rank() < d.rank(),
        minus_days(d, n).year == d.year || (minus_days(d, n).year == d.year - 1 && minus_days(
            d,
            n,
        ).month == 12 && minus_days(d, n).day >= 32 - n),
    decreases n,
{
    if n > 0 {
        let p = minus_days(d, (n - 1) as nat);
        lemma_minus_days(d, (n - 1) as nat);
        lemma_prev_day(p);
    }
}

/// The same day next month is a valid, later date.
pub proof fn lemma_next_month(d: Date)
    requires
        d.wf(),
        d.year < MAX_YEAR,
    ensures
        next_month_clamped(d).wf(),
        next_month_clamped(d).rank() > d.rank(),
{
}

/// The same day next year is a valid, later date.
pub proof fn lemma_next_year(d: Date)
    requires
        d.wf(),
        d.year < MAX_YEAR,
    ensures
        next_year_clamped(d).wf(),
        next_year_clamped(d).rank() > d.rank(),
{
}

/// Moving forward `n + 1` days is moving to the next day, then `n` more.
pub proof fn lemma_plus_days_shift(d: Date, n: nat)
    ensures
        plus_days(d, n + 1) == plus_days(next_day(d), n),
    decreases n,
{
    assert(plus_days(d, n + 1) == next_day(plus_days(d, n)));
    if n > 0 {
        lemma_plus_days_shift(d, (n - 1) as nat);
        assert(plus_days(next_day(d), n) == next_day(plus_days(next_day(d), (n - 1) as nat)));
    } else {
        assert(plus_days(d, 0) == d);
        assert(plus_days(next_day(d), 0) == next_day(d));
    }
}

/// Moving forward `a` days and then `b` days is moving forward `a + b` days.
pub proof fn lemma_plus_days_add(d: Date, a: nat, b: nat)
    ensures
        plus_days(plus_days(d, a), b) == plus_days(d, a + b),
    decreases b,
{
    if b > 0 {
        lemma_plus_days_add(d, a, (b - 1) as nat);
    }
}

/// Going back `n` days and forward `n` days returns to the same date.
pub proof fn lemma_minus_then_plus(d: Date, n: nat)
    requires
        d.wf(),
        d.year > MIN_YEAR,
        n <= 28,
    ensures
        plus_days(minus_days(d, n), n) == d,
    decreases n,
{
    if n > 0 {
        let p = minus_days(d, (n - 1) as nat);
        lemma_minus_days(d, (n - 1) as nat);
        lemma_minus_then_plus(d, (n - 1) as nat);
        lemma_plus_days_shift(prev_day(p), (n - 1) as nat);
        assert(next_day(prev_day(p)) == p);
    }
}

/// Relies on chrono's `NaiveDate::checked_add_days`: the date `n` days later,
/// present for a small count whenever it lies within chrono's years.
#[verifier::external_body]
pub(crate) fn add_days(d: Date, n: u64) -> (r: Date)
    requires
        d.wf(),
        n <= 28,
        plus_days(d, n as nat).year <= MAX_YEAR,
    ensures
        r == plus_days(d, n as nat),
{
    let start = chrono::NaiveDate::from_ymd_opt(d.year, d.month, d.day).unwrap();
    let end = start.checked_add_days(chrono::Days::new(n)).unwrap();
    Date { year: end.year(), month: end.month(), day: end.day() }
}

/// Relies on chrono's `NaiveDate::checked_sub_days`: the date `n` days
/// earlier, present for a small count whenever it lies within chrono's years.
#[verifier::external_body]
pub(crate) fn sub_days(d: Date, n: u64) -> (r: Date)
    requires
        d.wf(),
        n <= 28,
        minus_days(d, n as nat).year >= MIN_YEAR,
    ensures
        r == minus_days(d, n as nat),
{
    let start = chrono::NaiveDate::from_ymd_opt(d.year, d.month, d.day).unwrap();
    let end = start.checked_sub_days(chrono::Days::new(n)).unwrap();
    Date { year: end.year(), month: end.month(), day: end.day() }
}

/// Relies on chrono's `NaiveDate::checked_add_months` with one month: the same
/// day of the next month, clamped to that month's last day.
#[verifier::external_body]
pub(crate) fn add_one_month(d: Date) -> (r: Date)
    requires
        d.wf(),
        d.year < MAX_YEAR,
    ensures
        r == next_month_clamped(d),
{
    let start = chrono::NaiveDate::from_ymd_opt(d.year, d.month, d.day).unwrap();
    let end = start.checked_add_months(chrono::Months::new(1)).unwrap();
    Date { year: end.year(), month: end.month(), day: end.day() }
}

/// Relies on chrono's `Datelike::with_year` on a `NaiveDate`: the same month
/// and day in another year, absent where that day does not exist there.
#[verifier::external_body]
pub(crate) fn with_year(d: Date, year: i32) -> (r: Option<Date>)
    requires
        d.wf(),
    ensures
        r is Some <==> is_valid_date(year as int, d.month as int, d.day as int),
        r matches Some(x) ==> x == (Date { year, month: d.month, day: d.day }),
{
    let start = chrono::NaiveDate::from_ymd_opt(d.year, d.month, d.day).unwrap();
    match start.with_year(year) {
        Some(x) => Some(Date { year: x.year(), month: x.month(), day: x.day() }),
        None => None,
    }
}

/// The number of days from 1970-01-01 to the given day (negative before
/// it), counted in 400-year cycles of 146097 days that start on March 1.
pub open spec fn days_from_civil(y: int, m: int, d: int) -> int {
    let shifted_year = if m <= 2 {
        y - 1
    } else {
        y
    };
    let era = shifted_year / 400;
    let year_of_era = shifted_year - era * 400;
    let month_from_march = if m > 2 {
        m - 3
    } else {
        m + 9
    };
    let day_of_year = (153 * month_from_march + 2) / 5 + d - 1;
    let day_of_era = year_of_era * 365 + year_of_era / 4 - year_of_era / 100 + day_of_year;
    era * 146097 + day_of_era - 719468
}

/// The day of the week of a date, counted from Monday (0) to Sunday (6);
/// 1970-01-01 was a Thursday.
pub open spec fn weekday_from_monday(d: Date) -> int {
    (days_from_civil(d.year as int, d.month as int, d.day as int) + 3) % 7
}

/// Relies on chrono's `Datelike::weekday` on a `NaiveDate`, read as a number by
/// `Weekday::num_days_from_monday`: 0 for Monday up to 6 for Sunday.
#[verifier::external_body]
pub(crate) fn days_since_monday(d: Date) -> (r: u32)
    requires
        d.wf(),
    ensures
        r == weekday_from_monday(d),
{
    chrono::NaiveDate::from_ymd_opt(d.year, d.month, d.day).unwrap().weekday().num_days_from_monday()
}

/// Relies on chrono's `Utc::now`: the current instant, a valid date and time
/// (its fraction of a second is dropped).
#[verifier::external_body]
pub(crate) fn now() -> (r: Timestamp)
    ensures
        r.wf(),
{
    let t = chrono::Utc::now();
    Timestamp {
        date: Date { year: t.year(), month: t.month(), day: t.day() },
        second_of_day: t.num_seconds_from_midnight(),
    }
}

} // verus!
