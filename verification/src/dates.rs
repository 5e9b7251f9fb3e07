//! Calendar dates of the proleptic Gregorian calendar, as day numbers, and
//! wall-clock times.

use crate::text::is_digit;
use chrono::Datelike;
use vstd::prelude::*;

verus! {

/// The first year that a date can have.
pub const MIN_YEAR: i32 = -262143;

/// The last year that a date can have.
pub const MAX_YEAR: i32 = 262142;

/// The day number of the first of January of `MIN_YEAR`.
pub const MIN_DAY: i32 = -95746129;

/// The day number of the last of December of `MAX_YEAR`.
pub const MAX_DAY: i32 = 95745399;

/// Whether a year has a 29th of February.
pub open spec fn leap(y: int) -> bool {
    y % 4 == 0 && (y % 100 != 0 || y % 400 == 0)
}

/// The number of days of a month.
pub open spec fn month_days(y: int, m: int) -> int {
    if m == 2 {
        if leap(y) {
            29
        } else {
            28
        }
    } else if m == 4 || m == 6 || m == 9 || m == 11 {
        30
    } else {
        31
    }
}

/// The number of days before the first of January of a year, counted from the first of January
/// of the year 1.
pub open spec fn days_before_year(y: int) -> int {
    365 * (y - 1) + (y - 1) / 4 - (y - 1) / 100 + (y - 1) / 400
}

/// The number of days of a year before the first of a month.
pub open spec fn days_before_month(y: int, m: int) -> int
    decreases m,
{
    if m <= 1 {
        0
    } else {
        days_before_month(y, m - 1) + month_days(y, m - 1)
    }
}

/// The number of a day, with the first of January of the year 1 as day 1.
pub open spec fn day_number(y: int, m: int, d: int) -> int {
    days_before_year(y) + days_before_month(y, m) + d
}

/// There is such a day, and it is in the range of dates.
pub open spec fn valid_civil(y: int, m: int, d: int) -> bool {
    &&& MIN_YEAR <= y <= MAX_YEAR
    &&& 1 <= m <= 12
    &&& 1 <= d <= month_days(y, m)
}

/// The year, month and day of a day number.
pub open spec fn civil(n: int) -> (int, int, int) {
    choose|c: (int, int, int)| valid_civil(c.0, c.1, c.2) && #[trigger] day_number(c.0, c.1, c.2) == n
}

/// Among `y` consecutive numbers there is one more multiple of `k` than among `y - 1` exactly if
/// `y` is one.
proof fn lemma_multiples_step(y: int, k: int)
    requires
        k > 0,
    ensures
        y / k - (y - 1) / k == if y % k == 0 {
            1int
        } else {
            0int
        },
{
    let q = (y - 1) / k;
    let r = (y - 1) % k;
    vstd::arithmetic::div_mod::lemma_fundamental_div_mod(y - 1, k);
    vstd::arithmetic::div_mod::lemma_mod_bound(y - 1, k);
    if r + 1 < k {
        assert(y == q * k + (r + 1)) by (nonlinear_arith)
            requires
                y - 1 == k * q + r,
        ;
        vstd::arithmetic::div_mod::lemma_fundamental_div_mod_converse(y, k, q, r + 1);
    } else {
        assert(y == (q + 1) * k + 0) by (nonlinear_arith)
            requires
                y - 1 == k * q + r,
                r + 1 == k,
        ;
        vstd::arithmetic::div_mod::lemma_fundamental_div_mod_converse(y, k, q + 1, 0);
    }
}

proof fn lemma_year_length(y: int)
    ensures
        days_before_year(y + 1) == days_before_year(y) + 365 + if leap(y) {
            1int
        } else {
            0int
        },
{
    lemma_multiples_step(y, 4);
    lemma_multiples_step(y, 100);
    lemma_multiples_step(y, 400);
    assert(y % 400 == 0 ==> y % 100 == 0 && y % 4 == 0) by (nonlinear_arith);
    assert(y % 100 == 0 ==> y % 4 == 0) by (nonlinear_arith);
}

proof fn lemma_years_grow(y: int, z: int)
    requires
        y <= z,
    ensures
        days_before_year(z) >= days_before_year(y) + 365 * (z - y),
    decreases z - y,
{
    if y < z {
        lemma_years_grow(y, z - 1);
        lemma_year_length(z - 1);
    }
}

proof fn lemma_months_of_year(y: int)
    ensures
        days_before_month(y, 13) == 365 + if leap(y) {
            1int
        } else {
            0int
        },
{
    reveal_with_fuel(days_before_month, 14);
}

proof fn lemma_months_grow(y: int, m: int, k: int)
    requires
        1 <= m <= k,
    ensures
        days_before_month(y, k) >= days_before_month(y, m),
        m < k ==> days_before_month(y, k) >= days_before_month(y, m) + month_days(y, m),
        days_before_month(y, m) >= 0,
    decreases k,
{
    if m < k {
        lemma_months_grow(y, m, k - 1);
    } else if m > 1 {
        lemma_months_grow(y, m - 1, m - 1);
    }
}

/// A day of a year lies between the year's first and last day.
proof fn lemma_day_within_year(y: int, m: int, d: int)
    requires
        1 <= m <= 12,
        1 <= d <= month_days(y, m),
    ensures
        days_before_year(y) < day_number(y, m, d) <= days_before_year(y + 1),
{
    lemma_months_grow(y, m, 13);
    lemma_months_of_year(y);
    lemma_year_length(y);
}

/// Every day has one number, and every number belongs to one day at most.
pub proof fn lemma_civil_unique(a: (int, int, int), b: (int, int, int))
    requires
        valid_civil(a.0, a.1, a.2),
        valid_civil(b.0, b.1, b.2),
        day_number(a.0, a.1, a.2) == day_number(b.0, b.1, b.2),
    ensures
        a == b,
{
    lemma_day_within_year(a.0, a.1, a.2);
    lemma_day_within_year(b.0, b.1, b.2);
    if a.0 < b.0 {
        lemma_years_grow(a.0 + 1, b.0);
    } else if b.0 < a.0 {
        lemma_years_grow(b.0 + 1, a.0);
    } else {
        if a.1 < b.1 {
            lemma_months_grow(a.0, a.1, b.1);
        } else if b.1 < a.1 {
            lemma_months_grow(a.0, b.1, a.1);
        }
    }
}

/// The day with a given number is the one that the number was computed from.
pub proof fn lemma_civil_of_day_number(y: int, m: int, d: int)
    requires
        valid_civil(y, m, d),
    ensures
        civil(day_number(y, m, d)) == (y, m, d),
        MIN_DAY <= day_number(y, m, d) <= MAX_DAY,
{
    let n = day_number(y, m, d);
    let c0 = (y, m, d);
    assert(valid_civil(c0.0, c0.1, c0.2) && day_number(c0.0, c0.1, c0.2) == n);
    let c = civil(n);
    lemma_civil_unique(c, (y, m, d));
    lemma_day_within_year(y, m, d);
    lemma_years_grow(MIN_YEAR as int, y);
    lemma_years_grow(y + 1, MAX_YEAR + 1);
}

/// The month `k` months after a month, as a year and a month.
pub open spec fn month_after(y: int, m: int, k: int) -> (int, int) {
    let months = y * 12 + (m - 1) + k;
    (months / 12, months % 12 + 1)
}

/// A date `k` months after another: the same day of the month, or the last one of a month that is
/// too short. Nothing outside the range of dates.
pub open spec fn shifted(n: int, k: int) -> Option<int> {
    let (y, m, d) = civil(n);
    let (year, month) = month_after(y, m, k);
    let last = month_days(year, month);
    let day = if d < last {
        d
    } else {
        last
    };
    if MIN_YEAR <= year <= MAX_YEAR {
        Some(day_number(year, month, day))
    } else {
        None
    }
}

proof fn lemma_find_year(n: int, y: int) -> (r: int)
    requires
        MIN_YEAR <= y <= MAX_YEAR,
        days_before_year(y) < n <= MAX_DAY,
    ensures
        y <= r <= MAX_YEAR,
        days_before_year(r) < n <= days_before_year(r + 1),
    decreases MAX_YEAR - y,
{
    if n <= days_before_year(y + 1) {
        y
    } else {
        lemma_find_year(n, y + 1)
    }
}

proof fn lemma_find_month(y: int, k: int, m: int) -> (r: int)
    requires
        1 <= m <= 12,
        days_before_month(y, m) < k <= days_before_month(y, 13),
    ensures
        m <= r <= 12,
        days_before_month(y, r) < k <= days_before_month(y, r + 1),
    decreases 13 - m,
{
    if k <= days_before_month(y, m + 1) {
        m
    } else {
        lemma_find_month(y, k, m + 1)
    }
}

/// Every number in the range of dates is the number of a day.
pub proof fn lemma_civil_of_number(n: int)
    requires
        MIN_DAY <= n <= MAX_DAY,
    ensures
        valid_civil(civil(n).0, civil(n).1, civil(n).2),
        day_number(civil(n).0, civil(n).1, civil(n).2) == n,
{
    let y = lemma_find_year(n, MIN_YEAR as int);
    let k = n - days_before_year(y);
    lemma_year_length(y);
    lemma_months_of_year(y);
    let m = lemma_find_month(y, k, 1);
    let d = k - days_before_month(y, m);
    let c = (y, m, d);
    assert(valid_civil(c.0, c.1, c.2) && day_number(c.0, c.1, c.2) == n);
}

/// The first day of a month follows the last day of the month before.
pub proof fn lemma_month_end(y: int, m: int)
    requires
        1 <= m <= 12,
    ensures
        day_number(month_after(y, m, 1).0, month_after(y, m, 1).1, 1) == day_number(
            y,
            m,
            month_days(y, m),
        ) + 1,
        1 <= month_days(y, m) <= 31,
{
    lemma_year_length(y);
    lemma_months_of_year(y);
    if m < 12 {
        assert((y * 12 + (m - 1) + 1) / 12 == y);
        assert((y * 12 + (m - 1) + 1) % 12 == m);
    } else {
        assert((y * 12 + 12) / 12 == y + 1);
        assert((y * 12 + 12) % 12 == 0);
        assert(days_before_month(y, 13) == days_before_month(y, 12) + month_days(y, 12));
    }
}

/// Going some months ahead or back from a date stays in the range of dates.
proof fn lemma_shifted_in_range(n: int, k: int)
    requires
        MIN_DAY <= n <= MAX_DAY,
    ensures
        shifted(n, k) matches Some(v) ==> MIN_DAY <= v <= MAX_DAY,
        k > u32::MAX ==> shifted(n, k) is None,
        k < -(u32::MAX as int) ==> shifted(n, k) is None,
{
    lemma_civil_of_number(n);
    let (y, m, d) = civil(n);
    let (year, month) = month_after(y, m, k);
    let last = month_days(year, month);
    let day = if d < last {
        d
    } else {
        last
    };
    if MIN_YEAR <= year <= MAX_YEAR {
        lemma_civil_of_day_number(year, month, day);
    }
}

/// `chrono::NaiveDate::from_ymd_opt`: the number of a day given by year, month and day, for the
/// days that exist from `MIN_YEAR` to `MAX_YEAR`, and nothing for any other.
#[verifier::external_body]
fn number_from_ymd(year: i32, month: u32, day: u32) -> (r: Option<i32>)
    ensures
        match r {
            Some(n) => valid_civil(year as int, month as int, day as int) && n == day_number(
                year as int,
                month as int,
                day as int,
            ),
            None => !valid_civil(year as int, month as int, day as int),
        },
{
    chrono::NaiveDate::from_ymd_opt(year, month, day).map(|d| d.num_days_from_ce())
}

/// `chrono::NaiveDate::from_num_days_from_ce_opt`, read by year, month and day: the day with the
/// given number, for every number in the range of dates, and nothing for any other.
#[verifier::external_body]
fn ymd_from_number(number: i32) -> (r: Option<(i32, u32, u32)>)
    ensures
        match r {
            Some((y, m, d)) => valid_civil(y as int, m as int, d as int) && day_number(
                y as int,
                m as int,
                d as int,
            ) == number,
            None => number < MIN_DAY || number > MAX_DAY,
        },
{
    chrono::NaiveDate::from_num_days_from_ce_opt(number).map(|d| (d.year(), d.month(), d.day()))
}

/// `chrono::NaiveDate::checked_add_months`, on day numbers.
#[verifier::external_body]
fn number_plus_months(number: i32, months: u32) -> (r: Option<i32>)
    requires
        MIN_DAY <= number <= MAX_DAY,
    ensures
        match r {
            Some(n) => shifted(number as int, months as int) == Some(n as int),
            None => shifted(number as int, months as int) is None,
        },
{
    chrono::NaiveDate::from_num_days_from_ce_opt(number)?
        .checked_add_months(chrono::Months::new(months))
        .map(|d| d.num_days_from_ce())
}

/// `chrono::NaiveDate::checked_sub_months`, on day numbers.
#[verifier::external_body]
fn number_minus_months(number: i32, months: u32) -> (r: Option<i32>)
    requires
        MIN_DAY <= number <= MAX_DAY,
    ensures
        match r {
            Some(n) => shifted(number as int, -(months as int)) == Some(n as int),
            None => shifted(number as int, -(months as int)) is None,
        },
{
    chrono::NaiveDate::from_num_days_from_ce_opt(number)?
        .checked_sub_months(chrono::Months::new(months))
        .map(|d| d.num_days_from_ce())
}

/// A calendar date, held as its day number.
#[derive(Clone, Copy, PartialEq, Eq, Structural, PartialOrd, Ord, Debug, Hash)]
pub struct Date {
    pub number: i32,
}

impl Date {
    /// The date is in the range of dates.
    pub open spec fn valid(self) -> bool {
        MIN_DAY <= self.number <= MAX_DAY
    }

    /// The year of the date.
    pub open spec fn spec_year(self) -> int {
        civil(self.number as int).0
    }

    /// The month of the date, from 1.
    pub open spec fn spec_month(self) -> int {
        civil(self.number as int).1
    }

    /// The day of the month, from 1.
    pub open spec fn spec_day(self) -> int {
        civil(self.number as int).2
    }

    /// The weekday, counted from Sunday as 0.
    pub open spec fn spec_weekday(self) -> int {
        self.number as int % 7
    }

    /// The date with the given year, month and day, if there is one.
    pub fn from_ymd_opt(year: i32, month: u32, day: u32) -> (r: Option<Date>)
        ensures
            match r {
                Some(d) => {
                    &&& d.valid()
                    &&& valid_civil(year as int, month as int, day as int)
                    &&& d.number == day_number(year as int, month as int, day as int)
                    &&& civil(d.number as int) == (year as int, month as int, day as int)
                },
                None => !valid_civil(year as int, month as int, day as int),
            },
    {
        match number_from_ymd(year, month, day) {
            Some(number) => {
                proof {
                    lemma_civil_of_day_number(year as int, month as int, day as int);
                }
                Some(Date { number })
            },
            None => None,
        }
    }

    /// The year, month and day of the date.
    pub fn ymd(self) -> (r: (i32, u32, u32))
        requires
            self.valid(),
        ensures
            civil(self.number as int) == (r.0 as int, r.1 as int, r.2 as int),
            valid_civil(r.0 as int, r.1 as int, r.2 as int),
            self.number == day_number(r.0 as int, r.1 as int, r.2 as int),
    {
        match ymd_from_number(self.number) {
            Some((y, m, d)) => {
                proof {
                    lemma_civil_of_day_number(y as int, m as int, d as int);
                }
                (y, m, d)
            },
            None => (0, 0, 0),
        }
    }

    /// The year.
    pub fn year(self) -> (r: i32)
        requires
            self.valid(),
        ensures
            r == self.spec_year(),
    {
        self.ymd().0
    }

    /// The month, from 1.
    pub fn month(self) -> (r: u32)
        requires
            self.valid(),
        ensures
            r == self.spec_month(),
            1 <= r <= 12,
    {
        self.ymd().1
    }

    /// The day of the month, from 1.
    pub fn day(self) -> (r: u32)
        requires
            self.valid(),
        ensures
            r == self.spec_day(),
            1 <= r <= 31,
    {
        self.ymd().2
    }

    /// The weekday, counted from Sunday as 0.
    pub fn days_from_sunday(self) -> (r: i64)
        ensures
            r == self.spec_weekday(),
            0 <= r < 7,
    {
        // 7 * 306783379 is above the magnitude of every 32-bit number.
        ((self.number as i64) + 2147483653) % 7
    }

    /// The date `days` days later (or earlier, for a negative number).
    pub fn plus_days(self, days: i64) -> (r: Date)
        requires
            MIN_DAY <= self.number + days <= MAX_DAY,
        ensures
            r.number == self.number + days,
            r.valid(),
    {
        Date { number: (self.number as i64 + days) as i32 }
    }

    /// The number of days from `other` to this date.
    pub fn days_since(self, other: Date) -> (r: i64)
        ensures
            r == self.number - other.number,
    {
        self.number as i64 - other.number as i64
    }

    /// The date `months` months later or, for a negative number, earlier; nothing outside the
    /// range of dates.
    pub fn checked_shift_months(self, months: i64) -> (r: Option<Date>)
        requires
            self.valid(),
        ensures
            match r {
                Some(d) => d.valid() && shifted(self.number as int, months as int) == Some(
                    d.number as int,
                ),
                None => shifted(self.number as int, months as int) is None,
            },
    {
        proof {
            lemma_shifted_in_range(self.number as int, months as int);
        }
        let number: Option<i32> = if 0 <= months && months <= 4294967295 {
            number_plus_months(self.number, months as u32)
        } else if -4294967295 <= months && months < 0 {
            number_minus_months(self.number, (-months) as u32)
        } else {
            None
        };
        match number {
            Some(number) => Some(Date { number }),
            None => None,
        }
    }
}

/// The seconds of a day.
pub const DAY_SECONDS: u32 = 86400;

/// A wall-clock time: a date and the seconds since its midnight.
#[derive(Clone, Copy, PartialEq, Eq, Structural, PartialOrd, Ord, Debug, Hash)]
pub struct DateTime {
    pub date: Date,
    pub secs: u32,
}

impl DateTime {
    /// The date is in range and the seconds are those of a day.
    pub open spec fn valid(self) -> bool {
        self.date.valid() && self.secs < DAY_SECONDS
    }

    /// The seconds since the midnight before day 0.
    pub open spec fn stamp(self) -> int {
        self.date.number * 86400 + self.secs
    }

    /// The time at an hour, minute and second of a date, if there is one.
    pub fn at(date: Date, hour: u32, minute: u32, second: u32) -> (r: Option<DateTime>)
        ensures
            r == if hour < 24 && minute < 60 && second < 60 {
                Some(DateTime { date, secs: (hour * 3600 + minute * 60 + second) as u32 })
            } else {
                None
            },
    {
        if hour < 24 && minute < 60 && second < 60 {
            Some(DateTime { date, secs: hour * 3600 + minute * 60 + second })
        } else {
            None
        }
    }

    /// The hour of the day.
    pub fn hour(self) -> (r: u32)
        ensures
            r == self.secs / 3600,
    {
        self.secs / 3600
    }

    /// The minute of the hour.
    pub fn minute(self) -> (r: u32)
        ensures
            r == self.secs / 60 % 60,
    {
        self.secs / 60 % 60
    }

    /// The minutes since midnight.
    pub fn minutes(self) -> (r: i64)
        ensures
            r == self.secs as int / 60,
    {
        (self.secs / 60) as i64
    }

    /// Whether this time is no later than `other`.
    pub fn no_later_than(self, other: DateTime) -> (r: bool)
        requires
            self.secs < DAY_SECONDS,
            other.secs < DAY_SECONDS,
        ensures
            r == (self.stamp() <= other.stamp()),
    {
        self.date.number < other.date.number || (self.date.number == other.date.number && self.secs
            <= other.secs)
    }

    /// The time an hour later.
    pub fn plus_hour(self) -> (r: DateTime)
        requires
            self.valid(),
            self.stamp() + 3600 < (MAX_DAY + 1) * 86400,
        ensures
            r.valid(),
            r.stamp() == self.stamp() + 3600,
    {
        if self.secs + 3600 < DAY_SECONDS {
            DateTime { date: self.date, secs: self.secs + 3600 }
        } else {
            DateTime { date: self.date.plus_days(1), secs: self.secs + 3600 - DAY_SECONDS }
        }
    }

    /// The same time of day `days` days later, or earlier for a negative number.
    pub fn plus_days(self, days: i64) -> (r: DateTime)
        requires
            self.valid(),
            MIN_DAY <= self.date.number + days <= MAX_DAY,
        ensures
            r.valid(),
            r.date.number == self.date.number + days,
            r.secs == self.secs,
    {
        DateTime { date: self.date.plus_days(days), secs: self.secs }
    }
}

/// A point in time: the seconds since the Unix epoch and the nanoseconds into that second.
#[derive(Clone, Copy, PartialEq, Eq, Structural, PartialOrd, Ord, Debug, Hash)]
pub struct Instant {
    pub secs: i64,
    pub nanos: u32,
}

impl Instant {
    /// This point in time is not after `other`.
    pub open spec fn le(self, other: Instant) -> bool {
        self.secs < other.secs || (self.secs == other.secs && self.nanos <= other.nanos)
    }

    /// Whether this point in time is not after `other`.
    pub fn no_later_than(self, other: Instant) -> (r: bool)
        ensures
            r == self.le(other),
    {
        self.secs < other.secs || (self.secs == other.secs && self.nanos <= other.nanos)
    }

    /// The point in time `minutes` minutes later, or earlier for a negative number.
    pub fn plus_minutes(self, minutes: i64) -> (r: Instant)
        requires
            i64::MIN <= self.secs + minutes * 60 <= i64::MAX,
            i64::MIN <= minutes * 60 <= i64::MAX,
        ensures
            r == (Instant { secs: (self.secs + minutes * 60) as i64, nanos: self.nanos }),
    {
        Instant { secs: self.secs + minutes * 60, nanos: self.nanos }
    }
}

/// A point in time together with the wall-clock time that the user's time zone shows at it.
#[derive(Clone, Copy, PartialEq, Eq, Structural, PartialOrd, Ord, Debug, Hash)]
pub struct Moment {
    pub instant: Instant,
    pub local: DateTime,
}

/// The day number of the first of January 1970.
pub const EPOCH_DAY: i32 = 719163;

impl Instant {
    /// The UTC date of this point in time is in the range of dates.
    pub open spec fn in_range(self) -> bool {
        MIN_DAY <= self.utc_day() <= MAX_DAY
    }

    /// The number of the UTC day.
    pub open spec fn utc_day(self) -> int {
        self.secs as int / 86400 + EPOCH_DAY
    }

    /// The seconds since the midnight that starts the UTC day.
    pub open spec fn utc_secs(self) -> int {
        self.secs as int % 86400
    }

    /// The wall-clock time in UTC.
    pub fn utc(self) -> (r: DateTime)
        requires
            self.in_range(),
        ensures
            r.valid(),
            r.date.number == self.utc_day(),
            r.secs == self.utc_secs(),
    {
        // Counted from a day before every date, so that the division is one of natural numbers.
        let shifted: i128 = self.secs as i128 + 86400 * 200_000_000;
        proof {
            assert(shifted / 86400 == self.secs as int / 86400 + 200_000_000);
            assert(shifted % 86400 == self.secs as int % 86400);
            assert(shifted >= 0);
        }
        let day: i128 = shifted / 86400 - 200_000_000 + EPOCH_DAY as i128;
        DateTime { date: Date { number: day as i32 }, secs: (shifted % 86400) as u32 }
    }
}

/// The patterns that dates and times are written with.
pub open spec fn known_pattern(p: Seq<char>) -> bool {
    ||| p == "%a, %b %d, %Y at %I:%M %p"@
    ||| p == "%A %d %B %Y"@
    ||| p == "%d %b"@
    ||| p == "%d %b %Y"@
    ||| p == "%B %Y"@
    ||| p == "%a %d %b"@
    ||| p == "%A, %B %-e, %Y"@
    ||| p == "%A, %B %-e, %Y · %H:%M"@
    ||| p == "%a, %b %-d"@
    ||| p == "%Y-%m-%d"@
    ||| p == "%m-%d"@
}

/// How `chrono` writes a wall-clock time, given by day number and seconds, with a pattern.
pub uninterp spec fn formatted(day: int, secs: int, pattern: Seq<char>) -> Seq<char>;

/// The day that `chrono` reads from a text with the pattern `%Y-%m-%d`, if it reads one.
pub uninterp spec fn date_written(text: Seq<char>) -> Option<int>;

/// A text of digits and signs.
pub open spec fn of_digits_and_signs(text: Seq<char>) -> bool {
    &&& text.len() > 0
    &&& forall|i: int| 0 <= i < text.len() ==> is_digit(#[trigger] text[i]) || text[i] == '-' || text[i] == '+'
}

/// A day that is written by year, month and day is read back as it was. One that is written by month
/// and day cannot be read, but can behind a year in which it exists.
pub open spec fn reads_back(day: int, pattern: Seq<char>, text: Seq<char>) -> bool {
    &&& pattern == "%Y-%m-%d"@ ==> of_digits_and_signs(text) && date_written(text) == Some(day)
    &&& pattern == "%m-%d"@ ==> of_digits_and_signs(text) && date_written(text) is None && date_written(
        "2000-"@ + text,
    ) == Some(day_number(2000, civil(day).1, civil(day).2))
}

/// `chrono::NaiveDateTime::format` and `to_string`. What is written depends on the time and the
/// pattern alone. Only patterns that are known to be well-formed may be given: on others writing
/// the time fails. `chrono::NaiveDate::parse_from_str` reads the pattern `%Y-%m-%d` back, and `%m-%d`
/// behind a leap year.
#[verifier::external_body]
fn format_time(day: i32, secs: u32, pattern: &str) -> (r: String)
    requires
        MIN_DAY <= day <= MAX_DAY,
        secs < DAY_SECONDS,
        known_pattern(pattern@),
    ensures
        r@ == formatted(day as int, secs as int, pattern@),
        reads_back(day as int, pattern@, r@),
{
    let date = chrono::NaiveDate::from_num_days_from_ce_opt(day).unwrap();
    let time = chrono::NaiveTime::from_num_seconds_from_midnight_opt(secs, 0).unwrap();
    date.and_time(time).format(pattern).to_string()
}

impl DateTime {
    /// The time, written with a pattern.
    pub fn format(self, pattern: &str) -> (r: String)
        requires
            self.valid(),
            known_pattern(pattern@),
        ensures
            r@ == formatted(self.date.number as int, self.secs as int, pattern@),
    {
        format_time(self.date.number, self.secs, pattern)
    }
}

impl Date {
    /// The date, written with a pattern.
    pub fn format(self, pattern: &str) -> (r: String)
        requires
            self.valid(),
            known_pattern(pattern@),
        ensures
            r@ == formatted(self.number as int, 0, pattern@),
            reads_back(self.number as int, pattern@, r@),
    {
        format_time(self.number, 0, pattern)
    }
}

/// `chrono::NaiveDate::parse_from_str` with the pattern `%Y-%m-%d`. What is read depends on the
/// text alone and is a day in the range of dates.
#[verifier::external_body]
fn number_from_text(text: &str) -> (r: Option<i32>)
    ensures
        (match r {
            Some(n) => Some(n as int),
            None => None,
        }) == date_written(text@),
        r matches Some(n) ==> MIN_DAY <= n <= MAX_DAY,
{
    chrono::NaiveDate::parse_from_str(text, "%Y-%m-%d").ok().map(|d| d.num_days_from_ce())
}

impl Date {
    /// The date that a text gives by year, month and day.
    pub fn parse(text: &str) -> (r: Option<Date>)
        ensures
            (match r {
                Some(d) => Some(d.number as int),
                None => None,
            }) == date_written(text@),
            r matches Some(d) ==> d.valid(),
    {
        match number_from_text(text) {
            Some(number) => Some(Date { number }),
            None => None,
        }
    }
}

impl Instant {
    /// This is a point in time that `chrono` knows: its UTC date is in the range of dates, and only
    /// the last second of a minute can be a leap second.
    pub open spec fn valid(self) -> bool {
        &&& self.in_range()
        &&& self.nanos < 2_000_000_000
        &&& self.nanos >= 1_000_000_000 ==> self.secs as int % 60 == 59
    }
}

/// How `chrono` writes a point in time in UTC by RFC 3339.
pub uninterp spec fn rfc3339(secs: int, nanos: int) -> Seq<char>;

/// `chrono::DateTime::<Utc>::from_timestamp` and `to_rfc3339`. What is written depends on the point
/// in time alone.
#[verifier::external_body]
fn rfc3339_of(secs: i64, nanos: u32) -> (r: String)
    requires
        (Instant { secs, nanos }).valid(),
    ensures
        r@ == rfc3339(secs as int, nanos as int),
{
    chrono::DateTime::from_timestamp(secs, nanos).unwrap().to_rfc3339()
}

impl Instant {
    /// The point in time in UTC, written by RFC 3339.
    pub fn to_rfc3339(self) -> (r: String)
        requires
            self.valid(),
        ensures
            r@ == rfc3339(self.secs as int, self.nanos as int),
    {
        rfc3339_of(self.secs, self.nanos)
    }
}

/// The day and the second of the day of a point in time tell its second.
pub proof fn lemma_day_and_second(t: Instant)
    ensures
        (t.utc_day() - EPOCH_DAY) * 86400 + t.utc_secs() == t.secs,
        0 <= t.utc_secs() < 86400,
{
}

/// A year has 365 days, and 366 if it can be divided by 4, but not by 100 unless by 400; the months have
/// 31 or 30 days, and February the rest.
pub proof fn lemma_days_of_year(y: int)
    ensures
        day_number(y + 1, 1, 1) - day_number(y, 1, 1) == (if y % 4 == 0 && (y % 100 != 0 || y % 400 == 0) {
            366int
        } else {
            365int
        }),
        month_days(y, 1) == 31 && month_days(y, 3) == 31 && month_days(y, 5) == 31 && month_days(y, 7) == 31,
        month_days(y, 8) == 31 && month_days(y, 10) == 31 && month_days(y, 12) == 31,
        month_days(y, 4) == 30 && month_days(y, 6) == 30 && month_days(y, 9) == 30 && month_days(y, 11) == 30,
        month_days(y, 2) == 28 + (day_number(y + 1, 1, 1) - day_number(y, 1, 1) - 365),
{
}

} // verus!
