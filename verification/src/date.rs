//! Calendar dates, clock times and points in time.
//!
//! The calendar is the proleptic Gregorian one. Dates and times are plain
//! numbers here; the `chrono` crate reads them from text, writes them as text,
//! and moves between dates.

use vstd::prelude::*;
use chrono::{Datelike, TimeZone, Timelike};

use crate::order::Ordered;
use crate::text::{decimal, decimal_int, digit, digit_char, lemma_decimal, number, two_digits};

verus! {

/// The earliest year that a date can have.
pub const MIN_YEAR: i32 = -262143;

/// The latest year that a date can have.
pub const MAX_YEAR: i32 = 262142;

/// A calendar date.
#[derive(Debug, Clone, Copy, PartialEq, Eq, PartialOrd, Ord, Hash, Structural)]
pub struct Date {
    pub year: i32,
    /// 1 to 12.
    pub month: u32,
    /// 1 to the length of the month.
    pub day: u32,
}

/// A time of day, to the minute.
#[derive(Debug, Clone, Copy, PartialEq, Eq, Structural)]
pub struct Time {
    pub hour: u32,
    pub minute: u32,
}

/// A date and a time of day without a time zone.
#[derive(Debug, Clone, Copy, PartialEq, Eq, Structural)]
pub struct Naive {
    pub date: Date,
    pub hour: u32,
    pub minute: u32,
    pub second: u32,
    /// Nanoseconds within the second; a billion or more during a leap second.
    pub nanos: u32,
}

/// A point in time, and what the local clock shows at it.
#[derive(Debug, Clone, Copy, PartialEq, Eq, Structural)]
pub struct Moment {
    /// Whole seconds since the start of 1970 in UTC.
    pub secs: i64,
    /// Nanoseconds past the second; a billion or more during a leap second.
    pub nanos: u32,
    /// The hour that the local clock shows.
    pub hour: u32,
    /// The minute that the local clock shows.
    pub minute: u32,
}

// --- Models ------------------------------------------------------------------

/// Whether a year has a 29 February.
pub open spec fn leap(year: int) -> bool {
    year % 4 == 0 && (year % 100 != 0 || year % 400 == 0)
}

/// How many days a month has.
pub open spec fn month_len(year: int, month: int) -> int {
    if month == 2 {
        if leap(year) {
            29
        } else {
            28
        }
    } else if month == 4 || month == 6 || month == 9 || month == 11 {
        30
    } else {
        31
    }
}

/// How many days of the year come before a month.
pub open spec fn days_before_month(year: int, month: int) -> int
    decreases month,
{
    if month <= 1 {
        0
    } else {
        days_before_month(year, month - 1) + month_len(year, month - 1)
    }
}

/// How many days come before a year, counted from the start of year 1.
pub open spec fn days_before_year(year: int) -> int {
    365 * (year - 1) + (year - 1) / 4 - (year - 1) / 100 + (year - 1) / 400
}

impl Date {
    /// The date exists and its year is in range.
    pub open spec fn wf(self) -> bool {
        &&& MIN_YEAR <= self.year <= MAX_YEAR
        &&& 1 <= self.month <= 12
        &&& 1 <= self.day <= month_len(self.year as int, self.month as int)
    }

    /// The number of the day; 1 January of year 1 is day 1.
    pub open spec fn number(self) -> int {
        days_before_year(self.year as int) + days_before_month(self.year as int, self.month as int)
            + self.day
    }

    /// The day of the week, 0 for Monday to 6 for Sunday.
    pub open spec fn weekday(self) -> int {
        (self.number() - 1) % 7
    }
}

/// The number of the earliest day that a date can have.
pub open spec fn first_day() -> int {
    days_before_year(MIN_YEAR as int) + 1
}

/// The number of the latest day that a date can have.
pub open spec fn last_day() -> int {
    days_before_year(MAX_YEAR as int + 1)
}

impl Time {
    /// The clock can show this time.
    pub open spec fn wf(self) -> bool {
        self.hour < 24 && self.minute < 60
    }

    /// The time as `HH:MM`.
    pub open spec fn text(self) -> Seq<char> {
        two_digits(self.hour as int) + ":"@ + two_digits(self.minute as int)
    }
}

impl Naive {
    /// The date exists and a clock can show the time.
    pub open spec fn wf(self) -> bool {
        &&& self.date.wf()
        &&& self.hour < 24
        &&& self.minute < 60
        &&& self.second < 60
        &&& self.nanos < 2_000_000_000
        &&& (self.nanos >= 1_000_000_000 ==> self.second == 59)
    }

    /// Seconds since the start of 1970, when the time is read in UTC.
    pub open spec fn utc_secs(self) -> int {
        (self.date.number() - 719163) * 86400 + self.hour * 3600 + self.minute * 60 + self.second
    }
}

/// Seconds and nanoseconds that a point in time can have.
pub open spec fn timestamp_ok(secs: int, nanos: int) -> bool {
    &&& (first_day() - 719163) * 86400 <= secs < (last_day() + 1 - 719163) * 86400
    &&& 0 <= nanos < 2_000_000_000
    &&& (nanos >= 1_000_000_000 ==> secs % 60 == 59)
}

/// The first second that a point in time can have.
pub const FIRST_SECOND: i64 = -8_334_601_228_800;

impl Moment {
    /// The clock fields are ones that a clock can show.
    pub open spec fn wf(self) -> bool {
        self.hour < 24 && self.minute < 60
    }

    /// `self` is no later than `other`.
    pub open spec fn no_later_than(self, other: Moment) -> bool {
        self.secs < other.secs || (self.secs == other.secs && self.nanos <= other.nanos)
    }
}

/// `a` comes before `b`.
pub open spec fn earlier(a: Date, b: Date) -> bool {
    ||| a.year < b.year
    ||| a.year == b.year && a.month < b.month
    ||| a.year == b.year && a.month == b.month && a.day < b.day
}

/// The English name of a day of the week, 0 for Monday.
pub open spec fn weekday_name(w: int) -> Seq<char> {
    if w == 0 {
        "Monday"@
    } else if w == 1 {
        "Tuesday"@
    } else if w == 2 {
        "Wednesday"@
    } else if w == 3 {
        "Thursday"@
    } else if w == 4 {
        "Friday"@
    } else if w == 5 {
        "Saturday"@
    } else {
        "Sunday"@
    }
}

/// The English name of a month, 1 for January.
pub open spec fn month_name(m: int) -> Seq<char> {
    if m == 1 {
        "January"@
    } else if m == 2 {
        "February"@
    } else if m == 3 {
        "March"@
    } else if m == 4 {
        "April"@
    } else if m == 5 {
        "May"@
    } else if m == 6 {
        "June"@
    } else if m == 7 {
        "July"@
    } else if m == 8 {
        "August"@
    } else if m == 9 {
        "September"@
    } else if m == 10 {
        "October"@
    } else if m == 11 {
        "November"@
    } else {
        "December"@
    }
}

/// At least four digits of a number.
pub open spec fn four_digits(n: nat) -> Seq<char> {
    let d = decimal(n);
    if d.len() >= 4 {
        d
    } else {
        Seq::new((4 - d.len()) as nat, |i: int| '0') + d
    }
}

/// A year as text: at least four digits, and a sign outside of 0 to 9999.
pub open spec fn year_text(year: int) -> Seq<char> {
    if 0 <= year <= 9999 {
        four_digits(year as nat)
    } else if year < 0 {
        seq!['-'] + four_digits((-year) as nat)
    } else {
        seq!['+'] + four_digits(year as nat)
    }
}

/// A date as `YYYY-MM-DD`.
pub open spec fn iso_text(d: Date) -> Seq<char> {
    year_text(d.year as int) + "-"@ + two_digits(d.month as int) + "-"@ + two_digits(d.day as int)
}

/// A date as `YYYYMMDD`.
pub open spec fn compact_text(d: Date) -> Seq<char> {
    year_text(d.year as int) + two_digits(d.month as int) + two_digits(d.day as int)
}

/// A date as `Thursday, 6 August`.
pub open spec fn day_text(d: Date) -> Seq<char> {
    weekday_name(d.weekday()) + ", "@ + decimal(d.day as nat) + " "@ + month_name(d.month as int)
}

/// A date as `Thursday, 06 August 2026`.
pub open spec fn long_text(d: Date) -> Seq<char> {
    weekday_name(d.weekday()) + ", "@ + two_digits(d.day as int) + " "@ + month_name(d.month as int)
        + " "@ + year_text(d.year as int)
}

/// A weekday, a day and a month as councils write them, followed by a year.
pub open spec fn dated_text(weekday: int, d: Date) -> Seq<char> {
    weekday_name(weekday) + ", "@ + decimal(d.day as nat) + " "@ + month_name(d.month as int) + " "@
        + decimal(d.year as nat)
}

// --- Names for what `chrono` reads ----------------------------------------------

/// The date that `chrono::NaiveDate::parse_from_str` reads from `text` by
/// `format`.
pub uninterp spec fn date_read(text: Seq<char>, format: Seq<char>) -> Option<Date>;

/// The time that `chrono::NaiveTime::parse_from_str` reads from `text` by
/// `format`, to the minute.
pub uninterp spec fn time_read(text: Seq<char>, format: Seq<char>) -> Option<Time>;

/// The date and time that `chrono::NaiveDateTime::parse_from_str` reads from
/// `text` by the format `%Y%m%dT%H%M%S`.
pub uninterp spec fn naive_read(text: Seq<char>) -> Option<Naive>;

/// The seconds and nanoseconds since the start of 1970 that
/// `chrono::DateTime::parse_from_rfc3339` reads from `text`.
pub uninterp spec fn rfc3339_read(text: Seq<char>) -> Option<(i64, u32)>;

// --- Facts about the models ---------------------------------------------------

/// Unfolds the days before each month of a year.
proof fn lemma_months(year: int)
    ensures
        days_before_month(year, 1) == 0,
        days_before_month(year, 2) == 31,
        days_before_month(year, 3) == 31 + month_len(year, 2),
        days_before_month(year, 4) == 62 + month_len(year, 2),
        days_before_month(year, 5) == 92 + month_len(year, 2),
        days_before_month(year, 6) == 123 + month_len(year, 2),
        days_before_month(year, 7) == 153 + month_len(year, 2),
        days_before_month(year, 8) == 184 + month_len(year, 2),
        days_before_month(year, 9) == 215 + month_len(year, 2),
        days_before_month(year, 10) == 245 + month_len(year, 2),
        days_before_month(year, 11) == 276 + month_len(year, 2),
        days_before_month(year, 12) == 306 + month_len(year, 2),
{
    reveal_with_fuel(days_before_month, 12);
}

proof fn lemma_year_len(year: int)
    ensures
        days_before_year(year + 1) == days_before_year(year) + 337 + month_len(year, 2),
{
}

proof fn lemma_years(a: int, b: int)
    requires
        a <= b,
    ensures
        days_before_year(a) + 365 * (b - a) <= days_before_year(b),
    decreases b - a,
{
    if a < b {
        lemma_years(a, b - 1);
        lemma_year_len(b - 1);
    }
}

/// Dates come in the order of their day numbers.
pub proof fn lemma_date_order(a: Date, b: Date)
    requires
        a.wf(),
        b.wf(),
    ensures
        earlier(a, b) <==> a.number() < b.number(),
        a.number() == b.number() ==> a == b,
{
    lemma_months(a.year as int);
    lemma_months(b.year as int);
    if earlier(a, b) {
        lemma_date_order_forward(a, b);
    } else if earlier(b, a) {
        lemma_date_order_forward(b, a);
    } else {
        assert(a == b);
    }
}

proof fn lemma_date_order_forward(a: Date, b: Date)
    requires
        a.wf(),
        b.wf(),
        earlier(a, b),
    ensures
        a.number() < b.number(),
{
    lemma_months(a.year as int);
    lemma_months(b.year as int);
    if a.year < b.year {
        lemma_year_len(a.year as int);
        lemma_years(a.year + 1, b.year as int);
        assert(days_before_month(a.year as int, a.month as int) + a.day <= 337 + month_len(
            a.year as int,
            2,
        ));
        assert(days_before_month(b.year as int, b.month as int) >= 0);
    }
}

/// The day numbers of dates lie between the first and the last day.
pub proof fn lemma_date_range(d: Date)
    requires
        d.wf(),
    ensures
        first_day() <= d.number() <= last_day(),
{
    let lo = Date { year: MIN_YEAR, month: 1, day: 1 };
    let hi = Date { year: MAX_YEAR, month: 12, day: 31 };
    lemma_months(MIN_YEAR as int);
    lemma_months(MAX_YEAR as int);
    lemma_year_len(MAX_YEAR as int);
    lemma_date_order(d, lo);
    lemma_date_order(d, hi);
}

proof fn lemma_months_gap(y: int, z: int, month: int)
    requires
        1 <= month <= 12,
    ensures
        days_before_month(z, month) - days_before_month(y, month) == (if month <= 2 {
            0
        } else {
            month_len(z, 2) - month_len(y, 2)
        }),
{
    lemma_months(y);
    lemma_months(z);
}

proof fn lemma_residues(n: int, gap: int)
    requires
        365 <= gap <= 366 || 730 <= gap <= 732,
    ensures
        n % 7 != (n + gap) % 7,
{
}

/// A day and month fall on different weekdays in years at most two apart.
pub proof fn lemma_weekday_shifts(a: Date, b: Date)
    requires
        a.wf(),
        b.wf(),
        a.month == b.month,
        a.day == b.day,
        a.year < b.year <= a.year + 2,
    ensures
        a.weekday() != b.weekday(),
{
    let y = a.year as int;
    let z = b.year as int;
    lemma_months_gap(y, z, a.month as int);
    lemma_year_len(y);
    lemma_year_len(y + 1);
    let gap = b.number() - a.number();
    assert(28 <= month_len(y, 2) <= 29 && 28 <= month_len(y + 1, 2) <= 29 && 28 <= month_len(y + 2, 2)
        <= 29);
    assert(365 <= gap <= 366 || 730 <= gap <= 732) by {
        if z == y + 1 {
            assert(gap == days_before_year(y + 1) - days_before_year(y) + (days_before_month(
                y + 1,
                a.month as int,
            ) - days_before_month(y, a.month as int)));
        } else {
            assert(z == y + 2);
        }
    }
    lemma_residues(a.number() - 1, gap);
}

/// The days are numbered one after the other, through the months and the years;
/// the first of January 1970 was a Thursday and has the number from which moments
/// are counted.
pub proof fn law_days_are_numbered_in_order(d: Date, next: Date)
    requires
        d.wf(),
        next.wf(),
        ({
            ||| next.year == d.year && next.month == d.month && next.day == d.day + 1
            ||| next.year == d.year && next.month == d.month + 1 && next.day == 1 && (if d.month == 2 {
                d.day == (if (d.year as int) % 4 == 0 && ((d.year as int) % 100 != 0 || (d.year as int) % 400
                    == 0) {
                    29int
                } else {
                    28
                })
            } else if d.month == 4 || d.month == 6 || d.month == 9 || d.month == 11 {
                d.day == 30
            } else {
                d.day == 31
            })
            ||| next.year == d.year + 1 && next.month == 1 && next.day == 1 && d.month == 12 && d.day
                == 31
        }),
    ensures
        next.number() == d.number() + 1,
        next.weekday() == (d.weekday() + 1) % 7,
        (Date { year: 1970, month: 1, day: 1 }).number() == 719163,
        (Date { year: 1970, month: 1, day: 1 }).weekday() == 3,
{
    let epoch = Date { year: 1970, month: 1, day: 1 };
    assert(days_before_month(1970, 1) == 0);
    assert(epoch.number() == 719163);
    if next.year == d.year {
    } else {
        lemma_months(d.year as int);
        lemma_year_len(d.year as int);
    }
}

proof fn lemma_leading_zeros(k: nat, s: Seq<char>)
    ensures
        number(Seq::new(k, |i: int| '0') + s, 10) == number(s, 10),
    decreases s.len(), k,
{
    let zeros = Seq::new(k, |i: int| '0');
    let all = zeros + s;
    if s.len() > 0 {
        assert(all.drop_last() =~= zeros + s.drop_last());
        lemma_leading_zeros(k, s.drop_last());
    } else if k > 0 {
        let fewer = Seq::new((k - 1) as nat, |i: int| '0');
        assert(all.drop_last() =~= fewer + s);
        lemma_leading_zeros((k - 1) as nat, s);
    } else {
        assert(all =~= s);
    }
}

proof fn lemma_four_digits(n: nat)
    ensures
        number(four_digits(n), 10) == n,
        four_digits(n).len() >= 4,
        n <= 9999 ==> four_digits(n).len() == 4,
        digit(four_digits(n)[0]),
{
    lemma_decimal(n);
    let d = decimal(n);
    if d.len() < 4 {
        lemma_leading_zeros((4 - d.len()) as nat, d);
    } else {
        if n <= 9999 {
            reveal_with_fuel(decimal, 5);
        }
        assert(digit(d[0]));
    }
}

proof fn lemma_year_texts(a: int, b: int)
    requires
        year_text(a) == year_text(b),
    ensures
        a == b,
{
    let x = year_text(a);
    let y = year_text(b);
    lemma_four_digits((if a < 0 {
        -a
    } else {
        a
    }) as nat);
    lemma_four_digits((if b < 0 {
        -b
    } else {
        b
    }) as nat);
    assert(x[0] == y[0]);
    if a < 0 {
        assert(x.skip(1) =~= four_digits((-a) as nat));
        assert(y.skip(1) =~= four_digits((-b) as nat));
    } else if a > 9999 {
        assert(x.skip(1) =~= four_digits(a as nat));
        assert(y.skip(1) =~= four_digits(b as nat));
    }
}

proof fn lemma_two_digits(a: int, b: int)
    requires
        0 <= a < 100,
        0 <= b < 100,
        two_digits(a) == two_digits(b),
    ensures
        a == b,
{
    assert(two_digits(a)[0] == digit_char(a / 10) && two_digits(a)[1] == digit_char(a % 10));
    assert(two_digits(b)[0] == digit_char(b / 10) && two_digits(b)[1] == digit_char(b % 10));
    assert(forall|i: int, j: int|
        0 <= i < 10 && 0 <= j < 10 && #[trigger] digit_char(i) == #[trigger] digit_char(j) ==> i == j);
}

/// Two dates never have the same text, neither with hyphens nor without, so that
/// nothing kept under the text of a date is taken for that of another.
pub proof fn law_date_texts_tell_dates_apart(a: Date, b: Date)
    requires
        a.wf(),
        b.wf(),
    ensures
        iso_text(a) == iso_text(b) ==> a == b,
        compact_text(a) == compact_text(b) ==> a == b,
{
    reveal_strlit("-");
    let ya = year_text(a.year as int);
    let yb = year_text(b.year as int);
    if iso_text(a) == iso_text(b) {
        let x = iso_text(a);
        let y = iso_text(b);
        assert(x.len() == ya.len() + 6 && y.len() == yb.len() + 6);
        assert(ya.len() == yb.len());
        let n = ya.len() as int;
        assert(x.take(n) =~= ya);
        assert(y.take(n) =~= yb);
        lemma_year_texts(a.year as int, b.year as int);
        assert(x.subrange(n + 1, n + 3) =~= two_digits(a.month as int));
        assert(y.subrange(n + 1, n + 3) =~= two_digits(b.month as int));
        assert(x.subrange(n + 4, n + 6) =~= two_digits(a.day as int));
        assert(y.subrange(n + 4, n + 6) =~= two_digits(b.day as int));
        lemma_two_digits(a.month as int, b.month as int);
        lemma_two_digits(a.day as int, b.day as int);
    }
    if compact_text(a) == compact_text(b) {
        let x = compact_text(a);
        let y = compact_text(b);
        assert(x.len() == ya.len() + 4 && y.len() == yb.len() + 4);
        assert(ya.len() == yb.len());
        let n = ya.len() as int;
        assert(x.take(n) =~= ya);
        assert(y.take(n) =~= yb);
        lemma_year_texts(a.year as int, b.year as int);
        assert(x.subrange(n, n + 2) =~= two_digits(a.month as int));
        assert(y.subrange(n, n + 2) =~= two_digits(b.month as int));
        assert(x.subrange(n + 2, n + 4) =~= two_digits(a.day as int));
        assert(y.subrange(n + 2, n + 4) =~= two_digits(b.day as int));
        lemma_two_digits(a.month as int, b.month as int);
        lemma_two_digits(a.day as int, b.day as int);
    }
}

/// Outside of leap seconds the minutes between two readings are whole minutes that
/// have passed, counted towards zero, and as many backwards as forwards.
pub proof fn law_minutes_between(from: (i64, u32), to: (i64, u32))
    requires
        from.1 < 1_000_000_000,
        to.1 < 1_000_000_000,
    ensures
        minutes_between(from, to) == -minutes_between(to, from),
        to.0 - from.0 >= 0 && to.1 == from.1 ==> {
            let m = minutes_between(from, to);
            m * 60 <= to.0 - from.0 < (m + 1) * 60
        },
{
}

impl Ordered for Date {
    open spec fn at_most(self, other: Date) -> bool {
        !earlier(other, self)
    }

    proof fn total(a: Date, b: Date) {
    }

    proof fn transitive(a: Date, b: Date, c: Date) {
    }

    fn ranks_at_most(&self, other: &Date) -> (r: bool) {
        !is_earlier(*other, *self)
    }
}

// --- Functions ----------------------------------------------------------------

/// Whether `a` comes before `b`.
pub fn is_earlier(a: Date, b: Date) -> (r: bool)
    ensures
        r == earlier(a, b),
{
    a.year < b.year || (a.year == b.year && (a.month < b.month || (a.month == b.month && a.day
        < b.day)))
}

/// `chrono::NaiveDate::checked_add_days`: the date `n` days after `d`, or
/// `None` when that is past the last date.
#[verifier::external_body]
pub(crate) fn plus_days(d: Date, n: u64) -> (r: Option<Date>)
    requires
        d.wf(),
    ensures
        match r {
            Some(e) => e.wf() && e.number() == d.number() + n,
            None => d.number() + n > last_day(),
        },
{
    chrono::NaiveDate::from_ymd_opt(d.year, d.month, d.day)
        .unwrap()
        .checked_add_days(chrono::Days::new(n))
        .map(|e| Date { year: e.year(), month: e.month(), day: e.day() })
}

/// `chrono::NaiveDate::checked_sub_days`: the date `n` days before `d`, or
/// `None` when that is before the first date.
#[verifier::external_body]
pub(crate) fn minus_days(d: Date, n: u64) -> (r: Option<Date>)
    requires
        d.wf(),
    ensures
        match r {
            Some(e) => e.wf() && e.number() == d.number() - n,
            None => d.number() - n < first_day(),
        },
{
    chrono::NaiveDate::from_ymd_opt(d.year, d.month, d.day)
        .unwrap()
        .checked_sub_days(chrono::Days::new(n))
        .map(|e| Date { year: e.year(), month: e.month(), day: e.day() })
}

/// `chrono::NaiveDate::signed_duration_since` and `chrono::TimeDelta::num_days`:
/// how many days `b` comes after `a`, a negative number where it comes before.
#[verifier::external_body]
pub(crate) fn days_from(a: Date, b: Date) -> (r: i64)
    requires
        a.wf(),
        b.wf(),
    ensures
        r == b.number() - a.number(),
{
    chrono::NaiveDate::from_ymd_opt(b.year, b.month, b.day)
        .unwrap()
        .signed_duration_since(chrono::NaiveDate::from_ymd_opt(a.year, a.month, a.day).unwrap())
        .num_days()
}

/// The formats by which dates are written.
pub open spec fn date_format(format: Seq<char>) -> bool {
    ||| format == "%Y-%m-%d"@
    ||| format == "%Y%m%d"@
    ||| format == "%A, %-d %B"@
    ||| format == "%A, %d %B %Y"@
    ||| format == "%a"@
}

/// `chrono::NaiveDate::format`: the date written by one of five formats. Names
/// of days and months are the English ones.
#[verifier::external_body]
pub(crate) fn format_date(d: Date, format: &str) -> (r: String)
    requires
        d.wf(),
        date_format(format@),
    ensures
        format@ == "%Y-%m-%d"@ ==> r@ == iso_text(d),
        format@ == "%Y%m%d"@ ==> r@ == compact_text(d),
        format@ == "%A, %-d %B"@ ==> r@ == day_text(d),
        format@ == "%A, %d %B %Y"@ ==> r@ == long_text(d),
        format@ == "%a"@ ==> r@ == weekday_name(d.weekday()).take(3),
{
    chrono::NaiveDate::from_ymd_opt(d.year, d.month, d.day).unwrap().format(format).to_string()
}

/// `chrono::NaiveDate::parse_from_str`: the date that `text` stands for by
/// `format`. A date written with four digits of year, two of month and two of
/// day is read back; so is a weekday, a day, a month and a year, provided that
/// there is such a date and the weekday is its own, and otherwise nothing is. A
/// text that ends in a space and a year is read as a date of that year, if at all.
#[verifier::external_body]
pub(crate) fn parse_date_by(text: &str, format: &str) -> (r: Option<Date>)
    ensures
        r == date_read(text@, format@),
        r matches Some(d) ==> d.wf(),
        format@ == "%Y-%m-%d"@ ==> forall|d: Date|
            d.wf() && 0 <= d.year <= 9999 && text@ == iso_text(d) ==> r == Some(d),
        format@ == "%Y%m%d"@ ==> forall|d: Date|
            d.wf() && 0 <= d.year <= 9999 && text@ == compact_text(d) ==> r == Some(d),
        format@ == "%A, %d %B %Y"@ ==> forall|w: int, d: Date|
            0 <= w < 7 && 0 <= d.year <= 9999 && 1 <= d.month <= 12 && 1 <= d.day <= 31 && text@
                == #[trigger] dated_text(w, d) ==> r == (if d.wf() && w == d.weekday() {
                Some(d)
            } else {
                None
            }),
        format@ == "%A, %d %B %Y"@ ==> forall|words: Seq<char>, year: int|
            text@ == #[trigger] (words + " "@ + decimal_int(year)) ==> (r matches Some(d) ==> d.year
                == year),
{
    chrono::NaiveDate::parse_from_str(text, format)
        .ok()
        .map(|e| Date { year: e.year(), month: e.month(), day: e.day() })
}

/// `chrono::NaiveTime::parse_from_str`: the time that `text` stands for by
/// `format`. Two digits of hour and two of minute are read back.
#[verifier::external_body]
pub(crate) fn parse_time_by(text: &str, format: &str) -> (r: Option<Time>)
    ensures
        r == time_read(text@, format@),
        r matches Some(t) ==> t.wf(),
        format@ == "%H%M"@ ==> forall|t: Time|
            t.wf() && text@ == two_digits(t.hour as int) + #[trigger] two_digits(t.minute as int)
                ==> r == Some(t),
        format@ == "%H:%M"@ ==> forall|t: Time|
            t.wf() && text@ == #[trigger] t.text() ==> r == Some(t),
{
    chrono::NaiveTime::parse_from_str(text, format)
        .ok()
        .map(|t| Time { hour: t.hour(), minute: t.minute() })
}

/// `chrono::NaiveTime::format` with `%H:%M`: two digits of hour, a colon and two
/// digits of minute.
#[verifier::external_body]
pub(crate) fn format_time(t: Time) -> (r: String)
    requires
        t.wf(),
    ensures
        r@ == t.text(),
{
    chrono::NaiveTime::from_hms_opt(t.hour, t.minute, 0).unwrap().format("%H:%M").to_string()
}

/// `chrono::NaiveDateTime::parse_from_str` with `%Y%m%dT%H%M%S`: the date and
/// time that `text` stands for.
#[verifier::external_body]
pub(crate) fn parse_naive(text: &str) -> (r: Option<Naive>)
    ensures
        r == naive_read(text@),
        r matches Some(n) ==> n.wf(),
{
    chrono::NaiveDateTime::parse_from_str(text, "%Y%m%dT%H%M%S").ok().map(
        |n| Naive {
            date: Date { year: n.year(), month: n.month(), day: n.day() },
            hour: n.hour(),
            minute: n.minute(),
            second: n.second(),
            nanos: n.nanosecond(),
        },
    )
}

/// `chrono::DateTime::parse_from_rfc3339`: the seconds and nanoseconds since the
/// start of 1970 of the point in time that `text` stands for.
#[verifier::external_body]
pub(crate) fn parse_rfc3339(text: &str) -> (r: Option<(i64, u32)>)
    ensures
        r == rfc3339_read(text@),
        r matches Some(t) ==> timestamp_ok(t.0 as int, t.1 as int),
{
    chrono::DateTime::parse_from_rfc3339(text)
        .ok()
        .map(|t| (t.timestamp(), t.timestamp_subsec_nanos()))
}

/// `chrono::DateTime::with_timezone` with the local zone: the same point in
/// time, with what the local clock shows at it. Which hour and minute that is
/// depends on the machine's time zone.
#[verifier::external_body]
pub(crate) fn at_local(secs: i64, nanos: u32) -> (r: Moment)
    requires
        timestamp_ok(secs as int, nanos as int),
    ensures
        r.secs == secs,
        r.nanos == nanos,
        r.wf(),
{
    let t = chrono::DateTime::from_timestamp(secs, nanos).unwrap().with_timezone(&chrono::Local);
    Moment { secs: t.timestamp(), nanos: t.timestamp_subsec_nanos(), hour: t.hour(), minute: t.minute() }
}

/// `chrono::TimeZone::from_utc_datetime` with UTC and `DateTime::timestamp`: the
/// seconds and nanoseconds of a date and time that is read in UTC.
#[verifier::external_body]
pub(crate) fn utc_time(n: Naive) -> (r: (i64, u32))
    requires
        n.wf(),
    ensures
        r.0 == n.utc_secs(),
        r.1 == n.nanos,
        timestamp_ok(r.0 as int, r.1 as int),
{
    let d = chrono::NaiveDate::from_ymd_opt(n.date.year, n.date.month, n.date.day).unwrap();
    let t = chrono::Utc.from_utc_datetime(
        &d.and_hms_nano_opt(n.hour, n.minute, n.second, n.nanos).unwrap(),
    );
    (t.timestamp(), t.timestamp_subsec_nanos())
}

/// The seconds and nanoseconds of a date and time in a time zone, as
/// `chrono_tz::Tz` reads the zone's name and as its `from_local_datetime` and
/// `single` give the time: nothing for a name that is no zone, and nothing within
/// for a time that the zone's clocks show twice or never.
pub uninterp spec fn zone_time(tzid: Seq<char>, n: Naive) -> Option<Option<(i64, u32)>>;

/// `chrono_tz::Tz::from_str`, `chrono::TimeZone::from_local_datetime`,
/// `chrono::MappedLocalTime::single` and `chrono::DateTime::with_timezone` with the
/// local zone: the point in time of a date and time in a time zone, with what the
/// local clock shows at it. Which hour and minute that is depends on the machine's
/// time zone.
#[verifier::external_body]
pub(crate) fn zoned_time(tzid: &str, n: Naive) -> (r: Option<Option<Moment>>)
    requires
        n.wf(),
    ensures
        zone_time(tzid@, n) == (match r {
            None => None,
            Some(None) => Some(None),
            Some(Some(m)) => Some(Some((m.secs, m.nanos))),
        }),
        r matches Some(Some(m)) ==> m.wf(),
{
    let d = chrono::NaiveDate::from_ymd_opt(n.date.year, n.date.month, n.date.day).unwrap();
    let naive = d.and_hms_nano_opt(n.hour, n.minute, n.second, n.nanos).unwrap();
    let of_time = |t: chrono::DateTime<chrono::Local>| Moment {
        secs: t.timestamp(),
        nanos: t.timestamp_subsec_nanos(),
        hour: t.hour(),
        minute: t.minute(),
    };
    let tz = tzid.parse::<chrono_tz::Tz>().ok()?;
    Some(tz.from_local_datetime(&naive).single().map(|t| of_time(t.with_timezone(&chrono::Local))))
}

/// `chrono::TimeZone::from_local_datetime` with the local zone, and
/// `chrono::MappedLocalTime::single`: the point in time at which the local clock
/// shows this date and time. Which one that is depends on the machine's time
/// zone; it is less than a day from the time in UTC. There is none where the
/// clocks show the time twice or never.
#[verifier::external_body]
pub(crate) fn floating_time(n: Naive) -> (r: Option<Moment>)
    requires
        n.wf(),
    ensures
        r matches Some(m) ==> m.wf() && m.hour == n.hour && m.minute == n.minute && m.nanos
            == n.nanos && -86400 < m.secs - n.utc_secs() < 86400,
{
    let d = chrono::NaiveDate::from_ymd_opt(n.date.year, n.date.month, n.date.day).unwrap();
    let naive = d.and_hms_nano_opt(n.hour, n.minute, n.second, n.nanos).unwrap();
    chrono::Local.from_local_datetime(&naive).single().map(
        |t| Moment {
            secs: t.timestamp(),
            nanos: t.timestamp_subsec_nanos(),
            hour: t.hour(),
            minute: t.minute(),
        },
    )
}

/// `chrono::TimeZone::from_local_datetime` with the local zone, and
/// `chrono::MappedLocalTime::earliest`: the point in time at which a day begins
/// by the local clock. Which one that is depends on the machine's time zone; it
/// is less than a day from midnight in UTC. There is none where the clocks are
/// put forward at midnight.
#[verifier::external_body]
pub(crate) fn local_midnight(date: Date) -> (r: Option<Moment>)
    requires
        date.wf(),
    ensures
        r matches Some(m) ==> m.wf() && timestamp_ok(m.secs as int, m.nanos as int) && m.hour == 0
            && m.minute == 0 && m.nanos == 0 && -86400 < m.secs - (date.number() - 719163) * 86400
            < 86400,
{
    let d = chrono::NaiveDate::from_ymd_opt(date.year, date.month, date.day).unwrap();
    chrono::Local.from_local_datetime(&d.and_hms_opt(0, 0, 0).unwrap()).earliest().map(
        |t| Moment {
            secs: t.timestamp(),
            nanos: t.timestamp_subsec_nanos(),
            hour: t.hour(),
            minute: t.minute(),
        },
    )
}

/// Points in time whose local dates have years of four digits.
pub open spec fn four_digit_years(secs: int) -> bool {
    -62_135_510_400 <= secs <= 253_402_214_400
}

/// `chrono::DateTime::with_timezone` with the local zone and
/// `chrono::DateTime::to_rfc3339`: a point in time as RFC 3339 text, and how many
/// seconds the local clock is ahead of UTC at it. Which text that is depends on
/// the machine's time zone; the point in time is read back from it, provided that
/// the offset is in whole minutes, which is all that the text has room for.
#[verifier::external_body]
pub(crate) fn local_text(secs: i64) -> (r: (String, i32))
    requires
        timestamp_ok(secs as int, 0),
    ensures
        four_digit_years(secs as int) && r.1 % 60 == 0 ==> rfc3339_read(r.0@) == Some((secs, 0u32)),
{
    let t = chrono::DateTime::from_timestamp(secs, 0).unwrap().with_timezone(&chrono::Local);
    (t.to_rfc3339(), t.offset().local_minus_utc())
}

/// A reading of the clock.
#[derive(Debug, Clone)]
pub struct Stamp {
    /// Whole seconds since the start of 1970 in UTC.
    pub secs: i64,
    /// Nanoseconds past the second.
    pub nanos: u32,
    /// The local date.
    pub date: Date,
    /// How many seconds the local clock is ahead of UTC.
    pub offset: i32,
    /// The reading as RFC 3339 text.
    pub text: String,
}

impl Stamp {
    /// RFC 3339 has room for the reading: four digits for the year, and whole
    /// minutes for the offset.
    pub open spec fn writable(self) -> bool {
        0 <= self.date.year <= 9999 && self.offset % 60 == 0
    }

    /// The parts are ones that a clock can give, and the text reads back as the
    /// time where there is room for it.
    pub open spec fn wf(self) -> bool {
        &&& self.date.wf()
        &&& timestamp_ok(self.secs as int, self.nanos as int)
        &&& self.nanos < 1_000_000_000
        &&& self.writable() ==> rfc3339_read(self.text@) == Some((self.secs, self.nanos))
    }
}

/// `chrono::Local::now` and `chrono::DateTime::to_rfc3339`: the present time, and
/// a text from which it is read back where RFC 3339 has room for it. Nothing is
/// said of which time it is.
#[verifier::external_body]
fn now() -> (r: Stamp)
    ensures
        r.wf(),
{
    let t = chrono::Local::now();
    let d = t.date_naive();
    Stamp {
        secs: t.timestamp(),
        nanos: t.timestamp_subsec_nanos(),
        date: Date { year: d.year(), month: d.month(), day: d.day() },
        offset: t.offset().local_minus_utc(),
        text: t.to_rfc3339(),
    }
}

/// The clock gave this reading: it is the present time of some moment of the run.
pub closed spec fn reads(at: Stamp) -> bool {
    call_ensures(now, (), at)
}

/// Reads the clock.
pub(crate) fn read_clock() -> (r: Stamp)
    ensures
        reads(r),
        r.wf(),
{
    now()
}

/// The seconds by which a leap second lengthens the time between two points in
/// time, by their seconds within the day.
pub open spec fn leap_shift(from: (i64, u32), to: (i64, u32)) -> int {
    let a = from.0 as int % 86400;
    let b = to.0 as int % 86400;
    if b > a && from.1 >= 1_000_000_000 {
        1
    } else if b < a && to.1 >= 1_000_000_000 {
        -1
    } else {
        0
    }
}

/// Whole minutes, cut off toward zero, from one point in time, as seconds and
/// nanoseconds, to a later or earlier one.
pub open spec fn minutes_between(from: (i64, u32), to: (i64, u32)) -> int {
    let ns = (to.0 - from.0 + leap_shift(from, to)) * 1_000_000_000 + (to.1 - from.1);
    if ns >= 0 {
        ns / 60_000_000_000
    } else {
        -((-ns) / 60_000_000_000)
    }
}

/// `chrono::DateTime::signed_duration_since` and `TimeDelta::num_minutes`: the
/// whole minutes from one point in time to another, cut off toward zero.
#[verifier::external_body]
pub(crate) fn minutes_from(from: (i64, u32), to: (i64, u32)) -> (r: i64)
    requires
        timestamp_ok(from.0 as int, from.1 as int),
        timestamp_ok(to.0 as int, to.1 as int),
    ensures
        r == minutes_between(from, to),
{
    let a = chrono::DateTime::from_timestamp(from.0, from.1).unwrap();
    let b = chrono::DateTime::from_timestamp(to.0, to.1).unwrap();
    b.signed_duration_since(a).num_minutes()
}

} // verus!
