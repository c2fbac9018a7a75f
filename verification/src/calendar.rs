use chrono::Datelike;
use chrono::Timelike;
use crate::parser::timestamp::{date_pattern_at, date_value, hhmm_pattern_at, time_value};
use vstd::prelude::*;

verus! {

/// The proleptic Gregorian leap-year rule.
pub open spec fn is_leap_year(y: int) -> bool {
    (y % 4 == 0 && y % 100 != 0) || y % 400 == 0
}

pub open spec fn days_in_month(y: int, m: int) -> int {
    if m == 2 {
        if is_leap_year(y) {
            29
        } else {
            28
        }
    } else if m == 4 || m == 6 || m == 9 || m == 11 {
        30
    } else {
        31
    }
}

/// The calendar days that `chrono::NaiveDate` can represent.
pub open spec fn valid_ymd(y: int, m: int, d: int) -> bool {
    &&& -262143 <= y <= 262142
    &&& 1 <= m <= 12
    &&& 1 <= d <= days_in_month(y, m)
}

/// The days of the months of `y` before month `m`.
pub open spec fn days_before_month(y: int, m: int) -> int {
    let base: int = if m == 1 {
        0
    } else if m == 2 {
        31
    } else if m == 3 {
        59
    } else if m == 4 {
        90
    } else if m == 5 {
        120
    } else if m == 6 {
        151
    } else if m == 7 {
        181
    } else if m == 8 {
        212
    } else if m == 9 {
        243
    } else if m == 10 {
        273
    } else if m == 11 {
        304
    } else {
        334
    };
    if m > 2 && is_leap_year(y) {
        base + 1
    } else {
        base
    }
}

/// The number of the day `y-m-d` in the proleptic Gregorian calendar, counting 0001-01-01 as
/// day 1 (earlier days count down through 0 and below).
pub open spec fn day_number(y: int, m: int, d: int) -> int {
    let p = y - 1;
    365 * p + p / 4 - p / 100 + p / 400 + days_before_month(y, m) + d
}

/// The number of the last day that `chrono::NaiveDate` can represent, 262142-12-31.
pub open spec fn last_day_number() -> int {
    day_number(262142, 12, 31)
}

/// The weekday of the day with number `n`, counted from Monday (0001-01-01 was a Monday).
pub open spec fn weekday_of(n: int) -> int {
    (n - 1) % 7
}

/// A calendar date (year, month 1-12, day 1-31).
#[derive(Clone, Copy, Debug, PartialEq, Eq, Structural)]
pub struct Date {
    pub year: i32,
    pub month: u32,
    pub day: u32,
}

/// A time of day to the minute.
#[derive(Clone, Copy, Debug, PartialEq, Eq, Structural)]
pub struct Time {
    pub hour: u32,
    pub minute: u32,
}

/// A date with a time of day.
#[derive(Clone, Copy, Debug, PartialEq, Eq, Structural)]
pub struct DateTime {
    pub date: Date,
    pub time: Time,
}

impl Date {
    pub open spec fn valid(self) -> bool {
        valid_ymd(self.year as int, self.month as int, self.day as int)
    }

    /// The number of the day in the proleptic Gregorian calendar.
    pub open spec fn number(self) -> int {
        day_number(self.year as int, self.month as int, self.day as int)
    }

    /// Calendar order.
    pub open spec fn spec_le(self, other: Date) -> bool {
        ||| self.year < other.year
        ||| self.year == other.year && self.month < other.month
        ||| self.year == other.year && self.month == other.month && self.day <= other.day
    }

    /// The date with these parts, where it exists.
    pub fn from_ymd_opt(year: i32, month: u32, day: u32) -> (r: Option<Date>)
        ensures
            r is Some <==> valid_ymd(year as int, month as int, day as int),
            r matches Some(d) ==> d == (Date { year, month, day }),
    {
        if chrono_date_exists(year, month, day) {
            Some(Date { year, month, day })
        } else {
            None
        }
    }

    /// `self` is on or before `other`.
    pub fn is_on_or_before(&self, other: &Date) -> (r: bool)
        ensures
            r == self.spec_le(*other),
    {
        self.year < other.year || (self.year == other.year && self.month < other.month) || (
        self.year == other.year && self.month == other.month && self.day <= other.day)
    }

    /// The weekday abbreviation that `chrono` formats with `%a` ("Mon" to "Sun").
    pub fn weekday_abbrev(&self) -> (r: &'static str)
        requires
            self.valid(),
        ensures
            r@ == weekday_name(weekday_of(self.number())),
    {
        let w = chrono_weekday_from_monday(self.year, self.month, self.day);
        if w == 0 {
            "Mon"
        } else if w == 1 {
            "Tue"
        } else if w == 2 {
            "Wed"
        } else if w == 3 {
            "Thu"
        } else if w == 4 {
            "Fri"
        } else if w == 5 {
            "Sat"
        } else {
            "Sun"
        }
    }
}

/// The `%a` abbreviation of the weekday counted from Monday (0).
pub open spec fn weekday_name(w: int) -> Seq<char> {
    if w == 0 {
        "Mon"@
    } else if w == 1 {
        "Tue"@
    } else if w == 2 {
        "Wed"@
    } else if w == 3 {
        "Thu"@
    } else if w == 4 {
        "Fri"@
    } else if w == 5 {
        "Sat"@
    } else {
        "Sun"@
    }
}

/// The English names of the days of the week, from Monday.
pub open spec fn english_weekdays() -> Seq<Seq<char>> {
    seq!["Monday"@, "Tuesday"@, "Wednesday"@, "Thursday"@, "Friday"@, "Saturday"@, "Sunday"@]
}

/// The `%a` name of each day is the first three letters of its English weekday: Monday
/// 2024-01-01 and the six days after it are named `Mon` to `Sun` in order, the day after any
/// day is the next weekday (Sunday followed by Monday), and every seventh day has the same
/// name.
pub proof fn lemma_weekday_names(n: int)
    ensures
        0 <= weekday_of(n) < 7,
        weekday_name(weekday_of(n)) == english_weekdays()[weekday_of(n)].subrange(0, 3),
        weekday_of(n + 1) == (weekday_of(n) + 1) % 7,
        weekday_name(weekday_of(n + 7)) == weekday_name(weekday_of(n)),
        forall|k: int|
            0 <= k < 7 ==> weekday_name(weekday_of(#[trigger] day_number(2024, 1, 1 + k)))
                == english_weekdays()[k].subrange(0, 3),
{
    reveal_strlit("Monday");
    reveal_strlit("Tuesday");
    reveal_strlit("Wednesday");
    reveal_strlit("Thursday");
    reveal_strlit("Friday");
    reveal_strlit("Saturday");
    reveal_strlit("Sunday");
    reveal_strlit("Mon");
    reveal_strlit("Tue");
    reveal_strlit("Wed");
    reveal_strlit("Thu");
    reveal_strlit("Fri");
    reveal_strlit("Sat");
    reveal_strlit("Sun");
    let e = english_weekdays();
    assert(e[0].subrange(0, 3) =~= "Mon"@);
    assert(e[1].subrange(0, 3) =~= "Tue"@);
    assert(e[2].subrange(0, 3) =~= "Wed"@);
    assert(e[3].subrange(0, 3) =~= "Thu"@);
    assert(e[4].subrange(0, 3) =~= "Fri"@);
    assert(e[5].subrange(0, 3) =~= "Sat"@);
    assert(e[6].subrange(0, 3) =~= "Sun"@);
    assert(day_number(2024, 1, 1) == 738886);
    assert(weekday_of(738886) == 0);
    assert forall|k: int| 0 <= k < 7 implies weekday_name(
        weekday_of(#[trigger] day_number(2024, 1, 1 + k)),
    ) == english_weekdays()[k].subrange(0, 3) by {
        assert(day_number(2024, 1, 1 + k) == 738886 + k);
        assert(weekday_of(738886 + k) == k);
    }
}

/// The Gregorian month lengths: thirty days have April, June, September and November,
/// February has 29 in a leap year and 28 otherwise, the other months 31. A year is a leap year
/// when it is divisible by 4 but not by 100, or by 400: 2000 and 2024 are, 1900 and 2023 are
/// not.
pub proof fn lemma_month_lengths(y: int, m: int)
    requires
        1 <= m <= 12,
    ensures
        days_in_month(y, m) == 30 <==> (m == 4 || m == 6 || m == 9 || m == 11),
        m == 2 ==> days_in_month(y, m) == (if is_leap_year(y) {
            29int
        } else {
            28int
        }),
        m != 2 && m != 4 && m != 6 && m != 9 && m != 11 ==> days_in_month(y, m) == 31,
        is_leap_year(2000),
        is_leap_year(2024),
        !is_leap_year(1900),
        !is_leap_year(2023),
        is_leap_year(y) <==> (y % 4 == 0 && (y % 100 != 0 || y % 400 == 0)),
{
}

/// Day numbers count the days one by one: the next day of a month, the first day of the next
/// month and the first day of the next year each come one day after; a year has 366 days when
/// it is a leap year and 365 otherwise; and 1970-01-01 is day 719163 (0001-01-01 being day 1).
pub proof fn lemma_day_numbers(y: int, m: int, d: int)
    requires
        1 <= m <= 12,
        1 <= d <= days_in_month(y, m),
    ensures
        d < days_in_month(y, m) ==> day_number(y, m, d + 1) == day_number(y, m, d) + 1,
        d == days_in_month(y, m) && m < 12 ==> day_number(y, m + 1, 1) == day_number(y, m, d)
            + 1,
        d == days_in_month(y, m) && m == 12 ==> day_number(y + 1, 1, 1) == day_number(y, m, d)
            + 1,
        day_number(y + 1, 1, 1) - day_number(y, 1, 1) == (if is_leap_year(y) {
            366int
        } else {
            365int
        }),
        day_number(1, 1, 1) == 1,
        day_number(1970, 1, 1) == 719163,
{
    let p = y - 1;
    assert((p + 1) / 4 == p / 4 + (if (p + 1) % 4 == 0 { 1int } else { 0int })) by (nonlinear_arith);
    assert((p + 1) / 100 == p / 100 + (if (p + 1) % 100 == 0 { 1int } else { 0int }))
        by (nonlinear_arith);
    assert((p + 1) / 400 == p / 400 + (if (p + 1) % 400 == 0 { 1int } else { 0int }))
        by (nonlinear_arith);
}

pub proof fn lemma_date_le_reflexive(a: Date)
    ensures
        a.spec_le(a),
{
}

pub proof fn lemma_date_le_transitive(a: Date, b: Date, c: Date)
    requires
        a.spec_le(b),
        b.spec_le(c),
    ensures
        a.spec_le(c),
{
}

pub proof fn lemma_date_le_antisymmetric(a: Date, b: Date)
    requires
        a.spec_le(b),
        b.spec_le(a),
    ensures
        a == b,
{
}

pub proof fn lemma_date_le_total(a: Date, b: Date)
    ensures
        a.spec_le(b) || b.spec_le(a),
{
}

proof fn lemma_next_year_starts_after(y: int)
    ensures
        day_number(y + 1, 1, 1) == day_number(y, 12, 31) + 1,
{
    let p = y - 1;
    assert(y / 4 - p / 4 == (if y % 4 == 0 {
        1int
    } else {
        0int
    }));
    assert(y / 100 - p / 100 == (if y % 100 == 0 {
        1int
    } else {
        0int
    }));
    assert(y / 400 - p / 400 == (if y % 400 == 0 {
        1int
    } else {
        0int
    }));
}

proof fn lemma_year_starts_ordered(y: int, z: int)
    requires
        y <= z,
    ensures
        day_number(y, 1, 1) <= day_number(z, 1, 1),
    decreases z - y,
{
    if y < z {
        lemma_year_starts_ordered(y, z - 1);
        lemma_next_year_starts_after(z - 1);
    }
}

proof fn lemma_months_ordered(y: int, m: int, n: int)
    requires
        1 <= m < n <= 12,
    ensures
        days_before_month(y, m) + days_in_month(y, m) <= days_before_month(y, n),
{
}

/// Every date that `chrono` can represent comes at the latest on its last day.
pub proof fn lemma_valid_date_not_after_last(x: Date)
    requires
        x.valid(),
    ensures
        x.number() <= last_day_number(),
{
    let last = Date { year: 262142, month: 12, day: 31 };
    assert(last.valid());
    assert(x.spec_le(last));
    lemma_date_before_is_earlier(x, last);
}

/// Calendar order is the order of the days in time: one valid date is on or before another
/// exactly when its day number is not greater.
pub proof fn lemma_date_order_is_time_order(a: Date, b: Date)
    requires
        a.valid(),
        b.valid(),
    ensures
        a.spec_le(b) <==> a.number() <= b.number(),
{
    if a.spec_le(b) {
        lemma_date_before_is_earlier(a, b);
    } else {
        lemma_date_before_is_earlier(b, a);
    }
}

proof fn lemma_date_before_is_earlier(a: Date, b: Date)
    requires
        a.valid(),
        b.valid(),
        a.spec_le(b),
    ensures
        a.number() <= b.number(),
        a != b ==> a.number() < b.number(),
{
    let (y, m, d) = (a.year as int, a.month as int, a.day as int);
    let (z, n, e) = (b.year as int, b.month as int, b.day as int);
    if y < z {
        if m < 12 {
            lemma_months_ordered(y, m, 12);
        }
        lemma_next_year_starts_after(y);
        lemma_year_starts_ordered(y + 1, z);
    } else if m < n {
        lemma_months_ordered(y, m, n);
    }
}

impl Time {
    pub open spec fn valid(self) -> bool {
        self.hour < 24 && self.minute < 60
    }

    /// The time with these parts, where it exists.
    pub fn from_hm_opt(hour: u32, minute: u32) -> (r: Option<Time>)
        ensures
            r is Some <==> (hour < 24 && minute < 60),
            r matches Some(t) ==> t == (Time { hour, minute }),
    {
        if chrono_time_exists(hour, minute) {
            Some(Time { hour, minute })
        } else {
            None
        }
    }

    /// Midnight.
    pub fn midnight() -> (r: Time)
        ensures
            r == (Time { hour: 0, minute: 0 }),
    {
        Time { hour: 0, minute: 0 }
    }
}

/// The date that `chrono` parses from `s` with the format `%Y-%m-%d`.
pub uninterp spec fn chrono_parse_ymd(s: Seq<char>) -> Option<(int, int, int)>;

/// `chrono::NaiveDate::from_ymd_opt(y, m, d).is_some()`. The contract claims what its
/// documentation states: a date exists for every day of the proleptic Gregorian calendar
/// in the supported year range, and for nothing else.
#[verifier::external_body]
fn chrono_date_exists(y: i32, m: u32, d: u32) -> (r: bool)
    ensures
        r == valid_ymd(y as int, m as int, d as int),
{
    chrono::NaiveDate::from_ymd_opt(y, m, d).is_some()
}

/// `chrono::NaiveTime::from_hms_opt(h, m, 0).is_some()`: documented to be `None` exactly on
/// an invalid hour or minute.
#[verifier::external_body]
fn chrono_time_exists(h: u32, m: u32) -> (r: bool)
    ensures
        r == (h < 24 && m < 60),
{
    chrono::NaiveTime::from_hms_opt(h, m, 0).is_some()
}

/// `chrono::Datelike::weekday` of the date, counted from Monday. The contract claims that it
/// is the weekday of the day's number in the proleptic Gregorian calendar.
#[verifier::external_body]
fn chrono_weekday_from_monday(y: i32, m: u32, d: u32) -> (r: u32)
    requires
        valid_ymd(y as int, m as int, d as int),
    ensures
        r == weekday_of(day_number(y as int, m as int, d as int)),
{
    chrono::NaiveDate::from_ymd_opt(y, m, d).unwrap().weekday().num_days_from_monday()
}

/// `chrono::NaiveDate::checked_add_days`. The contract claims what its documentation says:
/// the date `n` days later, or `None` where that date lies beyond the last one that
/// `NaiveDate` can represent.
#[verifier::external_body]
pub(crate) fn checked_add_days(date: Date, n: u64) -> (r: Option<Date>)
    requires
        date.valid(),
    ensures
        match r {
            Some(x) => x.valid() && x.number() == date.number() + n,
            None => date.number() + n > last_day_number(),
        },
{
    let d = chrono::NaiveDate::from_ymd_opt(date.year, date.month, date.day).unwrap();
    match d.checked_add_days(chrono::Days::new(n)) {
        Some(x) => Some(Date { year: x.year(), month: x.month(), day: x.day() }),
        None => None,
    }
}

/// `chrono::NaiveDate::parse_from_str(s, "%Y-%m-%d")`. The contract names the result and
/// claims that a date that comes back exists. Of ten characters `dddd-dd-dd` whose `d`s are in
/// the class `\d`, it claims what the parser's source shows: each number is read from ASCII
/// digits only (any other digit fails the parse), and the date is the one those numbers name,
/// where it exists.
#[verifier::external_body]
pub(crate) fn parse_ymd(s: &str) -> (r: Option<Date>)
    ensures
        match chrono_parse_ymd(s@) {
            Some(t) => r matches Some(x) && x.year == t.0 && x.month == t.1 && x.day == t.2
                && x.valid(),
            None => r is None,
        },
        s@.len() == 10 && date_pattern_at(s@, 0) ==> r == date_value(s@, 0),
{
    match chrono::NaiveDate::parse_from_str(s, "%Y-%m-%d") {
        Ok(x) => Some(Date { year: x.year(), month: x.month(), day: x.day() }),
        Err(_) => None,
    }
}

/// `chrono::NaiveTime::parse_from_str(s, "%H:%M")` on five characters `dd:dd` whose `d`s are
/// in the class `\d`. The contract claims what the parser's source shows: the numbers are
/// read from ASCII digits only (any other digit fails the parse), and the time is the one
/// they name, where it exists.
#[verifier::external_body]
pub(crate) fn parse_hm(s: &str) -> (r: Option<Time>)
    requires
        s@.len() == 5,
        hhmm_pattern_at(s@, 0),
    ensures
        r == time_value(s@, 0),
{
    match chrono::NaiveTime::parse_from_str(s, "%H:%M") {
        Ok(t) => Some(Time { hour: t.hour(), minute: t.minute() }),
        Err(_) => None,
    }
}

/// Today's date in the local time zone (`chrono::Local::now().date_naive()`); the contract
/// claims only that it exists.
#[verifier::external_body]
pub(crate) fn today() -> (r: Date)
    ensures
        r.valid(),
{
    let d = chrono::Local::now().date_naive();
    Date { year: d.year(), month: d.month(), day: d.day() }
}

} // verus!
