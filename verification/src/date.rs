//! The time of a response as an HTTP date, such as
//! `Thu, 01 Jan 1970 00:00:00 GMT`.
//!
//! The library does not read the clock. The program hands it the seconds since
//! the start of 1970 (UTC) and gets the text for the `Date` field.

use vstd::prelude::*;
use vstd::string::*;

verus! {

/// The first second that has no HTTP date: the start of the year 10000.
pub const END_OF_DATES: u64 = 253402300800;

pub open spec fn is_leap(year: int) -> bool {
    year % 4 == 0 && (year % 100 != 0 || year % 400 == 0)
}

pub open spec fn days_in_year(year: int) -> int {
    if is_leap(year) {
        366
    } else {
        365
    }
}

pub open spec fn days_in_month(year: int, month: int) -> int {
    if month == 2 {
        if is_leap(year) {
            29
        } else {
            28
        }
    } else if month == 4 || month == 6 || month == 9 || month == 11 {
        30
    } else {
        31
    }
}

/// The days from the start of 1970 to the start of `year`.
pub open spec fn days_before_year(year: int) -> int
    decreases year - 1970,
{
    if year <= 1970 {
        0
    } else {
        days_before_year(year - 1) + days_in_year(year - 1)
    }
}

/// The days from the start of `year` to the start of its month `month`.
pub open spec fn days_before_month(year: int, month: int) -> int
    decreases month,
{
    if month <= 1 {
        0
    } else {
        days_before_month(year, month - 1) + days_in_month(year, month - 1)
    }
}

/// A moment between 1970 and 9999, in UTC.
#[derive(Debug, Clone, Copy, PartialEq, Eq, Structural)]
pub struct HttpDate {
    pub year: u16,
    /// 1 is January.
    pub month: u8,
    pub day: u8,
    /// 0 is Sunday.
    pub weekday: u8,
    pub hour: u8,
    pub minute: u8,
    pub second: u8,
}

impl HttpDate {
    /// Whether the fields are a date of the calendar and a time of the day.
    pub open spec fn is_valid(self) -> bool {
        &&& 1970 <= self.year <= 9999
        &&& 1 <= self.month <= 12
        &&& 1 <= self.day <= days_in_month(self.year as int, self.month as int)
        &&& self.weekday < 7
        &&& self.hour < 24
        &&& self.minute < 60
        &&& self.second < 60
    }

    /// The days from the start of 1970 to this date.
    pub open spec fn day_number(self) -> int {
        days_before_year(self.year as int) + days_before_month(self.year as int, self.month as int)
            + self.day - 1
    }

    /// The seconds from the start of 1970 to this moment.
    pub open spec fn seconds(self) -> int {
        self.day_number() * 86400 + self.hour * 3600 + self.minute * 60 + self.second
    }

    /// Whether this is the moment `seconds` after the start of 1970: a date
    /// and a time that count back to `seconds`, with the day of the week that
    /// a Thursday at day 0 makes it.
    pub open spec fn is_moment(self, seconds: int) -> bool {
        &&& self.is_valid()
        &&& self.seconds() == seconds
        &&& self.weekday == (self.day_number() + 4) % 7
    }
}

/// The leap years from year 1 up to `year`.
spec fn leaps_through(year: int) -> int {
    year / 4 - year / 100 + year / 400
}

proof fn lemma_days_before_year(year: int)
    requires
        1970 <= year,
    ensures
        days_before_year(year) == 365 * (year - 1970) + leaps_through(year - 1) - 477,
        365 * (year - 1970) <= days_before_year(year) <= 366 * (year - 1970),
    decreases year - 1970,
{
    if year > 1970 {
        lemma_days_before_year(year - 1);
        let y = year - 1;
        assert(leaps_through(y) - leaps_through(y - 1) == if is_leap(y) {
            1int
        } else {
            0int
        });
    }
}

fn leap(year: u64) -> (r: bool)
    ensures
        r == is_leap(year as int),
{
    year % 4 == 0 && (year % 100 != 0 || year % 400 == 0)
}

fn year_start(year: u64) -> (days: u64)
    requires
        1970 <= year <= 10000,
    ensures
        days == days_before_year(year as int),
{
    proof {
        lemma_days_before_year(year as int);
    }
    let y = year - 1;
    365 * (year - 1970) + (y / 4 - y / 100 + y / 400) - 477
}

fn month_len(year: u64, month: u64) -> (days: u64)
    ensures
        days == days_in_month(year as int, month as int),
{
    if month == 2 {
        if leap(year) {
            29
        } else {
            28
        }
    } else if month == 4 || month == 6 || month == 9 || month == 11 {
        30
    } else {
        31
    }
}

proof fn lemma_year_is_twelve_months(year: int)
    ensures
        days_before_month(year, 13) == days_in_year(year),
{
    reveal_with_fuel(days_before_month, 14);
}

impl HttpDate {
    /// The moment `seconds` after the start of 1970, if it lies before the
    /// year 10000.
    pub fn from_unix(seconds: u64) -> (r: Option<HttpDate>)
        ensures
            match r {
                Some(date) => date.is_moment(seconds as int),
                None => seconds >= END_OF_DATES,
            },
    {
        if seconds >= END_OF_DATES {
            return None;
        }
        let days = seconds / 86400;
        let rest = seconds % 86400;
        proof {
            lemma_days_before_year(10000);
        }
        let mut year: u64 = 1970 + days / 366;
        proof {
            lemma_days_before_year(year as int);
        }
        while year < 9999 && year_start(year + 1) <= days
            invariant
                1970 <= year <= 9999,
                days_before_year(year as int) <= days,
                days < days_before_year(10000),
            decreases 9999 - year,
        {
            year += 1;
        }
        assert(days < days_before_year(year + 1));
        let mut left = days - year_start(year);
        let mut month: u64 = 1;
        proof {
            lemma_year_is_twelve_months(year as int);
        }
        while left >= month_len(year, month)
            invariant
                1970 <= year <= 9999,
                1 <= month <= 12,
                left + days_before_month(year as int, month as int) + days_before_year(year as int) == days,
                left + days_before_month(year as int, month as int) < days_before_month(year as int, 13),
            decreases 12 - month,
        {
            proof {
                if month == 12 {
                    assert(days_before_month(year as int, 13) == days_before_month(year as int, 12)
                        + days_in_month(year as int, 12));
                }
            }
            left -= month_len(year, month);
            month += 1;
        }
        let date = HttpDate {
            year: year as u16,
            month: month as u8,
            day: (left + 1) as u8,
            weekday: ((days + 4) % 7) as u8,
            hour: (rest / 3600) as u8,
            minute: (rest % 3600 / 60) as u8,
            second: (rest % 60) as u8,
        };
        assert(date.day_number() == days);
        Some(date)
    }
}

/// The character of a decimal digit.
pub open spec fn digit(d: int) -> char {
    if d == 0 {
        '0'
    } else if d == 1 {
        '1'
    } else if d == 2 {
        '2'
    } else if d == 3 {
        '3'
    } else if d == 4 {
        '4'
    } else if d == 5 {
        '5'
    } else if d == 6 {
        '6'
    } else if d == 7 {
        '7'
    } else if d == 8 {
        '8'
    } else {
        '9'
    }
}

pub open spec fn two_digits(n: int) -> Seq<char> {
    seq![digit(n / 10), digit(n % 10)]
}

pub open spec fn four_digits(n: int) -> Seq<char> {
    seq![digit(n / 1000), digit(n / 100 % 10), digit(n / 10 % 10), digit(n % 10)]
}

pub open spec fn weekday_name(weekday: int) -> Seq<char> {
    if weekday == 0 {
        "Sun"@
    } else if weekday == 1 {
        "Mon"@
    } else if weekday == 2 {
        "Tue"@
    } else if weekday == 3 {
        "Wed"@
    } else if weekday == 4 {
        "Thu"@
    } else if weekday == 5 {
        "Fri"@
    } else {
        "Sat"@
    }
}

pub open spec fn month_name(month: int) -> Seq<char> {
    if month == 1 {
        "Jan"@
    } else if month == 2 {
        "Feb"@
    } else if month == 3 {
        "Mar"@
    } else if month == 4 {
        "Apr"@
    } else if month == 5 {
        "May"@
    } else if month == 6 {
        "Jun"@
    } else if month == 7 {
        "Jul"@
    } else if month == 8 {
        "Aug"@
    } else if month == 9 {
        "Sep"@
    } else if month == 10 {
        "Oct"@
    } else if month == 11 {
        "Nov"@
    } else {
        "Dec"@
    }
}

fn digit_str(d: u64) -> (s: &'static str)
    requires
        d < 10,
    ensures
        s@ == seq![digit(d as int)],
{
    proof {
        reveal_strlit("0");
        reveal_strlit("1");
        reveal_strlit("2");
        reveal_strlit("3");
        reveal_strlit("4");
        reveal_strlit("5");
        reveal_strlit("6");
        reveal_strlit("7");
        reveal_strlit("8");
        reveal_strlit("9");
    }
    let s = if d == 0 {
        "0"
    } else if d == 1 {
        "1"
    } else if d == 2 {
        "2"
    } else if d == 3 {
        "3"
    } else if d == 4 {
        "4"
    } else if d == 5 {
        "5"
    } else if d == 6 {
        "6"
    } else if d == 7 {
        "7"
    } else if d == 8 {
        "8"
    } else {
        "9"
    };
    assert(s@ =~= seq![digit(d as int)]);
    s
}

fn push_two(out: &mut String, n: u64)
    requires
        n < 100,
    ensures
        final(out)@ == old(out)@ + two_digits(n as int),
{
    out.append(digit_str(n / 10));
    out.append(digit_str(n % 10));
    assert(out@ =~= old(out)@ + two_digits(n as int));
}

fn push_four(out: &mut String, n: u64)
    requires
        n < 10000,
    ensures
        final(out)@ == old(out)@ + four_digits(n as int),
{
    out.append(digit_str(n / 1000));
    out.append(digit_str(n / 100 % 10));
    out.append(digit_str(n / 10 % 10));
    out.append(digit_str(n % 10));
    assert(out@ =~= old(out)@ + four_digits(n as int));
}

fn weekday_str(weekday: u8) -> (s: &'static str)
    ensures
        s@ == weekday_name(weekday as int),
{
    if weekday == 0 {
        "Sun"
    } else if weekday == 1 {
        "Mon"
    } else if weekday == 2 {
        "Tue"
    } else if weekday == 3 {
        "Wed"
    } else if weekday == 4 {
        "Thu"
    } else if weekday == 5 {
        "Fri"
    } else {
        "Sat"
    }
}

fn month_str(month: u8) -> (s: &'static str)
    ensures
        s@ == month_name(month as int),
{
    if month == 1 {
        "Jan"
    } else if month == 2 {
        "Feb"
    } else if month == 3 {
        "Mar"
    } else if month == 4 {
        "Apr"
    } else if month == 5 {
        "May"
    } else if month == 6 {
        "Jun"
    } else if month == 7 {
        "Jul"
    } else if month == 8 {
        "Aug"
    } else if month == 9 {
        "Sep"
    } else if month == 10 {
        "Oct"
    } else if month == 11 {
        "Nov"
    } else {
        "Dec"
    }
}

impl HttpDate {
    /// The date as it stands in a `Date` field: the name of the day, the day
    /// of the month, the name of the month, the year, the time, and `GMT`.
    pub open spec fn text(self) -> Seq<char> {
        weekday_name(self.weekday as int) + ", "@ + two_digits(self.day as int) + " "@ + month_name(
            self.month as int,
        ) + " "@ + four_digits(self.year as int) + " "@ + two_digits(self.hour as int) + ":"@
            + two_digits(self.minute as int) + ":"@ + two_digits(self.second as int) + " GMT"@
    }

    /// The date as it stands in a `Date` field.
    pub fn to_text(&self) -> (text: String)
        requires
            self.is_valid(),
        ensures
            text@ == self.text(),
    {
        let mut out = weekday_str(self.weekday).to_owned();
        out.append(", ");
        push_two(&mut out, self.day as u64);
        out.append(" ");
        out.append(month_str(self.month));
        out.append(" ");
        push_four(&mut out, self.year as u64);
        out.append(" ");
        push_two(&mut out, self.hour as u64);
        out.append(":");
        push_two(&mut out, self.minute as u64);
        out.append(":");
        push_two(&mut out, self.second as u64);
        out.append(" GMT");
        out
    }
}

/// The text for the `Date` field of a response that is sent `seconds` after
/// the start of 1970; none from the year 10000 on, which has no HTTP date.
pub fn http_date(seconds: u64) -> (r: Option<String>)
    ensures
        match r {
            Some(text) => exists|date: HttpDate| #[trigger] date.is_moment(seconds as int) && text@ == date.text(),
            None => seconds >= END_OF_DATES,
        },
{
    match HttpDate::from_unix(seconds) {
        Some(date) => Some(date.to_text()),
        None => None,
    }
}

proof fn lemma_months_grow(year: int, a: int, b: int)
    requires
        1 <= a <= b,
    ensures
        days_before_month(year, a) <= days_before_month(year, b),
    decreases b - a,
{
    if a < b {
        lemma_months_grow(year, a, b - 1);
    }
}

proof fn lemma_years_grow(a: int, b: int)
    requires
        1970 <= a <= b,
    ensures
        days_before_year(a) <= days_before_year(b),
    decreases b - a,
{
    if a < b {
        lemma_years_grow(a, b - 1);
    }
}

proof fn lemma_day_number_grows(a: HttpDate, b: HttpDate)
    requires
        a.is_valid(),
        b.is_valid(),
        a.year < b.year || (a.year == b.year && (a.month < b.month || (a.month == b.month && a.day
            < b.day))),
    ensures
        a.day_number() < b.day_number(),
{
    let y = a.year as int;
    let m = a.month as int;
    lemma_year_is_twelve_months(y);
    lemma_months_grow(y, m + 1, 13);
    assert(days_before_month(y, m + 1) == days_before_month(y, m) + days_in_month(y, m));
    if a.year < b.year {
        assert(days_before_year(y + 1) == days_before_year(y) + days_in_year(y));
        lemma_years_grow(y + 1, b.year as int);
        lemma_months_grow(b.year as int, 1, b.month as int);
    } else if a.month < b.month {
        lemma_months_grow(y, m + 1, b.month as int);
    }
}

/// A number of seconds is one moment only: two dates that count back to the
/// same seconds are the same date.
pub proof fn lemma_moment_is_unique(a: HttpDate, b: HttpDate, seconds: int)
    requires
        a.is_moment(seconds),
        b.is_moment(seconds),
    ensures
        a == b,
{
    let ta = a.hour * 3600 + a.minute * 60 + a.second;
    let tb = b.hour * 3600 + b.minute * 60 + b.second;
    assert(0 <= ta < 86400 && 0 <= tb < 86400);
    assert(a.day_number() == b.day_number());
    assert(ta == tb);
    if a.year != b.year || a.month != b.month || a.day != b.day {
        if a.year < b.year || (a.year == b.year && (a.month < b.month || (a.month == b.month && a.day
            < b.day))) {
            lemma_day_number_grows(a, b);
        } else {
            lemma_day_number_grows(b, a);
        }
    }
}

} // verus!
