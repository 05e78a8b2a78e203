//! Calendar dates and their arithmetic.
//!
//! A [`Date`] is a plain year/month/day triple in the proleptic Gregorian
//! calendar, restricted to years 1 through 9999.  The spec-level
//! [`Date::day_number`] counts days from the calendar's origin and is the
//! yardstick for every statement about order and distance between dates.

use crate::text::{chars_to_string, dchar, dchar_x, digit_val, digit_val_x, string_chars};
use vstd::prelude::*;

verus! {

/// A calendar date.  Valid values satisfy [`Date::wf`].
#[derive(Debug, Clone, Copy, PartialEq, Eq, Structural)]
pub struct Date {
    pub year: i32,
    pub month: u8,
    pub day: u8,
}

/// Whether `y` is a leap year in the Gregorian calendar.
pub open spec fn is_leap_spec(y: int) -> bool {
    (y % 4 == 0 && y % 100 != 0) || y % 400 == 0
}

/// The number of days in month `m` of year `y` (months are 1-based).
pub open spec fn days_in_month_spec(y: int, m: int) -> int {
    if m == 1 { 31 }
    else if m == 2 { if is_leap_spec(y) { 29 } else { 28 } }
    else if m == 3 { 31 }
    else if m == 4 { 30 }
    else if m == 5 { 31 }
    else if m == 6 { 30 }
    else if m == 7 { 31 }
    else if m == 8 { 31 }
    else if m == 9 { 30 }
    else if m == 10 { 31 }
    else if m == 11 { 30 }
    else { 31 }
}

/// Days of year `y` that lie before month `m`.
pub open spec fn days_before_month(y: int, m: int) -> int
    decreases m,
{
    if m <= 1 { 0 } else { days_before_month(y, m - 1) + days_in_month_spec(y, m - 1) }
}

/// The length of year `y` in days.
pub open spec fn year_len(y: int) -> int {
    if is_leap_spec(y) { 366 } else { 365 }
}

/// Days that lie before January 1 of year `y`, counting from year 1.
pub open spec fn days_before_year(y: int) -> int
    decreases y,
{
    if y <= 1 { 0 } else { days_before_year(y - 1) + year_len(y - 1) }
}

impl Date {
    /// The date is a real calendar date within the supported year range.
    pub open spec fn wf(self) -> bool {
        &&& 1 <= self.year <= 9999
        &&& 1 <= self.month <= 12
        &&& 1 <= self.day <= days_in_month_spec(self.year as int, self.month as int)
    }

    /// Days from the calendar origin; January 1 of year 1 is day 1.
    pub open spec fn day_number(self) -> int {
        days_before_year(self.year as int)
            + days_before_month(self.year as int, self.month as int)
            + self.day
    }

    /// Lexicographic order on (year, month, day).
    pub open spec fn le_spec(self, other: Date) -> bool {
        if self.year != other.year { self.year < other.year }
        else if self.month != other.month { self.month < other.month }
        else { self.day <= other.day }
    }
}

/// Whether `y` is a leap year.
pub fn is_leap(y: i32) -> (r: bool)
    ensures
        r == is_leap_spec(y as int),
{
    (y % 4 == 0 && y % 100 != 0) || y % 400 == 0
}

/// The number of days in month `m` of year `y`.
pub fn days_in_month(y: i32, m: u8) -> (r: u8)
    requires
        1 <= m <= 12,
    ensures
        r == days_in_month_spec(y as int, m as int),
{
    if m == 2 {
        if is_leap(y) { 29 } else { 28 }
    } else if m == 4 || m == 6 || m == 9 || m == 11 {
        30
    } else {
        31
    }
}

/// The months of a year sum to its length.
pub proof fn lemma_months_sum(y: int)
    ensures
        days_before_month(y, 13) == year_len(y),
{
    reveal_with_fuel(days_before_month, 14);
}

/// `days_before_month` grows with the month, by at least 28 and at most 31
/// days per month.
pub proof fn lemma_dbm_mono(y: int, m1: int, m2: int)
    requires
        1 <= m1 <= m2 <= 13,
    ensures
        days_before_month(y, m1) + 28 * (m2 - m1) <= days_before_month(y, m2),
        days_before_month(y, m2) <= days_before_month(y, m1) + 31 * (m2 - m1),
    decreases m2 - m1,
{
    if m1 < m2 {
        lemma_dbm_mono(y, m1, m2 - 1);
    }
}

/// `days_before_year` grows with the year, by at least 365 and at most 366
/// days per year.
pub proof fn lemma_dby_mono(y1: int, y2: int)
    requires
        1 <= y1 <= y2,
    ensures
        days_before_year(y1) + 365 * (y2 - y1) <= days_before_year(y2),
        days_before_year(y2) <= days_before_year(y1) + 366 * (y2 - y1),
    decreases y2 - y1,
{
    if y1 < y2 {
        lemma_dby_mono(y1, y2 - 1);
    }
}

/// A valid date sits between day 1 and day `year_len` of its year.
pub proof fn lemma_in_year_bounds(d: Date)
    requires
        d.wf(),
    ensures
        1 <= days_before_month(d.year as int, d.month as int) + d.day <= year_len(d.year as int),
{
    let y = d.year as int;
    let m = d.month as int;
    lemma_dbm_mono(y, 1, m);
    assert(days_before_month(y, m + 1)
        == days_before_month(y, m) + days_in_month_spec(y, m));
    lemma_dbm_mono(y, m + 1, 13);
    lemma_months_sum(y);
}

/// A valid date's day number is at least 1.
pub proof fn lemma_day_number_pos(d: Date)
    requires
        d.wf(),
    ensures
        d.day_number() >= 1,
{
    lemma_dby_mono(1, d.year as int);
    lemma_in_year_bounds(d);
}

/// The lexicographic order on dates agrees with the order of day numbers.
pub proof fn lemma_le_day_number(a: Date, b: Date)
    requires
        a.wf(),
        b.wf(),
    ensures
        a.le_spec(b) <==> a.day_number() <= b.day_number(),
        a == b <==> a.day_number() == b.day_number(),
{
    lemma_in_year_bounds(a);
    lemma_in_year_bounds(b);
    let (ya, ma, da) = (a.year as int, a.month as int, a.day as int);
    let (yb, mb, db) = (b.year as int, b.month as int, b.day as int);
    if ya < yb {
        lemma_dby_mono(ya + 1, yb);
        assert(days_before_year(ya + 1) == days_before_year(ya) + year_len(ya));
        assert(a.day_number() < b.day_number());
    } else if yb < ya {
        lemma_dby_mono(yb + 1, ya);
        assert(days_before_year(yb + 1) == days_before_year(yb) + year_len(yb));
        assert(b.day_number() < a.day_number());
    } else {
        if ma < mb {
            assert(days_before_month(ya, ma + 1)
                == days_before_month(ya, ma) + days_in_month_spec(ya, ma));
            lemma_dbm_mono(ya, ma + 1, mb);
            assert(a.day_number() < b.day_number());
        } else if mb < ma {
            assert(days_before_month(ya, mb + 1)
                == days_before_month(ya, mb) + days_in_month_spec(ya, mb));
            lemma_dbm_mono(ya, mb + 1, ma);
            assert(b.day_number() < a.day_number());
        }
    }
}

impl Date {
    /// Whether `self` is on or before `other` in calendar order.
    pub fn le(&self, other: &Date) -> (r: bool)
        ensures
            r == self.le_spec(*other),
    {
        if self.year != other.year {
            self.year < other.year
        } else if self.month != other.month {
            self.month < other.month
        } else {
            self.day <= other.day
        }
    }

    /// The day after `self`, or `None` at the end of the supported range.
    pub fn succ(&self) -> (r: Option<Date>)
        requires
            self.wf(),
        ensures
            match r {
                Some(n) => n.wf() && n.day_number() == self.day_number() + 1,
                None => self == (Date { year: 9999, month: 12, day: 31 }),
            },
    {
        let dim = days_in_month(self.year, self.month);
        if self.day < dim {
            Some(Date { year: self.year, month: self.month, day: self.day + 1 })
        } else if self.month < 12 {
            let n = Date { year: self.year, month: self.month + 1, day: 1 };
            proof {
                assert(days_before_month(self.year as int, self.month as int + 1)
                    == days_before_month(self.year as int, self.month as int)
                        + days_in_month_spec(self.year as int, self.month as int));
            }
            Some(n)
        } else if self.year < 9999 {
            let n = Date { year: self.year + 1, month: 1, day: 1 };
            proof {
                assert(days_before_year(self.year as int + 1)
                    == days_before_year(self.year as int) + year_len(self.year as int));
                lemma_months_sum(self.year as int);
                assert(days_before_month(self.year as int, 13)
                    == days_before_month(self.year as int, 12)
                        + days_in_month_spec(self.year as int, 12));
            }
            Some(n)
        } else {
            None
        }
    }

    /// The day before `self`, or `None` at the start of the supported range.
    pub fn pred(&self) -> (r: Option<Date>)
        requires
            self.wf(),
        ensures
            match r {
                Some(p) => p.wf() && p.day_number() == self.day_number() - 1,
                None => self == (Date { year: 1, month: 1, day: 1 }),
            },
    {
        if self.day > 1 {
            Some(Date { year: self.year, month: self.month, day: self.day - 1 })
        } else if self.month > 1 {
            let m = self.month - 1;
            let p = Date { year: self.year, month: m, day: days_in_month(self.year, m) };
            proof {
                assert(days_before_month(self.year as int, m as int + 1)
                    == days_before_month(self.year as int, m as int)
                        + days_in_month_spec(self.year as int, m as int));
            }
            Some(p)
        } else if self.year > 1 {
            let y = self.year - 1;
            let p = Date { year: y, month: 12, day: 31 };
            proof {
                assert(days_before_year(y as int + 1)
                    == days_before_year(y as int) + year_len(y as int));
                lemma_months_sum(y as int);
                assert(days_before_month(y as int, 13)
                    == days_before_month(y as int, 12)
                        + days_in_month_spec(y as int, 12));
            }
            Some(p)
        } else {
            None
        }
    }

    /// The date `n` days before `self`, or `self` itself when that would
    /// fall before the supported range.
    pub fn sub_days(&self, n: u64) -> (r: Date)
        requires
            self.wf(),
        ensures
            r.wf(),
            self.day_number() - n >= 1 ==> r.day_number() == self.day_number() - n,
            self.day_number() - n < 1 ==> r == self,
    {
        let mut cur: Date = *self;
        let mut k: u64 = 0;
        while k < n
            invariant
                self.wf(),
                cur.wf(),
                k <= n,
                cur.day_number() == self.day_number() - k,
            decreases n - k,
        {
            match cur.pred() {
                Some(p) => {
                    cur = p;
                    k = k + 1;
                }
                None => {
                    return *self;
                }
            }
        }
        proof {
            lemma_day_number_pos(cur);
        }
        cur
    }
}

/// The `YYYY-MM-DD` rendering of a date.
pub open spec fn date_str(d: Date) -> Seq<char> {
    let y = d.year as int;
    let m = d.month as int;
    let dy = d.day as int;
    seq![
        dchar(y / 1000 % 10),
        dchar(y / 100 % 10),
        dchar(y / 10 % 10),
        dchar(y % 10),
        '-',
        dchar(m / 10 % 10),
        dchar(m % 10),
        '-',
        dchar(dy / 10 % 10),
        dchar(dy % 10),
    ]
}

impl Date {
    /// Renders `self` as `YYYY-MM-DD`.
    pub fn format(&self) -> (s: String)
        requires
            self.wf(),
        ensures
            s@ == date_str(*self),
    {
        let y = self.year as u32;
        let m = self.month as u32;
        let d = self.day as u32;
        let mut v: Vec<char> = Vec::new();
        v.push(dchar_x(y / 1000 % 10));
        v.push(dchar_x(y / 100 % 10));
        v.push(dchar_x(y / 10 % 10));
        v.push(dchar_x(y % 10));
        v.push('-');
        v.push(dchar_x(m / 10 % 10));
        v.push(dchar_x(m % 10));
        v.push('-');
        v.push(dchar_x(d / 10 % 10));
        v.push(dchar_x(d % 10));
        proof {
            assert(v@ =~= date_str(*self));
        }
        chars_to_string(&v)
    }

    /// Parses a `YYYY-MM-DD` rendering.  Returns `Some` exactly on the
    /// strings that [`Date::format`] produces for a valid date.
    pub fn parse(s: &str) -> (r: Option<Date>)
        ensures
            match r {
                Some(d) => d.wf() && s@ == date_str(d),
                None => forall|d: Date| d.wf() ==> s@ != date_str(d),
            },
    {
        let v = string_chars(s);
        if v.len() != 10 {
            proof {
                assert forall|dt: Date| dt.wf() implies s@ != date_str(dt) by {
                    assert(date_str(dt).len() == 10);
                }
            }
            return None;
        }
        if !(v[4] == '-' && v[7] == '-') {
            proof {
                assert forall|dt: Date| dt.wf() implies s@ != date_str(dt) by {
                    assert(date_str(dt)[4] == '-' && date_str(dt)[7] == '-');
                }
            }
            return None;
        }
        let y0 = digit_val_x(v[0]);
        let y1 = digit_val_x(v[1]);
        let y2 = digit_val_x(v[2]);
        let y3 = digit_val_x(v[3]);
        let m0 = digit_val_x(v[5]);
        let m1 = digit_val_x(v[6]);
        let d0 = digit_val_x(v[8]);
        let d1 = digit_val_x(v[9]);
        if y0 < 0 || y1 < 0 || y2 < 0 || y3 < 0 || m0 < 0 || m1 < 0 || d0 < 0 || d1 < 0 {
            proof {
                assert forall|dt: Date| dt.wf() implies s@ != date_str(dt) by {
                    if s@ == date_str(dt) {
                        lemma_date_str_digit_vals(dt);
                    }
                }
            }
            return None;
        }
        let y = y0 * 1000 + y1 * 100 + y2 * 10 + y3;
        let m = m0 * 10 + m1;
        let d = d0 * 10 + d1;
        let r = Date::from_ymd(y, m as u8, d as u8);
        proof {
            lemma_date_str_eq(s@, y as int, m as int, d as int);
        }
        match r {
            Some(date) => Some(date),
            None => {
                proof {
                    assert forall|dt: Date| dt.wf() implies s@ != date_str(dt) by {
                        if s@ == date_str(dt) {
                            assert(dt.year == y && dt.month == m && dt.day == d);
                        }
                    }
                }
                None
            }
        }
    }
}

/// Four digits reconstruct the number they render, and likewise two.
pub proof fn lemma_digit_value_split(y: int, m: int, dy: int)
    requires
        0 <= y <= 9999,
        0 <= m <= 99,
        0 <= dy <= 99,
    ensures
        (y / 1000 % 10) * 1000 + (y / 100 % 10) * 100 + (y / 10 % 10) * 10 + y % 10 == y,
        (m / 10 % 10) * 10 + m % 10 == m,
        (dy / 10 % 10) * 10 + dy % 10 == dy,
{
    assert((y / 1000 % 10) * 1000 + (y / 100 % 10) * 100 + (y / 10 % 10) * 10 + y % 10 == y)
        by (nonlinear_arith)
        requires
            0 <= y <= 9999,
    ;
    assert((m / 10 % 10) * 10 + m % 10 == m) by (nonlinear_arith)
        requires
            0 <= m <= 99,
    ;
    assert((dy / 10 % 10) * 10 + dy % 10 == dy) by (nonlinear_arith)
        requires
            0 <= dy <= 99,
    ;
}

/// The digit places of a four-digit decomposition recover its digits.
pub proof fn lemma_digits_of(a: int, b: int, c: int, e: int)
    requires
        0 <= a <= 9,
        0 <= b <= 9,
        0 <= c <= 9,
        0 <= e <= 9,
    ensures
        (a * 1000 + b * 100 + c * 10 + e) / 1000 % 10 == a,
        (a * 1000 + b * 100 + c * 10 + e) / 100 % 10 == b,
        (a * 1000 + b * 100 + c * 10 + e) / 10 % 10 == c,
        (a * 1000 + b * 100 + c * 10 + e) % 10 == e,
{
    assert((a * 1000 + b * 100 + c * 10 + e) / 1000 % 10 == a && (a * 1000 + b * 100 + c * 10 + e)
        / 100 % 10 == b && (a * 1000 + b * 100 + c * 10 + e) / 10 % 10 == c && (a * 1000 + b * 100
        + c * 10 + e) % 10 == e) by (nonlinear_arith)
        requires
            0 <= a <= 9,
            0 <= b <= 9,
            0 <= c <= 9,
            0 <= e <= 9,
    ;
}

/// The digit places of a two-digit decomposition recover its digits.
pub proof fn lemma_digits_of2(a: int, b: int)
    requires
        0 <= a <= 9,
        0 <= b <= 9,
    ensures
        (a * 10 + b) / 10 % 10 == a,
        (a * 10 + b) % 10 == b,
{
    assert((a * 10 + b) / 10 % 10 == a && (a * 10 + b) % 10 == b) by (nonlinear_arith)
        requires
            0 <= a <= 9,
            0 <= b <= 9,
    ;
}

/// Rendering the value of a digit character gives that character back.
pub proof fn lemma_dchar_digit(c: char)
    requires
        digit_val(c) >= 0,
    ensures
        dchar(digit_val(c)) == c,
{
}

/// A ten-character string with dashes and digits in the `YYYY-MM-DD`
/// places is the rendering of exactly one (year, month, day) triple.
pub proof fn lemma_date_str_eq(sv: Seq<char>, y: int, m: int, dy: int)
    requires
        sv.len() == 10,
        sv[4] == '-',
        sv[7] == '-',
        digit_val(sv[0]) >= 0,
        digit_val(sv[1]) >= 0,
        digit_val(sv[2]) >= 0,
        digit_val(sv[3]) >= 0,
        digit_val(sv[5]) >= 0,
        digit_val(sv[6]) >= 0,
        digit_val(sv[8]) >= 0,
        digit_val(sv[9]) >= 0,
        y == digit_val(sv[0]) * 1000 + digit_val(sv[1]) * 100 + digit_val(sv[2]) * 10
            + digit_val(sv[3]),
        m == digit_val(sv[5]) * 10 + digit_val(sv[6]),
        dy == digit_val(sv[8]) * 10 + digit_val(sv[9]),
    ensures
        forall|dt: Date|
            dt.wf() && #[trigger] date_str(dt) == sv ==> dt.year == y && dt.month == m
                && dt.day == dy,
        forall|dt: Date|
            dt.wf() && dt.year == y && dt.month == m && dt.day == dy ==> #[trigger] date_str(dt)
                == sv,
{
    assert forall|dt: Date|
        dt.wf() && #[trigger] date_str(dt) == sv implies dt.year == y && dt.month == m
        && dt.day == dy by {
        lemma_date_str_digit_vals(dt);
    }
    assert forall|dt: Date|
        dt.wf() && dt.year == y && dt.month == m && dt.day == dy implies #[trigger] date_str(dt)
        == sv by {
        lemma_digits_of(digit_val(sv[0]), digit_val(sv[1]), digit_val(sv[2]), digit_val(sv[3]));
        lemma_digits_of2(digit_val(sv[5]), digit_val(sv[6]));
        lemma_digits_of2(digit_val(sv[8]), digit_val(sv[9]));
        lemma_dchar_digit(sv[0]);
        lemma_dchar_digit(sv[1]);
        lemma_dchar_digit(sv[2]);
        lemma_dchar_digit(sv[3]);
        lemma_dchar_digit(sv[5]);
        lemma_dchar_digit(sv[6]);
        lemma_dchar_digit(sv[8]);
        lemma_dchar_digit(sv[9]);
        assert(date_str(dt) =~= sv);
    }
}

/// For a valid date, the digits of `date_str` reconstruct the fields.
pub proof fn lemma_date_str_digit_vals(d: Date)
    requires
        d.wf(),
    ensures
        digit_val(date_str(d)[0]) >= 0,
        digit_val(date_str(d)[1]) >= 0,
        digit_val(date_str(d)[2]) >= 0,
        digit_val(date_str(d)[3]) >= 0,
        digit_val(date_str(d)[5]) >= 0,
        digit_val(date_str(d)[6]) >= 0,
        digit_val(date_str(d)[8]) >= 0,
        digit_val(date_str(d)[9]) >= 0,
        digit_val(date_str(d)[0]) * 1000 + digit_val(date_str(d)[1]) * 100 + digit_val(
            date_str(d)[2],
        ) * 10 + digit_val(date_str(d)[3]) == d.year as int,
        digit_val(date_str(d)[5]) * 10 + digit_val(date_str(d)[6]) == d.month as int,
        digit_val(date_str(d)[8]) * 10 + digit_val(date_str(d)[9]) == d.day as int,
        date_str(d).len() == 10,
        date_str(d)[4] == '-',
        date_str(d)[7] == '-',
{
    lemma_digit_value_split(d.year as int, d.month as int, d.day as int);
}

/// Strict lexicographic order on character sequences, by code point.
pub open spec fn lex_lt(a: Seq<char>, b: Seq<char>) -> bool
    decreases a.len(),
{
    if b.len() == 0 {
        false
    } else if a.len() == 0 {
        true
    } else if a[0] != b[0] {
        (a[0] as u32) < (b[0] as u32)
    } else {
        lex_lt(a.drop_first(), b.drop_first())
    }
}

/// Two equal-length sequences with a smaller code at their first
/// difference are in strict lexicographic order.
pub proof fn lemma_lex_first_diff(a: Seq<char>, b: Seq<char>, k: int)
    requires
        a.len() == b.len(),
        0 <= k < a.len(),
        forall|j: int| 0 <= j < k ==> a[j] == b[j],
        a[k] != b[k],
        (a[k] as u32) < (b[k] as u32),
    ensures
        lex_lt(a, b),
    decreases k,
{
    if k > 0 {
        assert(a[0] == b[0]);
        assert(forall|j: int|
            0 <= j < k - 1 ==> #[trigger] a.drop_first()[j] == a[j + 1] && b.drop_first()[j]
                == b[j + 1]);
        assert(a.drop_first()[k - 1] == a[k] && b.drop_first()[k - 1] == b[k]);
        lemma_lex_first_diff(a.drop_first(), b.drop_first(), k - 1);
    }
}

/// Smaller digits render as smaller characters.
pub proof fn lemma_dchar_lt(m: int, n: int)
    requires
        0 <= m <= 9,
        0 <= n <= 9,
    ensures
        (m < n) <==> ((crate::text::dchar(m) as u32) < (crate::text::dchar(n) as u32)),
        (m == n) <==> (crate::text::dchar(m) == crate::text::dchar(n)),
{
}

/// A smaller date renders as a lexicographically smaller `YYYY-MM-DD`
/// string — the fixed-width naming lists in date order.
#[verifier::rlimit(100)]
pub proof fn lemma_date_str_lex(a: Date, b: Date)
    requires
        a.wf(),
        b.wf(),
        a.day_number() < b.day_number(),
    ensures
        lex_lt(date_str(a), date_str(b)),
{
    lemma_le_day_number(a, b);
    let sa = date_str(a);
    let sb = date_str(b);
    let (ya, ma, da) = (a.year as int, a.month as int, a.day as int);
    let (yb, mb, db) = (b.year as int, b.month as int, b.day as int);
    if ya != yb {
        assert(ya < yb);
        let (a1, a2, a3, a4) = (ya / 1000 % 10, ya / 100 % 10, ya / 10 % 10, ya % 10);
        let (b1, b2, b3, b4) = (yb / 1000 % 10, yb / 100 % 10, yb / 10 % 10, yb % 10);
        lemma_digit_value_split(ya, ma, da);
        lemma_digit_value_split(yb, mb, db);
        if a1 != b1 {
            assert(a1 < b1) by (nonlinear_arith)
                requires
                    1 <= ya < yb <= 9999,
                    a1 == ya / 1000 % 10,
                    b1 == yb / 1000 % 10,
                    a1 != b1,
            ;
            lemma_dchar_lt(a1, b1);
            lemma_lex_first_diff(sa, sb, 0);
        } else if a2 != b2 {
            assert(a2 < b2) by (nonlinear_arith)
                requires
                    1 <= ya < yb <= 9999,
                    ya / 1000 % 10 == yb / 1000 % 10,
                    a2 == ya / 100 % 10,
                    b2 == yb / 100 % 10,
                    a2 != b2,
            ;
            lemma_dchar_lt(a1, b1);
            lemma_dchar_lt(a2, b2);
            lemma_lex_first_diff(sa, sb, 1);
        } else if a3 != b3 {
            assert(a3 < b3) by (nonlinear_arith)
                requires
                    1 <= ya < yb <= 9999,
                    ya / 1000 % 10 == yb / 1000 % 10,
                    ya / 100 % 10 == yb / 100 % 10,
                    a3 == ya / 10 % 10,
                    b3 == yb / 10 % 10,
                    a3 != b3,
            ;
            lemma_dchar_lt(a1, b1);
            lemma_dchar_lt(a2, b2);
            lemma_dchar_lt(a3, b3);
            lemma_lex_first_diff(sa, sb, 2);
        } else {
            assert(a4 != b4) by (nonlinear_arith)
                requires
                    ya != yb,
                    ya / 1000 % 10 == yb / 1000 % 10,
                    ya / 100 % 10 == yb / 100 % 10,
                    ya / 10 % 10 == yb / 10 % 10,
                    a4 == ya % 10,
                    b4 == yb % 10,
                    1 <= ya <= 9999,
                    1 <= yb <= 9999,
            ;
            assert(a4 < b4) by (nonlinear_arith)
                requires
                    1 <= ya < yb <= 9999,
                    ya / 1000 % 10 == yb / 1000 % 10,
                    ya / 100 % 10 == yb / 100 % 10,
                    ya / 10 % 10 == yb / 10 % 10,
                    a4 == ya % 10,
                    b4 == yb % 10,
                    a4 != b4,
            ;
            lemma_dchar_lt(a1, b1);
            lemma_dchar_lt(a2, b2);
            lemma_dchar_lt(a3, b3);
            lemma_dchar_lt(a4, b4);
            lemma_lex_first_diff(sa, sb, 3);
        }
    } else if ma != mb {
        assert(ma < mb);
        lemma_digit_value_split(ya, ma, da);
        lemma_digit_value_split(yb, mb, db);
        let (a5, a6) = (ma / 10 % 10, ma % 10);
        let (b5, b6) = (mb / 10 % 10, mb % 10);
        if a5 != b5 {
            assert(a5 < b5) by (nonlinear_arith)
                requires
                    1 <= ma < mb <= 12,
                    a5 == ma / 10 % 10,
                    b5 == mb / 10 % 10,
                    a5 != b5,
            ;
            lemma_dchar_lt(a5, b5);
            lemma_lex_first_diff(sa, sb, 5);
        } else {
            assert(a6 < b6) by (nonlinear_arith)
                requires
                    1 <= ma < mb <= 12,
                    ma / 10 % 10 == mb / 10 % 10,
                    a6 == ma % 10,
                    b6 == mb % 10,
            ;
            lemma_dchar_lt(a5, b5);
            lemma_dchar_lt(a6, b6);
            lemma_lex_first_diff(sa, sb, 6);
        }
    } else {
        assert(da < db);
        lemma_digit_value_split(ya, ma, da);
        lemma_digit_value_split(yb, mb, db);
        let (a8, a9) = (da / 10 % 10, da % 10);
        let (b8, b9) = (db / 10 % 10, db % 10);
        if a8 != b8 {
            assert(a8 < b8) by (nonlinear_arith)
                requires
                    1 <= da < db <= 31,
                    a8 == da / 10 % 10,
                    b8 == db / 10 % 10,
                    a8 != b8,
            ;
            lemma_dchar_lt(a8, b8);
            lemma_lex_first_diff(sa, sb, 8);
        } else {
            assert(a9 < b9) by (nonlinear_arith)
                requires
                    1 <= da < db <= 31,
                    da / 10 % 10 == db / 10 % 10,
                    a9 == da % 10,
                    b9 == db % 10,
            ;
            lemma_dchar_lt(a8, b8);
            lemma_dchar_lt(a9, b9);
            lemma_lex_first_diff(sa, sb, 9);
        }
    }
}

/// A common suffix does not disturb the order of equal-length strings.
pub proof fn lemma_lex_append(a: Seq<char>, b: Seq<char>, s: Seq<char>)
    requires
        a.len() == b.len(),
        lex_lt(a, b),
    ensures
        lex_lt(a + s, b + s),
    decreases a.len(),
{
    if a.len() > 0 {
        assert((a + s)[0] == a[0] && (b + s)[0] == b[0]);
        if a[0] == b[0] {
            assert((a + s).drop_first() =~= a.drop_first() + s);
            assert((b + s).drop_first() =~= b.drop_first() + s);
            lemma_lex_append(a.drop_first(), b.drop_first(), s);
        }
    }
}

impl Date {
    /// Builds a date, or `None` when the triple is not a real date in the
    /// supported range.
    pub fn from_ymd(year: i32, month: u8, day: u8) -> (r: Option<Date>)
        ensures
            match r {
                Some(d) => d == (Date { year, month, day }) && d.wf(),
                None => !(Date { year, month, day }).wf(),
            },
    {
        if 1 <= year && year <= 9999 && 1 <= month && month <= 12 && 1 <= day
            && day <= days_in_month(year, month)
        {
            Some(Date { year, month, day })
        } else {
            None
        }
    }
}

} // verus!
