//! Proleptic Gregorian calendar dates.
//!
//! A [`Date`] is a plain year/month/day triple restricted to the four-digit
//! years `0000..=9999` that the canonical `YYYY-MM-DD` text form can carry.
//! This module defines what a valid date is, how dates are ordered, and a
//! day-numbering scheme (days elapsed since 0000-01-01) that turns date
//! differences into plain integer subtraction.

use vstd::prelude::*;
use vstd::arithmetic::div_mod::lemma_div_denominator;
use vstd::arithmetic::div_mod::lemma_fundamental_div_mod;
use vstd::string::StrSliceExecFns;
use vstd::string::StringExecFns;

verus! {

/// A calendar date in the proleptic Gregorian calendar.
///
/// Valid dates (see [`Date::valid`]) have `year <= 9999`, `month` in
/// `1..=12`, and `day` in `1..=days_in_month(year, month)`.
#[derive(Clone, Copy, PartialEq, Eq, Structural, Debug)]
pub struct Date {
    pub year: u32,
    pub month: u32,
    pub day: u32,
}

/// A year is a leap year when it is divisible by 4, except century years,
/// which are leap years only when divisible by 400.
pub open spec fn is_leap_year(y: int) -> bool {
    y % 4 == 0 && (y % 100 != 0 || y % 400 == 0)
}

/// Number of days in the given month of the given year.
pub open spec fn days_in_month(y: int, m: int) -> int {
    if m == 2 {
        if is_leap_year(y) {
            29
        } else {
            28
        }
    } else if m == 4 || m == 6 || m == 9 || m == 11 {
        30
    } else {
        31
    }
}

/// Number of days in the given year.
pub open spec fn days_in_year(y: int) -> int {
    if is_leap_year(y) {
        366
    } else {
        365
    }
}

/// Number of days in all years `0, 1, ..., y - 1` together.
pub open spec fn days_before_year(y: nat) -> int
    decreases y,
{
    if y == 0 {
        0
    } else {
        days_before_year((y - 1) as nat) + days_in_year(y - 1)
    }
}

/// Number of days in the months `1, ..., m - 1` of year `y` together.
pub open spec fn days_before_month(y: int, m: int) -> int
    decreases m,
{
    if m <= 1 {
        0
    } else {
        days_before_month(y, m - 1) + days_in_month(y, m - 1)
    }
}

impl Date {
    /// A well-formed date: four-digit year, existing month, and a day that
    /// exists in that month of that year.
    pub open spec fn valid(self) -> bool {
        &&& self.year <= 9999
        &&& 1 <= self.month <= 12
        &&& 1 <= self.day <= days_in_month(self.year as int, self.month as int)
    }

    /// Chronological order: lexicographic on (year, month, day).
    pub open spec fn le(self, other: Date) -> bool {
        ||| self.year < other.year
        ||| (self.year == other.year && self.month < other.month)
        ||| (self.year == other.year && self.month == other.month && self.day <= other.day)
    }

    /// Strict chronological order.
    pub open spec fn lt(self, other: Date) -> bool {
        self.le(other) && self != other
    }

    /// Days elapsed from 0000-01-01 to this date.
    pub open spec fn day_number(self) -> int {
        days_before_year(self.year as nat) + days_before_month(
            self.year as int,
            self.month as int,
        ) + self.day - 1
    }

    /// Decides chronological order on dates.
    pub fn le_exec(&self, other: &Date) -> (r: bool)
        ensures
            r == self.le(*other),
    {
        if self.year != other.year {
            self.year < other.year
        } else if self.month != other.month {
            self.month < other.month
        } else {
            self.day <= other.day
        }
    }

    /// Decides whether this date is well-formed.
    pub fn check_valid(&self) -> (r: bool)
        ensures
            r == self.valid(),
    {
        self.year <= 9999 && 1 <= self.month && self.month <= 12 && 1 <= self.day && self.day
            <= days_in_month_exec(self.year, self.month)
    }

    /// Computes [`Date::day_number`] by summing whole years, then whole
    /// months, then the day of month.
    pub fn day_number_exec(&self) -> (r: u32)
        requires
            self.valid(),
        ensures
            r == self.day_number(),
    {
        let mut acc: u32 = 0;
        let mut y: u32 = 0;
        while y < self.year
            invariant
                y <= self.year <= 9999,
                acc == days_before_year(y as nat),
                acc <= 366 * y,
            decreases self.year - y,
        {
            acc = acc + days_in_year_exec(y);
            y = y + 1;
        }
        let mut m: u32 = 1;
        while m < self.month
            invariant
                1 <= m <= self.month <= 12,
                self.year <= 9999,
                acc == days_before_year(self.year as nat) + days_before_month(
                    self.year as int,
                    m as int,
                ),
                acc <= 366 * 9999 + 31 * (m - 1),
            decreases self.month - m,
        {
            acc = acc + days_in_month_exec(self.year, m);
            m = m + 1;
        }
        acc + self.day - 1
    }
}

/// Whether `c` is a decimal digit.
pub open spec fn is_digit(c: char) -> bool {
    c == '0' || c == '1' || c == '2' || c == '3' || c == '4' || c == '5' || c == '6' || c == '7'
        || c == '8' || c == '9'
}

/// The value of a decimal digit character.
pub open spec fn digit_val(c: char) -> int {
    if c == '0' {
        0
    } else if c == '1' {
        1
    } else if c == '2' {
        2
    } else if c == '3' {
        3
    } else if c == '4' {
        4
    } else if c == '5' {
        5
    } else if c == '6' {
        6
    } else if c == '7' {
        7
    } else if c == '8' {
        8
    } else {
        9
    }
}

/// The decimal digit character for a value in `0..=9`.
pub open spec fn digit_char(v: int) -> char {
    if v == 0 {
        '0'
    } else if v == 1 {
        '1'
    } else if v == 2 {
        '2'
    } else if v == 3 {
        '3'
    } else if v == 4 {
        '4'
    } else if v == 5 {
        '5'
    } else if v == 6 {
        '6'
    } else if v == 7 {
        '7'
    } else if v == 8 {
        '8'
    } else {
        '9'
    }
}

/// Whether `s` has the shape `YYYY-MM-DD`: ten characters, digits in the
/// year, month and day positions, and `-` separators.
pub open spec fn canonical_shape(s: Seq<char>) -> bool {
    &&& s.len() == 10
    &&& is_digit(s[0])
    &&& is_digit(s[1])
    &&& is_digit(s[2])
    &&& is_digit(s[3])
    &&& s[4] == '-'
    &&& is_digit(s[5])
    &&& is_digit(s[6])
    &&& s[7] == '-'
    &&& is_digit(s[8])
    &&& is_digit(s[9])
}

/// The year named by the first four characters of a canonically shaped string.
pub open spec fn shape_year(s: Seq<char>) -> int {
    1000 * digit_val(s[0]) + 100 * digit_val(s[1]) + 10 * digit_val(s[2]) + digit_val(s[3])
}

/// The month named by characters five and six of a canonically shaped string.
pub open spec fn shape_month(s: Seq<char>) -> int {
    10 * digit_val(s[5]) + digit_val(s[6])
}

/// The day named by the last two characters of a canonically shaped string.
pub open spec fn shape_day(s: Seq<char>) -> int {
    10 * digit_val(s[8]) + digit_val(s[9])
}

/// What parsing a date string yields: the date named by a string of shape
/// `YYYY-MM-DD` that names a valid calendar date, and nothing otherwise.
pub open spec fn spec_parse(s: Seq<char>) -> Option<Date> {
    if canonical_shape(s) {
        let d = Date {
            year: shape_year(s) as u32,
            month: shape_month(s) as u32,
            day: shape_day(s) as u32,
        };
        if d.valid() {
            Some(d)
        } else {
            None
        }
    } else {
        None
    }
}

/// The canonical, zero-padded `YYYY-MM-DD` rendering of a date.
pub open spec fn spec_render(d: Date) -> Seq<char> {
    seq![
        digit_char(d.year as int / 1000),
        digit_char(d.year as int / 100 % 10),
        digit_char(d.year as int / 10 % 10),
        digit_char(d.year as int % 10),
        '-',
        digit_char(d.month as int / 10),
        digit_char(d.month as int % 10),
        '-',
        digit_char(d.day as int / 10),
        digit_char(d.day as int % 10),
    ]
}

/// The value of a digit character, or nothing for any other character.
fn digit_of(c: char) -> (r: Option<u32>)
    ensures
        r == (if is_digit(c) {
            Some(digit_val(c) as u32)
        } else {
            None::<u32>
        }),
{
    match c {
        '0' => Some(0),
        '1' => Some(1),
        '2' => Some(2),
        '3' => Some(3),
        '4' => Some(4),
        '5' => Some(5),
        '6' => Some(6),
        '7' => Some(7),
        '8' => Some(8),
        '9' => Some(9),
        _ => None,
    }
}

/// A one-character string holding the digit character for `v`.
fn digit_str(v: u32) -> (r: &'static str)
    requires
        v <= 9,
    ensures
        r@ == seq![digit_char(v as int)],
{
    proof {
        reveal_strlit("0");
        reveal_strlit("1");
        reveal_strlit("2");
        reveal_strlit("3");
        reveal_strlit("4");
        reveal_strlit("5");
        reveal_strlit("6");
        reveal_strlit("7");
        reveal_strlit("8");
        reveal_strlit("9");
    }
    let r = match v {
        0 => "0",
        1 => "1",
        2 => "2",
        3 => "3",
        4 => "4",
        5 => "5",
        6 => "6",
        7 => "7",
        8 => "8",
        _ => "9",
    };
    proof {
        assert(r@ =~= seq![digit_char(v as int)]);
    }
    r
}

/// Parses a `YYYY-MM-DD` string into the valid date it names, or nothing
/// for a string of the wrong shape or one naming no calendar date.
pub fn parse_date(s: &str) -> (r: Option<Date>)
    ensures
        r == spec_parse(s@),
{
    if s.unicode_len() != 10 {
        return None;
    }
    let y0 = match digit_of(s.get_char(0)) {
        Some(v) => v,
        None => {
            return None;
        },
    };
    let y1 = match digit_of(s.get_char(1)) {
        Some(v) => v,
        None => {
            return None;
        },
    };
    let y2 = match digit_of(s.get_char(2)) {
        Some(v) => v,
        None => {
            return None;
        },
    };
    let y3 = match digit_of(s.get_char(3)) {
        Some(v) => v,
        None => {
            return None;
        },
    };
    if s.get_char(4) != '-' {
        return None;
    }
    let m0 = match digit_of(s.get_char(5)) {
        Some(v) => v,
        None => {
            return None;
        },
    };
    let m1 = match digit_of(s.get_char(6)) {
        Some(v) => v,
        None => {
            return None;
        },
    };
    if s.get_char(7) != '-' {
        return None;
    }
    let d0 = match digit_of(s.get_char(8)) {
        Some(v) => v,
        None => {
            return None;
        },
    };
    let d1 = match digit_of(s.get_char(9)) {
        Some(v) => v,
        None => {
            return None;
        },
    };
    let d = Date {
        year: 1000 * y0 + 100 * y1 + 10 * y2 + y3,
        month: 10 * m0 + m1,
        day: 10 * d0 + d1,
    };
    if d.check_valid() {
        Some(d)
    } else {
        None
    }
}

/// Renders a valid date in canonical `YYYY-MM-DD` form.
pub fn render_date(d: &Date) -> (r: String)
    requires
        d.valid(),
    ensures
        r@ == spec_render(*d),
{
    proof {
        reveal_strlit("");
        reveal_strlit("-");
    }
    let mut r = String::from_str("");
    r.append(digit_str(d.year / 1000));
    r.append(digit_str(d.year / 100 % 10));
    r.append(digit_str(d.year / 10 % 10));
    r.append(digit_str(d.year % 10));
    r.append("-");
    r.append(digit_str(d.month / 10));
    r.append(digit_str(d.month % 10));
    r.append("-");
    r.append(digit_str(d.day / 10));
    r.append(digit_str(d.day % 10));
    proof {
        assert(r@ =~= spec_render(*d));
    }
    r
}

/// Lexicographic comparison of `a` and `b` by code point, starting at
/// position `i`: a string that runs out first, or whose first differing
/// character is smaller, comes first.
pub open spec fn lex_le_from(a: Seq<char>, b: Seq<char>, i: int) -> bool
    decreases a.len() - i,
{
    if i >= a.len() || i >= b.len() {
        i >= a.len()
    } else if a[i] == b[i] {
        lex_le_from(a, b, i + 1)
    } else {
        (a[i] as u32) < (b[i] as u32)
    }
}

/// Lexicographic order on character sequences, by code point.
pub open spec fn lex_le(a: Seq<char>, b: Seq<char>) -> bool {
    lex_le_from(a, b, 0)
}

/// Digit characters decode to their values, and compare with each other
/// exactly as their values do.
proof fn lemma_digit_char_facts(u: int, v: int)
    requires
        0 <= u <= 9,
        0 <= v <= 9,
    ensures
        is_digit(digit_char(u)),
        digit_val(digit_char(u)) == u,
        (digit_char(u) == digit_char(v)) == (u == v),
        ((digit_char(u) as u32) < (digit_char(v) as u32)) == (u < v),
{
}

/// A number below 100 splits into its two decimal digits.
proof fn lemma_split_two(x: int)
    requires
        0 <= x < 100,
    ensures
        x == 10 * (x / 10) + x % 10,
        0 <= x / 10 <= 9,
        0 <= x % 10 <= 9,
{
    lemma_fundamental_div_mod(x, 10);
}

/// A number below 10000 splits into its four decimal digits.
proof fn lemma_split_four(x: int)
    requires
        0 <= x < 10000,
    ensures
        x == 1000 * (x / 1000) + 100 * (x / 100 % 10) + 10 * (x / 10 % 10) + x % 10,
        0 <= x / 1000 <= 9,
        0 <= x / 100 % 10 <= 9,
        0 <= x / 10 % 10 <= 9,
        0 <= x % 10 <= 9,
{
    lemma_fundamental_div_mod(x, 10);
    lemma_fundamental_div_mod(x / 10, 10);
    lemma_fundamental_div_mod(x / 100, 10);
    lemma_div_denominator(x, 10, 10);
    lemma_div_denominator(x, 100, 10);
}

/// Each later year adds at least 365 days to the running day count.
proof fn lemma_days_before_year_increases(y1: nat, y2: nat)
    requires
        y1 <= y2,
    ensures
        days_before_year(y1) + 365 * (y2 - y1) <= days_before_year(y2),
    decreases y2 - y1,
{
    if y1 < y2 {
        lemma_days_before_year_increases(y1, (y2 - 1) as nat);
    }
}

/// Each later month adds at least 28 days to the running day count.
proof fn lemma_days_before_month_increases(y: int, m1: int, m2: int)
    requires
        1 <= m1 <= m2,
    ensures
        days_before_month(y, m1) + 28 * (m2 - m1) <= days_before_month(y, m2),
    decreases m2 - m1,
{
    if m1 < m2 {
        lemma_days_before_month_increases(y, m1, m2 - 1);
    }
}

/// The twelve months of a year together hold exactly the year's days.
proof fn lemma_months_fill_year(y: int)
    ensures
        days_before_month(y, 13) == days_in_year(y),
{
    reveal_with_fuel(days_before_month, 13);
}

/// A valid date's day number falls within its year's span of day numbers.
proof fn lemma_day_number_within_year(d: Date)
    requires
        d.valid(),
    ensures
        days_before_year(d.year as nat) <= d.day_number(),
        d.day_number() < days_before_year((d.year + 1) as nat),
{
    let y = d.year as int;
    let m = d.month as int;
    lemma_days_before_month_increases(y, 1, m);
    lemma_days_before_month_increases(y, m + 1, 13);
    lemma_months_fill_year(y);
    assert(days_before_month(y, m + 1) == days_before_month(y, m) + days_in_month(y, m));
    assert(days_before_year((d.year + 1) as nat) == days_before_year(d.year as nat)
        + days_in_year(y));
}

/// Day numbering is strictly monotone: a strictly earlier valid date has a
/// strictly smaller day number.
pub proof fn lemma_day_number_strictly_increases(a: Date, b: Date)
    requires
        a.valid(),
        b.valid(),
        a.lt(b),
    ensures
        a.day_number() < b.day_number(),
{
    if a.year < b.year {
        lemma_day_number_within_year(a);
        lemma_day_number_within_year(b);
        lemma_days_before_year_increases((a.year + 1) as nat, b.year as nat);
    } else if a.month < b.month {
        let y = a.year as int;
        lemma_days_before_month_increases(y, a.month as int + 1, b.month as int);
        assert(days_before_month(y, a.month as int + 1) == days_before_month(y, a.month as int)
            + days_in_month(y, a.month as int));
    }
}

/// Day numbering reflects chronological order exactly: comparing two valid
/// dates is the same as comparing their day numbers, and equal day numbers
/// mean equal dates.
pub proof fn lemma_day_number_reflects_order(a: Date, b: Date)
    requires
        a.valid(),
        b.valid(),
    ensures
        a.le(b) <==> a.day_number() <= b.day_number(),
        (a == b) <==> a.day_number() == b.day_number(),
{
    if a.lt(b) {
        lemma_day_number_strictly_increases(a, b);
    }
    if b.lt(a) {
        lemma_day_number_strictly_increases(b, a);
    }
}

/// Round trip: the canonical rendering of a valid date has the canonical
/// `YYYY-MM-DD` shape and re-parses to the very same date.
pub proof fn lemma_render_parse_round_trip(d: Date)
    requires
        d.valid(),
    ensures
        canonical_shape(spec_render(d)),
        spec_parse(spec_render(d)) == Some(d),
{
    let y = d.year as int;
    let m = d.month as int;
    let dd = d.day as int;
    lemma_split_four(y);
    lemma_split_two(m);
    lemma_split_two(dd);
    lemma_digit_char_facts(y / 1000, y / 1000);
    lemma_digit_char_facts(y / 100 % 10, y / 100 % 10);
    lemma_digit_char_facts(y / 10 % 10, y / 10 % 10);
    lemma_digit_char_facts(y % 10, y % 10);
    lemma_digit_char_facts(m / 10, m / 10);
    lemma_digit_char_facts(m % 10, m % 10);
    lemma_digit_char_facts(dd / 10, dd / 10);
    lemma_digit_char_facts(dd % 10, dd % 10);
    assert(shape_year(spec_render(d)) == y);
    assert(shape_month(spec_render(d)) == m);
    assert(shape_day(spec_render(d)) == dd);
}

/// On canonical renderings of valid dates, lexicographic string order is
/// exactly chronological order.
pub proof fn lemma_render_reflects_order(a: Date, b: Date)
    requires
        a.valid(),
        b.valid(),
    ensures
        lex_le(spec_render(a), spec_render(b)) <==> a.le(b),
{
    let ya = a.year as int;
    let ma = a.month as int;
    let da = a.day as int;
    let yb = b.year as int;
    let mb = b.month as int;
    let db = b.day as int;
    lemma_split_four(ya);
    lemma_split_two(ma);
    lemma_split_two(da);
    lemma_split_four(yb);
    lemma_split_two(mb);
    lemma_split_two(db);
    lemma_digit_char_facts(ya / 1000, yb / 1000);
    lemma_digit_char_facts(ya / 100 % 10, yb / 100 % 10);
    lemma_digit_char_facts(ya / 10 % 10, yb / 10 % 10);
    lemma_digit_char_facts(ya % 10, yb % 10);
    lemma_digit_char_facts(ma / 10, mb / 10);
    lemma_digit_char_facts(ma % 10, mb % 10);
    lemma_digit_char_facts(da / 10, db / 10);
    lemma_digit_char_facts(da % 10, db % 10);
    reveal_with_fuel(lex_le_from, 11);
}

/// Decides leap years.
pub fn is_leap_year_exec(y: u32) -> (r: bool)
    ensures
        r == is_leap_year(y as int),
{
    y % 4 == 0 && (y % 100 != 0 || y % 400 == 0)
}

/// Computes [`days_in_month`].
pub fn days_in_month_exec(y: u32, m: u32) -> (r: u32)
    ensures
        r == days_in_month(y as int, m as int),
{
    if m == 2 {
        if is_leap_year_exec(y) {
            29
        } else {
            28
        }
    } else if m == 4 || m == 6 || m == 9 || m == 11 {
        30
    } else {
        31
    }
}

/// Computes [`days_in_year`].
pub fn days_in_year_exec(y: u32) -> (r: u32)
    ensures
        r == days_in_year(y as int),
{
    if is_leap_year_exec(y) {
        366
    } else {
        365
    }
}

} // verus!
