//! Calendar dates and the interval-overlap predicate.
//!
//! Dates cross the system boundary as `YYYY-MM-DD` strings and are parsed
//! into plain year/month/day values before any comparison, so that ranges
//! compare by calendar value rather than by string order.

use vstd::prelude::*;
use vstd::string::StrSliceExecFns;
use vstd::string::StringExecFns;

verus! {

/// A calendar date, held as plain year/month/day values.
#[derive(Clone, Copy, Debug, PartialEq, Eq, Structural)]
pub struct Date {
    pub year: u32,
    pub month: u32,
    pub day: u32,
}

/// Gregorian leap-year rule.
pub open spec fn spec_is_leap_year(year: int) -> bool {
    year % 4 == 0 && (year % 100 != 0 || year % 400 == 0)
}

/// Number of days in the given month of the given year.
pub open spec fn spec_days_in_month(year: int, month: int) -> int {
    if month == 2 {
        if spec_is_leap_year(year) {
            29
        } else {
            28
        }
    } else if month == 4 || month == 6 || month == 9 || month == 11 {
        30
    } else {
        31
    }
}

/// `a` falls on or before `b` in calendar order.
pub open spec fn spec_le(a: Date, b: Date) -> bool {
    if a.year != b.year {
        a.year < b.year
    } else if a.month != b.month {
        a.month < b.month
    } else {
        a.day <= b.day
    }
}

/// The inclusive ranges `[a_start, a_end]` and `[b_start, b_end]` intersect.
/// The single two-inequality test subsumes every sub-case: one range
/// containing the other, partial overlap on either side, and exact equality.
pub open spec fn spec_overlaps(a_start: Date, a_end: Date, b_start: Date, b_end: Date) -> bool {
    spec_le(a_start, b_end) && spec_le(b_start, a_end)
}

impl Date {
    /// The fields name an actual day of the Gregorian calendar, within the
    /// four-digit years that the `YYYY-MM-DD` exchange format can carry.
    pub open spec fn wf(self) -> bool {
        self.year <= 9999 && 1 <= self.month <= 12 && 1 <= self.day <= spec_days_in_month(
            self.year as int,
            self.month as int,
        )
    }

    /// Build a date from its fields.
    pub fn new(year: u32, month: u32, day: u32) -> (r: Date)
        ensures
            r == (Date { year, month, day }),
    {
        Date { year, month, day }
    }

    /// Calendar-order comparison: `self` on or before `other`.
    pub fn le(&self, other: &Date) -> (r: bool)
        ensures
            r == spec_le(*self, *other),
    {
        if self.year != other.year {
            self.year < other.year
        } else if self.month != other.month {
            self.month < other.month
        } else {
            self.day <= other.day
        }
    }
}

/// Decide whether two inclusive date ranges share at least one day.
pub fn overlaps(a_start: &Date, a_end: &Date, b_start: &Date, b_end: &Date) -> (r: bool)
    ensures
        r == spec_overlaps(*a_start, *a_end, *b_start, *b_end),
{
    a_start.le(b_end) && b_start.le(a_end)
}

/// Calendar order is total.
pub proof fn lemma_le_total(a: Date, b: Date)
    ensures
        spec_le(a, b) || spec_le(b, a),
{
}

/// Calendar order is transitive.
pub proof fn lemma_le_trans(a: Date, b: Date, c: Date)
    requires
        spec_le(a, b),
        spec_le(b, c),
    ensures
        spec_le(a, c),
{
}

/// Two dates each on or before the other are the same date.
pub proof fn lemma_le_antisymmetric(a: Date, b: Date)
    requires
        spec_le(a, b),
        spec_le(b, a),
    ensures
        a == b,
{
}

/// The overlap predicate does not care which range comes first.
pub proof fn lemma_overlaps_symmetric(a_start: Date, a_end: Date, b_start: Date, b_end: Date)
    ensures
        spec_overlaps(a_start, a_end, b_start, b_end) == spec_overlaps(
            b_start,
            b_end,
            a_start,
            a_end,
        ),
{
}

/// The two-inequality overlap test is exactly the glossary notion of
/// overlap: two ordered ranges overlap when, and only when, some calendar
/// day lies inside both.
pub proof fn lemma_overlaps_iff_shared_day(a_start: Date, a_end: Date, b_start: Date, b_end: Date)
    requires
        a_start.wf(),
        a_end.wf(),
        b_start.wf(),
        b_end.wf(),
        spec_le(a_start, a_end),
        spec_le(b_start, b_end),
    ensures
        spec_overlaps(a_start, a_end, b_start, b_end) <==> exists|d: Date|
            d.wf() && #[trigger] spec_le(a_start, d) && spec_le(d, a_end) && spec_le(b_start, d)
                && spec_le(d, b_end),
{
    if spec_overlaps(a_start, a_end, b_start, b_end) {
        // The later of the two start dates lies in both ranges.
        let w = if spec_le(a_start, b_start) {
            b_start
        } else {
            a_start
        };
        lemma_le_total(a_start, b_start);
        assert(w.wf() && spec_le(a_start, w) && spec_le(w, a_end) && spec_le(b_start, w)
            && spec_le(w, b_end));
    }
    if exists|d: Date|
        d.wf() && #[trigger] spec_le(a_start, d) && spec_le(d, a_end) && spec_le(b_start, d)
            && spec_le(d, b_end) {
        let d = choose|d: Date|
            d.wf() && #[trigger] spec_le(a_start, d) && spec_le(d, a_end) && spec_le(b_start, d)
                && spec_le(d, b_end);
        lemma_le_trans(a_start, d, b_end);
        lemma_le_trans(b_start, d, a_end);
    }
}

/// Whether `c` is a decimal digit.
pub open spec fn spec_is_digit(c: char) -> bool {
    c == '0' || c == '1' || c == '2' || c == '3' || c == '4' || c == '5' || c == '6' || c == '7'
        || c == '8' || c == '9'
}

/// Numeric value of a decimal digit character (zero on other characters).
pub open spec fn spec_digit_val(c: char) -> int {
    if c == '1' {
        1
    } else if c == '2' {
        2
    } else if c == '3' {
        3
    } else if c == '4' {
        4
    } else if c == '5' {
        5
    } else if c == '6' {
        6
    } else if c == '7' {
        7
    } else if c == '8' {
        8
    } else if c == '9' {
        9
    } else {
        0
    }
}

/// The digit character for a value below ten.
pub open spec fn spec_digit_char(v: int) -> char {
    if v == 1 {
        '1'
    } else if v == 2 {
        '2'
    } else if v == 3 {
        '3'
    } else if v == 4 {
        '4'
    } else if v == 5 {
        '5'
    } else if v == 6 {
        '6'
    } else if v == 7 {
        '7'
    } else if v == 8 {
        '8'
    } else if v == 9 {
        '9'
    } else {
        '0'
    }
}

/// The date named by a well-formed `YYYY-MM-DD` character sequence.
pub open spec fn spec_date_of_seq(s: Seq<char>) -> Date {
    Date {
        year: (1000 * spec_digit_val(s[0]) + 100 * spec_digit_val(s[1]) + 10 * spec_digit_val(s[2])
            + spec_digit_val(s[3])) as u32,
        month: (10 * spec_digit_val(s[5]) + spec_digit_val(s[6])) as u32,
        day: (10 * spec_digit_val(s[8]) + spec_digit_val(s[9])) as u32,
    }
}

/// The character sequence is a `YYYY-MM-DD` rendering of an actual calendar
/// date: four digits, a dash, two digits, a dash, two digits, and the three
/// numbers name a real day.
pub open spec fn spec_is_date_seq(s: Seq<char>) -> bool {
    s.len() == 10 && spec_is_digit(s[0]) && spec_is_digit(s[1]) && spec_is_digit(s[2])
        && spec_is_digit(s[3]) && s[4] == '-' && spec_is_digit(s[5]) && spec_is_digit(s[6]) && s[7]
        == '-' && spec_is_digit(s[8]) && spec_is_digit(s[9]) && spec_date_of_seq(s).wf()
}

/// The `YYYY-MM-DD` rendering of a date, as a character sequence.
pub open spec fn spec_ymd_seq(d: Date) -> Seq<char> {
    seq![
        spec_digit_char(d.year as int / 1000),
        spec_digit_char((d.year as int / 100) % 10),
        spec_digit_char((d.year as int / 10) % 10),
        spec_digit_char(d.year as int % 10),
        '-',
        spec_digit_char(d.month as int / 10),
        spec_digit_char(d.month as int % 10),
        '-',
        spec_digit_char(d.day as int / 10),
        spec_digit_char(d.day as int % 10),
    ]
}

/// A digit character carries back exactly the value it was built from.
proof fn lemma_digit_round_trip(v: int)
    requires
        0 <= v < 10,
    ensures
        spec_is_digit(spec_digit_char(v)),
        spec_digit_val(spec_digit_char(v)) == v,
{
}

/// Rendering a date and parsing the rendering gives back the same date.
#[verifier::rlimit(50)]
pub proof fn lemma_ymd_round_trip(d: Date)
    requires
        d.wf(),
    ensures
        spec_is_date_seq(spec_ymd_seq(d)),
        spec_date_of_seq(spec_ymd_seq(d)) == d,
{
    let s = spec_ymd_seq(d);
    let y = d.year as int;
    let m = d.month as int;
    let dd = d.day as int;
    assert(s[0] == spec_digit_char(y / 1000) && s[1] == spec_digit_char((y / 100) % 10) && s[2]
        == spec_digit_char((y / 10) % 10) && s[3] == spec_digit_char(y % 10) && s[4] == '-' && s[5]
        == spec_digit_char(m / 10) && s[6] == spec_digit_char(m % 10) && s[7] == '-' && s[8]
        == spec_digit_char(dd / 10) && s[9] == spec_digit_char(dd % 10));
    lemma_digit_round_trip(y / 1000);
    lemma_digit_round_trip((y / 100) % 10);
    lemma_digit_round_trip((y / 10) % 10);
    lemma_digit_round_trip(y % 10);
    lemma_digit_round_trip(m / 10);
    lemma_digit_round_trip(m % 10);
    lemma_digit_round_trip(dd / 10);
    lemma_digit_round_trip(dd % 10);
    assert(1000 * (y / 1000) + 100 * ((y / 100) % 10) + 10 * ((y / 10) % 10) + y % 10 == y) by (nonlinear_arith)
        requires
            0 <= y <= 9999,
    ;
    assert(10 * (m / 10) + m % 10 == m) by (nonlinear_arith)
        requires
            0 <= m <= 99,
    ;
    assert(10 * (dd / 10) + dd % 10 == dd) by (nonlinear_arith)
        requires
            0 <= dd <= 99,
    ;
}

/// Numeric value of a digit character.
fn digit_val(c: char) -> (r: Option<u8>)
    ensures
        match r {
            Some(v) => spec_is_digit(c) && v == spec_digit_val(c),
            None => !spec_is_digit(c),
        },
{
    match c {
        '0' => Some(0),
        '1' => Some(1),
        '2' => Some(2),
        '3' => Some(3),
        '4' => Some(4),
        '5' => Some(5),
        '6' => Some(6),
        '7' => Some(7),
        '8' => Some(8),
        '9' => Some(9),
        _ => None,
    }
}

/// Number of days in the given month.
pub fn days_in_month(year: u32, month: u32) -> (r: u32)
    requires
        1 <= month <= 12,
    ensures
        r == spec_days_in_month(year as int, month as int),
{
    if month == 2 {
        if year % 4 == 0 && (year % 100 != 0 || year % 400 == 0) {
            29
        } else {
            28
        }
    } else if month == 4 || month == 6 || month == 9 || month == 11 {
        30
    } else {
        31
    }
}

/// One-character string for a value below ten.
fn digit_str(v: u32) -> (r: &'static str)
    requires
        v < 10,
    ensures
        r@ =~= seq![spec_digit_char(v as int)],
{
    proof {
        reveal_strlit("0");
        reveal_strlit("1");
        reveal_strlit("2");
        reveal_strlit("3");
        reveal_strlit("4");
        reveal_strlit("5");
        reveal_strlit("6");
        reveal_strlit("7");
        reveal_strlit("8");
        reveal_strlit("9");
    }
    if v == 0 {
        "0"
    } else if v == 1 {
        "1"
    } else if v == 2 {
        "2"
    } else if v == 3 {
        "3"
    } else if v == 4 {
        "4"
    } else if v == 5 {
        "5"
    } else if v == 6 {
        "6"
    } else if v == 7 {
        "7"
    } else if v == 8 {
        "8"
    } else {
        "9"
    }
}

impl Date {
    /// Parse a `YYYY-MM-DD` string into a date, rejecting every string that
    /// does not name an actual calendar day.
    pub fn parse(s: &str) -> (r: Option<Date>)
        ensures
            r is Some <==> spec_is_date_seq(s@),
            r matches Some(d) ==> d == spec_date_of_seq(s@) && d.wf(),
    {
        if s.unicode_len() != 10 {
            return None;
        }
        let d0 = match digit_val(s.get_char(0)) {
            Some(v) => v,
            None => {
                return None;
            },
        };
        let d1 = match digit_val(s.get_char(1)) {
            Some(v) => v,
            None => {
                return None;
            },
        };
        let d2 = match digit_val(s.get_char(2)) {
            Some(v) => v,
            None => {
                return None;
            },
        };
        let d3 = match digit_val(s.get_char(3)) {
            Some(v) => v,
            None => {
                return None;
            },
        };
        if s.get_char(4) != '-' {
            return None;
        }
        let d5 = match digit_val(s.get_char(5)) {
            Some(v) => v,
            None => {
                return None;
            },
        };
        let d6 = match digit_val(s.get_char(6)) {
            Some(v) => v,
            None => {
                return None;
            },
        };
        if s.get_char(7) != '-' {
            return None;
        }
        let d8 = match digit_val(s.get_char(8)) {
            Some(v) => v,
            None => {
                return None;
            },
        };
        let d9 = match digit_val(s.get_char(9)) {
            Some(v) => v,
            None => {
                return None;
            },
        };
        let year: u32 = 1000 * (d0 as u32) + 100 * (d1 as u32) + 10 * (d2 as u32) + (d3 as u32);
        let month: u32 = 10 * (d5 as u32) + (d6 as u32);
        let day: u32 = 10 * (d8 as u32) + (d9 as u32);
        if month < 1 || month > 12 {
            return None;
        }
        if day < 1 || day > days_in_month(year, month) {
            return None;
        }
        Some(Date { year, month, day })
    }

    /// Render the date as a `YYYY-MM-DD` string.
    pub fn to_ymd_string(&self) -> (r: String)
        requires
            self.wf(),
        ensures
            r@ =~= spec_ymd_seq(*self),
    {
        let mut out = String::new();
        out.append(digit_str(self.year / 1000));
        out.append(digit_str((self.year / 100) % 10));
        out.append(digit_str((self.year / 10) % 10));
        out.append(digit_str(self.year % 10));
        out.append("-");
        out.append(digit_str(self.month / 10));
        out.append(digit_str(self.month % 10));
        out.append("-");
        out.append(digit_str(self.day / 10));
        out.append(digit_str(self.day % 10));
        proof {
            reveal_strlit("-");
            assert(out@ =~= spec_ymd_seq(*self));
        }
        out
    }
}

} // verus!
