//! The proleptic Gregorian calendar of `chrono::NaiveDate`: which dates
//! exist, how they are written, how far apart two of them are, and what day
//! it is today.
use vstd::prelude::*;
use chrono::Datelike;
use crate::text::{decimal, digit_char, is_ascii_digit, trim_start};

verus! {

// ---------------------------------------------------------------------------
// The calendar
// ---------------------------------------------------------------------------

/// The first year a `NaiveDate` can hold.
pub open spec fn min_year() -> int {
    -262143
}

/// The last year a `NaiveDate` can hold.
pub open spec fn max_year() -> int {
    262142
}

/// Gregorian leap years (every fourth year, but not the centuries that are
/// not multiples of 400), extended to year 0 and before.
pub open spec fn is_leap_year(y: int) -> bool {
    y % 4 == 0 && (y % 100 != 0 || y % 400 == 0)
}

/// Number of days of month `m` (1 to 12) of year `y`.
pub open spec fn month_length(y: int, m: int) -> int {
    if m == 2 {
        if is_leap_year(y) { 29 } else { 28 }
    } else if m == 4 || m == 6 || m == 9 || m == 11 {
        30
    } else {
        31
    }
}

/// A calendar day that `NaiveDate` can hold.
pub open spec fn valid_date(y: int, m: int, d: int) -> bool {
    &&& min_year() <= y <= max_year()
    &&& 1 <= m <= 12
    &&& 1 <= d <= month_length(y, m)
}

/// Days from 1 January of year 0 to 1 January of year `y`.
pub open spec fn days_before_year(y: int) -> int {
    365 * y + (y + 3) / 4 - (y + 99) / 100 + (y + 399) / 400
}

/// Days from 1 January to the first day of month `m` of year `y`.
pub open spec fn days_before_month(y: int, m: int) -> int {
    let common: int = if m <= 1 { 0 } else if m == 2 { 31 } else if m == 3 { 59 } else if m == 4 { 90 }
        else if m == 5 { 120 } else if m == 6 { 151 } else if m == 7 { 181 } else if m == 8 { 212 }
        else if m == 9 { 243 } else if m == 10 { 273 } else if m == 11 { 304 } else { 334 };
    common + if m > 2 && is_leap_year(y) { 1int } else { 0int }
}

/// The day's ordinal: days since 1 January of year 0.
pub open spec fn day_number(y: int, m: int, d: int) -> int {
    days_before_year(y) + days_before_month(y, m) + d - 1
}

/// Days from the second date to the first.
pub open spec fn day_span(a: (int, int, int), b: (int, int, int)) -> int {
    day_number(a.0, a.1, a.2) - day_number(b.0, b.1, b.2)
}

// ---------------------------------------------------------------------------
// Writing dates
// ---------------------------------------------------------------------------

/// "%d.%m.%Y".
pub open spec fn p_day_month_year() -> Seq<char> {
    seq!['%', 'd', '.', '%', 'm', '.', '%', 'Y']
}

/// "%Y-%m-%d 00:00:00".
pub open spec fn p_midnight_stamp() -> Seq<char> {
    seq!['%', 'Y', '-', '%', 'm', '-', '%', 'd', ' ', '0', '0', ':', '0', '0', ':', '0', '0']
}

/// "%m-%d-%Y".
pub open spec fn p_month_day_year_dashed() -> Seq<char> {
    seq!['%', 'm', '-', '%', 'd', '-', '%', 'Y']
}

/// "%m/%d/%Y".
pub open spec fn p_month_day_year_slashed() -> Seq<char> {
    seq!['%', 'm', '/', '%', 'd', '/', '%', 'Y']
}

/// "%Y-%m-%d".
pub open spec fn p_iso_date() -> Seq<char> {
    seq!['%', 'Y', '-', '%', 'm', '-', '%', 'd']
}

/// The patterns that `date_text` writes.
pub open spec fn known_pattern(p: Seq<char>) -> bool {
    ||| p == p_day_month_year()
    ||| p == p_midnight_stamp()
    ||| p == p_month_day_year_dashed()
    ||| p == p_month_day_year_slashed()
}

/// A number below 100 in two digits (`%d`, `%m`).
pub open spec fn two_digits(n: nat) -> Seq<char> {
    if n < 10 {
        seq!['0', digit_char(n)]
    } else {
        decimal(n)
    }
}

/// A number in at least four digits, zero-padded.
pub open spec fn four_digits(n: nat) -> Seq<char> {
    if n < 10 {
        seq!['0', '0', '0'] + decimal(n)
    } else if n < 100 {
        seq!['0', '0'] + decimal(n)
    } else if n < 1000 {
        seq!['0'] + decimal(n)
    } else {
        decimal(n)
    }
}

/// A year as `%Y` writes it: four digits from 0 to 9999, otherwise with a
/// sign.
pub open spec fn year_text(y: int) -> Seq<char> {
    if 0 <= y <= 9999 {
        four_digits(y as nat)
    } else if y < 0 {
        seq!['-'] + four_digits((-y) as nat)
    } else {
        seq!['+'] + four_digits(y as nat)
    }
}

/// "dd.mm.yyyy".
pub open spec fn day_month_year_text(y: int, m: int, d: int) -> Seq<char> {
    two_digits(d as nat) + seq!['.'] + two_digits(m as nat) + seq!['.'] + year_text(y)
}

/// "yyyy-mm-dd 00:00:00".
pub open spec fn midnight_stamp_text(y: int, m: int, d: int) -> Seq<char> {
    year_text(y) + seq!['-'] + two_digits(m as nat) + seq!['-'] + two_digits(d as nat) + seq![
        ' ',
        '0',
        '0',
        ':',
        '0',
        '0',
        ':',
        '0',
        '0',
    ]
}

/// "mm-dd-yyyy".
pub open spec fn month_day_year_dashed_text(y: int, m: int, d: int) -> Seq<char> {
    two_digits(m as nat) + seq!['-'] + two_digits(d as nat) + seq!['-'] + year_text(y)
}

/// "mm/dd/yyyy".
pub open spec fn month_day_year_slashed_text(y: int, m: int, d: int) -> Seq<char> {
    two_digits(m as nat) + seq!['/'] + two_digits(d as nat) + seq!['/'] + year_text(y)
}

/// A day as a triple of mathematical integers.
pub open spec fn as_day(t: (i32, u32, u32)) -> (int, int, int) {
    (t.0 as int, t.1 as int, t.2 as int)
}

/// An optional day as a triple of mathematical integers.
pub open spec fn as_day_option(o: Option<(i32, u32, u32)>) -> Option<(int, int, int)> {
    match o {
        Some(t) => Some(as_day(t)),
        None => None,
    }
}

// ---------------------------------------------------------------------------
// Reading dates
// ---------------------------------------------------------------------------

/// A format field that reads a number: month, day, year, two-digit year,
/// hour, minute or second.
pub open spec fn numeric_field(c: char) -> bool {
    c == 'm' || c == 'd' || c == 'Y' || c == 'y' || c == 'H' || c == 'M' || c == 'S'
}

/// A format whose fields are all numeric ones (`numeric_field`); its other
/// characters are matched as they stand.
pub open spec fn plain_numeric_pattern(p: Seq<char>) -> bool {
    forall|i: int| 0 <= i < p.len() && #[trigger] p[i] == '%' ==> i + 1 < p.len() && numeric_field(p[i + 1])
}

/// A format that begins with a numeric field.
pub open spec fn starts_with_number_field(p: Seq<char>) -> bool {
    p.len() >= 2 && p[0] == '%' && numeric_field(p[1])
}

/// After its leading white space the text goes on with an ASCII digit or
/// a sign, where a numeric field could start reading.
pub open spec fn number_ahead(s: Seq<char>) -> bool {
    let t = trim_start(s);
    t.len() > 0 && (is_ascii_digit(t[0]) || t[0] == '+' || t[0] == '-')
}

/// A text without a minus sign.
pub open spec fn has_no_minus(s: Seq<char>) -> bool {
    forall|i: int| 0 <= i < s.len() ==> s[i] != '-'
}

// ---------------------------------------------------------------------------
// Names for what parsing gives
// ---------------------------------------------------------------------------

/// The day that `chrono::NaiveDate::parse_from_str` reads from `s` with the
/// format `fmt`, or `None` when it does not read one.
pub uninterp spec fn parsed_date(s: Seq<char>, fmt: Seq<char>) -> Option<(int, int, int)>;

/// The day of the date-and-time that `chrono::NaiveDateTime::parse_from_str`
/// reads from `s` with the format `fmt`, or `None` when it does not read one.
pub uninterp spec fn parsed_datetime_day(s: Seq<char>, fmt: Seq<char>) -> Option<(int, int, int)>;

// ---------------------------------------------------------------------------
// Lemmas
// ---------------------------------------------------------------------------

/// Day ordinals of valid dates lie within a hundred million days of year 0.
pub proof fn lemma_day_number_bounds(y: int, m: int, d: int)
    requires
        valid_date(y, m, d),
    ensures
        -100_000_000 <= day_number(y, m, d) <= 100_000_000,
{
    assert(-65535 <= (y + 3) / 4 <= 65537);
    assert(-2622 <= (y + 99) / 100 <= 2624);
    assert(-656 <= (y + 399) / 400 <= 657);
    assert(0 <= days_before_month(y, m) <= 335);
}

/// Two valid dates are fewer than 2^31 days apart.
pub proof fn lemma_day_span_fits(a: (int, int, int), b: (int, int, int))
    requires
        valid_date(a.0, a.1, a.2),
        valid_date(b.0, b.1, b.2),
    ensures
        -200_000_000 <= day_span(a, b) <= 200_000_000,
{
    lemma_day_number_bounds(a.0, a.1, a.2);
    lemma_day_number_bounds(b.0, b.1, b.2);
}

// ---------------------------------------------------------------------------
// Calls into chrono
// ---------------------------------------------------------------------------

/// Whether `chrono::NaiveDate::from_ymd_opt` makes a date of the year, month
/// and day: it does exactly for the existing calendar days of its year range.
#[verifier::external_body]
pub(crate) fn date_exists(y: i32, m: u32, d: u32) -> (r: bool)
    ensures
        r == valid_date(y as int, m as int, d as int),
{
    chrono::NaiveDate::from_ymd_opt(y, m, d).is_some()
}

/// A date written with `chrono::NaiveDate::format` and one of the patterns
/// of `known_pattern`: `%d` and `%m` give two digits, `%Y` four digits (with
/// a sign outside the years 0 to 9999), other characters stand for
/// themselves. Read back with `NaiveDate::parse_from_str` and the same
/// "%m/%d/%Y" pattern, the month/day/year text gives the same day: `%m` and
/// `%d` read up to two digits, `%Y` up to four digits or, after a sign, all
/// of them.
#[verifier::external_body]
pub(crate) fn date_text(y: i32, m: u32, d: u32, pattern: &str) -> (r: String)
    requires
        valid_date(y as int, m as int, d as int),
        known_pattern(pattern@),
    ensures
        pattern@ == p_day_month_year() ==> r@ == day_month_year_text(y as int, m as int, d as int),
        pattern@ == p_midnight_stamp() ==> r@ == midnight_stamp_text(y as int, m as int, d as int),
        pattern@ == p_month_day_year_dashed() ==> r@ == month_day_year_dashed_text(y as int, m as int, d as int),
        pattern@ == p_month_day_year_slashed() ==> r@ == month_day_year_slashed_text(y as int, m as int, d as int),
        pattern@ == p_month_day_year_slashed() ==> parsed_date(r@, p_month_day_year_slashed()) == Some(
            (y as int, m as int, d as int),
        ),
{
    match chrono::NaiveDate::from_ymd_opt(y, m, d) {
        Some(date) => date.format(pattern).to_string(),
        None => String::new(),
    }
}

/// Whole days from the second date to the first, by
/// `chrono::NaiveDate::signed_duration_since` and `TimeDelta::num_days`.
#[verifier::external_body]
pub(crate) fn days_between(a: (i32, u32, u32), b: (i32, u32, u32)) -> (r: i64)
    requires
        valid_date(a.0 as int, a.1 as int, a.2 as int),
        valid_date(b.0 as int, b.1 as int, b.2 as int),
    ensures
        r == day_span(as_day(a), as_day(b)),
{
    match (chrono::NaiveDate::from_ymd_opt(a.0, a.1, a.2), chrono::NaiveDate::from_ymd_opt(b.0, b.1, b.2)) {
        (Some(x), Some(y)) => x.signed_duration_since(y).num_days(),
        _ => 0,
    }
}

/// Today's date in UTC (`chrono::Utc::now`), as year, month and day. Of the
/// result only its being a valid date is claimed.
#[verifier::external_body]
pub(crate) fn today_utc() -> (r: (i32, u32, u32))
    ensures
        valid_date(r.0 as int, r.1 as int, r.2 as int),
{
    let today = chrono::Utc::now().naive_utc().date();
    (today.year(), today.month(), today.day())
}

/// Reads a date with `chrono::NaiveDate::parse_from_str`; a date read is a
/// valid one. A format that begins with a numeric field reads nothing from
/// a text that does not go on, after its leading white space, with a digit
/// or a sign (the field skips white space and then needs a digit, or for
/// `%Y` a digit or a sign). With numeric fields only, the year is negative only when written
/// after a minus sign (`%Y` takes a sign, `%y` gives 1970 to 2069), so a
/// text without a minus gives a year of at least 0.
#[verifier::external_body]
pub(crate) fn parse_date(s: &str, fmt: &str) -> (r: Option<(i32, u32, u32)>)
    ensures
        as_day_option(r) == parsed_date(s@, fmt@),
        r matches Some(t) ==> valid_date(t.0 as int, t.1 as int, t.2 as int),
        starts_with_number_field(fmt@) && !number_ahead(s@) ==> r is None,
        plain_numeric_pattern(fmt@) && has_no_minus(s@) ==> (r matches Some(t) ==> t.0 >= 0),
{
    match chrono::NaiveDate::parse_from_str(s, fmt) {
        Ok(date) => Some((date.year(), date.month(), date.day())),
        Err(_) => None,
    }
}

/// Reads a date and time with `chrono::NaiveDateTime::parse_from_str` and
/// keeps its day; a day read is a valid date. As for `parse_date`: a format
/// that begins with a numeric field reads nothing from a text that does not
/// go on, after its leading white space, with a digit or a sign,
/// and with numeric fields only a text without a minus gives a year of at
/// least 0.
#[verifier::external_body]
pub(crate) fn parse_datetime_day(s: &str, fmt: &str) -> (r: Option<(i32, u32, u32)>)
    ensures
        as_day_option(r) == parsed_datetime_day(s@, fmt@),
        r matches Some(t) ==> valid_date(t.0 as int, t.1 as int, t.2 as int),
        starts_with_number_field(fmt@) && !number_ahead(s@) ==> r is None,
        plain_numeric_pattern(fmt@) && has_no_minus(s@) ==> (r matches Some(t) ==> t.0 >= 0),
{
    match chrono::NaiveDateTime::parse_from_str(s, fmt) {
        Ok(moment) => Some((moment.year(), moment.month(), moment.day())),
        Err(_) => None,
    }
}

} // verus!
