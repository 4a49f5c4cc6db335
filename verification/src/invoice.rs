//! Invoice merging: aligning the columns of several invoice exports and
//! normalising their dates.
use vstd::prelude::*;
use crate::calendar::{
    as_day_option, date_text, four_digits, has_no_minus, month_day_year_slashed_text, number_ahead, numeric_field,
    p_month_day_year_slashed, parse_date, parse_datetime_day, parsed_date, parsed_datetime_day,
    plain_numeric_pattern, starts_with_number_field, two_digits, valid_date, year_text,
};
use crate::columns::{find_header, first_match, views, MatchMode};
use crate::shipment::{cell, cell_at};
use crate::text::{
    all_white, chars_of, copy_str, decimal, is_white_space, lemma_blank_is_white, lemma_decimal_digits,
    replace_char, replace_chars, trim, trimmed,
};

verus! {

// ---------------------------------------------------------------------------
// Dates
// ---------------------------------------------------------------------------

/// A day written as "mm/dd/yyyy".
fn slashed_text(t: (i32, u32, u32)) -> (r: String)
    requires
        valid_date(t.0 as int, t.1 as int, t.2 as int),
    ensures
        r@ == month_day_year_slashed_text(t.0 as int, t.1 as int, t.2 as int),
        parsed_date(r@, p_month_day_year_slashed()) == Some((t.0 as int, t.1 as int, t.2 as int)),
{
    let p = "%m/%d/%Y";
    proof {
        reveal_strlit("%m/%d/%Y");
    }
    assert(p@ =~= p_month_day_year_slashed());
    date_text(t.0, t.1, t.2, p)
}

/// The date formats tried, in order.
pub open spec fn date_formats() -> Seq<Seq<char>> {
    seq![
        seq!['%', 'm', '/', '%', 'd', '/', '%', 'Y'],
        seq!['%', 'm', '/', '%', 'd', '/', '%', 'y'],
        seq!['%', 'Y', '/', '%', 'm', '/', '%', 'd'],
        seq!['%', 'd', '/', '%', 'm', '/', '%', 'Y'],
    ]
}

/// The date-and-time formats tried after the date formats, in order.
pub open spec fn datetime_formats() -> Seq<Seq<char>> {
    seq![
        seq!['%', 'Y', '/', '%', 'm', '/', '%', 'd', ' ', '%', 'H', ':', '%', 'M', ':', '%', 'S'],
        seq!['%', 'm', '/', '%', 'd', '/', '%', 'Y', ' ', '%', 'H', ':', '%', 'M', ':', '%', 'S'],
    ]
}

/// "#HATA" (error).
pub open spec fn w_error() -> Seq<char> {
    seq!['#', 'H', 'A', 'T', 'A']
}

/// The date text with `,` and `-` written as `/`.
pub open spec fn date_separators(raw: Seq<char>) -> Seq<char> {
    replace_char(replace_char(raw, ',', '/'), '-', '/')
}

/// The first date format (from `k` on) that reads `s`, reformatted.
pub open spec fn first_date(s: Seq<char>, k: int) -> Option<Seq<char>>
    decreases 4 - k,
{
    if k < 0 || k >= 4 {
        None
    } else {
        match parsed_date(s, date_formats()[k]) {
            Some(t) => Some(month_day_year_slashed_text(t.0, t.1, t.2)),
            None => first_date(s, k + 1),
        }
    }
}

/// The first date-and-time format (from `k` on) that reads `s`, reformatted.
pub open spec fn first_datetime(s: Seq<char>, k: int) -> Option<Seq<char>>
    decreases 2 - k,
{
    if k < 0 || k >= 2 {
        None
    } else {
        match parsed_datetime_day(s, datetime_formats()[k]) {
            Some(t) => Some(month_day_year_slashed_text(t.0, t.1, t.2)),
            None => first_datetime(s, k + 1),
        }
    }
}

/// A normalised invoice date: the separators unified, then the first format
/// that reads it, written month/day/year; unread texts are kept (with the
/// unified separators), and blank ones become "#HATA".
pub open spec fn normalised_date(raw: Seq<char>) -> Seq<char> {
    let clean = date_separators(raw);
    match first_date(clean, 0) {
        Some(t) => t,
        None => match first_datetime(clean, 0) {
            Some(t) => t,
            None => if trimmed(clean).len() == 0 {
                w_error()
            } else {
                clean
            },
        },
    }
}

fn date_format_text(k: usize) -> (r: String)
    requires
        k < 4,
    ensures
        r@ == date_formats()[k as int],
{
    if k == 0 {
        let s = "%m/%d/%Y";
        proof {
            reveal_strlit("%m/%d/%Y");
        }
        assert(s@ =~= date_formats()[0]);
        copy_str(s)
    } else if k == 1 {
        let s = "%m/%d/%y";
        proof {
            reveal_strlit("%m/%d/%y");
        }
        assert(s@ =~= date_formats()[1]);
        copy_str(s)
    } else if k == 2 {
        let s = "%Y/%m/%d";
        proof {
            reveal_strlit("%Y/%m/%d");
        }
        assert(s@ =~= date_formats()[2]);
        copy_str(s)
    } else {
        let s = "%d/%m/%Y";
        proof {
            reveal_strlit("%d/%m/%Y");
        }
        assert(s@ =~= date_formats()[3]);
        copy_str(s)
    }
}

fn datetime_format_text(k: usize) -> (r: String)
    requires
        k < 2,
    ensures
        r@ == datetime_formats()[k as int],
{
    if k == 0 {
        let s = "%Y/%m/%d %H:%M:%S";
        proof {
            reveal_strlit("%Y/%m/%d %H:%M:%S");
        }
        assert(s@ =~= datetime_formats()[0]);
        copy_str(s)
    } else {
        let s = "%m/%d/%Y %H:%M:%S";
        proof {
            reveal_strlit("%m/%d/%Y %H:%M:%S");
        }
        assert(s@ =~= datetime_formats()[1]);
        copy_str(s)
    }
}

fn text_error() -> (r: String)
    ensures
        r@ == w_error(),
{
    let s = "#HATA";
    proof {
        reveal_strlit("#HATA");
    }
    assert(s@ =~= w_error());
    copy_str(s)
}

/// The first day read among `readings[k..]`.
pub open spec fn first_reading(readings: Seq<Option<(int, int, int)>>, k: int) -> Option<(int, int, int)>
    decreases readings.len() - k,
{
    if k < 0 || k >= readings.len() {
        None
    } else {
        match readings[k] {
            Some(t) => Some(t),
            None => first_reading(readings, k + 1),
        }
    }
}

/// A day written as "mm/dd/yyyy", when there is one.
pub open spec fn slashed_option(o: Option<(int, int, int)>) -> Option<Seq<char>> {
    match o {
        Some(t) => Some(month_day_year_slashed_text(t.0, t.1, t.2)),
        None => None,
    }
}

/// The normalised date of the text `clean` (separators already unified)
/// from what each date format (`dates`) and then each date-and-time format
/// (`moments`) read of it: the first day read, written month/day/year;
/// with none read, "#HATA" for blank text and the text itself otherwise.
pub open spec fn date_from_readings_of(
    clean: Seq<char>,
    dates: Seq<Option<(int, int, int)>>,
    moments: Seq<Option<(int, int, int)>>,
) -> Seq<char> {
    match first_reading(dates, 0) {
        Some(t) => month_day_year_slashed_text(t.0, t.1, t.2),
        None => match first_reading(moments, 0) {
            Some(t) => month_day_year_slashed_text(t.0, t.1, t.2),
            None => if trimmed(clean).len() == 0 {
                w_error()
            } else {
                clean
            },
        },
    }
}

/// The days that an invoice's date formats read of a text.
pub open spec fn date_readings(s: Seq<char>) -> Seq<Option<(int, int, int)>> {
    Seq::new(4, |k: int| parsed_date(s, date_formats()[k]))
}

/// The days that an invoice's date-and-time formats read of a text.
pub open spec fn moment_readings(s: Seq<char>) -> Seq<Option<(int, int, int)>> {
    Seq::new(2, |k: int| parsed_datetime_day(s, datetime_formats()[k]))
}

proof fn lemma_first_date_readings(s: Seq<char>, k: int)
    requires
        0 <= k <= 4,
    ensures
        first_date(s, k) == slashed_option(first_reading(date_readings(s), k)),
    decreases 4 - k,
{
    if k < 4 {
        lemma_first_date_readings(s, k + 1);
    }
}

proof fn lemma_first_datetime_readings(s: Seq<char>, k: int)
    requires
        0 <= k <= 2,
    ensures
        first_datetime(s, k) == slashed_option(first_reading(moment_readings(s), k)),
    decreases 2 - k,
{
    if k < 2 {
        lemma_first_datetime_readings(s, k + 1);
    }
}

/// The first day read from `readings[k..]`, checked to be a valid date.
fn first_read_day(readings: &Vec<Option<(i32, u32, u32)>>) -> (r: Option<(i32, u32, u32)>)
    requires
        forall|k: int| 0 <= k < readings.len() ==> (#[trigger] readings@[k] matches Some(t) ==> valid_date(t.0 as int, t.1 as int, t.2 as int)),
    ensures
        as_day_option(r) == first_reading(readings@.map_values(|o: Option<(i32, u32, u32)>| as_day_option(o)), 0),
        r matches Some(t) ==> valid_date(t.0 as int, t.1 as int, t.2 as int),
{
    let ghost rv = readings@.map_values(|o: Option<(i32, u32, u32)>| as_day_option(o));
    let mut k: usize = 0;
    while k < readings.len()
        invariant
            k <= readings.len(),
            rv == readings@.map_values(|o: Option<(i32, u32, u32)>| as_day_option(o)),
            first_reading(rv, 0) == first_reading(rv, k as int),
            forall|j: int| 0 <= j < readings.len() ==> (#[trigger] readings@[j] matches Some(t) ==> valid_date(t.0 as int, t.1 as int, t.2 as int)),
        decreases readings.len() - k,
    {
        assert(rv[k as int] == as_day_option(readings@[k as int]));
        match readings[k] {
            Some(t) => {
                return Some(t);
            },
            None => {},
        }
        k = k + 1;
    }
    None
}

/// The normalised date from the readings of a text (see
/// `date_from_readings_of`); every day read is a valid date.
pub fn date_from_readings(
    clean: &str,
    dates: &Vec<Option<(i32, u32, u32)>>,
    moments: &Vec<Option<(i32, u32, u32)>>,
) -> (r: String)
    requires
        forall|k: int| 0 <= k < dates.len() ==> (#[trigger] dates@[k] matches Some(t) ==> valid_date(t.0 as int, t.1 as int, t.2 as int)),
        forall|k: int| 0 <= k < moments.len() ==> (#[trigger] moments@[k] matches Some(t) ==> valid_date(t.0 as int, t.1 as int, t.2 as int)),
    ensures
        r@ == date_from_readings_of(
            clean@,
            dates@.map_values(|o: Option<(i32, u32, u32)>| as_day_option(o)),
            moments@.map_values(|o: Option<(i32, u32, u32)>| as_day_option(o)),
        ),
        first_reading(dates@.map_values(|o: Option<(i32, u32, u32)>| as_day_option(o)), 0) matches Some(t)
            ==> parsed_date(r@, p_month_day_year_slashed()) == Some(t),
        first_reading(dates@.map_values(|o: Option<(i32, u32, u32)>| as_day_option(o)), 0) is None ==> (
        first_reading(moments@.map_values(|o: Option<(i32, u32, u32)>| as_day_option(o)), 0) matches Some(t)
            ==> parsed_date(r@, p_month_day_year_slashed()) == Some(t)),
{
    match first_read_day(dates) {
        Some(t) => slashed_text(t),
        None => match first_read_day(moments) {
            Some(t) => slashed_text(t),
            None => {
                let t = trim(clean);
                if chars_of(t.as_str()).len() == 0 {
                    text_error()
                } else {
                    copy_str(clean)
                }
            },
        },
    }
}

// ---------------------------------------------------------------------------
// Normalising twice
// ---------------------------------------------------------------------------

/// No `,` and no `-` in the text.
pub open spec fn no_date_separators(s: Seq<char>) -> bool {
    forall|i: int| 0 <= i < s.len() ==> s[i] != ',' && s[i] != '-'
}

/// Every day read has a year of at least 0.
pub open spec fn years_from_zero(readings: Seq<Option<(int, int, int)>>) -> bool {
    forall|j: int| 0 <= j < readings.len() ==> (#[trigger] readings[j] matches Some(t) ==> t.0 >= 0)
}

/// No day was read.
pub open spec fn nothing_read(readings: Seq<Option<(int, int, int)>>) -> bool {
    forall|j: int| 0 <= j < readings.len() ==> (#[trigger] readings[j]) is None
}

proof fn lemma_separators_unified(s: Seq<char>)
    ensures
        no_date_separators(date_separators(s)),
        all_white(date_separators(s)) <==> all_white(s),
{
    let c = date_separators(s);
    assert(c.len() == s.len());
    assert forall|i: int| 0 <= i < s.len() implies (#[trigger] c[i]) == (if s[i] == ',' || s[i] == '-' { '/' } else { s[i] }) by {
        assert(replace_char(s, ',', '/')[i] == (if s[i] == ',' { '/' } else { s[i] }));
    }
    if all_white(s) {
        assert forall|i: int| 0 <= i < c.len() implies #[trigger] is_white_space(c[i]) by {
            assert(is_white_space(s[i]));
        }
    }
    if all_white(c) {
        assert forall|i: int| 0 <= i < s.len() implies #[trigger] is_white_space(s[i]) by {
            assert(is_white_space(c[i]));
        }
    }
}

proof fn lemma_separators_absent(s: Seq<char>)
    requires
        no_date_separators(s),
    ensures
        date_separators(s) == s,
{
    assert(replace_char(s, ',', '/') =~= s);
    assert(replace_char(s, '-', '/') =~= s);
}

proof fn lemma_join_clean(a: Seq<char>, b: Seq<char>)
    requires
        no_date_separators(a),
        no_date_separators(b),
    ensures
        no_date_separators(a + b),
{
    assert forall|i: int| 0 <= i < (a + b).len() implies (a + b)[i] != ',' && (a + b)[i] != '-' by {
        if i >= a.len() {
            assert((a + b)[i] == b[i - a.len()]);
        }
    }
}

proof fn lemma_decimal_clean(n: nat)
    ensures
        no_date_separators(decimal(n)),
{
    lemma_decimal_digits(n);
    assert forall|i: int| 0 <= i < decimal(n).len() implies decimal(n)[i] != ',' && decimal(n)[i] != '-' by {
        assert(48 <= (decimal(n)[i]) as u32 <= 57);
    }
}

proof fn lemma_year_text_clean(y: int)
    requires
        y >= 0,
    ensures
        no_date_separators(year_text(y)),
{
    let n = y as nat;
    lemma_decimal_clean(n);
    lemma_join_clean(seq!['0', '0', '0'], decimal(n));
    lemma_join_clean(seq!['0', '0'], decimal(n));
    lemma_join_clean(seq!['0'], decimal(n));
    lemma_join_clean(seq!['+'], four_digits(n));
}

proof fn lemma_slashed_text_clean(y: int, m: int, d: int)
    requires
        y >= 0,
    ensures
        no_date_separators(month_day_year_slashed_text(y, m, d)),
{
    lemma_decimal_clean(m as nat);
    lemma_decimal_clean(d as nat);
    lemma_year_text_clean(y);
    let tm = two_digits(m as nat);
    let td = two_digits(d as nat);
    assert(no_date_separators(tm));
    assert(no_date_separators(td));
    lemma_join_clean(tm, seq!['/']);
    lemma_join_clean(tm + seq!['/'], td);
    lemma_join_clean(tm + seq!['/'] + td, seq!['/']);
    lemma_join_clean(tm + seq!['/'] + td + seq!['/'], year_text(y));
}

proof fn lemma_first_reading_year(readings: Seq<Option<(int, int, int)>>, k: int)
    requires
        years_from_zero(readings),
    ensures
        first_reading(readings, k) matches Some(t) ==> t.0 >= 0,
    decreases readings.len() - k,
{
    if 0 <= k < readings.len() {
        lemma_first_reading_year(readings, k + 1);
    }
}

proof fn lemma_first_reading_none(readings: Seq<Option<(int, int, int)>>, k: int)
    requires
        nothing_read(readings),
    ensures
        first_reading(readings, k) is None,
    decreases readings.len() - k,
{
    if 0 <= k < readings.len() {
        lemma_first_reading_none(readings, k + 1);
    }
}

proof fn lemma_three_fields(p: Seq<char>, a: char, x: char, b: char, y: char, c: char)
    requires
        p == seq!['%', a, x, '%', b, y, '%', c],
        numeric_field(a),
        numeric_field(b),
        numeric_field(c),
        x != '%',
        y != '%',
    ensures
        plain_numeric_pattern(p),
        starts_with_number_field(p),
{
    assert forall|i: int| 0 <= i < p.len() && #[trigger] p[i] == '%' implies i + 1 < p.len() && numeric_field(p[i + 1]) by {
        assert(i == 0 || i == 1 || i == 2 || i == 3 || i == 4 || i == 5 || i == 6 || i == 7);
    }
}

proof fn lemma_with_time(p: Seq<char>, q: Seq<char>)
    requires
        q.len() == 8,
        plain_numeric_pattern(q),
        starts_with_number_field(q),
        q[7] != '%',
        p == q + seq![' ', '%', 'H', ':', '%', 'M', ':', '%', 'S'],
    ensures
        plain_numeric_pattern(p),
        starts_with_number_field(p),
{
    let t = seq![' ', '%', 'H', ':', '%', 'M', ':', '%', 'S'];
    assert(p[0] == q[0] && p[1] == q[1]);
    assert forall|i: int| 0 <= i < p.len() && #[trigger] p[i] == '%' implies i + 1 < p.len() && numeric_field(p[i + 1]) by {
        if i < 8 {
            assert(p[i] == q[i]);
            assert(q[i] == '%');
            assert(i + 1 < 8);
            assert(p[i + 1] == q[i + 1]);
        } else {
            assert(p[i] == t[i - 8]);
            assert(p[i + 1] == t[i - 7]);
            assert(i == 8 || i == 9 || i == 10 || i == 11 || i == 12 || i == 13 || i == 14 || i == 15 || i == 16);
        }
    }
}

/// Every date and date-and-time format begins with a numeric field and has
/// numeric fields only.
proof fn lemma_formats_numeric()
    ensures
        forall|k: int| 0 <= k < 4 ==> plain_numeric_pattern(#[trigger] date_formats()[k]) && starts_with_number_field(date_formats()[k]),
        forall|k: int| 0 <= k < 2 ==> plain_numeric_pattern(#[trigger] datetime_formats()[k]) && starts_with_number_field(datetime_formats()[k]),
{
    let f = date_formats();
    lemma_three_fields(f[0], 'm', '/', 'd', '/', 'Y');
    lemma_three_fields(f[1], 'm', '/', 'd', '/', 'y');
    lemma_three_fields(f[2], 'Y', '/', 'm', '/', 'd');
    lemma_three_fields(f[3], 'd', '/', 'm', '/', 'Y');
    let g = datetime_formats();
    assert(g[0] =~= f[2] + seq![' ', '%', 'H', ':', '%', 'M', ':', '%', 'S']);
    assert(g[1] =~= f[0] + seq![' ', '%', 'H', ':', '%', 'M', ':', '%', 'S']);
    lemma_with_time(g[0], f[2]);
    lemma_with_time(g[1], f[0]);
    assert forall|k: int| 0 <= k < 4 implies plain_numeric_pattern(#[trigger] date_formats()[k]) && starts_with_number_field(date_formats()[k]) by {
        assert(k == 0 || k == 1 || k == 2 || k == 3);
    }
    assert forall|k: int| 0 <= k < 2 implies plain_numeric_pattern(#[trigger] datetime_formats()[k]) && starts_with_number_field(datetime_formats()[k]) by {
        assert(k == 0 || k == 1);
    }
}

/// Normalises an invoice date (see `normalised_date`). A blank text gives
/// "#HATA"; any other text gives a date that normalises to itself. A text
/// that does not go on, after its leading white space, with a digit or a
/// sign (such as "#HATA") is read by no format: it is kept, with the unified
/// separators, unless it is blank. Together these make normalising twice
/// the same as normalising once.
pub fn format_date(raw: &str) -> (r: String)
    ensures
        r@ == normalised_date(raw@),
        trimmed(raw@).len() == 0 ==> r@ == w_error(),
        trimmed(raw@).len() > 0 ==> normalised_date(r@) == r@,
        trimmed(raw@).len() > 0 && !number_ahead(date_separators(raw@)) ==> r@ == date_separators(raw@),
{
    let a = replace_chars(raw, ',', '/');
    let clean = replace_chars(a.as_str(), '-', '/');
    proof {
        lemma_separators_unified(raw@);
        lemma_formats_numeric();
        assert(has_no_minus(clean@));
    }
    let mut dates: Vec<Option<(i32, u32, u32)>> = Vec::new();
    let mut k: usize = 0;
    while k < 4
        invariant
            k <= 4,
            clean@ == date_separators(raw@),
            has_no_minus(clean@),
            forall|j: int| 0 <= j < 4 ==> plain_numeric_pattern(#[trigger] date_formats()[j]) && starts_with_number_field(date_formats()[j]),
            dates.len() == k,
            forall|j: int| 0 <= j < k ==> as_day_option(#[trigger] dates@[j]) == parsed_date(clean@, date_formats()[j]),
            forall|j: int| 0 <= j < k ==> (#[trigger] dates@[j] matches Some(t) ==> valid_date(t.0 as int, t.1 as int, t.2 as int)),
            forall|j: int| 0 <= j < k ==> (#[trigger] dates@[j] matches Some(t) ==> t.0 >= 0),
            !number_ahead(clean@) ==> forall|j: int| 0 <= j < k ==> (#[trigger] dates@[j]) is None,
        decreases 4 - k,
    {
        let f = date_format_text(k);
        dates.push(parse_date(clean.as_str(), f.as_str()));
        k = k + 1;
    }
    let mut moments: Vec<Option<(i32, u32, u32)>> = Vec::new();
    let mut k: usize = 0;
    while k < 2
        invariant
            k <= 2,
            clean@ == date_separators(raw@),
            has_no_minus(clean@),
            forall|j: int| 0 <= j < 2 ==> plain_numeric_pattern(#[trigger] datetime_formats()[j]) && starts_with_number_field(datetime_formats()[j]),
            moments.len() == k,
            forall|j: int| 0 <= j < k ==> as_day_option(#[trigger] moments@[j]) == parsed_datetime_day(clean@, datetime_formats()[j]),
            forall|j: int| 0 <= j < k ==> (#[trigger] moments@[j] matches Some(t) ==> valid_date(t.0 as int, t.1 as int, t.2 as int)),
            forall|j: int| 0 <= j < k ==> (#[trigger] moments@[j] matches Some(t) ==> t.0 >= 0),
            !number_ahead(clean@) ==> forall|j: int| 0 <= j < k ==> (#[trigger] moments@[j]) is None,
        decreases 2 - k,
    {
        let f = datetime_format_text(k);
        moments.push(parse_datetime_day(clean.as_str(), f.as_str()));
        k = k + 1;
    }
    let ghost dv = dates@.map_values(|o: Option<(i32, u32, u32)>| as_day_option(o));
    let ghost mv = moments@.map_values(|o: Option<(i32, u32, u32)>| as_day_option(o));
    proof {
        assert(dv =~= date_readings(clean@));
        assert(mv =~= moment_readings(clean@));
        lemma_first_date_readings(clean@, 0);
        lemma_first_datetime_readings(clean@, 0);
    }
    let r = date_from_readings(clean.as_str(), &dates, &moments);
    proof {
        lemma_blank_is_white(raw@);
        lemma_blank_is_white(clean@);
        assert(years_from_zero(dv)) by {
            assert forall|j: int| 0 <= j < dv.len() implies (#[trigger] dv[j] matches Some(t) ==> t.0 >= 0) by {
                assert(dv[j] == as_day_option(dates@[j]));
            }
        }
        assert(years_from_zero(mv)) by {
            assert forall|j: int| 0 <= j < mv.len() implies (#[trigger] mv[j] matches Some(t) ==> t.0 >= 0) by {
                assert(mv[j] == as_day_option(moments@[j]));
            }
        }
        lemma_first_reading_year(dv, 0);
        lemma_first_reading_year(mv, 0);
        if !number_ahead(clean@) {
            assert(nothing_read(dv)) by {
                assert forall|j: int| 0 <= j < dv.len() implies (#[trigger] dv[j]) is None by {
                    assert(dv[j] == as_day_option(dates@[j]));
                }
            }
            assert(nothing_read(mv)) by {
                assert forall|j: int| 0 <= j < mv.len() implies (#[trigger] mv[j]) is None by {
                    assert(mv[j] == as_day_option(moments@[j]));
                }
            }
            lemma_first_reading_none(dv, 0);
            lemma_first_reading_none(mv, 0);
            if !all_white(raw@) {
                lemma_separators_absent(clean@);
            }
        } else {
            assert(date_formats()[0] =~= p_month_day_year_slashed());
            match first_reading(dv, 0) {
                Some(t) => {
                    lemma_slashed_text_clean(t.0, t.1, t.2);
                    lemma_separators_absent(r@);
                },
                None => match first_reading(mv, 0) {
                    Some(t) => {
                        lemma_slashed_text_clean(t.0, t.1, t.2);
                        lemma_separators_absent(r@);
                    },
                    None => {
                        lemma_separators_absent(clean@);
                    },
                },
            }
        }
    }
    r
}

// ---------------------------------------------------------------------------
// Columns
// ---------------------------------------------------------------------------

/// Trimmed headers kept from the first file (those not listed for removal),
/// with their positions, for the first `n` headers.
pub open spec fn kept_columns(header: Seq<Seq<char>>, remove: Seq<Seq<char>>, n: int) -> Seq<(Seq<char>, int)>
    decreases n,
{
    if n <= 0 {
        Seq::empty()
    } else {
        let rest = kept_columns(header, remove, n - 1);
        let t = trimmed(header[n - 1]);
        if remove.contains(t) {
            rest
        } else {
            rest.push((t, n - 1))
        }
    }
}

/// Positions in a later file's header of the master headers `master[..n]`
/// (the first header whose trimmed text equals each), or the index of the
/// first master header it lacks.
pub open spec fn master_positions(header: Seq<Seq<char>>, master: Seq<Seq<char>>, n: int) -> Result<Seq<int>, int>
    decreases n,
{
    if n <= 0 {
        Ok(Seq::empty())
    } else {
        match master_positions(header, master, n - 1) {
            Err(k) => Err(k),
            Ok(ps) => match first_match(header, master[n - 1], MatchMode::Trimmed) {
                Some(p) => Ok(ps.push(p)),
                None => Err(n - 1),
            },
        }
    }
}

/// The master header row and column mapping from the first file's header.
pub fn master_columns(header: &Vec<String>, remove: &Vec<String>) -> (r: (Vec<String>, Vec<usize>))
    ensures
        r.0.len() == r.1.len(),
        forall|k: int| 0 <= k < r.0.len() ==> (#[trigger] r.0@[k])@ == kept_columns(views(header@), views(remove@), header.len() as int)[k].0,
        forall|k: int| 0 <= k < r.1.len() ==> (#[trigger] r.1@[k]) as int == kept_columns(views(header@), views(remove@), header.len() as int)[k].1,
        r.0.len() == kept_columns(views(header@), views(remove@), header.len() as int).len(),
        forall|k: int| 0 <= k < r.1.len() ==> #[trigger] r.1@[k] < header.len(),
{
    let ghost hv = views(header@);
    let ghost rv = views(remove@);
    let mut names: Vec<String> = Vec::new();
    let mut cols: Vec<usize> = Vec::new();
    let mut i: usize = 0;
    while i < header.len()
        invariant
            i <= header.len(),
            hv == views(header@),
            rv == views(remove@),
            names.len() == cols.len(),
            names.len() == kept_columns(hv, rv, i as int).len(),
            forall|k: int| 0 <= k < names.len() ==> (#[trigger] names@[k])@ == kept_columns(hv, rv, i as int)[k].0,
            forall|k: int| 0 <= k < cols.len() ==> (#[trigger] cols@[k]) as int == kept_columns(hv, rv, i as int)[k].1,
            forall|k: int| 0 <= k < cols.len() ==> #[trigger] cols@[k] < i,
        decreases header.len() - i,
    {
        let t = trim(header[i].as_str());
        proof {
            assert(hv[i as int] == header@[i as int]@);
        }
        let listed = match crate::text::position_of(remove, t.as_str()) {
            Some(j) => {
                proof {
                    assert(rv[j as int] == t@);
                }
                true
            },
            None => {
                proof {
                    if rv.contains(t@) {
                        let j = choose|j: int| 0 <= j < rv.len() && rv[j] == t@;
                        assert(remove@[j]@ == t@);
                    }
                }
                false
            },
        };
        if !listed {
            names.push(t);
            cols.push(i);
        }
        i = i + 1;
    }
    (names, cols)
}

/// Positions of the master headers in a later file's header (see
/// `master_positions`); `Err(k)` names the first master header it lacks.
pub fn map_to_master(header: &Vec<String>, master: &Vec<String>) -> (r: Result<Vec<usize>, usize>)
    ensures
        match master_positions(views(header@), views(master@), master.len() as int) {
            Ok(ps) => r matches Ok(v) && v@.map_values(|x: usize| x as int) == ps,
            Err(k) => r == Err::<Vec<usize>, usize>(k as usize),
        },
        r matches Ok(v) ==> forall|k: int| 0 <= k < v.len() ==> #[trigger] v@[k] < header.len(),
{
    let ghost hv = views(header@);
    let ghost mv = views(master@);
    let mut out: Vec<usize> = Vec::new();
    let mut k: usize = 0;
    assert(out@.map_values(|x: usize| x as int) =~= Seq::<int>::empty());
    while k < master.len()
        invariant
            k <= master.len(),
            hv == views(header@),
            mv == views(master@),
            master_positions(hv, mv, k as int) == Ok::<Seq<int>, int>(out@.map_values(|x: usize| x as int)),
            forall|j: int| 0 <= j < out.len() ==> #[trigger] out@[j] < header.len(),
        decreases master.len() - k,
    {
        proof {
            assert(mv[k as int] == master@[k as int]@);
        }
        match find_header(header, master[k].as_str(), MatchMode::Trimmed) {
            Some(p) => {
                let ghost before = out@;
                out.push(p);
                assert(out@.map_values(|x: usize| x as int) =~= before.map_values(|x: usize| x as int).push(p as int));
            },
            None => {
                proof {
                    lemma_positions_stay_err(hv, mv, k as int + 1, master.len() as int);
                }
                return Err(k);
            },
        }
        k = k + 1;
    }
    Ok(out)
}

proof fn lemma_positions_stay_err(header: Seq<Seq<char>>, master: Seq<Seq<char>>, a: int, b: int)
    requires
        0 <= a <= b,
        master_positions(header, master, a) is Err,
    ensures
        master_positions(header, master, b) == master_positions(header, master, a),
    decreases b - a,
{
    if b > a {
        lemma_positions_stay_err(header, master, a, b - 1);
    }
}

// ---------------------------------------------------------------------------
// Rows
// ---------------------------------------------------------------------------

/// A cell of the merged invoice sheet.
pub enum InvoiceCell {
    /// The shipped quantity (written as a number).
    ShipQuantity,
    /// A text cell.
    Text(String),
}

/// The view of a merged cell: `None` for the shipped quantity.
pub open spec fn invoice_cell_view(c: InvoiceCell) -> Option<Seq<char>> {
    match c {
        InvoiceCell::ShipQuantity => None,
        InvoiceCell::Text(s) => Some(s@),
    }
}

/// The merged cell for input column `col` of a record.
pub open spec fn merged_cell(record: Seq<String>, col: int, date_col: int, qty_col: int) -> Option<Seq<char>> {
    if col == qty_col {
        None
    } else if col == date_col {
        Some(normalised_date(cell_at(record, col)))
    } else {
        Some(cell_at(record, col))
    }
}

/// The merged cells of a record, one per mapped column: the shipped
/// quantity column as a number, the date column normalised, others as they
/// are (missing cells empty).
pub fn merged_row(record: &Vec<String>, mapping: &Vec<usize>, date_col: usize, qty_col: usize) -> (r: Vec<InvoiceCell>)
    ensures
        r.len() == mapping.len(),
        forall|k: int| 0 <= k < r.len() ==> invoice_cell_view(#[trigger] r@[k]) == merged_cell(record@, mapping@[k] as int, date_col as int, qty_col as int),
{
    let mut out: Vec<InvoiceCell> = Vec::new();
    let mut k: usize = 0;
    while k < mapping.len()
        invariant
            k <= mapping.len(),
            out.len() == k,
            forall|j: int| 0 <= j < k ==> invoice_cell_view(#[trigger] out@[j]) == merged_cell(record@, mapping@[j] as int, date_col as int, qty_col as int),
        decreases mapping.len() - k,
    {
        let col = mapping[k];
        if col == qty_col {
            out.push(InvoiceCell::ShipQuantity);
        } else if col == date_col {
            let v = cell(record, col);
            out.push(InvoiceCell::Text(format_date(v.as_str())));
        } else {
            out.push(InvoiceCell::Text(cell(record, col)));
        }
        k = k + 1;
    }
    out
}

} // verus!
