//! Dates of shipment lines: the creation date and the expiry date written in
//! the master workbook, and the age of a lot at the marketplace.
use vstd::prelude::*;
use vstd::utf8::{encode_utf8, is_ascii_chars};
use crate::calendar::{
    as_day, as_day_option, date_exists, day_number, four_digits, two_digits, year_text, p_iso_date, parse_date, parsed_date, date_text, day_month_year_text, day_span, days_between,
    lemma_day_span_fits, midnight_stamp_text, month_day_year_dashed_text, p_day_month_year,
    p_midnight_stamp, p_month_day_year_dashed, today_utc, valid_date,
};
use crate::columns::option_views;
use crate::shipment::utf8_width;
use crate::stock::w_nan;
use crate::text::{
    chars_of, decimal, digit_char, lemma_decimal_digits, copy_str, first_index_of, i32_value, lowercase, parse_i32, parse_u32, position_of,
    replace_char, replace_chars, text_eq, to_lower, to_upper, trim, trimmed, u32_value, uppercase,
    ascii_lower, is_ascii_text,
};

verus! {

// ---------------------------------------------------------------------------
// Matching with the regex crate
// ---------------------------------------------------------------------------

/// The groups that `regex::Regex::new(pattern)` and `Regex::captures(text)`
/// give: `None` when the pattern does not compile or does not match, else
/// each group's text (group 0 is the whole match), `None` for a group that
/// took no part in the match.
pub uninterp spec fn regex_captures(pattern: Seq<char>, text: Seq<char>) -> Option<Seq<Option<Seq<char>>>>;

/// The view of what a match gave.
pub open spec fn captures_view(c: Option<Vec<Option<String>>>) -> Option<Seq<Option<Seq<char>>>> {
    match c {
        Some(g) => Some(option_views(g@)),
        None => None,
    }
}

/// Matches `text` against `pattern` with the regex crate (see
/// `regex_captures`, a name for the result; nothing more is claimed of it).
#[verifier::external_body]
fn captures(pattern: &str, text: &str) -> (r: Option<Vec<Option<String>>>)
    ensures
        captures_view(r) == regex_captures(pattern@, text@),
{
    match regex::Regex::new(pattern) {
        Ok(re) => re.captures(text).map(|c| c.iter().map(|g| g.map(|m| m.as_str().to_string())).collect()),
        Err(_) => None,
    }
}

/// The text of group `i`; a group that took no part reads as empty text.
pub open spec fn group_text(g: Seq<Option<Seq<char>>>, i: int) -> Seq<char> {
    if 0 <= i < g.len() {
        match g[i] {
            Some(t) => t,
            None => Seq::empty(),
        }
    } else {
        Seq::empty()
    }
}

fn group(g: &Vec<Option<String>>, i: usize) -> (r: String)
    ensures
        r@ == group_text(option_views(g@), i as int),
{
    if i < g.len() {
        match &g[i] {
            Some(t) => t.clone(),
            None => String::new(),
        }
    } else {
        String::new()
    }
}

// ---------------------------------------------------------------------------
// Creation dates
// ---------------------------------------------------------------------------

/// The pattern of a creation date: an optional "CREATED >" and then day,
/// three-letter month and year, in any case.
pub open spec fn created_pattern() -> Seq<char> {
    seq![
        '(', '?', 'i', ')', '(', '?', ':', 'C', 'R', 'E', 'A', 'T', 'E', 'D', '\\', 's', '*', '>',
        '\\', 's', '*', ')', '?', '(', '\\', 'd', '{', '1', ',', '2', '}', ')', '\\', 's', '*',
        '(', '[', 'A', '-', 'Z', ']', '{', '3', '}', ')', '\\', 's', '*', '(', '\\', 'd', '{',
        '4', '}', ')',
    ]
}

/// The English month abbreviations, in capitals.
pub open spec fn month_names() -> Seq<Seq<char>> {
    seq![
        seq!['J', 'A', 'N'],
        seq!['F', 'E', 'B'],
        seq!['M', 'A', 'R'],
        seq!['A', 'P', 'R'],
        seq!['M', 'A', 'Y'],
        seq!['J', 'U', 'N'],
        seq!['J', 'U', 'L'],
        seq!['A', 'U', 'G'],
        seq!['S', 'E', 'P'],
        seq!['O', 'C', 'T'],
        seq!['N', 'O', 'V'],
        seq!['D', 'E', 'C'],
    ]
}

/// The month an abbreviation names; an unknown one counts as January.
pub open spec fn month_number(abbr: Seq<char>) -> int {
    match first_index_of(month_names(), abbr) {
        Some(i) => i + 1,
        None => 1,
    }
}

/// A blank or "nan" cell.
pub open spec fn blank_or_nan(val: Seq<char>) -> bool {
    val.len() == 0 || lowercase(val) == w_nan()
}

/// A creation date written as "dd.mm.yyyy" and as "yyyy-mm-dd 00:00:00".
pub open spec fn created_texts(t: (int, int, int)) -> (Seq<char>, Seq<char>) {
    (day_month_year_text(t.0, t.1, t.2), midnight_stamp_text(t.0, t.1, t.2))
}

/// The creation date read from the groups of a match: day (1 when it does
/// not read), month and year (this year when it does not read); today when
/// there was no match or the day does not exist.
pub open spec fn created_from_groups(caps: Option<Seq<Option<Seq<char>>>>, today: (int, int, int)) -> (Seq<char>, Seq<char>) {
    match caps {
        Some(g) => {
            let day = match u32_value(group_text(g, 1)) {
                Some(v) => v,
                None => 1,
            };
            let month = month_number(uppercase(group_text(g, 2)));
            let year = match i32_value(group_text(g, 3)) {
                Some(v) => v,
                None => today.0,
            };
            if valid_date(year, month, day) {
                created_texts((year, month, day))
            } else {
                created_texts(today)
            }
        },
        None => created_texts(today),
    }
}

/// The creation date of a cell, on the day `today`: today for a blank or
/// "nan" cell, else what the creation pattern reads from the trimmed text.
pub open spec fn created_date_of(raw: Seq<char>, today: (int, int, int)) -> (Seq<char>, Seq<char>) {
    let val = trimmed(raw);
    if blank_or_nan(val) {
        created_texts(today)
    } else {
        created_from_groups(regex_captures(created_pattern(), val), today)
    }
}

fn month_name_texts() -> (r: Vec<String>)
    ensures
        r@.map_values(|x: String| x@) == month_names(),
{
    let mut v: Vec<String> = Vec::new();
    let s = "JAN";
    proof { reveal_strlit("JAN"); }
    assert(s@ =~= month_names()[0]);
    v.push(copy_str(s));
    let s = "FEB";
    proof { reveal_strlit("FEB"); }
    assert(s@ =~= month_names()[1]);
    v.push(copy_str(s));
    let s = "MAR";
    proof { reveal_strlit("MAR"); }
    assert(s@ =~= month_names()[2]);
    v.push(copy_str(s));
    let s = "APR";
    proof { reveal_strlit("APR"); }
    assert(s@ =~= month_names()[3]);
    v.push(copy_str(s));
    let s = "MAY";
    proof { reveal_strlit("MAY"); }
    assert(s@ =~= month_names()[4]);
    v.push(copy_str(s));
    let s = "JUN";
    proof { reveal_strlit("JUN"); }
    assert(s@ =~= month_names()[5]);
    v.push(copy_str(s));
    let s = "JUL";
    proof { reveal_strlit("JUL"); }
    assert(s@ =~= month_names()[6]);
    v.push(copy_str(s));
    let s = "AUG";
    proof { reveal_strlit("AUG"); }
    assert(s@ =~= month_names()[7]);
    v.push(copy_str(s));
    let s = "SEP";
    proof { reveal_strlit("SEP"); }
    assert(s@ =~= month_names()[8]);
    v.push(copy_str(s));
    let s = "OCT";
    proof { reveal_strlit("OCT"); }
    assert(s@ =~= month_names()[9]);
    v.push(copy_str(s));
    let s = "NOV";
    proof { reveal_strlit("NOV"); }
    assert(s@ =~= month_names()[10]);
    v.push(copy_str(s));
    let s = "DEC";
    proof { reveal_strlit("DEC"); }
    assert(s@ =~= month_names()[11]);
    v.push(copy_str(s));
    assert(v@.map_values(|x: String| x@) =~= month_names());
    v
}

/// The month an abbreviation names (see `month_number`).
pub fn month_of(abbr: &str) -> (r: u32)
    ensures
        r == month_number(abbr@),
        1 <= r <= 12,
{
    let names = month_name_texts();
    match position_of(&names, abbr) {
        Some(i) => (i + 1) as u32,
        None => 1,
    }
}

fn created_texts_of(t: (i32, u32, u32)) -> (r: (String, String))
    requires
        valid_date(t.0 as int, t.1 as int, t.2 as int),
    ensures
        (r.0@, r.1@) == created_texts(as_day(t)),
{
    let p1 = "%d.%m.%Y";
    proof { reveal_strlit("%d.%m.%Y"); }
    assert(p1@ =~= p_day_month_year());
    let p2 = "%Y-%m-%d 00:00:00";
    proof { reveal_strlit("%Y-%m-%d 00:00:00"); }
    assert(p2@ =~= p_midnight_stamp());
    (date_text(t.0, t.1, t.2, p1), date_text(t.0, t.1, t.2, p2))
}

/// The creation date from the groups of a match (see `created_from_groups`).
pub fn created_date_from_groups(caps: &Option<Vec<Option<String>>>, today: (i32, u32, u32)) -> (r: (String, String))
    requires
        valid_date(today.0 as int, today.1 as int, today.2 as int),
    ensures
        (r.0@, r.1@) == created_from_groups(captures_view(*caps), as_day(today)),
{
    match caps {
        Some(g) => {
            let day: u32 = match parse_u32(group(g, 1).as_str()) {
                Some(v) => v,
                None => 1,
            };
            let abbr = to_upper(group(g, 2).as_str());
            let month: u32 = month_of(abbr.as_str());
            let year: i32 = match parse_i32(group(g, 3).as_str()) {
                Some(v) => v,
                None => today.0,
            };
            if date_exists(year, month, day) {
                created_texts_of((year, month, day))
            } else {
                created_texts_of(today)
            }
        },
        None => created_texts_of(today),
    }
}

/// Whether a trimmed cell is blank or "nan".
fn is_blank_or_nan(val: &str) -> (r: bool)
    ensures
        r == blank_or_nan(val@),
        is_ascii_text(val@) ==> (r <==> (val@.len() == 0 || val@.map_values(|c: char| ascii_lower(c)) == w_nan())),
{
    let low = to_lower(val);
    let nan = "nan";
    proof { reveal_strlit("nan"); }
    assert(nan@ =~= w_nan());
    chars_of(val).len() == 0 || text_eq(low.as_str(), nan)
}

/// The creation date of a cell on a given day (see `created_date_of`).
pub fn created_date_on(raw: &str, today: (i32, u32, u32)) -> (r: (String, String))
    requires
        valid_date(today.0 as int, today.1 as int, today.2 as int),
    ensures
        (r.0@, r.1@) == created_date_of(raw@, as_day(today)),
{
    let val = trim(raw);
    if is_blank_or_nan(val.as_str()) {
        return created_texts_of(today);
    }
    let pattern = "(?i)(?:CREATED\\s*>\\s*)?(\\d{1,2})\\s*([A-Z]{3})\\s*(\\d{4})";
    proof { reveal_strlit("(?i)(?:CREATED\\s*>\\s*)?(\\d{1,2})\\s*([A-Z]{3})\\s*(\\d{4})"); }
    assert(pattern@ =~= created_pattern());
    let caps = captures(pattern, val.as_str());
    created_date_from_groups(&caps, today)
}

/// The creation date of a cell, read on the current day (see
/// `created_date_of`).
pub fn parse_created_date(raw: &str) -> (r: (String, String))
    ensures
        exists|y: int, m: int, d: int| valid_date(y, m, d) && (r.0@, r.1@) == created_date_of(raw@, (y, m, d)),
{
    let today = today_utc();
    let r = created_date_on(raw, today);
    assert(valid_date(today.0 as int, today.1 as int, today.2 as int) && (r.0@, r.1@) == created_date_of(raw@, as_day(today)));
    r
}

// ---------------------------------------------------------------------------
// Expiry dates
// ---------------------------------------------------------------------------

/// The pattern of an expiry date: two numbers of one or two digits and a
/// four-digit year, separated by `-`, `/` or `.`, and nothing else.
pub open spec fn expiry_pattern() -> Seq<char> {
    seq![
        '^', '(', '\\', 'd', '{', '1', ',', '2', '}', ')', '[', '-', '/', '.', ']', '(', '\\', 'd',
        '{', '1', ',', '2', '}', ')', '[', '-', '/', '.', ']', '(', '\\', 'd', '{', '4', '}', ')',
        '$',
    ]
}

/// The expiry day read from the groups of a match: a first number above 12
/// is the day; otherwise month then day is tried before day then month.
pub open spec fn expiry_day_from_groups(caps: Option<Seq<Option<Seq<char>>>>, today: (int, int, int)) -> Option<(int, int, int)> {
    match caps {
        Some(g) => {
            let p1 = match u32_value(group_text(g, 1)) {
                Some(v) => v,
                None => 1,
            };
            let p2 = match u32_value(group_text(g, 2)) {
                Some(v) => v,
                None => 1,
            };
            let p3 = match i32_value(group_text(g, 3)) {
                Some(v) => v,
                None => today.0,
            };
            if p1 > 12 {
                if valid_date(p3, p2, p1) {
                    Some((p3, p2, p1))
                } else {
                    None
                }
            } else if valid_date(p3, p1, p2) {
                Some((p3, p1, p2))
            } else if valid_date(p3, p2, p1) {
                Some((p3, p2, p1))
            } else {
                None
            }
        },
        None => None,
    }
}

/// The expiry date of a trimmed, non-blank cell: "mm-dd-yyyy",
/// "dd.mm.yyyy" and the days left until it; a text that is not read as a
/// date is kept, with `.` written as `-`, and no days are counted.
pub open spec fn expiry_from_groups(val: Seq<char>, caps: Option<Seq<Option<Seq<char>>>>, today: (int, int, int)) -> (Seq<char>, Seq<char>, int) {
    match expiry_day_from_groups(caps, today) {
        Some(t) => (
            month_day_year_dashed_text(t.0, t.1, t.2),
            day_month_year_text(t.0, t.1, t.2),
            day_span(t, today),
        ),
        None => (replace_char(val, '.', '-'), replace_char(val, '.', '-'), 0),
    }
}

/// The expiry date of a cell, on the day `today`: nothing for a blank or
/// "nan" cell, else what the expiry pattern reads from the trimmed text.
pub open spec fn expiry_date_of(raw: Seq<char>, today: (int, int, int)) -> (Seq<char>, Seq<char>, int) {
    let val = trimmed(raw);
    if blank_or_nan(val) {
        (Seq::empty(), Seq::empty(), 0)
    } else {
        expiry_from_groups(val, regex_captures(expiry_pattern(), val), today)
    }
}

/// The expiry date from the groups of a match (see `expiry_from_groups`).
pub fn expiry_date_from_groups(val: &str, caps: &Option<Vec<Option<String>>>, today: (i32, u32, u32)) -> (r: (String, String, i32))
    requires
        valid_date(today.0 as int, today.1 as int, today.2 as int),
    ensures
        (r.0@, r.1@, r.2 as int) == expiry_from_groups(val@, captures_view(*caps), as_day(today)),
{
    let mut day: Option<(i32, u32, u32)> = None;
    match caps {
        Some(g) => {
            let p1: u32 = match parse_u32(group(g, 1).as_str()) {
                Some(v) => v,
                None => 1,
            };
            let p2: u32 = match parse_u32(group(g, 2).as_str()) {
                Some(v) => v,
                None => 1,
            };
            let p3: i32 = match parse_i32(group(g, 3).as_str()) {
                Some(v) => v,
                None => today.0,
            };
            if p1 > 12 {
                if date_exists(p3, p2, p1) {
                    day = Some((p3, p2, p1));
                }
            } else if date_exists(p3, p1, p2) {
                day = Some((p3, p1, p2));
            } else if date_exists(p3, p2, p1) {
                day = Some((p3, p2, p1));
            }
        },
        None => {},
    }
    assert(as_day_option(day) == expiry_day_from_groups(captures_view(*caps), as_day(today)));
    match day {
        Some(t) => {
            let p1 = "%m-%d-%Y";
            proof { reveal_strlit("%m-%d-%Y"); }
            assert(p1@ =~= p_month_day_year_dashed());
            let p2 = "%d.%m.%Y";
            proof { reveal_strlit("%d.%m.%Y"); }
            assert(p2@ =~= p_day_month_year());
            let usa = date_text(t.0, t.1, t.2, p1);
            let tur = date_text(t.0, t.1, t.2, p2);
            let span = days_between(t, today);
            proof {
                lemma_day_span_fits(as_day(t), as_day(today));
            }
            (usa, tur, span as i32)
        },
        None => {
            let clean = replace_chars(val, '.', '-');
            let again = clean.clone();
            (clean, again, 0)
        },
    }
}

/// The expiry date of a cell on a given day (see `expiry_date_of`).
pub fn expiry_date_on(raw: &str, today: (i32, u32, u32)) -> (r: (String, String, i32))
    requires
        valid_date(today.0 as int, today.1 as int, today.2 as int),
    ensures
        (r.0@, r.1@, r.2 as int) == expiry_date_of(raw@, as_day(today)),
{
    let val = trim(raw);
    if is_blank_or_nan(val.as_str()) {
        return (String::new(), String::new(), 0);
    }
    let pattern = "^(\\d{1,2})[-/.](\\d{1,2})[-/.](\\d{4})$";
    proof { reveal_strlit("^(\\d{1,2})[-/.](\\d{1,2})[-/.](\\d{4})$"); }
    assert(pattern@ =~= expiry_pattern());
    let caps = captures(pattern, val.as_str());
    expiry_date_from_groups(val.as_str(), &caps, today)
}

/// The expiry date of a cell, read on the current day (see
/// `expiry_date_of`).
pub fn parse_exp_date(raw: &str) -> (r: (String, String, i32))
    ensures
        exists|y: int, m: int, d: int| valid_date(y, m, d) && (r.0@, r.1@, r.2 as int) == expiry_date_of(raw@, (y, m, d)),
{
    let today = today_utc();
    let r = expiry_date_on(raw, today);
    assert(valid_date(today.0 as int, today.1 as int, today.2 as int) && (r.0@, r.1@, r.2 as int) == expiry_date_of(raw@, as_day(today)));
    r
}

// ---------------------------------------------------------------------------
// Age of a lot
// ---------------------------------------------------------------------------

/// The first ten bytes of the text's UTF-8 encoding end on a character
/// boundary (so that the text can be cut there).
pub open spec fn has_ten_byte_prefix(s: Seq<char>) -> bool {
    exists|k: int| 0 <= k <= s.len() && #[trigger] encode_utf8(s.take(k)).len() == 10
}

/// The characters of the first ten bytes of the text.
pub open spec fn ten_byte_prefix(s: Seq<char>) -> Seq<char> {
    s.take(choose|k: int| 0 <= k <= s.len() && #[trigger] encode_utf8(s.take(k)).len() == 10)
}

/// The age of a lot created on `created` (if its creation day was read),
/// counted from 30 days after its creation to `today`; 0 when unread.
pub open spec fn stock_age_from(created: Option<(int, int, int)>, today: (int, int, int)) -> int {
    match created {
        Some(t) => day_span(today, t) - 30,
        None => 0,
    }
}

/// The age of a lot from its stored creation stamp, whose first ten bytes
/// are read as "%Y-%m-%d".
pub open spec fn stock_age_of(created_ts: Seq<char>, today: (int, int, int)) -> int {
    stock_age_from(parsed_date(ten_byte_prefix(created_ts), p_iso_date()), today)
}

/// The length of the UTF-8 encoding of two texts one after the other.
proof fn lemma_utf8_len_concat(a: Seq<char>, b: Seq<char>)
    ensures
        encode_utf8(a + b).len() == encode_utf8(a).len() + encode_utf8(b).len(),
    decreases a.len(),
{
    if a.len() == 0 {
        assert(a + b =~= b);
    } else {
        lemma_utf8_len_concat(a.drop_first(), b);
        assert((a + b).drop_first() =~= a.drop_first() + b);
        assert((a + b)[0] == a[0]);
    }
}

/// Each further character adds at least one byte.
proof fn lemma_utf8_prefix_grows(s: Seq<char>, i: int, j: int)
    requires
        0 <= i <= j <= s.len(),
    ensures
        encode_utf8(s.take(j)).len() >= encode_utf8(s.take(i)).len() + (j - i),
    decreases j - i,
{
    if i < j {
        lemma_utf8_prefix_grows(s, i, j - 1);
        assert(s.take(j) =~= s.take(j - 1) + seq![s[j - 1]]);
        lemma_utf8_len_concat(s.take(j - 1), seq![s[j - 1]]);
        assert(seq![s[j - 1]].drop_first() =~= Seq::<char>::empty());
        assert(encode_utf8(seq![s[j - 1]]).len() >= 1) by {
            vstd::utf8::char_is_scalar(s[j - 1]);
        }
    }
}

/// The characters of the first ten bytes of a text.
fn ten_byte_prefix_of(s: &str) -> (r: String)
    requires
        has_ten_byte_prefix(s@),
    ensures
        r@ == ten_byte_prefix(s@),
{
    let v = chars_of(s);
    let ghost k = choose|k: int| 0 <= k <= s@.len() && #[trigger] encode_utf8(s@.take(k)).len() == 10;
    let mut bytes: usize = 0;
    let mut i: usize = 0;
    assert(s@.take(0) =~= Seq::<char>::empty());
    while bytes < 10
        invariant
            v@ == s@,
            0 <= k <= s@.len(),
            encode_utf8(s@.take(k)).len() == 10,
            i <= v.len(),
            bytes == encode_utf8(s@.take(i as int)).len(),
            bytes <= 10,
            i <= k,
        decreases 10 - bytes,
    {
        proof {
            lemma_utf8_prefix_grows(s@, i as int, k);
        }
        let w = utf8_width(v[i]);
        proof {
            assert(s@.take(i + 1) =~= s@.take(i as int) + seq![s@[i as int]]);
            lemma_utf8_len_concat(s@.take(i as int), seq![s@[i as int]]);
            if bytes + w > 10 {
                lemma_utf8_prefix_grows(s@, i + 1, k);
                assert(false);
            }
        }
        bytes = bytes + w as usize;
        i = i + 1;
    }
    proof {
        if i < k {
            lemma_utf8_prefix_grows(s@, i as int, k);
            assert(false);
        }
    }
    let r = crate::text::string_of_range(&v, 0, i);
    assert(r@ =~= s@.take(k));
    r
}

/// The age of a lot from its creation day (see `stock_age_from`).
pub fn stock_age_from_day(created: Option<(i32, u32, u32)>, today: (i32, u32, u32)) -> (r: i32)
    requires
        valid_date(today.0 as int, today.1 as int, today.2 as int),
        created matches Some(t) ==> valid_date(t.0 as int, t.1 as int, t.2 as int),
    ensures
        r == stock_age_from(as_day_option(created), as_day(today)),
{
    match created {
        Some(t) => {
            let span = days_between(today, t);
            proof {
                lemma_day_span_fits(as_day(today), as_day(t));
            }
            (span as i32) - 30
        },
        None => 0,
    }
}

/// The age of a lot on a given day from its stored creation stamp (see
/// `stock_age_of`).
pub fn stock_age_on(created_ts: &str, today: (i32, u32, u32)) -> (r: i32)
    requires
        has_ten_byte_prefix(created_ts@),
        valid_date(today.0 as int, today.1 as int, today.2 as int),
    ensures
        r == stock_age_of(created_ts@, as_day(today)),
{
    let prefix = ten_byte_prefix_of(created_ts);
    let fmt = "%Y-%m-%d";
    proof { reveal_strlit("%Y-%m-%d"); }
    assert(fmt@ =~= p_iso_date());
    let created = parse_date(prefix.as_str(), fmt);
    stock_age_from_day(created, today)
}

// ---------------------------------------------------------------------------
// Laws
// ---------------------------------------------------------------------------

/// ASCII texts joined stay ASCII.
proof fn lemma_ascii_concat(a: Seq<char>, b: Seq<char>)
    requires
        is_ascii_chars(a),
        is_ascii_chars(b),
    ensures
        is_ascii_chars(a + b),
{
    assert forall|i: int| 0 <= i < (a + b).len() implies '\0' <= #[trigger] (a + b)[i] <= '\u{7f}' by {
        if i < a.len() {
            assert((a + b)[i] == a[i]);
        } else {
            assert((a + b)[i] == b[i - a.len()]);
        }
    }
}

/// Decimal digits are ASCII.
proof fn lemma_decimal_ascii(n: nat)
    ensures
        is_ascii_chars(decimal(n)),
        decimal(n).len() >= 1,
    decreases n,
{
    let c = digit_char(n % 10);
    assert('\0' <= c <= '\u{7f}');
    if n >= 10 {
        lemma_decimal_ascii(n / 10);
        lemma_ascii_concat(decimal(n / 10), seq![c]);
        assert(decimal(n) =~= decimal(n / 10) + seq![c]);
    } else {
        assert(decimal(n) =~= seq![c]);
    }
}

/// A number in two digits is ASCII.
proof fn lemma_two_digits_ascii(n: nat)
    ensures
        is_ascii_chars(two_digits(n)),
        two_digits(n).len() >= 1,
{
    lemma_decimal_ascii(n);
    if n < 10 {
        lemma_decimal_ascii(n);
        assert(decimal(n) == seq![digit_char(n)]);
        assert(is_ascii_chars(seq!['0', digit_char(n)])) by {
            assert(seq!['0', digit_char(n)] =~= seq!['0'] + decimal(n));
            lemma_ascii_concat(seq!['0'], decimal(n));
        }
    }
}

/// A number in four or more digits is ASCII and at least four long.
proof fn lemma_four_digits_ascii(n: nat)
    ensures
        is_ascii_chars(four_digits(n)),
        four_digits(n).len() >= 1,
{
    lemma_decimal_ascii(n);
    lemma_ascii_concat(seq!['0', '0', '0'], decimal(n));
    lemma_ascii_concat(seq!['0', '0'], decimal(n));
    lemma_ascii_concat(seq!['0'], decimal(n));
}

/// A year as `%Y` writes it is ASCII.
proof fn lemma_year_text_ascii(y: int)
    ensures
        is_ascii_chars(year_text(y)),
        year_text(y).len() >= 1,
{
    if 0 <= y <= 9999 {
        lemma_four_digits_ascii(y as nat);
    } else if y < 0 {
        lemma_four_digits_ascii((-y) as nat);
        lemma_ascii_concat(seq!['-'], four_digits((-y) as nat));
    } else {
        lemma_four_digits_ascii(y as nat);
        lemma_ascii_concat(seq!['+'], four_digits(y as nat));
    }
}

/// A midnight stamp is ASCII and longer than ten characters.
proof fn lemma_stamp_ascii(y: int, m: int, d: int)
    ensures
        is_ascii_chars(midnight_stamp_text(y, m, d)),
        midnight_stamp_text(y, m, d).len() >= 10,
{
    let yt = year_text(y);
    let mt = two_digits(m as nat);
    let dt = two_digits(d as nat);
    let tail = seq![' ', '0', '0', ':', '0', '0', ':', '0', '0'];
    lemma_year_text_ascii(y);
    lemma_two_digits_ascii(m as nat);
    lemma_two_digits_ascii(d as nat);
    lemma_ascii_concat(yt, seq!['-']);
    lemma_ascii_concat(yt + seq!['-'], mt);
    lemma_ascii_concat(yt + seq!['-'] + mt, seq!['-']);
    lemma_ascii_concat(yt + seq!['-'] + mt + seq!['-'], dt);
    lemma_ascii_concat(yt + seq!['-'] + mt + seq!['-'] + dt, tail);
}

/// An ASCII text of at least ten characters can be cut after ten bytes.
proof fn lemma_ascii_has_ten_byte_prefix(s: Seq<char>)
    requires
        is_ascii_chars(s),
        s.len() >= 10,
    ensures
        has_ten_byte_prefix(s),
{
    let p = s.take(10);
    assert(is_ascii_chars(p)) by {
        assert forall|i: int| 0 <= i < p.len() implies '\0' <= #[trigger] p[i] <= '\u{7f}' by {
            assert(p[i] == s[i]);
        }
    }
    vstd::utf8::is_ascii_chars_encode_utf8(p);
    assert(encode_utf8(s.take(10)).len() == 10);
}

/// Stamp law: every creation stamp that is stored can be cut after its
/// first ten bytes, as reading the age of a lot requires.
pub proof fn law_created_stamp_can_be_cut(raw: Seq<char>, today: (int, int, int))
    ensures
        has_ten_byte_prefix(created_date_of(raw, today).1),
{
    let stamp = created_date_of(raw, today).1;
    assert(exists|y: int, m: int, d: int| stamp == #[trigger] midnight_stamp_text(y, m, d)) by {
        let val = trimmed(raw);
        if blank_or_nan(val) {
            assert(stamp == midnight_stamp_text(today.0, today.1, today.2));
        } else {
            match regex_captures(created_pattern(), val) {
                Some(g) => {
                    let day = match u32_value(group_text(g, 1)) {
                        Some(v) => v,
                        None => 1,
                    };
                    let month = month_number(uppercase(group_text(g, 2)));
                    let year = match i32_value(group_text(g, 3)) {
                        Some(v) => v,
                        None => today.0,
                    };
                    if valid_date(year, month, day) {
                        assert(stamp == midnight_stamp_text(year, month, day));
                    } else {
                        assert(stamp == midnight_stamp_text(today.0, today.1, today.2));
                    }
                },
                None => {
                    assert(stamp == midnight_stamp_text(today.0, today.1, today.2));
                },
            }
        }
    }
    let (y, m, d) = choose|y: int, m: int, d: int| stamp == #[trigger] midnight_stamp_text(y, m, d);
    lemma_stamp_ascii(y, m, d);
    lemma_ascii_has_ten_byte_prefix(stamp);
}

/// Expiry law: a date read from an expiry cell is a day of the calendar.
pub proof fn law_expiry_day_is_a_date(caps: Option<Seq<Option<Seq<char>>>>, today: (int, int, int))
    ensures
        expiry_day_from_groups(caps, today) matches Some(t) ==> valid_date(t.0, t.1, t.2),
{
}

/// Expiry countdown law: when an expiry day `d` is read from a cell, the
/// result writes that day as "mm-dd-yyyy" and "dd.mm.yyyy", and the days
/// remaining are the signed count of calendar days from today to `d`, with
/// no bound on their size; read on two days, the days remaining differ by
/// the days between them.
pub proof fn law_expiry_counts_days(
    val: Seq<char>,
    caps: Option<Seq<Option<Seq<char>>>>,
    today: (int, int, int),
    later: (int, int, int),
    d: (int, int, int),
)
    requires
        expiry_day_from_groups(caps, today) == Some(d),
    ensures
        expiry_from_groups(val, caps, today) == (
            month_day_year_dashed_text(d.0, d.1, d.2),
            day_month_year_text(d.0, d.1, d.2),
            day_number(d.0, d.1, d.2) - day_number(today.0, today.1, today.2),
        ),
        expiry_day_from_groups(caps, later) == Some(d) ==> expiry_from_groups(val, caps, today).2
            - expiry_from_groups(val, caps, later).2 == day_number(later.0, later.1, later.2)
            - day_number(today.0, today.1, today.2),
{
}

/// Expiry cell law: for a cell that is neither blank nor "nan" and whose
/// match gives the expiry day `d`, the days remaining are the signed count of
/// calendar days from today to `d`.
pub proof fn law_expiry_cell_counts_days(raw: Seq<char>, today: (int, int, int), d: (int, int, int))
    requires
        !blank_or_nan(trimmed(raw)),
        expiry_day_from_groups(regex_captures(expiry_pattern(), trimmed(raw)), today) == Some(d),
    ensures
        expiry_date_of(raw, today).2 == day_number(d.0, d.1, d.2) - day_number(today.0, today.1, today.2),
{
}

/// Stock-age law: a lot created on day `c` is, on day `t`, as old as the
/// number of calendar days from `c` to `t`, less 30, with no bound on the
/// span; on two days its ages differ by the days between them.
pub proof fn law_stock_age_counts_days(c: (int, int, int), t: (int, int, int), u: (int, int, int))
    ensures
        stock_age_from(Some(c), t) == day_number(t.0, t.1, t.2) - day_number(c.0, c.1, c.2) - 30,
        stock_age_from(Some(c), u) - stock_age_from(Some(c), t) == day_number(u.0, u.1, u.2)
            - day_number(t.0, t.1, t.2),
{
}

/// Stock-age law for a stored stamp: when the first ten bytes of the stamp
/// read as the day `c`, the lot's age on day `t` is the number of calendar
/// days from `c` to `t`, less 30.
pub proof fn law_stamp_age_counts_days(stamp: Seq<char>, c: (int, int, int), t: (int, int, int))
    requires
        parsed_date(ten_byte_prefix(stamp), p_iso_date()) == Some(c),
    ensures
        stock_age_of(stamp, t) == day_number(t.0, t.1, t.2) - day_number(c.0, c.1, c.2) - 30,
{
}

/// Today's date in UTC, as year, month and day.
pub fn today() -> (r: (i32, u32, u32))
    ensures
        valid_date(r.0 as int, r.1 as int, r.2 as int),
{
    today_utc()
}

} // verus!
