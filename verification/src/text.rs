//! Character-level text operations with mathematical specifications.
//!
//! Texts are modelled by their character sequences (`Seq<char>`).
use vstd::prelude::*;

verus! {

// ---------------------------------------------------------------------------
// Specifications
// ---------------------------------------------------------------------------

/// Unicode `White_Space` characters, the set that `char::is_whitespace` tests.
pub open spec fn is_white_space(c: char) -> bool {
    let x = c as u32;
    ||| 0x09 <= x <= 0x0d
    ||| x == 0x20
    ||| x == 0x85
    ||| x == 0xa0
    ||| x == 0x1680
    ||| 0x2000 <= x <= 0x200a
    ||| x == 0x2028
    ||| x == 0x2029
    ||| x == 0x202f
    ||| x == 0x205f
    ||| x == 0x3000
}

/// The text without its leading white space.
pub open spec fn trim_start(s: Seq<char>) -> Seq<char>
    decreases s.len(),
{
    if s.len() > 0 && is_white_space(s[0]) {
        trim_start(s.drop_first())
    } else {
        s
    }
}

/// The text without its trailing white space.
pub open spec fn trim_end(s: Seq<char>) -> Seq<char>
    decreases s.len(),
{
    if s.len() > 0 && is_white_space(s.last()) {
        trim_end(s.drop_last())
    } else {
        s
    }
}

/// The text without leading and trailing white space (as `str::trim`).
pub open spec fn trimmed(s: Seq<char>) -> Seq<char> {
    trim_end(trim_start(s))
}

/// Number of occurrences of `d` in `s`.
pub open spec fn count_char(s: Seq<char>, d: char) -> nat
    decreases s.len(),
{
    if s.len() == 0 {
        0
    } else {
        (if s[0] == d { 1nat } else { 0nat }) + count_char(s.drop_first(), d)
    }
}

/// Pieces of `cur + rest` separated by `d`, where `cur` is the beginning of
/// the current piece.
pub open spec fn split_from(cur: Seq<char>, rest: Seq<char>, d: char) -> Seq<Seq<char>>
    decreases rest.len(),
{
    if rest.len() == 0 {
        seq![cur]
    } else if rest[0] == d {
        seq![cur] + split_from(Seq::empty(), rest.drop_first(), d)
    } else {
        split_from(cur.push(rest[0]), rest.drop_first(), d)
    }
}

/// The pieces of `s` between the occurrences of `d` (as `str::split` with a
/// character pattern): always one more piece than there are separators.
pub open spec fn split_seq(s: Seq<char>, d: char) -> Seq<Seq<char>> {
    split_from(Seq::empty(), s, d)
}

/// The piece of `s` before the first `d`, or all of `s` without a `d`.
pub open spec fn first_piece(s: Seq<char>, d: char) -> Seq<char> {
    split_seq(s, d)[0]
}

/// `c` folded to lower case when it is an ASCII capital letter.
pub open spec fn ascii_fold(c: char) -> u32 {
    let x = c as u32;
    if 65 <= x <= 90 {
        (x + 32) as u32
    } else {
        x
    }
}

/// Equality up to ASCII case (as `str::eq_ignore_ascii_case`).
pub open spec fn eq_ignore_ascii_case(a: Seq<char>, b: Seq<char>) -> bool {
    &&& a.len() == b.len()
    &&& forall|i: int| 0 <= i < a.len() ==> #[trigger] ascii_fold(a[i]) == ascii_fold(b[i])
}

/// `p` occurs in `s` at position `k`.
pub open spec fn occurs_at(s: Seq<char>, p: Seq<char>, k: int) -> bool {
    0 <= k && k + p.len() <= s.len() && s.subrange(k, k + p.len()) == p
}

/// `p` occurs somewhere in `s` (as `str::contains`).
pub open spec fn contains_text(s: Seq<char>, p: Seq<char>) -> bool {
    exists|k: int| occurs_at(s, p, k)
}

/// `s` ends with `p` (as `str::ends_with`).
pub open spec fn ends_with(s: Seq<char>, p: Seq<char>) -> bool {
    p.len() <= s.len() && s.skip(s.len() - p.len()) == p
}

/// `s` with each `from` replaced by `to`.
pub open spec fn replace_char(s: Seq<char>, from: char, to: char) -> Seq<char> {
    s.map_values(|c: char| if c == from { to } else { c })
}

/// Index of the first text in `list` equal to `name`.
pub open spec fn first_index_of(list: Seq<Seq<char>>, name: Seq<char>) -> Option<int> {
    if exists|i: int| 0 <= i < list.len() && list[i] == name {
        Some(choose|i: int| 0 <= i < list.len() && list[i] == name && forall|j: int| 0 <= j < i ==> list[j] != name)
    } else {
        None
    }
}

/// An optional index read as a mathematical integer.
pub open spec fn as_int_option(r: Option<usize>) -> Option<int> {
    match r {
        Some(i) => Some(i as int),
        None => None,
    }
}

/// Decimal digits of `n`, most significant first, without leading zeros.
pub open spec fn decimal(n: nat) -> Seq<char>
    decreases n,
{
    if n < 10 {
        seq![digit_char(n)]
    } else {
        decimal(n / 10).push(digit_char(n % 10))
    }
}

/// The ASCII character of a digit value below ten.
pub open spec fn digit_char(d: nat) -> char {
    if d == 0 { '0' } else if d == 1 { '1' } else if d == 2 { '2' } else if d == 3 { '3' }
    else if d == 4 { '4' } else if d == 5 { '5' } else if d == 6 { '6' } else if d == 7 { '7' }
    else if d == 8 { '8' } else { '9' }
}

/// Strict lexicographic order of character sequences by code point, which is
/// the order of their UTF-8 bytes and so the order of `String`.
pub open spec fn lex_less(a: Seq<char>, b: Seq<char>) -> bool
    decreases a.len(),
{
    if b.len() == 0 {
        false
    } else if a.len() == 0 {
        true
    } else if (a[0] as int) < (b[0] as int) {
        true
    } else if a[0] == b[0] {
        lex_less(a.drop_first(), b.drop_first())
    } else {
        false
    }
}

/// An ASCII digit.
pub open spec fn is_ascii_digit(c: char) -> bool {
    '0' <= c <= '9'
}

/// Every character is an ASCII digit.
pub open spec fn all_digits(s: Seq<char>) -> bool {
    forall|i: int| 0 <= i < s.len() ==> #[trigger] is_ascii_digit(s[i])
}

/// The number written by a run of ASCII digits.
pub open spec fn digits_number(s: Seq<char>) -> nat
    decreases s.len(),
{
    if s.len() == 0 {
        0
    } else {
        digits_number(s.drop_last()) * 10 + ((s.last() as int) - 48) as nat
    }
}

/// The value that `str::parse::<u32>` reads: an optional `+` and at least
/// one ASCII digit, the number fitting in a `u32`.
pub open spec fn u32_value(s: Seq<char>) -> Option<int> {
    let body = if s.len() > 0 && s[0] == '+' { s.drop_first() } else { s };
    if body.len() > 0 && all_digits(body) && digits_number(body) <= u32::MAX {
        Some(digits_number(body) as int)
    } else {
        None
    }
}

/// The value that `str::parse::<i32>` reads: an optional sign and at least
/// one ASCII digit, the number fitting in an `i32`.
pub open spec fn i32_value(s: Seq<char>) -> Option<int> {
    if s.len() > 0 && s[0] == '-' {
        let body = s.drop_first();
        if body.len() > 0 && all_digits(body) && digits_number(body) <= 0x8000_0000 {
            Some(-(digits_number(body) as int))
        } else {
            None
        }
    } else {
        let body = if s.len() > 0 && s[0] == '+' { s.drop_first() } else { s };
        if body.len() > 0 && all_digits(body) && digits_number(body) <= i32::MAX {
            Some(digits_number(body) as int)
        } else {
            None
        }
    }
}

/// A text of ASCII characters only.
pub open spec fn is_ascii_text(s: Seq<char>) -> bool {
    forall|i: int| 0 <= i < s.len() ==> (#[trigger] s[i] as u32) < 128
}

/// An ASCII upper-case letter made lower-case; other characters unchanged.
pub open spec fn ascii_lower(c: char) -> char {
    if 'A' <= c <= 'Z' {
        ((c as u32) + 32) as char
    } else {
        c
    }
}

/// An ASCII lower-case letter made upper-case; other characters unchanged.
pub open spec fn ascii_upper(c: char) -> char {
    if 'a' <= c <= 'z' {
        ((c as u32) - 32) as char
    } else {
        c
    }
}

/// Full Unicode lower-case mapping of a text (`str::to_lowercase`).
pub uninterp spec fn lowercase(s: Seq<char>) -> Seq<char>;

/// Full Unicode upper-case mapping of a text (`str::to_uppercase`).
pub uninterp spec fn uppercase(s: Seq<char>) -> Seq<char>;

// ---------------------------------------------------------------------------
// Lemmas
// ---------------------------------------------------------------------------

/// The number of pieces is one more than the number of separators.
pub proof fn lemma_split_from_len(cur: Seq<char>, rest: Seq<char>, d: char)
    ensures
        split_from(cur, rest, d).len() == count_char(rest, d) + 1,
    decreases rest.len(),
{
    if rest.len() > 0 {
        if rest[0] == d {
            lemma_split_from_len(Seq::empty(), rest.drop_first(), d);
        } else {
            lemma_split_from_len(cur.push(rest[0]), rest.drop_first(), d);
        }
    }
}

/// The first piece begins with the current piece.
pub proof fn lemma_split_from_first(cur: Seq<char>, rest: Seq<char>, d: char)
    ensures
        split_from(cur, rest, d).len() >= 1,
        cur.is_prefix_of(split_from(cur, rest, d)[0]),
    decreases rest.len(),
{
    if rest.len() > 0 {
        if rest[0] == d {
            lemma_split_from_first(Seq::empty(), rest.drop_first(), d);
        } else {
            lemma_split_from_first(cur.push(rest[0]), rest.drop_first(), d);
        }
    }
}

/// Trailing white space removal commutes with taking a prefix that ends in
/// a character that is not white space.
proof fn lemma_trim_end_stable(s: Seq<char>)
    requires
        s.len() == 0 || !is_white_space(s.last()),
    ensures
        trim_end(s) == s,
{
}

/// Every character is white space.
pub open spec fn all_white(s: Seq<char>) -> bool {
    forall|i: int| 0 <= i < s.len() ==> #[trigger] is_white_space(s[i])
}

proof fn lemma_trim_start_empty(s: Seq<char>)
    ensures
        trim_start(s).len() == 0 <==> all_white(s),
    decreases s.len(),
{
    if s.len() > 0 {
        lemma_trim_start_empty(s.drop_first());
        if is_white_space(s[0]) {
            assert(all_white(s) <==> all_white(s.drop_first())) by {
                if all_white(s.drop_first()) {
                    assert forall|i: int| 0 <= i < s.len() implies #[trigger] is_white_space(s[i]) by {
                        if i > 0 {
                            assert(s[i] == s.drop_first()[i - 1]);
                        }
                    }
                }
                if all_white(s) {
                    assert forall|i: int| 0 <= i < s.drop_first().len() implies #[trigger] is_white_space(s.drop_first()[i]) by {
                        assert(s.drop_first()[i] == s[i + 1]);
                    }
                }
            }
        } else {
            assert(!is_white_space(s[0]));
        }
    }
}

proof fn lemma_trim_start_first(s: Seq<char>)
    requires
        trim_start(s).len() > 0,
    ensures
        !is_white_space(trim_start(s)[0]),
    decreases s.len(),
{
    if s.len() > 0 && is_white_space(s[0]) {
        lemma_trim_start_first(s.drop_first());
    }
}

proof fn lemma_trim_end_keeps_first(x: Seq<char>)
    requires
        x.len() > 0,
        !is_white_space(x[0]),
    ensures
        trim_end(x).len() > 0,
    decreases x.len(),
{
    if x.len() > 1 && is_white_space(x.last()) {
        assert(x.drop_last()[0] == x[0]);
        lemma_trim_end_keeps_first(x.drop_last());
    }
}

/// A text trims to nothing exactly when it is all white space, that is
/// when trimming its start leaves nothing.
pub proof fn lemma_blank_is_white(s: Seq<char>)
    ensures
        trimmed(s).len() == 0 <==> all_white(s),
        trimmed(s).len() == 0 <==> trim_start(s).len() == 0,
{
    lemma_trim_start_empty(s);
    if trim_start(s).len() > 0 {
        lemma_trim_start_first(s);
        lemma_trim_end_keeps_first(trim_start(s));
    }
}

/// The decimal digits of a number are ASCII digits, and there is at least one.
pub proof fn lemma_decimal_digits(n: nat)
    ensures
        decimal(n).len() >= 1,
        forall|i: int| 0 <= i < decimal(n).len() ==> 48 <= (#[trigger] decimal(n)[i]) as u32 <= 57,
    decreases n,
{
    if n >= 10 {
        lemma_decimal_digits(n / 10);
    }
}

/// Different numbers have different decimal representations.
pub proof fn lemma_decimal_injective(a: nat, b: nat)
    requires
        decimal(a) == decimal(b),
    ensures
        a == b,
    decreases a + b,
{
    lemma_decimal_digits(a);
    lemma_decimal_digits(b);
    if a < 10 && b < 10 {
        assert(decimal(a) == seq![digit_char(a)]);
        assert(decimal(b) == seq![digit_char(b)]);
        assert(seq![digit_char(a)][0] == digit_char(a));
        assert(seq![digit_char(b)][0] == digit_char(b));
        assert(digit_char(a) == digit_char(b));
    } else if a < 10 {
        lemma_decimal_digits(b / 10);
        assert(decimal(b).len() >= 2);
        assert(decimal(a).len() == 1);
    } else if b < 10 {
        lemma_decimal_digits(a / 10);
        assert(decimal(a).len() >= 2);
        assert(decimal(b).len() == 1);
    } else {
        assert(decimal(a) == decimal(a / 10).push(digit_char(a % 10)));
        assert(decimal(b) == decimal(b / 10).push(digit_char(b % 10)));
        assert(decimal(a).last() == digit_char(a % 10));
        assert(decimal(b).last() == digit_char(b % 10));
        assert(a % 10 == b % 10);
        assert(decimal(a).drop_last() =~= decimal(a / 10));
        assert(decimal(b).drop_last() =~= decimal(b / 10));
        lemma_decimal_injective(a / 10, b / 10);
        assert(a == 10 * (a / 10) + a % 10);
        assert(b == 10 * (b / 10) + b % 10);
    }
}

/// Distinct characters have distinct code points.
pub proof fn lemma_code_injective(a: char, b: char)
    requires
        a != b,
    ensures
        (a as int) != (b as int),
{
}

/// `lex_less` is transitive.
pub proof fn lemma_lex_transitive(a: Seq<char>, b: Seq<char>, c: Seq<char>)
    requires
        lex_less(a, b),
        lex_less(b, c),
    ensures
        lex_less(a, c),
    decreases a.len(),
{
    if a.len() > 0 && b.len() > 0 && c.len() > 0 && a[0] == b[0] && b[0] == c[0] {
        lemma_lex_transitive(a.drop_first(), b.drop_first(), c.drop_first());
    }
}

/// `lex_less` is total on distinct sequences.
pub proof fn lemma_lex_total(a: Seq<char>, b: Seq<char>)
    requires
        a != b,
    ensures
        lex_less(a, b) || lex_less(b, a),
    decreases a.len(),
{
    if a.len() > 0 && b.len() > 0 && a[0] == b[0] {
        if a.drop_first() == b.drop_first() {
            assert(a =~= seq![a[0]] + a.drop_first());
            assert(b =~= seq![b[0]] + b.drop_first());
        }
        lemma_lex_total(a.drop_first(), b.drop_first());
    } else if a.len() == 0 && b.len() == 0 {
        assert(a =~= b);
    } else if a.len() > 0 && b.len() > 0 {
        lemma_code_injective(a[0], b[0]);
    }
}

// ---------------------------------------------------------------------------
// Executable operations
// ---------------------------------------------------------------------------

/// Appends one character to a string (`String::push`).
#[verifier::external_body]
pub(crate) fn push_char(s: &mut String, c: char)
    ensures
        final(s)@ == old(s)@.push(c),
{
    s.push(c);
}

/// Lower-cases a text with `str::to_lowercase` (the Unicode lower-case
/// mapping, which on ASCII text maps `A` to `Z` onto `a` to `z` and keeps
/// every other character).
#[verifier::external_body]
pub(crate) fn to_lower(s: &str) -> (r: String)
    ensures
        r@ == lowercase(s@),
        is_ascii_text(s@) ==> r@ == s@.map_values(|c: char| ascii_lower(c)),
{
    s.to_lowercase()
}

/// Upper-cases a text with `str::to_uppercase` (the Unicode upper-case
/// mapping, which on ASCII text maps `a` to `z` onto `A` to `Z` and keeps
/// every other character).
#[verifier::external_body]
pub(crate) fn to_upper(s: &str) -> (r: String)
    ensures
        r@ == uppercase(s@),
        is_ascii_text(s@) ==> r@ == s@.map_values(|c: char| ascii_upper(c)),
{
    s.to_uppercase()
}

/// The characters of a text.
pub fn chars_of(s: &str) -> (v: Vec<char>)
    ensures
        v@ == s@,
{
    let mut v: Vec<char> = Vec::new();
    for c in it: s.chars()
        invariant
            v@ == it.seq().take(it.index()),
            it.seq() == s@,
    {
        v.push(c);
    }
    v
}

/// A string made of the characters of `v[from..to]`.
pub fn string_of_range(v: &Vec<char>, from: usize, to: usize) -> (s: String)
    requires
        from <= to <= v.len(),
    ensures
        s@ == v@.subrange(from as int, to as int),
{
    let mut s = String::new();
    let mut i: usize = from;
    while i < to
        invariant
            from <= i <= to <= v.len(),
            s@ == v@.subrange(from as int, i as int),
        decreases to - i,
    {
        push_char(&mut s, v[i]);
        assert(v@.subrange(from as int, i as int).push(v@[i as int]) =~= v@.subrange(
            from as int,
            i + 1,
        ));
        i = i + 1;
    }
    s
}

/// A string made of the characters of `v`.
pub fn string_of(v: &Vec<char>) -> (s: String)
    ensures
        s@ == v@,
{
    let s = string_of_range(v, 0, v.len());
    assert(v@.subrange(0, v@.len() as int) =~= v@);
    s
}

/// Copies a text into a new string.
pub fn copy_str(s: &str) -> (r: String)
    ensures
        r@ == s@,
{
    s.to_owned()
}

/// Whether a character is white space.
pub fn white_space(c: char) -> (b: bool)
    ensures
        b == is_white_space(c),
{
    let x = c as u32;
    (0x09 <= x && x <= 0x0d) || x == 0x20 || x == 0x85 || x == 0xa0 || x == 0x1680 || (0x2000
        <= x && x <= 0x200a) || x == 0x2028 || x == 0x2029 || x == 0x202f || x == 0x205f || x
        == 0x3000
}

proof fn lemma_trim_start_skip(s: Seq<char>, i: int)
    requires
        0 <= i <= s.len(),
        forall|j: int| 0 <= j < i ==> is_white_space(s[j]),
    ensures
        trim_start(s) == trim_start(s.skip(i)),
    decreases i,
{
    if i == 0 {
        assert(s.skip(0) =~= s);
    } else {
        assert forall|j: int| 0 <= j < i - 1 implies is_white_space(s.drop_first()[j]) by {
            assert(s.drop_first()[j] == s[j + 1]);
        }
        assert(is_white_space(s[0]));
        lemma_trim_start_skip(s.drop_first(), i - 1);
        assert(s.drop_first().skip(i - 1) =~= s.skip(i));
    }
}

proof fn lemma_trim_end_take(s: Seq<char>, k: int)
    requires
        0 <= k <= s.len(),
        forall|j: int| k <= j < s.len() ==> is_white_space(s[j]),
    ensures
        trim_end(s) == trim_end(s.take(k)),
    decreases s.len() - k,
{
    if k < s.len() {
        assert(s.drop_last().take(k) =~= s.take(k));
        lemma_trim_end_take(s.drop_last(), k);
    } else {
        assert(s.take(k) =~= s);
    }
}

/// Bounds of the trimmed part of `v`: `v[start..end]` is `trimmed(v)`.
pub fn trim_bounds(v: &Vec<char>) -> (r: (usize, usize))
    ensures
        r.0 <= r.1 <= v.len(),
        v@.subrange(r.0 as int, r.1 as int) == trimmed(v@),
{
    let mut start: usize = 0;
    while start < v.len() && white_space(v[start])
        invariant
            start <= v.len(),
            forall|j: int| 0 <= j < start ==> is_white_space(v@[j]),
        decreases v.len() - start,
    {
        start = start + 1;
    }
    proof {
        lemma_trim_start_skip(v@, start as int);
        if start < v.len() {
            assert(v@.skip(start as int)[0] == v@[start as int]);
        }
        assert(trim_start(v@.skip(start as int)) == v@.skip(start as int));
    }
    let ghost rest = v@.skip(start as int);
    let mut end: usize = v.len();
    while end > start && white_space(v[end - 1])
        invariant
            start <= end <= v.len(),
            rest == v@.skip(start as int),
            forall|j: int| end <= j < v.len() ==> is_white_space(v@[j]),
        decreases end,
    {
        end = end - 1;
    }
    proof {
        let k = end - start;
        assert forall|j: int| k <= j < rest.len() implies is_white_space(rest[j]) by {
            assert(rest[j] == v@[j + start]);
        }
        lemma_trim_end_take(rest, k);
        assert(rest.take(k) =~= v@.subrange(start as int, end as int));
        if k > 0 {
            assert(rest.take(k).last() == v@[end - 1]);
        }
        lemma_trim_end_stable(rest.take(k));
    }
    (start, end)
}

/// `str::trim`: the text without leading and trailing white space.
pub fn trim(s: &str) -> (r: String)
    ensures
        r@ == trimmed(s@),
{
    let v = chars_of(s);
    let (a, b) = trim_bounds(&v);
    string_of_range(&v, a, b)
}

/// Whether two character sequences are equal.
pub fn chars_eq(a: &Vec<char>, b: &Vec<char>) -> (r: bool)
    ensures
        r == (a@ == b@),
{
    if a.len() != b.len() {
        return false;
    }
    let mut i: usize = 0;
    while i < a.len()
        invariant
            a.len() == b.len(),
            i <= a.len(),
            forall|j: int| 0 <= j < i ==> a@[j] == b@[j],
        decreases a.len() - i,
    {
        if a[i] != b[i] {
            return false;
        }
        i = i + 1;
    }
    assert(a@ =~= b@);
    true
}

/// Index of a character sequence equal to `x` in `keys`.
pub fn find_chars(keys: &Vec<Vec<char>>, x: &Vec<char>) -> (r: Option<usize>)
    ensures
        r matches Some(i) ==> i < keys.len() && keys@[i as int]@ == x@,
        r is None ==> forall|i: int| 0 <= i < keys.len() ==> keys@[i]@ != x@,
{
    let mut i: usize = 0;
    while i < keys.len()
        invariant
            i <= keys.len(),
            forall|j: int| 0 <= j < i ==> keys@[j]@ != x@,
        decreases keys.len() - i,
    {
        if chars_eq(&keys[i], x) {
            return Some(i);
        }
        i = i + 1;
    }
    None
}

/// Whether two texts are equal.
pub fn text_eq(a: &str, b: &str) -> (r: bool)
    ensures
        r == (a@ == b@),
{
    let x = chars_of(a);
    let y = chars_of(b);
    chars_eq(&x, &y)
}

/// `c` folded to lower case when it is an ASCII capital letter.
pub fn fold_char(c: char) -> (r: u32)
    ensures
        r == ascii_fold(c),
{
    let x = c as u32;
    if 65 <= x && x <= 90 {
        x + 32
    } else {
        x
    }
}

/// `str::eq_ignore_ascii_case`.
pub fn text_eq_ignore_ascii_case(a: &str, b: &str) -> (r: bool)
    ensures
        r == eq_ignore_ascii_case(a@, b@),
{
    let x = chars_of(a);
    let y = chars_of(b);
    if x.len() != y.len() {
        return false;
    }
    let mut i: usize = 0;
    while i < x.len()
        invariant
            x.len() == y.len(),
            x@ == a@,
            y@ == b@,
            i <= x.len(),
            forall|j: int| 0 <= j < i ==> #[trigger] ascii_fold(x@[j]) == ascii_fold(y@[j]),
        decreases x.len() - i,
    {
        if fold_char(x[i]) != fold_char(y[i]) {
            return false;
        }
        i = i + 1;
    }
    true
}

/// Whether `p` occurs in `s` at position `k`.
fn occurs_at_exec(s: &Vec<char>, p: &Vec<char>, k: usize) -> (r: bool)
    requires
        k + p.len() <= s.len(),
    ensures
        r == occurs_at(s@, p@, k as int),
{
    let mut i: usize = 0;
    while i < p.len()
        invariant
            k + p.len() <= s.len(),
            i <= p.len(),
            forall|j: int| 0 <= j < i ==> s@[k + j] == p@[j],
        decreases p.len() - i,
    {
        if s[k + i] != p[i] {
            assert(s@.subrange(k as int, k + p.len())[i as int] != p@[i as int]);
            return false;
        }
        i = i + 1;
    }
    assert(s@.subrange(k as int, k + p.len()) =~= p@);
    true
}

/// `str::contains` with a text pattern.
pub fn text_contains(s: &str, p: &str) -> (r: bool)
    ensures
        r == contains_text(s@, p@),
{
    let x = chars_of(s);
    let y = chars_of(p);
    if y.len() > x.len() {
        return false;
    }
    let limit = x.len() - y.len();
    let mut k: usize = 0;
    loop
        invariant
            x@ == s@,
            y@ == p@,
            limit == x.len() - y.len(),
            k <= limit,
            forall|j: int| 0 <= j < k ==> !occurs_at(x@, y@, j),
        decreases limit - k,
    {
        if occurs_at_exec(&x, &y, k) {
            return true;
        }
        if k == limit {
            return false;
        }
        k = k + 1;
    }
}

/// `str::ends_with` with a text pattern.
pub fn text_ends_with(s: &str, p: &str) -> (r: bool)
    ensures
        r == ends_with(s@, p@),
{
    let x = chars_of(s);
    let y = chars_of(p);
    if y.len() > x.len() {
        return false;
    }
    let k = x.len() - y.len();
    let b = occurs_at_exec(&x, &y, k);
    proof {
        assert(x@.skip(k as int) =~= x@.subrange(k as int, k + y.len()));
    }
    b
}

/// `str::replace` of one character by another.
pub fn replace_chars(s: &str, from: char, to: char) -> (r: String)
    ensures
        r@ == replace_char(s@, from, to),
{
    let v = chars_of(s);
    let mut out = String::new();
    let mut i: usize = 0;
    while i < v.len()
        invariant
            v@ == s@,
            i <= v.len(),
            out@ == replace_char(v@.take(i as int), from, to),
        decreases v.len() - i,
    {
        let c = if v[i] == from {
            to
        } else {
            v[i]
        };
        push_char(&mut out, c);
        assert(replace_char(v@.take(i as int), from, to).push(c) =~= replace_char(
            v@.take(i + 1),
            from,
            to,
        ));
        i = i + 1;
    }
    assert(v@.take(v.len() as int) =~= v@);
    out
}

/// `str::split` with a character separator.
pub fn split(s: &str, d: char) -> (r: Vec<String>)
    ensures
        r@.map_values(|x: String| x@) == split_seq(s@, d),
{
    let v = chars_of(s);
    let mut out: Vec<String> = Vec::new();
    let mut cur = String::new();
    let mut i: usize = 0;
    assert(v@.skip(0) =~= v@);
    assert(out@.map_values(|x: String| x@) =~= Seq::<Seq<char>>::empty());
    assert(out@.map_values(|x: String| x@) + split_from(cur@, v@.skip(0), d) =~= split_seq(s@, d));
    while i < v.len()
        invariant
            v@ == s@,
            i <= v.len(),
            out@.map_values(|x: String| x@) + split_from(cur@, v@.skip(i as int), d) == split_seq(
                s@,
                d,
            ),
        decreases v.len() - i,
    {
        let ghost rest = v@.skip(i as int);
        assert(rest.drop_first() =~= v@.skip(i + 1));
        if v[i] == d {
            let piece = cur;
            cur = String::new();
            let ghost before = out@;
            out.push(piece);
            assert(out@.map_values(|x: String| x@) =~= before.map_values(|x: String| x@).push(
                piece@,
            ));
            assert(split_from(piece@, rest, d) == seq![piece@] + split_from(
                Seq::empty(),
                rest.drop_first(),
                d,
            ));
            assert(out@.map_values(|x: String| x@) + split_from(cur@, v@.skip(i + 1), d)
                =~= before.map_values(|x: String| x@) + split_from(piece@, rest, d));
        } else {
            push_char(&mut cur, v[i]);
        }
        i = i + 1;
    }
    let ghost before = out@;
    out.push(cur);
    assert(v@.skip(v.len() as int) =~= Seq::<char>::empty());
    assert(out@.map_values(|x: String| x@) =~= before.map_values(|x: String| x@) + split_from(
        cur@,
        Seq::empty(),
        d,
    ));
    out
}

/// The piece of `s` before the first `d` (`s.split(d).next()`).
pub fn first_part(s: &str, d: char) -> (r: String)
    ensures
        r@ == first_piece(s@, d),
{
    let parts = split(s, d);
    proof {
        lemma_split_from_first(Seq::empty(), s@, d);
        assert(parts@.map_values(|x: String| x@)[0] == parts@[0]@);
    }
    parts[0].clone()
}

/// Index of the first text in `list` equal to `name`.
pub fn position_of(list: &Vec<String>, name: &str) -> (r: Option<usize>)
    ensures
        as_int_option(r) == first_index_of(list@.map_values(|x: String| x@), name@),
        r matches Some(i) ==> i < list.len() && list@[i as int]@ == name@,
        r is None ==> forall|j: int| 0 <= j < list.len() ==> list@[j]@ != name@,
{
    let ghost names = list@.map_values(|x: String| x@);
    let mut i: usize = 0;
    while i < list.len()
        invariant
            i <= list.len(),
            names == list@.map_values(|x: String| x@),
            forall|j: int| 0 <= j < i ==> names[j] != name@,
        decreases list.len() - i,
    {
        if text_eq(list[i].as_str(), name) {
            proof {
                assert(names[i as int] == name@);
                let w = choose|k: int|
                    0 <= k < names.len() && names[k] == name@ && forall|j: int|
                        0 <= j < k ==> names[j] != name@;
                assert(w == i) by {
                    if w < i {
                        assert(names[w] != name@);
                    }
                    if w > i {
                        assert(names[i as int] != name@);
                    }
                }
            }
            return Some(i);
        }
        i = i + 1;
    }
    assert forall|j: int| 0 <= j < list.len() implies list@[j]@ != name@ by {
        assert(names[j] == list@[j]@);
    }
    None
}

/// Reads the digits `v[start..]` as a number no greater than `cap`.
fn read_digits(v: &Vec<char>, start: usize, cap: u64) -> (r: Option<u64>)
    requires
        start <= v.len(),
        cap <= 0x1_0000_0000,
    ensures
        r is Some <==> (start < v.len() && all_digits(v@.skip(start as int)) && digits_number(
            v@.skip(start as int),
        ) <= cap),
        r matches Some(x) ==> x == digits_number(v@.skip(start as int)),
{
    if start == v.len() {
        return None;
    }
    let mut acc: u64 = 0;
    let mut over = false;
    let mut i: usize = start;
    assert(v@.subrange(start as int, start as int) =~= Seq::<char>::empty());
    while i < v.len()
        invariant
            start <= i <= v.len(),
            cap <= 0x1_0000_0000,
            all_digits(v@.subrange(start as int, i as int)),
            !over ==> acc == digits_number(v@.subrange(start as int, i as int)) && acc <= cap,
            over ==> digits_number(v@.subrange(start as int, i as int)) > cap,
        decreases v.len() - i,
    {
        let c = v[i];
        let ghost before = v@.subrange(start as int, i as int);
        let ghost after = v@.subrange(start as int, i + 1);
        assert(after.drop_last() =~= before);
        assert(after.last() == c);
        if !('0' <= c && c <= '9') {
            assert(v@.skip(start as int)[i - start] == c);
            assert(!is_ascii_digit(v@.skip(start as int)[i - start]));
            return None;
        }
        let d = code_point(c) - 48;
        if !over {
            let next = acc * 10 + d as u64;
            if next > cap {
                over = true;
            } else {
                acc = next;
            }
        }
        assert forall|k: int| 0 <= k < after.len() implies #[trigger] is_ascii_digit(after[k]) by {
            if k < before.len() {
                assert(after[k] == before[k]);
            }
        }
        i = i + 1;
    }
    assert(v@.subrange(start as int, v.len() as int) =~= v@.skip(start as int));
    if over {
        None
    } else {
        Some(acc)
    }
}

/// Reads a `u32` as `str::parse::<u32>` does (see `u32_value`).
pub fn parse_u32(s: &str) -> (r: Option<u32>)
    ensures
        match r {
            Some(x) => u32_value(s@) == Some(x as int),
            None => u32_value(s@) is None,
        },
{
    let v = chars_of(s);
    let start: usize = if v.len() > 0 && v[0] == '+' { 1 } else { 0 };
    proof {
        let body = if s@.len() > 0 && s@[0] == '+' { s@.drop_first() } else { s@ };
        assert(v@.skip(start as int) =~= body);
    }
    match read_digits(&v, start, 0xffff_ffff) {
        Some(x) => Some(x as u32),
        None => None,
    }
}

/// Reads an `i32` as `str::parse::<i32>` does (see `i32_value`).
pub fn parse_i32(s: &str) -> (r: Option<i32>)
    ensures
        match r {
            Some(x) => i32_value(s@) == Some(x as int),
            None => i32_value(s@) is None,
        },
{
    let v = chars_of(s);
    if v.len() > 0 && v[0] == '-' {
        assert(v@.skip(1) =~= s@.drop_first());
        match read_digits(&v, 1, 0x8000_0000) {
            Some(x) => {
                let negated: i64 = 0 - (x as i64);
                Some(negated as i32)
            },
            None => None,
        }
    } else {
        let start: usize = if v.len() > 0 && v[0] == '+' { 1 } else { 0 };
        proof {
            let body = if s@.len() > 0 && s@[0] == '+' { s@.drop_first() } else { s@ };
            assert(v@.skip(start as int) =~= body);
        }
        match read_digits(&v, start, 0x7fff_ffff) {
            Some(x) => Some(x as i32),
            None => None,
        }
    }
}

/// The decimal digits of `n` (`usize::to_string`).
pub fn decimal_string(n: usize) -> (r: String)
    ensures
        r@ == decimal(n as nat),
    decreases n,
{
    if n < 10 {
        let mut s = String::new();
        let c = char_of_digit(n as u32);
        push_char(&mut s, c);
        assert(s@ =~= decimal(n as nat));
        s
    } else {
        let mut s = decimal_string(n / 10);
        push_char(&mut s, char_of_digit((n % 10) as u32));
        s
    }
}

/// The ASCII character of a digit value below ten.
fn char_of_digit(d: u32) -> (c: char)
    requires
        d < 10,
    ensures
        c == digit_char(d as nat),
{
    if d == 0 { '0' } else if d == 1 { '1' } else if d == 2 { '2' } else if d == 3 { '3' }
    else if d == 4 { '4' } else if d == 5 { '5' } else if d == 6 { '6' } else if d == 7 { '7' }
    else if d == 8 { '8' } else { '9' }
}

/// The code point of a character.
pub fn code_point(c: char) -> (r: u32)
    ensures
        r == c as int,
{
    c as u32
}

/// Whether `a` comes strictly before `b` in the order of `String`.
pub fn text_less(a: &Vec<char>, b: &Vec<char>) -> (r: bool)
    ensures
        r == lex_less(a@, b@),
{
    let mut i: usize = 0;
    assert(a@.skip(0) =~= a@);
    assert(b@.skip(0) =~= b@);
    while i < a.len() && i < b.len() && a[i] == b[i]
        invariant
            i <= a.len(),
            i <= b.len(),
            lex_less(a@, b@) == lex_less(a@.skip(i as int), b@.skip(i as int)),
        decreases a.len() - i,
    {
        proof {
            let x = a@.skip(i as int);
            let y = b@.skip(i as int);
            assert(x.drop_first() =~= a@.skip(i + 1));
            assert(y.drop_first() =~= b@.skip(i + 1));
        }
        i = i + 1;
    }
    proof {
        let x = a@.skip(i as int);
        let y = b@.skip(i as int);
        if i < a.len() {
            assert(x[0] == a@[i as int]);
        }
        if i < b.len() {
            assert(y[0] == b@[i as int]);
        }
    }
    if i == b.len() {
        false
    } else if i == a.len() {
        true
    } else {
        let x = code_point(a[i]);
        let y = code_point(b[i]);
        proof {
            lemma_code_injective(a@[i as int], b@[i as int]);
        }
        x < y
    }
}

} // verus!
