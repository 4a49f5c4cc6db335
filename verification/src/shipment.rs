//! Shipment planning: reading invoice, restock and order-form rows, joining
//! them by UPC and naming the resulting SKUs.
use vstd::prelude::*;
use vstd::utf8::encode_utf8;
use crate::columns::{first_match, find_header, views, MatchMode};
use crate::text::{
    chars_eq, chars_of, count_char, find_chars, split_from, decimal, decimal_string, first_part, first_piece,
    lemma_decimal_digits, lemma_decimal_injective, lemma_split_from_len, push_char, split,
    split_seq, text_eq_ignore_ascii_case, eq_ignore_ascii_case, trim, trimmed, copy_str,
};

verus! {

// ---------------------------------------------------------------------------
// Rows
// ---------------------------------------------------------------------------

/// A line of the supplier invoice.
pub struct InvoiceLine {
    pub upc: String,
    pub ship_quantity: String,
    pub price: String,
    pub pack_size: String,
    pub brand: String,
    pub description: String,
}

/// A line of the restock list or of the (unpivoted) order form.
pub struct SourceLine {
    pub upc: String,
    pub price_check: String,
    pub suplier: String,
    pub asin: String,
    pub pcs: String,
    pub pk: String,
    pub sku: String,
    pub dosya: String,
}

/// Where a joined row's source line comes from.
#[derive(PartialEq, Eq, Structural, Clone, Copy, Debug)]
pub enum SourceKind {
    Restock,
    OrderForm,
    Unmatched,
}

/// A row of the shipment plan: an invoice line with one source line (or
/// none) of the given kind.
#[derive(PartialEq, Eq, Structural, Clone, Copy, Debug)]
pub struct JoinedRow {
    pub invoice: usize,
    pub kind: SourceKind,
    pub source: Option<usize>,
}

/// Column positions of the restock list.
#[derive(Clone, Copy, Debug)]
pub struct RestockColumns {
    pub upc: usize,
    pub price: usize,
    pub suplier: usize,
    pub asin: usize,
    pub pcs: usize,
    pub pk: usize,
}

/// Column positions of the invoice.
#[derive(Clone, Copy, Debug)]
pub struct InvoiceColumns {
    pub upc: usize,
    pub ship_quantity: usize,
    pub price: usize,
    pub pack_size: usize,
    pub brand: usize,
    pub description: usize,
}

// ---------------------------------------------------------------------------
// Specification
// ---------------------------------------------------------------------------

/// The marker written where a value is missing.
pub open spec fn missing_mark() -> Seq<char> {
    seq!['#', 'Y', 'O', 'K']
}

/// The text of a row's cell `i`, or the empty text past its end.
pub open spec fn cell_at(cells: Seq<String>, i: int) -> Seq<char> {
    if 0 <= i < cells.len() {
        cells[i]@
    } else {
        Seq::empty()
    }
}

/// A text of `n` zeros.
pub open spec fn zeros(n: nat) -> Seq<char> {
    Seq::new(n, |i: int| '0')
}

/// A UPC cell cleaned: trimmed, cut at the first `.`, and, when it is not
/// empty and shorter than twelve bytes of UTF-8, left-padded with zeros to
/// twelve characters.
pub open spec fn clean_upc_of(cell: Seq<char>) -> Seq<char> {
    let u = first_piece(trimmed(cell), '.');
    if u.len() > 0 && encode_utf8(u).len() < 12 {
        zeros((12 - u.len()) as nat) + u
    } else {
        u
    }
}

/// The pack part of an order-form SKU: its third `_`-separated part when it
/// has at least three `_`, else the missing marker.
pub open spec fn pack_of_sku(sku: Seq<char>) -> Seq<char> {
    if count_char(sku, '_') >= 3 {
        split_seq(sku, '_')[2]
    } else {
        missing_mark()
    }
}

/// The `c`-th letter of the alphabet, for `c` from 1 to 10.
pub open spec fn suffix_letter(c: nat) -> char {
    if c == 1 { 'A' } else if c == 2 { 'B' } else if c == 3 { 'C' } else if c == 4 { 'D' }
    else if c == 5 { 'E' } else if c == 6 { 'F' } else if c == 7 { 'G' } else if c == 8 { 'H' }
    else if c == 9 { 'I' } else { 'J' }
}

/// Suffix that tells apart the `c`-th repetition of a SKU base: nothing for
/// the first, `_A`..`_J` for the next ten, then `_` and the count.
pub open spec fn sku2_suffix(c: nat) -> Seq<char> {
    if c == 0 {
        Seq::empty()
    } else if c < 11 {
        seq!['_', suffix_letter(c)]
    } else {
        seq!['_'] + decimal(c)
    }
}

/// Number of bases before position `i` equal to `Some(b)`.
pub open spec fn prior_count(bases: Seq<Option<Seq<char>>>, i: int, b: Seq<char>) -> nat
    decreases i,
{
    if i <= 0 {
        0
    } else {
        prior_count(bases, i - 1, b) + (if bases[i - 1] == Some(b) { 1nat } else { 0nat })
    }
}

/// The SKU2 of row `i`: its base with the repetition suffix, or the
/// missing marker for a row without a base.
pub open spec fn sku2_at(bases: Seq<Option<Seq<char>>>, i: int) -> Seq<char> {
    match bases[i] {
        None => missing_mark(),
        Some(b) => b + sku2_suffix(prior_count(bases, i, b)),
    }
}

/// Indices of the lines whose UPC is `upc`, in order.
pub open spec fn matches_of(lines: Seq<SourceLine>, upc: Seq<char>) -> Seq<int>
    decreases lines.len(),
{
    if lines.len() == 0 {
        Seq::empty()
    } else {
        let rest = matches_of(lines.drop_last(), upc);
        if lines.last().upc@ == upc {
            rest.push(lines.len() - 1)
        } else {
            rest
        }
    }
}

/// `upc` is among `set`.
pub open spec fn listed(set: Seq<String>, upc: Seq<char>) -> bool {
    exists|k: int| 0 <= k < set.len() && #[trigger] set[k]@ == upc
}

/// Joined rows of invoice line `i`: one per restock line, then one per
/// order-form line of its UPC; a row without a line for a source that knew
/// the UPC but gave no line; and an unmatched row when neither knew it.
pub open spec fn rows_for_invoice(
    i: int,
    upc: Seq<char>,
    restock: Seq<SourceLine>,
    order: Seq<SourceLine>,
    restock_upcs: Seq<String>,
    order_upcs: Seq<String>,
) -> Seq<JoinedRow> {
    let rm = matches_of(restock, upc);
    let om = matches_of(order, upc);
    rm.map_values(|j: int| JoinedRow { invoice: i as usize, kind: SourceKind::Restock, source: Some(j as usize) })
        + om.map_values(|j: int| JoinedRow { invoice: i as usize, kind: SourceKind::OrderForm, source: Some(j as usize) })
        + (if rm.len() == 0 && listed(restock_upcs, upc) {
        seq![JoinedRow { invoice: i as usize, kind: SourceKind::Restock, source: None }]
    } else {
        Seq::empty()
    }) + (if om.len() == 0 && listed(order_upcs, upc) {
        seq![JoinedRow { invoice: i as usize, kind: SourceKind::OrderForm, source: None }]
    } else {
        Seq::empty()
    }) + (if !listed(restock_upcs, upc) && !listed(order_upcs, upc) {
        seq![JoinedRow { invoice: i as usize, kind: SourceKind::Unmatched, source: None }]
    } else {
        Seq::empty()
    })
}

/// Joined rows of the first `n` invoice lines, invoice line after line.
pub open spec fn joined_upto(
    n: int,
    invoice: Seq<InvoiceLine>,
    restock: Seq<SourceLine>,
    order: Seq<SourceLine>,
    restock_upcs: Seq<String>,
    order_upcs: Seq<String>,
) -> Seq<JoinedRow>
    decreases n,
{
    if n <= 0 {
        Seq::empty()
    } else {
        joined_upto(n - 1, invoice, restock, order, restock_upcs, order_upcs) + rows_for_invoice(
            n - 1,
            invoice[n - 1].upc@,
            restock,
            order,
            restock_upcs,
            order_upcs,
        )
    }
}

// ---------------------------------------------------------------------------
// Laws
// ---------------------------------------------------------------------------

proof fn lemma_prior_count_grows(bases: Seq<Option<Seq<char>>>, i: int, j: int, b: Seq<char>)
    requires
        0 <= i < j <= bases.len(),
        bases[i] == Some(b),
    ensures
        prior_count(bases, j, b) >= prior_count(bases, i, b) + 1,
    decreases j - i,
{
    if j > i + 1 {
        lemma_prior_count_grows(bases, i, j - 1, b);
    }
}

proof fn lemma_decimal_long(n: nat)
    requires
        n >= 10,
    ensures
        decimal(n).len() >= 2,
{
    lemma_decimal_digits(n / 10);
}

proof fn lemma_suffix_injective(c: nat, d: nat)
    requires
        c != d,
    ensures
        sku2_suffix(c) != sku2_suffix(d),
{
    if c >= 11 {
        lemma_decimal_long(c);
    }
    if d >= 11 {
        lemma_decimal_long(d);
    }
    if c >= 11 && d >= 11 {
        if sku2_suffix(c) == sku2_suffix(d) {
            assert(sku2_suffix(c).drop_first() =~= decimal(c));
            assert(sku2_suffix(d).drop_first() =~= decimal(d));
            lemma_decimal_injective(c, d);
        }
    } else if 0 < c < 11 && 0 < d < 11 {
        assert(sku2_suffix(c)[1] == suffix_letter(c));
        assert(sku2_suffix(d)[1] == suffix_letter(d));
    } else if c == 0 {
        assert(sku2_suffix(d).len() > 0);
    } else if d == 0 {
        assert(sku2_suffix(c).len() > 0);
    } else {
        assert(sku2_suffix(c).len() != sku2_suffix(d).len());
    }
}

/// The rows of an invoice line are never empty, and all belong to it.
proof fn lemma_rows_for_invoice_nonempty(
    i: int,
    upc: Seq<char>,
    restock: Seq<SourceLine>,
    order: Seq<SourceLine>,
    restock_upcs: Seq<String>,
    order_upcs: Seq<String>,
)
    ensures
        rows_for_invoice(i, upc, restock, order, restock_upcs, order_upcs).len() >= 1,
        forall|k: int|
            0 <= k < rows_for_invoice(i, upc, restock, order, restock_upcs, order_upcs).len() ==> (#[trigger] rows_for_invoice(
                i,
                upc,
                restock,
                order,
                restock_upcs,
                order_upcs,
            )[k]).invoice == i as usize,
{
    let rows = rows_for_invoice(i, upc, restock, order, restock_upcs, order_upcs);
    let rm = matches_of(restock, upc);
    let om = matches_of(order, upc);
    let a = rm.map_values(|j: int| JoinedRow { invoice: i as usize, kind: SourceKind::Restock, source: Some(j as usize) });
    let b = om.map_values(|j: int| JoinedRow { invoice: i as usize, kind: SourceKind::OrderForm, source: Some(j as usize) });
    let c = if rm.len() == 0 && listed(restock_upcs, upc) {
        seq![JoinedRow { invoice: i as usize, kind: SourceKind::Restock, source: None }]
    } else {
        Seq::empty()
    };
    let d = if om.len() == 0 && listed(order_upcs, upc) {
        seq![JoinedRow { invoice: i as usize, kind: SourceKind::OrderForm, source: None }]
    } else {
        Seq::empty()
    };
    let e = if !listed(restock_upcs, upc) && !listed(order_upcs, upc) {
        seq![JoinedRow { invoice: i as usize, kind: SourceKind::Unmatched, source: None }]
    } else {
        Seq::empty()
    };
    assert(rows == a + b + c + d + e);
    assert forall|k: int| 0 <= k < rows.len() implies (#[trigger] rows[k]).invoice == i as usize by {
        let ab = a + b;
        let abc = ab + c;
        let abcd = abc + d;
        if k < a.len() {
            assert(rows[k] == a[k]);
        } else if k < ab.len() {
            assert(rows[k] == b[k - a.len()]);
        } else if k < abc.len() {
            assert(rows[k] == c[k - ab.len()]);
        } else if k < abcd.len() {
            assert(rows[k] == d[k - abc.len()]);
        } else {
            assert(rows[k] == e[k - abcd.len()]);
        }
    }
}

/// Join law: every invoice line gives at least one row of the shipment
/// plan (a matched line, a line for a source that knew its UPC, or an
/// unmatched row).
pub proof fn law_every_invoice_line_joined(
    n: int,
    invoice: Seq<InvoiceLine>,
    restock: Seq<SourceLine>,
    order: Seq<SourceLine>,
    restock_upcs: Seq<String>,
    order_upcs: Seq<String>,
    i: int,
)
    requires
        0 <= i < n <= invoice.len(),
        invoice.len() <= usize::MAX,
    ensures
        exists|k: int|
            0 <= k < joined_upto(n, invoice, restock, order, restock_upcs, order_upcs).len() && (#[trigger] joined_upto(
                n,
                invoice,
                restock,
                order,
                restock_upcs,
                order_upcs,
            )[k]).invoice == i,
    decreases n,
{
    let prev = joined_upto(n - 1, invoice, restock, order, restock_upcs, order_upcs);
    let rows = rows_for_invoice(n - 1, invoice[n - 1].upc@, restock, order, restock_upcs, order_upcs);
    let all = joined_upto(n, invoice, restock, order, restock_upcs, order_upcs);
    assert(all == prev + rows);
    if i == n - 1 {
        lemma_rows_for_invoice_nonempty(n - 1, invoice[n - 1].upc@, restock, order, restock_upcs, order_upcs);
        let k = prev.len() as int;
        assert(all[k] == rows[0]);
        assert(all[k].invoice == i);
    } else {
        law_every_invoice_line_joined(n - 1, invoice, restock, order, restock_upcs, order_upcs, i);
        let k = choose|k: int| 0 <= k < prev.len() && (#[trigger] prev[k]).invoice == i;
        assert(all[k] == prev[k]);
    }
}

proof fn lemma_split_piece(cur: Seq<char>, x: Seq<char>, y: Seq<char>, d: char)
    requires
        forall|i: int| 0 <= i < x.len() ==> x[i] != d,
    ensures
        split_from(cur, x + seq![d] + y, d) == seq![cur + x] + split_from(Seq::empty(), y, d),
    decreases x.len(),
{
    let s = x + seq![d] + y;
    if x.len() == 0 {
        assert(s[0] == d);
        assert(s.drop_first() =~= y);
        assert(cur + x =~= cur);
    } else {
        assert(s[0] == x[0]);
        assert(s.drop_first() =~= x.drop_first() + seq![d] + y);
        lemma_split_piece(cur.push(x[0]), x.drop_first(), y, d);
        assert(cur.push(x[0]) + x.drop_first() =~= cur + x);
    }
}

/// Pack law: the pack of an order-form SKU made of three parts without `_`,
/// each followed by `_`, and then any rest (which may hold more `_`, as the
/// SKU2 names do) is its third part. A SKU with at least three `_` has its
/// third `_`-separated part as pack; one with fewer has the missing marker.
pub proof fn law_pack_is_third_part(a: Seq<char>, b: Seq<char>, p: Seq<char>, rest: Seq<char>, other: Seq<char>)
    requires
        forall|i: int| 0 <= i < a.len() ==> a[i] != '_',
        forall|i: int| 0 <= i < b.len() ==> b[i] != '_',
        forall|i: int| 0 <= i < p.len() ==> p[i] != '_',
    ensures
        pack_of_sku(a + seq!['_'] + b + seq!['_'] + p + seq!['_'] + rest) == p,
        count_char(other, '_') >= 3 ==> pack_of_sku(other) == split_seq(other, '_')[2],
        count_char(other, '_') < 3 ==> pack_of_sku(other) == missing_mark(),
{
    let u = '_';
    let tail2 = p + seq![u] + rest;
    let tail1 = b + seq![u] + tail2;
    let sku = a + seq![u] + b + seq![u] + p + seq![u] + rest;
    assert(sku =~= a + seq![u] + tail1);
    lemma_split_piece(Seq::empty(), a, tail1, u);
    lemma_split_piece(Seq::empty(), b, tail2, u);
    lemma_split_piece(Seq::empty(), p, rest, u);
    assert(Seq::<char>::empty() + a =~= a);
    assert(Seq::<char>::empty() + b =~= b);
    assert(Seq::<char>::empty() + p =~= p);
    let parts = split_seq(sku, u);
    assert(parts =~= seq![a] + (seq![b] + (seq![p] + split_from(Seq::empty(), rest, u))));
    assert(parts[2] == p);
    lemma_split_from_len(Seq::empty(), sku, u);
    lemma_split_from_len(Seq::empty(), rest, u);
}

/// SKU2 uniqueness law: two different rows with the same SKU base get
/// different SKU2 names.
pub proof fn law_sku2_distinct_per_base(bases: Seq<Option<Seq<char>>>, i: int, j: int)
    requires
        0 <= i < bases.len(),
        0 <= j < bases.len(),
        i != j,
        bases[i] is Some,
        bases[i] == bases[j],
    ensures
        sku2_at(bases, i) != sku2_at(bases, j),
{
    let b = bases[i]->0;
    if i < j {
        lemma_prior_count_grows(bases, i, j, b);
    } else {
        lemma_prior_count_grows(bases, j, i, b);
    }
    let ci = prior_count(bases, i, b);
    let cj = prior_count(bases, j, b);
    lemma_suffix_injective(ci, cj);
    if sku2_at(bases, i) == sku2_at(bases, j) {
        assert((b + sku2_suffix(ci)).skip(b.len() as int) =~= sku2_suffix(ci));
        assert((b + sku2_suffix(cj)).skip(b.len() as int) =~= sku2_suffix(cj));
    }
}

// ---------------------------------------------------------------------------
// Executable code
// ---------------------------------------------------------------------------

/// The missing marker.
pub fn missing_marker() -> (r: String)
    ensures
        r@ == missing_mark(),
{
    let mut s = String::new();
    push_char(&mut s, '#');
    push_char(&mut s, 'Y');
    push_char(&mut s, 'O');
    push_char(&mut s, 'K');
    assert(s@ =~= missing_mark());
    s
}

/// The text of a row's cell `i`, or an empty text past its end.
pub fn cell(cells: &Vec<String>, i: usize) -> (r: String)
    ensures
        r@ == cell_at(cells@, i as int),
{
    if i < cells.len() {
        cells[i].clone()
    } else {
        String::new()
    }
}

/// Cleans a UPC cell (see `clean_upc_of`).
pub fn clean_upc(cell_text: &str) -> (r: String)
    ensures
        r@ == clean_upc_of(cell_text@),
{
    let t = trim(cell_text);
    let u = first_part(t.as_str(), '.');
    let chars = chars_of(u.as_str());
    let short = utf8_shorter_than_12(&chars);
    let n = chars.len();
    if n > 0 && short {
        let mut out = String::new();
        let mut k: usize = 0;
        // Each character takes at least one byte.
        proof {
            lemma_utf8_len_at_least(u@);
        }
        while k < 12 - n
            invariant
                n < 12,
                k <= 12 - n,
                out@ == zeros(k as nat),
            decreases 12 - n - k,
        {
            push_char(&mut out, '0');
            assert(out@ =~= zeros((k + 1) as nat));
            k = k + 1;
        }
        let mut i: usize = 0;
        while i < n
            invariant
                n == chars.len(),
                chars@ == u@,
                n < 12,
                i <= n,
                out@ == zeros((12 - n) as nat) + chars@.take(i as int),
            decreases n - i,
        {
            push_char(&mut out, chars[i]);
            assert(zeros((12 - n) as nat) + chars@.take(i + 1) =~= (zeros((12 - n) as nat)
                + chars@.take(i as int)).push(chars@[i as int]));
            i = i + 1;
        }
        assert(chars@.take(n as int) =~= chars@);
        out
    } else {
        u
    }
}

/// Number of bytes in the UTF-8 encoding of a character.
pub(crate) fn utf8_width(c: char) -> (w: u8)
    ensures
        w == encode_utf8(seq![c]).len(),
        1 <= w <= 4,
{
    proof {
        vstd::utf8::char_is_scalar(c);
        assert(seq![c].drop_first() =~= Seq::<char>::empty());
        assert(seq![c][0] == c);
        assert(encode_utf8(seq![c]) == vstd::utf8::encode_scalar(c as u32) + encode_utf8(Seq::<char>::empty()));
        assert(encode_utf8(seq![c]).len() == vstd::utf8::encode_scalar(c as u32).len());
    }
    let x = c as u32;
    if x <= 0x7f {
        1
    } else if x <= 0x7ff {
        2
    } else if x <= 0xffff {
        3
    } else {
        4
    }
}

/// Whether the UTF-8 encoding of the characters is shorter than 12 bytes.
fn utf8_shorter_than_12(v: &Vec<char>) -> (r: bool)
    ensures
        r == (encode_utf8(v@).len() < 12),
{
    let mut capped: u8 = 0;
    let mut i: usize = v.len();
    assert(v@.skip(i as int) =~= Seq::<char>::empty());
    while i > 0
        invariant
            i <= v.len(),
            capped == (if encode_utf8(v@.skip(i as int)).len() < 12 {
                encode_utf8(v@.skip(i as int)).len()
            } else {
                12
            }),
        decreases i,
    {
        let w = utf8_width(v[i - 1]);
        proof {
            let t = v@.skip(i - 1);
            assert(t.drop_first() =~= v@.skip(i as int));
            assert(t[0] == v@[i - 1]);
            assert(encode_utf8(seq![v@[i - 1]]) =~= vstd::utf8::encode_scalar(v@[i - 1] as u32) + encode_utf8(seq![v@[i - 1]].drop_first()));
            assert(seq![v@[i - 1]].drop_first() =~= Seq::<char>::empty());
        }
        let t = capped + w;
        capped = if t < 12 { t } else { 12 };
        i = i - 1;
    }
    assert(v@.skip(0) =~= v@);
    capped < 12
}

/// A UTF-8 encoding is at least as long as the text.
proof fn lemma_utf8_len_at_least(s: Seq<char>)
    ensures
        encode_utf8(s).len() >= s.len(),
    decreases s.len(),
{
    if s.len() > 0 {
        lemma_utf8_len_at_least(s.drop_first());
        assert(vstd::utf8::encode_scalar(s[0] as u32).len() >= 1);
    }
}

/// The pack part of an order-form SKU (see `pack_of_sku`).
pub fn pack_from_sku(sku: &str) -> (r: String)
    ensures
        r@ == pack_of_sku(sku@),
{
    let parts = split(sku, '_');
    proof {
        lemma_split_from_len(Seq::empty(), sku@, '_');
    }
    if parts.len() >= 4 {
        proof {
            assert(parts@.map_values(|x: String| x@)[2] == parts@[2]@);
        }
        parts[2].clone()
    } else {
        missing_marker()
    }
}

/// The repetition suffix of a SKU base (see `sku2_suffix`).
pub fn sku2_suffix_text(c: usize) -> (r: String)
    ensures
        r@ == sku2_suffix(c as nat),
{
    let mut s = String::new();
    if c == 0 {
    } else if c < 11 {
        push_char(&mut s, '_');
        let l = if c == 1 { 'A' } else if c == 2 { 'B' } else if c == 3 { 'C' } else if c == 4 {
            'D'
        } else if c == 5 { 'E' } else if c == 6 { 'F' } else if c == 7 { 'G' } else if c == 8 {
            'H'
        } else if c == 9 { 'I' } else { 'J' };
        push_char(&mut s, l);
    } else {
        push_char(&mut s, '_');
        let d = decimal_string(c);
        let v = chars_of(d.as_str());
        let mut i: usize = 0;
        while i < v.len()
            invariant
                i <= v.len(),
                v@ == decimal(c as nat),
                s@ == seq!['_'] + v@.take(i as int),
            decreases v.len() - i,
        {
            push_char(&mut s, v[i]);
            assert(seq!['_'] + v@.take(i + 1) =~= (seq!['_'] + v@.take(i as int)).push(v@[i as int]));
            i = i + 1;
        }
        assert(v@.take(v.len() as int) =~= v@);
    }
    assert(s@ =~= sku2_suffix(c as nat));
    s
}

/// Whether a joined row gets a SKU2 base: it has a source line with a pack
/// and the invoice line has a price.
pub fn needs_sku2(pk: &str, price: &str) -> (r: bool)
    ensures
        r == (pk@ != missing_mark() && price@ != missing_mark() && price@.len() > 0),
{
    let m = missing_marker();
    let a = crate::text::text_eq(pk, m.as_str());
    let b = crate::text::text_eq(price, m.as_str());
    let v = chars_of(price);
    !a && !b && v.len() > 0
}

/// Names every row: rows without a base get the missing marker; a row with
/// a base gets the base followed by the suffix of its repetition count.
pub fn assign_sku2(bases: &Vec<Option<String>>) -> (r: Vec<String>)
    ensures
        r.len() == bases.len(),
        forall|i: int|
            0 <= i < bases.len() ==> (#[trigger] r@[i])@ == sku2_at(
                bases@.map_values(|o: Option<String>| base_view(o)),
                i,
            ),
{
    let ghost bv = bases@.map_values(|o: Option<String>| base_view(o));
    let mut keys: Vec<Vec<char>> = Vec::new();
    let mut counts: Vec<usize> = Vec::new();
    let mut out: Vec<String> = Vec::new();
    let mut i: usize = 0;
    while i < bases.len()
        invariant
            i <= bases.len(),
            bv == bases@.map_values(|o: Option<String>| base_view(o)),
            out.len() == i,
            keys.len() == counts.len(),
            forall|a: int, b: int| 0 <= a < b < keys.len() ==> keys@[a]@ != keys@[b]@,
            forall|a: int| 0 <= a < keys.len() ==> counts@[a] == prior_count(bv, i as int, (#[trigger] keys@[a])@),
            forall|a: int| 0 <= a < keys.len() ==> counts@[a] <= i,
            forall|b: Seq<char>|
                (forall|a: int| 0 <= a < keys.len() ==> keys@[a]@ != b) ==> prior_count(bv, i as int, b) == 0,
            forall|k: int| 0 <= k < i ==> (#[trigger] out@[k])@ == sku2_at(bv, k),
        decreases bases.len() - i,
    {
        let ghost n1 = i + 1;
        match &bases[i] {
            None => {
                out.push(missing_marker());
                proof {
                    assert forall|a: int| 0 <= a < keys.len() implies counts@[a] == prior_count(bv, n1, (#[trigger] keys@[a])@) by {
                        assert(bv[i as int] is None);
                    }
                    assert forall|b: Seq<char>|
                        (forall|a: int| 0 <= a < keys.len() ==> keys@[a]@ != b) implies prior_count(bv, n1, b) == 0 by {
                        assert(bv[i as int] is None);
                        assert(prior_count(bv, i as int, b) == 0);
                    }
                }
            },
            Some(base) => {
                let bc = chars_of(base.as_str());
                let pos = find_chars(&keys, &bc);
                proof {
                    assert(bv[i as int] == Some(bc@));
                }
                if let Some(a) = pos {
                    let c = counts[a];
                    let mut name = base.clone();
                    let suffix = sku2_suffix_text(c);
                    name.append(suffix.as_str());
                    out.push(name);
                    counts.set(a, c + 1);
                    proof {
                        assert forall|d: int| 0 <= d < keys.len() implies counts@[d] == prior_count(bv, n1, (#[trigger] keys@[d])@) by {
                            if d != a {
                                assert(keys@[d]@ != bc@);
                            }
                        }
                        assert forall|b: Seq<char>|
                            (forall|d: int| 0 <= d < keys.len() ==> keys@[d]@ != b) implies prior_count(bv, n1, b) == 0 by {
                            assert(keys@[a as int]@ != b);
                            assert(prior_count(bv, i as int, b) == 0);
                        }
                    }
                } else {
                    let mut name = base.clone();
                    out.push(name);
                    let ghost old_keys = keys@;
                    keys.push(bc);
                    counts.push(1);
                    proof {
                        assert(prior_count(bv, i as int, bc@) == 0);
                        assert(sku2_suffix(0) =~= Seq::<char>::empty());
                        assert(name@ + sku2_suffix(0) =~= name@);
                        assert forall|d: int| 0 <= d < keys.len() implies counts@[d] == prior_count(bv, n1, (#[trigger] keys@[d])@) by {
                            if d < old_keys.len() {
                                assert(keys@[d] == old_keys[d]);
                                assert(old_keys[d]@ != bc@);
                            }
                        }
                        assert forall|b: Seq<char>|
                            (forall|d: int| 0 <= d < keys.len() ==> keys@[d]@ != b) implies prior_count(bv, n1, b) == 0 by {
                            assert forall|d: int| 0 <= d < old_keys.len() implies old_keys[d]@ != b by {
                                assert(keys@[d] == old_keys[d]);
                            }
                            assert(keys@[old_keys.len() as int]@ != b);
                            assert(prior_count(bv, i as int, b) == 0);
                        }
                        assert forall|c: int, d: int| 0 <= c < d < keys.len() implies keys@[c]@ != keys@[d]@ by {
                            assert(keys@[c] == old_keys[c]);
                            if d < old_keys.len() {
                                assert(keys@[d] == old_keys[d]);
                            }
                        }
                    }
                }
            },
        }
        i = i + 1;
    }
    out
}

/// The view of an optional base.
pub open spec fn base_view(o: Option<String>) -> Option<Seq<char>> {
    match o {
        Some(s) => Some(s@),
        None => None,
    }
}

/// Indices of the lines whose UPC (given as characters) is `upc`.
fn matching_lines(upcs: &Vec<Vec<char>>, upc: &Vec<char>, Ghost(lines): Ghost<Seq<SourceLine>>) -> (r: Vec<usize>)
    requires
        upcs.len() == lines.len(),
        forall|k: int| 0 <= k < lines.len() ==> (#[trigger] upcs@[k])@ == lines[k].upc@,
    ensures
        r@.map_values(|j: usize| j as int) == matches_of(lines, upc@),
{
    let mut out: Vec<usize> = Vec::new();
    let mut k: usize = 0;
    while k < upcs.len()
        invariant
            k <= upcs.len(),
            upcs.len() == lines.len(),
            forall|m: int| 0 <= m < lines.len() ==> (#[trigger] upcs@[m])@ == lines[m].upc@,
            out@.map_values(|j: usize| j as int) == matches_of(lines.take(k as int), upc@),
        decreases upcs.len() - k,
    {
        proof {
            assert(lines.take(k + 1).drop_last() =~= lines.take(k as int));
            assert(lines.take(k + 1).last() == lines[k as int]);
        }
        if chars_eq(&upcs[k], upc) {
            let ghost before = out@;
            out.push(k);
            assert(out@.map_values(|j: usize| j as int) =~= before.map_values(|j: usize| j as int).push(k as int));
        }
        k = k + 1;
    }
    assert(lines.take(upcs.len() as int) =~= lines);
    out
}

fn upc_chars(lines: &Vec<SourceLine>) -> (r: Vec<Vec<char>>)
    ensures
        r.len() == lines.len(),
        forall|k: int| 0 <= k < lines.len() ==> (#[trigger] r@[k])@ == lines@[k].upc@,
{
    let mut out: Vec<Vec<char>> = Vec::new();
    let mut k: usize = 0;
    while k < lines.len()
        invariant
            k <= lines.len(),
            out.len() == k,
            forall|m: int| 0 <= m < k ==> (#[trigger] out@[m])@ == lines@[m].upc@,
        decreases lines.len() - k,
    {
        out.push(chars_of(lines[k].upc.as_str()));
        k = k + 1;
    }
    out
}

fn is_listed(set: &Vec<String>, upc: &Vec<char>) -> (r: bool)
    ensures
        r == listed(set@, upc@),
{
    let mut k: usize = 0;
    while k < set.len()
        invariant
            k <= set.len(),
            forall|m: int| 0 <= m < k ==> set@[m]@ != upc@,
        decreases set.len() - k,
    {
        let c = chars_of(set[k].as_str());
        if chars_eq(&c, upc) {
            return true;
        }
        k = k + 1;
    }
    false
}

/// Joins the invoice lines with the restock and order-form lines of their
/// UPC (see `rows_for_invoice`), invoice line after invoice line.
/// `restock_upcs` and `order_upcs` are the UPCs each source listed.
pub fn join_lines(
    invoice: &Vec<InvoiceLine>,
    restock: &Vec<SourceLine>,
    order: &Vec<SourceLine>,
    restock_upcs: &Vec<String>,
    order_upcs: &Vec<String>,
) -> (r: Vec<JoinedRow>)
    ensures
        r@ == joined_upto(invoice.len() as int, invoice@, restock@, order@, restock_upcs@, order_upcs@),
{
    let ru = upc_chars(restock);
    let ou = upc_chars(order);
    let mut out: Vec<JoinedRow> = Vec::new();
    let mut i: usize = 0;
    while i < invoice.len()
        invariant
            i <= invoice.len(),
            ru.len() == restock.len(),
            forall|k: int| 0 <= k < restock.len() ==> (#[trigger] ru@[k])@ == restock@[k].upc@,
            ou.len() == order.len(),
            forall|k: int| 0 <= k < order.len() ==> (#[trigger] ou@[k])@ == order@[k].upc@,
            out@ == joined_upto(i as int, invoice@, restock@, order@, restock_upcs@, order_upcs@),
        decreases invoice.len() - i,
    {
        let u = chars_of(invoice[i].upc.as_str());
        let rm = matching_lines(&ru, &u, Ghost(restock@));
        let om = matching_lines(&ou, &u, Ghost(order@));
        let in_r = is_listed(restock_upcs, &u);
        let in_o = is_listed(order_upcs, &u);
        let ghost before = out@;
        let ghost rmv = rm@.map_values(|j: usize| j as int);
        let ghost omv = om@.map_values(|j: usize| j as int);
        let mut k: usize = 0;
        while k < rm.len()
            invariant
                k <= rm.len(),
                out@ == before + rmv.take(k as int).map_values(|j: int| JoinedRow { invoice: i as usize, kind: SourceKind::Restock, source: Some(j as usize) }),
                rmv == rm@.map_values(|j: usize| j as int),
            decreases rm.len() - k,
        {
            out.push(JoinedRow { invoice: i, kind: SourceKind::Restock, source: Some(rm[k]) });
            assert(rmv.take(k + 1) =~= rmv.take(k as int).push(rm@[k as int] as int));
            assert(before + rmv.take(k + 1).map_values(|j: int| JoinedRow { invoice: i as usize, kind: SourceKind::Restock, source: Some(j as usize) })
                =~= (before + rmv.take(k as int).map_values(|j: int| JoinedRow { invoice: i as usize, kind: SourceKind::Restock, source: Some(j as usize) })).push(JoinedRow { invoice: i, kind: SourceKind::Restock, source: Some(rm@[k as int]) }));
            k = k + 1;
        }
        assert(rmv.take(rm.len() as int) =~= rmv);
        let ghost mid = out@;
        let mut k: usize = 0;
        while k < om.len()
            invariant
                k <= om.len(),
                out@ == mid + omv.take(k as int).map_values(|j: int| JoinedRow { invoice: i as usize, kind: SourceKind::OrderForm, source: Some(j as usize) }),
                omv == om@.map_values(|j: usize| j as int),
            decreases om.len() - k,
        {
            out.push(JoinedRow { invoice: i, kind: SourceKind::OrderForm, source: Some(om[k]) });
            assert(omv.take(k + 1) =~= omv.take(k as int).push(om@[k as int] as int));
            assert(mid + omv.take(k + 1).map_values(|j: int| JoinedRow { invoice: i as usize, kind: SourceKind::OrderForm, source: Some(j as usize) })
                =~= (mid + omv.take(k as int).map_values(|j: int| JoinedRow { invoice: i as usize, kind: SourceKind::OrderForm, source: Some(j as usize) })).push(JoinedRow { invoice: i, kind: SourceKind::OrderForm, source: Some(om@[k as int]) }));
            k = k + 1;
        }
        assert(omv.take(om.len() as int) =~= omv);
        let ghost m2 = out@;
        if rm.len() == 0 && in_r {
            out.push(JoinedRow { invoice: i, kind: SourceKind::Restock, source: None });
        }
        let ghost m3 = out@;
        if om.len() == 0 && in_o {
            out.push(JoinedRow { invoice: i, kind: SourceKind::OrderForm, source: None });
        }
        let ghost m4 = out@;
        if !in_r && !in_o {
            out.push(JoinedRow { invoice: i, kind: SourceKind::Unmatched, source: None });
        }
        proof {
            let part = rows_for_invoice(i as int, u@, restock@, order@, restock_upcs@, order_upcs@);
            assert(invoice@[i as int].upc@ == u@);
            assert(out@ =~= before + part);
        }
        i = i + 1;
    }
    out
}

/// Reads a restock row: `None` when its piece count is empty or "nan" (in
/// any ASCII case) or its cleaned UPC is empty.
pub fn restock_line(cells: &Vec<String>, cols: &RestockColumns) -> (r: Option<SourceLine>)
    ensures
        r is None <==> (trimmed(cell_at(cells@, cols.pcs as int)).len() == 0 || eq_ignore_ascii_case(
            trimmed(cell_at(cells@, cols.pcs as int)),
            seq!['n', 'a', 'n'],
        ) || clean_upc_of(cell_at(cells@, cols.upc as int)).len() == 0),
        r matches Some(l) ==> {
            &&& l.upc@ == clean_upc_of(cell_at(cells@, cols.upc as int))
            &&& l.price_check@ == cell_at(cells@, cols.price as int)
            &&& l.suplier@ == cell_at(cells@, cols.suplier as int)
            &&& l.asin@ == cell_at(cells@, cols.asin as int)
            &&& l.pcs@ == trimmed(cell_at(cells@, cols.pcs as int))
            &&& l.pk@ == cell_at(cells@, cols.pk as int)
            &&& l.sku@ == missing_mark()
            &&& l.dosya@ == seq!['R', 'e', 's', 't', 'o', 'c', 'k']
        },
{
    let pcs_cell = cell(cells, cols.pcs);
    let pcs = trim(pcs_cell.as_str());
    let nan = nan_text();
    if chars_of(pcs.as_str()).len() == 0 || text_eq_ignore_ascii_case(pcs.as_str(), nan.as_str()) {
        return None;
    }
    let upc_cell = cell(cells, cols.upc);
    let upc = clean_upc(upc_cell.as_str());
    if chars_of(upc.as_str()).len() == 0 {
        return None;
    }
    Some(SourceLine {
        upc,
        price_check: cell(cells, cols.price),
        suplier: cell(cells, cols.suplier),
        asin: cell(cells, cols.asin),
        pcs,
        pk: cell(cells, cols.pk),
        sku: missing_marker(),
        dosya: word_restock(),
    })
}

/// The text "nan".
fn nan_text() -> (r: String)
    ensures
        r@ == seq!['n', 'a', 'n'],
{
    let mut s = String::new();
    push_char(&mut s, 'n');
    push_char(&mut s, 'a');
    push_char(&mut s, 'n');
    assert(s@ =~= seq!['n', 'a', 'n']);
    s
}

fn word_restock() -> (r: String)
    ensures
        r@ == seq!['R', 'e', 's', 't', 'o', 'c', 'k'],
{
    let mut s = String::new();
    push_char(&mut s, 'R');
    push_char(&mut s, 'e');
    push_char(&mut s, 's');
    push_char(&mut s, 't');
    push_char(&mut s, 'o');
    push_char(&mut s, 'c');
    push_char(&mut s, 'k');
    assert(s@ =~= seq!['R', 'e', 's', 't', 'o', 'c', 'k']);
    s
}

/// Reads an invoice row: `None` when its cleaned UPC is empty.
pub fn invoice_line(cells: &Vec<String>, cols: &InvoiceColumns) -> (r: Option<InvoiceLine>)
    ensures
        r is None <==> clean_upc_of(cell_at(cells@, cols.upc as int)).len() == 0,
        r matches Some(l) ==> {
            &&& l.upc@ == clean_upc_of(cell_at(cells@, cols.upc as int))
            &&& l.ship_quantity@ == cell_at(cells@, cols.ship_quantity as int)
            &&& l.price@ == cell_at(cells@, cols.price as int)
            &&& l.pack_size@ == cell_at(cells@, cols.pack_size as int)
            &&& l.brand@ == cell_at(cells@, cols.brand as int)
            &&& l.description@ == cell_at(cells@, cols.description as int)
        },
{
    let upc_cell = cell(cells, cols.upc);
    let upc = clean_upc(upc_cell.as_str());
    if chars_of(upc.as_str()).len() == 0 {
        return None;
    }
    Some(InvoiceLine {
        upc,
        ship_quantity: cell(cells, cols.ship_quantity),
        price: cell(cells, cols.price),
        pack_size: cell(cells, cols.pack_size),
        brand: cell(cells, cols.brand),
        description: cell(cells, cols.description),
    })
}

// ---------------------------------------------------------------------------
// Order form unpivoting
// ---------------------------------------------------------------------------

/// Indices of the headers equal to `name` up to ASCII case, in order.
pub open spec fn ci_positions(headers: Seq<Seq<char>>, name: Seq<char>) -> Seq<int>
    decreases headers.len(),
{
    if headers.len() == 0 {
        Seq::empty()
    } else {
        let rest = ci_positions(headers.drop_last(), name);
        if eq_ignore_ascii_case(headers.last(), name) {
            rest.push(headers.len() - 1)
        } else {
            rest
        }
    }
}

/// Columns (ASIN, SKU, pieces) of the `i`-th product slot of the order
/// form, when all three are present.
pub open spec fn slot_columns(
    headers: Seq<Seq<char>>,
    asin: Seq<Seq<char>>,
    sku: Seq<Seq<char>>,
    pcs: Seq<int>,
    i: int,
) -> Option<(int, int, int)> {
    match (first_match(headers, asin[i], MatchMode::IgnoreCase), first_match(headers, sku[i], MatchMode::IgnoreCase)) {
        (Some(a), Some(s)) => if i < pcs.len() {
            Some((a, s, pcs[i]))
        } else {
            None
        },
        _ => None,
    }
}

/// The product slots from `i` on, up to the first slot with a missing
/// column.
pub open spec fn slots_from(
    headers: Seq<Seq<char>>,
    asin: Seq<Seq<char>>,
    sku: Seq<Seq<char>>,
    pcs: Seq<int>,
    i: int,
) -> Seq<(int, int, int)>
    decreases asin.len() - i,
{
    if i < 0 || i >= asin.len() || i >= sku.len() {
        Seq::empty()
    } else {
        match slot_columns(headers, asin, sku, pcs, i) {
            None => Seq::empty(),
            Some(t) => seq![t] + slots_from(headers, asin, sku, pcs, i + 1),
        }
    }
}

/// Every product slot that is looked at has a SKU column name.
pub open spec fn slots_named(
    headers: Seq<Seq<char>>,
    asin: Seq<Seq<char>>,
    sku: Seq<Seq<char>>,
    pcs: Seq<int>,
    i: int,
) -> bool
    decreases asin.len() - i,
{
    if i < 0 || i >= asin.len() {
        true
    } else if i >= sku.len() {
        false
    } else {
        match slot_columns(headers, asin, sku, pcs, i) {
            None => true,
            Some(t) => slots_named(headers, asin, sku, pcs, i + 1),
        }
    }
}

/// The order-form line of one product slot, unless its ASIN is empty or
/// "nan" (in any ASCII case).
pub open spec fn slot_line(
    cells: Seq<String>,
    upc: Seq<char>,
    price_col: int,
    sup_col: int,
    slot: (int, int, int),
) -> Option<(Seq<char>, Seq<char>, Seq<char>, Seq<char>, Seq<char>, Seq<char>, Seq<char>)> {
    let asin = trimmed(cell_at(cells, slot.0));
    let sku = trimmed(cell_at(cells, slot.1));
    if asin.len() == 0 || eq_ignore_ascii_case(asin, seq!['n', 'a', 'n']) {
        None
    } else {
        Some((
            cell_at(cells, price_col),
            cell_at(cells, sup_col),
            asin,
            cell_at(cells, slot.2),
            pack_of_sku(sku),
            if sku.len() == 0 { missing_mark() } else { sku },
            upc,
        ))
    }
}

/// The view of a source line: price check, supplier, ASIN, pieces, pack,
/// SKU and UPC.
pub open spec fn line_view(l: SourceLine) -> (Seq<char>, Seq<char>, Seq<char>, Seq<char>, Seq<char>, Seq<char>, Seq<char>) {
    (l.price_check@, l.suplier@, l.asin@, l.pcs@, l.pk@, l.sku@, l.upc@)
}

/// The order-form lines of the first `n` slots of a row.
pub open spec fn slot_lines(
    cells: Seq<String>,
    upc: Seq<char>,
    price_col: int,
    sup_col: int,
    slots: Seq<(int, int, int)>,
    n: int,
) -> Seq<(Seq<char>, Seq<char>, Seq<char>, Seq<char>, Seq<char>, Seq<char>, Seq<char>)>
    decreases n,
{
    if n <= 0 {
        Seq::empty()
    } else {
        let rest = slot_lines(cells, upc, price_col, sup_col, slots, n - 1);
        match slot_line(cells, upc, price_col, sup_col, slots[n - 1]) {
            Some(l) => rest.push(l),
            None => rest,
        }
    }
}

/// The word that marks order-form lines.
pub open spec fn order_form_word() -> Seq<char> {
    seq!['O', 'r', 'd', 'e', 'r', ' ', 'F', 'o', 'r', 'm']
}

/// Columns of the order form's product slots: for slot `i`, the first
/// header equal (up to ASCII case) to its ASIN name, to its SKU name, and
/// the `i`-th header equal to the pieces name; the slots end at the first
/// slot with a missing column.
pub fn slot_columns_of(
    headers: &Vec<String>,
    asin_names: &Vec<String>,
    sku_names: &Vec<String>,
    pcs_name: &str,
) -> (r: Vec<(usize, usize, usize)>)
    requires
        slots_named(views(headers@), views(asin_names@), views(sku_names@), ci_positions(views(headers@), pcs_name@), 0),
    ensures
        r@.map_values(|t: (usize, usize, usize)| (t.0 as int, t.1 as int, t.2 as int)) == slots_from(
            views(headers@),
            views(asin_names@),
            views(sku_names@),
            ci_positions(views(headers@), pcs_name@),
            0,
        ),
        forall|k: int| 0 <= k < r.len() ==> (#[trigger] r@[k]).0 < headers.len() && r@[k].1 < headers.len() && r@[k].2 < headers.len(),
{
    let ghost hv = views(headers@);
    let ghost av = views(asin_names@);
    let ghost sv = views(sku_names@);
    let mut pcs: Vec<usize> = Vec::new();
    let mut j: usize = 0;
    while j < headers.len()
        invariant
            j <= headers.len(),
            hv == views(headers@),
            pcs@.map_values(|x: usize| x as int) == ci_positions(hv.take(j as int), pcs_name@),
            forall|k: int| 0 <= k < pcs.len() ==> #[trigger] pcs@[k] < j,
        decreases headers.len() - j,
    {
        proof {
            assert(hv.take(j + 1).drop_last() =~= hv.take(j as int));
            assert(hv.take(j + 1).last() == headers@[j as int]@);
        }
        if text_eq_ignore_ascii_case(headers[j].as_str(), pcs_name) {
            let ghost before = pcs@;
            pcs.push(j);
            assert(pcs@.map_values(|x: usize| x as int) =~= before.map_values(|x: usize| x as int).push(j as int));
        }
        j = j + 1;
    }
    assert(hv.take(headers.len() as int) =~= hv);
    let ghost pv = ci_positions(hv, pcs_name@);
    let mut out: Vec<(usize, usize, usize)> = Vec::new();
    let mut i: usize = 0;
    while i < asin_names.len()
        invariant
            i <= asin_names.len(),
            hv == views(headers@),
            av == views(asin_names@),
            sv == views(sku_names@),
            pv == ci_positions(hv, pcs_name@),
            pcs@.map_values(|x: usize| x as int) == pv,
            forall|k: int| 0 <= k < pcs.len() ==> #[trigger] pcs@[k] < headers.len(),
            slots_named(hv, av, sv, pv, i as int),
            out@.map_values(|t: (usize, usize, usize)| (t.0 as int, t.1 as int, t.2 as int)) + slots_from(hv, av, sv, pv, i as int)
                == slots_from(hv, av, sv, pv, 0),
            forall|k: int| 0 <= k < out.len() ==> (#[trigger] out@[k]).0 < headers.len() && out@[k].1 < headers.len() && out@[k].2 < headers.len(),
        ensures
            out@.map_values(|t: (usize, usize, usize)| (t.0 as int, t.1 as int, t.2 as int)) == slots_from(hv, av, sv, pv, 0),
            forall|k: int| 0 <= k < out.len() ==> (#[trigger] out@[k]).0 < headers.len() && out@[k].1 < headers.len() && out@[k].2 < headers.len(),
        decreases asin_names.len() - i,
    {
        proof {
            if i >= asin_names.len() {
                assert(slots_from(hv, av, sv, pv, i as int) =~= Seq::empty());
            }
        }
        let a = find_header(headers, asin_names[i].as_str(), MatchMode::IgnoreCase);
        let s = find_header(headers, sku_names[i].as_str(), MatchMode::IgnoreCase);
        proof {
            assert(av[i as int] == asin_names@[i as int]@);
            assert(sv[i as int] == sku_names@[i as int]@);
        }
        if a.is_none() || s.is_none() || i >= pcs.len() {
            proof {
                assert(slots_from(hv, av, sv, pv, i as int) =~= Seq::empty());
                assert(out@.map_values(|t: (usize, usize, usize)| (t.0 as int, t.1 as int, t.2 as int)) + slots_from(hv, av, sv, pv, i as int)
                    =~= out@.map_values(|t: (usize, usize, usize)| (t.0 as int, t.1 as int, t.2 as int)));
            }
            break;
        }
        let t = (a.unwrap(), s.unwrap(), pcs[i]);
        let ghost before = out@;
        out.push(t);
        proof {
            assert(pcs@.map_values(|x: usize| x as int)[i as int] == pcs@[i as int] as int);
            assert(out@.map_values(|t: (usize, usize, usize)| (t.0 as int, t.1 as int, t.2 as int)) =~= before.map_values(
                |t: (usize, usize, usize)| (t.0 as int, t.1 as int, t.2 as int),
            ).push((t.0 as int, t.1 as int, t.2 as int)));
        }
        i = i + 1;
    }
    out
}

/// Reads an order-form row: `None` when its cleaned UPC is empty;
/// otherwise the UPC and one line per product slot whose ASIN is neither
/// empty nor "nan".
pub fn order_lines(
    cells: &Vec<String>,
    upc_col: usize,
    price_col: usize,
    sup_col: usize,
    slots: &Vec<(usize, usize, usize)>,
) -> (r: Option<(String, Vec<SourceLine>)>)
    ensures
        r is None <==> clean_upc_of(cell_at(cells@, upc_col as int)).len() == 0,
        r matches Some(p) ==> {
            &&& p.0@ == clean_upc_of(cell_at(cells@, upc_col as int))
            &&& p.1@.map_values(|l: SourceLine| line_view(l)) == slot_lines(
                cells@,
                p.0@,
                price_col as int,
                sup_col as int,
                slots@.map_values(|t: (usize, usize, usize)| (t.0 as int, t.1 as int, t.2 as int)),
                slots.len() as int,
            )
            &&& forall|k: int| 0 <= k < p.1.len() ==> (#[trigger] p.1@[k]).dosya@ == order_form_word()
        },
{
    let upc_cell = cell(cells, upc_col);
    let upc = clean_upc(upc_cell.as_str());
    if chars_of(upc.as_str()).len() == 0 {
        return None;
    }
    let ghost sv = slots@.map_values(|t: (usize, usize, usize)| (t.0 as int, t.1 as int, t.2 as int));
    let nan = nan_text();
    let mut lines: Vec<SourceLine> = Vec::new();
    let mut k: usize = 0;
    while k < slots.len()
        invariant
            k <= slots.len(),
            nan@ == seq!['n', 'a', 'n'],
            sv == slots@.map_values(|t: (usize, usize, usize)| (t.0 as int, t.1 as int, t.2 as int)),
            lines@.map_values(|l: SourceLine| line_view(l)) == slot_lines(cells@, upc@, price_col as int, sup_col as int, sv, k as int),
            forall|m: int| 0 <= m < lines.len() ==> (#[trigger] lines@[m]).dosya@ == order_form_word(),
        decreases slots.len() - k,
    {
        let (ac, sc, pc) = slots[k];
        proof {
            assert(sv[k as int] == (ac as int, sc as int, pc as int));
        }
        let a_cell = cell(cells, ac);
        let asin = trim(a_cell.as_str());
        if chars_of(asin.as_str()).len() == 0 || text_eq_ignore_ascii_case(asin.as_str(), nan.as_str()) {
        } else {
            let s_cell = cell(cells, sc);
            let sku = trim(s_cell.as_str());
            let pk = pack_from_sku(sku.as_str());
            let sku_out = if chars_of(sku.as_str()).len() == 0 {
                missing_marker()
            } else {
                sku
            };
            let line = SourceLine {
                upc: upc.clone(),
                price_check: cell(cells, price_col),
                suplier: cell(cells, sup_col),
                asin,
                pcs: cell(cells, pc),
                pk,
                sku: sku_out,
                dosya: word_order_form(),
            };
            let ghost before = lines@;
            lines.push(line);
            proof {
                assert(lines@.map_values(|l: SourceLine| line_view(l)) =~= before.map_values(|l: SourceLine| line_view(l)).push(line_view(line)));
            }
        }
        k = k + 1;
    }
    Some((upc, lines))
}

fn word_order_form() -> (r: String)
    ensures
        r@ == order_form_word(),
{
    let mut s = String::new();
    push_char(&mut s, 'O');
    push_char(&mut s, 'r');
    push_char(&mut s, 'd');
    push_char(&mut s, 'e');
    push_char(&mut s, 'r');
    push_char(&mut s, ' ');
    push_char(&mut s, 'F');
    push_char(&mut s, 'o');
    push_char(&mut s, 'r');
    push_char(&mut s, 'm');
    assert(s@ =~= order_form_word());
    s
}


/// "Restock".
pub open spec fn restock_word() -> Seq<char> {
    seq!['R', 'e', 's', 't', 'o', 'c', 'k']
}

/// The text shown for a cell of the plan: the missing marker for an empty
/// text.
pub open spec fn shown_text(s: Seq<char>) -> Seq<char> {
    if s.len() == 0 {
        missing_mark()
    } else {
        s
    }
}

/// The source named in a row of the plan.
pub open spec fn source_label_of(kind: SourceKind) -> Seq<char> {
    match kind {
        SourceKind::Restock => restock_word(),
        SourceKind::OrderForm => order_form_word(),
        SourceKind::Unmatched => missing_mark(),
    }
}

/// The text shown for a cell of the plan (see `shown_text`).
pub fn shown(s: &str) -> (r: String)
    ensures
        r@ == shown_text(s@),
{
    if chars_of(s).len() == 0 {
        missing_marker()
    } else {
        s.to_owned()
    }
}

/// The source named in a row of the plan (see `source_label_of`).
pub fn source_label(kind: SourceKind) -> (r: String)
    ensures
        r@ == source_label_of(kind),
{
    match kind {
        SourceKind::Restock => {
            let s = "Restock";
            proof {
                reveal_strlit("Restock");
            }
            assert(s@ =~= restock_word());
            s.to_owned()
        },
        SourceKind::OrderForm => {
            let s = "Order Form";
            proof {
                reveal_strlit("Order Form");
            }
            assert(s@ =~= order_form_word());
            s.to_owned()
        },
        SourceKind::Unmatched => missing_marker(),
    }
}
} // verus!
