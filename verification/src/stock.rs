//! Reading the marketplace stock report: locating its columns, totalling a
//! row and keeping the last total of each SKU.
use vstd::prelude::*;
use crate::columns::views;
use crate::text::{chars_eq, chars_of, copy_str, find_chars, lowercase, string_of, text_eq, to_lower, trim, trimmed};

verus! {

/// Columns of the stock report.
pub struct StockColumns {
    /// The SKU column.
    pub sku: usize,
    /// The column of the total units.
    pub qty: usize,
    /// Positions of the headers that name the parts of the stock.
    pub parts: Vec<usize>,
}

/// The lower-case names of the parts whose sum is the stock.
pub open spec fn part_names() -> Seq<Seq<char>> {
    seq![
        seq!['a', 'v', 'a', 'i', 'l', 'a', 'b', 'l', 'e'],
        seq!['f', 'c', ' ', 't', 'r', 'a', 'n', 's', 'f', 'e', 'r'],
        seq!['f', 'c', ' ', 'p', 'r', 'o', 'c', 'e', 's', 's', 'i', 'n', 'g'],
        seq!['u', 'n', 'f', 'u', 'l', 'f', 'i', 'l', 'l', 'a', 'b', 'l', 'e'],
        seq!['s', 'h', 'i', 'p', 'p', 'e', 'd'],
        seq!['r', 'e', 'c', 'e', 'i', 'v', 'i', 'n', 'g'],
    ]
}

/// "merchant sku".
pub open spec fn w_merchant_sku() -> Seq<char> {
    seq!['m', 'e', 'r', 'c', 'h', 'a', 'n', 't', ' ', 's', 'k', 'u']
}

/// "sku".
pub open spec fn w_sku() -> Seq<char> {
    seq!['s', 'k', 'u']
}

/// "total units".
pub open spec fn w_total_units() -> Seq<char> {
    seq!['t', 'o', 't', 'a', 'l', ' ', 'u', 'n', 'i', 't', 's']
}

/// "qty".
pub open spec fn w_qty() -> Seq<char> {
    seq!['q', 't', 'y']
}

/// "nan".
pub open spec fn w_nan() -> Seq<char> {
    seq!['n', 'a', 'n']
}

/// The normalised header: trimmed, then lower-cased.
pub open spec fn header_key(h: Seq<char>) -> Seq<char> {
    lowercase(trimmed(h))
}

/// The SKU column among the first `n` headers: the last one named
/// "merchant sku" or "sku", else the first column.
pub open spec fn sku_column(keys: Seq<Seq<char>>, n: int) -> int
    decreases n,
{
    if n <= 0 {
        0
    } else if keys[n - 1] == w_merchant_sku() || keys[n - 1] == w_sku() {
        n - 1
    } else {
        sku_column(keys, n - 1)
    }
}

/// The total column among the first `n` headers: the last one named "total
/// units" or "qty" that is not a SKU header, else the second column.
pub open spec fn qty_column(keys: Seq<Seq<char>>, n: int) -> int
    decreases n,
{
    if n <= 0 {
        1
    } else if keys[n - 1] != w_merchant_sku() && keys[n - 1] != w_sku() && (keys[n - 1]
        == w_total_units() || keys[n - 1] == w_qty()) {
        n - 1
    } else {
        qty_column(keys, n - 1)
    }
}

/// Positions among the first `n` headers that name a part of the stock.
pub open spec fn part_columns(keys: Seq<Seq<char>>, n: int) -> Seq<int>
    decreases n,
{
    if n <= 0 {
        Seq::empty()
    } else if part_names().contains(keys[n - 1]) {
        part_columns(keys, n - 1).push(n - 1)
    } else {
        part_columns(keys, n - 1)
    }
}

/// The stock of a row: the sum of the part columns when every part name
/// was found (as many part columns as part names), else the total column;
/// a missing cell counts as nothing.
pub open spec fn row_total_of(values: Seq<i32>, sku: int, qty: int, parts: Seq<int>) -> int {
    if parts.len() == 6 {
        parts_sum(values, parts, parts.len() as int)
    } else if 0 <= qty < values.len() {
        values[qty] as int
    } else {
        0
    }
}

/// Sum of the values at the first `n` part positions (missing cells count
/// as nothing).
pub open spec fn parts_sum(values: Seq<i32>, parts: Seq<int>, n: int) -> int
    decreases n,
{
    if n <= 0 {
        0
    } else {
        parts_sum(values, parts, n - 1) + (if 0 <= parts[n - 1] < values.len() {
            values[parts[n - 1]] as int
        } else {
            0
        })
    }
}

/// The running sums of a formula row fit in an `i32`.
pub open spec fn parts_sums_fit(values: Seq<i32>, parts: Seq<int>) -> bool {
    forall|n: int| 0 <= n <= parts.len() ==> i32::MIN <= #[trigger] parts_sum(values, parts, n) <= i32::MAX
}

/// A stock row is kept when its SKU is present, not blank and not "nan"
/// in any case.
pub open spec fn sku_kept(sku: Option<Seq<char>>) -> bool {
    match sku {
        Some(s) => trimmed(s).len() > 0 && lowercase(trimmed(s)) != w_nan(),
        None => false,
    }
}

/// The total of the last kept row of SKU `k` among the first `n` rows.
pub open spec fn last_total(
    skus: Seq<Option<Seq<char>>>,
    totals: Seq<int>,
    k: Seq<char>,
    n: int,
) -> Option<int>
    decreases n,
{
    if n <= 0 {
        None
    } else if sku_kept(skus[n - 1]) && trimmed(skus[n - 1]->0) == k {
        Some(totals[n - 1])
    } else {
        last_total(skus, totals, k, n - 1)
    }
}

pub(crate) fn word(s: &str, Ghost(w): Ghost<Seq<char>>) -> (r: String)
    requires
        s@ == w,
    ensures
        r@ == w,
{
    copy_str(s)
}

pub(crate) fn text_sku() -> (r: String)
    ensures
        r@ == w_sku(),
{
    let s = "sku";
    proof {
        reveal_strlit("sku");
    }
    assert(s@ =~= w_sku());
    word(s, Ghost(w_sku()))
}

pub(crate) fn text_qty() -> (r: String)
    ensures
        r@ == w_qty(),
{
    let s = "qty";
    proof {
        reveal_strlit("qty");
    }
    assert(s@ =~= w_qty());
    word(s, Ghost(w_qty()))
}

pub(crate) fn text_nan() -> (r: String)
    ensures
        r@ == w_nan(),
{
    let s = "nan";
    proof {
        reveal_strlit("nan");
    }
    assert(s@ =~= w_nan());
    word(s, Ghost(w_nan()))
}

fn text_merchant_sku() -> (r: String)
    ensures
        r@ == w_merchant_sku(),
{
    let s = "merchant sku";
    proof {
        reveal_strlit("merchant sku");
    }
    assert(s@ =~= w_merchant_sku());
    word(s, Ghost(w_merchant_sku()))
}

fn text_total_units() -> (r: String)
    ensures
        r@ == w_total_units(),
{
    let s = "total units";
    proof {
        reveal_strlit("total units");
    }
    assert(s@ =~= w_total_units());
    word(s, Ghost(w_total_units()))
}

fn part_name_texts() -> (r: Vec<String>)
    ensures
        views(r@) == part_names(),
{
    let mut v: Vec<String> = Vec::new();
    let w0 = {
        let s = "available";
        proof {
            reveal_strlit("available");
        }
        assert(s@ =~= part_names()[0]);
        word(s, Ghost(part_names()[0]))
    };
    v.push(w0);
    let w1 = {
        let s = "fc transfer";
        proof {
            reveal_strlit("fc transfer");
        }
        assert(s@ =~= part_names()[1]);
        word(s, Ghost(part_names()[1]))
    };
    v.push(w1);
    let w2 = {
        let s = "fc processing";
        proof {
            reveal_strlit("fc processing");
        }
        assert(s@ =~= part_names()[2]);
        word(s, Ghost(part_names()[2]))
    };
    v.push(w2);
    let w3 = {
        let s = "unfulfillable";
        proof {
            reveal_strlit("unfulfillable");
        }
        assert(s@ =~= part_names()[3]);
        word(s, Ghost(part_names()[3]))
    };
    v.push(w3);
    let w4 = {
        let s = "shipped";
        proof {
            reveal_strlit("shipped");
        }
        assert(s@ =~= part_names()[4]);
        word(s, Ghost(part_names()[4]))
    };
    v.push(w4);
    let w5 = {
        let s = "receiving";
        proof {
            reveal_strlit("receiving");
        }
        assert(s@ =~= part_names()[5]);
        word(s, Ghost(part_names()[5]))
    };
    v.push(w5);
    assert(views(v@) =~= part_names());
    v
}

/// Whether a normalised header is one of the part names.
fn is_part_name(names: &Vec<String>, key: &str) -> (r: bool)
    requires
        views(names@) == part_names(),
    ensures
        r == part_names().contains(key@),
{
    match crate::text::position_of(names, key) {
        Some(j) => {
            assert(part_names()[j as int] == key@);
            true
        },
        None => {
            proof {
                if part_names().contains(key@) {
                    let j = choose|j: int| 0 <= j < part_names().len() && part_names()[j] == key@;
                    assert(names@[j]@ == key@);
                }
            }
            false
        },
    }
}

/// Appends a column position.
fn push_position(parts: &mut Vec<usize>, i: usize)
    ensures
        final(parts)@.map_values(|p: usize| p as int) == old(parts)@.map_values(|p: usize| p as int).push(i as int),
{
    parts.push(i);
    assert(final(parts)@.map_values(|p: usize| p as int) =~= old(parts)@.map_values(|p: usize| p as int).push(i as int));
}

/// The normalised header keys (trimmed, lower-cased) of header cells.
pub open spec fn header_keys(headers: Seq<Seq<char>>) -> Seq<Seq<char>> {
    headers.map_values(|h: Seq<char>| header_key(h))
}

/// Locates the columns of the stock report from its normalised header keys
/// (see `sku_column`, `qty_column` and `part_columns`).
pub fn stock_columns_of_keys(keys: &Vec<String>) -> (r: StockColumns)
    ensures
        r.sku == sku_column(views(keys@), keys.len() as int),
        r.qty == qty_column(views(keys@), keys.len() as int),
        r.parts@.map_values(|p: usize| p as int) == part_columns(views(keys@), keys.len() as int),
{
    let ghost ks = views(keys@);
    let merchant = text_merchant_sku();
    let sku_w = text_sku();
    let total_w = text_total_units();
    let qty_w = text_qty();
    let names = part_name_texts();
    let mut sku: usize = 0;
    let mut qty: usize = 1;
    let mut parts: Vec<usize> = Vec::new();
    let mut i: usize = 0;
    assert(parts@.map_values(|p: usize| p as int) =~= Seq::<int>::empty());
    while i < keys.len()
        invariant
            i <= keys.len(),
            ks == views(keys@),
            merchant@ == w_merchant_sku(),
            sku_w@ == w_sku(),
            total_w@ == w_total_units(),
            qty_w@ == w_qty(),
            views(names@) == part_names(),
            sku as int == sku_column(ks, i as int),
            qty as int == qty_column(ks, i as int),
            parts@.map_values(|p: usize| p as int) == part_columns(ks, i as int),
        decreases keys.len() - i,
    {
        let key = keys[i].as_str();
        assert(ks[i as int] == key@);
        let names_sku = text_eq(key, merchant.as_str()) || text_eq(key, sku_w.as_str());
        let names_qty = text_eq(key, total_w.as_str()) || text_eq(key, qty_w.as_str());
        if names_sku {
            sku = i;
        } else if names_qty {
            qty = i;
        }
        if is_part_name(&names, key) {
            push_position(&mut parts, i);
        }
        i = i + 1;
    }
    StockColumns { sku, qty, parts }
}

/// Locates the columns of the stock report from its header cells: their
/// keys are the trimmed, lower-cased headers.
pub fn stock_columns(headers: &Vec<String>) -> (r: StockColumns)
    ensures
        r.sku == sku_column(header_keys(views(headers@)), headers.len() as int),
        r.qty == qty_column(header_keys(views(headers@)), headers.len() as int),
        r.parts@.map_values(|p: usize| p as int) == part_columns(header_keys(views(headers@)), headers.len() as int),
{
    let mut keys: Vec<String> = Vec::new();
    let mut i: usize = 0;
    while i < headers.len()
        invariant
            i <= headers.len(),
            views(keys@) == header_keys(views(headers@)).take(i as int),
        decreases headers.len() - i,
    {
        let t = trim(headers[i].as_str());
        let key = to_lower(t.as_str());
        let ghost before = views(keys@);
        keys.push(key);
        assert(views(keys@) =~= before.push(header_key(headers@[i as int]@)));
        assert(header_keys(views(headers@)).take(i + 1) =~= header_keys(views(headers@)).take(i as int).push(
            header_key(headers@[i as int]@),
        ));
        i = i + 1;
    }
    assert(header_keys(views(headers@)).take(headers.len() as int) =~= header_keys(views(headers@)));
    stock_columns_of_keys(&keys)
}

/// The stock of a row from its cell values (see `row_total_of`).
pub fn row_total(values: &Vec<i32>, cols: &StockColumns) -> (r: i32)
    requires
        cols.parts.len() == 6 ==> parts_sums_fit(values@, cols.parts@.map_values(|p: usize| p as int)),
    ensures
        r == row_total_of(values@, cols.sku as int, cols.qty as int, cols.parts@.map_values(|p: usize| p as int)),
{
    let ghost ps = cols.parts@.map_values(|p: usize| p as int);
    if cols.parts.len() == 6 {
        let mut total: i32 = 0;
        let mut k: usize = 0;
        while k < cols.parts.len()
            invariant
                k <= cols.parts.len(),
                cols.parts.len() == 6,
                ps == cols.parts@.map_values(|p: usize| p as int),
                parts_sums_fit(values@, ps),
                total == parts_sum(values@, ps, k as int),
            decreases cols.parts.len() - k,
        {
            let p = cols.parts[k];
            proof {
                assert(ps[k as int] == p as int);
                assert(i32::MIN <= parts_sum(values@, ps, k + 1) <= i32::MAX);
            }
            if p < values.len() {
                total = total + values[p];
            }
            k = k + 1;
        }
        total
    } else if cols.qty < values.len() {
        values[cols.qty]
    } else {
        0
    }
}

/// Whether a stock row's SKU cell is kept (see `sku_kept`); the trimmed SKU
/// when it is.
pub fn kept_sku(sku: &Option<String>) -> (r: Option<String>)
    ensures
        r is Some <==> sku_kept(sku_view(*sku)),
        r matches Some(s) ==> s@ == trimmed(sku_view(*sku)->0),
{
    match sku {
        None => None,
        Some(s) => {
            let t = trim(s.as_str());
            let low = to_lower(t.as_str());
            let nan = {
        let s = "nan";
        proof {
            reveal_strlit("nan");
        }
        assert(s@ =~= w_nan());
        word(s, Ghost(w_nan()))
    };
            if chars_of(t.as_str()).len() == 0 || text_eq(low.as_str(), nan.as_str()) {
                None
            } else {
                Some(t)
            }
        },
    }
}

/// The view of an optional SKU cell.
pub open spec fn sku_view(o: Option<String>) -> Option<Seq<char>> {
    match o {
        Some(s) => Some(s@),
        None => None,
    }
}

/// The views of optional SKU cells.
pub open spec fn sku_views(skus: Seq<Option<String>>) -> Seq<Option<Seq<char>>> {
    skus.map_values(|o: Option<String>| sku_view(o))
}

/// Totals as integers.
pub open spec fn total_views(totals: Seq<i32>) -> Seq<int> {
    totals.map_values(|t: i32| t as int)
}

/// The stock table: each kept SKU once, with the total of its last row.
/// `totals[i]` is the total of row `i`.
pub fn stock_table(skus: &Vec<Option<String>>, totals: &Vec<i32>) -> (r: Vec<(String, i32)>)
    requires
        skus.len() == totals.len(),
    ensures
        forall|a: int, b: int| 0 <= a < b < r.len() ==> r@[a].0@ != r@[b].0@,
        forall|a: int|
            0 <= a < r.len() ==> last_total(
                sku_views(skus@),
                total_views(totals@),
                (#[trigger] r@[a]).0@,
                skus.len() as int,
            ) == Some(r@[a].1 as int),
        forall|k: Seq<char>|
            (forall|a: int| 0 <= a < r.len() ==> r@[a].0@ != k) ==> last_total(
                sku_views(skus@),
                total_views(totals@),
                k,
                skus.len() as int,
            ) is None,
{
    let ghost sv = sku_views(skus@);
    let ghost tv = total_views(totals@);
    let mut keys: Vec<Vec<char>> = Vec::new();
    let mut vals: Vec<i32> = Vec::new();
    let mut i: usize = 0;
    while i < skus.len()
        invariant
            i <= skus.len(),
            skus.len() == totals.len(),
            sv == sku_views(skus@),
            tv == total_views(totals@),
            keys.len() == vals.len(),
            forall|a: int, b: int| 0 <= a < b < keys.len() ==> keys@[a]@ != keys@[b]@,
            forall|a: int| 0 <= a < keys.len() ==> last_total(sv, tv, (#[trigger] keys@[a])@, i as int) == Some(vals@[a] as int),
            forall|k: Seq<char>|
                (forall|a: int| 0 <= a < keys.len() ==> keys@[a]@ != k) ==> last_total(sv, tv, k, i as int) is None,
        decreases skus.len() - i,
    {
        let ghost n1 = i + 1;
        proof {
            assert(sv[i as int] == sku_view(skus@[i as int]));
            assert(tv[i as int] == totals@[i as int] as int);
        }
        match kept_sku(&skus[i]) {
            None => {
                proof {
                    assert forall|a: int| 0 <= a < keys.len() implies last_total(sv, tv, (#[trigger] keys@[a])@, n1) == Some(vals@[a] as int) by {}
                    assert forall|k: Seq<char>|
                        (forall|a: int| 0 <= a < keys.len() ==> keys@[a]@ != k) implies last_total(sv, tv, k, n1) is None by {
                        assert(last_total(sv, tv, k, i as int) is None);
                    }
                }
            },
            Some(t) => {
                let tc = chars_of(t.as_str());
                match find_chars(&keys, &tc) {
                    Some(a) => {
                        vals.set(a, totals[i]);
                        proof {
                            assert forall|b: int| 0 <= b < keys.len() implies last_total(sv, tv, (#[trigger] keys@[b])@, n1) == Some(vals@[b] as int) by {
                                if b != a {
                                    assert(keys@[b]@ != tc@);
                                }
                            }
                            assert forall|k: Seq<char>|
                                (forall|b: int| 0 <= b < keys.len() ==> keys@[b]@ != k) implies last_total(sv, tv, k, n1) is None by {
                                assert(keys@[a as int]@ != k);
                                assert(last_total(sv, tv, k, i as int) is None);
                            }
                        }
                    },
                    None => {
                        let ghost old_keys = keys@;
                        keys.push(tc);
                        vals.push(totals[i]);
                        proof {
                            assert forall|b: int| 0 <= b < keys.len() implies last_total(sv, tv, (#[trigger] keys@[b])@, n1) == Some(vals@[b] as int) by {
                                if b < old_keys.len() {
                                    assert(keys@[b] == old_keys[b]);
                                    assert(old_keys[b]@ != tc@);
                                }
                            }
                            assert forall|k: Seq<char>|
                                (forall|b: int| 0 <= b < keys.len() ==> keys@[b]@ != k) implies last_total(sv, tv, k, n1) is None by {
                                assert forall|b: int| 0 <= b < old_keys.len() implies old_keys[b]@ != k by {
                                    assert(keys@[b] == old_keys[b]);
                                }
                                assert(keys@[old_keys.len() as int]@ != k);
                                assert(last_total(sv, tv, k, i as int) is None);
                            }
                            assert forall|c: int, d: int| 0 <= c < d < keys.len() implies keys@[c]@ != keys@[d]@ by {
                                assert(keys@[c] == old_keys[c]);
                                if d < old_keys.len() {
                                    assert(keys@[d] == old_keys[d]);
                                }
                            }
                        }
                    },
                }
            },
        }
        i = i + 1;
    }
    let mut out: Vec<(String, i32)> = Vec::new();
    let mut a: usize = 0;
    while a < keys.len()
        invariant
            a <= keys.len(),
            keys.len() == vals.len(),
            out.len() == a,
            forall|b: int| 0 <= b < a ==> (#[trigger] out@[b]).0@ == keys@[b]@ && out@[b].1 == vals@[b],
            forall|c: int, d: int| 0 <= c < d < keys.len() ==> keys@[c]@ != keys@[d]@,
            forall|c: int| 0 <= c < keys.len() ==> last_total(sv, tv, (#[trigger] keys@[c])@, skus.len() as int) == Some(vals@[c] as int),
            forall|k: Seq<char>|
                (forall|c: int| 0 <= c < keys.len() ==> keys@[c]@ != k) ==> last_total(sv, tv, k, skus.len() as int) is None,
        decreases keys.len() - a,
    {
        out.push((string_of(&keys[a]), vals[a]));
        a = a + 1;
    }
    proof {
        assert forall|k: Seq<char>|
            (forall|b: int| 0 <= b < out.len() ==> out@[b].0@ != k) implies last_total(sv, tv, k, skus.len() as int) is None by {
            assert forall|c: int| 0 <= c < keys.len() implies keys@[c]@ != k by {
                assert(out@[c].0@ == keys@[c]@);
            }
        }
    }
    out
}

} // verus!
