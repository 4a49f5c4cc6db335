//! Future prices: extending a restock sheet with the prices that a future
//! price sheet gives for the same ASIN.
use vstd::prelude::*;
use crate::columns::views;
use crate::shipment::{cell, cell_at, missing_mark, missing_marker};
use crate::text::{
    chars_eq, chars_of, copy_str, ends_with, lowercase, position_of, first_index_of, text_ends_with,
    text_eq, to_lower, trim, trimmed, as_int_option,
};

verus! {

// ---------------------------------------------------------------------------
// Words
// ---------------------------------------------------------------------------

/// " price".
pub open spec fn w_price_suffix() -> Seq<char> {
    seq![' ', 'p', 'r', 'i', 'c', 'e']
}

/// "future price".
pub open spec fn w_future_price_lower() -> Seq<char> {
    seq!['f', 'u', 't', 'u', 'r', 'e', ' ', 'p', 'r', 'i', 'c', 'e']
}

/// "Price".
pub open spec fn w_price() -> Seq<char> {
    seq!['P', 'r', 'i', 'c', 'e']
}

/// "Maliyet" (cost).
pub open spec fn w_cost() -> Seq<char> {
    seq!['M', 'a', 'l', 'i', 'y', 'e', 't']
}

/// "Future " (prefix of the added headers).
pub open spec fn w_future() -> Seq<char> {
    seq!['F', 'u', 't', 'u', 'r', 'e', ' ']
}

/// " future price".
pub open spec fn w_future_price_suffix() -> Seq<char> {
    seq![' ', 'f', 'u', 't', 'u', 'r', 'e', ' ', 'p', 'r', 'i', 'c', 'e']
}

fn text_price_suffix() -> (r: String)
    ensures
        r@ == w_price_suffix(),
{
    let s = " price";
    proof {
        reveal_strlit(" price");
    }
    assert(s@ =~= w_price_suffix());
    copy_str(s)
}

fn text_future_price_lower() -> (r: String)
    ensures
        r@ == w_future_price_lower(),
{
    let s = "future price";
    proof {
        reveal_strlit("future price");
    }
    assert(s@ =~= w_future_price_lower());
    copy_str(s)
}

fn text_price() -> (r: String)
    ensures
        r@ == w_price(),
{
    let s = "Price";
    proof {
        reveal_strlit("Price");
    }
    assert(s@ =~= w_price());
    copy_str(s)
}

fn text_cost() -> (r: String)
    ensures
        r@ == w_cost(),
{
    let s = "Maliyet";
    proof {
        reveal_strlit("Maliyet");
    }
    assert(s@ =~= w_cost());
    copy_str(s)
}

fn text_future() -> (r: String)
    ensures
        r@ == w_future(),
{
    let s = "Future ";
    proof {
        reveal_strlit("Future ");
    }
    assert(s@ =~= w_future());
    copy_str(s)
}

fn text_future_price_suffix() -> (r: String)
    ensures
        r@ == w_future_price_suffix(),
{
    let s = " future price";
    proof {
        reveal_strlit(" future price");
    }
    assert(s@ =~= w_future_price_suffix());
    copy_str(s)
}

// ---------------------------------------------------------------------------
// Specification
// ---------------------------------------------------------------------------

/// The text without its last six characters.
pub open spec fn without_last_six(h: Seq<char>) -> Seq<char> {
    if h.len() >= 6 {
        h.take(h.len() - 6)
    } else {
        Seq::empty()
    }
}

/// The supplier named by a "<supplier> price" header (in any case), other
/// than the "future price" header.
pub open spec fn price_supplier(h: Seq<char>) -> Option<Seq<char>> {
    let hl = lowercase(h);
    if ends_with(hl, w_price_suffix()) && hl != w_future_price_lower() {
        Some(trimmed(without_last_six(h)))
    } else {
        None
    }
}

/// Suppliers of the future sheet, keyed by their lower-cased name; a later
/// header of the same key replaces an earlier one.
pub open spec fn future_supplier(f_headers: Seq<Seq<char>>, key: Seq<char>) -> Option<Seq<char>>
    decreases f_headers.len(),
{
    if f_headers.len() == 0 {
        None
    } else {
        match price_supplier(f_headers.last()) {
            Some(sup) => if lowercase(sup) == key {
                Some(sup)
            } else {
                future_supplier(f_headers.drop_last(), key)
            },
            None => future_supplier(f_headers.drop_last(), key),
        }
    }
}

/// Suppliers of the restock sheet (in header order, repeats kept) that the
/// future sheet also prices.
pub open spec fn shared_suppliers(r_headers: Seq<Seq<char>>, f_headers: Seq<Seq<char>>) -> Seq<Seq<char>>
    decreases r_headers.len(),
{
    if r_headers.len() == 0 {
        Seq::empty()
    } else {
        let rest = shared_suppliers(r_headers.drop_last(), f_headers);
        match price_supplier(r_headers.last()) {
            Some(sup) => if future_supplier(f_headers, lowercase(sup)) is Some {
                rest.push(sup)
            } else {
                rest
            },
            None => rest,
        }
    }
}

/// Columns added after restock header `h`, as pairs of the added header and
/// the future-sheet column that fills it, for the suppliers `sups[..n]`.
pub open spec fn supplier_columns(
    h: Seq<char>,
    sups: Seq<Seq<char>>,
    f_headers: Seq<Seq<char>>,
    n: int,
) -> Seq<(Seq<char>, Seq<char>)>
    decreases n,
{
    if n <= 0 {
        Seq::empty()
    } else {
        let rest = supplier_columns(h, sups, f_headers, n - 1);
        let r_sup = sups[n - 1];
        if h == r_sup + w_price_suffix() {
            match future_supplier(f_headers, lowercase(r_sup)) {
                Some(f_sup) => if f_headers.contains(f_sup + w_price_suffix()) {
                    rest.push((r_sup + w_future_price_suffix(), f_sup + w_price_suffix()))
                } else {
                    rest
                },
                None => rest,
            }
        } else {
            rest
        }
    }
}

/// Columns added after restock header `h`.
#[verifier::opaque]
pub open spec fn added_columns(h: Seq<char>, r_headers: Seq<Seq<char>>, f_headers: Seq<Seq<char>>) -> Seq<
    (Seq<char>, Seq<char>),
> {
    if h == w_price() && f_headers.contains(w_price()) {
        seq![(w_future() + w_price(), w_price())]
    } else if h == w_cost() && f_headers.contains(w_cost()) {
        seq![(w_future() + w_cost(), w_cost())]
    } else {
        let sups = shared_suppliers(r_headers, f_headers);
        supplier_columns(h, sups, f_headers, sups.len() as int)
    }
}

/// Headers of the extended sheet for the first `n` restock headers: each
/// restock header followed by its added columns.
pub open spec fn extended_headers(r_headers: Seq<Seq<char>>, f_headers: Seq<Seq<char>>, n: int) -> Seq<Seq<char>>
    decreases n,
{
    if n <= 0 {
        Seq::empty()
    } else {
        let h = r_headers[n - 1];
        extended_headers(r_headers, f_headers, n - 1) + seq![h] + added_columns(h, r_headers, f_headers).map_values(
            |p: (Seq<char>, Seq<char>)| p.0,
        )
    }
}

/// The value that the future sheet gives to column `col` for `asin`: from
/// the last future row of that (non-empty) ASIN, the cell under the last
/// header named `col`.
pub open spec fn future_value(
    f_headers: Seq<Seq<char>>,
    f_rows: Seq<Seq<String>>,
    asin_col: int,
    asin: Seq<char>,
    col: Seq<char>,
) -> Option<Seq<char>>
    decreases f_rows.len(),
{
    if f_rows.len() == 0 || asin.len() == 0 {
        None
    } else if cell_at(f_rows.last(), asin_col) == asin {
        row_value(f_headers, f_rows.last(), col, f_rows.last().len() as int)
    } else {
        future_value(f_headers, f_rows.drop_last(), asin_col, asin, col)
    }
}

/// The cell under the last of the first `n` headers named `col`.
pub open spec fn row_value(f_headers: Seq<Seq<char>>, row: Seq<String>, col: Seq<char>, n: int) -> Option<Seq<char>>
    decreases n,
{
    if n <= 0 {
        None
    } else if f_headers[n - 1] == col {
        Some(row[n - 1]@)
    } else {
        row_value(f_headers, row, col, n - 1)
    }
}

/// The extended cells of a restock row for the first `n` restock headers:
/// under each header the row's cell of the first header of that name, then
/// the future values of its added columns, or the missing marker.
#[verifier::opaque]
pub open spec fn extended_row(
    r_headers: Seq<Seq<char>>,
    f_headers: Seq<Seq<char>>,
    f_rows: Seq<Seq<String>>,
    f_asin_col: int,
    row: Seq<String>,
    r_asin_col: int,
    n: int,
) -> Seq<Seq<char>>
    decreases n,
{
    if n <= 0 {
        Seq::empty()
    } else {
        let h = r_headers[n - 1];
        let asin = cell_at(row, r_asin_col);
        let first = first_index_of(r_headers, h).unwrap();
        extended_row(r_headers, f_headers, f_rows, f_asin_col, row, r_asin_col, n - 1) + seq![
            cell_at(row, first),
        ] + added_columns(h, r_headers, f_headers).map_values(
            |p: (Seq<char>, Seq<char>)| future_or_missing(f_headers, f_rows, f_asin_col, asin, p.1),
        )
    }
}

/// The future value of a column, or the missing marker.
pub open spec fn future_or_missing(
    f_headers: Seq<Seq<char>>,
    f_rows: Seq<Seq<String>>,
    asin_col: int,
    asin: Seq<char>,
    col: Seq<char>,
) -> Seq<char> {
    match future_value(f_headers, f_rows, asin_col, asin, col) {
        Some(v) => v,
        None => missing_mark(),
    }
}

/// Every future row is at most as long as the header row.
pub open spec fn rows_fit(f_headers: Seq<Seq<char>>, f_rows: Seq<Seq<String>>) -> bool {
    forall|k: int| 0 <= k < f_rows.len() ==> (#[trigger] f_rows[k]).len() <= f_headers.len()
}

// ---------------------------------------------------------------------------
// Laws
// ---------------------------------------------------------------------------

/// Shape law: every extended row has exactly as many cells as the extended
/// header row.
pub proof fn law_extended_row_matches_headers(
    r_headers: Seq<Seq<char>>,
    f_headers: Seq<Seq<char>>,
    f_rows: Seq<Seq<String>>,
    f_asin_col: int,
    row: Seq<String>,
    r_asin_col: int,
    n: int,
)
    ensures
        extended_row(r_headers, f_headers, f_rows, f_asin_col, row, r_asin_col, n).len()
            == extended_headers(r_headers, f_headers, n).len(),
    decreases n,
{
    reveal_with_fuel(extended_row, 1);
    if n > 0 {
        law_extended_row_matches_headers(r_headers, f_headers, f_rows, f_asin_col, row, r_asin_col, n - 1);
    }
}

// ---------------------------------------------------------------------------
// Executable code
// ---------------------------------------------------------------------------

/// The supplier named by a "<supplier> price" header (see `price_supplier`).
pub fn supplier_of_header(h: &str) -> (r: Option<String>)
    ensures
        match r {
            Some(s) => price_supplier(h@) == Some(s@),
            None => price_supplier(h@) is None,
        },
{
    let hl = to_lower(h);
    let suffix = text_price_suffix();
    let fut = text_future_price_lower();
    if text_ends_with(hl.as_str(), suffix.as_str()) && !text_eq(hl.as_str(), fut.as_str()) {
        let v = chars_of(h);
        let end = if v.len() >= 6 { v.len() - 6 } else { 0 };
        let head = crate::text::string_of_range(&v, 0, end);
        proof {
            assert(v@.subrange(0, end as int) =~= without_last_six(h@));
        }
        Some(trim(head.as_str()))
    } else {
        None
    }
}

/// The future supplier of a lower-cased key (see `future_supplier`).
pub fn future_supplier_of(f_headers: &Vec<String>, key: &str) -> (r: Option<String>)
    ensures
        match r {
            Some(s) => future_supplier(views(f_headers@), key@) == Some(s@),
            None => future_supplier(views(f_headers@), key@) is None,
        },
{
    let ghost hv = views(f_headers@);
    let mut i: usize = f_headers.len();
    assert(hv.take(i as int) =~= hv);
    while i > 0
        invariant
            i <= f_headers.len(),
            hv == views(f_headers@),
            future_supplier(hv, key@) == future_supplier(hv.take(i as int), key@),
        decreases i,
    {
        proof {
            assert(hv.take(i as int).drop_last() =~= hv.take(i - 1));
            assert(hv.take(i as int).last() == f_headers@[i - 1]@);
        }
        match supplier_of_header(f_headers[i - 1].as_str()) {
            Some(sup) => {
                let low = to_lower(sup.as_str());
                if text_eq(low.as_str(), key) {
                    return Some(sup);
                }
            },
            None => {},
        }
        i = i - 1;
    }
    assert(hv.take(0) =~= Seq::<Seq<char>>::empty());
    None
}

/// Restock suppliers that the future sheet also prices (see
/// `shared_suppliers`).
pub fn shared_supplier_list(r_headers: &Vec<String>, f_headers: &Vec<String>) -> (r: Vec<String>)
    ensures
        views(r@) == shared_suppliers(views(r_headers@), views(f_headers@)),
{
    let ghost rv = views(r_headers@);
    let mut out: Vec<String> = Vec::new();
    let mut i: usize = 0;
    while i < r_headers.len()
        invariant
            i <= r_headers.len(),
            rv == views(r_headers@),
            views(out@) == shared_suppliers(rv.take(i as int), views(f_headers@)),
        decreases r_headers.len() - i,
    {
        proof {
            assert(rv.take(i + 1).drop_last() =~= rv.take(i as int));
            assert(rv.take(i + 1).last() == r_headers@[i as int]@);
        }
        match supplier_of_header(r_headers[i].as_str()) {
            Some(sup) => {
                let low = to_lower(sup.as_str());
                if future_supplier_of(f_headers, low.as_str()).is_some() {
                    let ghost before = out@;
                    out.push(sup);
                    assert(views(out@) =~= views(before).push(sup@));
                }
            },
            None => {},
        }
        i = i + 1;
    }
    assert(rv.take(r_headers.len() as int) =~= rv);
    out
}

fn contains_text_in(list: &Vec<String>, x: &str) -> (r: bool)
    ensures
        r == views(list@).contains(x@),
{
    match position_of(list, x) {
        Some(i) => {
            proof {
                assert(views(list@)[i as int] == x@);
            }
            true
        },
        None => {
            proof {
                if views(list@).contains(x@) {
                    let k = choose|k: int| 0 <= k < views(list@).len() && views(list@)[k] == x@;
                    assert(list@[k]@ == x@);
                }
            }
            false
        },
    }
}

fn concat(a: &str, b: &str) -> (r: String)
    ensures
        r@ == a@ + b@,
{
    let mut s = copy_str(a);
    s.append(b);
    s
}

/// The columns added after restock header `h` (see `added_columns`).
pub fn added_columns_of(
    h: &str,
    r_headers: &Vec<String>,
    f_headers: &Vec<String>,
    shared: &Vec<String>,
) -> (r: Vec<(String, String)>)
    requires
        views(shared@) == shared_suppliers(views(r_headers@), views(f_headers@)),
    ensures
        r@.map_values(|p: (String, String)| (p.0@, p.1@)) == added_columns(h@, views(r_headers@), views(f_headers@)),
{
    reveal(added_columns);
    let price = text_price();
    let cost = text_cost();
    let mut out: Vec<(String, String)> = Vec::new();
    if text_eq(h, price.as_str()) && contains_text_in(f_headers, price.as_str()) {
        let fut = text_future();
        out.push((concat(fut.as_str(), price.as_str()), price));
        assert(out@.map_values(|p: (String, String)| (p.0@, p.1@)) =~= seq![(w_future() + w_price(), w_price())]);
        return out;
    }
    if text_eq(h, cost.as_str()) && contains_text_in(f_headers, cost.as_str()) {
        let fut = text_future();
        out.push((concat(fut.as_str(), cost.as_str()), cost));
        assert(out@.map_values(|p: (String, String)| (p.0@, p.1@)) =~= seq![(w_future() + w_cost(), w_cost())]);
        return out;
    }
    let suffix = text_price_suffix();
    let fsuffix = text_future_price_suffix();
    let ghost sv = views(shared@);
    let mut k: usize = 0;
    while k < shared.len()
        invariant
            k <= shared.len(),
            sv == views(shared@),
            suffix@ == w_price_suffix(),
            fsuffix@ == w_future_price_suffix(),
            out@.map_values(|p: (String, String)| (p.0@, p.1@)) == supplier_columns(h@, sv, views(f_headers@), k as int),
        decreases shared.len() - k,
    {
        let r_sup = &shared[k];
        proof {
            assert(sv[k as int] == r_sup@);
        }
        let named = concat(r_sup.as_str(), suffix.as_str());
        if text_eq(h, named.as_str()) {
            let low = to_lower(r_sup.as_str());
            match future_supplier_of(f_headers, low.as_str()) {
                Some(f_sup) => {
                    let f_col = concat(f_sup.as_str(), suffix.as_str());
                    if contains_text_in(f_headers, f_col.as_str()) {
                        let added = concat(r_sup.as_str(), fsuffix.as_str());
                        let ghost before = out@;
                        out.push((added, f_col));
                        assert(out@.map_values(|p: (String, String)| (p.0@, p.1@)) =~= before.map_values(
                            |p: (String, String)| (p.0@, p.1@),
                        ).push((r_sup@ + w_future_price_suffix(), f_sup@ + w_price_suffix())));
                    }
                },
                None => {},
            }
        }
        k = k + 1;
    }
    out
}

/// Headers of the extended sheet (see `extended_headers`).
pub fn extended_header_row(r_headers: &Vec<String>, f_headers: &Vec<String>) -> (r: Vec<String>)
    ensures
        views(r@) == extended_headers(views(r_headers@), views(f_headers@), r_headers.len() as int),
{
    let shared = shared_supplier_list(r_headers, f_headers);
    let mut out: Vec<String> = Vec::new();
    let mut i: usize = 0;
    while i < r_headers.len()
        invariant
            i <= r_headers.len(),
            views(shared@) == shared_suppliers(views(r_headers@), views(f_headers@)),
            views(out@) == extended_headers(views(r_headers@), views(f_headers@), i as int),
        decreases r_headers.len() - i,
    {
        let h = &r_headers[i];
        let added = added_columns_of(h.as_str(), r_headers, f_headers, &shared);
        let ghost before = out@;
        out.push(h.clone());
        let mut k: usize = 0;
        while k < added.len()
            invariant
                k <= added.len(),
                views(out@) == views(before).push(h@) + added@.take(k as int).map_values(|p: (String, String)| p.0@),
            decreases added.len() - k,
        {
            let ghost mid = out@;
            out.push(added[k].0.clone());
            assert(added@.take(k + 1) =~= added@.take(k as int).push(added@[k as int]));
            assert(views(out@) =~= views(mid).push(added@[k as int].0@));
            assert(views(before).push(h@) + added@.take(k + 1).map_values(|p: (String, String)| p.0@)
                =~= (views(before).push(h@) + added@.take(k as int).map_values(|p: (String, String)| p.0@)).push(added@[k as int].0@));
            k = k + 1;
        }
        proof {
            let ad = added_columns(h@, views(r_headers@), views(f_headers@));
            assert(added@.take(added.len() as int) =~= added@);
            assert(added@.map_values(|p: (String, String)| p.0@) =~= ad.map_values(|p: (Seq<char>, Seq<char>)| p.0));
            assert(views(r_headers@)[i as int] == h@);
            assert(views(out@) =~= extended_headers(views(r_headers@), views(f_headers@), i + 1));
        }
        i = i + 1;
    }
    out
}

/// The value of future column `col` for `asin` (see `future_value`).
pub fn future_value_of(
    f_headers: &Vec<String>,
    f_rows: &Vec<Vec<String>>,
    asin_col: usize,
    asin: &str,
    col: &str,
) -> (r: Option<String>)
    requires
        rows_fit(views(f_headers@), f_rows@.map_values(|row: Vec<String>| row@)),
    ensures
        match r {
            Some(v) => future_value(views(f_headers@), f_rows@.map_values(|row: Vec<String>| row@), asin_col as int, asin@, col@) == Some(v@),
            None => future_value(views(f_headers@), f_rows@.map_values(|row: Vec<String>| row@), asin_col as int, asin@, col@) is None,
        },
{
    let ghost hv = views(f_headers@);
    let ghost rows = f_rows@.map_values(|row: Vec<String>| row@);
    if chars_of(asin).len() == 0 {
        return None;
    }
    let mut k: usize = f_rows.len();
    assert(rows.take(k as int) =~= rows);
    while k > 0
        invariant
            k <= f_rows.len(),
            asin@.len() > 0,
            hv == views(f_headers@),
            rows == f_rows@.map_values(|row: Vec<String>| row@),
            rows_fit(hv, rows),
            future_value(hv, rows, asin_col as int, asin@, col@) == future_value(hv, rows.take(k as int), asin_col as int, asin@, col@),
        decreases k,
    {
        let row = &f_rows[k - 1];
        proof {
            assert(rows.take(k as int).drop_last() =~= rows.take(k - 1));
            assert(rows.take(k as int).last() == row@);
            assert(rows[k - 1].len() <= hv.len());
        }
        let a = cell(row, asin_col);
        if text_eq(a.as_str(), asin) {
            let ghost target = future_value(hv, rows, asin_col as int, asin@, col@);
            assert(target == row_value(hv, row@, col@, row.len() as int));
            // The last header of that name within the row.
            let mut i: usize = row.len();
            while i > 0
                invariant
                    i <= row.len(),
                    row.len() <= f_headers.len(),
                    hv == views(f_headers@),
                    rows == f_rows@.map_values(|row: Vec<String>| row@),
                    target == future_value(hv, rows, asin_col as int, asin@, col@),
                    target == row_value(hv, row@, col@, i as int),
                decreases i,
            {
                proof {
                    assert(hv[i - 1] == f_headers@[i - 1]@);
                }
                if text_eq(f_headers[i - 1].as_str(), col) {
                    return Some(row[i - 1].clone());
                }
                i = i - 1;
            }
            return None;
        }
        k = k - 1;
    }
    assert(rows.take(0) =~= Seq::<Seq<String>>::empty());
    None
}

/// The future values (or the missing marker) of the added columns.
fn added_values(
    f_headers: &Vec<String>,
    f_rows: &Vec<Vec<String>>,
    f_asin_col: usize,
    asin: &str,
    added: &Vec<(String, String)>,
) -> (r: Vec<String>)
    requires
        rows_fit(views(f_headers@), f_rows@.map_values(|row: Vec<String>| row@)),
    ensures
        views(r@) == added@.map_values(|p: (String, String)| (p.0@, p.1@)).map_values(
            |p: (Seq<char>, Seq<char>)| future_or_missing(views(f_headers@), f_rows@.map_values(|row: Vec<String>| row@), f_asin_col as int, asin@, p.1),
        ),
{
    let ghost rows = f_rows@.map_values(|row: Vec<String>| row@);
    let ghost ad = added@.map_values(|p: (String, String)| (p.0@, p.1@));
    let missing = missing_marker();
    let mut out: Vec<String> = Vec::new();
    let mut k: usize = 0;
    while k < added.len()
        invariant
            k <= added.len(),
            rows == f_rows@.map_values(|row: Vec<String>| row@),
            rows_fit(views(f_headers@), rows),
            missing@ == missing_mark(),
            ad == added@.map_values(|p: (String, String)| (p.0@, p.1@)),
            views(out@) == ad.take(k as int).map_values(
                |p: (Seq<char>, Seq<char>)| future_or_missing(views(f_headers@), rows, f_asin_col as int, asin@, p.1),
            ),
        decreases added.len() - k,
    {
        let v = future_value_of(f_headers, f_rows, f_asin_col, asin, added[k].1.as_str());
        let cellv = match v {
            Some(x) => x,
            None => missing.clone(),
        };
        let ghost pre = out@;
        out.push(cellv);
        proof {
            assert(ad[k as int] == (added@[k as int].0@, added@[k as int].1@));
            assert(ad.take(k + 1) =~= ad.take(k as int).push(ad[k as int]));
            assert(views(out@) =~= views(pre).push(cellv@));
        }
        k = k + 1;
    }
    assert(ad.take(added.len() as int) =~= ad);
    out
}

/// Appends copies of `values` to `out`.
fn append_all(out: &mut Vec<String>, values: &Vec<String>)
    ensures
        views(final(out)@) == views(old(out)@) + views(values@),
{
    let ghost start = out@;
    let mut k: usize = 0;
    while k < values.len()
        invariant
            k <= values.len(),
            views(out@) == views(start) + views(values@).take(k as int),
        decreases values.len() - k,
    {
        let ghost pre = out@;
        out.push(values[k].clone());
        assert(views(values@).take(k + 1) =~= views(values@).take(k as int).push(values@[k as int]@));
        assert(views(out@) =~= views(pre).push(values@[k as int]@));
        k = k + 1;
    }
    assert(views(values@).take(values.len() as int) =~= views(values@));
}

/// The extended cells of a restock row (see `extended_row`).
pub fn extended_data_row(
    r_headers: &Vec<String>,
    f_headers: &Vec<String>,
    f_rows: &Vec<Vec<String>>,
    f_asin_col: usize,
    row: &Vec<String>,
    r_asin_col: usize,
) -> (r: Vec<String>)
    requires
        rows_fit(views(f_headers@), f_rows@.map_values(|row: Vec<String>| row@)),
    ensures
        views(r@) == extended_row(
            views(r_headers@),
            views(f_headers@),
            f_rows@.map_values(|row: Vec<String>| row@),
            f_asin_col as int,
            row@,
            r_asin_col as int,
            r_headers.len() as int,
        ),
{
    let ghost rv = views(r_headers@);
    let ghost fv = views(f_headers@);
    let ghost rows = f_rows@.map_values(|row: Vec<String>| row@);
    let shared = shared_supplier_list(r_headers, f_headers);
    let asin = cell(row, r_asin_col);
    let mut out: Vec<String> = Vec::new();
    let mut i: usize = 0;
    assert(views(out@) == extended_row(rv, fv, rows, f_asin_col as int, row@, r_asin_col as int, 0)) by {
        reveal_with_fuel(extended_row, 1);
        assert(views(out@) =~= Seq::<Seq<char>>::empty());
    }
    while i < r_headers.len()
        invariant
            i <= r_headers.len(),
            rv == views(r_headers@),
            fv == views(f_headers@),
            rows == f_rows@.map_values(|row: Vec<String>| row@),
            rows_fit(fv, rows),
            asin@ == cell_at(row@, r_asin_col as int),
            views(shared@) == shared_suppliers(rv, fv),
            views(out@) == extended_row(rv, fv, rows, f_asin_col as int, row@, r_asin_col as int, i as int),
        decreases r_headers.len() - i,
    {
        let h = &r_headers[i];
        proof {
            assert(rv[i as int] == h@);
        }
        let first = position_of(r_headers, h.as_str());
        let f = first.unwrap();
        let head = cell(row, f);
        let added = added_columns_of(h.as_str(), r_headers, f_headers, &shared);
        let values = added_values(f_headers, f_rows, f_asin_col, asin.as_str(), &added);
        let ghost before = out@;
        out.push(head);
        append_all(&mut out, &values);
        proof {
            let ad = added_columns(h@, rv, fv);
            assert(added@.map_values(|p: (String, String)| (p.0@, p.1@)) == ad);
            assert(views(out@) =~= views(before) + seq![cell_at(row@, f as int)] + ad.map_values(
                |p: (Seq<char>, Seq<char>)| future_or_missing(fv, rows, f_asin_col as int, asin@, p.1),
            ));
            assert(first_index_of(rv, h@) == Some(f as int));
            assert(views(out@) == extended_row(rv, fv, rows, f_asin_col as int, row@, r_asin_col as int, i + 1)) by {
                reveal_with_fuel(extended_row, 1);
            }
        }
        i = i + 1;
    }
    out
}


/// "Future_Price_Sonuc", the name of a result saved without a name.
pub open spec fn w_default_result_name() -> Seq<char> {
    seq!['F', 'u', 't', 'u', 'r', 'e', '_', 'P', 'r', 'i', 'c', 'e', '_', 'S', 'o', 'n', 'u', 'c']
}

/// The file name of the result: the given name, or the default name when
/// the given one is blank, followed by ".xlsx".
pub open spec fn result_file_name_of(name: Seq<char>) -> Seq<char> {
    (if trimmed(name).len() == 0 {
        w_default_result_name()
    } else {
        name
    }) + seq!['.', 'x', 'l', 's', 'x']
}

/// The file name of the result (see `result_file_name_of`).
pub fn result_file_name(name: &str) -> (r: String)
    ensures
        r@ == result_file_name_of(name@),
{
    let mut out = if chars_of(trim(name).as_str()).len() == 0 {
        let s = "Future_Price_Sonuc";
        proof {
            reveal_strlit("Future_Price_Sonuc");
        }
        assert(s@ =~= w_default_result_name());
        s.to_owned()
    } else {
        name.to_owned()
    };
    let ext = ".xlsx";
    proof {
        reveal_strlit(".xlsx");
    }
    assert(ext@ =~= seq!['.', 'x', 'l', 's', 'x']);
    out.append(ext);
    out
}
} // verus!
