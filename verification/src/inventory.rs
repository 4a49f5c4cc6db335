//! Inventory ageing: first-in-first-out attribution of marketplace stock to
//! shipment lots.
//!
//! The stock that the marketplace still holds of a SKU is attributed to the
//! newest lots first (the oldest units are taken to have been sold first).
use vstd::prelude::*;
use crate::text::{chars_eq, chars_of, lemma_lex_total, lemma_lex_transitive, lex_less, text_less};

verus! {

/// One shipped lot of a SKU, in the order in which lots were created.
pub struct ShipmentRow {
    pub shipment_name: String,
    pub shipment_id: String,
    pub created_date: String,
    pub sku: String,
    pub qty_shipped: i32,
    pub exp_date_usa: String,
    pub exp_date_tur: String,
    pub days_remaining: i32,
    pub amz_stock_days: i32,
    pub note: String,
}

/// A lot together with the part of the marketplace stock attributed to it.
pub struct FifoResultRow {
    pub shipment_name: String,
    pub shipment_id: String,
    pub sku: String,
    pub qty_shipped: i32,
    pub exp_date_usa: String,
    pub exp_date_tur: String,
    pub days_remaining: i32,
    pub amz_stock_days: i32,
    pub amz_stock_allocated: i32,
    pub note: String,
}

// ---------------------------------------------------------------------------
// Specification
// ---------------------------------------------------------------------------

/// Sum of a sequence of integers.
pub open spec fn seq_sum(s: Seq<int>) -> int
    decreases s.len(),
{
    if s.len() == 0 {
        0
    } else {
        s[0] + seq_sum(s.drop_first())
    }
}

/// The shipped quantities of the lots.
pub open spec fn quantities(lots: Seq<ShipmentRow>) -> Seq<int> {
    lots.map_values(|l: ShipmentRow| l.qty_shipped as int)
}

/// The sums that the attribution forms fit in an `i32`: every run of
/// consecutive quantities after the first lot (the units of newer lots,
/// added up oldest first) and every run that reaches the newest lot.
pub open spec fn sums_fit(lots: Seq<ShipmentRow>) -> bool {
    forall|a: int, b: int|
        0 <= a <= b <= lots.len() && (a >= 1 || b == lots.len()) ==> i32::MIN <= #[trigger] seq_sum(
            quantities(lots).subrange(a, b),
        ) <= i32::MAX
}

/// Stock attributed to a lot of `qty` units when `newer` units were shipped
/// in newer lots and `total_stock` units remain at the marketplace.
pub open spec fn fifo_share(total_stock: int, newer: int, qty: int) -> int {
    if total_stock <= 0 {
        0
    } else if newer >= total_stock {
        0
    } else if newer + qty > total_stock {
        total_stock - newer
    } else {
        qty
    }
}

/// Units shipped in the lots after lot `i`.
pub open spec fn newer_units(lots: Seq<ShipmentRow>, i: int) -> int {
    seq_sum(quantities(lots).subrange(i + 1, lots.len() as int))
}

/// Stock attributed to lot `i`.
pub open spec fn lot_share(lots: Seq<ShipmentRow>, total_stock: int, i: int) -> int {
    fifo_share(total_stock, newer_units(lots, i), lots[i].qty_shipped as int)
}

/// The result row of a lot with its attributed stock.
pub open spec fn result_row(lot: ShipmentRow, share: i32) -> FifoResultRow {
    FifoResultRow {
        shipment_name: lot.shipment_name,
        shipment_id: lot.shipment_id,
        sku: lot.sku,
        qty_shipped: lot.qty_shipped,
        exp_date_usa: lot.exp_date_usa,
        exp_date_tur: lot.exp_date_tur,
        days_remaining: lot.days_remaining,
        amz_stock_days: lot.amz_stock_days,
        amz_stock_allocated: share,
        note: lot.note,
    }
}

/// Result rows of lots `i..` that receive a positive share, in lot order.
pub open spec fn allocations_from(lots: Seq<ShipmentRow>, total_stock: int, i: int) -> Seq<
    FifoResultRow,
>
    decreases lots.len() - i,
{
    if i < 0 || i >= lots.len() {
        Seq::empty()
    } else {
        let share = lot_share(lots, total_stock, i);
        let rest = allocations_from(lots, total_stock, i + 1);
        if share > 0 {
            seq![result_row(lots[i], share as i32)] + rest
        } else {
            rest
        }
    }
}

/// The lots of one SKU, in their order in `rows`.
pub open spec fn lots_for(rows: Seq<ShipmentRow>, sku: Seq<char>) -> Seq<ShipmentRow>
    decreases rows.len(),
{
    if rows.len() == 0 {
        Seq::empty()
    } else {
        let rest = lots_for(rows.drop_last(), sku);
        if rows.last().sku@ == sku {
            rest.push(rows.last())
        } else {
            rest
        }
    }
}

/// Marketplace stock of a SKU: the last entry for it, or 0 without one.
pub open spec fn stock_of(stock: Seq<(String, i32)>, sku: Seq<char>) -> int
    decreases stock.len(),
{
    if stock.len() == 0 {
        0
    } else if stock.last().0@ == sku {
        stock.last().1 as int
    } else {
        stock_of(stock.drop_last(), sku)
    }
}

/// `keys` are the distinct SKUs of `rows`, in strictly increasing order.
pub open spec fn sorted_skus_of(keys: Seq<Seq<char>>, rows: Seq<ShipmentRow>) -> bool {
    &&& forall|i: int, j: int| 0 <= i < j < keys.len() ==> lex_less(keys[i], keys[j])
    &&& forall|i: int| 0 <= i < keys.len() ==> exists|r: int| 0 <= r < rows.len() && #[trigger] keys[i] == rows[r].sku@
    &&& forall|r: int| 0 <= r < rows.len() ==> keys.contains(#[trigger] rows[r].sku@)
}

/// The attribution of every SKU in `keys`, one SKU after the other.
pub open spec fn analysis_for(
    keys: Seq<Seq<char>>,
    rows: Seq<ShipmentRow>,
    stock: Seq<(String, i32)>,
) -> Seq<FifoResultRow>
    decreases keys.len(),
{
    if keys.len() == 0 {
        Seq::empty()
    } else {
        let k = keys.last();
        analysis_for(keys.drop_last(), rows, stock) + allocations_from(
            lots_for(rows, k),
            stock_of(stock, k),
            0,
        )
    }
}

/// Sum of the attributed stock of result rows.
pub open spec fn allocated_total(rows: Seq<FifoResultRow>) -> int
    decreases rows.len(),
{
    if rows.len() == 0 {
        0
    } else {
        rows[0].amz_stock_allocated as int + allocated_total(rows.drop_first())
    }
}

// ---------------------------------------------------------------------------
// Lemmas and laws
// ---------------------------------------------------------------------------

proof fn lemma_sum_step(q: Seq<int>, a: int, b: int)
    requires
        0 <= a < b <= q.len(),
    ensures
        seq_sum(q.subrange(a, b)) == q[a] + seq_sum(q.subrange(a + 1, b)),
{
    assert(q.subrange(a, b).drop_first() =~= q.subrange(a + 1, b));
}

proof fn lemma_share_bounds(total_stock: int, newer: int, qty: int)
    requires
        qty >= 0,
        newer >= 0,
    ensures
        0 <= fifo_share(total_stock, newer, qty) <= qty,
        fifo_share(total_stock, newer, qty) + (if total_stock <= 0 { 0 } else if newer
            < total_stock { newer } else { total_stock }) == (if total_stock <= 0 {
            0
        } else if newer + qty < total_stock {
            newer + qty
        } else {
            total_stock
        }),
{
}

proof fn lemma_sum_nonneg(q: Seq<int>)
    requires
        forall|i: int| 0 <= i < q.len() ==> q[i] >= 0,
    ensures
        seq_sum(q) >= 0,
    decreases q.len(),
{
    if q.len() > 0 {
        lemma_sum_nonneg(q.drop_first());
    }
}

proof fn lemma_allocations_total(lots: Seq<ShipmentRow>, total_stock: int, i: int)
    requires
        0 <= i <= lots.len(),
        forall|k: int| 0 <= k < lots.len() ==> lots[k].qty_shipped >= 0,
    ensures
        allocated_total(allocations_from(lots, total_stock, i)) == (if total_stock <= 0 {
            0
        } else if seq_sum(quantities(lots).subrange(i, lots.len() as int)) < total_stock {
            seq_sum(quantities(lots).subrange(i, lots.len() as int))
        } else {
            total_stock
        }),
        forall|k: int|
            0 <= k < allocations_from(lots, total_stock, i).len() ==> {
                let row = #[trigger] allocations_from(lots, total_stock, i)[k];
                0 < row.amz_stock_allocated <= row.qty_shipped
            },
    decreases lots.len() - i,
{
    let q = quantities(lots);
    let n = lots.len() as int;
    if i == n {
        assert(q.subrange(n, n) =~= Seq::<int>::empty());
    } else {
        lemma_allocations_total(lots, total_stock, i + 1);
        lemma_sum_step(q, i, n);
        let tail = q.subrange(i + 1, n);
        assert forall|k: int| 0 <= k < tail.len() implies #[trigger] tail[k] >= 0 by {
            assert(tail[k] == lots[i + 1 + k].qty_shipped);
        }
        lemma_sum_nonneg(tail);
        let newer = newer_units(lots, i);
        let qty = lots[i].qty_shipped as int;
        lemma_share_bounds(total_stock, newer, qty);
        let share = lot_share(lots, total_stock, i);
        let rest = allocations_from(lots, total_stock, i + 1);
        if share > 0 {
            let row = result_row(lots[i], share as i32);
            assert((seq![row] + rest).drop_first() =~= rest);
            assert forall|k: int| 0 <= k < (seq![row] + rest).len() implies {
                let r = #[trigger] (seq![row] + rest)[k];
                0 < r.amz_stock_allocated <= r.qty_shipped
            } by {
                if k > 0 {
                    assert((seq![row] + rest)[k] == rest[k - 1]);
                }
            }
        }
    }
}

/// FIFO attribution law: when no lot has a negative quantity, the stock
/// attributed to the lots of a SKU adds up to the marketplace stock, capped
/// below by zero and above by all units shipped; each lot that appears
/// receives a positive share of at most its own quantity.
pub proof fn law_fifo_attribution_total(lots: Seq<ShipmentRow>, total_stock: i32)
    requires
        forall|k: int| 0 <= k < lots.len() ==> lots[k].qty_shipped >= 0,
    ensures
        allocated_total(allocations_from(lots, total_stock as int, 0)) == (if total_stock <= 0 {
            0
        } else if seq_sum(quantities(lots)) < total_stock {
            seq_sum(quantities(lots))
        } else {
            total_stock as int
        }),
        forall|k: int|
            0 <= k < allocations_from(lots, total_stock as int, 0).len() ==> {
                let row = #[trigger] allocations_from(lots, total_stock as int, 0)[k];
                0 < row.amz_stock_allocated <= row.qty_shipped
            },
{
    lemma_allocations_total(lots, total_stock as int, 0);
    assert(quantities(lots).subrange(0, lots.len() as int) =~= quantities(lots));
}

proof fn lemma_row_of_lot(lots: Seq<ShipmentRow>, total_stock: int, i: int, from: int)
    requires
        0 <= from <= i < lots.len(),
        lot_share(lots, total_stock, i) > 0,
    ensures
        allocations_from(lots, total_stock, from).contains(
            result_row(lots[i], lot_share(lots, total_stock, i) as i32),
        ),
    decreases i - from,
{
    let row = result_row(lots[i], lot_share(lots, total_stock, i) as i32);
    let all = allocations_from(lots, total_stock, from);
    if from == i {
        assert(all[0] == row);
    } else {
        lemma_row_of_lot(lots, total_stock, i, from + 1);
        let rest = allocations_from(lots, total_stock, from + 1);
        let k = choose|k: int| 0 <= k < rest.len() && rest[k] == row;
        if lot_share(lots, total_stock, from) > 0 {
            assert(all[k + 1] == row);
        } else {
            assert(all[k] == row);
        }
    }
}

/// Stock-growth law: when no lot has a negative quantity, more stock at the
/// marketplace never attributes less to any lot. A lot that receives
/// nothing shows no result row (its share is 0); a lot with a result row
/// under the smaller stock has one under the larger stock too, with its
/// larger share.
pub proof fn law_fifo_share_grows_with_stock(lots: Seq<ShipmentRow>, t1: int, t2: int, i: int)
    requires
        forall|k: int| 0 <= k < lots.len() ==> lots[k].qty_shipped >= 0,
        t1 <= t2,
        0 <= i < lots.len(),
    ensures
        0 <= lot_share(lots, t1, i) <= lot_share(lots, t2, i),
        lot_share(lots, t1, i) > 0 ==> allocations_from(lots, t2, 0).contains(
            result_row(lots[i], lot_share(lots, t2, i) as i32),
        ),
{
    let n = lots.len() as int;
    let tail = quantities(lots).subrange(i + 1, n);
    assert forall|k: int| 0 <= k < tail.len() implies #[trigger] tail[k] >= 0 by {
        assert(tail[k] == lots[i + 1 + k].qty_shipped);
    }
    lemma_sum_nonneg(tail);
    if lot_share(lots, t1, i) > 0 {
        lemma_row_of_lot(lots, t2, i, 0);
    }
}

proof fn lemma_sum_split(q: Seq<int>, a: int, b: int, n: int)
    requires
        0 <= a <= b <= n <= q.len(),
    ensures
        seq_sum(q.subrange(a, n)) == seq_sum(q.subrange(a, b)) + seq_sum(q.subrange(b, n)),
    decreases b - a,
{
    if a == b {
        assert(q.subrange(a, b) =~= Seq::<int>::empty());
    } else {
        lemma_sum_step(q, a, n);
        lemma_sum_step(q, a, b);
        lemma_sum_split(q, a + 1, b, n);
    }
}

/// Newest-lots-first law: when no lot has a negative quantity and a lot
/// receives part of the stock, every newer lot receives all of its units.
pub proof fn law_fifo_newest_first(lots: Seq<ShipmentRow>, total_stock: int, i: int, j: int)
    requires
        forall|k: int| 0 <= k < lots.len() ==> lots[k].qty_shipped >= 0,
        0 <= i < j < lots.len(),
        lot_share(lots, total_stock, i) > 0,
    ensures
        lot_share(lots, total_stock, j) == lots[j].qty_shipped,
{
    let n = lots.len() as int;
    let q = quantities(lots);
    lemma_sum_split(q, i + 1, j, n);
    lemma_sum_step(q, j, n);
    let mid = q.subrange(i + 1, j);
    assert forall|k: int| 0 <= k < mid.len() implies #[trigger] mid[k] >= 0 by {
        assert(mid[k] == lots[i + 1 + k].qty_shipped);
    }
    lemma_sum_nonneg(mid);
    let tail = q.subrange(j + 1, n);
    assert forall|k: int| 0 <= k < tail.len() implies #[trigger] tail[k] >= 0 by {
        assert(tail[k] == lots[j + 1 + k].qty_shipped);
    }
    lemma_sum_nonneg(tail);
}

proof fn lemma_analysis_has_sku(
    keys: Seq<Seq<char>>,
    rows: Seq<ShipmentRow>,
    stock: Seq<(String, i32)>,
    s: Seq<char>,
    x: FifoResultRow,
)
    requires
        keys.contains(s),
        allocations_from(lots_for(rows, s), stock_of(stock, s), 0).contains(x),
    ensures
        analysis_for(keys, rows, stock).contains(x),
    decreases keys.len(),
{
    let a = analysis_for(keys.drop_last(), rows, stock);
    let b = allocations_from(lots_for(rows, keys.last()), stock_of(stock, keys.last()), 0);
    if keys.last() == s {
        let k = choose|k: int| 0 <= k < b.len() && b[k] == x;
        assert((a + b)[a.len() + k] == x);
    } else {
        let j = choose|j: int| 0 <= j < keys.len() && keys[j] == s;
        assert(keys.drop_last()[j] == s);
        lemma_analysis_has_sku(keys.drop_last(), rows, stock, s, x);
        let k = choose|k: int| 0 <= k < a.len() && a[k] == x;
        assert((a + b)[k] == x);
    }
}

/// Stock-growth law for the whole analysis: for the lots of a SKU that
/// ships no negative quantity, a marketplace stock of the SKU no smaller in
/// the second analysis than in the first never attributes less to a lot.
/// The analyses are those `fifo_analysis` gives (`analysis_for` over the
/// sorted SKUs); each share is at least 0, and a lot with a positive share
/// has its result row, carrying that share, in the analysis.
pub proof fn law_fifo_analysis_grows_with_stock(
    keys1: Seq<Seq<char>>,
    keys2: Seq<Seq<char>>,
    rows: Seq<ShipmentRow>,
    stock1: Seq<(String, i32)>,
    stock2: Seq<(String, i32)>,
    r: int,
    i: int,
)
    requires
        sorted_skus_of(keys1, rows),
        sorted_skus_of(keys2, rows),
        0 <= r < rows.len(),
        forall|k: int| 0 <= k < lots_for(rows, rows[r].sku@).len() ==> (#[trigger] lots_for(rows, rows[r].sku@)[k]).qty_shipped >= 0,
        stock_of(stock1, rows[r].sku@) <= stock_of(stock2, rows[r].sku@),
        0 <= i < lots_for(rows, rows[r].sku@).len(),
    ensures
        ({
            let s = rows[r].sku@;
            let lots = lots_for(rows, s);
            let share1 = lot_share(lots, stock_of(stock1, s), i);
            let share2 = lot_share(lots, stock_of(stock2, s), i);
            &&& 0 <= share1 <= share2
            &&& share1 > 0 ==> analysis_for(keys1, rows, stock1).contains(result_row(lots[i], share1 as i32))
            &&& share2 > 0 ==> analysis_for(keys2, rows, stock2).contains(result_row(lots[i], share2 as i32))
        }),
{
    let s = rows[r].sku@;
    let lots = lots_for(rows, s);
    let t1 = stock_of(stock1, s);
    let t2 = stock_of(stock2, s);
    assert forall|k: int| 0 <= k < lots.len() implies lots[k].qty_shipped >= 0 by {
        assert(lots_for(rows, rows[r].sku@)[k].qty_shipped >= 0);
    }
    law_fifo_share_grows_with_stock(lots, t1, t2, i);
    if lot_share(lots, t1, i) > 0 {
        lemma_row_of_lot(lots, t1, i, 0);
        lemma_analysis_has_sku(keys1, rows, stock1, s, result_row(lots[i], lot_share(lots, t1, i) as i32));
    }
    if lot_share(lots, t2, i) > 0 {
        lemma_row_of_lot(lots, t2, i, 0);
        lemma_analysis_has_sku(keys2, rows, stock2, s, result_row(lots[i], lot_share(lots, t2, i) as i32));
    }
}

// ---------------------------------------------------------------------------
// Executable code
// ---------------------------------------------------------------------------

fn clone_string(s: &String) -> (r: String)
    ensures
        r == *s,
{
    s.clone()
}

fn clone_lot(l: &ShipmentRow) -> (r: ShipmentRow)
    ensures
        r == *l,
{
    ShipmentRow {
        shipment_name: clone_string(&l.shipment_name),
        shipment_id: clone_string(&l.shipment_id),
        created_date: clone_string(&l.created_date),
        sku: clone_string(&l.sku),
        qty_shipped: l.qty_shipped,
        exp_date_usa: clone_string(&l.exp_date_usa),
        exp_date_tur: clone_string(&l.exp_date_tur),
        days_remaining: l.days_remaining,
        amz_stock_days: l.amz_stock_days,
        note: clone_string(&l.note),
    }
}

/// Stock attributed to a lot of `qty` units when `newer` units were shipped
/// in newer lots and `total_stock` units remain.
pub fn fifo_allocated(total_stock: i32, newer: i32, qty: i32) -> (r: i32)
    requires
        i32::MIN <= newer + qty <= i32::MAX,
    ensures
        r == fifo_share(total_stock as int, newer as int, qty as int),
{
    if total_stock <= 0 {
        0
    } else if newer >= total_stock {
        0
    } else if newer + qty > total_stock {
        total_stock - newer
    } else {
        qty
    }
}

/// Attributes `total_stock` to the lots of one SKU, newest lots first, and
/// returns the lots that receive a positive share, in lot order.
pub fn allocate_lots(lots: &Vec<ShipmentRow>, total_stock: i32) -> (r: Vec<FifoResultRow>)
    requires
        sums_fit(lots@),
    ensures
        r@ == allocations_from(lots@, total_stock as int, 0),
{
    let n = lots.len();
    let ghost q = quantities(lots@);
    // newer[k] is the sum of the quantities of lots k.. .
    let mut newer: Vec<i64> = Vec::new();
    let mut k: usize = 0;
    while k < n
        invariant
            k <= n,
            n == lots.len(),
            newer.len() == k,
            forall|j: int| 0 <= j < k ==> newer[j] == 0,
        decreases n - k,
    {
        newer.push(0);
        k = k + 1;
    }
    newer.push(0);
    let mut j: usize = n;
    assert(q.subrange(n as int, n as int) =~= Seq::<int>::empty());
    while j > 0
        invariant
            j <= n,
            n == lots.len(),
            q == quantities(lots@),
            sums_fit(lots@),
            newer.len() == n + 1,
            forall|m: int| j <= m <= n ==> newer[m] == seq_sum(q.subrange(m, n as int)),
        decreases j,
    {
        let ghost a = (j - 1) as int;
        proof {
            lemma_sum_step(q, a, n as int);
            assert(i32::MIN <= seq_sum(q.subrange(a, n as int)) <= i32::MAX);
            assert(i32::MIN <= seq_sum(q.subrange(j as int, n as int)) <= i32::MAX);
        }
        let v = newer[j] + lots[j - 1].qty_shipped as i64;
        newer.set(j - 1, v);
        j = j - 1;
    }
    let mut out: Vec<FifoResultRow> = Vec::new();
    let mut i: usize = 0;
    while i < n
        invariant
            i <= n,
            n == lots.len(),
            q == quantities(lots@),
            sums_fit(lots@),
            newer.len() == n + 1,
            forall|m: int| 0 <= m <= n ==> newer[m] == seq_sum(q.subrange(m, n as int)),
            out@ + allocations_from(lots@, total_stock as int, i as int) == allocations_from(
                lots@,
                total_stock as int,
                0,
            ),
        decreases n - i,
    {
        proof {
            assert(i32::MIN <= seq_sum(q.subrange(i + 1, n as int)) <= i32::MAX);
            assert(i32::MIN <= seq_sum(q.subrange(i as int, n as int)) <= i32::MAX);
            lemma_sum_step(q, i as int, n as int);
        }
        let newer_qty = newer[i + 1] as i32;
        let lot = &lots[i];
        let share = fifo_allocated(total_stock, newer_qty, lot.qty_shipped);
        let ghost before = out@;
        if share > 0 {
            out.push(
                FifoResultRow {
                    shipment_name: clone_string(&lot.shipment_name),
                    shipment_id: clone_string(&lot.shipment_id),
                    sku: clone_string(&lot.sku),
                    qty_shipped: lot.qty_shipped,
                    exp_date_usa: clone_string(&lot.exp_date_usa),
                    exp_date_tur: clone_string(&lot.exp_date_tur),
                    days_remaining: lot.days_remaining,
                    amz_stock_days: lot.amz_stock_days,
                    amz_stock_allocated: share,
                    note: clone_string(&lot.note),
                },
            );
            assert(out@ + allocations_from(lots@, total_stock as int, i + 1) =~= before
                + allocations_from(lots@, total_stock as int, i as int));
        }
        i = i + 1;
    }
    assert(out@ + allocations_from(lots@, total_stock as int, n as int) =~= out@);
    out
}

/// The lots of one SKU, in their order in `rows`.
pub fn lots_of_sku(rows: &Vec<ShipmentRow>, sku: &Vec<char>) -> (r: Vec<ShipmentRow>)
    ensures
        r@ == lots_for(rows@, sku@),
{
    let mut out: Vec<ShipmentRow> = Vec::new();
    let mut i: usize = 0;
    while i < rows.len()
        invariant
            i <= rows.len(),
            out@ == lots_for(rows@.take(i as int), sku@),
        decreases rows.len() - i,
    {
        let s = chars_of(rows[i].sku.as_str());
        proof {
            assert(rows@.take(i + 1).drop_last() =~= rows@.take(i as int));
        }
        if chars_eq(&s, sku) {
            out.push(clone_lot(&rows[i]));
        }
        i = i + 1;
    }
    assert(rows@.take(rows.len() as int) =~= rows@);
    out
}

/// Marketplace stock of a SKU: the last entry for it, or 0 without one.
pub fn stock_for(stock: &Vec<(String, i32)>, sku: &Vec<char>) -> (r: i32)
    ensures
        r == stock_of(stock@, sku@),
{
    let mut i: usize = stock.len();
    assert(stock@.take(i as int) =~= stock@);
    while i > 0
        invariant
            i <= stock.len(),
            stock_of(stock@, sku@) == stock_of(stock@.take(i as int), sku@),
        decreases i,
    {
        let s = chars_of(stock[i - 1].0.as_str());
        proof {
            assert(stock@.take(i as int).drop_last() =~= stock@.take(i - 1));
        }
        if chars_eq(&s, sku) {
            return stock[i - 1].1;
        }
        i = i - 1;
    }
    assert(stock@.take(0) =~= Seq::<(String, i32)>::empty());
    0
}

/// The distinct SKUs of the rows, in increasing order.
pub fn sorted_skus(rows: &Vec<ShipmentRow>) -> (r: Vec<Vec<char>>)
    ensures
        sorted_skus_of(r@.map_values(|k: Vec<char>| k@), rows@),
{
    let mut keys: Vec<Vec<char>> = Vec::new();
    let mut i: usize = 0;
    while i < rows.len()
        invariant
            i <= rows.len(),
            sorted_skus_of(keys@.map_values(|k: Vec<char>| k@), rows@.take(i as int)),
        decreases rows.len() - i,
    {
        let ghost before = keys@.map_values(|k: Vec<char>| k@);
        let s = chars_of(rows[i].sku.as_str());
        let mut j: usize = 0;
        while j < keys.len() && text_less(&keys[j], &s)
            invariant
                j <= keys.len(),
                before == keys@.map_values(|k: Vec<char>| k@),
                forall|m: int| 0 <= m < j ==> lex_less(before[m], s@),
            decreases keys.len() - j,
        {
            j = j + 1;
        }
        let ghost prefix_rows = rows@.take(i as int);
        let ghost next_rows = rows@.take(i + 1);
        proof {
            assert forall|r: int| 0 <= r < prefix_rows.len() implies next_rows[r] == prefix_rows[r] by {}
            assert(next_rows[i as int].sku@ == s@);
        }
        if j < keys.len() && chars_eq(&keys[j], &s) {
            proof {
                assert forall|m: int| 0 <= m < before.len() implies exists|r: int|
                    0 <= r < next_rows.len() && #[trigger] before[m] == next_rows[r].sku@ by {
                    let r = choose|r: int| 0 <= r < prefix_rows.len() && before[m] == prefix_rows[r].sku@;
                    assert(before[m] == next_rows[r].sku@);
                }
                assert forall|r: int| 0 <= r < next_rows.len() implies before.contains(
                    #[trigger] next_rows[r].sku@,
                ) by {
                    if r < i {
                        assert(prefix_rows[r] == next_rows[r]);
                        assert(before.contains(prefix_rows[r].sku@));
                    } else {
                        assert(before[j as int] == s@);
                    }
                }
            }
        } else {
            proof {
                if j < keys.len() {
                    lemma_lex_total(before[j as int], s@);
                }
            }
            keys.insert(j, s);
            proof {
                let after = keys@.map_values(|k: Vec<char>| k@);
                assert(after =~= before.insert(j as int, s@));
                assert forall|a: int, b: int| 0 <= a < b < after.len() implies lex_less(
                    after[a],
                    after[b],
                ) by {
                    if b < j {
                        assert(after[a] == before[a] && after[b] == before[b]);
                    } else if b == j {
                        assert(after[a] == before[a]);
                    } else if a == j {
                        assert(after[b] == before[b - 1]);
                        if b - 1 > j {
                            lemma_lex_transitive(s@, before[j as int], before[b - 1]);
                        }
                    } else if a < j {
                        assert(after[a] == before[a]);
                        assert(after[b] == before[b - 1]);
                        if a < b - 1 {
                        } else {
                            assert(false);
                        }
                    } else {
                        assert(after[a] == before[a - 1]);
                        assert(after[b] == before[b - 1]);
                    }
                }
                assert forall|m: int| 0 <= m < after.len() implies exists|r: int|
                    0 <= r < next_rows.len() && #[trigger] after[m] == next_rows[r].sku@ by {
                    if m < j {
                        assert(after[m] == before[m]);
                        let r = choose|r: int| 0 <= r < prefix_rows.len() && before[m] == prefix_rows[r].sku@;
                        assert(after[m] == next_rows[r].sku@);
                    } else if m == j {
                        assert(after[m] == next_rows[i as int].sku@);
                    } else {
                        assert(after[m] == before[m - 1]);
                        let r = choose|r: int| 0 <= r < prefix_rows.len() && before[m - 1] == prefix_rows[r].sku@;
                        assert(after[m] == next_rows[r].sku@);
                    }
                }
                assert forall|r: int| 0 <= r < next_rows.len() implies after.contains(
                    #[trigger] next_rows[r].sku@,
                ) by {
                    if r < i {
                        assert(prefix_rows[r] == next_rows[r]);
                        assert(before.contains(prefix_rows[r].sku@));
                        let m = choose|m: int| 0 <= m < before.len() && before[m] == prefix_rows[r].sku@;
                        if m < j {
                            assert(after[m] == before[m]);
                        } else {
                            assert(after[m + 1] == before[m]);
                        }
                    } else {
                        assert(after[j as int] == s@);
                    }
                }
            }
        }
        i = i + 1;
    }
    assert(rows@.take(rows.len() as int) =~= rows@);
    keys
}

/// Attribution report: the distinct SKUs of `rows` in increasing order, and
/// for each the lots (in `rows` order) that receive a positive share of that
/// SKU's marketplace stock (last `stock` entry of the SKU, else 0).
pub fn fifo_analysis(rows: &Vec<ShipmentRow>, stock: &Vec<(String, i32)>) -> (r: Vec<
    FifoResultRow,
>)
    requires
        forall|k: Seq<char>| sums_fit(#[trigger] lots_for(rows@, k)),
    ensures
        exists|keys: Seq<Seq<char>>|
            sorted_skus_of(keys, rows@) && r@ == analysis_for(keys, rows@, stock@),
{
    let keys = sorted_skus(rows);
    let ghost kv = keys@.map_values(|k: Vec<char>| k@);
    let mut out: Vec<FifoResultRow> = Vec::new();
    let mut i: usize = 0;
    while i < keys.len()
        invariant
            i <= keys.len(),
            kv == keys@.map_values(|k: Vec<char>| k@),
            forall|k: Seq<char>| sums_fit(#[trigger] lots_for(rows@, k)),
            out@ == analysis_for(kv.take(i as int), rows@, stock@),
        decreases keys.len() - i,
    {
        let lots = lots_of_sku(rows, &keys[i]);
        let total = stock_for(stock, &keys[i]);
        let part = allocate_lots(&lots, total);
        let ghost before = out@;
        let mut j: usize = 0;
        while j < part.len()
            invariant
                j <= part.len(),
                out@ == before + part@.take(j as int),
            decreases part.len() - j,
        {
            out.push(clone_result(&part[j]));
            assert(before + part@.take(j + 1) =~= (before + part@.take(j as int)).push(part@[j as int]));
            j = j + 1;
        }
        proof {
            assert(part@.take(part.len() as int) =~= part@);
            assert(kv.take(i + 1).drop_last() =~= kv.take(i as int));
            assert(kv.take(i + 1).last() == keys@[i as int]@);
        }
        i = i + 1;
    }
    assert(kv.take(keys.len() as int) =~= kv);
    out
}

fn clone_result(r: &FifoResultRow) -> (c: FifoResultRow)
    ensures
        c == *r,
{
    FifoResultRow {
        shipment_name: clone_string(&r.shipment_name),
        shipment_id: clone_string(&r.shipment_id),
        sku: clone_string(&r.sku),
        qty_shipped: r.qty_shipped,
        exp_date_usa: clone_string(&r.exp_date_usa),
        exp_date_tur: clone_string(&r.exp_date_tur),
        days_remaining: r.days_remaining,
        amz_stock_days: r.amz_stock_days,
        amz_stock_allocated: r.amz_stock_allocated,
        note: clone_string(&r.note),
    }
}

} // verus!
