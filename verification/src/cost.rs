//! Cost update: rewriting the pricing columns of a listing record.
use vstd::prelude::*;
use crate::columns::views;
use crate::text::{copy_str, first_part, first_piece, replace_char, replace_chars, split, split_seq};

verus! {

/// Positions of the columns that the cost update rewrites.
#[derive(Clone, Copy, Debug)]
pub struct CostColumns {
    pub cost: usize,
    pub additional_cost: usize,
    pub bp_strategy: usize,
    pub qd_strategy: usize,
    pub business_pricing: usize,
}

/// "AI".
pub open spec fn w_ai() -> Seq<char> {
    seq!['A', 'I']
}

/// "default".
pub open spec fn w_default() -> Seq<char> {
    seq!['d', 'e', 'f', 'a', 'u', 'l', 't']
}

/// "on".
pub open spec fn w_on() -> Seq<char> {
    seq!['o', 'n']
}

/// The new value of field `i` whose old value is `field`.
pub open spec fn rewritten_field(
    i: int,
    field: Seq<char>,
    cols: CostColumns,
    cost: Seq<char>,
    additional_cost: Seq<char>,
) -> Seq<char> {
    if i == cols.cost as int {
        cost
    } else if i == cols.additional_cost as int {
        additional_cost
    } else if i == cols.bp_strategy as int {
        w_ai()
    } else if i == cols.qd_strategy as int {
        w_default()
    } else if i == cols.business_pricing as int {
        w_on()
    } else {
        field
    }
}

/// The warehouse code of a SKU: its part before the first `_`.
pub open spec fn warehouse_code(sku: Seq<char>) -> Seq<char> {
    first_piece(sku, '_')
}

/// The parts of a SKU after its first `_`-separated part, with decimal
/// commas written as points: the candidates for the SKU's price.
pub open spec fn price_candidates_of(sku: Seq<char>) -> Seq<Seq<char>> {
    split_seq(sku, '_').drop_first().map_values(|p: Seq<char>| replace_char(p, ',', '.'))
}

/// Record-shape law: rewriting keeps the number of fields and every field
/// outside the five pricing columns.
pub proof fn law_rewrite_keeps_other_fields(
    fields: Seq<Seq<char>>,
    cols: CostColumns,
    cost: Seq<char>,
    additional_cost: Seq<char>,
    out: Seq<Seq<char>>,
)
    requires
        out.len() == fields.len(),
        forall|i: int| 0 <= i < fields.len() ==> #[trigger] out[i] == rewritten_field(i, fields[i], cols, cost, additional_cost),
    ensures
        forall|i: int|
            0 <= i < fields.len() && i != cols.cost && i != cols.additional_cost && i
                != cols.bp_strategy && i != cols.qd_strategy && i != cols.business_pricing ==> #[trigger] out[i]
                == fields[i],
{
}

fn text_ai() -> (r: String)
    ensures
        r@ == w_ai(),
{
    let s = "AI";
    proof {
        reveal_strlit("AI");
    }
    assert(s@ =~= w_ai());
    copy_str(s)
}

fn text_default() -> (r: String)
    ensures
        r@ == w_default(),
{
    let s = "default";
    proof {
        reveal_strlit("default");
    }
    assert(s@ =~= w_default());
    copy_str(s)
}

fn text_on() -> (r: String)
    ensures
        r@ == w_on(),
{
    let s = "on";
    proof {
        reveal_strlit("on");
    }
    assert(s@ =~= w_on());
    copy_str(s)
}

/// Rewrites a record: the cost and additional-cost columns take the given
/// values, the strategy columns take "AI" and "default", business pricing
/// takes "on"; the first of these that names a position wins, and every
/// other field is kept.
pub fn rewrite_record(fields: &Vec<String>, cols: &CostColumns, cost: &str, additional_cost: &str) -> (r: Vec<String>)
    ensures
        r.len() == fields.len(),
        forall|i: int|
            0 <= i < fields.len() ==> (#[trigger] r@[i])@ == rewritten_field(i, fields@[i]@, *cols, cost@, additional_cost@),
{
    let mut out: Vec<String> = Vec::new();
    let mut i: usize = 0;
    while i < fields.len()
        invariant
            i <= fields.len(),
            out.len() == i,
            forall|j: int|
                0 <= j < i ==> (#[trigger] out@[j])@ == rewritten_field(j, fields@[j]@, *cols, cost@, additional_cost@),
        decreases fields.len() - i,
    {
        let v = if i == cols.cost {
            copy_str(cost)
        } else if i == cols.additional_cost {
            copy_str(additional_cost)
        } else if i == cols.bp_strategy {
            text_ai()
        } else if i == cols.qd_strategy {
            text_default()
        } else if i == cols.business_pricing {
            text_on()
        } else {
            fields[i].clone()
        };
        out.push(v);
        i = i + 1;
    }
    out
}

/// The warehouse code of a SKU (see `warehouse_code`).
pub fn warehouse_of_sku(sku: &str) -> (r: String)
    ensures
        r@ == warehouse_code(sku@),
{
    first_part(sku, '_')
}

/// The price candidates of a SKU, in order (see `price_candidates_of`); the
/// SKU's price is the last of them that reads as a number.
pub fn price_candidates(sku: &str) -> (r: Vec<String>)
    ensures
        views(r@) == price_candidates_of(sku@),
{
    let parts = split(sku, '_');
    let ghost pv = parts@.map_values(|x: String| x@);
    let mut out: Vec<String> = Vec::new();
    let mut k: usize = 1;
    proof {
        crate::text::lemma_split_from_first(Seq::empty(), sku@, '_');
    }
    assert(views(out@) =~= pv.drop_first().take(0).map_values(|p: Seq<char>| replace_char(p, ',', '.')));
    while k < parts.len()
        invariant
            1 <= k <= parts.len(),
            pv == parts@.map_values(|x: String| x@),
            pv.len() >= 1,
            views(out@) == pv.drop_first().take(k - 1).map_values(|p: Seq<char>| replace_char(p, ',', '.')),
        decreases parts.len() - k,
    {
        let c = replace_chars(parts[k].as_str(), ',', '.');
        let ghost before = out@;
        out.push(c);
        proof {
            assert(pv.drop_first().take(k as int) =~= pv.drop_first().take(k - 1).push(parts@[k as int]@));
            assert(views(out@) =~= views(before).push(c@));
        }
        k = k + 1;
    }
    assert(pv.drop_first().take(parts.len() - 1) =~= pv.drop_first());
    out
}

} // verus!
