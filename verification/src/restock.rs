//! Restock list merging: choosing, for every UPC offered by several supplier
//! lists, the cheapest offer.
use vstd::prelude::*;
use crate::columns::views;
use crate::future_price::{w_cost, w_price, w_price_suffix};
use crate::stock::word;
use crate::text::{chars_eq, chars_of, first_part, first_piece};

verus! {

/// One offer read from a supplier list.
///
/// `price_rank` stands for the offer's price: an integer ordered as the
/// prices are (equal prices, equal ranks). `priority` is the position of the
/// list in the order in which the lists were given.
pub struct Offer {
    pub upc: String,
    pub price_rank: u64,
    pub priority: usize,
    pub prefix: String,
}

// ---------------------------------------------------------------------------
// Specification
// ---------------------------------------------------------------------------

/// Offer `a` displaces the current best offer `b`: it is cheaper, or as
/// cheap and from a list given earlier.
pub open spec fn beats(a: Offer, b: Offer) -> bool {
    a.price_rank < b.price_rank || (a.price_rank == b.price_rank && a.priority < b.priority)
}

/// Index of the best offer for `upc` after reading `offers` in order: the
/// first offer of a UPC is its best until an offer beats it.
pub open spec fn best_offer(offers: Seq<Offer>, upc: Seq<char>) -> Option<int>
    decreases offers.len(),
{
    if offers.len() == 0 {
        None
    } else {
        let prev = best_offer(offers.drop_last(), upc);
        let i = offers.len() - 1;
        if offers.last().upc@ != upc {
            prev
        } else {
            match prev {
                None => Some(i),
                Some(w) => if beats(offers.last(), offers[w]) {
                    Some(i)
                } else {
                    Some(w)
                },
            }
        }
    }
}

/// Offer `k` comes from the list (by prefix) that holds the best offer of
/// its UPC.
pub open spec fn from_winning_list(offers: Seq<Offer>, k: int) -> bool {
    match best_offer(offers, offers[k].upc@) {
        Some(w) => offers[w].prefix@ == offers[k].prefix@,
        None => false,
    }
}

/// Index of the last offer of `upc` before position `n` that comes from the
/// winning list.
pub open spec fn last_winning_before(offers: Seq<Offer>, n: int, upc: Seq<char>) -> Option<int>
    decreases n,
{
    if n <= 0 {
        None
    } else if offers[n - 1].upc@ == upc && from_winning_list(offers, n - 1) {
        Some(n - 1)
    } else {
        last_winning_before(offers, n - 1, upc)
    }
}

/// Index of the last offer of `upc` that comes from the winning list.
pub open spec fn last_winning_offer(offers: Seq<Offer>, upc: Seq<char>) -> Option<int> {
    last_winning_before(offers, offers.len() as int, upc)
}

/// `table` lists each UPC of the offers once, with the index of its
/// cheapest offer.
pub open spec fn is_lowest_price_table(table: Seq<(String, usize)>, offers: Seq<Offer>) -> bool {
    &&& forall|a: int, b: int| 0 <= a < b < table.len() ==> table[a].0@ != table[b].0@
    &&& forall|a: int|
        0 <= a < table.len() ==> best_offer(offers, (#[trigger] table[a]).0@) == Some(
            table[a].1 as int,
        )
    &&& covers(table.map_values(|p: (String, usize)| p.0@), offers, offers.len() as int)
}

/// Every UPC of the first `n` offers is among `keys`.
pub open spec fn covers(keys: Seq<Seq<char>>, offers: Seq<Offer>, n: int) -> bool {
    forall|j: int| 0 <= j < n ==> #[trigger] keys.contains(offers[j].upc@)
}

// ---------------------------------------------------------------------------
// Laws
// ---------------------------------------------------------------------------

/// Cheapest-offer law: the chosen offer of a UPC is one of its offers, no
/// offer of that UPC is cheaper, and among the offers at the lowest price it
/// comes from the earliest list and, within it, is the first. Without offers
/// of the UPC there is no choice.
pub proof fn law_best_offer(offers: Seq<Offer>, upc: Seq<char>)
    ensures
        best_offer(offers, upc) is None <==> forall|j: int| 0 <= j < offers.len() ==> offers[j].upc@ != upc,
        best_offer(offers, upc) matches Some(w) ==> {
            &&& 0 <= w < offers.len()
            &&& offers[w].upc@ == upc
            &&& forall|j: int|
                0 <= j < offers.len() && #[trigger] offers[j].upc@ == upc ==> {
                    ||| offers[w].price_rank < offers[j].price_rank
                    ||| (offers[w].price_rank == offers[j].price_rank && offers[w].priority
                        < offers[j].priority)
                    ||| (offers[w].price_rank == offers[j].price_rank && offers[w].priority
                        == offers[j].priority && w <= j)
                }
        },
    decreases offers.len(),
{
    if offers.len() > 0 {
        let init = offers.drop_last();
        law_best_offer(init, upc);
        let n = offers.len() - 1;
        assert forall|j: int| 0 <= j < init.len() implies init[j] == offers[j] by {}
        if offers.last().upc@ == upc {
            match best_offer(init, upc) {
                None => {}
                Some(w) => {
                    assert(init[w] == offers[w]);
                    if beats(offers.last(), offers[w]) {
                        assert forall|j: int|
                            0 <= j < offers.len() && #[trigger] offers[j].upc@ == upc implies {
                            ||| offers[n].price_rank < offers[j].price_rank
                            ||| (offers[n].price_rank == offers[j].price_rank && offers[n].priority
                                < offers[j].priority)
                            ||| (offers[n].price_rank == offers[j].price_rank && offers[n].priority
                                == offers[j].priority && n <= j)
                        } by {
                            if j < n {
                                assert(init[j].upc@ == upc);
                            }
                        }
                    } else {
                        assert forall|j: int|
                            0 <= j < offers.len() && #[trigger] offers[j].upc@ == upc implies {
                            ||| offers[w].price_rank < offers[j].price_rank
                            ||| (offers[w].price_rank == offers[j].price_rank && offers[w].priority
                                < offers[j].priority)
                            ||| (offers[w].price_rank == offers[j].price_rank && offers[w].priority
                                == offers[j].priority && w <= j)
                        } by {
                            if j < n {
                                assert(init[j].upc@ == upc);
                            }
                        }
                    }
                }
            }
        } else {
            match best_offer(init, upc) {
                None => {}
                Some(w) => {
                    assert(init[w] == offers[w]);
                    assert forall|j: int|
                        0 <= j < offers.len() && #[trigger] offers[j].upc@ == upc implies {
                        ||| offers[w].price_rank < offers[j].price_rank
                        ||| (offers[w].price_rank == offers[j].price_rank && offers[w].priority
                            < offers[j].priority)
                        ||| (offers[w].price_rank == offers[j].price_rank && offers[w].priority
                            == offers[j].priority && w <= j)
                    } by {
                        if j < n {
                            assert(init[j].upc@ == upc);
                        }
                    }
                }
            }
        }
    }
}

/// "Brand".
pub open spec fn w_brand() -> Seq<char> {
    seq!['B', 'r', 'a', 'n', 'd']
}

/// "Case".
pub open spec fn w_case() -> Seq<char> {
    seq!['C', 'a', 's', 'e']
}

/// "Qty on Hand".
pub open spec fn w_qty_on_hand() -> Seq<char> {
    seq!['Q', 't', 'y', ' ', 'o', 'n', ' ', 'H', 'a', 'n', 'd']
}

/// " quantity".
pub open spec fn w_quantity_suffix() -> Seq<char> {
    seq![' ', 'q', 'u', 'a', 'n', 't', 'i', 't', 'y']
}

/// "suplier".
pub open spec fn w_supplier() -> Seq<char> {
    seq!['s', 'u', 'p', 'l', 'i', 'e', 'r']
}

/// Each prefix followed by the suffix.
pub open spec fn suffixed(prefixes: Seq<Seq<char>>, suffix: Seq<char>) -> Seq<Seq<char>> {
    prefixes.map_values(|p: Seq<char>| p + suffix)
}

/// The header row of the merged restock list: the list's own headers, then
/// brand, price, cost and case of the chosen offer, the price of every
/// supplier list, the quantity on hand, the quantity of every supplier list,
/// and the chosen supplier.
pub open spec fn merged_headers(headers: Seq<Seq<char>>, prefixes: Seq<Seq<char>>) -> Seq<Seq<char>> {
    headers + seq![w_brand(), w_price(), w_cost(), w_case()] + suffixed(prefixes, w_price_suffix())
        + seq![w_qty_on_hand()] + suffixed(prefixes, w_quantity_suffix()) + seq![w_supplier()]
}

/// Header-shape law: the merged list has the list's own columns, two per
/// supplier list and six more.
pub proof fn law_merged_headers_length(headers: Seq<Seq<char>>, prefixes: Seq<Seq<char>>)
    ensures
        merged_headers(headers, prefixes).len() == headers.len() + 2 * prefixes.len() + 6,
        merged_headers(headers, prefixes).subrange(0, headers.len() as int) == headers,
{
    assert(merged_headers(headers, prefixes).subrange(0, headers.len() as int) =~= headers);
}

/// Where the quantity-on-hand column goes in a list with `n` columns:
/// right after the price column, or at the end.
pub open spec fn quantity_position(n: int, price_col: int) -> int {
    if n < price_col + 1 {
        n
    } else {
        price_col + 1
    }
}

// ---------------------------------------------------------------------------
// Executable code
// ---------------------------------------------------------------------------

/// The name prefix of a list file: the part of its stem before the first `-`.
pub fn list_prefix(stem: &str) -> (r: String)
    ensures
        r@ == first_piece(stem@, '-'),
{
    first_part(stem, '-')
}

/// Index of the key `upc` in `keys`.
fn find_key(keys: &Vec<Vec<char>>, upc: &Vec<char>) -> (r: Option<usize>)
    ensures
        r matches Some(i) ==> i < keys.len() && keys@[i as int]@ == upc@,
        r is None ==> forall|i: int| 0 <= i < keys.len() ==> keys@[i]@ != upc@,
{
    let mut i: usize = 0;
    while i < keys.len()
        invariant
            i <= keys.len(),
            forall|j: int| 0 <= j < i ==> keys@[j]@ != upc@,
        decreases keys.len() - i,
    {
        if chars_eq(&keys[i], upc) {
            return Some(i);
        }
        i = i + 1;
    }
    None
}

/// For every UPC among the offers, the index of its cheapest offer (see
/// `best_offer`). Each UPC appears once, in the order of first appearance.
pub fn lowest_prices(offers: &Vec<Offer>) -> (r: Vec<(String, usize)>)
    ensures
        is_lowest_price_table(r@, offers@),
{
    let mut keys: Vec<Vec<char>> = Vec::new();
    let mut best: Vec<usize> = Vec::new();
    let mut i: usize = 0;
    while i < offers.len()
        invariant
            i <= offers.len(),
            keys.len() == best.len(),
            forall|a: int, b: int| 0 <= a < b < keys.len() ==> keys@[a]@ != keys@[b]@,
            forall|a: int|
                0 <= a < keys.len() ==> best_offer(offers@.take(i as int), (#[trigger] keys@[a])@) == Some(
                    best@[a] as int,
                ),
            forall|a: int| 0 <= a < keys.len() ==> best@[a] < i,
            covers(keys@.map_values(|k: Vec<char>| k@), offers@, i as int),
            forall|u: Seq<char>|
                (forall|a: int| 0 <= a < keys.len() ==> keys@[a]@ != u) ==> best_offer(
                    offers@.take(i as int),
                    u,
                ) is None,
        decreases offers.len() - i,
    {
        let ghost pre = offers@.take(i as int);
        let ghost next = offers@.take(i + 1);
        proof {
            assert(next.drop_last() =~= pre);
            assert(next.last() == offers@[i as int]);
        }
        let u = chars_of(offers[i].upc.as_str());
        match find_key(&keys, &u) {
            Some(a) => {
                let w = best[a];
                let o = &offers[i];
                let cur = &offers[w];
                if o.price_rank < cur.price_rank || (o.price_rank == cur.price_rank && o.priority
                    < cur.priority) {
                    best.set(a, i);
                }
                proof {
                    assert(next[w as int] == offers@[w as int]);
                    assert forall|b: int|
                        0 <= b < keys.len() implies best_offer(next, (#[trigger] keys@[b])@)
                        == Some(best@[b] as int) by {
                        if b != a {
                            assert(keys@[b]@ != u@);
                        }
                    }
                    let kv = keys@.map_values(|k: Vec<char>| k@);
                    assert(kv[a as int] == offers@[i as int].upc@);
                    assert(covers(kv, offers@, i + 1));
                    assert forall|v: Seq<char>|
                        (forall|b: int| 0 <= b < keys.len() ==> keys@[b]@ != v) implies best_offer(
                        next,
                        v,
                    ) is None by {
                        assert(keys@[a as int]@ != v);
                        assert(best_offer(pre, v) is None);
                        assert(best_offer(next, v) == best_offer(next.drop_last(), v));
                    }
                }
            },
            None => {
                let ghost old_keys = keys@;
                keys.push(u);
                best.push(i);
                proof {
                    assert(best_offer(pre, u@) is None);
                    assert forall|b: int|
                        0 <= b < keys.len() implies best_offer(next, (#[trigger] keys@[b])@)
                        == Some(best@[b] as int) by {
                        if b < old_keys.len() {
                            assert(keys@[b] == old_keys[b]);
                            assert(keys@[b]@ != u@);
                        }
                    }
                    let kv = keys@.map_values(|k: Vec<char>| k@);
                    let okv = old_keys.map_values(|k: Vec<char>| k@);
                    assert(kv =~= okv.push(u@));
                    assert forall|j: int| 0 <= j < i + 1 implies #[trigger] kv.contains(offers@[j].upc@) by {
                        if j == i {
                            assert(kv[old_keys.len() as int] == offers@[j].upc@);
                        } else {
                            assert(okv.contains(offers@[j].upc@));
                            let b = choose|b: int| 0 <= b < okv.len() && okv[b] == offers@[j].upc@;
                            assert(kv[b] == okv[b]);
                        }
                    }
                    assert forall|v: Seq<char>|
                        (forall|b: int| 0 <= b < keys.len() ==> keys@[b]@ != v) implies best_offer(
                        next,
                        v,
                    ) is None by {
                        assert forall|b: int| 0 <= b < old_keys.len() implies old_keys[b]@ != v by {
                            assert(keys@[b] == old_keys[b]);
                        }
                        assert(keys@[old_keys.len() as int]@ != v);
                        assert(best_offer(pre, v) is None);
                        assert(next.last().upc@ != v);
                        assert(best_offer(next, v) == best_offer(next.drop_last(), v));
                    }
                    assert forall|c: int, d: int| 0 <= c < d < keys.len() implies keys@[c]@ != keys@[d]@ by {
                        if d < old_keys.len() {
                            assert(keys@[c] == old_keys[c]);
                            assert(keys@[d] == old_keys[d]);
                        } else {
                            assert(keys@[c] == old_keys[c]);
                        }
                    }
                }
            },
        }
        i = i + 1;
    }
    assert(offers@.take(offers.len() as int) =~= offers@);
    assert(i == offers.len());
    let mut out: Vec<(String, usize)> = Vec::new();
    let mut a: usize = 0;
    while a < keys.len()
        invariant
            a <= keys.len(),
            keys.len() == best.len(),
            out.len() == a,
            forall|b: int| 0 <= b < a ==> (#[trigger] out@[b]).0@ == keys@[b]@ && out@[b].1 == best@[b],
            covers(keys@.map_values(|k: Vec<char>| k@), offers@, offers.len() as int),
            forall|c: int, d: int| 0 <= c < d < keys.len() ==> keys@[c]@ != keys@[d]@,
            forall|c: int|
                0 <= c < keys.len() ==> best_offer(offers@, (#[trigger] keys@[c])@) == Some(
                    best@[c] as int,
                ),
        decreases keys.len() - a,
    {
        out.push((crate::text::string_of(&keys[a]), best[a]));
        a = a + 1;
    }
    proof {
        let kv = keys@.map_values(|k: Vec<char>| k@);
        let ov = out@.map_values(|p: (String, usize)| p.0@);
        assert(ov =~= kv);
    }
    out
}

/// The chosen offer of a UPC, looked up in the result of `lowest_prices`.
fn winner_of(winners: &Vec<(String, usize)>, upc: &Vec<char>) -> (r: Option<usize>)
    ensures
        r matches Some(a) ==> a < winners.len() && winners@[a as int].0@ == upc@,
        r is None ==> forall|a: int| 0 <= a < winners.len() ==> winners@[a].0@ != upc@,
{
    let mut a: usize = 0;
    while a < winners.len()
        invariant
            a <= winners.len(),
            forall|b: int| 0 <= b < a ==> winners@[b].0@ != upc@,
        decreases winners.len() - a,
    {
        let k = chars_of(winners[a].0.as_str());
        if chars_eq(&k, upc) {
            return Some(a);
        }
        a = a + 1;
    }
    None
}

/// Whether offer `k` comes from the list (by prefix) that holds the best
/// offer of its UPC; such offers make the reduced list of each file.
pub fn is_from_winning_list(offers: &Vec<Offer>, winners: &Vec<(String, usize)>, k: usize) -> (r: bool)
    requires
        k < offers.len(),
        is_lowest_price_table(winners@, offers@),
    ensures
        r == from_winning_list(offers@, k as int),
{
    let u = chars_of(offers[k].upc.as_str());
    match winner_of(&winners, &u) {
        Some(a) => {
            let w = winners[a].1;
            proof {
                law_best_offer(offers@, u@);
            }
            let p = chars_of(offers[w].prefix.as_str());
            let q = chars_of(offers[k].prefix.as_str());
            chars_eq(&p, &q)
        },
        None => {
            proof {
                let wv = winners@.map_values(|p: (String, usize)| p.0@);
                assert(wv.contains(offers@[k as int].upc@));
                let a = choose|a: int| 0 <= a < wv.len() && wv[a] == offers@[k as int].upc@;
                assert(wv[a] == winners@[a].0@);
            }
            false
        },
    }
}

/// For every UPC, the index of the last offer of it that comes from the
/// winning list: the offer whose details the merged restock list shows.
pub fn winning_rows(offers: &Vec<Offer>) -> (r: Vec<(String, usize)>)
    ensures
        forall|a: int|
            0 <= a < r.len() ==> last_winning_offer(offers@, (#[trigger] r@[a]).0@) == Some(
                r@[a].1 as int,
            ),
        forall|u: Seq<char>|
            (forall|a: int| 0 <= a < r.len() ==> r@[a].0@ != u) ==> last_winning_offer(offers@, u)
                is None,
{
    let winners = lowest_prices(offers);
    let mut flags: Vec<bool> = Vec::new();
    let mut k: usize = 0;
    while k < offers.len()
        invariant
            k <= offers.len(),
            is_lowest_price_table(winners@, offers@),
            flags.len() == k,
            forall|j: int| 0 <= j < k ==> flags@[j] == from_winning_list(offers@, j),
        decreases offers.len() - k,
    {
        flags.push(is_from_winning_list(offers, &winners, k));
        k = k + 1;
    }
    // keys[a] with rows[a]: the last winning offer seen so far.
    let mut keys: Vec<Vec<char>> = Vec::new();
    let mut rows: Vec<usize> = Vec::new();
    let mut i: usize = 0;
    while i < offers.len()
        invariant
            i <= offers.len(),
            flags.len() == offers.len(),
            forall|j: int| 0 <= j < offers.len() ==> flags@[j] == from_winning_list(offers@, j),
            keys.len() == rows.len(),
            forall|a: int, b: int| 0 <= a < b < keys.len() ==> keys@[a]@ != keys@[b]@,
            forall|a: int|
                0 <= a < keys.len() ==> last_winning_before(offers@, i as int, (#[trigger] keys@[a])@)
                    == Some(rows@[a] as int),
            forall|u: Seq<char>|
                (forall|a: int| 0 <= a < keys.len() ==> keys@[a]@ != u) ==> last_winning_before(
                    offers@,
                    i as int,
                    u,
                ) is None,
        decreases offers.len() - i,
    {
        let ghost n1 = i + 1;
        if flags[i] {
            let u = chars_of(offers[i].upc.as_str());
            match find_key(&keys, &u) {
                Some(a) => {
                    rows.set(a, i);
                    proof {
                        assert forall|v: Seq<char>|
                            (forall|b: int| 0 <= b < keys.len() ==> keys@[b]@ != v) implies last_winning_before(
                            offers@,
                            n1,
                            v,
                        ) is None by {
                            assert(keys@[a as int]@ != v);
                            assert(last_winning_before(offers@, i as int, v) is None);
                        }
                        assert forall|b: int|
                            0 <= b < keys.len() implies last_winning_before(
                            offers@,
                            n1,
                            (#[trigger] keys@[b])@,
                        ) == Some(rows@[b] as int) by {
                            if b != a {
                                assert(keys@[b]@ != u@);
                            }
                        }
                    }
                },
                None => {
                    let ghost old_keys = keys@;
                    keys.push(u);
                    rows.push(i);
                    proof {
                        assert forall|b: int|
                            0 <= b < keys.len() implies last_winning_before(
                            offers@,
                            n1,
                            (#[trigger] keys@[b])@,
                        ) == Some(rows@[b] as int) by {
                            if b < old_keys.len() {
                                assert(keys@[b] == old_keys[b]);
                            }
                        }
                        assert forall|v: Seq<char>|
                            (forall|b: int| 0 <= b < keys.len() ==> keys@[b]@ != v) implies last_winning_before(
                            offers@,
                            n1,
                            v,
                        ) is None by {
                            assert forall|b: int| 0 <= b < old_keys.len() implies old_keys[b]@ != v by {
                                assert(keys@[b] == old_keys[b]);
                            }
                            assert(keys@[old_keys.len() as int]@ != v);
                            assert(last_winning_before(offers@, i as int, v) is None);
                        }
                        assert forall|c: int, d: int| 0 <= c < d < keys.len() implies keys@[c]@ != keys@[d]@ by {
                            if d < old_keys.len() {
                                assert(keys@[c] == old_keys[c]);
                                assert(keys@[d] == old_keys[d]);
                            } else {
                                assert(keys@[c] == old_keys[c]);
                            }
                        }
                    }
                },
            }
        } else {
            proof {
                assert forall|v: Seq<char>|
                    (forall|b: int| 0 <= b < keys.len() ==> keys@[b]@ != v) implies last_winning_before(
                    offers@,
                    n1,
                    v,
                ) is None by {
                    assert(last_winning_before(offers@, i as int, v) is None);
                }
                assert forall|b: int|
                    0 <= b < keys.len() implies last_winning_before(
                    offers@,
                    n1,
                    (#[trigger] keys@[b])@,
                ) == Some(rows@[b] as int) by {
                    assert(last_winning_before(offers@, i as int, keys@[b]@) == Some(rows@[b] as int));
                }
            }
        }
        i = i + 1;
    }
    assert(offers@.take(offers.len() as int) =~= offers@);
    let mut out: Vec<(String, usize)> = Vec::new();
    let mut a: usize = 0;
    while a < keys.len()
        invariant
            a <= keys.len(),
            keys.len() == rows.len(),
            out.len() == a,
            forall|b: int| 0 <= b < a ==> (#[trigger] out@[b]).0@ == keys@[b]@ && out@[b].1 == rows@[b],
            forall|c: int|
                0 <= c < keys.len() ==> last_winning_before(offers@, offers.len() as int, (#[trigger] keys@[c])@)
                    == Some(rows@[c] as int),
            forall|u: Seq<char>|
                (forall|c: int| 0 <= c < keys.len() ==> keys@[c]@ != u) ==> last_winning_before(
                    offers@,
                    offers.len() as int,
                    u,
                ) is None,
        decreases keys.len() - a,
    {
        out.push((crate::text::string_of(&keys[a]), rows[a]));
        a = a + 1;
    }
    proof {
        assert forall|v: Seq<char>|
            (forall|b: int| 0 <= b < out.len() ==> out@[b].0@ != v) implies last_winning_offer(
            offers@,
            v,
        ) is None by {
            assert forall|b: int| 0 <= b < keys.len() implies keys@[b]@ != v by {
                assert(out@[b].0@ == keys@[b]@);
            }
        }
    }
    out
}

fn text_brand() -> (r: String)
    ensures
        r@ == w_brand(),
{
    let s = "Brand";
    proof {
        reveal_strlit("Brand");
    }
    assert(s@ =~= w_brand());
    word(s, Ghost(w_brand()))
}

fn text_case() -> (r: String)
    ensures
        r@ == w_case(),
{
    let s = "Case";
    proof {
        reveal_strlit("Case");
    }
    assert(s@ =~= w_case());
    word(s, Ghost(w_case()))
}

fn text_qty_on_hand() -> (r: String)
    ensures
        r@ == w_qty_on_hand(),
{
    let s = "Qty on Hand";
    proof {
        reveal_strlit("Qty on Hand");
    }
    assert(s@ =~= w_qty_on_hand());
    word(s, Ghost(w_qty_on_hand()))
}

fn text_quantity_suffix() -> (r: String)
    ensures
        r@ == w_quantity_suffix(),
{
    let s = " quantity";
    proof {
        reveal_strlit(" quantity");
    }
    assert(s@ =~= w_quantity_suffix());
    word(s, Ghost(w_quantity_suffix()))
}

fn text_supplier() -> (r: String)
    ensures
        r@ == w_supplier(),
{
    let s = "suplier";
    proof {
        reveal_strlit("suplier");
    }
    assert(s@ =~= w_supplier());
    word(s, Ghost(w_supplier()))
}

fn text_price() -> (r: String)
    ensures
        r@ == w_price(),
{
    let s = "Price";
    proof {
        reveal_strlit("Price");
    }
    assert(s@ =~= w_price());
    word(s, Ghost(w_price()))
}

fn text_cost() -> (r: String)
    ensures
        r@ == w_cost(),
{
    let s = "Maliyet";
    proof {
        reveal_strlit("Maliyet");
    }
    assert(s@ =~= w_cost());
    word(s, Ghost(w_cost()))
}

fn text_price_suffix() -> (r: String)
    ensures
        r@ == w_price_suffix(),
{
    let s = " price";
    proof {
        reveal_strlit(" price");
    }
    assert(s@ =~= w_price_suffix());
    word(s, Ghost(w_price_suffix()))
}

/// Appends `prefix + suffix` for every prefix.
fn push_suffixed(out: &mut Vec<String>, prefixes: &Vec<String>, suffix: &str)
    ensures
        views(final(out)@) == views(old(out)@) + suffixed(views(prefixes@), suffix@),
{
    let ghost start = views(out@);
    let mut i: usize = 0;
    while i < prefixes.len()
        invariant
            i <= prefixes.len(),
            views(out@) == start + suffixed(views(prefixes@).take(i as int), suffix@),
        decreases prefixes.len() - i,
    {
        let mut h = prefixes[i].clone();
        h.append(suffix);
        let ghost before = views(out@);
        out.push(h);
        assert(views(out@) =~= before.push(prefixes@[i as int]@ + suffix@));
        assert(suffixed(views(prefixes@).take(i + 1), suffix@) =~= suffixed(views(prefixes@).take(i as int), suffix@).push(prefixes@[i as int]@ + suffix@));
        i = i + 1;
    }
    assert(views(prefixes@).take(prefixes.len() as int) =~= views(prefixes@));
}

/// The header row of the merged restock list (see `merged_headers`).
pub fn merged_header_row(headers: &Vec<String>, prefixes: &Vec<String>) -> (r: Vec<String>)
    ensures
        views(r@) == merged_headers(views(headers@), views(prefixes@)),
{
    let mut out: Vec<String> = headers.clone();
    assert(views(out@) =~= views(headers@));
    let ghost base = views(headers@);
    out.push(text_brand());
    out.push(text_price());
    out.push(text_cost());
    out.push(text_case());
    assert(views(out@) =~= base + seq![w_brand(), w_price(), w_cost(), w_case()]);
    let price_suffix = text_price_suffix();
    push_suffixed(&mut out, prefixes, price_suffix.as_str());
    let ghost mid = views(out@);
    out.push(text_qty_on_hand());
    assert(views(out@) =~= mid + seq![w_qty_on_hand()]);
    let quantity_suffix = text_quantity_suffix();
    push_suffixed(&mut out, prefixes, quantity_suffix.as_str());
    let ghost late = views(out@);
    out.push(text_supplier());
    assert(views(out@) =~= late + seq![w_supplier()]);
    out
}

/// Where the quantity-on-hand column goes (see `quantity_position`).
pub fn quantity_column_position(n: usize, price_col: usize) -> (r: usize)
    requires
        price_col < usize::MAX,
    ensures
        r as int == quantity_position(n as int, price_col as int),
{
    if n < price_col + 1 {
        n
    } else {
        price_col + 1
    }
}

/// The cells with `value` inserted at position `at`.
pub fn with_inserted(cells: &Vec<String>, at: usize, value: String) -> (r: Vec<String>)
    requires
        at <= cells.len(),
    ensures
        views(r@) == views(cells@).insert(at as int, value@),
{
    let mut out = cells.clone();
    assert(views(out@) =~= views(cells@));
    let ghost before = out@;
    out.insert(at, value);
    assert(views(out@) =~= views(cells@).insert(at as int, value@)) by {
        assert(out@ =~= before.insert(at as int, value));
    }
    out
}

} // verus!
