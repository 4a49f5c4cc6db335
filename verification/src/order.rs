//! Order creation: which order files a row of the restock list or of the
//! order form contributes to, and the file name of each order.
use vstd::prelude::*;
use crate::stock::word;
use crate::text::{chars_of, copy_str, replace_char, replace_chars, text_eq, to_upper, trim, trimmed, uppercase};

verus! {

/// "0".
pub open spec fn w_zero() -> Seq<char> {
    seq!['0']
}

/// "0.0".
pub open spec fn w_zero_point_zero() -> Seq<char> {
    seq!['0', '.', '0']
}

/// ".xlsx".
pub open spec fn w_xlsx_extension() -> Seq<char> {
    seq!['.', 'x', 'l', 's', 'x']
}

/// The order files that a restock row adds its pieces to: that of its
/// trimmed supplier when it is not blank, then that of its trimmed note
/// when it is neither blank, "0" nor "0.0".
pub open spec fn restock_targets(supplier: Seq<char>, note: Seq<char>) -> Seq<Seq<char>> {
    let s = trimmed(supplier);
    let n = trimmed(note);
    let by_supplier = if s.len() > 0 { seq![s] } else { Seq::empty() };
    let by_note = if n.len() > 0 && n != w_zero() && n != w_zero_point_zero() {
        seq![n]
    } else {
        Seq::empty()
    };
    by_supplier + by_note
}

/// The order file that an order-form row adds its pieces to: that of its
/// trimmed supplier when it is not blank.
pub open spec fn order_form_target(supplier: Seq<char>) -> Option<Seq<char>> {
    let s = trimmed(supplier);
    if s.len() > 0 {
        Some(s)
    } else {
        None
    }
}

/// The name under which an order is saved: the target with `/` and `\`
/// written as `-`, upper-cased.
pub open spec fn safe_target_name(target: Seq<char>) -> Seq<char> {
    uppercase(replace_char(replace_char(target, '/', '-'), '\\', '-'))
}

/// The order files of a restock row (see `restock_targets`).
pub fn restock_targets_of(supplier: &str, note: &str) -> (r: Vec<String>)
    ensures
        r@.map_values(|t: String| t@) == restock_targets(supplier@, note@),
{
    let s = trim(supplier);
    let n = trim(note);
    let zero = "0";
    proof {
        reveal_strlit("0");
    }
    assert(zero@ =~= w_zero());
    let zero_point_zero = "0.0";
    proof {
        reveal_strlit("0.0");
    }
    assert(zero_point_zero@ =~= w_zero_point_zero());
    let mut r: Vec<String> = Vec::new();
    let keep_supplier = chars_of(s.as_str()).len() > 0;
    let keep_note = chars_of(n.as_str()).len() > 0 && !text_eq(n.as_str(), zero) && !text_eq(
        n.as_str(),
        zero_point_zero,
    );
    let ghost sv = s@;
    let ghost nv = n@;
    if keep_supplier {
        r.push(s);
    }
    if keep_note {
        r.push(n);
    }
    assert(r@.map_values(|t: String| t@) =~= restock_targets(supplier@, note@)) by {
        assert(sv == trimmed(supplier@));
        assert(nv == trimmed(note@));
    }
    r
}

/// The order file of an order-form row (see `order_form_target`).
pub fn order_form_target_of(supplier: &str) -> (r: Option<String>)
    ensures
        match r {
            Some(t) => order_form_target(supplier@) == Some(t@),
            None => order_form_target(supplier@) is None,
        },
{
    let s = trim(supplier);
    if chars_of(s.as_str()).len() > 0 {
        Some(s)
    } else {
        None
    }
}

/// The name under which an order is saved (see `safe_target_name`).
pub fn safe_target(target: &str) -> (r: String)
    ensures
        r@ == safe_target_name(target@),
{
    let a = replace_chars(target, '/', '-');
    let b = replace_chars(a.as_str(), '\\', '-');
    to_upper(b.as_str())
}

/// The file name of an order: its safe name followed by ".xlsx".
pub fn order_file_name(target: &str) -> (r: String)
    ensures
        r@ == safe_target_name(target@) + w_xlsx_extension(),
{
    let mut name = safe_target(target);
    let ext = ".xlsx";
    proof {
        reveal_strlit(".xlsx");
    }
    assert(ext@ =~= w_xlsx_extension());
    let e = word(ext, Ghost(w_xlsx_extension()));
    name.append(e.as_str());
    name
}

} // verus!
