//! Reading the tab-separated shipment reports: finding the header line and
//! taking the SKU and shipped count of each later line.
use vstd::prelude::*;
use crate::columns::views;
use crate::stock::word;
use crate::text::{chars_of, first_index_of, position_of, split, split_seq, trim, trimmed};

verus! {

/// "Merchant SKU".
pub open spec fn w_merchant_sku_header() -> Seq<char> {
    seq!['M', 'e', 'r', 'c', 'h', 'a', 'n', 't', ' ', 'S', 'K', 'U']
}

/// "Shipped".
pub open spec fn w_shipped() -> Seq<char> {
    seq!['S', 'h', 'i', 'p', 'p', 'e', 'd']
}

/// The columns of a header line: the first field that is exactly
/// "Merchant SKU" and the first that is exactly "Shipped"; `None` unless
/// both are there.
pub open spec fn header_columns(fields: Seq<Seq<char>>) -> Option<(int, int)> {
    match (first_index_of(fields, w_merchant_sku_header()), first_index_of(fields, w_shipped())) {
        (Some(a), Some(b)) => Some((a, b)),
        _ => None,
    }
}

/// The SKU and the shipped count (both trimmed texts) of a line's fields,
/// when the line reaches both columns.
pub open spec fn record_of(fields: Seq<Seq<char>>, sku: int, shipped: int) -> Option<(Seq<char>, Seq<char>)> {
    if fields.len() > sku && fields.len() > shipped {
        Some((trimmed(fields[sku]), trimmed(fields[shipped])))
    } else {
        None
    }
}

/// One line of a report read in the state `columns` (the header columns
/// once the header line was seen): blank lines are passed over; before the
/// header, a line is tried as the header and gives no record; after it, a
/// line gives the record of its tab-separated fields.
pub open spec fn report_step(columns: Option<(int, int)>, line: Seq<char>) -> (Option<(int, int)>, Option<(Seq<char>, Seq<char>)>) {
    if trimmed(line).len() == 0 {
        (columns, None)
    } else {
        let fields = split_seq(line, '\t');
        match columns {
            None => (header_columns(fields), None),
            Some(c) => (columns, record_of(fields, c.0, c.1)),
        }
    }
}

/// Header law: once the header line of a report is found, every further
/// line keeps its columns.
pub proof fn law_report_header_persists(columns: (int, int), lines: Seq<Seq<char>>)
    ensures
        lines_state(Some(columns), lines) == Some(columns),
    decreases lines.len(),
{
    if lines.len() > 0 {
        law_report_header_persists(columns, lines.drop_first());
    }
}

/// The state after reading the lines in order from the state `columns`.
pub open spec fn lines_state(columns: Option<(int, int)>, lines: Seq<Seq<char>>) -> Option<(int, int)>
    decreases lines.len(),
{
    if lines.len() == 0 {
        columns
    } else {
        lines_state(report_step(columns, lines[0]).0, lines.drop_first())
    }
}

/// The header columns as mathematical integers.
pub open spec fn columns_view(c: Option<(usize, usize)>) -> Option<(int, int)> {
    match c {
        Some(p) => Some((p.0 as int, p.1 as int)),
        None => None,
    }
}

/// The columns of a header line's fields (see `header_columns`).
pub fn header_columns_of(fields: &Vec<String>) -> (r: Option<(usize, usize)>)
    ensures
        columns_view(r) == header_columns(views(fields@)),
{
    let s = "Merchant SKU";
    proof {
        reveal_strlit("Merchant SKU");
    }
    assert(s@ =~= w_merchant_sku_header());
    let t = "Shipped";
    proof {
        reveal_strlit("Shipped");
    }
    assert(t@ =~= w_shipped());
    assert(fields@.map_values(|x: String| x@) == views(fields@));
    match (position_of(fields, s), position_of(fields, t)) {
        (Some(a), Some(b)) => Some((a, b)),
        _ => None,
    }
}

/// Reads one line of a report (see `report_step`).
pub fn read_report_line(columns: Option<(usize, usize)>, line: &str) -> (r: (Option<(usize, usize)>, Option<(String, String)>))
    ensures
        (columns_view(r.0), match r.1 {
            Some(p) => Some((p.0@, p.1@)),
            None => None,
        }) == report_step(columns_view(columns), line@),
{
    let t = trim(line);
    if chars_of(t.as_str()).len() == 0 {
        return (columns, None);
    }
    let fields = split(line, '\t');
    assert(fields@.map_values(|x: String| x@) == views(fields@));
    match columns {
        None => (header_columns_of(&fields), None),
        Some(c) => {
            if fields.len() > c.0 && fields.len() > c.1 {
                let sku = trim(fields[c.0].as_str());
                let shipped = trim(fields[c.1].as_str());
                (columns, Some((sku, shipped)))
            } else {
                (columns, None)
            }
        },
    }
}

} // verus!
