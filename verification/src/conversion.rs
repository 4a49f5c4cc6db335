//! File conversion between delimited text and workbooks: which kind a file
//! type names, which delimiter it uses, and the name of a converted file.
use vstd::prelude::*;
use crate::text::text_eq;

verus! {

/// The kinds of files that are converted.
#[derive(PartialEq, Eq, Structural, Clone, Copy, Debug)]
pub enum FileKind {
    /// Comma-separated text ("csv").
    Csv,
    /// Tab-separated text ("txt").
    Txt,
    /// A workbook ("xlsx").
    Xlsx,
    /// Any other type, which is neither read nor written.
    Other,
}

/// "csv".
pub open spec fn w_csv() -> Seq<char> {
    seq!['c', 's', 'v']
}

/// "txt".
pub open spec fn w_txt() -> Seq<char> {
    seq!['t', 'x', 't']
}

/// "xlsx".
pub open spec fn w_xlsx() -> Seq<char> {
    seq!['x', 'l', 's', 'x']
}

/// The kind a file type names (exactly, in lower case).
pub open spec fn kind_of(t: Seq<char>) -> FileKind {
    if t == w_csv() {
        FileKind::Csv
    } else if t == w_txt() {
        FileKind::Txt
    } else if t == w_xlsx() {
        FileKind::Xlsx
    } else {
        FileKind::Other
    }
}

/// The delimiter of a delimited kind: `,` for csv and a tab for txt.
pub open spec fn delimiter_of(k: FileKind) -> Option<u8> {
    match k {
        FileKind::Csv => Some(44u8),
        FileKind::Txt => Some(9u8),
        _ => None,
    }
}

/// The kind a file type names (see `kind_of`).
pub fn file_kind(t: &str) -> (r: FileKind)
    ensures
        r == kind_of(t@),
{
    let csv = "csv";
    proof {
        reveal_strlit("csv");
    }
    assert(csv@ =~= w_csv());
    let txt = "txt";
    proof {
        reveal_strlit("txt");
    }
    assert(txt@ =~= w_txt());
    let xlsx = "xlsx";
    proof {
        reveal_strlit("xlsx");
    }
    assert(xlsx@ =~= w_xlsx());
    if text_eq(t, csv) {
        FileKind::Csv
    } else if text_eq(t, txt) {
        FileKind::Txt
    } else if text_eq(t, xlsx) {
        FileKind::Xlsx
    } else {
        FileKind::Other
    }
}

/// The delimiter of a kind (see `delimiter_of`).
pub fn delimiter(k: FileKind) -> (r: Option<u8>)
    ensures
        r == delimiter_of(k),
{
    match k {
        FileKind::Csv => Some(44u8),
        FileKind::Txt => Some(9u8),
        _ => None,
    }
}

/// The name of a converted file: the input's stem, a `.` and the output
/// type.
pub fn converted_name(stem: &str, output_type: &str) -> (r: String)
    ensures
        r@ == stem@ + seq!['.'] + output_type@,
{
    let mut name = String::new();
    name.append(stem);
    crate::text::push_char(&mut name, '.');
    name.append(output_type);
    name
}

} // verus!
