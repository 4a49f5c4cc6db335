//! Locating columns of a sheet by the names that the settings allow for them.
use vstd::prelude::*;
use crate::text::{chars_of, eq_ignore_ascii_case, text_eq, text_eq_ignore_ascii_case, trim, trimmed};

verus! {

/// How a header is compared with a column name.
#[derive(PartialEq, Eq, Structural, Clone, Copy, Debug)]
pub enum MatchMode {
    /// The trimmed header equals the name.
    Trimmed,
    /// The trimmed header equals the name up to ASCII case.
    TrimmedIgnoreCase,
    /// The header equals the name up to ASCII case.
    IgnoreCase,
}

/// Why a column could not be located.
#[derive(PartialEq, Eq, Structural, Clone, Copy, Debug)]
pub enum ColumnError {
    /// The settings hold no list of names for the column.
    MissingSetting,
    /// No header matches any of the names.
    NotFound,
}

/// Header `h` matches column name `name` under `mode`.
pub open spec fn header_matches(h: Seq<char>, name: Seq<char>, mode: MatchMode) -> bool {
    match mode {
        MatchMode::Trimmed => trimmed(h) == name,
        MatchMode::TrimmedIgnoreCase => eq_ignore_ascii_case(trimmed(h), name),
        MatchMode::IgnoreCase => eq_ignore_ascii_case(h, name),
    }
}

/// Index of the first header from position `i` on that matches `name`.
pub open spec fn first_match_from(headers: Seq<Seq<char>>, name: Seq<char>, mode: MatchMode, i: int) -> Option<int>
    decreases headers.len() - i,
{
    if i < 0 || i >= headers.len() {
        None
    } else if header_matches(headers[i], name, mode) {
        Some(i)
    } else {
        first_match_from(headers, name, mode, i + 1)
    }
}

/// Index of the first header that matches `name`.
pub open spec fn first_match(headers: Seq<Seq<char>>, name: Seq<char>, mode: MatchMode) -> Option<int> {
    first_match_from(headers, name, mode, 0)
}

/// The column of the first name (in settings order) that some header
/// matches; names that are not texts are passed over.
pub open spec fn column_for(headers: Seq<Seq<char>>, names: Seq<Option<Seq<char>>>, mode: MatchMode) -> Option<int>
    decreases names.len(),
{
    if names.len() == 0 {
        None
    } else {
        let rest = column_for(headers, names.drop_first(), mode);
        match names[0] {
            Some(n) => match first_match(headers, n, mode) {
                Some(i) => Some(i),
                None => rest,
            },
            None => rest,
        }
    }
}

/// The views of texts.
pub open spec fn views(v: Seq<String>) -> Seq<Seq<char>> {
    v.map_values(|s: String| s@)
}

/// The views of optional texts.
pub open spec fn option_views(v: Seq<Option<String>>) -> Seq<Option<Seq<char>>> {
    v.map_values(|o: Option<String>| match o {
        Some(s) => Some(s@),
        None => None,
    })
}

/// Whether header `h` matches column name `name` under `mode`.
pub fn matches_header(h: &str, name: &str, mode: MatchMode) -> (r: bool)
    ensures
        r == header_matches(h@, name@, mode),
{
    match mode {
        MatchMode::Trimmed => {
            let t = trim(h);
            text_eq(t.as_str(), name)
        },
        MatchMode::TrimmedIgnoreCase => {
            let t = trim(h);
            text_eq_ignore_ascii_case(t.as_str(), name)
        },
        MatchMode::IgnoreCase => text_eq_ignore_ascii_case(h, name),
    }
}

/// Index of the first header that matches `name`.
pub fn find_header(headers: &Vec<String>, name: &str, mode: MatchMode) -> (r: Option<usize>)
    ensures
        crate::text::as_int_option(r) == first_match(views(headers@), name@, mode),
        r matches Some(i) ==> i < headers.len(),
{
    let ghost hv = views(headers@);
    let mut i: usize = 0;
    while i < headers.len()
        invariant
            i <= headers.len(),
            hv == views(headers@),
            first_match(hv, name@, mode) == first_match_from(hv, name@, mode, i as int),
        decreases headers.len() - i,
    {
        proof {
            assert(hv[i as int] == headers@[i as int]@);
        }
        if matches_header(headers[i].as_str(), name, mode) {
            return Some(i);
        }
        i = i + 1;
    }
    None
}

/// Locates a column: `MissingSetting` without a list of names; otherwise
/// the column of the first name (in list order, texts only) that some
/// header matches, at the first such header, or `NotFound`.
pub fn locate_column(headers: &Vec<String>, names: Option<&Vec<Option<String>>>, mode: MatchMode) -> (r: Result<usize, ColumnError>)
    ensures
        names is None ==> r == Err::<usize, ColumnError>(ColumnError::MissingSetting),
        names matches Some(ns) ==> match column_for(views(headers@), option_views(ns@), mode) {
            Some(i) => r == Ok::<usize, ColumnError>(i as usize),
            None => r == Err::<usize, ColumnError>(ColumnError::NotFound),
        },
        r matches Ok(i) ==> i < headers.len(),
{
    if names.is_none() {
        return Err(ColumnError::MissingSetting);
    }
    let ns = names.unwrap();
    assert(names == Some(ns));
    let ghost hv = views(headers@);
    let ghost nv = option_views(ns@);
    let mut k: usize = 0;
    assert(nv.skip(0) =~= nv);
    while k < ns.len()
        invariant
            k <= ns.len(),
            names == Some(ns),
            hv == views(headers@),
            nv == option_views(ns@),
            column_for(hv, nv, mode) == column_for(hv, nv.skip(k as int), mode),
        decreases ns.len() - k,
    {
        proof {
            assert(nv.skip(k as int).drop_first() =~= nv.skip(k + 1));
            assert(nv.skip(k as int)[0] == nv[k as int]);
        }
        match &ns[k] {
            Some(n) => {
                match find_header(headers, n.as_str(), mode) {
                    Some(i) => {
                        proof {
                            assert(nv[k as int] == Some(n@));
                            assert(column_for(hv, nv.skip(k as int), mode) == Some(i as int));
                        }
                        return Ok(i);
                    },
                    None => {},
                }
            },
            None => {},
        }
        k = k + 1;
    }
    proof {
        assert(nv.skip(ns.len() as int) =~= Seq::<Option<Seq<char>>>::empty());
        if let Some(i) = column_for(hv, nv, mode) {
            lemma_column_bound(hv, nv, mode);
        }
    }
    Err(ColumnError::NotFound)
}

proof fn lemma_first_match_bound(headers: Seq<Seq<char>>, name: Seq<char>, mode: MatchMode, i: int)
    ensures
        first_match_from(headers, name, mode, i) matches Some(j) ==> 0 <= j < headers.len(),
    decreases headers.len() - i,
{
    if 0 <= i < headers.len() {
        lemma_first_match_bound(headers, name, mode, i + 1);
    }
}

proof fn lemma_column_bound(headers: Seq<Seq<char>>, names: Seq<Option<Seq<char>>>, mode: MatchMode)
    ensures
        column_for(headers, names, mode) matches Some(j) ==> 0 <= j < headers.len(),
    decreases names.len(),
{
    if names.len() > 0 {
        lemma_column_bound(headers, names.drop_first(), mode);
        if let Some(n) = names[0] {
            lemma_first_match_bound(headers, n, mode, 0);
        }
    }
}

/// The trimmed texts of a row of header cells.
pub fn trimmed_headers(cells: &Vec<String>) -> (r: Vec<String>)
    ensures
        r.len() == cells.len(),
        forall|i: int| 0 <= i < cells.len() ==> (#[trigger] r@[i])@ == trimmed(cells@[i]@),
{
    let mut out: Vec<String> = Vec::new();
    let mut i: usize = 0;
    while i < cells.len()
        invariant
            i <= cells.len(),
            out.len() == i,
            forall|j: int| 0 <= j < i ==> (#[trigger] out@[j])@ == trimmed(cells@[j]@),
        decreases cells.len() - i,
    {
        out.push(trim(cells[i].as_str()));
        i = i + 1;
    }
    out
}

} // verus!
