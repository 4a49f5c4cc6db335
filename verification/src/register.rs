//! The shipment register kept from the master workbook: which sheets hold
//! its lines and its notes, where their columns are, which rows are kept and
//! what a kept row becomes.
use vstd::prelude::*;
use crate::calendar::{as_day, valid_date};
use crate::columns::views;
use crate::dates::{created_date_of, created_date_on, expiry_date_of, expiry_date_on};
use crate::shipment::{cell, cell_at};
use crate::stock::{w_nan, w_qty, w_sku, word};
use crate::text::{
    chars_of, contains_text, lowercase, text_contains, text_eq, to_lower, to_upper, trim, trimmed,
    uppercase,
};

verus! {

// ---------------------------------------------------------------------------
// Words
// ---------------------------------------------------------------------------

/// "ANAL".
pub open spec fn w_anal() -> Seq<char> {
    seq!['A', 'N', 'A', 'L']
}

/// "SIRALI".
pub open spec fn w_sirali() -> Seq<char> {
    seq!['S', 'I', 'R', 'A', 'L', 'I']
}

/// "ANALİZ".
pub open spec fn w_analiz() -> Seq<char> {
    seq!['A', 'N', 'A', 'L', 'İ', 'Z']
}

/// "EXPRATION".
pub open spec fn w_expration() -> Seq<char> {
    seq!['E', 'X', 'P', 'R', 'A', 'T', 'I', 'O', 'N']
}

/// "name".
pub open spec fn w_name() -> Seq<char> {
    seq!['n', 'a', 'm', 'e']
}

/// "id".
pub open spec fn w_id() -> Seq<char> {
    seq!['i', 'd']
}

/// "date".
pub open spec fn w_date() -> Seq<char> {
    seq!['d', 'a', 't', 'e']
}

/// "exp".
pub open spec fn w_exp() -> Seq<char> {
    seq!['e', 'x', 'p']
}

/// "adet".
pub open spec fn w_adet() -> Seq<char> {
    seq!['a', 'd', 'e', 't']
}

/// "not".
pub open spec fn w_not() -> Seq<char> {
    seq!['n', 'o', 't']
}

/// "note".
pub open spec fn w_note() -> Seq<char> {
    seq!['n', 'o', 't', 'e']
}

// ---------------------------------------------------------------------------
// Texts of the words
// ---------------------------------------------------------------------------

fn text_anal() -> (r: String)
    ensures
        r@ == w_anal(),
{
    let s = "ANAL";
    proof {
        reveal_strlit("ANAL");
    }
    assert(s@ =~= w_anal());
    word(s, Ghost(w_anal()))
}

fn text_sirali() -> (r: String)
    ensures
        r@ == w_sirali(),
{
    let s = "SIRALI";
    proof {
        reveal_strlit("SIRALI");
    }
    assert(s@ =~= w_sirali());
    word(s, Ghost(w_sirali()))
}

fn text_analiz() -> (r: String)
    ensures
        r@ == w_analiz(),
{
    let s = "ANALİZ";
    proof {
        reveal_strlit("ANALİZ");
    }
    assert(s@ =~= w_analiz());
    word(s, Ghost(w_analiz()))
}

fn text_expration() -> (r: String)
    ensures
        r@ == w_expration(),
{
    let s = "EXPRATION";
    proof {
        reveal_strlit("EXPRATION");
    }
    assert(s@ =~= w_expration());
    word(s, Ghost(w_expration()))
}

fn text_name() -> (r: String)
    ensures
        r@ == w_name(),
{
    let s = "name";
    proof {
        reveal_strlit("name");
    }
    assert(s@ =~= w_name());
    word(s, Ghost(w_name()))
}

fn text_id() -> (r: String)
    ensures
        r@ == w_id(),
{
    let s = "id";
    proof {
        reveal_strlit("id");
    }
    assert(s@ =~= w_id());
    word(s, Ghost(w_id()))
}

fn text_date() -> (r: String)
    ensures
        r@ == w_date(),
{
    let s = "date";
    proof {
        reveal_strlit("date");
    }
    assert(s@ =~= w_date());
    word(s, Ghost(w_date()))
}

fn text_exp() -> (r: String)
    ensures
        r@ == w_exp(),
{
    let s = "exp";
    proof {
        reveal_strlit("exp");
    }
    assert(s@ =~= w_exp());
    word(s, Ghost(w_exp()))
}

fn text_adet() -> (r: String)
    ensures
        r@ == w_adet(),
{
    let s = "adet";
    proof {
        reveal_strlit("adet");
    }
    assert(s@ =~= w_adet());
    word(s, Ghost(w_adet()))
}

fn text_not() -> (r: String)
    ensures
        r@ == w_not(),
{
    let s = "not";
    proof {
        reveal_strlit("not");
    }
    assert(s@ =~= w_not());
    word(s, Ghost(w_not()))
}

fn text_note() -> (r: String)
    ensures
        r@ == w_note(),
{
    let s = "note";
    proof {
        reveal_strlit("note");
    }
    assert(s@ =~= w_note());
    word(s, Ghost(w_note()))
}

// ---------------------------------------------------------------------------
// Sheets
// ---------------------------------------------------------------------------

/// A sheet whose notes are read: its upper-cased name contains "ANAL".
pub open spec fn is_notes_sheet(name: Seq<char>) -> bool {
    contains_text(uppercase(name), w_anal())
}

/// A sheet that can hold the lines: its upper-cased name contains
/// "SIRALI", "ANALİZ" or "EXPRATION".
pub open spec fn is_lines_sheet(name: Seq<char>) -> bool {
    let u = uppercase(name);
    contains_text(u, w_sirali()) || contains_text(u, w_analiz()) || contains_text(u, w_expration())
}

/// The first sheet among the first `n` that can hold the lines.
pub open spec fn first_lines_sheet(names: Seq<Seq<char>>, n: int) -> Option<int>
    decreases n,
{
    if n <= 0 {
        None
    } else {
        match first_lines_sheet(names, n - 1) {
            Some(i) => Some(i),
            None => if is_lines_sheet(names[n - 1]) {
                Some(n - 1)
            } else {
                None
            },
        }
    }
}

/// The sheet read for the lines: the first that can hold them, else the
/// first sheet.
pub open spec fn lines_sheet(names: Seq<Seq<char>>) -> int {
    match first_lines_sheet(names, names.len() as int) {
        Some(i) => i,
        None => 0,
    }
}

/// Whether the notes of a sheet are read (see `is_notes_sheet`).
pub fn notes_sheet(name: &str) -> (r: bool)
    ensures
        r == is_notes_sheet(name@),
{
    let u = to_upper(name);
    let w = text_anal();
    text_contains(u.as_str(), w.as_str())
}

fn lines_sheet_name(name: &str) -> (r: bool)
    ensures
        r == is_lines_sheet(name@),
{
    let u = to_upper(name);
    let a = text_sirali();
    let b = text_analiz();
    let c = text_expration();
    text_contains(u.as_str(), a.as_str()) || text_contains(u.as_str(), b.as_str()) || text_contains(
        u.as_str(),
        c.as_str(),
    )
}

/// The sheet read for the lines (see `lines_sheet`); the workbook has at
/// least one sheet.
pub fn lines_sheet_index(names: &Vec<String>) -> (r: usize)
    requires
        names.len() > 0,
    ensures
        r == lines_sheet(views(names@)),
        r < names.len(),
{
    let ghost ns = views(names@);
    let mut i: usize = 0;
    while i < names.len()
        invariant
            i <= names.len(),
            ns == views(names@),
            first_lines_sheet(ns, i as int) is None,
        decreases names.len() - i,
    {
        if lines_sheet_name(names[i].as_str()) {
            assert(ns[i as int] == names@[i as int]@);
            assert(first_lines_sheet(ns, i + 1) == Some(i as int));
            proof {
                lemma_first_lines_sheet_stays(ns, i + 1, ns.len() as int);
            }
            return i;
        }
        assert(ns[i as int] == names@[i as int]@);
        i = i + 1;
    }
    0
}

/// Once found, the first sheet that can hold the lines stays the first.
proof fn lemma_first_lines_sheet_stays(names: Seq<Seq<char>>, n: int, m: int)
    requires
        first_lines_sheet(names, n) is Some,
        n <= m,
    ensures
        first_lines_sheet(names, m) == first_lines_sheet(names, n),
    decreases m - n,
{
    if n < m {
        lemma_first_lines_sheet_stays(names, n, m - 1);
    }
}

// ---------------------------------------------------------------------------
// Columns of the notes
// ---------------------------------------------------------------------------

/// Columns of a notes sheet.
pub struct NoteColumns {
    pub id: usize,
    pub sku: usize,
    pub note: usize,
}

/// The text contains one of the words.
pub open spec fn contains_any(key: Seq<char>, words: Seq<Seq<char>>) -> bool {
    exists|j: int| 0 <= j < words.len() && contains_text(key, #[trigger] words[j])
}

/// Headers lower-cased.
pub open spec fn lowered(headers: Seq<Seq<char>>) -> Seq<Seq<char>> {
    headers.map_values(|h: Seq<char>| lowercase(h))
}

/// The last of the first `n` (lower-cased) headers that contains one of the
/// words.
pub open spec fn last_containing(keys: Seq<Seq<char>>, words: Seq<Seq<char>>, n: int) -> Option<int>
    decreases n,
{
    if n <= 0 {
        None
    } else if contains_any(keys[n - 1], words) {
        Some(n - 1)
    } else {
        last_containing(keys, words, n - 1)
    }
}

/// The columns of a notes sheet from its lower-cased headers: the last
/// headers that mention "id", "sku" and "not" or "note"; `None` unless all
/// three are there.
pub open spec fn note_columns_of(keys: Seq<Seq<char>>) -> Option<(int, int, int)> {
    let n = keys.len() as int;
    match (
        last_containing(keys, seq![w_id()], n),
        last_containing(keys, seq![w_sku()], n),
        last_containing(keys, seq![w_not(), w_note()], n),
    ) {
        (Some(a), Some(b), Some(c)) => Some((a, b, c)),
        _ => None,
    }
}

fn contains_any_of(key: &str, words: &Vec<String>) -> (r: bool)
    ensures
        r == contains_any(key@, views(words@)),
{
    let ghost ws = views(words@);
    let mut j: usize = 0;
    while j < words.len()
        invariant
            j <= words.len(),
            ws == views(words@),
            forall|k: int| 0 <= k < j ==> !contains_text(key@, #[trigger] ws[k]),
        decreases words.len() - j,
    {
        if text_contains(key, words[j].as_str()) {
            assert(contains_text(key@, ws[j as int]));
            return true;
        }
        j = j + 1;
    }
    false
}

/// Lower-cases each header.
fn lower_all(headers: &Vec<String>) -> (r: Vec<String>)
    ensures
        views(r@) == lowered(views(headers@)),
{
    let mut keys: Vec<String> = Vec::new();
    let mut i: usize = 0;
    while i < headers.len()
        invariant
            i <= headers.len(),
            views(keys@) == lowered(views(headers@)).take(i as int),
        decreases headers.len() - i,
    {
        let key = to_lower(headers[i].as_str());
        let ghost before = views(keys@);
        keys.push(key);
        assert(views(keys@) =~= before.push(lowercase(headers@[i as int]@)));
        assert(lowered(views(headers@)).take(i + 1) =~= lowered(views(headers@)).take(i as int).push(
            lowercase(headers@[i as int]@),
        ));
        i = i + 1;
    }
    assert(lowered(views(headers@)).take(headers.len() as int) =~= lowered(views(headers@)));
    keys
}

fn last_header_containing(headers: &Vec<String>, words: &Vec<String>) -> (r: Option<usize>)
    ensures
        match r {
            Some(i) => last_containing(views(headers@), views(words@), headers.len() as int) == Some(i as int),
            None => last_containing(views(headers@), views(words@), headers.len() as int) is None,
        },
{
    let ghost hs = views(headers@);
    let mut found: Option<usize> = None;
    let mut i: usize = 0;
    while i < headers.len()
        invariant
            i <= headers.len(),
            hs == views(headers@),
            match found {
                Some(k) => last_containing(hs, views(words@), i as int) == Some(k as int),
                None => last_containing(hs, views(words@), i as int) is None,
            },
        decreases headers.len() - i,
    {
        assert(hs[i as int] == headers@[i as int]@);
        if contains_any_of(headers[i].as_str(), words) {
            found = Some(i);
        }
        i = i + 1;
    }
    found
}

/// The columns of a notes sheet from its lower-cased headers (see
/// `note_columns_of`).
pub fn note_columns_of_keys(headers: &Vec<String>) -> (r: Option<NoteColumns>)
    ensures
        match r {
            Some(c) => note_columns_of(views(headers@)) == Some((c.id as int, c.sku as int, c.note as int)),
            None => note_columns_of(views(headers@)) is None,
        },
{
    let mut w_ids: Vec<String> = Vec::new();
    w_ids.push(text_id());
    let mut w_skus: Vec<String> = Vec::new();
    w_skus.push(crate::stock::text_sku());
    let mut w_notes: Vec<String> = Vec::new();
    w_notes.push(text_not());
    w_notes.push(text_note());
    assert(views(w_ids@) =~= seq![w_id()]);
    assert(views(w_skus@) =~= seq![w_sku()]);
    assert(views(w_notes@) =~= seq![w_not(), w_note()]);
    let a = last_header_containing(headers, &w_ids);
    let b = last_header_containing(headers, &w_skus);
    let c = last_header_containing(headers, &w_notes);
    match (a, b, c) {
        (Some(id), Some(sku), Some(note)) => Some(NoteColumns { id, sku, note }),
        _ => None,
    }
}

/// The columns of a notes sheet from its header cells, compared lower-cased
/// (see `note_columns_of`).
pub fn note_columns(headers: &Vec<String>) -> (r: Option<NoteColumns>)
    ensures
        match r {
            Some(c) => note_columns_of(lowered(views(headers@))) == Some((c.id as int, c.sku as int, c.note as int)),
            None => note_columns_of(lowered(views(headers@))) is None,
        },
{
    let keys = lower_all(headers);
    note_columns_of_keys(&keys)
}

// ---------------------------------------------------------------------------
// Notes
// ---------------------------------------------------------------------------

/// The note a row of a notes sheet gives: its shipment id and SKU, trimmed
/// and upper-cased, and its trimmed note; none when one of them is blank or
/// the note is "nan".
pub open spec fn note_entry_of(cells: Seq<String>, c: NoteColumns) -> Option<(Seq<char>, Seq<char>, Seq<char>)> {
    let id = uppercase(trimmed(cell_at(cells, c.id as int)));
    let sku = uppercase(trimmed(cell_at(cells, c.sku as int)));
    let note = trimmed(cell_at(cells, c.note as int));
    if id.len() > 0 && sku.len() > 0 && note.len() > 0 && lowercase(note) != w_nan() {
        Some((id, sku, note))
    } else {
        None
    }
}

/// The note a row of a notes sheet gives (see `note_entry_of`).
pub fn note_entry(cells: &Vec<String>, c: &NoteColumns) -> (r: Option<(String, String, String)>)
    ensures
        match r {
            Some(e) => note_entry_of(cells@, *c) == Some((e.0@, e.1@, e.2@)),
            None => note_entry_of(cells@, *c) is None,
        },
{
    let id_cell = cell(cells, c.id);
    let sku_cell = cell(cells, c.sku);
    let note_cell = cell(cells, c.note);
    let id = to_upper(trim(id_cell.as_str()).as_str());
    let sku = to_upper(trim(sku_cell.as_str()).as_str());
    let note = trim(note_cell.as_str());
    let low = to_lower(note.as_str());
    let nan = crate::stock::text_nan();
    if chars_of(id.as_str()).len() > 0 && chars_of(sku.as_str()).len() > 0 && chars_of(note.as_str()).len() > 0
        && !text_eq(low.as_str(), nan.as_str()) {
        Some((id, sku, note))
    } else {
        None
    }
}

/// The views of note entries.
pub open spec fn entry_views(v: Seq<(String, String, String)>) -> Seq<(Seq<char>, Seq<char>, Seq<char>)> {
    v.map_values(|e: (String, String, String)| (e.0@, e.1@, e.2@))
}

/// The note of the last of the first `n` entries for the shipment id and
/// SKU (later notes replace earlier ones).
pub open spec fn note_lookup(entries: Seq<(Seq<char>, Seq<char>, Seq<char>)>, id: Seq<char>, sku: Seq<char>, n: int) -> Option<Seq<char>>
    decreases n,
{
    if n <= 0 {
        None
    } else if entries[n - 1].0 == id && entries[n - 1].1 == sku {
        Some(entries[n - 1].2)
    } else {
        note_lookup(entries, id, sku, n - 1)
    }
}

/// The note kept for a line: that of its upper-cased shipment id and SKU,
/// or empty text.
pub open spec fn note_text(entries: Seq<(Seq<char>, Seq<char>, Seq<char>)>, id: Seq<char>, sku: Seq<char>) -> Seq<char> {
    match note_lookup(entries, uppercase(id), uppercase(sku), entries.len() as int) {
        Some(t) => t,
        None => Seq::empty(),
    }
}

/// Note law: a note read later for the same shipment id and SKU replaces
/// the ones read before it.
pub proof fn law_later_note_wins(
    entries: Seq<(Seq<char>, Seq<char>, Seq<char>)>,
    e: (Seq<char>, Seq<char>, Seq<char>),
    id: Seq<char>,
    sku: Seq<char>,
)
    requires
        e.0 == uppercase(id),
        e.1 == uppercase(sku),
    ensures
        note_text(entries.push(e), id, sku) == e.2,
{
    assert(entries.push(e)[entries.len() as int] == e);
}

/// The note kept for a line (see `note_text`).
pub fn note_for(entries: &Vec<(String, String, String)>, id: &str, sku: &str) -> (r: String)
    ensures
        r@ == note_text(entry_views(entries@), id@, sku@),
{
    let ghost es = entry_views(entries@);
    let uid = to_upper(id);
    let usku = to_upper(sku);
    let mut i: usize = entries.len();
    while i > 0
        invariant
            i <= entries.len(),
            es == entry_views(entries@),
            uid@ == uppercase(id@),
            usku@ == uppercase(sku@),
            note_lookup(es, uid@, usku@, entries.len() as int) == note_lookup(es, uid@, usku@, i as int),
        decreases i,
    {
        let e = &entries[i - 1];
        assert(es[i - 1] == (e.0@, e.1@, e.2@));
        if text_eq(e.0.as_str(), uid.as_str()) && text_eq(e.1.as_str(), usku.as_str()) {
            return e.2.clone();
        }
        i = i - 1;
    }
    String::new()
}

// ---------------------------------------------------------------------------
// Columns of the lines
// ---------------------------------------------------------------------------

/// Columns of the lines sheet.
pub struct RegisterColumns {
    pub name: usize,
    pub id: usize,
    pub date: Option<usize>,
    pub sku: usize,
    pub qty: usize,
    pub exp: usize,
}

/// What a (lower-cased) header of the lines sheet names, by the first rule
/// it meets: 0 the shipment name ("name"), 1 its id ("id"), 2 its creation
/// date ("date" but not "exp"), 3 the SKU ("sku"), 4 the quantity ("qty" or
/// "adet"), 5 the expiry date ("exp"), 6 nothing.
pub open spec fn header_role(k: Seq<char>) -> int {
    if contains_text(k, w_name()) {
        0
    } else if contains_text(k, w_id()) {
        1
    } else if contains_text(k, w_date()) && !contains_text(k, w_exp()) {
        2
    } else if contains_text(k, w_sku()) {
        3
    } else if contains_text(k, w_qty()) || contains_text(k, w_adet()) {
        4
    } else if contains_text(k, w_exp()) {
        5
    } else {
        6
    }
}

/// The last of the first `n` headers with the role.
pub open spec fn last_with_role(headers: Seq<Seq<char>>, role: int, n: int) -> Option<int>
    decreases n,
{
    if n <= 0 {
        None
    } else if header_role(headers[n - 1]) == role {
        Some(n - 1)
    } else {
        last_with_role(headers, role, n - 1)
    }
}

/// The column of a role, the first column when no header has it.
pub open spec fn column_or_first(headers: Seq<Seq<char>>, role: int) -> int {
    match last_with_role(headers, role, headers.len() as int) {
        Some(i) => i,
        None => 0,
    }
}

fn role_of(ks: &str) -> (r: u8)
    ensures
        r as int == header_role(ks@),
{
    if text_contains(ks, text_name().as_str()) {
        0
    } else if text_contains(ks, text_id().as_str()) {
        1
    } else if text_contains(ks, text_date().as_str()) && !text_contains(ks, text_exp().as_str()) {
        2
    } else if text_contains(ks, crate::stock::text_sku().as_str()) {
        3
    } else if text_contains(ks, crate::stock::text_qty().as_str()) || text_contains(ks, text_adet().as_str()) {
        4
    } else if text_contains(ks, text_exp().as_str()) {
        5
    } else {
        6
    }
}

/// `found` is the last of the first `n` headers with the role.
pub open spec fn tracks_role(found: Option<usize>, headers: Seq<Seq<char>>, role: int, n: int) -> bool {
    match found {
        Some(k) => last_with_role(headers, role, n) == Some(k as int),
        None => last_with_role(headers, role, n) is None,
    }
}

/// The column of a role that was found, else the first column.
fn found_or_first(found: Option<usize>) -> (r: usize)
    ensures
        r == match found {
            Some(k) => k,
            None => 0,
        },
{
    match found {
        Some(k) => k,
        None => 0,
    }
}

/// The columns of the lines sheet from its lower-cased headers: for each
/// role, the last header with it.
pub fn register_columns_of_keys(headers: &Vec<String>) -> (r: RegisterColumns)
    ensures
        r.name as int == column_or_first(views(headers@), 0),
        r.id as int == column_or_first(views(headers@), 1),
        tracks_role(r.date, views(headers@), 2, headers.len() as int),
        r.sku as int == column_or_first(views(headers@), 3),
        r.qty as int == column_or_first(views(headers@), 4),
        r.exp as int == column_or_first(views(headers@), 5),
{
    let ghost hs = views(headers@);
    let mut name: Option<usize> = None;
    let mut id: Option<usize> = None;
    let mut date: Option<usize> = None;
    let mut sku: Option<usize> = None;
    let mut qty: Option<usize> = None;
    let mut exp: Option<usize> = None;
    let mut i: usize = 0;
    while i < headers.len()
        invariant
            i <= headers.len(),
            hs == views(headers@),
            tracks_role(name, hs, 0, i as int),
            tracks_role(id, hs, 1, i as int),
            tracks_role(date, hs, 2, i as int),
            tracks_role(sku, hs, 3, i as int),
            tracks_role(qty, hs, 4, i as int),
            tracks_role(exp, hs, 5, i as int),
        decreases headers.len() - i,
    {
        let role = role_of(headers[i].as_str());
        assert(hs[i as int] == headers@[i as int]@);
        if role == 0 {
            name = Some(i);
        } else if role == 1 {
            id = Some(i);
        } else if role == 2 {
            date = Some(i);
        } else if role == 3 {
            sku = Some(i);
        } else if role == 4 {
            qty = Some(i);
        } else if role == 5 {
            exp = Some(i);
        }
        i = i + 1;
    }
    RegisterColumns {
        name: found_or_first(name),
        id: found_or_first(id),
        date,
        sku: found_or_first(sku),
        qty: found_or_first(qty),
        exp: found_or_first(exp),
    }
}

/// The columns of the lines sheet from its header cells, compared
/// lower-cased: for each role, the last header with it.
pub fn register_columns(headers: &Vec<String>) -> (r: RegisterColumns)
    ensures
        r.name as int == column_or_first(lowered(views(headers@)), 0),
        r.id as int == column_or_first(lowered(views(headers@)), 1),
        tracks_role(r.date, lowered(views(headers@)), 2, headers.len() as int),
        r.sku as int == column_or_first(lowered(views(headers@)), 3),
        r.qty as int == column_or_first(lowered(views(headers@)), 4),
        r.exp as int == column_or_first(lowered(views(headers@)), 5),
{
    let keys = lower_all(headers);
    register_columns_of_keys(&keys)
}

// ---------------------------------------------------------------------------
// Lines
// ---------------------------------------------------------------------------

/// A line of the register, as it is stored.
pub struct RegisterLine {
    pub shipment_id: String,
    pub shipment_name: String,
    pub created_date: String,
    pub created_timestamp: String,
    pub sku: String,
    pub qty: i32,
    pub exp_date_usa: String,
    pub exp_date_tur: String,
    pub days_remaining: i32,
    pub note: String,
}

/// A row of the lines sheet is kept when its trimmed shipment id and SKU
/// are not blank and the SKU is not "nan".
pub open spec fn row_kept(cells: Seq<String>, c: RegisterColumns) -> bool {
    let id = trimmed(cell_at(cells, c.id as int));
    let sku = trimmed(cell_at(cells, c.sku as int));
    sku.len() > 0 && id.len() > 0 && lowercase(sku) != w_nan()
}

/// The creation-date cell of a row (empty text without a date column).
pub open spec fn date_cell(cells: Seq<String>, c: RegisterColumns) -> Seq<char> {
    match c.date {
        Some(i) => cell_at(cells, i as int),
        None => Seq::empty(),
    }
}

/// The line a kept row becomes on the day `today`, its quantity read as
/// `qty`: trimmed id, name and SKU, the creation and expiry dates of its
/// cells, and the note kept for its id and SKU.
pub open spec fn is_register_line(
    l: RegisterLine,
    cells: Seq<String>,
    c: RegisterColumns,
    qty: i32,
    entries: Seq<(Seq<char>, Seq<char>, Seq<char>)>,
    today: (int, int, int),
) -> bool {
    let id = trimmed(cell_at(cells, c.id as int));
    let sku = trimmed(cell_at(cells, c.sku as int));
    &&& l.shipment_id@ == id
    &&& l.sku@ == sku
    &&& l.shipment_name@ == trimmed(cell_at(cells, c.name as int))
    &&& l.qty == qty
    &&& (l.created_date@, l.created_timestamp@) == created_date_of(date_cell(cells, c), today)
    &&& (l.exp_date_usa@, l.exp_date_tur@, l.days_remaining as int) == expiry_date_of(cell_at(cells, c.exp as int), today)
    &&& l.note@ == note_text(entries, id, sku)
}

/// The line a row of the lines sheet becomes, if it is kept.
pub fn register_line(
    cells: &Vec<String>,
    c: &RegisterColumns,
    qty: i32,
    notes: &Vec<(String, String, String)>,
    today: (i32, u32, u32),
) -> (r: Option<RegisterLine>)
    requires
        valid_date(today.0 as int, today.1 as int, today.2 as int),
    ensures
        r is Some <==> row_kept(cells@, *c),
        r matches Some(l) ==> is_register_line(l, cells@, *c, qty, entry_views(notes@), as_day(today)),
{
    let id = trim(cell(cells, c.id).as_str());
    let sku = trim(cell(cells, c.sku).as_str());
    let low = to_lower(sku.as_str());
    let nan = crate::stock::text_nan();
    if chars_of(sku.as_str()).len() == 0 || chars_of(id.as_str()).len() == 0 || text_eq(low.as_str(), nan.as_str()) {
        return None;
    }
    let name = trim(cell(cells, c.name).as_str());
    let raw_date = match c.date {
        Some(i) => cell(cells, i),
        None => String::new(),
    };
    let (created_date, created_timestamp) = created_date_on(raw_date.as_str(), today);
    let raw_exp = cell(cells, c.exp);
    let (exp_date_usa, exp_date_tur, days_remaining) = expiry_date_on(raw_exp.as_str(), today);
    let note = note_for(notes, id.as_str(), sku.as_str());
    Some(RegisterLine {
        shipment_id: id,
        shipment_name: name,
        created_date,
        created_timestamp,
        sku,
        qty,
        exp_date_usa,
        exp_date_tur,
        days_remaining,
        note,
    })
}

} // verus!
