use operations_toolkit::register::{
    lines_sheet_index, note_columns, note_columns_of_keys, note_entry, note_for, notes_sheet, register_columns,
    register_columns_of_keys, register_line,
};

fn v(xs: &[&str]) -> Vec<String> {
    xs.iter().map(|x| x.to_string()).collect()
}

#[test]
fn sheets_for_lines_and_notes() {
    assert!(notes_sheet("Analiz 2024"));
    assert!(notes_sheet("ANALİZ"));
    assert!(!notes_sheet("SIRALI"));
    assert_eq!(lines_sheet_index(&v(&["Notes", "Sayfa", "sirali", "ANALİZ"])), 2);
    assert_eq!(lines_sheet_index(&v(&["Notes", "Expration list"])), 1);
    assert_eq!(lines_sheet_index(&v(&["First", "Second"])), 0);
}

#[test]
fn note_columns_need_id_sku_and_note() {
    let c = note_columns(&v(&["Shipment ID", "SKU", "QTY", "NOT"])).unwrap();
    assert_eq!((c.id, c.sku, c.note), (0, 1, 3));
    let c = note_columns(&v(&["id", "sku", "note", "Notes id"])).unwrap();
    assert_eq!((c.id, c.sku, c.note), (3, 1, 3));
    assert!(note_columns(&v(&["id", "sku", "qty"])).is_none());
}

#[test]
fn notes_entries_and_lookup() {
    let c = note_columns(&v(&["id", "sku", "note"])).unwrap();
    assert_eq!(
        note_entry(&v(&[" fba1 ", "ab", " check "]), &c),
        Some(("FBA1".to_string(), "AB".to_string(), "check".to_string()))
    );
    assert_eq!(note_entry(&v(&["fba1", "ab", "nan"]), &c), None);
    assert_eq!(note_entry(&v(&["fba1", "ab"]), &c), None);
    let entries = vec![
        ("FBA1".to_string(), "AB".to_string(), "first".to_string()),
        ("FBA2".to_string(), "AB".to_string(), "other".to_string()),
        ("FBA1".to_string(), "AB".to_string(), "second".to_string()),
    ];
    assert_eq!(note_for(&entries, "fba1", "ab"), "second");
    assert_eq!(note_for(&entries, "FBA2", "Ab"), "other");
    assert_eq!(note_for(&entries, "FBA3", "AB"), "");
}

#[test]
fn line_columns_by_first_matching_rule() {
    let c = register_columns(&v(&["Shipment Name", "Shipment ID", "Created Date", "SKU", "Adet", "Exp Date", "Note"]));
    assert_eq!((c.name, c.id, c.date, c.sku, c.qty, c.exp), (0, 1, Some(2), 3, 4, 5));
    let d = register_columns(&v(&["a", "b"]));
    assert_eq!((d.name, d.id, d.date, d.sku, d.qty, d.exp), (0, 0, None, 0, 0, 0));
}

#[test]
fn kept_line_with_dates_and_note() {
    let c = register_columns(&v(&["Shipment Name", "Shipment ID", "Date", "SKU", "QTY", "EXP"]));
    let notes = vec![("FBA9".to_string(), "SKU-1".to_string(), "keep".to_string())];
    let row = v(&[" Box 1 ", " fba9 ", "CREATED > 2 FEB 2024", " sku-1 ", "10", "15/03/2025"]);
    let l = register_line(&row, &c, 10, &notes, (2025, 3, 1)).unwrap();
    assert_eq!(l.shipment_id, "fba9");
    assert_eq!(l.shipment_name, "Box 1");
    assert_eq!(l.sku, "sku-1");
    assert_eq!(l.qty, 10);
    assert_eq!(l.created_date, "02.02.2024");
    assert_eq!(l.created_timestamp, "2024-02-02 00:00:00");
    assert_eq!(l.exp_date_usa, "03-15-2025");
    assert_eq!(l.exp_date_tur, "15.03.2025");
    assert_eq!(l.days_remaining, 14);
    assert_eq!(l.note, "keep");
}

#[test]
fn rows_without_id_or_sku_are_dropped() {
    let c = register_columns(&v(&["Shipment ID", "SKU"]));
    assert!(register_line(&v(&["", "A"]), &c, 1, &vec![], (2025, 1, 1)).is_none());
    assert!(register_line(&v(&["X", "nan"]), &c, 1, &vec![], (2025, 1, 1)).is_none());
    let l = register_line(&v(&["X", "A"]), &c, 1, &vec![], (2025, 1, 1)).unwrap();
    assert_eq!(l.created_date, "01.01.2025");
    assert_eq!(l.exp_date_usa, "X");
    assert_eq!(l.note, "");
}

#[test]
fn sheet_names_are_compared_upper_cased() {
    assert!(notes_sheet("analysis"));
    assert!(!notes_sheet("anl"));
    assert_eq!(lines_sheet_index(&v(&["x", "Sıralı"])), 1);
    assert_eq!(lines_sheet_index(&v(&["Sheet", "list"])), 0);
    assert_eq!(lines_sheet_index(&v(&["x", "sirali"])), 1);
}

#[test]
fn columns_from_lower_cased_keys() {
    assert!(note_columns_of_keys(&v(&["ID", "SKU", "NOTE"])).is_none());
    let c = note_columns_of_keys(&v(&["id", "sku", "note"])).unwrap();
    assert_eq!((c.id, c.sku, c.note), (0, 1, 2));
    let r = register_columns_of_keys(&v(&["SKU", "sku", "exp date", "created date"]));
    assert_eq!((r.sku, r.exp, r.date), (1, 2, Some(3)));
}
