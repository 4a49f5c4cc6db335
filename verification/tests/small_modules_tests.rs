use operations_toolkit::conversion::{converted_name, delimiter, file_kind, FileKind};
use operations_toolkit::order::{order_file_name, order_form_target_of, restock_targets_of, safe_target};
use operations_toolkit::tsv::{header_columns_of, read_report_line};

fn v(xs: &[&str]) -> Vec<String> {
    xs.iter().map(|x| x.to_string()).collect()
}

#[test]
fn restock_rows_go_to_supplier_and_note() {
    assert_eq!(restock_targets_of(" ACME ", " NJ "), v(&["ACME", "NJ"]));
    assert_eq!(restock_targets_of("", "NJ"), v(&["NJ"]));
    assert_eq!(restock_targets_of("ACME", "0"), v(&["ACME"]));
    assert_eq!(restock_targets_of("ACME", " 0.0 "), v(&["ACME"]));
    assert_eq!(restock_targets_of(" ", "00"), v(&["00"]));
    assert!(restock_targets_of("", "").is_empty());
    assert_eq!(order_form_target_of(" B "), Some("B".to_string()));
    assert_eq!(order_form_target_of("\t"), None);
}

#[test]
fn order_names_are_safe() {
    assert_eq!(safe_target("a/b\\c"), "A-B-C");
    assert_eq!(order_file_name("nj/ny"), "NJ-NY.xlsx");
}

#[test]
fn report_header_then_records() {
    let cols = header_columns_of(&v(&["Merchant SKU", "Title", "Shipped", "Shipped"]));
    assert_eq!(cols, Some((0, 2)));
    assert_eq!(header_columns_of(&v(&["merchant sku", "Shipped"])), None);

    let (state, rec) = read_report_line(None, "Report for May");
    assert_eq!((state, rec), (None, None));
    let (state, rec) = read_report_line(None, "Shipped\tMerchant SKU");
    assert_eq!((state, rec), (Some((1, 0)), None));
    let (state, rec) = read_report_line(state, "  \t ");
    assert_eq!((state, rec), (Some((1, 0)), None));
    let (state, rec) = read_report_line(state, " 12 \t AB-1 \tx");
    assert_eq!(state, Some((1, 0)));
    assert_eq!(rec, Some(("AB-1".to_string(), "12".to_string())));
    let (_, rec) = read_report_line(state, "only");
    assert_eq!(rec, None);
}

#[test]
fn file_kinds_and_names() {
    assert_eq!(file_kind("csv"), FileKind::Csv);
    assert_eq!(file_kind("txt"), FileKind::Txt);
    assert_eq!(file_kind("xlsx"), FileKind::Xlsx);
    assert_eq!(file_kind("CSV"), FileKind::Other);
    assert_eq!(delimiter(FileKind::Csv), Some(b','));
    assert_eq!(delimiter(FileKind::Txt), Some(b'\t'));
    assert_eq!(delimiter(FileKind::Xlsx), None);
    assert_eq!(converted_name("report", "csv"), "report.csv");
}
