use operations_toolkit::shipment::{
    assign_sku2, cell, clean_upc, missing_marker, needs_sku2, pack_from_sku, sku2_suffix_text,
    invoice_line, join_lines, order_lines, restock_line, slot_columns_of, InvoiceColumns, InvoiceLine, JoinedRow,
    RestockColumns, SourceKind, SourceLine, shown, source_label,
};


#[test]
fn upcs_are_cleaned_and_padded() {
    assert_eq!(clean_upc("123.0 "), "000000000123");
    assert_eq!(clean_upc(" 012345678901 "), "012345678901");
    assert_eq!(clean_upc("ABC"), "000000000ABC");
    assert_eq!(clean_upc("  "), "");
    assert_eq!(clean_upc(".5"), "");
}

#[test]
fn pack_part_of_order_form_skus() {
    assert_eq!(pack_from_sku("NJ_1234_6PK_X"), "6PK");
    assert_eq!(pack_from_sku("a_b"), "#YOK");
    assert_eq!(missing_marker(), "#YOK");
}

#[test]
fn sku2_suffixes() {
    assert_eq!(sku2_suffix_text(0), "");
    assert_eq!(sku2_suffix_text(1), "_A");
    assert_eq!(sku2_suffix_text(10), "_J");
    assert_eq!(sku2_suffix_text(11), "_11");
}

#[test]
fn repeated_bases_get_distinct_names() {
    let bases = vec![Some("X".to_string()), None, Some("X".to_string()), Some("Y".to_string()), Some("X".to_string())];
    assert_eq!(assign_sku2(&bases), vec!["X", "#YOK", "X_A", "Y", "X_B"]);
}

#[test]
fn sku2_needs_pack_and_price() {
    assert!(needs_sku2("6PK", "1.25"));
    assert!(!needs_sku2("#YOK", "1.25"));
    assert!(!needs_sku2("6PK", ""));
    assert!(!needs_sku2("6PK", "#YOK"));
}

#[test]
fn cells_past_the_end_are_empty() {
    let row = vec!["a".to_string()];
    assert_eq!(cell(&row, 0), "a");
    assert_eq!(cell(&row, 3), "");
}


fn v(xs: &[&str]) -> Vec<String> {
    xs.iter().map(|x| x.to_string()).collect()
}

fn inv(upc: &str) -> InvoiceLine {
    InvoiceLine {
        upc: upc.to_string(),
        ship_quantity: "1".to_string(),
        price: "2".to_string(),
        pack_size: String::new(),
        brand: String::new(),
        description: String::new(),
    }
}

fn src(upc: &str) -> SourceLine {
    SourceLine {
        upc: upc.to_string(),
        price_check: String::new(),
        suplier: String::new(),
        asin: String::new(),
        pcs: "1".to_string(),
        pk: "#YOK".to_string(),
        sku: "#YOK".to_string(),
        dosya: String::new(),
    }
}

fn row(invoice: usize, kind: SourceKind, source: Option<usize>) -> JoinedRow {
    JoinedRow { invoice, kind, source }
}

#[test]
fn every_invoice_line_is_joined() {
    let invoice = vec![inv("01"), inv("02"), inv("03"), inv("04")];
    let restock = vec![src("01"), src("03"), src("01")];
    let order = vec![src("02")];
    let joined = join_lines(&invoice, &restock, &order, &v(&["01", "03", "01"]), &v(&["02", "03"]));
    assert_eq!(
        joined,
        vec![
            row(0, SourceKind::Restock, Some(0)),
            row(0, SourceKind::Restock, Some(2)),
            row(1, SourceKind::OrderForm, Some(0)),
            row(2, SourceKind::Restock, Some(1)),
            row(2, SourceKind::OrderForm, None),
            row(3, SourceKind::Unmatched, None),
        ]
    );
}

#[test]
fn invoice_and_restock_rows() {
    let ic = InvoiceColumns { upc: 0, ship_quantity: 1, price: 2, pack_size: 3, brand: 4, description: 5 };
    let l = invoice_line(&v(&["123.0", "4", "1,5", "6", "B", "D"]), &ic).unwrap();
    assert_eq!((l.upc.as_str(), l.ship_quantity.as_str(), l.price.as_str()), ("000000000123", "4", "1,5"));
    assert!(invoice_line(&v(&["", "4"]), &ic).is_none());

    let rc = RestockColumns { upc: 0, price: 1, suplier: 2, asin: 3, pcs: 4, pk: 5 };
    let r = restock_line(&v(&["77", "3", "ACME", "B0", " 12 ", "6PK"]), &rc).unwrap();
    assert_eq!(r.upc, "000000000077");
    assert_eq!(r.pcs, "12");
    assert_eq!(r.sku, "#YOK");
    assert_eq!(r.dosya, "Restock");
    assert!(restock_line(&v(&["77", "3", "ACME", "B0", "NAN", "6PK"]), &rc).is_none());
    assert!(restock_line(&v(&[" ", "3", "ACME", "B0", "5", "6PK"]), &rc).is_none());
}

#[test]
fn order_form_slots_are_unpivoted() {
    let headers = v(&["UPC", "price", "suplier", "ASIN 1", "ASIN1_SKU", "PCS", "ASIN 2", "ASIN2_SKU", "pcs"]);
    let slots = slot_columns_of(&headers, &v(&["ASIN 1", "ASIN 2", "ASIN 3"]), &v(&["ASIN1_SKU", "ASIN2_SKU", "ASIN3_SKU"]), "PCS");
    assert_eq!(slots, vec![(3, 4, 5), (6, 7, 8)]);
    let cells = v(&["1", "2.5", "ACME", "B01", "NJ_1_6PK_X", "12", "nan", "", "3"]);
    let (upc, lines) = order_lines(&cells, 0, 1, 2, &slots).unwrap();
    assert_eq!(upc, "000000000001");
    assert_eq!(lines.len(), 1);
    let l = &lines[0];
    assert_eq!(
        (l.price_check.as_str(), l.suplier.as_str(), l.asin.as_str(), l.pcs.as_str(), l.pk.as_str(), l.sku.as_str(), l.dosya.as_str()),
        ("2.5", "ACME", "B01", "12", "6PK", "NJ_1_6PK_X", "Order Form")
    );
    assert!(order_lines(&v(&["", "1"]), 0, 1, 2, &slots).is_none());
}

#[test]
fn plan_cells_and_sources() {
    assert_eq!(shown(""), "#YOK");
    assert_eq!(shown(" "), " ");
    assert_eq!(shown("x"), "x");
    assert_eq!(source_label(SourceKind::Restock), "Restock");
    assert_eq!(source_label(SourceKind::OrderForm), "Order Form");
    assert_eq!(source_label(SourceKind::Unmatched), "#YOK");
}
