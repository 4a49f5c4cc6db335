use operations_toolkit::stock::{kept_sku, row_total, stock_columns, stock_columns_of_keys, stock_table};

fn v(xs: &[&str]) -> Vec<String> {
    xs.iter().map(|x| x.to_string()).collect()
}

#[test]
fn columns_of_a_plain_report() {
    let c = stock_columns(&v(&["Merchant SKU ", "ASIN", "Total Units"]));
    assert_eq!(c.sku, 0);
    assert_eq!(c.qty, 2);
    assert!(c.parts.is_empty());
    assert_eq!(row_total(&vec![7, 0, 12], &c), 12);
    assert_eq!(row_total(&vec![7], &c), 0);
}

#[test]
fn columns_default_and_last_wins() {
    let c = stock_columns(&v(&["a", "b", "SKU", "qty", "Qty"]));
    assert_eq!(c.sku, 2);
    assert_eq!(c.qty, 4);
    let d = stock_columns(&v(&["x", "y"]));
    assert_eq!(d.sku, 0);
    assert_eq!(d.qty, 1);
}

#[test]
fn formula_report_sums_the_parts() {
    let headers = v(&["sku", "Available", "FC transfer", "FC Processing", "Unfulfillable", "Shipped", "Receiving", "Total Units"]);
    let c = stock_columns(&headers);
    assert_eq!(c.parts, vec![1, 2, 3, 4, 5, 6]);
    assert_eq!(row_total(&vec![0, 1, 2, 3, 4, 5, 6, 100], &c), 21);
    assert_eq!(row_total(&vec![0, 1, 2], &c), 3);
}

#[test]
fn five_parts_are_not_a_formula() {
    let headers = v(&["sku", "Available", "FC transfer", "FC Processing", "Unfulfillable", "Shipped", "qty"]);
    let c = stock_columns(&headers);
    assert_eq!(c.parts.len(), 5);
    assert_eq!(row_total(&vec![0, 1, 2, 3, 4, 5, 9], &c), 9);
}

#[test]
fn sku_cells_kept_or_dropped() {
    assert_eq!(kept_sku(&Some(" AB-1 ".to_string())), Some("AB-1".to_string()));
    assert_eq!(kept_sku(&Some("  ".to_string())), None);
    assert_eq!(kept_sku(&Some("NaN".to_string())), None);
    assert_eq!(kept_sku(&None), None);
}

#[test]
fn table_keeps_the_last_total_of_each_sku() {
    let skus = vec![Some("A".to_string()), Some(" B".to_string()), None, Some("A ".to_string()), Some("nan".to_string())];
    let totals = vec![1, 2, 3, 4, 5];
    let t = stock_table(&skus, &totals);
    assert_eq!(t, vec![("A".to_string(), 4), ("B".to_string(), 2)]);
}

#[test]
fn columns_from_normalised_keys() {
    let c = stock_columns_of_keys(&v(&["qty", "merchant sku", "Merchant SKU"]));
    assert_eq!((c.sku, c.qty), (1, 0));
    assert!(c.parts.is_empty());
    let d = stock_columns_of_keys(&v(&["sku", "available", "Available"]));
    assert_eq!(d.parts, vec![1]);
}
