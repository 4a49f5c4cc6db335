use operations_toolkit::columns::{locate_column, ColumnError, MatchMode};
use operations_toolkit::cost::{price_candidates, rewrite_record, warehouse_of_sku, CostColumns};

fn v(xs: &[&str]) -> Vec<String> {
    xs.iter().map(|x| x.to_string()).collect()
}

#[test]
fn record_rewrite() {
    let cols = CostColumns { cost: 1, additional_cost: 2, bp_strategy: 3, qd_strategy: 4, business_pricing: 5 };
    let r = rewrite_record(&v(&["NJ_1_2.5", "x", "y", "z", "w", "u", "keep"]), &cols, "3.10", "0.75");
    assert_eq!(r, v(&["NJ_1_2.5", "3.10", "0.75", "AI", "default", "on", "keep"]));
    let same = CostColumns { cost: 0, additional_cost: 0, bp_strategy: 0, qd_strategy: 0, business_pricing: 0 };
    assert_eq!(rewrite_record(&v(&["a", "b"]), &same, "#YOK", "#YOK"), v(&["#YOK", "b"]));
}

#[test]
fn sku_parts() {
    assert_eq!(warehouse_of_sku("NJ_123_4,5"), "NJ");
    assert_eq!(warehouse_of_sku("plain"), "plain");
    assert_eq!(price_candidates("NJ_123_4,5"), v(&["123", "4.5"]));
    assert!(price_candidates("plain").is_empty());
}

#[test]
fn columns_by_settings_names() {
    let headers = v(&[" UPC ", "Price", "upc"]);
    let names = vec![Some("Upc".to_string()), Some("price".to_string())];
    assert_eq!(locate_column(&headers, Some(&names), MatchMode::TrimmedIgnoreCase), Ok(0));
    assert_eq!(locate_column(&headers, Some(&names), MatchMode::IgnoreCase), Ok(2));
    assert_eq!(locate_column(&headers, Some(&names), MatchMode::Trimmed), Err(ColumnError::NotFound));
    let upper = vec![None, Some("UPC".to_string())];
    assert_eq!(locate_column(&headers, Some(&upper), MatchMode::Trimmed), Ok(0));
    assert_eq!(locate_column(&headers, None, MatchMode::Trimmed), Err(ColumnError::MissingSetting));
}
