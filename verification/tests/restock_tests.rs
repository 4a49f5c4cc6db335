use operations_toolkit::restock::{
    is_from_winning_list, list_prefix, lowest_prices, merged_header_row, quantity_column_position,
    winning_rows, with_inserted, Offer,
};

fn offer(upc: &str, rank: u64, priority: usize, prefix: &str) -> Offer {
    Offer { upc: upc.to_string(), price_rank: rank, priority, prefix: prefix.to_string() }
}

fn v(xs: &[&str]) -> Vec<String> {
    xs.iter().map(|x| x.to_string()).collect()
}

fn offers() -> Vec<Offer> {
    vec![
        offer("U1", 10, 0, "A"),
        offer("U2", 5, 0, "A"),
        offer("U1", 10, 1, "B"),
        offer("U1", 7, 1, "B"),
        offer("U2", 5, 1, "B"),
        offer("U1", 7, 1, "B"),
    ]
}

#[test]
fn cheapest_offer_wins_and_ties_go_to_the_earlier_list() {
    let o = offers();
    let table = lowest_prices(&o);
    assert_eq!(table, vec![("U1".to_string(), 3), ("U2".to_string(), 1)]);
    assert!(is_from_winning_list(&o, &table, 2));
    assert!(!is_from_winning_list(&o, &table, 0));
    assert!(is_from_winning_list(&o, &table, 1));
    assert!(!is_from_winning_list(&o, &table, 4));
}

#[test]
fn merged_list_uses_the_last_row_of_the_winning_list() {
    let mut rows = winning_rows(&offers());
    rows.sort();
    assert_eq!(rows, vec![("U1".to_string(), 5), ("U2".to_string(), 1)]);
}

#[test]
fn list_prefixes() {
    assert_eq!(list_prefix("NJ-2024-05"), "NJ");
    assert_eq!(list_prefix("TD"), "TD");
}

#[test]
fn merged_headers_layout() {
    let h = merged_header_row(&v(&["UPC", "PK"]), &v(&["NJ", "TD"]));
    assert_eq!(
        h,
        v(&["UPC", "PK", "Brand", "Price", "Maliyet", "Case", "NJ price", "TD price", "Qty on Hand", "NJ quantity", "TD quantity", "suplier"])
    );
}

#[test]
fn quantity_column_goes_after_the_price() {
    assert_eq!(quantity_column_position(5, 2), 3);
    assert_eq!(quantity_column_position(3, 2), 3);
    assert_eq!(quantity_column_position(2, 4), 2);
    assert_eq!(with_inserted(&v(&["a", "b", "c"]), 1, "Q".to_string()), v(&["a", "Q", "b", "c"]));
    assert_eq!(with_inserted(&v(&["a"]), 1, "Q".to_string()), v(&["a", "Q"]));
}
