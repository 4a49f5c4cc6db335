use operations_toolkit::inventory::{fifo_allocated, fifo_analysis, stock_for, FifoResultRow, ShipmentRow};

fn lot(id: &str, sku: &str, qty: i32) -> ShipmentRow {
    ShipmentRow {
        shipment_name: format!("name {}", id),
        shipment_id: id.to_string(),
        created_date: "01.01.2024".to_string(),
        sku: sku.to_string(),
        qty_shipped: qty,
        exp_date_usa: String::new(),
        exp_date_tur: String::new(),
        days_remaining: 0,
        amz_stock_days: 5,
        note: String::new(),
    }
}

fn summary(rows: &[FifoResultRow]) -> Vec<(String, String, i32, i32)> {
    rows.iter().map(|r| (r.shipment_id.clone(), r.sku.clone(), r.qty_shipped, r.amz_stock_allocated)).collect()
}

#[test]
fn share_of_a_lot() {
    assert_eq!(fifo_allocated(0, 0, 10), 0);
    assert_eq!(fifo_allocated(-5, 0, 10), 0);
    assert_eq!(fifo_allocated(45, 50, 10), 0);
    assert_eq!(fifo_allocated(45, 30, 20), 15);
    assert_eq!(fifo_allocated(45, 0, 30), 30);
    assert_eq!(fifo_allocated(45, 45, 1), 0);
}

#[test]
fn stock_is_attributed_to_the_newest_lots() {
    let rows = vec![lot("S1", "A", 10), lot("S2", "A", 20), lot("S3", "A", 30)];
    let stock = vec![("A".to_string(), 45)];
    let r = fifo_analysis(&rows, &stock);
    assert_eq!(
        summary(&r),
        vec![("S2".to_string(), "A".to_string(), 20, 15), ("S3".to_string(), "A".to_string(), 30, 30)]
    );
    let total: i32 = r.iter().map(|x| x.amz_stock_allocated).sum();
    assert_eq!(total, 45);
    assert_eq!(r[0].shipment_name, "name S2");
    assert_eq!(r[0].amz_stock_days, 5);
}

#[test]
fn skus_come_out_in_order_and_unknown_stock_is_zero() {
    let rows = vec![lot("S1", "b", 5), lot("S2", "B", 7), lot("S3", "a", 1), lot("S4", "b", 2)];
    let stock = vec![("b".to_string(), 100), ("a".to_string(), 1), ("b".to_string(), 6)];
    let r = fifo_analysis(&rows, &stock);
    assert_eq!(
        summary(&r),
        vec![
            ("S3".to_string(), "a".to_string(), 1, 1),
            ("S1".to_string(), "b".to_string(), 5, 4),
            ("S4".to_string(), "b".to_string(), 2, 2),
        ]
    );
    assert_eq!(stock_for(&stock, &"b".chars().collect()), 6);
    assert_eq!(stock_for(&stock, &"c".chars().collect()), 0);
}

#[test]
fn more_stock_than_shipped_fills_every_lot() {
    let rows = vec![lot("S1", "A", 3), lot("S2", "A", 4)];
    let stock = vec![("A".to_string(), 100)];
    let r = fifo_analysis(&rows, &stock);
    assert_eq!(summary(&r), vec![("S1".to_string(), "A".to_string(), 3, 3), ("S2".to_string(), "A".to_string(), 4, 4)]);
}

#[test]
fn more_stock_never_attributes_less_to_a_lot() {
    let rows = vec![lot("S1", "A", 10), lot("S2", "A", 20), lot("S3", "A", 30)];
    let share_of = |r: &[FifoResultRow], id: &str| -> i32 {
        r.iter().filter(|x| x.shipment_id == id).map(|x| x.amz_stock_allocated).sum()
    };
    let small = fifo_analysis(&rows, &vec![("A".to_string(), 15)]);
    let large = fifo_analysis(&rows, &vec![("A".to_string(), 45)]);
    assert_eq!(summary(&small), vec![("S3".to_string(), "A".to_string(), 30, 15)]);
    for id in ["S1", "S2", "S3"] {
        assert!(share_of(&small, id) <= share_of(&large, id));
    }
    assert_eq!(share_of(&large, "S2"), 15);
    assert_eq!(share_of(&large, "S3"), 30);
}
