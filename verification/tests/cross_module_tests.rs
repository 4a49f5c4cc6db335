use operations_toolkit::dates::created_date_on;
use operations_toolkit::dates::stock_age_on;

#[test]
fn stored_creation_stamp_gives_the_stock_age() {
    let (_, stamp) = created_date_on("CREATED > 1 JAN 2024", (2024, 3, 1));
    assert_eq!(stamp, "2024-01-01 00:00:00");
    assert_eq!(stock_age_on(&stamp, (2024, 3, 1)), 30);
}
