use operations_toolkit::invoice::{date_from_readings, format_date};

#[test]
fn invoice_dates_are_written_month_day_year() {
    assert_eq!(format_date("2024-01-05"), "01/05/2024");
    assert_eq!(format_date("3/7/24"), "03/07/0024");
    assert_eq!(format_date("12,31,2023"), "12/31/2023");
    assert_eq!(format_date("25/12/2023"), "12/25/2023");
    assert_eq!(format_date("2023/12/24 10:20:30"), "12/24/2023");
}

#[test]
fn invoice_dates_unread_or_blank() {
    assert_eq!(format_date("soon"), "soon");
    assert_eq!(format_date("  "), "#HATA");
    assert_eq!(format_date("a-b"), "a/b");
}

#[test]
fn first_reading_wins() {
    let dates = vec![None, Some((2024, 1, 5)), Some((1999, 9, 9)), None];
    assert_eq!(date_from_readings("x", &dates, &vec![Some((2000, 1, 1)), None]), "01/05/2024");
    let none = vec![None, None, None, None];
    assert_eq!(date_from_readings("x", &none, &vec![None, Some((2023, 12, 24))]), "12/24/2023");
    assert_eq!(date_from_readings(" ", &none, &vec![None, None]), "#HATA");
    assert_eq!(date_from_readings("later", &none, &vec![None, None]), "later");
}

#[test]
fn normalising_an_invoice_date_twice_changes_nothing() {
    for raw in ["2024-01-05", "3/7/24", "12,31,2023", "25/12/2023", "2023/12/24 10:20:30", "soon", "a-b", "  ", "", "+12345/01/02"] {
        let once = format_date(raw);
        assert_eq!(format_date(&once), once, "{}", raw);
    }
    assert_eq!(format_date(""), "#HATA");
    assert_eq!(format_date("\t \n"), "#HATA");
    assert_eq!(format_date("#HATA"), "#HATA");
}
