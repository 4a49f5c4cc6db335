use operations_toolkit::dates::{
    created_date_from_groups, created_date_on, expiry_date_from_groups, expiry_date_on, month_of,
    parse_created_date, parse_exp_date, stock_age_from_day, stock_age_on, today,
};

fn s(x: &str) -> String {
    x.to_string()
}

#[test]
fn created_date_reads_day_month_year() {
    let (d, ts) = created_date_on("CREATED > 5 MAR 2024", (2024, 6, 1));
    assert_eq!(d, "05.03.2024");
    assert_eq!(ts, "2024-03-05 00:00:00");
}

#[test]
fn created_date_ignores_case_and_spacing() {
    let (d, ts) = created_date_on("  created>12jan2023 ", (2024, 6, 1));
    assert_eq!(d, "12.01.2023");
    assert_eq!(ts, "2023-01-12 00:00:00");
}

#[test]
fn created_date_blank_or_nan_is_today() {
    assert_eq!(created_date_on("", (2024, 6, 1)), (s("01.06.2024"), s("2024-06-01 00:00:00")));
    assert_eq!(created_date_on(" NaN ", (2024, 6, 1)), (s("01.06.2024"), s("2024-06-01 00:00:00")));
}

#[test]
fn created_date_unknown_month_is_january() {
    assert_eq!(created_date_on("7 XYZ 2022", (2024, 6, 1)), (s("07.01.2022"), s("2022-01-07 00:00:00")));
}

#[test]
fn created_date_impossible_day_is_today() {
    assert_eq!(created_date_on("31 FEB 2024", (2024, 6, 1)), (s("01.06.2024"), s("2024-06-01 00:00:00")));
    assert_eq!(created_date_on("hello", (2023, 12, 25)), (s("25.12.2023"), s("2023-12-25 00:00:00")));
}

#[test]
fn created_date_pads_small_years() {
    assert_eq!(created_date_on("1 JAN 0999", (2024, 6, 1)), (s("01.01.0999"), s("0999-01-01 00:00:00")));
}

#[test]
fn created_date_from_groups_without_match_is_today() {
    assert_eq!(created_date_from_groups(&None, (2020, 2, 29)), (s("29.02.2020"), s("2020-02-29 00:00:00")));
    let groups = Some(vec![Some(s("9 dec 2021")), Some(s("9")), Some(s("dec")), Some(s("2021"))]);
    assert_eq!(created_date_from_groups(&groups, (2020, 2, 29)), (s("09.12.2021"), s("2021-12-09 00:00:00")));
}

#[test]
fn month_abbreviations() {
    assert_eq!(month_of("JAN"), 1);
    assert_eq!(month_of("SEP"), 9);
    assert_eq!(month_of("DEC"), 12);
    assert_eq!(month_of("Dec"), 1);
    assert_eq!(month_of(""), 1);
}

#[test]
fn expiry_first_number_above_twelve_is_the_day() {
    assert_eq!(expiry_date_on("13/05/2025", (2025, 5, 1)), (s("05-13-2025"), s("13.05.2025"), 12));
}

#[test]
fn expiry_month_first_when_possible() {
    assert_eq!(expiry_date_on("05/13/2025", (2025, 5, 1)), (s("05-13-2025"), s("13.05.2025"), 12));
    assert_eq!(expiry_date_on("04.05.2025", (2025, 5, 1)), (s("04-05-2025"), s("05.04.2025"), -26));
}

#[test]
fn expiry_unread_text_is_kept_with_dashes() {
    assert_eq!(expiry_date_on("2025.05.04", (2025, 5, 1)), (s("2025-05-04"), s("2025-05-04"), 0));
    assert_eq!(expiry_date_on("31/02/2025", (2025, 5, 1)), (s("31/02/2025"), s("31/02/2025"), 0));
}

#[test]
fn expiry_blank_or_nan_is_empty() {
    assert_eq!(expiry_date_on("   ", (2025, 5, 1)), (s(""), s(""), 0));
    assert_eq!(expiry_date_on("nan", (2025, 5, 1)), (s(""), s(""), 0));
}

#[test]
fn expiry_from_groups_day_then_month_fallback() {
    let groups = Some(vec![Some(s("12/31/2024")), Some(s("12")), Some(s("31")), Some(s("2024"))]);
    assert_eq!(expiry_date_from_groups("12/31/2024", &groups, (2024, 12, 1)), (s("12-31-2024"), s("31.12.2024"), 30));
    assert_eq!(expiry_date_from_groups("x.y", &None, (2024, 12, 1)), (s("x-y"), s("x-y"), 0));
}

#[test]
fn stock_age_counts_from_thirty_days_after_creation() {
    assert_eq!(stock_age_on("2024-01-01 00:00:00", (2024, 3, 1)), 30);
    assert_eq!(stock_age_on("2024-03-01", (2024, 3, 1)), -30);
    assert_eq!(stock_age_on("garbage123", (2024, 3, 1)), 0);
}

#[test]
fn stock_age_from_day_values() {
    assert_eq!(stock_age_from_day(Some((2023, 12, 31)), (2024, 1, 30)), 0);
    assert_eq!(stock_age_from_day(None, (2024, 1, 30)), 0);
}

#[test]
fn today_is_a_date_and_parsers_run_on_it() {
    let (y, m, d) = today();
    assert!((1..=12).contains(&m));
    assert!((1..=31).contains(&d));
    assert!(y > 2000);
    let (a, b) = parse_created_date("3 APR 2021");
    assert_eq!(a, "03.04.2021");
    assert_eq!(b, "2021-04-03 00:00:00");
    let (u, t, _) = parse_exp_date("20/10/2030");
    assert_eq!(u, "10-20-2030");
    assert_eq!(t, "20.10.2030");
}
