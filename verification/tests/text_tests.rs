use operations_toolkit::text::{
    decimal_string, first_part, parse_i32, parse_u32, position_of, replace_chars, split, text_contains,
    text_ends_with, text_eq_ignore_ascii_case, trim,
};

#[test]
fn trims_unicode_white_space() {
    assert_eq!(trim("  a b \t\n"), "a b");
    assert_eq!(trim("\u{3000}x\u{a0}"), "x");
    assert_eq!(trim("   "), "");
}

#[test]
fn splits_like_str_split() {
    assert_eq!(split("a_b__c", '_'), vec!["a", "b", "", "c"]);
    assert_eq!(split("", '_'), vec![""]);
    assert_eq!(first_part("12.50", '.'), "12");
}

#[test]
fn parses_u32_like_std() {
    assert_eq!(parse_u32("42"), Some(42));
    assert_eq!(parse_u32("+7"), Some(7));
    assert_eq!(parse_u32("007"), Some(7));
    assert_eq!(parse_u32("4294967295"), Some(u32::MAX));
    assert_eq!(parse_u32("4294967296"), None);
    assert_eq!(parse_u32("-1"), None);
    assert_eq!(parse_u32("+"), None);
    assert_eq!(parse_u32(""), None);
    assert_eq!(parse_u32(" 1"), None);
    for t in ["0", "12", "+3", "99999", "x", "1e3"] {
        assert_eq!(parse_u32(t), t.parse::<u32>().ok());
    }
}

#[test]
fn parses_i32_like_std() {
    assert_eq!(parse_i32("-2147483648"), Some(i32::MIN));
    assert_eq!(parse_i32("2147483647"), Some(i32::MAX));
    assert_eq!(parse_i32("2147483648"), None);
    assert_eq!(parse_i32("-"), None);
    assert_eq!(parse_i32("+12"), Some(12));
    for t in ["-0", "2024", "-15", "+", "--1", "٣"] {
        assert_eq!(parse_i32(t), t.parse::<i32>().ok());
    }
}

#[test]
fn text_searches() {
    assert!(text_contains("merchant sku", "sku"));
    assert!(!text_contains("sk", "sku"));
    assert!(text_ends_with("acme price", " price"));
    assert!(text_eq_ignore_ascii_case("UpC", "upc"));
    assert!(!text_eq_ignore_ascii_case("upc ", "upc"));
    let list = vec!["a".to_string(), "b".to_string(), "a".to_string()];
    assert_eq!(position_of(&list, "a"), Some(0));
    assert_eq!(position_of(&list, "c"), None);
}

#[test]
fn replacing_and_decimals() {
    assert_eq!(replace_chars("1.234,5", ',', '.'), "1.234.5");
    assert_eq!(decimal_string(0), "0");
    assert_eq!(decimal_string(1203), "1203");
}
