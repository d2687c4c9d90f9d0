//! Reading workspace names as numbers.

use wtfareu::workspace_id::parse_workspace_id;

#[test]
fn canonical_numbers_parse() {
    assert_eq!(parse_workspace_id("0"), Some(0));
    assert_eq!(parse_workspace_id("1"), Some(1));
    assert_eq!(parse_workspace_id("10"), Some(10));
    assert_eq!(parse_workspace_id("42"), Some(42));
    assert_eq!(parse_workspace_id("-3"), Some(-3));
    assert_eq!(parse_workspace_id("2147483647"), Some(i32::MAX));
    assert_eq!(parse_workspace_id("-2147483648"), Some(i32::MIN));
}

#[test]
fn non_numeric_names_do_not_parse() {
    assert_eq!(parse_workspace_id(""), None);
    assert_eq!(parse_workspace_id("-"), None);
    assert_eq!(parse_workspace_id("special"), None);
    assert_eq!(parse_workspace_id("1a"), None);
    assert_eq!(parse_workspace_id("a1"), None);
    assert_eq!(parse_workspace_id("1 "), None);
    assert_eq!(parse_workspace_id(" 1"), None);
}

#[test]
fn non_canonical_forms_do_not_parse() {
    assert_eq!(parse_workspace_id("01"), None);
    assert_eq!(parse_workspace_id("00"), None);
    assert_eq!(parse_workspace_id("-0"), None);
    assert_eq!(parse_workspace_id("-01"), None);
    assert_eq!(parse_workspace_id("+5"), None);
}

#[test]
fn out_of_range_numbers_do_not_parse() {
    assert_eq!(parse_workspace_id("2147483648"), None);
    assert_eq!(parse_workspace_id("-2147483649"), None);
    assert_eq!(parse_workspace_id("99999999999999999999"), None);
    assert_eq!(parse_workspace_id("-99999999999999999999"), None);
}
