use greiderbot::text::{mention_role, parse_u64, render_decimal, role_update_message, same_text, starts_with};

#[test]
fn renders_decimal_numbers() {
    assert_eq!(render_decimal(0), "0");
    assert_eq!(render_decimal(7), "7");
    assert_eq!(render_decimal(1234567890), "1234567890");
    assert_eq!(render_decimal(u64::MAX), "18446744073709551615");
}

#[test]
fn parses_role_identifiers() {
    assert_eq!(parse_u64("0"), Some(0));
    assert_eq!(parse_u64("1015"), Some(1015));
    assert_eq!(parse_u64("+42"), Some(42));
    assert_eq!(parse_u64("007"), Some(7));
    assert_eq!(parse_u64("18446744073709551615"), Some(u64::MAX));
}

#[test]
fn rejects_malformed_identifiers() {
    assert_eq!(parse_u64(""), None);
    assert_eq!(parse_u64("+"), None);
    assert_eq!(parse_u64("-1"), None);
    assert_eq!(parse_u64("12a"), None);
    assert_eq!(parse_u64(" 12"), None);
    assert_eq!(parse_u64("18446744073709551616"), None);
    assert_eq!(parse_u64("99999999999999999999x"), None);
}

#[test]
fn parse_agrees_with_std() {
    for s in ["1", "+1", "", "x", "184467440737095516150", "4294967296", "++1"] {
        assert_eq!(parse_u64(s), s.parse::<u64>().ok());
    }
}

#[test]
fn rendered_numbers_parse_back() {
    for n in [0u64, 9, 10, 99, 100, 123456789012345, u64::MAX] {
        assert_eq!(parse_u64(&render_decimal(n)), Some(n));
    }
}

#[test]
fn prefix_and_equality_of_text() {
    assert!(starts_with("spela A", "spela "));
    assert!(!starts_with("spelaA", "spela "));
    assert!(!starts_with("sp", "spela "));
    assert!(starts_with("Gå med", "Gå"));
    assert!(same_text("spela", "spela"));
    assert!(!same_text("spela", "spelar"));
    assert!(!same_text("spelar", "spela"));
}

#[test]
fn mentions_a_role() {
    assert_eq!(mention_role(42), "<@&42>");
}

#[test]
fn confirmation_lists_added_and_removed_roles() {
    assert_eq!(
        role_update_message(&vec![2], &vec![1, 30]),
        "La till rollerna: <@&2>. \n Tog bort rollerna: <@&1>, <@&30>"
    );
    assert_eq!(role_update_message(&vec![], &vec![]), "La till rollerna: . \n Tog bort rollerna: ");
}
