use moneylens_converter_rs::parsers::utils::{
    bank_account_symbol_to_name, date_matches_month, is_month, month_name,
    sheet_matches_month_selection,
};

#[test]
fn resolves_month_name_from_number() {
    assert_eq!(month_name(1), Some("January"));
    assert_eq!(month_name(12), Some("December"));
    assert_eq!(month_name(13), None);
}

#[test]
fn matches_sheet_name_against_selected_month() {
    assert!(sheet_matches_month_selection("January", Some(1)));
    assert!(!sheet_matches_month_selection("February", Some(1)));
    assert!(sheet_matches_month_selection("March", None));
    assert!(!sheet_matches_month_selection("Savings", None));
}

#[test]
fn matches_iso_date_against_selected_month() {
    assert!(date_matches_month("2025-02-15", Some(2)));
    assert!(!date_matches_month("2025-03-15", Some(2)));
    assert!(date_matches_month("2025-03-15", None));
    assert!(!date_matches_month("not-a-date", Some(2)));
}

#[test]
fn month_zero_has_no_name() {
    assert_eq!(month_name(0), None);
    assert_eq!(month_name(255), None);
    assert_eq!(month_name(5), Some("May"));
}

#[test]
fn every_month_name_is_a_month_and_savings_is_not() {
    for m in 1..=12u8 {
        let name = month_name(m).unwrap();
        assert!(is_month(name));
        assert!(sheet_matches_month_selection(name, Some(m)));
    }
    assert!(!is_month("Savings"));
    assert!(!is_month("january"));
    assert!(!is_month(""));
}

#[test]
fn sheet_selection_with_an_invalid_month_selects_nothing() {
    assert!(!sheet_matches_month_selection("January", Some(0)));
    assert!(!sheet_matches_month_selection("December", Some(13)));
}

#[test]
fn month_field_is_read_as_an_unsigned_number() {
    // `str::parse::<u8>` reads an optional `+` and leading zeros.
    assert!(date_matches_month("2025-+2-15", Some(2)));
    assert!(date_matches_month("2025-002-15", Some(2)));
    assert!(date_matches_month("-02-", Some(2)));
    assert!(!date_matches_month("2025--2-15", Some(2)));
    assert!(!date_matches_month("2025-13-15", Some(1)));
    assert!(!date_matches_month("2025-00-15", Some(0)));
    assert!(!date_matches_month("2025-256-15", Some(0)));
    assert!(!date_matches_month("2025- 2-15", Some(2)));
    assert!(!date_matches_month("2025-+-15", Some(2)));
}

#[test]
fn date_needs_exactly_two_dashes() {
    assert!(!date_matches_month("2025-02", Some(2)));
    assert!(!date_matches_month("2025-02-15-01", Some(2)));
    assert!(!date_matches_month("2025/02/15", Some(2)));
    assert!(date_matches_month("anything", None));
}

#[test]
fn bank_account_symbols_name_accounts() {
    assert_eq!(bank_account_symbol_to_name(Some("X".to_string())), "AmEx");
    assert_eq!(bank_account_symbol_to_name(Some("B".to_string())), "Barclays");
    assert_eq!(bank_account_symbol_to_name(Some("W".to_string())), "Wise Virtual");
    assert_eq!(bank_account_symbol_to_name(Some("M".to_string())), "Monzo");
    assert_eq!(bank_account_symbol_to_name(Some("A".to_string())), "Wise Physical");
    assert_eq!(bank_account_symbol_to_name(Some("Z".to_string())), "Unknown");
    assert_eq!(bank_account_symbol_to_name(Some("XX".to_string())), "Unknown");
    assert_eq!(bank_account_symbol_to_name(None), "NatWest");
}
