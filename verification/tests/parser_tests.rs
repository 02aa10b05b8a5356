use chrono::NaiveDate;
use moneylens_converter_rs::parsers::{earn, save, spend, utils};
use moneylens_converter_rs::payload::types::TransactionType;
use spreadsheet_ods::draw::Annotation;
use spreadsheet_ods::{Sheet, Value};

fn date(y: i32, m: u32, d: u32) -> NaiveDate {
    NaiveDate::from_ymd_opt(y, m, d).unwrap()
}

/// A month sheet laid out like the example workbook: the earnings' date in
/// D2, earnings from row 15, spending in columns F..J from row 3.
fn spend_earn_sheet() -> Sheet {
    let mut sheet = Sheet::new("January");
    sheet.set_value(1, 3, date(2025, 1, 31));
    sheet.set_value(14, 0, "Salary");
    sheet.set_value(14, 1, Value::Currency(4000.0, "GBP".into()));
    sheet.set_value(15, 0, "Bonus");
    sheet.set_value(15, 1, 500.0);
    sheet.set_annotation(15, 1, Annotation::new("Earn Annotation"));

    let rows: [(u32, &str, f64, Option<&str>, Option<&str>); 9] = [
        (1, "Food", 100.0, None, None),
        (2, "Rent", 200.0, Some("B"), None),
        (3, "Transport", 30.0, Some("M"), None),
        (4, "Food", 40.0, Some("W"), None),
        (5, "Vacation", 500.0, Some("X"), None),
        (6, "Food", 60.0, Some("A"), None),
        (7, "Car", 70.0, Some("X"), Some("Gas")),
        (8, "Food", 80.0, Some("Q"), None),
        (10, "Food", 150.0, Some("X"), None),
    ];
    for (i, (day, category, amount, bank, tag)) in rows.iter().enumerate() {
        let row = 2 + i as u32;
        sheet.set_value(row, 5, date(2025, 1, *day));
        sheet.set_value(row, 6, *category);
        sheet.set_value(row, 7, *amount);
        if let Some(b) = bank {
            sheet.set_value(row, 8, *b);
        }
        if let Some(t) = tag {
            sheet.set_value(row, 9, *t);
        }
    }
    sheet.set_annotation(6, 7, Annotation::new("Tickets"));
    sheet
}

fn savings_sheet() -> Sheet {
    let mut sheet = Sheet::new("Savings");
    let rows: [(NaiveDate, f64, Option<&str>); 5] = [
        (date(2025, 1, 1), 100.0, Some("Note 01")),
        (date(2025, 1, 26), 200.0, None),
        (date(2025, 2, 6), 300.0, Some("Interest")),
        (date(2025, 2, 9), 400.0, None),
        (date(2025, 3, 1), 500.0, None),
    ];
    for (i, (d, amount, note)) in rows.iter().enumerate() {
        let row = 2 + i as u32;
        sheet.set_value(row, 2, *d);
        sheet.set_value(row, 3, *amount);
        sheet.set_value(row, 4, "Other");
        if let Some(n) = note {
            sheet.set_value(row, 5, *n);
        }
    }
    sheet
}

#[test]
fn earn_parser_test_test_parse_savings_sheet() {
    let sheet = spend_earn_sheet();
    let transactions = earn::parse(&sheet);

    assert_eq!(2, transactions.len(), "Expected 2 transactions parsed");
}

#[test]
fn earn_parser_tests_test_parse_earnings() {
    let sheet = spend_earn_sheet();
    let transactions = earn::parse(&sheet);

    assert_eq!(2, transactions.len(), "Expected 2 transactions parsed");
    assert_eq!(transactions[0].date, "2025-01-31");
    assert_eq!(f64::from_bits(transactions[0].amount_bits), 4000.00);
    assert_eq!(transactions[0].category, "Salary".to_string());
    assert_eq!(transactions[0].notes, None);
    assert_eq!(transactions[0].type_, TransactionType::Earn);

    assert_eq!(transactions[1].date, "2025-01-31");
    assert_eq!(f64::from_bits(transactions[1].amount_bits), 500.00);
    assert_eq!(transactions[1].category, "Bonus".to_string());
    assert_eq!(transactions[1].notes, Some("Earn Annotation".to_string()));
    assert_eq!(transactions[1].type_, TransactionType::Earn);
}

#[test]
fn test_extract_annotation_text() {
    let sheet = spend_earn_sheet();
    let annotation = utils::extract_annotation(&sheet, 15, 1);

    assert_eq!(
        Some("Earn Annotation".to_string()),
        annotation,
        "Expected annotation text at row 1, col 3"
    );
}

#[test]
fn save_parser_tests_test_parse_savings_sheet() {
    let sheet = savings_sheet();
    let transactions = save::parse(&sheet);

    assert_eq!(5, transactions.len());

    assert_eq!(transactions[0].date, "2025-01-01");
    assert_eq!(f64::from_bits(transactions[0].amount_bits), 100.00);
    assert_eq!(transactions[0].category, "Other".to_string());
    assert_eq!(transactions[0].notes, Some("Note 01".to_string()));
    assert_eq!(transactions[0].type_, TransactionType::Save);

    assert_eq!(transactions[4].date, "2025-03-01");
    assert_eq!(f64::from_bits(transactions[4].amount_bits), 500.00);
    assert_eq!(transactions[4].category, "Other".to_string());
    assert_eq!(transactions[4].notes, None);
    assert_eq!(transactions[4].type_, TransactionType::Save);
}

#[test]
fn spend_parser_tests_test_parse_earnings() {
    let sheet = spend_earn_sheet();
    let transactions = spend::parse(&sheet);

    assert_eq!(9, transactions.len(), "Expected 9 transactions parsed");

    assert_eq!(transactions[0].date, "2025-01-01");
    assert_eq!(f64::from_bits(transactions[0].amount_bits), 100.00);
    assert_eq!(transactions[0].category, "Food".to_string());
    assert_eq!(transactions[0].notes, None);
    assert_eq!(transactions[0].type_, TransactionType::Spend);
    assert_eq!(transactions[0].bank_account, "NatWest".to_string());

    assert_eq!(transactions[4].date, "2025-01-05");
    assert_eq!(f64::from_bits(transactions[4].amount_bits), 500.00);
    assert_eq!(transactions[4].category, "Vacation".to_string());
    assert_eq!(transactions[4].notes, Some("Tickets".to_string()));
    assert_eq!(transactions[4].type_, TransactionType::Spend);
    assert_eq!(transactions[4].bank_account, "AmEx".to_string());

    assert_eq!(transactions[6].tags, vec!["Gas".to_string()]);

    assert_eq!(transactions[8].date, "2025-01-10");
    assert_eq!(f64::from_bits(transactions[8].amount_bits), 150.00);
    assert_eq!(transactions[8].category, "Food".to_string());
    assert_eq!(transactions[8].notes, None);
    assert_eq!(transactions[8].type_, TransactionType::Spend);
    assert_eq!(transactions[8].bank_account, "AmEx".to_string());
}

#[test]
fn spend_rows_map_bank_symbols_and_keep_empty_tags() {
    let sheet = spend_earn_sheet();
    let transactions = spend::parse(&sheet);
    let banks: Vec<&str> = transactions.iter().map(|t| t.bank_account.as_str()).collect();
    assert_eq!(
        banks,
        vec!["NatWest", "Barclays", "Monzo", "Wise Virtual", "AmEx", "Wise Physical", "AmEx", "Unknown", "AmEx"]
    );
    assert!(transactions[0].tags.is_empty());
}

#[test]
fn reading_stops_after_five_rows_without_a_date() {
    let mut sheet = Sheet::new("Savings");
    sheet.set_value(2, 2, "2025-01-01");
    sheet.set_value(2, 3, 1.0);
    sheet.set_value(2, 4, "Other");
    // Rows 3..=6 have no date: four misses, then a row with one.
    sheet.set_value(7, 2, "2025-01-02");
    sheet.set_value(7, 3, 2.0);
    sheet.set_value(7, 4, "Other");
    // Rows 8..=12 have no date: five misses end the reading.
    sheet.set_value(13, 2, "2025-01-03");
    sheet.set_value(13, 3, 3.0);
    sheet.set_value(13, 4, "Other");
    let transactions = save::parse(&sheet);
    let dates: Vec<&str> = transactions.iter().map(|t| t.date.as_str()).collect();
    assert_eq!(dates, vec!["2025-01-01", "2025-01-02"]);
}

#[test]
fn rows_missing_amount_or_category_are_skipped() {
    let mut sheet = Sheet::new("Savings");
    sheet.set_value(2, 2, "2025-01-01");
    sheet.set_value(2, 4, "Other");
    sheet.set_value(3, 2, "2025-01-02");
    sheet.set_value(3, 3, 5.0);
    sheet.set_value(3, 4, "");
    sheet.set_value(4, 2, "2025-01-03");
    sheet.set_value(4, 3, "7");
    sheet.set_value(4, 4, "Other");
    sheet.set_value(5, 2, "2025-01-04");
    sheet.set_value(5, 3, Value::Currency(9.5, "EUR".into()));
    sheet.set_value(5, 4, "Other");
    let transactions = save::parse(&sheet);
    assert_eq!(transactions.len(), 1);
    assert_eq!(transactions[0].date, "2025-01-04");
    assert_eq!(f64::from_bits(transactions[0].amount_bits), 9.5);
    assert_eq!(transactions[0].bank_account, "Default Account");
}

#[test]
fn date_cells_are_written_in_iso_form() {
    let mut sheet = Sheet::new("Savings");
    sheet.set_value(2, 2, date(10000, 3, 4));
    sheet.set_value(3, 2, date(7, 11, 9));
    sheet.set_value(4, 2, NaiveDate::from_ymd_opt(2024, 2, 29).unwrap().and_hms_opt(23, 59, 0).unwrap());
    for row in 2..5 {
        sheet.set_value(row, 3, 1.0);
        sheet.set_value(row, 4, "Other");
    }
    let dates: Vec<String> = save::parse(&sheet).into_iter().map(|t| t.date).collect();
    assert_eq!(dates, vec!["+10000-03-04", "0007-11-09", "2024-02-29"]);
}

#[test]
fn earnings_stop_after_five_rows_without_a_category_in_all() {
    let mut sheet = Sheet::new("March");
    sheet.set_value(1, 3, "2025-03-31");
    let mut row = 14;
    for i in 0..7 {
        // A row with a category, then a row without one.
        sheet.set_value(row, 0, format!("C{i}"));
        sheet.set_value(row, 1, 1.0);
        row += 2;
    }
    let transactions = earn::parse(&sheet);
    // The fifth row without a category ends the reading, though the misses
    // were not consecutive.
    assert_eq!(transactions.len(), 5);
    assert!(transactions.iter().all(|t| t.date == "2025-03-31"));
    assert!(transactions.iter().all(|t| t.bank_account == "Default Account"));
}

#[test]
fn earnings_need_a_month_sheet_with_a_date() {
    let mut sheet = Sheet::new("March");
    sheet.set_value(14, 0, "Salary");
    sheet.set_value(14, 1, 1.0);
    assert!(earn::can_parse(&sheet));
    assert!(earn::try_parse(&sheet).is_none());
    let savings = savings_sheet();
    assert!(!earn::can_parse(&savings));
    assert!(earn::try_parse(&savings).is_none());
    assert!(save::can_parse(&savings));
    assert!(!save::can_parse(&sheet));
    assert!(spend::can_parse(&sheet));
    assert_eq!(earn::try_parse(&spend_earn_sheet()).map(|v| v.len()), Some(2));
}

#[test]
fn annotation_paragraphs_are_joined() {
    let mut sheet = Sheet::new("January");
    let mut note = Annotation::new("first");
    note.push_text_str(" second");
    sheet.set_annotation(0, 0, note);
    assert_eq!(utils::extract_annotation(&sheet, 0, 0), Some("first second".to_string()));
    assert_eq!(utils::extract_annotation(&sheet, 0, 1), None);
}
