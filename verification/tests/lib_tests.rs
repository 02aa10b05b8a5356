use chrono::NaiveDate;
use moneylens_converter_rs::options::Options;
use moneylens_converter_rs::payload::types::{Transaction, TransactionType};
use moneylens_converter_rs::payload::PayloadBuilder;
use moneylens_converter_rs::{build_payload, filter_transactions_by_month};
use spreadsheet_ods::Sheet;

#[test]
fn filters_transactions_before_building_payload_metadata() {
    let january_food = Transaction {
        date: "2025-01-15".to_string(),
        type_: TransactionType::Spend,
        category: "Food".to_string(),
        bank_account: "NatWest".to_string(),
        amount_bits: 10.0f64.to_bits(),
        tags: vec!["Groceries".to_string()],
        notes: None,
    };
    let february_salary = Transaction {
        date: "2025-02-01".to_string(),
        type_: TransactionType::Earn,
        category: "Salary".to_string(),
        bank_account: "Checking".to_string(),
        amount_bits: 1000.0f64.to_bits(),
        tags: vec!["Payroll".to_string()],
        notes: None,
    };

    let payload = PayloadBuilder::default()
        .add_transactions(filter_transactions_by_month(
            vec![january_food, february_salary],
            Some(2),
        ))
        .build();

    assert_eq!(payload.transactions.len(), 1);
    assert_eq!(payload.transactions[0].date, "2025-02-01");
    assert_eq!(payload.categories.len(), 1);
    assert_eq!(payload.categories[0].name, "Salary");
    assert_eq!(payload.tags.len(), 1);
    assert_eq!(payload.tags[0].name, "Payroll");
    assert_eq!(payload.bank_accounts.len(), 1);
    assert_eq!(payload.bank_accounts[0].name, "Checking");
}

fn saving(date: &str) -> Transaction {
    Transaction {
        date: date.to_string(),
        type_: TransactionType::Save,
        category: "Other".to_string(),
        bank_account: "Default Account".to_string(),
        amount_bits: 1.0f64.to_bits(),
        tags: vec![],
        notes: None,
    }
}

#[test]
fn filtering_without_a_month_keeps_everything() {
    let all = vec![saving("2025-01-01"), saving("junk"), saving("2025-02-01")];
    let kept = filter_transactions_by_month(all, None);
    assert_eq!(kept.len(), 3);
    let kept = filter_transactions_by_month(vec![saving("2025-01-01"), saving("junk"), saving("2025-01-31")], Some(1));
    let dates: Vec<&str> = kept.iter().map(|t| t.date.as_str()).collect();
    assert_eq!(dates, vec!["2025-01-01", "2025-01-31"]);
}

fn day(y: i32, m: u32, d: u32) -> NaiveDate {
    NaiveDate::from_ymd_opt(y, m, d).unwrap()
}

fn month_sheet(name: &str, month: u32) -> Sheet {
    let mut sheet = Sheet::new(name);
    sheet.set_value(1, 3, day(2025, month, 28));
    sheet.set_value(14, 0, "Salary");
    sheet.set_value(14, 1, 1000.0);
    sheet.set_value(2, 5, day(2025, month, 3));
    sheet.set_value(2, 6, "Vacation/Hotels");
    sheet.set_value(2, 7, 120.0);
    sheet.set_value(2, 8, "X");
    sheet.set_value(2, 9, "Trip");
    sheet
}

fn savings_sheet() -> Sheet {
    let mut sheet = Sheet::new("Savings");
    let dates = [day(2025, 1, 6), day(2025, 1, 26), day(2025, 2, 6)];
    for (i, d) in dates.iter().enumerate() {
        let row = 2 + i as u32;
        sheet.set_value(row, 2, *d);
        sheet.set_value(row, 3, 150.0);
        sheet.set_value(row, 4, "Other");
    }
    sheet
}

#[test]
fn run_filters_savings_transactions_by_selected_month() {
    let savings = savings_sheet();
    let payload = build_payload(&[&savings], Some(1)).expect("the workbook has no month sheet to date");

    assert_eq!(payload.transactions.len(), 2);
    assert!(payload.transactions.iter().all(|t| t.date.starts_with("2025-01-")));
    assert_eq!(payload.categories.len(), 1);
    assert_eq!(payload.categories[0].name, "Other");
    assert_eq!(payload.categories[0].parent, None);
    assert!(payload.tags.is_empty());
    assert!(payload.transactions.iter().all(|t| t.tags.is_empty()));
}

#[test]
fn only_the_selected_month_sheet_is_read() {
    let savings = savings_sheet();
    let january = month_sheet("January", 1);
    let february = month_sheet("February", 2);
    let other = month_sheet("Notes", 3);
    let sheets = [&savings, &january, &february, &other];

    let payload = build_payload(&sheets, Some(2)).unwrap();
    let dates: Vec<&str> = payload.transactions.iter().map(|t| t.date.as_str()).collect();
    assert_eq!(dates, vec!["2025-02-06", "2025-02-28", "2025-02-03"]);
    let kinds: Vec<TransactionType> = payload.transactions.iter().map(|t| t.type_).collect();
    assert_eq!(kinds, vec![TransactionType::Save, TransactionType::Earn, TransactionType::Spend]);
    assert_eq!(payload.transactions[2].category, "Vacation/Hotels");
    assert_eq!(payload.transactions[2].bank_account, "AmEx");
    let names: Vec<&str> = payload.categories.iter().map(|c| c.name.as_str()).collect();
    assert_eq!(names, vec!["Other", "Salary", "Vacation", "Hotels"]);
    let tags: Vec<&str> = payload.tags.iter().map(|t| t.name.as_str()).collect();
    assert_eq!(tags, vec!["Trip"]);

    let all = build_payload(&sheets, None).unwrap();
    // Every savings row, and both month sheets; "Notes" is no month.
    assert_eq!(all.transactions.len(), 3 + 2 + 2);
    assert_eq!(all.bank_accounts.len(), 2);
}

#[test]
fn a_selected_month_sheet_without_a_date_stops_the_conversion() {
    let mut january = month_sheet("January", 1);
    january.set_value(1, 3, 5.0);
    assert!(build_payload(&[&january], Some(1)).is_none());
    assert!(build_payload(&[&january], None).is_none());
    // Not selected: not read.
    assert!(build_payload(&[&january], Some(2)).is_some());
}

#[test]
fn options_accept_months_one_to_twelve() {
    let o = Options::new("input.ods".to_string(), None, Some(3)).expect("month 3 is a month");
    assert_eq!(o.month, Some(3));
    assert_eq!(o.input, "input.ods");
    assert!(Options::new("input.ods".to_string(), None, Some(13)).is_none());
    assert!(Options::new("input.ods".to_string(), None, Some(0)).is_none());
    assert!(Options::new("input.ods".to_string(), Some("out.json".to_string()), None).is_some());
}
