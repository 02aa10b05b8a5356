use moneylens_converter_rs::payload::builder::{split_category, CategorySplit};
use moneylens_converter_rs::payload::types::{Transaction, TransactionType};
use moneylens_converter_rs::payload::PayloadBuilder;

fn tx(date: &str, kind: TransactionType, category: &str, bank: &str, amount: f64, tags: Vec<&str>) -> Transaction {
    Transaction {
        date: date.to_string(),
        type_: kind,
        category: category.to_string(),
        bank_account: bank.to_string(),
        amount_bits: amount.to_bits(),
        tags: tags.into_iter().map(|t| t.to_string()).collect(),
        notes: None,
    }
}

#[test]
fn test_payload_builder() {
    let transactions = vec![
        Transaction {
            date: "2024-01-01".to_string(),
            type_: TransactionType::Spend,
            category: "Food".to_string(),
            bank_account: "Checking".to_string(),
            amount_bits: 50.0f64.to_bits(),
            tags: vec!["Groceries".to_string()],
            notes: Some("Weekly groceries".to_string()),
        },
        Transaction {
            date: "2024-01-02".to_string(),
            type_: TransactionType::Earn,
            category: "Salary".to_string(),
            bank_account: "Checking".to_string(),
            amount_bits: 2000.0f64.to_bits(),
            tags: vec![],
            notes: Some("Monthly salary".to_string()),
        },
    ];

    let payload = PayloadBuilder::default()
        .add_transactions(transactions.clone())
        .add_transactions(transactions)
        .build();

    assert_eq!(
        payload.transactions.len(),
        4,
        "Expected 4 transactions after adding the same transactions twice"
    );
    assert_eq!(payload.categories.len(), 2, "Expected 2 unique categories");
    assert_eq!(
        payload.bank_accounts.len(),
        1,
        "Expected 1 unique bank account"
    );
    assert_eq!(payload.tags.len(), 1, "Expected 1 unique tag");
}

#[test]
fn splits_slash_separated_category_into_parent_and_child_entries() {
    let transactions = vec![Transaction {
        date: "2025-01-10".to_string(),
        type_: TransactionType::Spend,
        category: "Vacation/Accomodation".to_string(),
        bank_account: "AmEx".to_string(),
        amount_bits: 100.0f64.to_bits(),
        tags: vec![],
        notes: None,
    }];

    let payload = PayloadBuilder::default()
        .add_transactions(transactions.clone())
        .add_transactions(transactions) // re-adding must not duplicate entries
        .build();

    assert_eq!(payload.transactions.len(), 2);
    assert_eq!(
        payload.categories.len(),
        2,
        "expected exactly one parent entry and one child entry, deduped across both adds"
    );

    let parent = payload
        .categories
        .iter()
        .find(|c| c.name == "Vacation")
        .expect("parent category entry should exist");
    assert_eq!(parent.parent, None);
    assert_eq!(parent.type_, TransactionType::Spend);

    let child = payload
        .categories
        .iter()
        .find(|c| c.name == "Accomodation")
        .expect("child category entry should exist");
    assert_eq!(child.parent, Some("Vacation".to_string()));
    assert_eq!(child.type_, TransactionType::Spend);

    // the transaction's own `category` field must remain the full path, unchanged
    assert!(
        payload
            .transactions
            .iter()
            .all(|tx| tx.category == "Vacation/Accomodation")
    );
}

#[test]
fn same_bare_category_name_under_different_types_gets_separate_entries() {
    let transactions = vec![
        Transaction {
            date: "2025-01-01".to_string(),
            type_: TransactionType::Save,
            category: "Other".to_string(),
            bank_account: "Default Account".to_string(),
            amount_bits: 10.0f64.to_bits(),
            tags: vec![],
            notes: None,
        },
        Transaction {
            date: "2025-01-02".to_string(),
            type_: TransactionType::Earn,
            category: "Other".to_string(),
            bank_account: "Default Account".to_string(),
            amount_bits: 20.0f64.to_bits(),
            tags: vec![],
            notes: None,
        },
    ];

    let payload = PayloadBuilder::default()
        .add_transactions(transactions)
        .build();

    assert_eq!(
        payload.categories.len(),
        2,
        "same bare name under two different transaction types must produce two category entries"
    );
    assert!(
        payload
            .categories
            .iter()
            .any(|c| c.name == "Other" && c.type_ == TransactionType::Save)
    );
    assert!(
        payload
            .categories
            .iter()
            .any(|c| c.name == "Other" && c.type_ == TransactionType::Earn)
    );
}

#[test]
fn trailing_slash_with_no_child_collapses_to_a_root_category() {
    let transactions = vec![
        Transaction {
            date: "2025-01-10".to_string(),
            type_: TransactionType::Spend,
            category: "Bills/".to_string(),
            bank_account: "AmEx".to_string(),
            amount_bits: 10.0f64.to_bits(),
            tags: vec![],
            notes: None,
        },
        Transaction {
            date: "2025-01-11".to_string(),
            type_: TransactionType::Spend,
            category: "Food/   ".to_string(),
            bank_account: "AmEx".to_string(),
            amount_bits: 20.0f64.to_bits(),
            tags: vec![],
            notes: None,
        },
    ];

    let payload = PayloadBuilder::default()
        .add_transactions(transactions)
        .build();

    assert_eq!(payload.categories.len(), 2);
    let bills = payload
        .categories
        .iter()
        .find(|c| c.name == "Bills")
        .expect("\"Bills/\" should collapse to a root category named \"Bills\"");
    assert_eq!(bills.parent, None);

    let food = payload
        .categories
        .iter()
        .find(|c| c.name == "Food")
        .expect("\"Food/   \" should collapse to a root category named \"Food\"");
    assert_eq!(food.parent, None);

    // the transactions' own `category` fields are normalized to match
    assert!(
        payload
            .transactions
            .iter()
            .any(|tx| tx.category == "Bills")
    );
    assert!(payload.transactions.iter().any(|tx| tx.category == "Food"));
}

#[test]
fn leading_slash_with_no_parent_collapses_to_a_root_category() {
    let transactions = vec![Transaction {
        date: "2025-01-10".to_string(),
        type_: TransactionType::Spend,
        category: "  /Child".to_string(),
        bank_account: "AmEx".to_string(),
        amount_bits: 10.0f64.to_bits(),
        tags: vec![],
        notes: None,
    }];

    let payload = PayloadBuilder::default()
        .add_transactions(transactions)
        .build();

    assert_eq!(payload.categories.len(), 1);
    let child = &payload.categories[0];
    assert_eq!(child.name, "Child");
    assert_eq!(child.parent, None);

    assert_eq!(payload.transactions[0].category, "Child");
}

#[test]
fn blank_category_produces_no_entries_and_leaves_transaction_untouched() {
    let transactions = vec![
        Transaction {
            date: "2025-01-10".to_string(),
            type_: TransactionType::Spend,
            category: "   ".to_string(),
            bank_account: "AmEx".to_string(),
            amount_bits: 10.0f64.to_bits(),
            tags: vec![],
            notes: None,
        },
        Transaction {
            date: "2025-01-11".to_string(),
            type_: TransactionType::Spend,
            category: " / ".to_string(),
            bank_account: "AmEx".to_string(),
            amount_bits: 20.0f64.to_bits(),
            tags: vec![],
            notes: None,
        },
    ];

    let payload = PayloadBuilder::default()
        .add_transactions(transactions)
        .build();

    assert!(
        payload.categories.is_empty(),
        "a category with no usable name on either side must not produce any category entries"
    );
    assert_eq!(payload.transactions.len(), 2);
    assert_eq!(payload.transactions[0].category, "   ");
    assert_eq!(payload.transactions[1].category, " / ");
}

#[test]
fn multipath_category_is_skipped_with_a_warning() {
    let transactions = vec![Transaction {
        date: "2025-01-10".to_string(),
        type_: TransactionType::Spend,
        category: "Travel/Europe/Hotels".to_string(),
        bank_account: "AmEx".to_string(),
        amount_bits: 30.0f64.to_bits(),
        tags: vec![],
        notes: None,
    }];

    let payload = PayloadBuilder::default()
        .add_transactions(transactions)
        .build();

    assert!(
        payload.categories.is_empty(),
        "a category path with more than one level of nesting must not produce any category entries"
    );
    // the transaction itself is still emitted unchanged; the API will
    // reject it at upload time since the referenced category doesn't exist
    assert_eq!(payload.transactions.len(), 1);
    assert_eq!(payload.transactions[0].category, "Travel/Europe/Hotels");
}

fn split_text(c: &str) -> String {
    match split_category(c) {
        CategorySplit::Root(n) => format!("root:{n}"),
        CategorySplit::Nested { parent, name } => format!("nested:{parent}|{name}"),
        CategorySplit::Multipath => "multipath".to_string(),
        CategorySplit::Empty => "empty".to_string(),
    }
}

#[test]
fn split_category_follows_the_parent_child_rule() {
    assert_eq!(split_text("Bills"), "root:Bills");
    assert_eq!(split_text("  Bills \t"), "root:Bills");
    assert_eq!(split_text(" Vacation / Hotels "), "nested:Vacation|Hotels");
    assert_eq!(split_text("A/B/C"), "multipath");
    assert_eq!(split_text("/"), "empty");
    assert_eq!(split_text(""), "empty");
    assert_eq!(split_text("\u{3000}\u{a0}"), "empty");
    assert_eq!(split_text("Caf\u{e9}/Cr\u{e8}me"), "nested:Caf\u{e9}|Cr\u{e8}me");
}

#[test]
fn empty_parent_does_not_hide_a_second_slash() {
    // "/A/B" has more than one `/`: it is a multi-level path, never a root
    // category named "A/B".
    assert_eq!(split_text("/A/B"), "multipath");
    assert_eq!(split_text("//"), "multipath");
    assert_eq!(split_text("A//"), "multipath");
    let payload = PayloadBuilder::default()
        .add_transactions(vec![tx("2025-01-01", TransactionType::Spend, "/A/B", "AmEx", 1.0, vec![])])
        .build();
    assert!(payload.categories.is_empty());
    assert_eq!(payload.transactions[0].category, "/A/B");
}

#[test]
fn nested_category_text_is_normalized() {
    let payload = PayloadBuilder::default()
        .add_transactions(vec![tx("2025-01-01", TransactionType::Spend, "  Vacation /  Hotels ", "AmEx", 1.0, vec![])])
        .build();
    assert_eq!(payload.transactions[0].category, "Vacation/Hotels");
    assert_eq!(payload.categories.len(), 2);
    assert_eq!(payload.categories[0].name, "Vacation");
    assert_eq!(payload.categories[0].parent, None);
    assert_eq!(payload.categories[1].name, "Hotels");
    assert_eq!(payload.categories[1].parent, Some("Vacation".to_string()));
    assert!(payload.categories.iter().all(|c| c.description.is_none()));
}

#[test]
fn entries_keep_first_seen_order_and_tags_are_deduplicated() {
    let payload = PayloadBuilder::new()
        .add_transactions(vec![
            tx("2025-01-01", TransactionType::Spend, "Food", "Monzo", 1.0, vec!["a", "b", "a"]),
            tx("2025-01-02", TransactionType::Spend, "Rent", "AmEx", 2.0, vec!["c", "b"]),
            tx("2025-01-03", TransactionType::Spend, "Food", "Monzo", 3.0, vec![]),
        ])
        .build();
    let names = |v: Vec<String>| v;
    assert_eq!(names(payload.tags.iter().map(|t| t.name.clone()).collect()), vec!["a", "b", "c"]);
    assert_eq!(
        names(payload.bank_accounts.iter().map(|b| b.name.clone()).collect()),
        vec!["Monzo", "AmEx"]
    );
    assert_eq!(names(payload.categories.iter().map(|c| c.name.clone()).collect()), vec!["Food", "Rent"]);
    assert_eq!(payload.transactions.len(), 3);
    assert_eq!(payload.transactions[2].amount_bits, 3.0f64.to_bits());
    assert_eq!(payload.transactions[0].tags, vec!["a", "b", "a"]);
}

#[test]
fn adding_in_batches_equals_adding_at_once() {
    let a = vec![
        tx("2025-01-01", TransactionType::Spend, "Food/Snacks", "Monzo", 1.0, vec!["x"]),
        tx("2025-01-02", TransactionType::Earn, "Salary", "AmEx", 2.0, vec![]),
    ];
    let b = vec![tx("2025-01-03", TransactionType::Spend, "Food", "Barclays", 3.0, vec!["y", "x"])];
    let mut all = a.clone();
    all.extend(b.clone());
    let batched = PayloadBuilder::new().add_transactions(a).add_transactions(b).build();
    let at_once = PayloadBuilder::new().add_transactions(all).build();
    assert_eq!(format!("{batched:?}"), format!("{at_once:?}"));
}
