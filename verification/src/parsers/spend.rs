//! A month's spending: one row per purchase, with its date, category,
//! amount, the symbol of the bank account and an optional tag; an annotation
//! on the amount is kept as the transaction's notes.
use vstd::prelude::*;
use spreadsheet_ods::Sheet;

use super::sheet::{cell_at, sheet_name, sheet_title};
use super::utils::{
    amount_of, bank_account_symbol_to_name, date_of, extract_amount, extract_annotation,
    extract_date, extract_text, is_month, note_of, spec_bank_account_name, spec_is_month, text_of,
};
use crate::payload::types::{transactions_view, Transaction, TransactionType, TransactionView};

verus! {

/// Reading stops after this many rows in a row without a date.
pub const EMPTY_DATE_THRESHOLD: usize = 5;

pub const FIRST_DATA_ROW: u32 = 2;

/// The number of rows read at most.
pub const MAX_ROWS: u32 = 1000;

pub const COL_DATE: u32 = 5;

pub const COL_CATEGORY: u32 = 6;

pub const COL_AMOUNT: u32 = 7;

pub const COL_BANK_ACCOUNT: u32 = 8;

pub const COL_TAGS: u32 = 9;

/// The row after the last one that is read.
pub open spec fn end_row() -> int {
    FIRST_DATA_ROW + MAX_ROWS
}

/// The tags of a row: its tag cell's text, if any.
pub open spec fn row_tags(tag: Option<Seq<char>>) -> Seq<Seq<char>> {
    match tag {
        Some(t) => seq![t],
        None => Seq::empty(),
    }
}

/// The transaction of a row that has a date, an amount and a category.
pub open spec fn spend_row(sheet: Sheet, row: u32) -> Option<TransactionView> {
    match (
        date_of(cell_at(sheet, row, COL_DATE)),
        amount_of(cell_at(sheet, row, COL_AMOUNT)),
        text_of(cell_at(sheet, row, COL_CATEGORY)),
    ) {
        (Some(date), Some(amount), Some(category)) => Some(
            TransactionView {
                date,
                kind: TransactionType::Spend,
                category,
                bank_account: spec_bank_account_name(text_of(cell_at(sheet, row, COL_BANK_ACCOUNT))),
                amount_bits: amount,
                tags: row_tags(text_of(cell_at(sheet, row, COL_TAGS))),
                notes: note_of(sheet, row, COL_AMOUNT),
            },
        ),
        _ => None,
    }
}

/// The transactions of the rows from `row` on, when the `missed` rows just
/// before `row` had no date: rows without a date are skipped, and reading
/// stops after `MAX_ROWS` rows or after `EMPTY_DATE_THRESHOLD` such rows in a
/// row; a row with a date but no amount or no category is skipped.
pub open spec fn spend_rows(sheet: Sheet, row: int, missed: nat) -> Seq<TransactionView>
    decreases end_row() - row,
{
    if row >= end_row() || row < 0 || missed >= EMPTY_DATE_THRESHOLD {
        Seq::empty()
    } else if date_of(cell_at(sheet, row as u32, COL_DATE)) is None {
        spend_rows(sheet, row + 1, missed + 1)
    } else {
        match spend_row(sheet, row as u32) {
            Some(t) => seq![t] + spend_rows(sheet, row + 1, 0),
            None => spend_rows(sheet, row + 1, 0),
        }
    }
}

/// True when `sheet` is a month's sheet, which holds spending.
pub fn can_parse(sheet: &Sheet) -> (r: bool)
    ensures
        r == spec_is_month(sheet_title(*sheet)),
{
    let name = sheet_name(sheet);
    is_month(name.as_str())
}

/// The spending of a month's sheet (see [`spend_rows`]).
pub fn parse(sheet: &Sheet) -> (r: Vec<Transaction>)
    requires
        spec_is_month(sheet_title(*sheet)),
    ensures
        transactions_view(r@) == spend_rows(*sheet, FIRST_DATA_ROW as int, 0),
{
    let mut transactions: Vec<Transaction> = Vec::new();
    let mut empty_date_count: usize = 0;
    let mut row_idx: u32 = FIRST_DATA_ROW;
    while row_idx < FIRST_DATA_ROW + MAX_ROWS && empty_date_count < EMPTY_DATE_THRESHOLD
        invariant
            FIRST_DATA_ROW <= row_idx <= end_row(),
            empty_date_count <= EMPTY_DATE_THRESHOLD,
            transactions_view(transactions@) + spend_rows(
                *sheet,
                row_idx as int,
                empty_date_count as nat,
            ) == spend_rows(*sheet, FIRST_DATA_ROW as int, 0),
        decreases end_row() - row_idx,
    {
        let ghost before = transactions_view(transactions@);
        match extract_date(sheet, row_idx, COL_DATE) {
            None => {
                empty_date_count = empty_date_count + 1;
            },
            Some(date) => {
                empty_date_count = 0;
                match (
                    extract_amount(sheet, row_idx, COL_AMOUNT),
                    extract_text(sheet, row_idx, COL_CATEGORY),
                ) {
                    (Some(amount), Some(category)) => {
                        let bank_account_symbol = extract_text(sheet, row_idx, COL_BANK_ACCOUNT);
                        let bank_account = bank_account_symbol_to_name(bank_account_symbol);
                        let tag = extract_text(sheet, row_idx, COL_TAGS);
                        let annotation = extract_annotation(sheet, row_idx, COL_AMOUNT);
                        let mut tags: Vec<String> = Vec::new();
                        if let Some(tag_value) = tag {
                            tags.push(tag_value);
                        }
                        let transaction = Transaction {
                            date,
                            type_: TransactionType::Spend,
                            category,
                            bank_account,
                            amount_bits: amount,
                            notes: annotation,
                            tags,
                        };
                        transactions.push(transaction);
                        proof {
                            assert(transaction@.tags =~= row_tags(
                                text_of(cell_at(*sheet, row_idx, COL_TAGS)),
                            ));
                            assert(transactions_view(transactions@) =~= before.push(
                                transaction@,
                            ));
                            assert(spend_row(*sheet, row_idx) == Some(transaction@));
                            assert(before.push(transaction@) + spend_rows(
                                *sheet,
                                row_idx + 1,
                                0,
                            ) =~= before + (seq![transaction@] + spend_rows(
                                *sheet,
                                row_idx + 1,
                                0,
                            )));
                        }
                    },
                    _ => {},
                }
            },
        }
        row_idx = row_idx + 1;
    }
    proof {
        assert(spend_rows(*sheet, row_idx as int, empty_date_count as nat) =~= Seq::empty());
        assert(transactions_view(transactions@) + Seq::empty() =~= transactions_view(
            transactions@,
        ));
    }
    transactions
}


/// Every transaction read as spending is spending, with at most one tag.
pub proof fn law_spent_rows_are_spending(sheet: Sheet, row: int, missed: nat)
    ensures
        forall|i: int|
            0 <= i < spend_rows(sheet, row, missed).len() ==> {
                let t = #[trigger] spend_rows(sheet, row, missed)[i];
                &&& t.kind == TransactionType::Spend
                &&& t.tags.len() <= 1
            },
    decreases end_row() - row,
{
    if !(row >= end_row() || row < 0 || missed >= EMPTY_DATE_THRESHOLD) {
        if date_of(cell_at(sheet, row as u32, COL_DATE)) is None {
            law_spent_rows_are_spending(sheet, row + 1, missed + 1);
        } else {
            law_spent_rows_are_spending(sheet, row + 1, 0);
            let rest = spend_rows(sheet, row + 1, 0);
            match spend_row(sheet, row as u32) {
                Some(t) => {
                    assert forall|i: int| 0 <= i < (seq![t] + rest).len() implies {
                        let u = #[trigger] (seq![t] + rest)[i];
                        &&& u.kind == TransactionType::Spend
                        &&& u.tags.len() <= 1
                    } by {
                        if i > 0 {
                            assert((seq![t] + rest)[i] == rest[i - 1]);
                        }
                    }
                },
                None => {},
            }
        }
    }
}


// ---------------------------------------------------------------------------
// Which rows the spending sheet yields.
// ---------------------------------------------------------------------------

/// Row `r` of a month's sheet has a spending date (column F).
pub open spec fn row_has_date(sheet: Sheet, r: int) -> bool {
    date_of(cell_at(sheet, r as u32, 5)) is Some
}

/// One of the five rows from row `k` on has a spending date.
pub open spec fn dated_among_five(sheet: Sheet, k: int) -> bool {
    exists|j: int| k <= j < k + 5 && row_has_date(sheet, j)
}

/// The reading gets to row `r`: no five consecutive rows without a date lie
/// between the first data row (row 2) and row `r`.
pub open spec fn reading_reaches(sheet: Sheet, r: int) -> bool {
    forall|k: int| 2 <= k && k + 5 <= r ==> #[trigger] dated_among_five(sheet, k)
}

/// Row `r` yields a purchase: it lies in the 1000 rows from row 2, the
/// reading gets to it, and it has a date, a category (column G) and an
/// amount (column H).
pub open spec fn is_spending_row(sheet: Sheet, r: int) -> bool {
    &&& 2 <= r < 1002
    &&& reading_reaches(sheet, r)
    &&& date_of(cell_at(sheet, r as u32, 5)) is Some
    &&& text_of(cell_at(sheet, r as u32, 6)) is Some
    &&& amount_of(cell_at(sheet, r as u32, 7)) is Some
}

/// `t` is the purchase recorded from row `r`: the row's date, category and
/// amount, the account its symbol (column I) stands for, its tag (column J)
/// if any, the annotation of its amount as notes, and kind `Spend`.
pub open spec fn records_spending_row(sheet: Sheet, r: int, t: TransactionView) -> bool {
    &&& date_of(cell_at(sheet, r as u32, 5)) == Some(t.date)
    &&& text_of(cell_at(sheet, r as u32, 6)) == Some(t.category)
    &&& amount_of(cell_at(sheet, r as u32, 7)) == Some(t.amount_bits)
    &&& t.bank_account == spec_bank_account_name(text_of(cell_at(sheet, r as u32, 8)))
    &&& (match text_of(cell_at(sheet, r as u32, 9)) {
        Some(tag) => t.tags == seq![tag],
        None => t.tags.len() == 0,
    })
    &&& t.notes == note_of(sheet, r as u32, 7)
    &&& t.kind == TransactionType::Spend
}

/// `res` lists, in row order, one purchase per row of `rows`, and `rows` are
/// exactly the rows from `from` on that yield a purchase.
pub open spec fn lists_spending_rows(sheet: Sheet, res: Seq<TransactionView>, rows: Seq<int>, from: int) -> bool {
    &&& rows.len() == res.len()
    &&& forall|i: int, j: int| 0 <= i < j < rows.len() ==> rows[i] < rows[j]
    &&& forall|i: int|
        0 <= i < rows.len() ==> from <= #[trigger] rows[i] && is_spending_row(sheet, rows[i])
            && records_spending_row(sheet, rows[i], res[i])
    &&& forall|r: int| from <= r && #[trigger] is_spending_row(sheet, r) ==> rows.contains(r)
}

proof fn lemma_spend_rows_list(sheet: Sheet, row: int, missed: nat)
    requires
        2 <= row <= 1002,
        missed <= row - 2,
        forall|j: int| row - missed <= j < row ==> !row_has_date(sheet, j),
        row - missed == 2 || row_has_date(sheet, row - missed - 1),
        reading_reaches(sheet, row),
    ensures
        exists|rows: Seq<int>| #[trigger] lists_spending_rows(sheet, spend_rows(sheet, row, missed), rows, row),
    decreases 1002 - row,
{
    let res = spend_rows(sheet, row, missed);
    if missed >= 5 {
        assert(!dated_among_five(sheet, row - 5));
    }
    if row >= 1002 {
        assert(lists_spending_rows(sheet, res, Seq::empty(), row));
    } else if !row_has_date(sheet, row) {
        if missed + 1 >= 5 {
            assert(spend_rows(sheet, row + 1, missed + 1) == Seq::<TransactionView>::empty());
            assert(res == spend_rows(sheet, row + 1, missed + 1));
            assert forall|r: int| row <= r && #[trigger] is_spending_row(sheet, r) implies false by {
                if r > row {
                    assert(dated_among_five(sheet, row - 4));
                    let j = choose|j: int| row - 4 <= j < row + 1 && row_has_date(sheet, j);
                }
            }
            assert(lists_spending_rows(sheet, res, Seq::empty(), row));
        } else {
            assert forall|k: int| 2 <= k && k + 5 <= row + 1 implies #[trigger] dated_among_five(sheet, k) by {
                if k + 5 == row + 1 && row - missed != 2 {
                    assert(row_has_date(sheet, row - missed - 1));
                }
            }
            lemma_spend_rows_list(sheet, row + 1, missed + 1);
            let rows = choose|rows: Seq<int>| #[trigger] lists_spending_rows(sheet, spend_rows(sheet, row + 1, missed + 1), rows, row + 1);
            assert(lists_spending_rows(sheet, res, rows, row));
        }
    } else {
        assert forall|k: int| 2 <= k && k + 5 <= row + 1 implies #[trigger] dated_among_five(sheet, k) by {
            if k + 5 == row + 1 {
                assert(row_has_date(sheet, row));
            }
        }
        lemma_spend_rows_list(sheet, row + 1, 0);
        let rest = spend_rows(sheet, row + 1, 0);
        let rows = choose|rows: Seq<int>| #[trigger] lists_spending_rows(sheet, rest, rows, row + 1);
        match spend_row(sheet, row as u32) {
            Some(t) => {
                let all = seq![row] + rows;
                assert(res == seq![t] + rest);
                assert forall|i: int| 0 <= i < all.len() implies row <= #[trigger] all[i]
                    && is_spending_row(sheet, all[i]) && records_spending_row(sheet, all[i], res[i]) by {
                    if i > 0 {
                        assert(all[i] == rows[i - 1]);
                        assert(res[i] == rest[i - 1]);
                    }
                }
                assert forall|i: int, j: int| 0 <= i < j < all.len() implies all[i] < all[j] by {
                    assert(all[j] == rows[j - 1]);
                    if i > 0 {
                        assert(all[i] == rows[i - 1]);
                    }
                }
                assert forall|r: int| row <= r && #[trigger] is_spending_row(sheet, r) implies all.contains(r) by {
                    if r == row {
                        assert(all[0] == row);
                    } else {
                        assert(rows.contains(r));
                        let i = choose|i: int| 0 <= i < rows.len() && rows[i] == r;
                        assert(all[i + 1] == r);
                    }
                }
                assert(lists_spending_rows(sheet, res, all, row));
            },
            None => {
                assert(lists_spending_rows(sheet, res, rows, row));
            },
        }
    }
}

/// A month's sheet yields, in row order, exactly one purchase for each of the
/// 1000 rows from row 2 that has a date, a category and an amount, as long
/// as five consecutive rows without a date have not been met: a row with a
/// date starts the count of date-less rows afresh.
pub proof fn law_spending_is_the_dated_rows(sheet: Sheet)
    ensures
        exists|rows: Seq<int>| #[trigger] lists_spending_rows(sheet, spend_rows(sheet, FIRST_DATA_ROW as int, 0), rows, 2),
{
    lemma_spend_rows_list(sheet, 2, 0);
}

} // verus!
