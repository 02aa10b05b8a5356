//! The savings sheet: one transaction per row, under a header.
//!
//! ```text
//!   Date       | Amount   | Category | Notes
//!   2025-01-06 | 150.00   | Other    |
//!   2025-01-26 | 151.71   | Other    | Interest
//! ```
use vstd::prelude::*;
use spreadsheet_ods::Sheet;

use super::sheet::{cell_at, sheet_name, sheet_title};
use super::utils::{
    amount_of, date_of, extract_amount, extract_date, extract_text, text_of,
};
use crate::payload::types::{transactions_view, Transaction, TransactionType, TransactionView};
use crate::text::same_text;

verus! {

/// The name of the savings sheet.
pub const SHEET_NAME: &'static str = "Savings";

/// The account that savings are booked on.
pub const BANK_ACCOUNT_NAME: &'static str = "Default Account";

/// Reading stops after this many rows in a row without a date.
pub const EMPTY_DATE_THRESHOLD: usize = 5;

pub const FIRST_DATA_ROW: u32 = 2;

pub const MAX_ROWS: u32 = 1000;

pub const COL_DATE: u32 = 2;

pub const COL_AMOUNT: u32 = 3;

pub const COL_CATEGORY: u32 = 4;

pub const COL_NOTES: u32 = 5;

/// The transaction of a row that has a date, an amount and a category.
pub open spec fn save_row(sheet: Sheet, row: u32) -> Option<TransactionView> {
    match (
        date_of(cell_at(sheet, row, COL_DATE)),
        amount_of(cell_at(sheet, row, COL_AMOUNT)),
        text_of(cell_at(sheet, row, COL_CATEGORY)),
    ) {
        (Some(date), Some(amount), Some(category)) => Some(
            TransactionView {
                date,
                kind: TransactionType::Save,
                category,
                bank_account: BANK_ACCOUNT_NAME@,
                amount_bits: amount,
                tags: Seq::empty(),
                notes: text_of(cell_at(sheet, row, COL_NOTES)),
            },
        ),
        _ => None,
    }
}

/// The transactions of the rows from `row` on, when the `missed` rows just
/// before `row` had no date: rows without a date are skipped, and reading
/// stops at `MAX_ROWS` or after `EMPTY_DATE_THRESHOLD` such rows in a row; a
/// row with a date but no amount or no category is skipped.
pub open spec fn save_rows(sheet: Sheet, row: int, missed: nat) -> Seq<TransactionView>
    decreases MAX_ROWS - row,
{
    if row >= MAX_ROWS || row < 0 || missed >= EMPTY_DATE_THRESHOLD {
        Seq::empty()
    } else if date_of(cell_at(sheet, row as u32, COL_DATE)) is None {
        save_rows(sheet, row + 1, missed + 1)
    } else {
        match save_row(sheet, row as u32) {
            Some(t) => seq![t] + save_rows(sheet, row + 1, 0),
            None => save_rows(sheet, row + 1, 0),
        }
    }
}

/// True when `sheet` is the savings sheet.
pub fn can_parse(sheet: &Sheet) -> (r: bool)
    ensures
        r == (sheet_title(*sheet) == SHEET_NAME@),
{
    let name = sheet_name(sheet);
    same_text(name.as_str(), SHEET_NAME)
}

/// The transactions of the savings sheet (see [`save_rows`]).
pub fn parse(sheet: &Sheet) -> (r: Vec<Transaction>)
    requires
        sheet_title(*sheet) == SHEET_NAME@,
    ensures
        transactions_view(r@) == save_rows(*sheet, FIRST_DATA_ROW as int, 0),
{
    let mut transactions: Vec<Transaction> = Vec::new();
    let mut empty_date_count: usize = 0;
    let mut row_idx: u32 = FIRST_DATA_ROW;
    while row_idx < MAX_ROWS && empty_date_count < EMPTY_DATE_THRESHOLD
        invariant
            FIRST_DATA_ROW <= row_idx <= MAX_ROWS,
            empty_date_count <= EMPTY_DATE_THRESHOLD,
            transactions_view(transactions@) + save_rows(
                *sheet,
                row_idx as int,
                empty_date_count as nat,
            ) == save_rows(*sheet, FIRST_DATA_ROW as int, 0),
        decreases MAX_ROWS - row_idx,
    {
        let ghost before = transactions_view(transactions@);
        match extract_date(sheet, row_idx, COL_DATE) {
            None => {
                empty_date_count = empty_date_count + 1;
            },
            Some(date) => {
                empty_date_count = 0;
                match (
                    extract_amount(sheet, row_idx, COL_AMOUNT),
                    extract_text(sheet, row_idx, COL_CATEGORY),
                ) {
                    (Some(amount), Some(category)) => {
                        let notes = extract_text(sheet, row_idx, COL_NOTES);
                        let transaction = Transaction {
                            date,
                            type_: TransactionType::Save,
                            category,
                            bank_account: BANK_ACCOUNT_NAME.to_owned(),
                            amount_bits: amount,
                            tags: Vec::new(),
                            notes,
                        };
                        transactions.push(transaction);
                        proof {
                            assert(transaction@.tags =~= Seq::<Seq<char>>::empty());
                            assert(transactions_view(transactions@) =~= before.push(
                                transaction@,
                            ));
                            assert(save_row(*sheet, row_idx) == Some(transaction@));
                            assert(before.push(transaction@) + save_rows(
                                *sheet,
                                row_idx + 1,
                                0,
                            ) =~= before + (seq![transaction@] + save_rows(
                                *sheet,
                                row_idx + 1,
                                0,
                            )));
                        }
                    },
                    _ => {},
                }
            },
        }
        row_idx = row_idx + 1;
    }
    proof {
        assert(save_rows(*sheet, row_idx as int, empty_date_count as nat) =~= Seq::empty());
        assert(transactions_view(transactions@) + Seq::empty() =~= transactions_view(
            transactions@,
        ));
    }
    transactions
}


/// Every transaction read from the savings sheet is a saving, booked on the
/// default account, without tags.
pub proof fn law_saved_rows_are_savings(sheet: Sheet, row: int, missed: nat)
    ensures
        forall|i: int|
            0 <= i < save_rows(sheet, row, missed).len() ==> {
                let t = #[trigger] save_rows(sheet, row, missed)[i];
                &&& t.kind == TransactionType::Save
                &&& t.bank_account == BANK_ACCOUNT_NAME@
                &&& t.tags.len() == 0
            },
    decreases MAX_ROWS - row,
{
    if !(row >= MAX_ROWS || row < 0 || missed >= EMPTY_DATE_THRESHOLD) {
        if date_of(cell_at(sheet, row as u32, COL_DATE)) is None {
            law_saved_rows_are_savings(sheet, row + 1, missed + 1);
        } else {
            law_saved_rows_are_savings(sheet, row + 1, 0);
            let rest = save_rows(sheet, row + 1, 0);
            match save_row(sheet, row as u32) {
                Some(t) => {
                    assert forall|i: int| 0 <= i < (seq![t] + rest).len() implies {
                        let u = #[trigger] (seq![t] + rest)[i];
                        &&& u.kind == TransactionType::Save
                        &&& u.bank_account == BANK_ACCOUNT_NAME@
                        &&& u.tags.len() == 0
                    } by {
                        if i > 0 {
                            assert((seq![t] + rest)[i] == rest[i - 1]);
                        }
                    }
                },
                None => {},
            }
        }
    }
}


// ---------------------------------------------------------------------------
// Which rows the savings sheet yields.
// ---------------------------------------------------------------------------

/// Row `r` of the savings sheet has a date (column C).
pub open spec fn row_has_date(sheet: Sheet, r: int) -> bool {
    date_of(cell_at(sheet, r as u32, 2)) is Some
}

/// One of the five rows from row `k` on has a date.
pub open spec fn dated_among_five(sheet: Sheet, k: int) -> bool {
    exists|j: int| k <= j < k + 5 && row_has_date(sheet, j)
}

/// The reading gets to row `r`: no five consecutive rows without a date
/// lie between the first data row (row 2) and row `r`.
pub open spec fn reading_reaches(sheet: Sheet, r: int) -> bool {
    forall|k: int| 2 <= k && k + 5 <= r ==> #[trigger] dated_among_five(sheet, k)
}

/// Row `r` yields a saving: it lies in rows 2..1000, the reading gets to it,
/// and it has a date, an amount (column D) and a category (column E).
pub open spec fn is_saving_row(sheet: Sheet, r: int) -> bool {
    &&& 2 <= r < 1000
    &&& reading_reaches(sheet, r)
    &&& date_of(cell_at(sheet, r as u32, 2)) is Some
    &&& amount_of(cell_at(sheet, r as u32, 3)) is Some
    &&& text_of(cell_at(sheet, r as u32, 4)) is Some
}

/// `t` is the saving recorded from row `r`: the row's date, amount and
/// category, its notes (column F), kind `Save`, the default account, no tags.
pub open spec fn records_saving_row(sheet: Sheet, r: int, t: TransactionView) -> bool {
    &&& date_of(cell_at(sheet, r as u32, 2)) == Some(t.date)
    &&& amount_of(cell_at(sheet, r as u32, 3)) == Some(t.amount_bits)
    &&& text_of(cell_at(sheet, r as u32, 4)) == Some(t.category)
    &&& t.notes == text_of(cell_at(sheet, r as u32, 5))
    &&& t.kind == TransactionType::Save
    &&& t.bank_account == "Default Account"@
    &&& t.tags.len() == 0
}

/// `res` lists, in row order, one saving per row of `rows`, and `rows` are
/// exactly the rows from `from` on that yield a saving.
pub open spec fn lists_saving_rows(sheet: Sheet, res: Seq<TransactionView>, rows: Seq<int>, from: int) -> bool {
    &&& rows.len() == res.len()
    &&& forall|i: int, j: int| 0 <= i < j < rows.len() ==> rows[i] < rows[j]
    &&& forall|i: int|
        0 <= i < rows.len() ==> from <= #[trigger] rows[i] && is_saving_row(sheet, rows[i])
            && records_saving_row(sheet, rows[i], res[i])
    &&& forall|r: int| from <= r && #[trigger] is_saving_row(sheet, r) ==> rows.contains(r)
}

proof fn lemma_save_rows_list(sheet: Sheet, row: int, missed: nat)
    requires
        2 <= row <= 1000,
        missed <= row - 2,
        forall|j: int| row - missed <= j < row ==> !row_has_date(sheet, j),
        row - missed == 2 || row_has_date(sheet, row - missed - 1),
        reading_reaches(sheet, row),
    ensures
        exists|rows: Seq<int>| #[trigger] lists_saving_rows(sheet, save_rows(sheet, row, missed), rows, row),
    decreases 1000 - row,
{
    let res = save_rows(sheet, row, missed);
    if missed >= 5 {
        assert(!dated_among_five(sheet, row - 5));
    }
    if row >= 1000 {
        assert(lists_saving_rows(sheet, res, Seq::empty(), row));
    } else if !row_has_date(sheet, row) {
        if missed + 1 >= 5 {
            // Five rows in a row without a date: nothing from here on is read.
            assert(save_rows(sheet, row + 1, missed + 1) == Seq::<TransactionView>::empty());
            assert(res == save_rows(sheet, row + 1, missed + 1));
            assert forall|r: int| row <= r && #[trigger] is_saving_row(sheet, r) implies false by {
                if r > row {
                    assert(dated_among_five(sheet, row - 4));
                    let j = choose|j: int| row - 4 <= j < row + 1 && row_has_date(sheet, j);
                }
            }
            assert(lists_saving_rows(sheet, res, Seq::empty(), row));
        } else {
            assert forall|k: int| 2 <= k && k + 5 <= row + 1 implies #[trigger] dated_among_five(sheet, k) by {
                if k + 5 == row + 1 && row - missed != 2 {
                    assert(row_has_date(sheet, row - missed - 1));
                }
            }
            lemma_save_rows_list(sheet, row + 1, missed + 1);
            let rows = choose|rows: Seq<int>| #[trigger] lists_saving_rows(sheet, save_rows(sheet, row + 1, missed + 1), rows, row + 1);
            assert(lists_saving_rows(sheet, res, rows, row));
        }
    } else {
        assert forall|k: int| 2 <= k && k + 5 <= row + 1 implies #[trigger] dated_among_five(sheet, k) by {
            if k + 5 == row + 1 {
                assert(row_has_date(sheet, row));
            }
        }
        lemma_save_rows_list(sheet, row + 1, 0);
        let rest = save_rows(sheet, row + 1, 0);
        let rows = choose|rows: Seq<int>| #[trigger] lists_saving_rows(sheet, rest, rows, row + 1);
        match save_row(sheet, row as u32) {
            Some(t) => {
                let all = seq![row] + rows;
                assert(res == seq![t] + rest);
                assert forall|i: int| 0 <= i < all.len() implies row <= #[trigger] all[i]
                    && is_saving_row(sheet, all[i]) && records_saving_row(sheet, all[i], res[i]) by {
                    if i > 0 {
                        assert(all[i] == rows[i - 1]);
                        assert(res[i] == rest[i - 1]);
                    }
                }
                assert forall|i: int, j: int| 0 <= i < j < all.len() implies all[i] < all[j] by {
                    assert(all[j] == rows[j - 1]);
                    if i > 0 {
                        assert(all[i] == rows[i - 1]);
                    }
                }
                assert forall|r: int| row <= r && #[trigger] is_saving_row(sheet, r) implies all.contains(r) by {
                    if r == row {
                        assert(all[0] == row);
                    } else {
                        assert(rows.contains(r));
                        let i = choose|i: int| 0 <= i < rows.len() && rows[i] == r;
                        assert(all[i + 1] == r);
                    }
                }
                assert(lists_saving_rows(sheet, res, all, row));
            },
            None => {
                assert(lists_saving_rows(sheet, res, rows, row));
            },
        }
    }
}

/// The savings sheet yields, in row order, exactly one saving for each row
/// from row 2 up to row 1000 that has a date, an amount and a category, as
/// long as five consecutive rows without a date have not been met: a row
/// with a date starts the count of date-less rows afresh.
pub proof fn law_savings_are_the_dated_rows(sheet: Sheet)
    ensures
        exists|rows: Seq<int>| #[trigger] lists_saving_rows(sheet, save_rows(sheet, FIRST_DATA_ROW as int, 0), rows, 2),
{
    lemma_save_rows_list(sheet, 2, 0);
}

} // verus!
