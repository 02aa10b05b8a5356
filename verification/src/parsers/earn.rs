//! A month's earnings: the statement date in one cell, then one row per
//! earning, with its category and amount; an annotation on the amount is
//! kept as the transaction's notes.
use vstd::prelude::*;
use spreadsheet_ods::Sheet;

use super::sheet::{cell_at, sheet_name, sheet_title};
use super::utils::{
    amount_of, date_of, extract_amount, extract_annotation, extract_date, extract_text, is_month,
    note_of, spec_is_month, text_of,
};
use crate::payload::types::{transactions_view, Transaction, TransactionType, TransactionView};

verus! {

/// The account that earnings are booked on.
pub const BANK_ACCOUNT_NAME: &'static str = "Default Account";

/// Reading stops after this many rows without a category.
pub const EMPTY_CATEGORY_THRESHOLD: usize = 5;

pub const FIRST_DATA_ROW: u32 = 14;

pub const MAX_ROWS: u32 = 100;

pub const COL_CATEGORY: u32 = 0;

pub const COL_AMOUNT: u32 = 1;

/// The cell that holds the date of every earning of the sheet.
pub const DATE_ROW: u32 = 1;

pub const DATE_COL: u32 = 3;

/// The date of the sheet's earnings.
pub open spec fn earn_date(sheet: Sheet) -> Option<Seq<char>> {
    date_of(cell_at(sheet, DATE_ROW, DATE_COL))
}

/// The transaction of a row that has a category and an amount.
pub open spec fn earn_row(sheet: Sheet, date: Seq<char>, row: u32) -> Option<TransactionView> {
    match (text_of(cell_at(sheet, row, COL_CATEGORY)), amount_of(cell_at(sheet, row, COL_AMOUNT))) {
        (Some(category), Some(amount)) => Some(
            TransactionView {
                date,
                kind: TransactionType::Earn,
                category,
                bank_account: BANK_ACCOUNT_NAME@,
                amount_bits: amount,
                tags: Seq::empty(),
                notes: note_of(sheet, row, COL_AMOUNT),
            },
        ),
        _ => None,
    }
}

/// The transactions of the rows from `row` on, when `missed` earlier rows had
/// no category: rows without a category are skipped, and reading stops at
/// `MAX_ROWS` or once `EMPTY_CATEGORY_THRESHOLD` rows in all had none; a row
/// without an amount is skipped.
pub open spec fn earn_rows(sheet: Sheet, date: Seq<char>, row: int, missed: nat) -> Seq<
    TransactionView,
>
    decreases MAX_ROWS - row,
{
    if row >= MAX_ROWS || row < 0 || missed >= EMPTY_CATEGORY_THRESHOLD {
        Seq::empty()
    } else if text_of(cell_at(sheet, row as u32, COL_CATEGORY)) is None {
        earn_rows(sheet, date, row + 1, missed + 1)
    } else {
        match earn_row(sheet, date, row as u32) {
            Some(t) => seq![t] + earn_rows(sheet, date, row + 1, missed),
            None => earn_rows(sheet, date, row + 1, missed),
        }
    }
}

/// True when `sheet` is a month's sheet, which holds earnings.
pub fn can_parse(sheet: &Sheet) -> (r: bool)
    ensures
        r == spec_is_month(sheet_title(*sheet)),
{
    let name = sheet_name(sheet);
    is_month(name.as_str())
}

/// The earnings of a month's sheet (see [`earn_rows`]), all on the sheet's date.
pub fn parse(sheet: &Sheet) -> (r: Vec<Transaction>)
    requires
        spec_is_month(sheet_title(*sheet)),
        earn_date(*sheet) is Some,
    ensures
        transactions_view(r@) == earn_rows(*sheet, earn_date(*sheet).unwrap(), FIRST_DATA_ROW as int, 0),
{
    let date = match extract_date(sheet, DATE_ROW, DATE_COL) {
        Some(d) => d,
        None => {
            return Vec::new();
        },
    };
    let ghost d = date@;
    let mut transactions: Vec<Transaction> = Vec::new();
    let mut empty_category_count: usize = 0;
    let mut row_idx: u32 = FIRST_DATA_ROW;
    while row_idx < MAX_ROWS && empty_category_count < EMPTY_CATEGORY_THRESHOLD
        invariant
            FIRST_DATA_ROW <= row_idx <= MAX_ROWS,
            empty_category_count <= EMPTY_CATEGORY_THRESHOLD,
            d == date@,
            d == earn_date(*sheet).unwrap(),
            transactions_view(transactions@) + earn_rows(
                *sheet,
                d,
                row_idx as int,
                empty_category_count as nat,
            ) == earn_rows(*sheet, d, FIRST_DATA_ROW as int, 0),
        decreases MAX_ROWS - row_idx,
    {
        let ghost before = transactions_view(transactions@);
        match extract_text(sheet, row_idx, COL_CATEGORY) {
            None => {
                empty_category_count = empty_category_count + 1;
            },
            Some(category) => {
                match extract_amount(sheet, row_idx, COL_AMOUNT) {
                    Some(amount) => {
                        let annotation = extract_annotation(sheet, row_idx, COL_AMOUNT);
                        let transaction = Transaction {
                            date: date.clone(),
                            type_: TransactionType::Earn,
                            category,
                            bank_account: BANK_ACCOUNT_NAME.to_owned(),
                            amount_bits: amount,
                            notes: annotation,
                            tags: Vec::new(),
                        };
                        transactions.push(transaction);
                        proof {
                            assert(transaction@.tags =~= Seq::<Seq<char>>::empty());
                            assert(transactions_view(transactions@) =~= before.push(
                                transaction@,
                            ));
                            assert(earn_row(*sheet, d, row_idx) == Some(transaction@));
                            assert(before.push(transaction@) + earn_rows(
                                *sheet,
                                d,
                                row_idx + 1,
                                empty_category_count as nat,
                            ) =~= before + (seq![transaction@] + earn_rows(
                                *sheet,
                                d,
                                row_idx + 1,
                                empty_category_count as nat,
                            )));
                        }
                    },
                    None => {},
                }
            },
        }
        row_idx = row_idx + 1;
    }
    proof {
        assert(earn_rows(*sheet, d, row_idx as int, empty_category_count as nat) =~= Seq::empty());
        assert(transactions_view(transactions@) + Seq::empty() =~= transactions_view(
            transactions@,
        ));
    }
    transactions
}

/// The earnings of a month's sheet, or `None` where there are none to read:
/// when the sheet is not a month's sheet or has no date in its date cell.
pub fn try_parse(sheet: &Sheet) -> (r: Option<Vec<Transaction>>)
    ensures
        match r {
            Some(v) => spec_is_month(sheet_title(*sheet)) && earn_date(*sheet) is Some
                && transactions_view(v@) == earn_rows(
                *sheet,
                earn_date(*sheet).unwrap(),
                FIRST_DATA_ROW as int,
                0,
            ),
            None => !spec_is_month(sheet_title(*sheet)) || earn_date(*sheet) is None,
        },
{
    if !can_parse(sheet) {
        return None;
    }
    match extract_date(sheet, DATE_ROW, DATE_COL) {
        Some(_) => Some(parse(sheet)),
        None => None,
    }
}


/// Every transaction read as an earning is an earning on the sheet's date,
/// booked on the default account, without tags.
pub proof fn law_earned_rows_are_earnings(sheet: Sheet, date: Seq<char>, row: int, missed: nat)
    ensures
        forall|i: int|
            0 <= i < earn_rows(sheet, date, row, missed).len() ==> {
                let t = #[trigger] earn_rows(sheet, date, row, missed)[i];
                &&& t.kind == TransactionType::Earn
                &&& t.date == date
                &&& t.bank_account == BANK_ACCOUNT_NAME@
                &&& t.tags.len() == 0
            },
    decreases MAX_ROWS - row,
{
    if !(row >= MAX_ROWS || row < 0 || missed >= EMPTY_CATEGORY_THRESHOLD) {
        if text_of(cell_at(sheet, row as u32, COL_CATEGORY)) is None {
            law_earned_rows_are_earnings(sheet, date, row + 1, missed + 1);
        } else {
            law_earned_rows_are_earnings(sheet, date, row + 1, missed);
            let rest = earn_rows(sheet, date, row + 1, missed);
            match earn_row(sheet, date, row as u32) {
                Some(t) => {
                    assert forall|i: int| 0 <= i < (seq![t] + rest).len() implies {
                        let u = #[trigger] (seq![t] + rest)[i];
                        &&& u.kind == TransactionType::Earn
                        &&& u.date == date
                        &&& u.bank_account == BANK_ACCOUNT_NAME@
                        &&& u.tags.len() == 0
                    } by {
                        if i > 0 {
                            assert((seq![t] + rest)[i] == rest[i - 1]);
                        }
                    }
                },
                None => {},
            }
        }
    }
}


// ---------------------------------------------------------------------------
// Which rows the earnings yield.
// ---------------------------------------------------------------------------

/// Row `r` of a month's sheet has an earning's category (column A).
pub open spec fn row_has_category(sheet: Sheet, r: int) -> bool {
    text_of(cell_at(sheet, r as u32, 0)) is Some
}

/// The number of rows from row 14 up to (not including) row `hi` that have no
/// category.
pub open spec fn rows_without_category(sheet: Sheet, hi: nat) -> nat
    decreases hi,
{
    if hi <= 14 {
        0
    } else {
        rows_without_category(sheet, (hi - 1) as nat) + if row_has_category(sheet, hi - 1) {
            0nat
        } else {
            1nat
        }
    }
}

/// Row `r` yields an earning: it lies in rows 14..100, fewer than five rows
/// before it (from row 14 on) have no category, and it has a category and
/// an amount (column B).
pub open spec fn is_earning_row(sheet: Sheet, r: int) -> bool {
    &&& 14 <= r < 100
    &&& rows_without_category(sheet, r as nat) < 5
    &&& text_of(cell_at(sheet, r as u32, 0)) is Some
    &&& amount_of(cell_at(sheet, r as u32, 1)) is Some
}

/// `t` is the earning recorded from row `r` on the date `date`: the row's
/// category and amount, the annotation of its amount as notes, kind `Earn`,
/// the default account, no tags.
pub open spec fn records_earning_row(sheet: Sheet, date: Seq<char>, r: int, t: TransactionView) -> bool {
    &&& t.date == date
    &&& text_of(cell_at(sheet, r as u32, 0)) == Some(t.category)
    &&& amount_of(cell_at(sheet, r as u32, 1)) == Some(t.amount_bits)
    &&& t.notes == note_of(sheet, r as u32, 1)
    &&& t.kind == TransactionType::Earn
    &&& t.bank_account == "Default Account"@
    &&& t.tags.len() == 0
}

/// `res` lists, in row order, one earning per row of `rows`, and `rows` are
/// exactly the rows from `from` on that yield an earning.
pub open spec fn lists_earning_rows(
    sheet: Sheet,
    date: Seq<char>,
    res: Seq<TransactionView>,
    rows: Seq<int>,
    from: int,
) -> bool {
    &&& rows.len() == res.len()
    &&& forall|i: int, j: int| 0 <= i < j < rows.len() ==> rows[i] < rows[j]
    &&& forall|i: int|
        0 <= i < rows.len() ==> from <= #[trigger] rows[i] && is_earning_row(sheet, rows[i])
            && records_earning_row(sheet, date, rows[i], res[i])
    &&& forall|r: int| from <= r && #[trigger] is_earning_row(sheet, r) ==> rows.contains(r)
}

proof fn lemma_rows_without_category_grow(sheet: Sheet, a: nat, b: nat)
    requires
        a <= b,
    ensures
        rows_without_category(sheet, a) <= rows_without_category(sheet, b),
    decreases b - a,
{
    if a < b {
        lemma_rows_without_category_grow(sheet, a, (b - 1) as nat);
    }
}

proof fn lemma_earn_rows_list(sheet: Sheet, date: Seq<char>, row: int, missed: nat)
    requires
        14 <= row <= 100,
        missed == rows_without_category(sheet, row as nat),
    ensures
        exists|rows: Seq<int>| #[trigger] lists_earning_rows(sheet, date, earn_rows(sheet, date, row, missed), rows, row),
    decreases 100 - row,
{
    let res = earn_rows(sheet, date, row, missed);
    if row >= 100 || missed >= 5 {
        assert forall|r: int| row <= r && #[trigger] is_earning_row(sheet, r) implies false by {
            lemma_rows_without_category_grow(sheet, row as nat, r as nat);
        }
        assert(lists_earning_rows(sheet, date, res, Seq::empty(), row));
    } else if !row_has_category(sheet, row) {
        assert(rows_without_category(sheet, (row + 1) as nat) == missed + 1);
        lemma_earn_rows_list(sheet, date, row + 1, missed + 1);
        let rows = choose|rows: Seq<int>| #[trigger] lists_earning_rows(sheet, date, earn_rows(sheet, date, row + 1, missed + 1), rows, row + 1);
        assert(lists_earning_rows(sheet, date, res, rows, row));
    } else {
        assert(rows_without_category(sheet, (row + 1) as nat) == missed);
        lemma_earn_rows_list(sheet, date, row + 1, missed);
        let rest = earn_rows(sheet, date, row + 1, missed);
        let rows = choose|rows: Seq<int>| #[trigger] lists_earning_rows(sheet, date, rest, rows, row + 1);
        match earn_row(sheet, date, row as u32) {
            Some(t) => {
                let all = seq![row] + rows;
                assert(res == seq![t] + rest);
                assert forall|i: int| 0 <= i < all.len() implies row <= #[trigger] all[i]
                    && is_earning_row(sheet, all[i]) && records_earning_row(sheet, date, all[i], res[i]) by {
                    if i > 0 {
                        assert(all[i] == rows[i - 1]);
                        assert(res[i] == rest[i - 1]);
                    }
                }
                assert forall|i: int, j: int| 0 <= i < j < all.len() implies all[i] < all[j] by {
                    assert(all[j] == rows[j - 1]);
                    if i > 0 {
                        assert(all[i] == rows[i - 1]);
                    }
                }
                assert forall|r: int| row <= r && #[trigger] is_earning_row(sheet, r) implies all.contains(r) by {
                    if r == row {
                        assert(all[0] == row);
                    } else {
                        assert(rows.contains(r));
                        let i = choose|i: int| 0 <= i < rows.len() && rows[i] == r;
                        assert(all[i + 1] == r);
                    }
                }
                assert(lists_earning_rows(sheet, date, res, all, row));
            },
            None => {
                assert(lists_earning_rows(sheet, date, res, rows, row));
            },
        }
    }
}

/// The earnings of a month's sheet are dated by the cell in row 1, column D,
/// and are, in row order, exactly one earning for each row from row 14 up to
/// row 100 that has a category and an amount, as long as fewer than five
/// rows before it lack a category: a row with a category but no amount is
/// skipped without counting towards that stop.
pub proof fn law_earnings_are_the_rows_with_category_and_amount(sheet: Sheet, date: Seq<char>)
    ensures
        earn_date(sheet) == date_of(cell_at(sheet, 1, 3)),
        exists|rows: Seq<int>| #[trigger] lists_earning_rows(sheet, date, earn_rows(sheet, date, FIRST_DATA_ROW as int, 0), rows, 14),
{
    lemma_earn_rows_list(sheet, date, 14, 0);
}

} // verus!
