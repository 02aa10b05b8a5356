//! Converts the sheets of a MoneyLens personal-finance workbook into the
//! normalized payload of the MoneyLens bulk upload.
use vstd::prelude::*;
use spreadsheet_ods::Sheet;

pub mod options;
pub mod parsers;
pub mod payload;
pub mod text;

use parsers::earn::{earn_date, earn_rows};
use parsers::save::{save_rows, SHEET_NAME};
use parsers::sheet::{sheet_name, sheet_title};
use parsers::spend::spend_rows;
use parsers::utils::{date_matches_month, sheet_matches_month_selection, spec_is_month, spec_month_name, spec_month_number};
use payload::builder::{add_all, lemma_add_all_concat};
use payload::types::{empty_payload, transactions_view, Payload, Transaction, TransactionType, TransactionView};
use payload::PayloadBuilder;

verus! {

/// The transaction lies in the selected month, or no month is selected.
pub open spec fn in_month(t: TransactionView, selected_month: Option<u8>) -> bool {
    match selected_month {
        Some(m) => spec_month_number(t.date) == Some(m),
        None => true,
    }
}

/// The transactions of `ts` that lie in the selected month, in order.
pub open spec fn keep_month(ts: Seq<TransactionView>, selected_month: Option<u8>) -> Seq<TransactionView> {
    ts.filter(|t: TransactionView| in_month(t, selected_month))
}

/// The sheet named `title` is one the month selection asks for.
pub open spec fn sheet_selected(title: Seq<char>, selected_month: Option<u8>) -> bool {
    match selected_month {
        Some(m) => spec_month_name(m as int) == Some(title),
        None => spec_is_month(title),
    }
}

/// The transactions that one sheet contributes, in the order they are read:
/// the savings sheet's transactions that lie in the selected month, then, for
/// a month's sheet that the selection asks for, its earnings and its spending.
/// `None` where such a month's sheet has no date for its earnings.
pub open spec fn sheet_transactions(sheet: Sheet, selected_month: Option<u8>) -> Option<Seq<TransactionView>> {
    let title = sheet_title(sheet);
    let saved = if title == SHEET_NAME@ {
        keep_month(save_rows(sheet, parsers::save::FIRST_DATA_ROW as int, 0), selected_month)
    } else {
        Seq::empty()
    };
    if sheet_selected(title, selected_month) && spec_is_month(title) {
        match earn_date(sheet) {
            Some(d) => Some(
                saved + earn_rows(sheet, d, parsers::earn::FIRST_DATA_ROW as int, 0) + spend_rows(
                    sheet,
                    parsers::spend::FIRST_DATA_ROW as int,
                    0,
                ),
            ),
            None => None,
        }
    } else {
        Some(saved)
    }
}

/// The transactions of all the sheets, in order; `None` where one sheet's is.
pub open spec fn workbook_transactions(sheets: Seq<&Sheet>, selected_month: Option<u8>) -> Option<
    Seq<TransactionView>,
>
    decreases sheets.len(),
{
    if sheets.len() == 0 {
        Some(Seq::empty())
    } else {
        match (
            workbook_transactions(sheets.drop_last(), selected_month),
            sheet_transactions(*sheets.last(), selected_month),
        ) {
            (Some(a), Some(b)) => Some(a + b),
            _ => None,
        }
    }
}

proof fn lemma_workbook_none_extends(sheets: Seq<&Sheet>, selected_month: Option<u8>, k: int)
    requires
        0 <= k <= sheets.len(),
        workbook_transactions(sheets.take(k), selected_month) is None,
    ensures
        workbook_transactions(sheets, selected_month) is None,
    decreases sheets.len() - k,
{
    if k == sheets.len() {
        assert(sheets.take(k) =~= sheets);
    } else {
        assert(sheets.take(k + 1).drop_last() =~= sheets.take(k));
        lemma_workbook_none_extends(sheets, selected_month, k + 1);
    }
}

/// The transactions of `transactions` that lie in the selected month (all of
/// them when no month is selected), in order.
pub fn filter_transactions_by_month(transactions: Vec<Transaction>, selected_month: Option<u8>) -> (r: Vec<Transaction>)
    ensures
        transactions_view(r@) == keep_month(transactions_view(transactions@), selected_month),
{
    let ghost all = transactions_view(transactions@);
    let mut kept: Vec<Transaction> = Vec::new();
    for tx in it: transactions.into_iter()
        invariant
            it.seq() == transactions@,
            all == transactions_view(transactions@),
            transactions_view(kept@) == keep_month(all.take(it.index() as int), selected_month),
    {
        let ghost k = it.index() as int;
        let ghost before = transactions_view(kept@);
        proof {
            reveal_with_fuel(Seq::filter, 1);
            assert(all.take(k + 1).drop_last() =~= all.take(k));
            assert(all.take(k + 1).last() == tx@);
        }
        if date_matches_month(tx.date.as_str(), selected_month) {
            kept.push(tx);
            proof {
                assert(transactions_view(kept@) =~= before.push(tx@));
            }
        }
    }
    proof {
        assert(all.take(all.len() as int) =~= all);
    }
    kept
}

/// The payload of a workbook's sheets: the transactions of every sheet, in
/// order (see [`workbook_transactions`]), added to an empty payload. `None`
/// where a month's sheet that the selection asks for has no date for its
/// earnings.
pub fn build_payload(sheets: &[&Sheet], selected_month: Option<u8>) -> (r: Option<Payload>)
    ensures
        match r {
            Some(p) => workbook_transactions(sheets@, selected_month) is Some && p@ == add_all(
                empty_payload(),
                workbook_transactions(sheets@, selected_month).unwrap(),
            ),
            None => workbook_transactions(sheets@, selected_month) is None,
        },
{
    let mut payload_builder = PayloadBuilder::new();
    let mut i: usize = 0;
    while i < sheets.len()
        invariant
            i <= sheets.len(),
            payload_builder.wf(),
            workbook_transactions(sheets@.take(i as int), selected_month) is Some,
            payload_builder@ == add_all(
                empty_payload(),
                workbook_transactions(sheets@.take(i as int), selected_month).unwrap(),
            ),
        decreases sheets.len() - i,
    {
        let sheet: &Sheet = sheets[i];
        let ghost sofar = workbook_transactions(sheets@.take(i as int), selected_month).unwrap();
        proof {
            assert(sheets@.take(i + 1).drop_last() =~= sheets@.take(i as int));
            assert(sheets@.take(i + 1).last() == sheet);
        }
        let ghost start = payload_builder@;
        let name = sheet_name(sheet);
        let ghost mut saved: Seq<TransactionView> = Seq::empty();
        if parsers::save::can_parse(sheet) {
            let transactions = filter_transactions_by_month(parsers::save::parse(sheet), selected_month);
            proof {
                saved = transactions_view(transactions@);
            }
            payload_builder = payload_builder.add_transactions(transactions);
        }
        proof {
            lemma_add_all_concat(empty_payload(), sofar, saved);
        }
        if sheet_matches_month_selection(name.as_str(), selected_month) {
            if parsers::earn::can_parse(sheet) {
                match parsers::earn::try_parse(sheet) {
                    Some(earned) => {
                        let ghost e = transactions_view(earned@);
                        payload_builder = payload_builder.add_transactions(earned);
                        proof {
                            lemma_add_all_concat(empty_payload(), sofar + saved, e);
                        }
                        if parsers::spend::can_parse(sheet) {
                            let spent = parsers::spend::parse(sheet);
                            let ghost sp = transactions_view(spent@);
                            payload_builder = payload_builder.add_transactions(spent);
                            proof {
                                lemma_add_all_concat(empty_payload(), sofar + saved + e, sp);
                                assert(sofar + saved + e + sp =~= sofar + (saved + e + sp));
                            }
                        }
                    },
                    None => {
                        proof {
                            assert(sheet_transactions(*sheet, selected_month) is None);
                            assert(workbook_transactions(sheets@.take(i + 1), selected_month) is None);
                            lemma_workbook_none_extends(sheets@, selected_month, i + 1);
                        }
                        return None;
                    },
                }
            }
        }
        i = i + 1;
    }
    proof {
        assert(sheets@.take(sheets.len() as int) =~= sheets@);
    }
    Some(payload_builder.build())
}

/// Filtering by month keeps exactly the transactions that lie in the
/// selected month, in their order; with no month selected it keeps them all.
pub proof fn law_filter_keeps_the_month(ts: Seq<TransactionView>, selected_month: Option<u8>)
    ensures
        forall|i: int|
            0 <= i < keep_month(ts, selected_month).len() ==> in_month(
                #[trigger] keep_month(ts, selected_month)[i],
                selected_month,
            ),
        forall|i: int|
            0 <= i < ts.len() && in_month(ts[i], selected_month) ==> #[trigger] keep_month(
                ts,
                selected_month,
            ).contains(ts[i]),
        selected_month is None ==> keep_month(ts, selected_month) == ts,
    decreases ts.len(),
{
    let pred = |t: TransactionView| in_month(t, selected_month);
    assert forall|i: int| 0 <= i < keep_month(ts, selected_month).len() implies in_month(
        #[trigger] keep_month(ts, selected_month)[i],
        selected_month,
    ) by {
        ts.lemma_filter_pred(pred, i);
    }
    assert forall|i: int| 0 <= i < ts.len() && in_month(ts[i], selected_month) implies #[trigger] keep_month(
        ts,
        selected_month,
    ).contains(ts[i]) by {
        ts.lemma_filter_contains(pred, i);
    }
    if selected_month is None && ts.len() > 0 {
        law_filter_keeps_the_month(ts.drop_last(), selected_month);
        reveal_with_fuel(Seq::filter, 1);
        assert(ts.drop_last().push(ts.last()) =~= ts);
    } else if ts.len() == 0 {
        reveal_with_fuel(Seq::filter, 1);
    }
}

/// A sheet that the month selection asks for is a month's sheet.
pub proof fn law_selected_sheets_are_month_sheets(title: Seq<char>, selected_month: Option<u8>)
    ensures
        sheet_selected(title, selected_month) ==> spec_is_month(title),
{
    if let Some(m) = selected_month {
        parsers::utils::law_month_names(m as int, m as int);
    }
}

proof fn lemma_sheet_savings_in_month(sheet: Sheet, m: u8)
    ensures
        sheet_transactions(sheet, Some(m)) matches Some(ts) ==> forall|i: int|
            0 <= i < ts.len() && (#[trigger] ts[i]).kind == TransactionType::Save ==> in_month(
                ts[i],
                Some(m),
            ),
{
    let title = sheet_title(sheet);
    let saved = if title == SHEET_NAME@ {
        keep_month(save_rows(sheet, parsers::save::FIRST_DATA_ROW as int, 0), Some(m))
    } else {
        Seq::empty()
    };
    law_filter_keeps_the_month(save_rows(sheet, parsers::save::FIRST_DATA_ROW as int, 0), Some(m));
    if sheet_selected(title, Some(m)) && spec_is_month(title) {
        if let Some(d) = earn_date(sheet) {
            let e = earn_rows(sheet, d, parsers::earn::FIRST_DATA_ROW as int, 0);
            let sp = spend_rows(sheet, parsers::spend::FIRST_DATA_ROW as int, 0);
            parsers::earn::law_earned_rows_are_earnings(sheet, d, parsers::earn::FIRST_DATA_ROW as int, 0);
            parsers::spend::law_spent_rows_are_spending(sheet, parsers::spend::FIRST_DATA_ROW as int, 0);
            let ts = saved + e + sp;
            assert forall|i: int| 0 <= i < ts.len() && (#[trigger] ts[i]).kind == TransactionType::Save implies in_month(ts[i], Some(m)) by {
                if i < saved.len() {
                    assert(ts[i] == saved[i]);
                } else if i < saved.len() + e.len() {
                    assert(ts[i] == e[i - saved.len()]);
                } else {
                    assert(ts[i] == sp[i - saved.len() - e.len()]);
                }
            }
        }
    }
}

proof fn lemma_workbook_savings_in_month(sheets: Seq<&Sheet>, m: u8)
    ensures
        workbook_transactions(sheets, Some(m)) matches Some(ts) ==> forall|i: int|
            0 <= i < ts.len() && (#[trigger] ts[i]).kind == TransactionType::Save ==> in_month(
                ts[i],
                Some(m),
            ),
    decreases sheets.len(),
{
    if sheets.len() > 0 {
        lemma_workbook_savings_in_month(sheets.drop_last(), m);
        lemma_sheet_savings_in_month(*sheets.last(), m);
        if let Some(ts) = workbook_transactions(sheets, Some(m)) {
            let a = workbook_transactions(sheets.drop_last(), Some(m)).unwrap();
            let b = sheet_transactions(*sheets.last(), Some(m)).unwrap();
            assert forall|i: int| 0 <= i < ts.len() && (#[trigger] ts[i]).kind == TransactionType::Save implies in_month(ts[i], Some(m)) by {
                if i < a.len() {
                    assert(ts[i] == a[i]);
                } else {
                    assert(ts[i] == b[i - a.len()]);
                }
            }
        }
    }
}

/// With a month selected, every saving in the payload lies in that month:
/// savings are the only transactions filtered by their date, and earnings and
/// spending are read only from the selected month's sheet.
pub proof fn law_payload_savings_lie_in_the_month(sheets: Seq<&Sheet>, m: u8)
    ensures
        workbook_transactions(sheets, Some(m)) matches Some(ts) ==> forall|k: int|
            0 <= k < add_all(empty_payload(), ts).transactions.len() && (#[trigger] add_all(
                empty_payload(),
                ts,
            ).transactions[k]).kind == TransactionType::Save ==> spec_month_number(
                add_all(empty_payload(), ts).transactions[k].date,
            ) == Some(m),
{
    lemma_workbook_savings_in_month(sheets, m);
    if let Some(ts) = workbook_transactions(sheets, Some(m)) {
        payload::laws::lemma_add_all_transactions(empty_payload(), ts);
        let r = add_all(empty_payload(), ts).transactions;
        assert forall|k: int| 0 <= k < r.len() && (#[trigger] r[k]).kind == TransactionType::Save implies spec_month_number(r[k].date) == Some(m) by {
            assert(r[k] == (Seq::<TransactionView>::empty() + ts.map_values(|t: TransactionView| payload::builder::normalized(t)))[k]);
            assert(r[k] == payload::builder::normalized(ts[k]));
        }
    }
}

} // verus!
