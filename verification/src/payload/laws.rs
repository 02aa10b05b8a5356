//! What holds of every payload that the builder assembles.
use vstd::prelude::*;

use super::builder::{
    add_all, category_entries, category_entry, insert_all, insert_unique,
    lemma_contains_iff_first_index, named_entry, no_duplicates, normalized, normalized_category,
    payload_wf, spec_split, tag_entries, CategorySplitView,
};
use crate::text::{
    count_of, first_index_of, lemma_count_of_concat, lemma_count_of_contains,
    lemma_first_index_of_is_least, lemma_trim_contains, lemma_trim_fixed,
    lemma_trim_idempotent, lemma_trim_shape, trim,
};
use super::types::{empty_payload, CategoryView, EntryView, PayloadView, TransactionView};

verus! {

/// `s` is the start of `t`.
pub open spec fn is_prefix<A>(s: Seq<A>, t: Seq<A>) -> bool {
    s.len() <= t.len() && t.subrange(0, s.len() as int) == s
}

/// `insert_all` keeps what `s` holds in front, adds each of `xs`, adds
/// nothing else, adds nothing that `s` already holds, and makes no duplicate.
pub proof fn lemma_insert_all<A>(s: Seq<A>, xs: Seq<A>)
    ensures
        is_prefix(s, insert_all(s, xs)),
        forall|j: int| 0 <= j < xs.len() ==> #[trigger] insert_all(s, xs).contains(xs[j]),
        forall|y: A| #[trigger] insert_all(s, xs).contains(y) ==> s.contains(y) || xs.contains(y),
        (forall|j: int| 0 <= j < xs.len() ==> s.contains(#[trigger] xs[j])) ==> insert_all(s, xs)
            == s,
        no_duplicates(s) ==> no_duplicates(insert_all(s, xs)),
    decreases xs.len(),
{
    if xs.len() == 0 {
        assert(s.subrange(0, s.len() as int) =~= s);
    } else {
        let init = xs.drop_last();
        let x = xs.last();
        lemma_insert_all(s, init);
        let r0 = insert_all(s, init);
        let r = insert_all(s, xs);
        assert(r == insert_unique(r0, x));
        // The prefix.
        assert(r.subrange(0, s.len() as int) =~= r0.subrange(0, s.len() as int));
        // Each of `xs` is held.
        assert forall|j: int| 0 <= j < xs.len() implies #[trigger] r.contains(xs[j]) by {
            if j < xs.len() - 1 {
                assert(r0.contains(init[j]));
                let k = choose|k: int| 0 <= k < r0.len() && r0[k] == init[j];
                assert(r[k] == r0[k]);
            } else if !r0.contains(x) {
                assert(r[r0.len() as int] == x);
            }
        }
        // Nothing else is added.
        assert forall|y: A| #[trigger] r.contains(y) implies s.contains(y) || xs.contains(y) by {
            let k = choose|k: int| 0 <= k < r.len() && r[k] == y;
            if k < r0.len() {
                assert(r0.contains(y));
                if init.contains(y) {
                    let m = choose|m: int| 0 <= m < init.len() && init[m] == y;
                    assert(xs[m] == y);
                }
            } else {
                assert(xs[xs.len() - 1] == y);
            }
        }
        // Nothing held is added again.
        if forall|j: int| 0 <= j < xs.len() ==> s.contains(#[trigger] xs[j]) {
            assert forall|j: int| 0 <= j < init.len() implies s.contains(#[trigger] init[j]) by {
                assert(s.contains(xs[j]));
            }
            assert(s.contains(xs[xs.len() - 1]));
        }
        // No duplicates.
        if no_duplicates(s) {
            if !r0.contains(x) {
                assert forall|i: int, j: int| 0 <= i < j < r.len() implies r[i] != r[j] by {
                    if j == r0.len() {
                        assert(r[i] == r0[i]);
                    }
                }
            }
        }
    }
}

/// `insert_unique` is `insert_all` of one value.
proof fn lemma_insert_unique_one<A>(s: Seq<A>, x: A)
    ensures
        insert_unique(s, x) == insert_all(s, seq![x]),
{
    reveal_with_fuel(insert_all, 2);
    assert(seq![x].drop_last() =~= Seq::<A>::empty());
}

/// The category entries, bank account entries and tag entries that the
/// transactions `ts` call for.
pub open spec fn wanted_category(ts: Seq<TransactionView>, c: CategoryView) -> bool {
    exists|k: int| 0 <= k < ts.len() && #[trigger] category_entries(ts[k]).contains(c)
}

pub open spec fn wanted_account(ts: Seq<TransactionView>, e: EntryView) -> bool {
    exists|k: int| 0 <= k < ts.len() && named_entry(#[trigger] ts[k].bank_account) == e
}

pub open spec fn wanted_tag(ts: Seq<TransactionView>, e: EntryView) -> bool {
    exists|k: int| 0 <= k < ts.len() && #[trigger] tag_entries(ts[k]).contains(e)
}

/// Adding transactions records each of them, in order, with its normalized
/// category after the transactions already held.
pub proof fn lemma_add_all_transactions(p: PayloadView, ts: Seq<TransactionView>)
    ensures
        add_all(p, ts).transactions == p.transactions + ts.map_values(
            |t: TransactionView| normalized(t),
        ),
    decreases ts.len(),
{
    if ts.len() == 0 {
        assert(p.transactions + ts.map_values(|t: TransactionView| normalized(t)) =~= p.transactions);
    } else {
        lemma_add_all_transactions(p, ts.drop_last());
        assert(add_all(p, ts).transactions =~= p.transactions + ts.map_values(
            |t: TransactionView| normalized(t),
        ));
    }
}

/// Adding transactions keeps the category entries already held in front,
/// adds every entry that the transactions call for, and no other.
pub proof fn lemma_add_all_categories(p: PayloadView, ts: Seq<TransactionView>)
    ensures
        is_prefix(p.categories, add_all(p, ts).categories),
        forall|k: int, c: CategoryView|
            0 <= k < ts.len() && #[trigger] category_entries(ts[k]).contains(c) ==> add_all(
                p,
                ts,
            ).categories.contains(c),
        forall|c: CategoryView|
            #[trigger] add_all(p, ts).categories.contains(c) ==> p.categories.contains(c)
                || wanted_category(ts, c),
        no_duplicates(p.categories) ==> no_duplicates(add_all(p, ts).categories),
    decreases ts.len(),
{
    if ts.len() == 0 {
        assert(p.categories.subrange(0, p.categories.len() as int) =~= p.categories);
    } else {
        let init = ts.drop_last();
        let t = ts.last();
        lemma_add_all_categories(p, init);
        let q = add_all(p, init).categories;
        let r = add_all(p, ts).categories;
        lemma_insert_all(q, category_entries(t));
        assert(r.subrange(0, p.categories.len() as int) =~= q.subrange(0, p.categories.len() as int));
        assert forall|k: int, c: CategoryView|
            0 <= k < ts.len() && #[trigger] category_entries(ts[k]).contains(c) implies r.contains(c) by {
            if k < init.len() {
                assert(init[k] == ts[k]);
                assert(q.contains(c));
                let m = choose|m: int| 0 <= m < q.len() && q[m] == c;
                assert(r[m] == c);
            } else {
                let m = choose|m: int| 0 <= m < category_entries(t).len() && category_entries(t)[m] == c;
                assert(r.contains(category_entries(t)[m]));
            }
        }
        assert forall|c: CategoryView| #[trigger] r.contains(c) implies p.categories.contains(c)
            || wanted_category(ts, c) by {
            if q.contains(c) {
                if wanted_category(init, c) {
                    let k = choose|k: int| 0 <= k < init.len() && #[trigger] category_entries(init[k]).contains(c);
                    assert(init[k] == ts[k]);
                }
            } else {
                assert(category_entries(ts[ts.len() - 1]).contains(c));
            }
        }
    }
}

/// Adding transactions keeps the bank account entries already held in front,
/// adds the entry of every transaction's account, and no other.
pub proof fn lemma_add_all_accounts(p: PayloadView, ts: Seq<TransactionView>)
    ensures
        is_prefix(p.bank_accounts, add_all(p, ts).bank_accounts),
        forall|k: int|
            0 <= k < ts.len() ==> add_all(p, ts).bank_accounts.contains(
                named_entry(#[trigger] ts[k].bank_account),
            ),
        forall|e: EntryView|
            #[trigger] add_all(p, ts).bank_accounts.contains(e) ==> p.bank_accounts.contains(e)
                || wanted_account(ts, e),
        no_duplicates(p.bank_accounts) ==> no_duplicates(add_all(p, ts).bank_accounts),
    decreases ts.len(),
{
    if ts.len() == 0 {
        assert(p.bank_accounts.subrange(0, p.bank_accounts.len() as int) =~= p.bank_accounts);
    } else {
        let init = ts.drop_last();
        let t = ts.last();
        lemma_add_all_accounts(p, init);
        let q = add_all(p, init).bank_accounts;
        let r = add_all(p, ts).bank_accounts;
        let x = named_entry(t.bank_account);
        lemma_insert_unique_one(q, x);
        lemma_insert_all(q, seq![x]);
        assert(seq![x][0] == x);
        assert(r.subrange(0, p.bank_accounts.len() as int) =~= q.subrange(0, p.bank_accounts.len() as int));
        assert forall|k: int| 0 <= k < ts.len() implies r.contains(named_entry(#[trigger] ts[k].bank_account)) by {
            if k < init.len() {
                assert(init[k] == ts[k]);
                let e = named_entry(ts[k].bank_account);
                assert(q.contains(e));
                let m = choose|m: int| 0 <= m < q.len() && q[m] == e;
                assert(r[m] == e);
            }
        }
        assert forall|e: EntryView| #[trigger] r.contains(e) implies p.bank_accounts.contains(e)
            || wanted_account(ts, e) by {
            if q.contains(e) {
                if wanted_account(init, e) {
                    let k = choose|k: int| 0 <= k < init.len() && named_entry(#[trigger] init[k].bank_account) == e;
                    assert(init[k] == ts[k]);
                }
            } else {
                assert(seq![x].contains(e));
                assert(named_entry(ts[ts.len() - 1].bank_account) == e);
            }
        }
    }
}

/// Adding transactions keeps the tag entries already held in front, adds
/// the entry of every tag of the transactions, and no other.
pub proof fn lemma_add_all_tags(p: PayloadView, ts: Seq<TransactionView>)
    ensures
        is_prefix(p.tags, add_all(p, ts).tags),
        forall|k: int, e: EntryView|
            0 <= k < ts.len() && #[trigger] tag_entries(ts[k]).contains(e) ==> add_all(
                p,
                ts,
            ).tags.contains(e),
        forall|e: EntryView|
            #[trigger] add_all(p, ts).tags.contains(e) ==> p.tags.contains(e) || wanted_tag(ts, e),
        no_duplicates(p.tags) ==> no_duplicates(add_all(p, ts).tags),
    decreases ts.len(),
{
    if ts.len() == 0 {
        assert(p.tags.subrange(0, p.tags.len() as int) =~= p.tags);
    } else {
        let init = ts.drop_last();
        let t = ts.last();
        lemma_add_all_tags(p, init);
        let q = add_all(p, init).tags;
        let r = add_all(p, ts).tags;
        lemma_insert_all(q, tag_entries(t));
        assert(r.subrange(0, p.tags.len() as int) =~= q.subrange(0, p.tags.len() as int));
        assert forall|k: int, e: EntryView|
            0 <= k < ts.len() && #[trigger] tag_entries(ts[k]).contains(e) implies r.contains(e) by {
            if k < init.len() {
                assert(init[k] == ts[k]);
                assert(q.contains(e));
                let m = choose|m: int| 0 <= m < q.len() && q[m] == e;
                assert(r[m] == e);
            } else {
                let m = choose|m: int| 0 <= m < tag_entries(t).len() && tag_entries(t)[m] == e;
                assert(r.contains(tag_entries(t)[m]));
            }
        }
        assert forall|e: EntryView| #[trigger] r.contains(e) implies p.tags.contains(e) || wanted_tag(ts, e) by {
            if q.contains(e) {
                if wanted_tag(init, e) {
                    let k = choose|k: int| 0 <= k < init.len() && #[trigger] tag_entries(init[k]).contains(e);
                    assert(init[k] == ts[k]);
                }
            } else {
                assert(tag_entries(ts[ts.len() - 1]).contains(e));
            }
        }
    }
}

// ---------------------------------------------------------------------------
// Category names.
// ---------------------------------------------------------------------------

/// A category name that the payload can hold: not empty, without `/`, and
/// without white space at either end.
pub open spec fn is_clean_name(n: Seq<char>) -> bool {
    n.len() > 0 && !n.contains('/') && trim(n) == n
}

proof fn lemma_trimmed_clean(s: Seq<char>)
    requires
        !s.contains('/'),
        trim(s).len() > 0,
    ensures
        is_clean_name(trim(s)),
{
    lemma_trim_contains(s, '/');
    lemma_trim_idempotent(s);
}

/// Splitting a category text gives clean names: a root name, or a parent
/// and a child name, are never empty, never hold a `/`, and are trimmed.
pub proof fn law_split_names_are_clean(c: Seq<char>)
    ensures
        match spec_split(c) {
            CategorySplitView::Root(n) => is_clean_name(n),
            CategorySplitView::Nested { parent, name } => is_clean_name(parent) && is_clean_name(
                name,
            ),
            _ => true,
        },
{
    let i = first_index_of(c, '/');
    lemma_contains_iff_first_index(c, '/');
    crate::text::lemma_first_index_of_bounds(c, '/');
    if i == c.len() {
        if trim(c).len() > 0 {
            lemma_trimmed_clean(c);
        }
    } else {
        let p = c.take(i);
        let ch = c.skip(i + 1);
        lemma_contains_iff_first_index(p, '/');
        lemma_first_index_of_is_least(p, '/', i);
        if trim(p).len() > 0 {
            lemma_trimmed_clean(p);
        }
        if !trim(ch).contains('/') && trim(ch).len() > 0 {
            lemma_trim_idempotent(ch);
        }
    }
}

/// The category text that the payload records for a transaction splits as
/// the text as given did: recording it again files it under the same entries.
pub proof fn law_normalized_category_splits_the_same(c: Seq<char>)
    ensures
        spec_split(normalized_category(c)) == spec_split(c),
{
    law_split_names_are_clean(c);
    match spec_split(c) {
        CategorySplitView::Root(n) => {
            lemma_contains_iff_first_index(n, '/');
            crate::text::lemma_first_index_of_bounds(n, '/');
        },
        CategorySplitView::Nested { parent, name } => {
            let full = parent + seq!['/'] + name;
            let k = parent.len() as int;
            assert(full[k] == '/');
            assert forall|j: int| 0 <= j < k implies full[j] != '/' by {
                assert(full[j] == parent[j]);
                if parent[j] == '/' {
                    assert(parent.contains('/'));
                }
            }
            lemma_first_index_of_is_least(full, '/', k);
            assert(full.take(k) =~= parent);
            assert(full.skip(k + 1) =~= name);
        },
        _ => {},
    }
}

// ---------------------------------------------------------------------------
// The payload.
// ---------------------------------------------------------------------------

/// No category, bank account or tag entry of the payload occurs twice, and
/// none carries a description: adding transactions keeps it so.
pub proof fn law_entries_stay_unique(p: PayloadView, ts: Seq<TransactionView>)
    requires
        payload_wf(p),
    ensures
        payload_wf(add_all(p, ts)),
{
    lemma_add_all_categories(p, ts);
    lemma_add_all_accounts(p, ts);
    lemma_add_all_tags(p, ts);
    let r = add_all(p, ts);
    assert forall|i: int| 0 <= i < r.categories.len() implies r.categories[i].description is None by {
        let c = r.categories[i];
        assert(r.categories.contains(c));
        if p.categories.contains(c) {
            let j = choose|j: int| 0 <= j < p.categories.len() && p.categories[j] == c;
        } else {
            let k = choose|k: int| 0 <= k < ts.len() && #[trigger] category_entries(ts[k]).contains(c);
            let m = choose|m: int| 0 <= m < category_entries(ts[k]).len() && category_entries(ts[k])[m] == c;
        }
    }
    assert forall|i: int| 0 <= i < r.bank_accounts.len() implies r.bank_accounts[i].description is None by {
        let e = r.bank_accounts[i];
        assert(r.bank_accounts.contains(e));
        if p.bank_accounts.contains(e) {
            let j = choose|j: int| 0 <= j < p.bank_accounts.len() && p.bank_accounts[j] == e;
        }
    }
    assert forall|i: int| 0 <= i < r.tags.len() implies r.tags[i].description is None by {
        let e = r.tags[i];
        assert(r.tags.contains(e));
        if p.tags.contains(e) {
            let j = choose|j: int| 0 <= j < p.tags.len() && p.tags[j] == e;
        } else {
            let k = choose|k: int| 0 <= k < ts.len() && #[trigger] tag_entries(ts[k]).contains(e);
            let m = choose|m: int| 0 <= m < tag_entries(ts[k]).len() && tag_entries(ts[k])[m] == e;
        }
    }
}

/// Every transaction added is recorded, in order, with its normalized
/// category, and every category, bank account and tag entry that it calls for
/// is then held by the payload.
pub proof fn law_added_transactions_are_covered(p: PayloadView, ts: Seq<TransactionView>)
    ensures
        add_all(p, ts).transactions == p.transactions + ts.map_values(
            |t: TransactionView| normalized(t),
        ),
        forall|k: int, c: CategoryView|
            0 <= k < ts.len() && #[trigger] category_entries(ts[k]).contains(c) ==> add_all(
                p,
                ts,
            ).categories.contains(c),
        forall|k: int|
            0 <= k < ts.len() ==> add_all(p, ts).bank_accounts.contains(
                named_entry(#[trigger] ts[k].bank_account),
            ),
        forall|k: int, e: EntryView|
            0 <= k < ts.len() && #[trigger] tag_entries(ts[k]).contains(e) ==> add_all(
                p,
                ts,
            ).tags.contains(e),
{
    lemma_add_all_transactions(p, ts);
    lemma_add_all_categories(p, ts);
    lemma_add_all_accounts(p, ts);
    lemma_add_all_tags(p, ts);
}

/// A payload built from nothing holds no category, bank account or tag entry
/// but those that its transactions call for.
pub proof fn law_entries_come_from_transactions(ts: Seq<TransactionView>)
    ensures
        forall|c: CategoryView| #[trigger]
            add_all(empty_payload(), ts).categories.contains(c) ==> wanted_category(ts, c),
        forall|e: EntryView| #[trigger]
            add_all(empty_payload(), ts).bank_accounts.contains(e) ==> wanted_account(ts, e),
        forall|e: EntryView| #[trigger]
            add_all(empty_payload(), ts).tags.contains(e) ==> wanted_tag(ts, e),
{
    lemma_add_all_categories(empty_payload(), ts);
    lemma_add_all_accounts(empty_payload(), ts);
    lemma_add_all_tags(empty_payload(), ts);
}

proof fn lemma_add_all_held(q: PayloadView, ts: Seq<TransactionView>)
    requires
        forall|k: int, c: CategoryView|
            0 <= k < ts.len() && #[trigger] category_entries(ts[k]).contains(c) ==> q.categories.contains(c),
        forall|k: int| 0 <= k < ts.len() ==> q.bank_accounts.contains(named_entry(#[trigger] ts[k].bank_account)),
        forall|k: int, e: EntryView|
            0 <= k < ts.len() && #[trigger] tag_entries(ts[k]).contains(e) ==> q.tags.contains(e),
    ensures
        add_all(q, ts).categories == q.categories,
        add_all(q, ts).bank_accounts == q.bank_accounts,
        add_all(q, ts).tags == q.tags,
    decreases ts.len(),
{
    if ts.len() > 0 {
        let init = ts.drop_last();
        let t = ts.last();
        assert forall|k: int, c: CategoryView|
            0 <= k < init.len() && #[trigger] category_entries(init[k]).contains(c) implies q.categories.contains(c) by {
            assert(init[k] == ts[k]);
        }
        assert forall|k: int| 0 <= k < init.len() implies q.bank_accounts.contains(named_entry(#[trigger] init[k].bank_account)) by {
            assert(init[k] == ts[k]);
        }
        assert forall|k: int, e: EntryView|
            0 <= k < init.len() && #[trigger] tag_entries(init[k]).contains(e) implies q.tags.contains(e) by {
            assert(init[k] == ts[k]);
        }
        lemma_add_all_held(q, init);
        let last = ts.len() - 1;
        assert forall|j: int| 0 <= j < category_entries(t).len() implies q.categories.contains(#[trigger] category_entries(t)[j]) by {
            assert(category_entries(ts[last]).contains(category_entries(t)[j]));
        }
        assert forall|j: int| 0 <= j < tag_entries(t).len() implies q.tags.contains(#[trigger] tag_entries(t)[j]) by {
            assert(tag_entries(ts[last]).contains(tag_entries(t)[j]));
        }
        assert(q.bank_accounts.contains(named_entry(ts[last].bank_account)));
        lemma_insert_all(q.categories, category_entries(t));
        lemma_insert_all(q.tags, tag_entries(t));
    }
}

/// Adding the same transactions again adds no category, bank account or tag
/// entry; only the transactions are recorded a second time.
pub proof fn law_adding_again_adds_no_entry(p: PayloadView, ts: Seq<TransactionView>)
    ensures
        add_all(add_all(p, ts), ts).categories == add_all(p, ts).categories,
        add_all(add_all(p, ts), ts).bank_accounts == add_all(p, ts).bank_accounts,
        add_all(add_all(p, ts), ts).tags == add_all(p, ts).tags,
        add_all(add_all(p, ts), ts).transactions == add_all(p, ts).transactions + ts.map_values(
            |t: TransactionView| normalized(t),
        ),
{
    lemma_add_all_categories(p, ts);
    lemma_add_all_accounts(p, ts);
    lemma_add_all_tags(p, ts);
    lemma_add_all_held(add_all(p, ts), ts);
    lemma_add_all_transactions(add_all(p, ts), ts);
}

/// Every category entry of a payload built from nothing has a clean name,
/// and a clean parent where it has one.
pub proof fn law_category_entries_are_clean(ts: Seq<TransactionView>)
    ensures
        forall|i: int|
            0 <= i < add_all(empty_payload(), ts).categories.len() ==> {
                let c = #[trigger] add_all(empty_payload(), ts).categories[i];
                &&& is_clean_name(c.name)
                &&& (c.parent matches Some(p) ==> is_clean_name(p))
            },
{
    lemma_add_all_categories(empty_payload(), ts);
    let r = add_all(empty_payload(), ts).categories;
    assert forall|i: int| 0 <= i < r.len() implies {
        let c = #[trigger] r[i];
        &&& is_clean_name(c.name)
        &&& (c.parent matches Some(p) ==> is_clean_name(p))
    } by {
        let c = r[i];
        assert(r.contains(c));
        let k = choose|k: int| 0 <= k < ts.len() && #[trigger] category_entries(ts[k]).contains(c);
        law_split_names_are_clean(ts[k].category);
        let m = choose|m: int| 0 <= m < category_entries(ts[k]).len() && category_entries(ts[k])[m] == c;
    }
}

/// Every transaction of a payload built from nothing whose category splits
/// into a root or a nested name is filed under entries that the payload
/// holds: its root entry, or its parent's root entry and its child entry.
pub proof fn law_recorded_categories_have_entries(ts: Seq<TransactionView>)
    ensures
        forall|k: int|
            0 <= k < add_all(empty_payload(), ts).transactions.len() ==> {
                let t = #[trigger] add_all(empty_payload(), ts).transactions[k];
                let cats = add_all(empty_payload(), ts).categories;
                match spec_split(t.category) {
                    CategorySplitView::Root(n) => t.category == n && cats.contains(
                        category_entry(t.kind, None, n),
                    ),
                    CategorySplitView::Nested { parent, name } => t.category == parent
                        + seq!['/'] + name && cats.contains(category_entry(t.kind, None, parent))
                        && cats.contains(category_entry(t.kind, Some(parent), name)),
                    _ => true,
                }
            },
{
    lemma_add_all_transactions(empty_payload(), ts);
    lemma_add_all_categories(empty_payload(), ts);
    let r = add_all(empty_payload(), ts);
    assert forall|k: int| 0 <= k < r.transactions.len() implies {
        let t = #[trigger] r.transactions[k];
        match spec_split(t.category) {
            CategorySplitView::Root(n) => t.category == n && r.categories.contains(
                category_entry(t.kind, None, n),
            ),
            CategorySplitView::Nested { parent, name } => t.category == parent + seq!['/'] + name
                && r.categories.contains(category_entry(t.kind, None, parent))
                && r.categories.contains(category_entry(t.kind, Some(parent), name)),
            _ => true,
        }
    } by {
        let t = r.transactions[k];
        assert(Seq::<TransactionView>::empty() + ts.map_values(|t: TransactionView| normalized(t)) =~= ts.map_values(|t: TransactionView| normalized(t)));
        assert(t == normalized(ts[k]));
        law_normalized_category_splits_the_same(ts[k].category);
        law_split_names_are_clean(ts[k].category);
        let es = category_entries(ts[k]);
        match spec_split(ts[k].category) {
            CategorySplitView::Root(n) => {
                assert(es[0] == category_entry(t.kind, None, n));
                assert(es.contains(es[0]));
            },
            CategorySplitView::Nested { parent, name } => {
                assert(es.contains(es[0]));
                assert(es.contains(es[1]));
            },
            _ => {},
        }
    }
}

/// Adding transactions keeps the transactions already recorded and records
/// each added one after them, in order, keeping its date, kind, bank
/// account, amount, tags and notes; only its category text is normalized.
pub proof fn law_recorded_transactions_keep_their_fields(p: PayloadView, ts: Seq<TransactionView>)
    ensures
        add_all(p, ts).transactions.len() == p.transactions.len() + ts.len(),
        forall|i: int|
            0 <= i < p.transactions.len() ==> #[trigger] add_all(p, ts).transactions[i]
                == p.transactions[i],
        forall|k: int|
            0 <= k < ts.len() ==> {
                let t = #[trigger] add_all(p, ts).transactions[p.transactions.len() + k];
                &&& t.date == ts[k].date
                &&& t.kind == ts[k].kind
                &&& t.bank_account == ts[k].bank_account
                &&& t.amount_bits == ts[k].amount_bits
                &&& t.tags == ts[k].tags
                &&& t.notes == ts[k].notes
                &&& t.category == normalized_category(ts[k].category)
            },
{
    lemma_add_all_transactions(p, ts);
    let r = add_all(p, ts).transactions;
    assert forall|k: int| 0 <= k < ts.len() implies {
        let t = #[trigger] r[p.transactions.len() + k];
        &&& t.date == ts[k].date
        &&& t.kind == ts[k].kind
        &&& t.bank_account == ts[k].bank_account
        &&& t.amount_bits == ts[k].amount_bits
        &&& t.tags == ts[k].tags
        &&& t.notes == ts[k].notes
        &&& t.category == normalized_category(ts[k].category)
    } by {
        assert(r[p.transactions.len() + k] == normalized(ts[k]));
    }
}

/// How a category text is filed, by the number of `/` it holds. None: a
/// root category named by the trimmed text, or nothing when that is empty.
/// Two or more: a multi-level path, filed under nothing. Exactly one: the
/// trimmed texts before and after it name the parent and the child; when
/// only one of them is non-empty it names a root category, and when both
/// are empty nothing is filed.
pub proof fn law_split_by_slashes(c: Seq<char>)
    ensures
        count_of(c, '/') >= 2 ==> spec_split(c) == CategorySplitView::Multipath,
        count_of(c, '/') == 0 ==> spec_split(c) == if trim(c).len() == 0 {
            CategorySplitView::Empty
        } else {
            CategorySplitView::Root(trim(c))
        },
        forall|i: int|
            0 <= i < c.len() && #[trigger] c[i] == '/' && count_of(c, '/') == 1 ==> spec_split(c)
                == if trim(c.take(i)).len() > 0 && trim(c.skip(i + 1)).len() > 0 {
                CategorySplitView::Nested { parent: trim(c.take(i)), name: trim(c.skip(i + 1)) }
            } else if trim(c.take(i)).len() > 0 {
                CategorySplitView::Root(trim(c.take(i)))
            } else if trim(c.skip(i + 1)).len() > 0 {
                CategorySplitView::Root(trim(c.skip(i + 1)))
            } else {
                CategorySplitView::Empty
            },
{
    let i0 = first_index_of(c, '/');
    crate::text::lemma_first_index_of_bounds(c, '/');
    lemma_contains_iff_first_index(c, '/');
    lemma_count_of_contains(c, '/');
    if i0 < c.len() {
        let a = c.take(i0);
        let b = c.skip(i0 + 1);
        assert(c =~= a + seq!['/'] + b);
        assert(!a.contains('/')) by {
            if a.contains('/') {
                let j = choose|j: int| 0 <= j < a.len() && a[j] == '/';
                assert(c[j] == '/');
            }
        }
        lemma_count_of_contains(a, '/');
        lemma_count_of_contains(b, '/');
        lemma_count_of_concat(a, seq!['/'], '/');
        lemma_count_of_concat(a + seq!['/'], b, '/');
        assert(seq!['/'].drop_last() =~= Seq::<char>::empty());
        assert(count_of(Seq::<char>::empty(), '/') == 0);
        assert(seq!['/'].last() == '/');
        assert(count_of(seq!['/'], '/') == 1);
        assert(!crate::text::is_white_space('/'));
        lemma_trim_contains(b, '/');
        if b.contains('/') {
            crate::text::lemma_trim_keeps(b, '/');
        }
        assert forall|i: int| 0 <= i < c.len() && #[trigger] c[i] == '/' && count_of(c, '/') == 1 implies i == i0 by {
            if i > i0 {
                assert(b[i - i0 - 1] == '/');
            }
        }
    }
}

} // verus!
