//! Assembles the payload: every transaction is kept, and the categories,
//! bank accounts and tags it refers to are added once each.
use vstd::prelude::*;
use vstd::hash_set::StringHashSet;
use vstd::string::*;

use super::types::{
    categories_view, empty_payload, opt_text, texts, transactions_view, BankAccount, Category, CategoryView,
    EntryView, Payload, PayloadView, Tag, Transaction, TransactionType, TransactionView,
};
use crate::text::{
    char_vec, find_char, first_index_of, lemma_first_index_of_bounds, trim, trim_bounds,
};

verus! {

/// How a transaction's category text is filed, following the API's
/// `"Parent/Child"` rule for `TransactionInput.category`: split on the first
/// `/`, each side trimmed.
pub enum CategorySplit {
    /// No `/`, or a single `/` where one side trims down to nothing (`"Bills"`,
    /// `"Bills/  "`, `"  /Bills"`): a root category named by the non-empty side.
    Root(String),
    /// A single `/` with non-empty text on both sides.
    Nested { parent: String, name: String },
    /// More than one `/` (`"A/B/C"`): the schema caps the hierarchy at two
    /// levels, so no category entry is made and the transaction keeps its text.
    Multipath,
    /// Nothing but white space around at most one `/` (`"/"`, `"   "`, `" / "`):
    /// no category entry is made and the transaction keeps its text.
    Empty,
}

pub enum CategorySplitView {
    Root(Seq<char>),
    Nested { parent: Seq<char>, name: Seq<char> },
    Multipath,
    Empty,
}

impl View for CategorySplit {
    type V = CategorySplitView;

    open spec fn view(&self) -> CategorySplitView {
        match self {
            CategorySplit::Root(n) => CategorySplitView::Root(n@),
            CategorySplit::Nested { parent, name } => CategorySplitView::Nested {
                parent: parent@,
                name: name@,
            },
            CategorySplit::Multipath => CategorySplitView::Multipath,
            CategorySplit::Empty => CategorySplitView::Empty,
        }
    }
}

/// How the category text `c` is filed (see [`CategorySplit`]).
pub open spec fn spec_split(c: Seq<char>) -> CategorySplitView {
    let i = first_index_of(c, '/');
    if i == c.len() {
        let n = trim(c);
        if n.len() == 0 {
            CategorySplitView::Empty
        } else {
            CategorySplitView::Root(n)
        }
    } else {
        let p = trim(c.take(i));
        let ch = trim(c.skip(i + 1));
        if ch.contains('/') {
            CategorySplitView::Multipath
        } else if p.len() == 0 && ch.len() == 0 {
            CategorySplitView::Empty
        } else if p.len() == 0 {
            CategorySplitView::Root(ch)
        } else if ch.len() == 0 {
            CategorySplitView::Root(p)
        } else {
            CategorySplitView::Nested { parent: p, name: ch }
        }
    }
}

/// Splits a transaction's category text (see [`CategorySplit`]).
pub fn split_category(category: &str) -> (r: CategorySplit)
    ensures
        r@ == spec_split(category@),
{
    let cs = char_vec(category);
    let n = cs.len();
    let i = find_char(&cs, '/', 0, n);
    proof {
        assert(cs@.subrange(0, n as int) =~= cs@);
    }
    if i == n {
        let (a, b) = trim_bounds(&cs, 0, n);
        if a == b {
            CategorySplit::Empty
        } else {
            CategorySplit::Root(category.substring_char(a, b).to_owned())
        }
    } else {
        let (pa, pb) = trim_bounds(&cs, 0, i);
        let (ca, cb) = trim_bounds(&cs, i + 1, n);
        let j = find_char(&cs, '/', ca, cb);
        proof {
            assert(cs@.subrange(0, i as int) =~= cs@.take(i as int));
            assert(cs@.subrange(i + 1, n as int) =~= cs@.skip(i + 1));
            lemma_contains_iff_first_index(cs@.subrange(ca as int, cb as int), '/');
        }
        if j < cb {
            CategorySplit::Multipath
        } else if pa == pb && ca == cb {
            CategorySplit::Empty
        } else if pa == pb {
            CategorySplit::Root(category.substring_char(ca, cb).to_owned())
        } else if ca == cb {
            CategorySplit::Root(category.substring_char(pa, pb).to_owned())
        } else {
            CategorySplit::Nested {
                parent: category.substring_char(pa, pb).to_owned(),
                name: category.substring_char(ca, cb).to_owned(),
            }
        }
    }
}

// ---------------------------------------------------------------------------
// The model of building a payload.
// ---------------------------------------------------------------------------

/// `s` with `x` appended, unless `s` already holds `x`.
pub open spec fn insert_unique<A>(s: Seq<A>, x: A) -> Seq<A> {
    if s.contains(x) {
        s
    } else {
        s.push(x)
    }
}

/// `insert_unique` of each of `xs` in turn.
pub open spec fn insert_all<A>(s: Seq<A>, xs: Seq<A>) -> Seq<A>
    decreases xs.len(),
{
    if xs.len() == 0 {
        s
    } else {
        insert_unique(insert_all(s, xs.drop_last()), xs.last())
    }
}

/// A category entry as the builder makes it.
pub open spec fn category_entry(
    kind: TransactionType,
    parent: Option<Seq<char>>,
    name: Seq<char>,
) -> CategoryView {
    CategoryView { name, kind, description: None, parent }
}

/// A bank account or tag entry as the builder makes it.
pub open spec fn named_entry(name: Seq<char>) -> EntryView {
    EntryView { name, description: None }
}

/// The category entries that a transaction calls for: a root entry, or a
/// root entry for the parent and a child entry; none for `Multipath`/`Empty`.
pub open spec fn category_entries(t: TransactionView) -> Seq<CategoryView> {
    match spec_split(t.category) {
        CategorySplitView::Root(n) => seq![category_entry(t.kind, None, n)],
        CategorySplitView::Nested { parent, name } => seq![
            category_entry(t.kind, None, parent),
            category_entry(t.kind, Some(parent), name),
        ],
        _ => Seq::empty(),
    }
}

/// The tag entries that a transaction calls for.
pub open spec fn tag_entries(t: TransactionView) -> Seq<EntryView> {
    t.tags.map_values(|n: Seq<char>| named_entry(n))
}

/// The category text that the payload records for a transaction: the trimmed
/// name for a root category, `parent/name` for a nested one, the text as given
/// text otherwise.
pub open spec fn normalized_category(c: Seq<char>) -> Seq<char> {
    match spec_split(c) {
        CategorySplitView::Root(n) => n,
        CategorySplitView::Nested { parent, name } => parent + seq!['/'] + name,
        _ => c,
    }
}

/// The transaction as the payload records it.
pub open spec fn normalized(t: TransactionView) -> TransactionView {
    TransactionView { category: normalized_category(t.category), ..t }
}

/// The payload after adding one transaction.
pub open spec fn add_one(p: PayloadView, t: TransactionView) -> PayloadView {
    PayloadView {
        categories: insert_all(p.categories, category_entries(t)),
        bank_accounts: insert_unique(p.bank_accounts, named_entry(t.bank_account)),
        tags: insert_all(p.tags, tag_entries(t)),
        transactions: p.transactions.push(normalized(t)),
    }
}

/// The payload after adding the transactions `ts`, in order.
pub open spec fn add_all(p: PayloadView, ts: Seq<TransactionView>) -> PayloadView
    decreases ts.len(),
{
    if ts.len() == 0 {
        p
    } else {
        add_one(add_all(p, ts.drop_last()), ts.last())
    }
}

/// No value occurs twice in `s`.
pub open spec fn no_duplicates<A>(s: Seq<A>) -> bool {
    forall|i: int, j: int| 0 <= i < j < s.len() ==> s[i] != s[j]
}

/// The names of a sequence of bank account or tag entries.
pub open spec fn entry_names(s: Seq<EntryView>) -> Set<Seq<char>> {
    Set::new(|n: Seq<char>| exists|i: int| 0 <= i < s.len() && s[i].name == n)
}

/// What holds of every payload that the builder assembles: no entry occurs
/// twice, and no entry carries a description.
pub open spec fn payload_wf(p: PayloadView) -> bool {
    &&& no_duplicates(p.categories)
    &&& no_duplicates(p.bank_accounts)
    &&& no_duplicates(p.tags)
    &&& forall|i: int| 0 <= i < p.categories.len() ==> p.categories[i].description is None
    &&& forall|i: int| 0 <= i < p.bank_accounts.len() ==> p.bank_accounts[i].description is None
    &&& forall|i: int| 0 <= i < p.tags.len() ==> p.tags[i].description is None
}

/// Adding transactions in two batches builds the same payload as adding
/// them all at once.
pub proof fn lemma_add_all_concat(p: PayloadView, a: Seq<TransactionView>, b: Seq<TransactionView>)
    ensures
        add_all(add_all(p, a), b) == add_all(p, a + b),
    decreases b.len(),
{
    if b.len() == 0 {
        assert(a + b =~= a);
    } else {
        lemma_add_all_concat(p, a, b.drop_last());
        assert((a + b).drop_last() =~= a + b.drop_last());
        assert((a + b).last() == b.last());
    }
}

// ---------------------------------------------------------------------------
// Lemmas.
// ---------------------------------------------------------------------------

pub proof fn lemma_contains_iff_first_index(s: Seq<char>, c: char)
    ensures
        s.contains(c) <==> first_index_of(s, c) < s.len(),
{
    lemma_first_index_of_bounds(s, c);
    if s.contains(c) {
        let k = choose|k: int| 0 <= k < s.len() && s[k] == c;
        assert(!(first_index_of(s, c) > k));
    }
}

proof fn lemma_insert_unique_no_duplicates<A>(s: Seq<A>, x: A)
    requires
        no_duplicates(s),
    ensures
        no_duplicates(insert_unique(s, x)),
{
    if !s.contains(x) {
        let t = s.push(x);
        assert forall|i: int, j: int| 0 <= i < j < t.len() implies t[i] != t[j] by {
            if j == s.len() {
                assert(s[i] == t[i]);
            }
        }
    }
}

proof fn lemma_entry_contains_iff_name(s: Seq<EntryView>, n: Seq<char>)
    requires
        forall|i: int| 0 <= i < s.len() ==> s[i].description is None,
    ensures
        s.contains(named_entry(n)) <==> entry_names(s).contains(n),
{
    if entry_names(s).contains(n) {
        let i = choose|i: int| 0 <= i < s.len() && s[i].name == n;
        assert(s[i] == named_entry(n));
    }
}

proof fn lemma_insert_entry_names(s: Seq<EntryView>, n: Seq<char>)
    requires
        forall|i: int| 0 <= i < s.len() ==> s[i].description is None,
    ensures
        entry_names(insert_unique(s, named_entry(n))) == entry_names(s).insert(n),
        forall|i: int|
            0 <= i < insert_unique(s, named_entry(n)).len() ==> insert_unique(
                s,
                named_entry(n),
            )[i].description is None,
{
    lemma_entry_contains_iff_name(s, n);
    let t = insert_unique(s, named_entry(n));
    assert forall|m: Seq<char>| entry_names(t).contains(m) <==> entry_names(s).insert(n).contains(m) by {
        if entry_names(s).contains(m) {
            let i = choose|i: int| 0 <= i < s.len() && s[i].name == m;
            assert(t[i] == s[i]);
        }
        if m == n && !s.contains(named_entry(n)) {
            assert(t[s.len() as int].name == n);
        }
    }
    assert(entry_names(t) =~= entry_names(s).insert(n));
}

// ---------------------------------------------------------------------------
// The builder.
// ---------------------------------------------------------------------------

/// Collects transactions into a [`Payload`]. Its view is the payload built so far.
pub struct PayloadBuilder {
    payload: Payload,
    bank_account_set: StringHashSet,
    tag_set: StringHashSet,
}

impl View for PayloadBuilder {
    type V = PayloadView;

    closed spec fn view(&self) -> PayloadView {
        self.payload@
    }
}

impl PayloadBuilder {
    /// The builder's invariant: the payload is well formed and the name sets
    /// hold exactly the names of its bank account and tag entries.
    pub closed spec fn wf(&self) -> bool {
        &&& payload_wf(self.payload@)
        &&& self.bank_account_set@ == entry_names(self.payload@.bank_accounts)
        &&& self.tag_set@ == entry_names(self.payload@.tags)
    }

    /// A builder that holds nothing yet.
    pub fn new() -> (r: PayloadBuilder)
        ensures
            r.wf(),
            r@ == empty_payload(),
    {
        let r = PayloadBuilder {
            payload: Payload::default(),
            bank_account_set: StringHashSet::new(),
            tag_set: StringHashSet::new(),
        };
        assert(entry_names(r.payload@.bank_accounts) =~= Set::empty());
        assert(entry_names(r.payload@.tags) =~= Set::empty());
        r
    }

    /// Adds `transactions` in order (see [`add_all`]): each is recorded with its
    /// normalized category, and the category, bank account and tag entries it
    /// calls for are appended unless the payload already holds them.
    pub fn add_transactions(self, transactions: Vec<Transaction>) -> (r: PayloadBuilder)
        requires
            self.wf(),
        ensures
            r.wf(),
            r@ == add_all(self@, transactions_view(transactions@)),
    {
        let mut b = self;
        let ghost start = b@;
        let ghost all = transactions_view(transactions@);
        for tx in it: transactions.into_iter()
            invariant
                b.wf(),
                it.seq() == transactions@,
                all == transactions_view(transactions@),
                b@ == add_all(start, all.take(it.index() as int)),
        {
            let ghost k = it.index() as int;
            proof {
                assert(all.take(k + 1).drop_last() =~= all.take(k));
                assert(all.take(k + 1).last() == tx@);
            }
            b.add_one(tx);
        }
        proof {
            assert(all.take(all.len() as int) =~= all);
        }
        b
    }

    fn add_one(&mut self, tx: Transaction)
        requires
            old(self).wf(),
        ensures
            final(self).wf(),
            final(self)@ == add_one(old(self)@, tx@),
    {
        let ghost t = tx@;
        let mut tx = tx;
        let kind = tx.type_;
        match split_category(tx.category.as_str()) {
            CategorySplit::Root(name) => {
                let entry = Category { name: name.clone(), type_: kind, description: None, parent: None };
                Self::insert_category(&mut self.payload.categories, entry);
                proof {
                    reveal_with_fuel(insert_all, 2);
                }
                tx.category = name;
                assert(tx@.category == normalized_category(t.category));
            },
            CategorySplit::Nested { parent, name } => {
                let root = Category {
                    name: parent.clone(),
                    type_: kind,
                    description: None,
                    parent: None,
                };
                Self::insert_category(&mut self.payload.categories, root);
                let child = Category {
                    name: name.clone(),
                    type_: kind,
                    description: None,
                    parent: Some(parent.clone()),
                };
                Self::insert_category(&mut self.payload.categories, child);
                proof {
                    reveal_with_fuel(insert_all, 3);
                    assert(category_entries(t).drop_last() =~= seq![category_entries(t)[0]]);
                    assert(seq![category_entries(t)[0]].drop_last() =~= Seq::<CategoryView>::empty());
                }
                let mut full = parent;
                full.append("/");
                full.append(name.as_str());
                proof {
                    reveal_strlit("/");
                }
                tx.category = full;
                assert(tx@.category == normalized_category(t.category));
            },
            _ => {
                proof {
                    reveal_with_fuel(insert_all, 1);
                }
                assert(tx@.category == normalized_category(t.category));
            },
        }
        assert(self.payload@.categories == insert_all(old(self)@.categories, category_entries(t)));
        assert(tx@ == normalized(t));
        // The bank account.
        proof {
            lemma_entry_contains_iff_name(self.payload@.bank_accounts, t.bank_account);
            lemma_insert_entry_names(self.payload@.bank_accounts, t.bank_account);
            lemma_insert_unique_no_duplicates(self.payload@.bank_accounts, named_entry(t.bank_account));
        }
        if !self.bank_account_set.contains(tx.bank_account.as_str()) {
            self.payload.bank_accounts.push(
                BankAccount { name: tx.bank_account.clone(), description: None },
            );
            self.bank_account_set.insert(tx.bank_account.clone());
            proof {
                assert(self.payload@.bank_accounts =~= old(self)@.bank_accounts.push(
                    named_entry(t.bank_account),
                ));
            }
        }
        // The tags.
        let ghost tags0 = self.payload@.tags;
        let ghost cats1 = self.payload@.categories;
        let ghost banks1 = self.payload@.bank_accounts;
        let ghost bank_set1 = self.bank_account_set@;
        let ghost te = tag_entries(t);
        let mut i: usize = 0;
        while i < tx.tags.len()
            invariant
                self.payload@.categories == cats1,
                self.payload@.bank_accounts == banks1,
                self.bank_account_set@ == bank_set1,
                self.payload@.transactions == old(self)@.transactions,
                i <= tx.tags.len(),
                t.tags == texts(tx.tags@),
                te == tag_entries(t),
                self.payload@.tags == insert_all(tags0, te.take(i as int)),
                self.tag_set@ == entry_names(self.payload@.tags),
                no_duplicates(self.payload@.tags),
                forall|j: int| 0 <= j < self.payload@.tags.len() ==> self.payload@.tags[j].description is None,
            decreases tx.tags.len() - i,
        {
            let ghost before = self.payload@.tags;
            let ghost n = tx.tags@[i as int]@;
            proof {
                assert(te.take(i + 1).drop_last() =~= te.take(i as int));
                assert(te.take(i + 1).last() == named_entry(n));
                lemma_entry_contains_iff_name(before, n);
                lemma_insert_entry_names(before, n);
                lemma_insert_unique_no_duplicates(before, named_entry(n));
            }
            if !self.tag_set.contains(tx.tags[i].as_str()) {
                self.payload.tags.push(Tag { name: tx.tags[i].clone(), description: None });
                self.tag_set.insert(tx.tags[i].clone());
                proof {
                    assert(self.payload@.tags =~= before.push(named_entry(n)));
                }
            }
            i = i + 1;
        }
        proof {
            assert(te.take(te.len() as int) =~= te);
        }
        // The transaction.
        self.payload.transactions.push(tx);
        proof {
            assert(self.payload@.transactions =~= old(self)@.transactions.push(normalized(t)));
        }
    }

    fn same_opt_text(a: &Option<String>, b: &Option<String>) -> (r: bool)
        ensures
            r == (opt_text(*a) == opt_text(*b)),
    {
        match (a, b) {
            (Some(x), Some(y)) => *x == *y,
            (None, None) => true,
            _ => false,
        }
    }

    fn same_category(a: &Category, b: &Category) -> (r: bool)
        ensures
            r == (a@ == b@),
    {
        a.type_ == b.type_ && a.name == b.name && Self::same_opt_text(&a.description, &b.description)
            && Self::same_opt_text(&a.parent, &b.parent)
    }

    fn insert_category(cats: &mut Vec<Category>, c: Category)
        requires
            no_duplicates(categories_view(old(cats)@)),
        ensures
            categories_view(final(cats)@) == insert_unique(
                categories_view(old(cats)@),
                c@,
            ),
            no_duplicates(categories_view(final(cats)@)),
    {
        let ghost v = categories_view(old(cats)@);
        let mut i: usize = 0;
        while i < cats.len()
            invariant
                cats@ == old(cats)@,
                v == categories_view(old(cats)@),
                no_duplicates(v),
                i <= cats.len(),
                forall|j: int| 0 <= j < i ==> v[j] != c@,
            decreases cats.len() - i,
        {
            if Self::same_category(&cats[i], &c) {
                proof {
                    assert(v[i as int] == c@);
                    assert(categories_view(cats@) == v);
                }
                return;
            }
            i = i + 1;
        }
        proof {
            assert(!v.contains(c@));
            lemma_insert_unique_no_duplicates(v, c@);
        }
        cats.push(c);
        proof {
            assert(categories_view(cats@) =~= v.push(c@));
        }
    }

    /// The payload built so far.
    pub fn build(self) -> (r: Payload)
        ensures
            r@ == self@,
    {
        self.payload
    }
}

impl Default for PayloadBuilder {
    fn default() -> (r: PayloadBuilder)
        ensures
            r.wf(),
            r@ == empty_payload(),
    {
        PayloadBuilder::new()
    }
}

} // verus!
