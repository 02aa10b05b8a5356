//! The records of the MoneyLens bulk-upload payload.
use vstd::prelude::*;

verus! {

/// The kind of a transaction, and of the categories it is filed under.
#[derive(PartialEq, Eq, Structural, Clone, Copy, Debug, Hash)]
pub enum TransactionType {
    Spend,
    Save,
    Earn,
}

/// A category entry of the payload. `parent` names the root category of a
/// child entry; root entries have none.
#[derive(Clone, Debug)]
pub struct Category {
    pub name: String,
    pub type_: TransactionType,
    pub description: Option<String>,
    pub parent: Option<String>,
}

/// A bank account entry of the payload.
#[derive(Clone, Debug)]
pub struct BankAccount {
    pub name: String,
    pub description: Option<String>,
}

/// A tag entry of the payload.
#[derive(Clone, Debug)]
pub struct Tag {
    pub name: String,
    pub description: Option<String>,
}

/// One transaction. The amount is carried as the IEEE 754 bit pattern of the
/// `f64` that the spreadsheet held (`f64::to_bits`); nothing here computes with it.
#[derive(Clone, Debug)]
pub struct Transaction {
    pub date: String,
    pub type_: TransactionType,
    pub category: String,
    pub bank_account: String,
    pub amount_bits: u64,
    pub tags: Vec<String>,
    pub notes: Option<String>,
}

/// The whole upload: the categories, bank accounts and tags that the
/// transactions refer to, and the transactions themselves.
#[derive(Clone, Debug)]
pub struct Payload {
    pub categories: Vec<Category>,
    pub bank_accounts: Vec<BankAccount>,
    pub tags: Vec<Tag>,
    pub transactions: Vec<Transaction>,
}

/// The text of an optional string.
pub open spec fn opt_text(o: Option<String>) -> Option<Seq<char>> {
    match o {
        Some(s) => Some(s@),
        None => None,
    }
}

/// The texts of a sequence of strings.
pub open spec fn texts(v: Seq<String>) -> Seq<Seq<char>> {
    v.map_values(|s: String| s@)
}

pub struct CategoryView {
    pub name: Seq<char>,
    pub kind: TransactionType,
    pub description: Option<Seq<char>>,
    pub parent: Option<Seq<char>>,
}

/// What a bank account or a tag entry holds.
pub struct EntryView {
    pub name: Seq<char>,
    pub description: Option<Seq<char>>,
}

pub struct TransactionView {
    pub date: Seq<char>,
    pub kind: TransactionType,
    pub category: Seq<char>,
    pub bank_account: Seq<char>,
    pub amount_bits: u64,
    pub tags: Seq<Seq<char>>,
    pub notes: Option<Seq<char>>,
}

pub struct PayloadView {
    pub categories: Seq<CategoryView>,
    pub bank_accounts: Seq<EntryView>,
    pub tags: Seq<EntryView>,
    pub transactions: Seq<TransactionView>,
}

impl View for Category {
    type V = CategoryView;

    open spec fn view(&self) -> CategoryView {
        CategoryView {
            name: self.name@,
            kind: self.type_,
            description: opt_text(self.description),
            parent: opt_text(self.parent),
        }
    }
}

impl View for BankAccount {
    type V = EntryView;

    open spec fn view(&self) -> EntryView {
        EntryView { name: self.name@, description: opt_text(self.description) }
    }
}

impl View for Tag {
    type V = EntryView;

    open spec fn view(&self) -> EntryView {
        EntryView { name: self.name@, description: opt_text(self.description) }
    }
}

impl View for Transaction {
    type V = TransactionView;

    open spec fn view(&self) -> TransactionView {
        TransactionView {
            date: self.date@,
            kind: self.type_,
            category: self.category@,
            bank_account: self.bank_account@,
            amount_bits: self.amount_bits,
            tags: texts(self.tags@),
            notes: opt_text(self.notes),
        }
    }
}

/// The views of a sequence of category entries.
pub open spec fn categories_view(v: Seq<Category>) -> Seq<CategoryView> {
    v.map_values(|c: Category| c@)
}

/// The views of a sequence of bank account entries.
pub open spec fn accounts_view(v: Seq<BankAccount>) -> Seq<EntryView> {
    v.map_values(|b: BankAccount| b@)
}

/// The views of a sequence of tag entries.
pub open spec fn tags_view(v: Seq<Tag>) -> Seq<EntryView> {
    v.map_values(|t: Tag| t@)
}

/// The views of a sequence of transactions.
pub open spec fn transactions_view(v: Seq<Transaction>) -> Seq<TransactionView> {
    v.map_values(|t: Transaction| t@)
}

impl View for Payload {
    type V = PayloadView;

    open spec fn view(&self) -> PayloadView {
        PayloadView {
            categories: categories_view(self.categories@),
            bank_accounts: accounts_view(self.bank_accounts@),
            tags: tags_view(self.tags@),
            transactions: transactions_view(self.transactions@),
        }
    }
}

/// The payload that holds nothing.
pub open spec fn empty_payload() -> PayloadView {
    PayloadView {
        categories: Seq::empty(),
        bank_accounts: Seq::empty(),
        tags: Seq::empty(),
        transactions: Seq::empty(),
    }
}

impl Default for Payload {
    fn default() -> (r: Payload)
        ensures
            r@ == empty_payload(),
    {
        let r = Payload {
            categories: Vec::new(),
            bank_accounts: Vec::new(),
            tags: Vec::new(),
            transactions: Vec::new(),
        };
        assert(r@.categories =~= Seq::empty());
        assert(r@.bank_accounts =~= Seq::empty());
        assert(r@.tags =~= Seq::empty());
        assert(r@.transactions =~= Seq::empty());
        r
    }
}

} // verus!
