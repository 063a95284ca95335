//! The data that every format carries: money, transactions and batches.

use crate::calendar::{
    date_renders_faithfully, timestamp_renders_faithfully, valid_day_count, valid_timestamp, Date,
    Timestamp,
};
use crate::decimal::{renders_faithfully, valid_decimal, Decimal, DecimalView};
use crate::strings::{is_literal, to_chars};
use vstd::prelude::*;

verus! {

/// An amount of money in a currency.
#[derive(Debug, Clone, PartialEq)]
pub struct Money {
    /// The amount, as an exact decimal.
    pub amount: Decimal,
    /// The currency code, such as `USD`.  It is not checked against any list.
    pub currency: String,
}

/// Money as the contracts speak of it.
pub struct MoneyView {
    pub amount: DecimalView,
    pub currency: Seq<char>,
}

impl View for Money {
    type V = MoneyView;

    open spec fn view(&self) -> MoneyView {
        MoneyView { amount: self.amount@, currency: self.currency@ }
    }
}

/// Whether money leaves an account or enters it.
#[derive(Debug, Clone, Copy, PartialEq, Eq, Structural)]
pub enum TransactionKind {
    /// Outgoing: a withdrawal or payment.
    Debit,
    /// Incoming: a deposit or receipt.
    Credit,
}

/// The name of a kind, as the text formats write it.
pub open spec fn kind_text(kind: TransactionKind) -> Seq<char> {
    match kind {
        TransactionKind::Debit => "Debit"@,
        TransactionKind::Credit => "Credit"@,
    }
}

/// The kind that a name stands for.  Names are matched exactly.
pub open spec fn kind_from_text(text: Seq<char>) -> Option<TransactionKind> {
    if text == "Debit"@ {
        Some(TransactionKind::Debit)
    } else if text == "Credit"@ {
        Some(TransactionKind::Credit)
    } else {
        None
    }
}

impl TransactionKind {
    /// The name of the kind: `Debit` or `Credit`.
    pub fn as_str(&self) -> (s: &'static str)
        ensures
            s@ == kind_text(*self),
    {
        match self {
            TransactionKind::Debit => "Debit",
            TransactionKind::Credit => "Credit",
        }
    }

    /// The kind with the given name, if the name is exactly `Debit` or `Credit`.
    pub fn from_str(name: &str) -> (r: Option<TransactionKind>)
        ensures
            r == kind_from_text(name@),
    {
        TransactionKind::from_chars(&to_chars(name))
    }

    /// The kind with the given name, if the name is exactly `Debit` or `Credit`.
    pub fn from_chars(text: &Vec<char>) -> (r: Option<TransactionKind>)
        ensures
            r == kind_from_text(text@),
    {
        if is_literal(text, "Debit") {
            Some(TransactionKind::Debit)
        } else if is_literal(text, "Credit") {
            Some(TransactionKind::Credit)
        } else {
            None
        }
    }
}

/// Every kind is found again under its own name.
pub proof fn lemma_kind_round_trip(kind: TransactionKind)
    ensures
        kind_from_text(kind_text(kind)) == Some(kind),
{
    reveal_strlit("Debit");
    reveal_strlit("Credit");
    assert("Debit"@.len() != "Credit"@.len());
}

/// One financial transaction.
#[derive(Debug, Clone, PartialEq)]
pub struct Transaction {
    /// The transaction's identifier.  Nothing here requires it to be unique.
    pub id: String,
    /// The day the transaction was posted to the account.
    pub posted_at: Date,
    /// When the transaction was carried out, if known.
    pub executed_at: Option<Timestamp>,
    /// Whether this is a debit or a credit.
    pub kind: TransactionKind,
    /// How much, and in which currency.
    pub amount: Money,
    /// A description for people to read.
    pub description: String,
    /// The account concerned, if given.
    pub account: Option<String>,
    /// The other party, if given.
    pub counterparty: Option<String>,
    /// A category for classification, if given.
    pub category: Option<String>,
}

/// A transaction as the contracts speak of it: dates as day numbers,
/// timestamps as seconds since the epoch, texts as character sequences.
pub struct TransactionView {
    pub id: Seq<char>,
    pub posted_at: int,
    pub executed_at: Option<int>,
    pub kind: TransactionKind,
    pub amount: MoneyView,
    pub description: Seq<char>,
    pub account: Option<Seq<char>>,
    pub counterparty: Option<Seq<char>>,
    pub category: Option<Seq<char>>,
}

/// The characters of an optional string.
pub open spec fn text_of(s: Option<String>) -> Option<Seq<char>> {
    match s {
        Some(t) => Some(t@),
        None => None,
    }
}

/// The second count of an optional timestamp.
pub open spec fn seconds_of(t: Option<Timestamp>) -> Option<int> {
    match t {
        Some(t) => Some(t@),
        None => None,
    }
}

impl View for Transaction {
    type V = TransactionView;

    open spec fn view(&self) -> TransactionView {
        TransactionView {
            id: self.id@,
            posted_at: self.posted_at@,
            executed_at: seconds_of(self.executed_at),
            kind: self.kind,
            amount: self.amount@,
            description: self.description@,
            account: text_of(self.account),
            counterparty: text_of(self.counterparty),
            category: text_of(self.category),
        }
    }
}

/// A transaction whose date, timestamp and amount are representable.  Every
/// `Transaction` value is one.
pub open spec fn valid_transaction(t: TransactionView) -> bool {
    &&& valid_day_count(t.posted_at)
    &&& (t.executed_at matches Some(secs) ==> valid_timestamp(secs))
    &&& valid_decimal(t.amount.amount)
}

/// A valid transaction whose date, execution time and amount have faithful
/// renderings.  Every transaction that has been written as text is one.
pub open spec fn transaction_renders_faithfully(t: TransactionView) -> bool {
    &&& valid_transaction(t)
    &&& date_renders_faithfully(t.posted_at)
    &&& (t.executed_at matches Some(secs) ==> timestamp_renders_faithfully(secs))
    &&& renders_faithfully(t.amount.amount)
}

/// Whether every transaction of a batch renders faithfully.
pub open spec fn batch_renders_faithfully(b: TransactionBatchView) -> bool {
    forall|i: int|
        0 <= i < b.transactions.len() ==> transaction_renders_faithfully(
            #[trigger] b.transactions[i],
        )
}

impl Transaction {
    /// Recalls that the transaction's date, execution time and amount are
    /// representable, as they are in every value of their types.
    pub(crate) fn note_valid(&self)
        ensures
            valid_transaction(self@),
    {
        proof {
            use_type_invariant(&self.posted_at);
            use_type_invariant(&self.amount.amount);
            match self.executed_at {
                Some(t) => {
                    use_type_invariant(&t);
                },
                None => {},
            }
        }
    }
}

/// Transactions in order, with the account they belong to where it is known.
#[derive(Debug, Clone, PartialEq)]
pub struct TransactionBatch {
    /// The account all the transactions belong to, if given.
    pub account_id: Option<String>,
    /// The transactions, in the order in which they were met.
    pub transactions: Vec<Transaction>,
}

/// A batch as the contracts speak of it.
pub struct TransactionBatchView {
    pub account_id: Option<Seq<char>>,
    pub transactions: Seq<TransactionView>,
}

/// The views of a sequence of transactions.
pub open spec fn views_of(ts: Seq<Transaction>) -> Seq<TransactionView> {
    ts.map_values(|t: Transaction| t@)
}

impl View for TransactionBatch {
    type V = TransactionBatchView;

    open spec fn view(&self) -> TransactionBatchView {
        TransactionBatchView {
            account_id: text_of(self.account_id),
            transactions: views_of(self.transactions@),
        }
    }
}

impl TransactionBatch {
    /// A batch without account and without transactions.
    pub fn new() -> (b: TransactionBatch)
        ensures
            b@.account_id is None,
            b@.transactions.len() == 0,
    {
        TransactionBatch { account_id: None, transactions: Vec::new() }
    }
}

impl Default for TransactionBatch {
    fn default() -> (b: TransactionBatch)
        ensures
            b@.account_id is None,
            b@.transactions.len() == 0,
    {
        TransactionBatch::new()
    }
}

} // verus!
