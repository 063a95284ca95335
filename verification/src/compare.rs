//! Comparing transactions and batches field by field.
//!
//! Amounts are compared as numbers, so `1.50` and `1.5` do not differ;
//! everything else is compared as it stands.

use crate::calendar::Timestamp;
use crate::decimal::same_number;
use crate::domain::{seconds_of, text_of, Transaction, TransactionBatch, TransactionView};
use vstd::prelude::*;

verus! {

/// For each field of a transaction, whether two transactions differ in it.
#[derive(Debug, Clone, Copy, PartialEq, Eq, Structural)]
pub struct FieldDiff {
    pub id: bool,
    pub posted_at: bool,
    pub executed_at: bool,
    pub kind: bool,
    pub amount: bool,
    pub description: bool,
    pub account: bool,
    pub counterparty: bool,
    pub category: bool,
}

/// In which fields two transactions differ.
pub open spec fn field_diff(a: TransactionView, b: TransactionView) -> FieldDiff {
    FieldDiff {
        id: a.id != b.id,
        posted_at: a.posted_at != b.posted_at,
        executed_at: a.executed_at != b.executed_at,
        kind: a.kind != b.kind,
        amount: !same_number(a.amount.amount, b.amount.amount) || a.amount.currency
            != b.amount.currency,
        description: a.description != b.description,
        account: a.account != b.account,
        counterparty: a.counterparty != b.counterparty,
        category: a.category != b.category,
    }
}

/// Whether two transactions differ in no field.
pub open spec fn equal_fields(a: TransactionView, b: TransactionView) -> bool {
    field_diff(a, b).none()
}

impl FieldDiff {
    /// Whether no field differs.
    pub open spec fn none(self) -> bool {
        !self.id && !self.posted_at && !self.executed_at && !self.kind && !self.amount
            && !self.description && !self.account && !self.counterparty && !self.category
    }

    /// Whether no field differs.
    pub fn is_empty(&self) -> (r: bool)
        ensures
            r == self.none(),
    {
        !self.id && !self.posted_at && !self.executed_at && !self.kind && !self.amount
            && !self.description && !self.account && !self.counterparty && !self.category
    }
}

/// Whether two optional texts hold the same characters or are both absent.
fn same_optional_text(a: &Option<String>, b: &Option<String>) -> (r: bool)
    ensures
        r == (text_of(*a) == text_of(*b)),
{
    match (a, b) {
        (Some(x), Some(y)) => *x == *y,
        (None, None) => true,
        _ => false,
    }
}

/// Whether two optional timestamps are the same instant or are both absent.
fn same_optional_time(a: &Option<Timestamp>, b: &Option<Timestamp>) -> (r: bool)
    ensures
        r == (seconds_of(*a) == seconds_of(*b)),
{
    match (a, b) {
        (Some(x), Some(y)) => x.timestamp() == y.timestamp(),
        (None, None) => true,
        _ => false,
    }
}

/// In which fields two transactions differ.
pub fn differences(tx1: &Transaction, tx2: &Transaction) -> (d: FieldDiff)
    ensures
        d == field_diff(tx1@, tx2@),
{
    FieldDiff {
        id: tx1.id != tx2.id,
        posted_at: tx1.posted_at.num_days_from_ce() != tx2.posted_at.num_days_from_ce(),
        executed_at: !same_optional_time(&tx1.executed_at, &tx2.executed_at),
        kind: tx1.kind != tx2.kind,
        amount: !(tx1.amount.amount == tx2.amount.amount) || tx1.amount.currency
            != tx2.amount.currency,
        description: tx1.description != tx2.description,
        account: !same_optional_text(&tx1.account, &tx2.account),
        counterparty: !same_optional_text(&tx1.counterparty, &tx2.counterparty),
        category: !same_optional_text(&tx1.category, &tx2.category),
    }
}

/// Whether two transactions are equal in every field.
pub fn transactions_equal(tx1: &Transaction, tx2: &Transaction) -> (r: bool)
    ensures
        r == equal_fields(tx1@, tx2@),
{
    differences(tx1, tx2).is_empty()
}

/// A pair of transactions that differ: their index, counted from 0, and the
/// fields in which they differ.
#[derive(Debug, Clone, Copy, PartialEq, Eq, Structural)]
pub struct Mismatch {
    pub index: usize,
    pub fields: FieldDiff,
}

/// What comparing two batches found.
#[derive(Debug, PartialEq, Eq)]
pub enum Comparison {
    /// The batches do not hold the same number of transactions.
    CountMismatch { left: usize, right: usize },
    /// The batches hold the same number of transactions; these pairs differ.
    Compared(Vec<Mismatch>),
}

/// The pairs that differ among the first `n` pairs, in order.
pub open spec fn mismatches(a: Seq<TransactionView>, b: Seq<TransactionView>, n: nat) -> Seq<
    Mismatch,
>
    decreases n,
{
    if n == 0 {
        Seq::empty()
    } else {
        let before = mismatches(a, b, (n - 1) as nat);
        if equal_fields(a[n - 1], b[n - 1]) {
            before
        } else {
            before.push(Mismatch { index: (n - 1) as usize, fields: field_diff(a[n - 1], b[n - 1]) })
        }
    }
}

/// Compares two batches transaction by transaction.  The accounts of the
/// batches are not compared.
pub fn compare_batches(batch1: &TransactionBatch, batch2: &TransactionBatch) -> (r: Comparison)
    ensures
        batch1@.transactions.len() != batch2@.transactions.len() ==> r == (
        Comparison::CountMismatch {
            left: batch1.transactions.len(),
            right: batch2.transactions.len(),
        }),
        batch1@.transactions.len() == batch2@.transactions.len() ==> (r matches Comparison::Compared(
            found,
        ) && found@ == mismatches(
            batch1@.transactions,
            batch2@.transactions,
            batch1@.transactions.len(),
        )),
{
    let n = batch1.transactions.len();
    if n != batch2.transactions.len() {
        return Comparison::CountMismatch { left: n, right: batch2.transactions.len() };
    }
    let mut found: Vec<Mismatch> = Vec::new();
    let mut i: usize = 0;
    while i < n
        invariant
            i <= n,
            n == batch1.transactions.len(),
            n == batch2.transactions.len(),
            found@ == mismatches(batch1@.transactions, batch2@.transactions, i as nat),
        decreases n - i,
    {
        let fields = differences(&batch1.transactions[i], &batch2.transactions[i]);
        if !fields.is_empty() {
            found.push(Mismatch { index: i, fields });
        }
        i = i + 1;
    }
    Comparison::Compared(found)
}

} // verus!
