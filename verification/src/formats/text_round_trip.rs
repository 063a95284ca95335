//! Why the text format gives back what was written: the reader's walk over
//! the lines written for a safe batch ends with exactly that batch.

use crate::calendar::{date_text, timestamp_text};
use crate::decimal::decimal_text;
use crate::domain::{
    batch_renders_faithfully, kind_text, transaction_renders_faithfully, MoneyView,
    TransactionBatchView, TransactionKind, TransactionView,
};
use crate::error::ErrorView;
use crate::formats::text::{
    batch_text, flush, fresh_transaction, header_account, line, optional_line, parse_text_chars,
    parse_text_spec, set_field, step, transaction_text, transactions_text, walk, Progress,
    TextStateView,
};
use crate::strings::{
    is_line, join_lines, split_lines, split_whitespace, starts_with, strip_prefix, trim,
    white_space,
};
use vstd::prelude::*;
use vstd::utf8::encode_utf8;

verus! {

/// A value that a `Key: value` line gives back unchanged: not empty, without
/// line feed, and not ending in whitespace.
pub open spec fn safe_value(text: Seq<char>) -> bool {
    &&& text.len() > 0
    &&& !text.contains('\n')
    &&& !white_space(text.last())
}

/// An optional value that its line gives back unchanged.
pub open spec fn safe_optional_value(text: Option<Seq<char>>) -> bool {
    text matches Some(t) ==> safe_value(t)
}

/// A word: not empty and without whitespace.
pub open spec fn is_word(text: Seq<char>) -> bool {
    &&& text.len() > 0
    &&& forall|i: int| 0 <= i < text.len() ==> !white_space(#[trigger] text[i])
}

/// A transaction that its block of lines gives back unchanged: the id and
/// the optional texts are safe values, the currency is a word, and the
/// description is empty or a safe value.
pub open spec fn safe_transaction(tx: TransactionView) -> bool {
    &&& safe_value(tx.id)
    &&& is_word(tx.amount.currency)
    &&& (tx.description.len() > 0 ==> safe_value(tx.description))
    &&& safe_optional_value(tx.account)
    &&& safe_optional_value(tx.counterparty)
    &&& safe_optional_value(tx.category)
}

/// A batch that its text gives back unchanged: it has no transactions, or it
/// names an account; the account has no line feed and no whitespace at its
/// ends; and every transaction is safe.
pub open spec fn safe_batch(b: TransactionBatchView) -> bool {
    &&& (b.account_id is None ==> b.transactions.len() == 0)
    &&& (b.account_id matches Some(id) ==> !id.contains('\n') && (id.len() > 0 ==> !white_space(
        id[0],
    ) && !white_space(id.last())))
    &&& forall|i: int| 0 <= i < b.transactions.len() ==> safe_transaction(#[trigger] b.transactions[i])
}

/// The keys of the format, by number: `ID: ` is key 0, then the eight field
/// keys in the order in which a line is matched against them.
pub open spec fn key(k: int) -> Seq<char> {
    if k == 0 {
        "ID: "@
    } else if k == 1 {
        "Date: "@
    } else if k == 2 {
        "ExecutedDate: "@
    } else if k == 3 {
        "Type: "@
    } else if k == 4 {
        "Amount: "@
    } else if k == 5 {
        "Description: "@
    } else if k == 6 {
        "Account: "@
    } else if k == 7 {
        "Counterparty: "@
    } else {
        "Category: "@
    }
}

/// What tells the keys apart: each is a word of letters, a colon and a space,
/// and no two begin with the same two characters.
proof fn lemma_keys()
    ensures
        forall|k: int|
            0 <= k <= 8 ==> (#[trigger] key(k)).len() >= 4 && !white_space(key(k)[0])
                && key(k)[0] != '-' && key(k).last() == ' ' && key(k)[key(k).len() - 2] == ':'
                && !key(k).contains('\n'),
        forall|j: int, k: int|
            0 <= j <= 8 && 0 <= k <= 8 && j != k ==> (#[trigger] key(j))[0] != (#[trigger] key(
                k,
            ))[0] || key(j)[1] != key(k)[1],
{
    reveal_strlit("ID: ");
    reveal_strlit("Date: ");
    reveal_strlit("ExecutedDate: ");
    reveal_strlit("Type: ");
    reveal_strlit("Amount: ");
    reveal_strlit("Description: ");
    reveal_strlit("Account: ");
    reveal_strlit("Counterparty: ");
    reveal_strlit("Category: ");
    assert forall|k: int| 0 <= k <= 8 implies !(#[trigger] key(k)).contains('\n') by {
        let t = key(k);
        if t.contains('\n') {
            let i = choose|i: int| 0 <= i < t.len() && t[i] == '\n';
            assert(t[i] != '\n');
        }
    }
}

/// A key followed by a value begins with that key, and the value is what is
/// left.
proof fn lemma_own_key(k: int, value: Seq<char>)
    ensures
        strip_prefix(key(k) + value, key(k)) == Some(value),
{
    let text = key(k) + value;
    assert(text.subrange(0, key(k).len() as int) == key(k));
    assert(text.skip(key(k).len() as int) == value);
}

/// A text that begins with one key does not begin with another.
proof fn lemma_other_key(j: int, k: int, text: Seq<char>)
    requires
        0 <= j <= 8,
        0 <= k <= 8,
        j != k,
        text.len() >= 2,
        text[0] == key(j)[0],
        text[1] == key(j)[1],
    ensures
        strip_prefix(text, key(k)) is None,
{
    lemma_keys();
    if starts_with(text, key(k)) {
        let head = text.subrange(0, key(k).len() as int);
        assert(head[0] == text[0]);
        assert(head[1] == text[1]);
    }
}

/// A line made of a key and a safe value is its own trimming, is not empty
/// and is not the separator.
proof fn lemma_key_line(k: int, value: Seq<char>)
    requires
        0 <= k <= 8,
        value.len() > 0,
        !white_space(value.last()),
    ensures
        trim(key(k) + value) == key(k) + value,
        (key(k) + value).len() >= 2,
        (key(k) + value)[0] == key(k)[0],
        (key(k) + value)[1] == key(k)[1],
        key(k) + value != "---"@,
{
    lemma_keys();
    let text = key(k) + value;
    assert(text[0] == key(k)[0]);
    assert(text[1] == key(k)[1]);
    assert(text.last() == value.last());
    crate::strings::lemma_trim_unchanged(text);
    reveal_strlit("---");
    if text == "---"@ {
        assert(text[0] == '-');
    }
}

/// A line made of a key and a value without line feed is a line.
proof fn lemma_key_line_is_line(k: int, value: Seq<char>)
    requires
        0 <= k <= 8,
        !value.contains('\n'),
        value.len() > 0 ==> !white_space(value.last()),
    ensures
        is_line(key(k) + value),
{
    lemma_keys();
    let text = key(k) + value;
    if text.contains('\n') {
        let i = choose|i: int| 0 <= i < text.len() && text[i] == '\n';
        if i < key(k).len() {
            assert(key(k)[i] == '\n');
            assert(key(k).contains('\n'));
        } else {
            assert(value[i - key(k).len()] == '\n');
            assert(value.contains('\n'));
        }
    }
    assert(white_space('\r'));
    if value.len() > 0 {
        assert(text.last() == value.last());
    } else {
        assert(text == key(k));
    }
}

/// An `ID:` line closes the open transaction and opens the next.
proof fn lemma_step_id(p: Progress, id: Seq<char>, line_no: nat)
    requires
        safe_value(id),
    ensures
        step(p, key(0) + id, line_no) == Ok::<Progress, ErrorView>(
            Progress { done: flush(p).done, state: TextStateView::Building(fresh_transaction(id)) },
        ),
{
    reveal(step);
    reveal(set_field);
    lemma_key_line(0, id);
    lemma_own_key(0, id);
}

/// What a line made of field key `k` and a safe value does: it is matched
/// against the keys before `k` in vain, and then gives its value.
proof fn lemma_field_line(k: int, value: Seq<char>)
    requires
        1 <= k <= 8,
        value.len() > 0,
        !white_space(value.last()),
    ensures
        trim(key(k) + value) == key(k) + value,
        trim(key(k) + value).len() > 0,
        trim(key(k) + value) != "---"@,
        forall|j: int| 0 <= j <= 8 && j != k ==> strip_prefix(key(k) + value, #[trigger] key(j)) is None,
        strip_prefix(key(k) + value, key(k)) == Some(value),
{
    lemma_key_line(k, value);
    lemma_own_key(k, value);
    assert forall|j: int| 0 <= j <= 8 && j != k implies strip_prefix(
        key(k) + value,
        #[trigger] key(j),
    ) is None by {
        lemma_other_key(k, j, key(k) + value);
    }
}

/// The keys as the reader's definitions name them.
proof fn lemma_key_names()
    ensures
        key(0) == "ID: "@,
        key(1) == "Date: "@,
        key(2) == "ExecutedDate: "@,
        key(3) == "Type: "@,
        key(4) == "Amount: "@,
        key(5) == "Description: "@,
        key(6) == "Account: "@,
        key(7) == "Counterparty: "@,
        key(8) == "Category: "@,
{
}

/// A `Date:` line with a faithful rendering sets the posting date.
proof fn lemma_step_date(done: Seq<TransactionView>, t: TransactionView, days: int, line_no: nat)
    requires
        crate::calendar::date_renders_faithfully(days),
    ensures
        step(
            Progress { done, state: TextStateView::Building(t) },
            key(1) + date_text(days),
            line_no,
        ) == Ok::<Progress, ErrorView>(
            Progress {
                done,
                state: TextStateView::Building(TransactionView { posted_at: days, ..t }),
            },
        ),
{
    reveal(step);
    reveal(set_field);
    let value = date_text(days);
    assert(crate::calendar::is_digit(value.last()) || value.last() == '-' || value.last() == '+');
    lemma_field_line(1, value);
    lemma_key_names();
    assert(strip_prefix(key(1) + value, key(0)) is None);
}

/// An `ExecutedDate:` line with a faithful rendering sets the execution time.
proof fn lemma_step_executed(done: Seq<TransactionView>, t: TransactionView, secs: int, line_no: nat)
    requires
        crate::calendar::timestamp_renders_faithfully(secs),
    ensures
        step(
            Progress { done, state: TextStateView::Building(t) },
            key(2) + timestamp_text(secs),
            line_no,
        ) == Ok::<Progress, ErrorView>(
            Progress {
                done,
                state: TextStateView::Building(TransactionView { executed_at: Some(secs), ..t }),
            },
        ),
{
    reveal(step);
    reveal(set_field);
    let value = timestamp_text(secs);
    lemma_field_line(2, value);
    lemma_key_names();
    assert(strip_prefix(key(2) + value, key(0)) is None);
    assert(strip_prefix(key(2) + value, key(1)) is None);
}

/// A `Type:` line with the name of a kind sets the kind.
proof fn lemma_step_kind(
    done: Seq<TransactionView>,
    t: TransactionView,
    kind: TransactionKind,
    line_no: nat,
)
    ensures
        step(
            Progress { done, state: TextStateView::Building(t) },
            key(3) + kind_text(kind),
            line_no,
        ) == Ok::<Progress, ErrorView>(
            Progress { done, state: TextStateView::Building(TransactionView { kind, ..t }) },
        ),
{
    reveal(step);
    reveal(set_field);
    let value = kind_text(kind);
    reveal_strlit("Debit");
    reveal_strlit("Credit");
    assert("Debit"@.len() != "Credit"@.len());
    lemma_field_line(3, value);
    lemma_key_names();
    assert(strip_prefix(key(3) + value, key(0)) is None);
    assert(strip_prefix(key(3) + value, key(1)) is None);
    assert(strip_prefix(key(3) + value, key(2)) is None);
}

/// Two words with a space between them are split into those two words.
pub proof fn lemma_two_words(a: Seq<char>, b: Seq<char>)
    requires
        is_word(a),
        is_word(b),
    ensures
        split_whitespace(a + seq![' '] + b) == seq![a, b],
{
    let text = a + seq![' '] + b;
    let n = a.len() as int;
    assert(white_space(' '));
    assert forall|j: int| 0 <= j < n implies !white_space(text[j]) by {
        assert(text[j] == a[j]);
    }
    assert(text[n] == ' ');
    crate::strings::lemma_word_len(text, n);
    assert(text.take(n) == a);
    let rest = text.skip(n);
    assert(rest[0] == ' ');
    assert(rest.skip(1) == b);
    assert forall|j: int| 0 <= j < b.len() implies !white_space(b[j]) by {}
    crate::strings::lemma_word_len(b, b.len() as int);
    assert(b.take(b.len() as int) == b);
    assert(b.skip(b.len() as int) == Seq::<char>::empty());
    assert(split_whitespace(b.skip(b.len() as int)) == Seq::<Seq<char>>::empty());
    assert(split_whitespace(b) == seq![b] + Seq::<Seq<char>>::empty());
    assert(split_whitespace(rest) == split_whitespace(b));
    assert(split_whitespace(text) == seq![a] + split_whitespace(rest));
    assert(seq![a] + (seq![b] + Seq::<Seq<char>>::empty()) == seq![a, b]);
}

/// An `Amount:` line with a faithful rendering and a currency that is a word
/// sets the amount.
proof fn lemma_step_amount(
    done: Seq<TransactionView>,
    t: TransactionView,
    amount: MoneyView,
    line_no: nat,
)
    requires
        crate::decimal::renders_faithfully(amount.amount),
        is_word(amount.currency),
    ensures
        step(
            Progress { done, state: TextStateView::Building(t) },
            key(4) + (decimal_text(amount.amount) + seq![' '] + amount.currency),
            line_no,
        ) == Ok::<Progress, ErrorView>(
            Progress { done, state: TextStateView::Building(TransactionView { amount, ..t }) },
        ),
{
    reveal(step);
    reveal(set_field);
    let number = decimal_text(amount.amount);
    let value = number + seq![' '] + amount.currency;
    assert(value.last() == amount.currency.last());
    assert(is_word(number)) by {
        assert forall|i: int| 0 <= i < number.len() implies !white_space(#[trigger] number[i]) by {
            assert(crate::decimal::is_decimal_char(number[i]));
        }
    }
    lemma_two_words(number, amount.currency);
    lemma_field_line(4, value);
    lemma_key_names();
    assert(strip_prefix(key(4) + value, key(0)) is None);
    assert(strip_prefix(key(4) + value, key(1)) is None);
    assert(strip_prefix(key(4) + value, key(2)) is None);
    assert(strip_prefix(key(4) + value, key(3)) is None);
    let parts = split_whitespace(value);
    assert(parts[0] == number);
    assert(parts[1] == amount.currency);
}

/// A `Description:` line gives back the description, whether it is a safe
/// value or empty.
proof fn lemma_step_description(
    done: Seq<TransactionView>,
    t: TransactionView,
    description: Seq<char>,
    line_no: nat,
)
    requires
        description.len() > 0 ==> safe_value(description),
        description.len() == 0 ==> t.description.len() == 0,
    ensures
        step(
            Progress { done, state: TextStateView::Building(t) },
            key(5) + description,
            line_no,
        ) == Ok::<Progress, ErrorView>(
            Progress { done, state: TextStateView::Building(TransactionView { description, ..t }) },
        ),
{
    reveal(step);
    reveal(set_field);
    lemma_key_names();
    lemma_keys();
    if description.len() > 0 {
        let value = description;
        lemma_field_line(5, value);
        assert(strip_prefix(key(5) + value, key(0)) is None);
        assert(strip_prefix(key(5) + value, key(1)) is None);
        assert(strip_prefix(key(5) + value, key(2)) is None);
        assert(strip_prefix(key(5) + value, key(3)) is None);
        assert(strip_prefix(key(5) + value, key(4)) is None);
    } else {
        let line = key(5) + description;
        assert(line == key(5));
        let bare = key(5).drop_last();
        assert(white_space(' '));
        assert(!white_space(':'));
        assert(bare.len() > 0 && bare.last() == ':');
        assert(bare[0] == key(5)[0]);
        assert(bare[1] == key(5)[1]);
        assert(crate::strings::trim_start(line) == line);
        assert(crate::strings::trim_end(line) == crate::strings::trim_end(bare));
        assert(crate::strings::trim_end(bare) == bare);
        assert(trim(line) == bare);
        reveal_strlit("---");
        assert(bare != "---"@) by {
            if bare == "---"@ {
                assert(bare[0] == '-');
            }
        }
        assert forall|j: int| 0 <= j <= 8 implies strip_prefix(bare, #[trigger] key(j)) is None by {
            if j != 5 {
                lemma_other_key(5, j, bare);
            }
        }
        assert(strip_prefix(bare, key(0)) is None);
        assert(strip_prefix(bare, key(1)) is None);
        assert(strip_prefix(bare, key(2)) is None);
        assert(strip_prefix(bare, key(3)) is None);
        assert(strip_prefix(bare, key(4)) is None);
        assert(strip_prefix(bare, key(5)) is None);
        assert(strip_prefix(bare, key(6)) is None);
        assert(strip_prefix(bare, key(7)) is None);
        assert(strip_prefix(bare, key(8)) is None);
        assert(set_field(t, bare, line_no) == Ok::<TransactionView, ErrorView>(t));
        assert(t.description =~= description);
        assert(t == TransactionView { description, ..t });
    }
}

/// An `Account:` line gives back the account.
proof fn lemma_step_account(
    done: Seq<TransactionView>,
    t: TransactionView,
    value: Seq<char>,
    line_no: nat,
)
    requires
        safe_value(value),
    ensures
        step(Progress { done, state: TextStateView::Building(t) }, key(6) + value, line_no) == Ok::<
            Progress,
            ErrorView,
        >(
            Progress {
                done,
                state: TextStateView::Building(TransactionView { account: Some(value), ..t }),
            },
        ),
{
    reveal(step);
    reveal(set_field);
    lemma_field_line(6, value);
    lemma_key_names();
    assert(strip_prefix(key(6) + value, key(0)) is None);
    assert(strip_prefix(key(6) + value, key(1)) is None);
    assert(strip_prefix(key(6) + value, key(2)) is None);
    assert(strip_prefix(key(6) + value, key(3)) is None);
    assert(strip_prefix(key(6) + value, key(4)) is None);
    assert(strip_prefix(key(6) + value, key(5)) is None);
}

/// A `Counterparty:` line gives back the counterparty.
proof fn lemma_step_counterparty(
    done: Seq<TransactionView>,
    t: TransactionView,
    value: Seq<char>,
    line_no: nat,
)
    requires
        safe_value(value),
    ensures
        step(Progress { done, state: TextStateView::Building(t) }, key(7) + value, line_no) == Ok::<
            Progress,
            ErrorView,
        >(
            Progress {
                done,
                state: TextStateView::Building(TransactionView { counterparty: Some(value), ..t }),
            },
        ),
{
    reveal(step);
    reveal(set_field);
    lemma_field_line(7, value);
    lemma_key_names();
    assert(strip_prefix(key(7) + value, key(0)) is None);
    assert(strip_prefix(key(7) + value, key(1)) is None);
    assert(strip_prefix(key(7) + value, key(2)) is None);
    assert(strip_prefix(key(7) + value, key(3)) is None);
    assert(strip_prefix(key(7) + value, key(4)) is None);
    assert(strip_prefix(key(7) + value, key(5)) is None);
    assert(strip_prefix(key(7) + value, key(6)) is None);
}

/// A `Category:` line gives back the category.
proof fn lemma_step_category(
    done: Seq<TransactionView>,
    t: TransactionView,
    value: Seq<char>,
    line_no: nat,
)
    requires
        safe_value(value),
    ensures
        step(Progress { done, state: TextStateView::Building(t) }, key(8) + value, line_no) == Ok::<
            Progress,
            ErrorView,
        >(
            Progress {
                done,
                state: TextStateView::Building(TransactionView { category: Some(value), ..t }),
            },
        ),
{
    reveal(step);
    reveal(set_field);
    lemma_field_line(8, value);
    lemma_key_names();
    assert(strip_prefix(key(8) + value, key(0)) is None);
    assert(strip_prefix(key(8) + value, key(1)) is None);
    assert(strip_prefix(key(8) + value, key(2)) is None);
    assert(strip_prefix(key(8) + value, key(3)) is None);
    assert(strip_prefix(key(8) + value, key(4)) is None);
    assert(strip_prefix(key(8) + value, key(5)) is None);
    assert(strip_prefix(key(8) + value, key(6)) is None);
    assert(strip_prefix(key(8) + value, key(7)) is None);
}

/// The separator and the empty line close the open transaction.
proof fn lemma_step_flush(p: Progress, line_no: nat)
    ensures
        step(p, "---"@, line_no) == Ok::<Progress, ErrorView>(flush(p)),
        step(p, Seq::empty(), line_no) == Ok::<Progress, ErrorView>(flush(p)),
{
    reveal(step);
    reveal(set_field);
    reveal_strlit("---");
    assert(!white_space('-'));
    crate::strings::lemma_trim_unchanged("---"@);
    crate::strings::lemma_trim_unchanged(Seq::<char>::empty());
}

/// The walk over two runs of lines is the walk over the first and then,
/// from where that ends, over the second.
pub proof fn lemma_walk_add(p: Progress, a: Seq<Seq<char>>, b: Seq<Seq<char>>, line_no: nat)
    ensures
        walk(p, a + b, line_no) == match walk(p, a, line_no) {
            Ok(q) => walk(q, b, line_no + a.len()),
            Err(e) => Err(e),
        },
    decreases a.len(),
{
    if a.len() == 0 {
        assert(a + b == b);
    } else {
        assert((a + b)[0] == a[0]);
        assert((a + b).skip(1) == a.skip(1) + b);
        match step(p, a[0], line_no) {
            Ok(next) => {
                lemma_walk_add(next, a.skip(1), b, line_no + 1);
            },
            Err(e) => {},
        }
    }
}

/// The walk over one line is one step.
proof fn lemma_walk_one(p: Progress, line: Seq<char>, line_no: nat)
    ensures
        walk(p, seq![line], line_no) == step(p, line, line_no),
{
    let one = seq![line];
    assert(one[0] == line);
    assert(one.skip(1) == Seq::<Seq<char>>::empty());
    match step(p, line, line_no) {
        Ok(next) => {
            assert(walk(next, one.skip(1), line_no + 1) == Ok::<Progress, ErrorView>(next));
        },
        Err(e) => {},
    }
}

/// The line for a value that may be absent, as a run of no or one line.
pub open spec fn optional_lines(k: int, value: Option<Seq<char>>) -> Seq<Seq<char>> {
    match value {
        Some(v) => seq![key(k) + v],
        None => Seq::empty(),
    }
}

/// The line for an execution time that may be absent.
pub open spec fn executed_lines(executed_at: Option<int>) -> Seq<Seq<char>> {
    match executed_at {
        Some(secs) => seq![key(2) + timestamp_text(secs)],
        None => Seq::empty(),
    }
}

/// The value of an `Amount:` line.
pub open spec fn amount_value(amount: MoneyView) -> Seq<char> {
    decimal_text(amount.amount) + seq![' '] + amount.currency
}

/// The lines of a transaction's block, without their line feeds.
pub open spec fn block_lines(tx: TransactionView) -> Seq<Seq<char>> {
    seq![key(0) + tx.id] + seq![key(1) + date_text(tx.posted_at)] + executed_lines(tx.executed_at)
        + seq![key(3) + kind_text(tx.kind)] + seq![key(4) + amount_value(tx.amount)] + seq![
        key(5) + tx.description,
    ] + optional_lines(6, tx.account) + optional_lines(7, tx.counterparty) + optional_lines(
        8,
        tx.category,
    )
}

/// The lines of all the blocks, with a separator line between neighbours.
pub open spec fn transactions_lines(txs: Seq<TransactionView>) -> Seq<Seq<char>>
    decreases txs.len(),
{
    if txs.len() == 0 {
        Seq::empty()
    } else if txs.len() == 1 {
        block_lines(txs[0])
    } else {
        transactions_lines(txs.drop_last()) + seq!["---"@] + block_lines(txs.last())
    }
}

/// The lines of the header.
pub open spec fn header_lines(account_id: Option<Seq<char>>) -> Seq<Seq<char>> {
    match account_id {
        Some(id) => seq![key(6) + id, Seq::empty()],
        None => Seq::empty(),
    }
}

/// The lines of a batch's text.
pub open spec fn batch_lines(b: TransactionBatchView) -> Seq<Seq<char>> {
    header_lines(b.account_id) + transactions_lines(b.transactions)
}

/// Whether every text of a run is a line.
pub open spec fn all_lines(run: Seq<Seq<char>>) -> bool {
    forall|i: int| 0 <= i < run.len() ==> is_line(#[trigger] run[i])
}

/// Two runs of lines make a run of lines.
proof fn lemma_all_lines_add(a: Seq<Seq<char>>, b: Seq<Seq<char>>)
    requires
        all_lines(a),
        all_lines(b),
    ensures
        all_lines(a + b),
{
    assert forall|i: int| 0 <= i < (a + b).len() implies is_line(#[trigger] (a + b)[i]) by {
        if i < a.len() {
            assert((a + b)[i] == a[i]);
        } else {
            assert((a + b)[i] == b[i - a.len()]);
        }
    }
}

/// The walk over a block of a safe, faithful transaction closes what was
/// open and ends with that transaction open.
pub proof fn lemma_walk_block(p: Progress, tx: TransactionView, line_no: nat)
    requires
        safe_transaction(tx),
        transaction_renders_faithfully(tx),
    ensures
        walk(p, block_lines(tx), line_no) == Ok::<Progress, ErrorView>(
            Progress { done: flush(p).done, state: TextStateView::Building(tx) },
        ),
{
    let done = flush(p).done;
    let a1 = seq![key(0) + tx.id];
    let a2 = seq![key(1) + date_text(tx.posted_at)];
    let a3 = executed_lines(tx.executed_at);
    let a4 = seq![key(3) + kind_text(tx.kind)];
    let a5 = seq![key(4) + amount_value(tx.amount)];
    let a6 = seq![key(5) + tx.description];
    let a7 = optional_lines(6, tx.account);
    let a8 = optional_lines(7, tx.counterparty);
    let a9 = optional_lines(8, tx.category);
    let t1 = fresh_transaction(tx.id);
    let t2 = TransactionView { posted_at: tx.posted_at, ..t1 };
    let t3 = TransactionView { executed_at: tx.executed_at, ..t2 };
    let t4 = TransactionView { kind: tx.kind, ..t3 };
    let t5 = TransactionView { amount: tx.amount, ..t4 };
    let t6 = TransactionView { description: tx.description, ..t5 };
    let t7 = TransactionView { account: tx.account, ..t6 };
    let t8 = TransactionView { counterparty: tx.counterparty, ..t7 };
    let t9 = TransactionView { category: tx.category, ..t8 };
    assert(t9 == tx);
    let s1 = Progress { done, state: TextStateView::Building(t1) };
    let s2 = Progress { done, state: TextStateView::Building(t2) };
    let s3 = Progress { done, state: TextStateView::Building(t3) };
    let s4 = Progress { done, state: TextStateView::Building(t4) };
    let s5 = Progress { done, state: TextStateView::Building(t5) };
    let s6 = Progress { done, state: TextStateView::Building(t6) };
    let s7 = Progress { done, state: TextStateView::Building(t7) };
    let s8 = Progress { done, state: TextStateView::Building(t8) };
    let s9 = Progress { done, state: TextStateView::Building(t9) };
    let n1 = line_no + a1.len();
    let n2 = n1 + a2.len();
    let n3 = n2 + a3.len();
    let n4 = n3 + a4.len();
    let n5 = n4 + a5.len();
    let n6 = n5 + a6.len();
    let n7 = n6 + a7.len();
    let n8 = n7 + a8.len();
    assert(walk(p, a1, line_no) == Ok::<Progress, ErrorView>(s1)) by {
        lemma_walk_one(p, key(0) + tx.id, line_no);
        lemma_step_id(p, tx.id, line_no);
    }
    assert(walk(s1, a2, n1) == Ok::<Progress, ErrorView>(s2)) by {
        lemma_walk_one(s1, key(1) + date_text(tx.posted_at), n1);
        lemma_step_date(done, t1, tx.posted_at, n1);
    }
    assert(walk(s2, a3, n2) == Ok::<Progress, ErrorView>(s3)) by {
        match tx.executed_at {
            Some(secs) => {
                lemma_walk_one(s2, key(2) + timestamp_text(secs), n2);
                lemma_step_executed(done, t2, secs, n2);
            },
            None => {
                assert(t3 == t2);
            },
        }
    }
    assert(walk(s3, a4, n3) == Ok::<Progress, ErrorView>(s4)) by {
        lemma_walk_one(s3, key(3) + kind_text(tx.kind), n3);
        lemma_step_kind(done, t3, tx.kind, n3);
    }
    assert(walk(s4, a5, n4) == Ok::<Progress, ErrorView>(s5)) by {
        lemma_walk_one(s4, key(4) + amount_value(tx.amount), n4);
        lemma_step_amount(done, t4, tx.amount, n4);
    }
    assert(walk(s5, a6, n5) == Ok::<Progress, ErrorView>(s6)) by {
        lemma_walk_one(s5, key(5) + tx.description, n5);
        lemma_step_description(done, t5, tx.description, n5);
    }
    assert(walk(s6, a7, n6) == Ok::<Progress, ErrorView>(s7)) by {
        match tx.account {
            Some(v) => {
                lemma_walk_one(s6, key(6) + v, n6);
                lemma_step_account(done, t6, v, n6);
            },
            None => {
                assert(t7 == t6);
            },
        }
    }
    assert(walk(s7, a8, n7) == Ok::<Progress, ErrorView>(s8)) by {
        match tx.counterparty {
            Some(v) => {
                lemma_walk_one(s7, key(7) + v, n7);
                lemma_step_counterparty(done, t7, v, n7);
            },
            None => {
                assert(t8 == t7);
            },
        }
    }
    assert(walk(s8, a9, n8) == Ok::<Progress, ErrorView>(s9)) by {
        match tx.category {
            Some(v) => {
                lemma_walk_one(s8, key(8) + v, n8);
                lemma_step_category(done, t8, v, n8);
            },
            None => {
                assert(t9 == t8);
            },
        }
    }
    lemma_walk_add(p, a1, a2, line_no);
    lemma_walk_add(p, a1 + a2, a3, line_no);
    lemma_walk_add(p, a1 + a2 + a3, a4, line_no);
    lemma_walk_add(p, a1 + a2 + a3 + a4, a5, line_no);
    lemma_walk_add(p, a1 + a2 + a3 + a4 + a5, a6, line_no);
    lemma_walk_add(p, a1 + a2 + a3 + a4 + a5 + a6, a7, line_no);
    lemma_walk_add(p, a1 + a2 + a3 + a4 + a5 + a6 + a7, a8, line_no);
    lemma_walk_add(p, a1 + a2 + a3 + a4 + a5 + a6 + a7 + a8, a9, line_no);
}

/// The walk over the blocks of safe, faithful transactions ends with all
/// but the last of them done and the last one open.
pub proof fn lemma_walk_transactions(txs: Seq<TransactionView>, line_no: nat)
    requires
        txs.len() > 0,
        forall|i: int| 0 <= i < txs.len() ==> safe_transaction(#[trigger] txs[i]),
        forall|i: int| 0 <= i < txs.len() ==> transaction_renders_faithfully(#[trigger] txs[i]),
    ensures
        walk(
            Progress { done: Seq::empty(), state: TextStateView::Idle },
            transactions_lines(txs),
            line_no,
        ) == Ok::<Progress, ErrorView>(
            Progress { done: txs.drop_last(), state: TextStateView::Building(txs.last()) },
        ),
    decreases txs.len(),
{
    let start = Progress { done: Seq::empty(), state: TextStateView::Idle };
    if txs.len() == 1 {
        lemma_walk_block(start, txs[0], line_no);
        assert(txs.drop_last() == Seq::<TransactionView>::empty());
    } else {
        let before = txs.drop_last();
        assert forall|i: int| 0 <= i < before.len() implies safe_transaction(
            #[trigger] before[i],
        ) && transaction_renders_faithfully(before[i]) by {
            assert(before[i] == txs[i]);
        }
        lemma_walk_transactions(before, line_no);
        let a = transactions_lines(before);
        let sep = seq!["---"@];
        let open = Progress {
            done: before.drop_last(),
            state: TextStateView::Building(before.last()),
        };
        let closed = Progress { done: before, state: TextStateView::Idle };
        assert(before.drop_last().push(before.last()) == before);
        assert(flush(open) == closed);
        lemma_walk_one(open, "---"@, line_no + a.len());
        lemma_step_flush(open, line_no + a.len());
        lemma_walk_add(start, a, sep, line_no);
        assert(walk(start, a + sep, line_no) == Ok::<Progress, ErrorView>(closed));
        lemma_walk_block(closed, txs.last(), line_no + (a + sep).len());
        lemma_walk_add(start, a + sep, block_lines(txs.last()), line_no);
    }
}

/// The lines of a safe, faithful transaction's block are lines.
proof fn lemma_block_is_lines(tx: TransactionView)
    requires
        safe_transaction(tx),
        transaction_renders_faithfully(tx),
    ensures
        all_lines(block_lines(tx)),
{
    let date = date_text(tx.posted_at);
    let kind = kind_text(tx.kind);
    let number = decimal_text(tx.amount.amount);
    let amount = amount_value(tx.amount);
    assert(white_space('\n') && white_space(' '));
    assert(!date.contains('\n') && !white_space(date.last())) by {
        if date.contains('\n') {
            let i = choose|i: int| 0 <= i < date.len() && date[i] == '\n';
            assert(crate::calendar::is_digit(date[i]) || date[i] == '-' || date[i] == '+');
        }
        assert(crate::calendar::is_digit(date.last()) || date.last() == '-' || date.last()
            == '+');
    }
    assert(!kind.contains('\n') && kind.len() > 0 && !white_space(kind.last())) by {
        reveal_strlit("Debit");
        reveal_strlit("Credit");
        if kind.contains('\n') {
            let i = choose|i: int| 0 <= i < kind.len() && kind[i] == '\n';
            assert(i == 0 || i == 1 || i == 2 || i == 3 || i == 4 || i == 5);
        }
    }
    assert(!amount.contains('\n') && amount.len() > 0 && !white_space(amount.last())) by {
        assert(amount.last() == tx.amount.currency.last());
        if amount.contains('\n') {
            let i = choose|i: int| 0 <= i < amount.len() && amount[i] == '\n';
            if i < number.len() {
                assert(crate::decimal::is_decimal_char(number[i]));
            } else if i > number.len() {
                assert(!white_space(tx.amount.currency[i - number.len() - 1]));
            }
        }
    }
    lemma_key_line_is_line(0, tx.id);
    lemma_key_line_is_line(1, date);
    lemma_key_line_is_line(3, kind);
    lemma_key_line_is_line(4, amount);
    assert(!tx.description.contains('\n')) by {
        if tx.description.len() == 0 && tx.description.contains('\n') {
            let i = choose|i: int| 0 <= i < tx.description.len() && tx.description[i] == '\n';
        }
    }
    lemma_key_line_is_line(5, tx.description);
    let a1 = seq![key(0) + tx.id];
    let a2 = seq![key(1) + date];
    let a3 = executed_lines(tx.executed_at);
    let a4 = seq![key(3) + kind];
    let a5 = seq![key(4) + amount];
    let a6 = seq![key(5) + tx.description];
    let a7 = optional_lines(6, tx.account);
    let a8 = optional_lines(7, tx.counterparty);
    let a9 = optional_lines(8, tx.category);
    assert(all_lines(a3)) by {
        match tx.executed_at {
            Some(secs) => {
                let at = timestamp_text(secs);
                assert(!at.contains('\n')) by {
                    if at.contains('\n') {
                        let i = choose|i: int| 0 <= i < at.len() && at[i] == '\n';
                        assert(crate::calendar::is_digit(at[i]) || at[i] == '-' || at[i] == '+'
                            || at[i] == ':' || at[i] == ' ');
                    }
                }
                assert(crate::calendar::is_digit(at.last()) || at.last() == '-' || at.last()
                    == '+' || at.last() == ':' || at.last() == ' ');
                lemma_key_line_is_line(2, at);
            },
            None => {},
        }
    }
    assert(all_lines(a7)) by {
        match tx.account {
            Some(v) => {
                lemma_key_line_is_line(6, v);
            },
            None => {},
        }
    }
    assert(all_lines(a8)) by {
        match tx.counterparty {
            Some(v) => {
                lemma_key_line_is_line(7, v);
            },
            None => {},
        }
    }
    assert(all_lines(a9)) by {
        match tx.category {
            Some(v) => {
                lemma_key_line_is_line(8, v);
            },
            None => {},
        }
    }
    lemma_all_lines_add(a1, a2);
    lemma_all_lines_add(a1 + a2, a3);
    lemma_all_lines_add(a1 + a2 + a3, a4);
    lemma_all_lines_add(a1 + a2 + a3 + a4, a5);
    lemma_all_lines_add(a1 + a2 + a3 + a4 + a5, a6);
    lemma_all_lines_add(a1 + a2 + a3 + a4 + a5 + a6, a7);
    lemma_all_lines_add(a1 + a2 + a3 + a4 + a5 + a6 + a7, a8);
    lemma_all_lines_add(a1 + a2 + a3 + a4 + a5 + a6 + a7 + a8, a9);
}

/// The separator is a line.
proof fn lemma_separator_is_line()
    ensures
        is_line("---"@),
        all_lines(seq!["---"@]),
{
    reveal_strlit("---");
    let t = "---"@;
    if t.contains('\n') {
        let i = choose|i: int| 0 <= i < t.len() && t[i] == '\n';
        assert(t[i] == '-');
    }
}

/// The lines of the blocks of safe, faithful transactions are lines.
proof fn lemma_transactions_are_lines(txs: Seq<TransactionView>)
    requires
        forall|i: int| 0 <= i < txs.len() ==> safe_transaction(#[trigger] txs[i]),
        forall|i: int| 0 <= i < txs.len() ==> transaction_renders_faithfully(#[trigger] txs[i]),
    ensures
        all_lines(transactions_lines(txs)),
    decreases txs.len(),
{
    if txs.len() == 1 {
        lemma_block_is_lines(txs[0]);
    } else if txs.len() > 1 {
        let before = txs.drop_last();
        assert forall|i: int| 0 <= i < before.len() implies safe_transaction(
            #[trigger] before[i],
        ) && transaction_renders_faithfully(before[i]) by {
            assert(before[i] == txs[i]);
        }
        lemma_transactions_are_lines(before);
        lemma_separator_is_line();
        lemma_block_is_lines(txs.last());
        lemma_all_lines_add(transactions_lines(before), seq!["---"@]);
        lemma_all_lines_add(transactions_lines(before) + seq!["---"@], block_lines(txs.last()));
    }
}

/// One line with its line feed.
proof fn lemma_join_one(text: Seq<char>)
    ensures
        join_lines(seq![text]) == line(text),
{
    let one = seq![text];
    assert(one.skip(1) == Seq::<Seq<char>>::empty());
    assert(join_lines(one) == one[0].push('\n') + join_lines(one.skip(1)));
    assert(text.push('\n') + Seq::<char>::empty() == text.push('\n'));
}

/// The line of a value that may be absent, with its line feed.
proof fn lemma_join_optional(k: int, value: Option<Seq<char>>)
    ensures
        join_lines(optional_lines(k, value)) == optional_line(key(k), value),
{
    match value {
        Some(v) => {
            lemma_join_one(key(k) + v);
        },
        None => {},
    }
}

/// The text written for a transaction is the lines of its block, each with
/// its line feed.
pub proof fn lemma_transaction_text_is_lines(tx: TransactionView)
    ensures
        transaction_text(tx) == join_lines(block_lines(tx)),
{
    lemma_key_names();
    reveal_strlit(" ");
    assert(" "@ == seq![' ']);
    let a1 = seq![key(0) + tx.id];
    let a2 = seq![key(1) + date_text(tx.posted_at)];
    let a3 = executed_lines(tx.executed_at);
    let a4 = seq![key(3) + kind_text(tx.kind)];
    let a5 = seq![key(4) + amount_value(tx.amount)];
    let a6 = seq![key(5) + tx.description];
    let a7 = optional_lines(6, tx.account);
    let a8 = optional_lines(7, tx.counterparty);
    let a9 = optional_lines(8, tx.category);
    lemma_join_one(key(0) + tx.id);
    lemma_join_one(key(1) + date_text(tx.posted_at));
    match tx.executed_at {
        Some(secs) => {
            lemma_join_one(key(2) + timestamp_text(secs));
        },
        None => {},
    }
    lemma_join_one(key(3) + kind_text(tx.kind));
    lemma_join_one(key(4) + amount_value(tx.amount));
    assert(key(4) + amount_value(tx.amount) == "Amount: "@ + decimal_text(tx.amount.amount) + " "@
        + tx.amount.currency);
    lemma_join_one(key(5) + tx.description);
    lemma_join_optional(6, tx.account);
    lemma_join_optional(7, tx.counterparty);
    lemma_join_optional(8, tx.category);
    crate::strings::lemma_join_lines_add(a1, a2);
    crate::strings::lemma_join_lines_add(a1 + a2, a3);
    crate::strings::lemma_join_lines_add(a1 + a2 + a3, a4);
    crate::strings::lemma_join_lines_add(a1 + a2 + a3 + a4, a5);
    crate::strings::lemma_join_lines_add(a1 + a2 + a3 + a4 + a5, a6);
    crate::strings::lemma_join_lines_add(a1 + a2 + a3 + a4 + a5 + a6, a7);
    crate::strings::lemma_join_lines_add(a1 + a2 + a3 + a4 + a5 + a6 + a7, a8);
    crate::strings::lemma_join_lines_add(a1 + a2 + a3 + a4 + a5 + a6 + a7 + a8, a9);
}

/// The text written for transactions is the lines of their blocks and the
/// separators, each with its line feed.
pub proof fn lemma_transactions_text_is_lines(txs: Seq<TransactionView>)
    ensures
        transactions_text(txs) == join_lines(transactions_lines(txs)),
    decreases txs.len(),
{
    if txs.len() == 1 {
        lemma_transaction_text_is_lines(txs[0]);
    } else if txs.len() > 1 {
        let before = txs.drop_last();
        lemma_transactions_text_is_lines(before);
        lemma_transaction_text_is_lines(txs.last());
        lemma_join_one("---"@);
        crate::strings::lemma_join_lines_add(transactions_lines(before), seq!["---"@]);
        crate::strings::lemma_join_lines_add(
            transactions_lines(before) + seq!["---"@],
            block_lines(txs.last()),
        );
    }
}

/// The text written for a batch is its lines, each with its line feed.
pub proof fn lemma_batch_text_is_lines(b: TransactionBatchView)
    ensures
        batch_text(b) == join_lines(batch_lines(b)),
{
    lemma_key_names();
    lemma_transactions_text_is_lines(b.transactions);
    match b.account_id {
        Some(id) => {
            let first = seq![key(6) + id];
            let second = seq![Seq::<char>::empty()];
            lemma_join_one(key(6) + id);
            lemma_join_one(Seq::<char>::empty());
            crate::strings::lemma_join_lines_add(first, second);
            assert(first + second == header_lines(b.account_id));
        },
        None => {},
    }
    crate::strings::lemma_join_lines_add(
        header_lines(b.account_id),
        transactions_lines(b.transactions),
    );
}

/// What the text of a safe, faithful batch is read as: the batch itself.
pub proof fn lemma_text_chars_round_trip(b: TransactionBatchView)
    requires
        safe_batch(b),
        batch_renders_faithfully(b),
    ensures
        parse_text_chars(batch_text(b)) == Ok::<TransactionBatchView, ErrorView>(b),
{
    let txs = b.transactions;
    let all = batch_lines(b);
    let start = Progress { done: Seq::empty(), state: TextStateView::Idle };
    lemma_batch_text_is_lines(b);
    lemma_transactions_are_lines(txs);
    lemma_key_names();
    match b.account_id {
        None => {
            assert(all == Seq::<Seq<char>>::empty());
            assert(split_lines(join_lines(all)) == Seq::<Seq<char>>::empty());
            assert(b.transactions == Seq::<TransactionView>::empty());
        },
        Some(id) => {
            let head = header_lines(b.account_id);
            let tail = transactions_lines(txs);
            assert(all_lines(head)) by {
                lemma_key_line_is_line(6, id);
                assert forall|i: int| 0 <= i < head.len() implies is_line(#[trigger] head[i]) by {
                    if i == 1 {
                        assert(head[i] == Seq::<char>::empty());
                        assert(!Seq::<char>::empty().contains('\n'));
                    }
                }
            }
            lemma_all_lines_add(head, tail);
            crate::strings::lemma_split_joined_lines(all);
            assert(all[0] == key(6) + id);
            lemma_own_key(6, id);
            crate::strings::lemma_trim_unchanged(id);
            assert(header_account(all[0]) == Some(id));
            let blank = seq![Seq::<char>::empty()];
            assert(all.skip(1) == blank + tail);
            lemma_walk_one(start, Seq::<char>::empty(), 2);
            lemma_step_flush(start, 2);
            lemma_walk_add(start, blank, tail, 2);
            if txs.len() == 0 {
                assert(tail == Seq::<Seq<char>>::empty());
                assert(flush(start).done == txs);
            } else {
                lemma_walk_transactions(txs, 3);
                assert(txs.drop_last().push(txs.last()) == txs);
            }
        },
    }
}

/// Text round trip: the bytes written for a safe, faithful batch read back
/// as exactly that batch.
pub proof fn lemma_text_round_trip(b: TransactionBatchView)
    requires
        safe_batch(b),
        batch_renders_faithfully(b),
    ensures
        parse_text_spec(encode_utf8(batch_text(b))) == Ok::<TransactionBatchView, ErrorView>(b),
{
    vstd::utf8::encode_utf8_valid_utf8(batch_text(b));
    vstd::utf8::encode_utf8_decode_utf8(batch_text(b));
    lemma_text_chars_round_trip(b);
}

/// Empty batch: the text written for a batch without transactions reads
/// back as a batch without transactions, if its account holds no line feed.
pub proof fn lemma_empty_batch_reads_back_empty(b: TransactionBatchView)
    requires
        b.transactions.len() == 0,
        b.account_id matches Some(id) ==> !id.contains('\n'),
    ensures
        parse_text_spec(encode_utf8(batch_text(b))) matches Ok(r) && r.transactions.len() == 0,
{
    let text = batch_text(b);
    vstd::utf8::encode_utf8_valid_utf8(text);
    vstd::utf8::encode_utf8_decode_utf8(text);
    let start = Progress { done: Seq::empty(), state: TextStateView::Idle };
    match b.account_id {
        None => {
            assert(text == Seq::<char>::empty());
        },
        Some(id) => {
            lemma_key_names();
            lemma_keys();
            let first = key(6) + id;
            assert(!first.contains('\n')) by {
                if first.contains('\n') {
                    let i = choose|i: int| 0 <= i < first.len() && first[i] == '\n';
                    if i < key(6).len() {
                        assert(key(6)[i] == '\n');
                        assert(key(6).contains('\n'));
                    } else {
                        assert(id[i - key(6).len()] == '\n');
                        assert(id.contains('\n'));
                    }
                }
            }
            let blank = Seq::<char>::empty();
            let rest = blank.push('\n');
            assert(transactions_text(b.transactions) == Seq::<char>::empty());
            assert(text == first.push('\n') + rest);
            crate::strings::lemma_split_line(first, rest);
            assert(!blank.contains('\n'));
            assert(rest == blank.push('\n') + Seq::<char>::empty());
            crate::strings::lemma_split_line(blank, Seq::<char>::empty());
            let all = split_lines(text);
            assert(all.len() == 2);
            assert(all[1] == blank);
            assert(all.skip(1) == seq![blank]);
            lemma_walk_one(start, blank, 2);
            lemma_step_flush(start, 2);
        },
    }
}

} // verus!
