//! The key-value text format.
//!
//! A batch is written as an optional `Account: <id>` line followed by an empty
//! line, then one block of `Key: value` lines per transaction, with a line
//! `---` between blocks.  Reading is a walk over the lines in one of two
//! states: no transaction open, or one being built.

use crate::calendar::{
    date_from_text, date_text, timestamp_from_text, timestamp_text, Date, Timestamp, EPOCH_DAY,
};
use crate::decimal::{decimal_from_text, decimal_text, Decimal, DecimalView};
use crate::domain::{
    batch_renders_faithfully, kind_text, transaction_renders_faithfully, views_of, Money, MoneyView,
    Transaction, TransactionBatch, TransactionBatchView, TransactionKind, TransactionView,
};
use crate::error::{parse_error, Error, ErrorView, IoErrorKind};
use crate::formats::text_round_trip::{lemma_text_round_trip, safe_batch};
use crate::strings::{
    from_chars, is_literal, lines, number_text, push_chars, push_number, push_str, split_lines,
    split_whitespace, strip_literal_prefix, strip_prefix, to_chars, trim, trim_chars, utf8_text,
    words, write_utf8,
};
use vstd::prelude::*;
use vstd::utf8::{decode_utf8, encode_utf8, valid_utf8};

verus! {

/// The name of this format in errors.
pub open spec fn format_tag() -> Seq<char> {
    "Text"@
}

/// Where the reader stands between two lines.
#[derive(Debug, Clone, PartialEq)]
pub enum TextState {
    /// No transaction is open.
    Idle,
    /// A transaction has been started and is being filled in.
    Building(Transaction),
}

/// A reader's state as the contracts speak of it.
pub enum TextStateView {
    Idle,
    Building(TransactionView),
}

impl View for TextState {
    type V = TextStateView;

    open spec fn view(&self) -> TextStateView {
        match *self {
            TextState::Idle => TextStateView::Idle,
            TextState::Building(tx) => TextStateView::Building(tx@),
        }
    }
}

/// The transactions finished so far together with the reader's state.
pub struct Progress {
    pub done: Seq<TransactionView>,
    pub state: TextStateView,
}

/// A transaction as it stands right after its `ID:` line: posted on the
/// epoch, a debit of zero in no currency, everything else empty.
pub open spec fn fresh_transaction(id: Seq<char>) -> TransactionView {
    TransactionView {
        id,
        posted_at: EPOCH_DAY as int,
        executed_at: None,
        kind: TransactionKind::Debit,
        amount: MoneyView { amount: DecimalView { mantissa: 0, scale: 0 }, currency: Seq::empty() },
        description: Seq::empty(),
        account: None,
        counterparty: None,
        category: None,
    }
}

/// Closes the open transaction, if there is one, and appends it to those done.
pub open spec fn flush(p: Progress) -> Progress {
    match p.state {
        TextStateView::Idle => p,
        TextStateView::Building(tx) => Progress {
            done: p.done.push(tx),
            state: TextStateView::Idle,
        },
    }
}

/// The start of every message about a line: `line <n>: `.
pub open spec fn line_prefix(line_no: nat) -> Seq<char> {
    "line "@ + number_text(line_no) + ": "@
}

/// The error for line `line_no` with the given detail.
pub open spec fn line_error(line_no: nat, detail: Seq<char>) -> ErrorView {
    parse_error(format_tag(), line_prefix(line_no) + detail)
}

/// What a `Key: value` line does to the open transaction.  `line` is the
/// trimmed line.  Lines with an unknown key change nothing.
#[verifier::opaque]
pub open spec fn set_field(tx: TransactionView, line: Seq<char>, line_no: nat) -> Result<
    TransactionView,
    ErrorView,
> {
    if let Some(value) = strip_prefix(line, "Date: "@) {
        match date_from_text(value) {
            Ok(days) => Ok(TransactionView { posted_at: days, ..tx }),
            Err(msg) => Err(line_error(line_no, "invalid date: "@ + msg)),
        }
    } else if let Some(value) = strip_prefix(line, "ExecutedDate: "@) {
        match timestamp_from_text(value) {
            Ok(secs) => Ok(TransactionView { executed_at: Some(secs), ..tx }),
            Err(msg) => Err(line_error(line_no, "invalid executed date: "@ + msg)),
        }
    } else if let Some(value) = strip_prefix(line, "Type: "@) {
        if value == "Credit"@ {
            Ok(TransactionView { kind: TransactionKind::Credit, ..tx })
        } else if value == "Debit"@ {
            Ok(TransactionView { kind: TransactionKind::Debit, ..tx })
        } else {
            Err(line_error(line_no, "invalid type: "@ + value))
        }
    } else if let Some(value) = strip_prefix(line, "Amount: "@) {
        let parts = split_whitespace(value);
        if parts.len() != 2 {
            Err(line_error(line_no, "invalid amount format"@))
        } else {
            match decimal_from_text(parts[0]) {
                Ok(amount) => Ok(
                    TransactionView { amount: MoneyView { amount, currency: parts[1] }, ..tx },
                ),
                Err(msg) => Err(line_error(line_no, "invalid amount: "@ + msg)),
            }
        }
    } else if let Some(value) = strip_prefix(line, "Description: "@) {
        Ok(TransactionView { description: value, ..tx })
    } else if let Some(value) = strip_prefix(line, "Account: "@) {
        Ok(TransactionView { account: Some(value), ..tx })
    } else if let Some(value) = strip_prefix(line, "Counterparty: "@) {
        Ok(TransactionView { counterparty: Some(value), ..tx })
    } else if let Some(value) = strip_prefix(line, "Category: "@) {
        Ok(TransactionView { category: Some(value), ..tx })
    } else {
        Ok(tx)
    }
}

/// What one line does to the reader.  An empty line and the line `---` close
/// the open transaction; a line `ID: <id>` closes it and opens the next; any
/// other line sets a field of the open transaction, or is passed over when
/// none is open.
#[verifier::opaque]
pub open spec fn step(p: Progress, line: Seq<char>, line_no: nat) -> Result<Progress, ErrorView> {
    let trimmed = trim(line);
    if trimmed.len() == 0 || trimmed == "---"@ {
        Ok(flush(p))
    } else if let Some(id) = strip_prefix(trimmed, "ID: "@) {
        Ok(Progress { done: flush(p).done, state: TextStateView::Building(fresh_transaction(id)) })
    } else {
        match p.state {
            TextStateView::Idle => Ok(p),
            TextStateView::Building(tx) => match set_field(tx, trimmed, line_no) {
                Ok(changed) => Ok(Progress { done: p.done, state: TextStateView::Building(changed) }),
                Err(e) => Err(e),
            },
        }
    }
}

/// The reader's walk over `lines`, the first of which has number `line_no`.
/// The first error ends it.
pub open spec fn walk(p: Progress, lines: Seq<Seq<char>>, line_no: nat) -> Result<
    Progress,
    ErrorView,
>
    decreases lines.len(),
{
    if lines.len() == 0 {
        Ok(p)
    } else {
        match step(p, lines[0], line_no) {
            Ok(next) => walk(next, lines.skip(1), line_no + 1),
            Err(e) => Err(e),
        }
    }
}

/// The account that a first line names: what follows `Account: `, trimmed.
pub open spec fn header_account(first_line: Seq<char>) -> Option<Seq<char>> {
    match strip_prefix(first_line, "Account: "@) {
        Some(value) => Some(trim(value)),
        None => None,
    }
}

/// The batch that a text stands for.  The first line is the header, whether
/// or not it names an account; the walk starts at the second line; what is
/// still open at the end is closed.  A text without lines is the empty batch.
pub open spec fn parse_text_chars(text: Seq<char>) -> Result<TransactionBatchView, ErrorView> {
    let all = split_lines(text);
    if all.len() == 0 {
        Ok(TransactionBatchView { account_id: None, transactions: Seq::empty() })
    } else {
        match walk(Progress { done: Seq::empty(), state: TextStateView::Idle }, all.skip(1), 2) {
            Ok(end) => Ok(
                TransactionBatchView {
                    account_id: header_account(all[0]),
                    transactions: flush(end).done,
                },
            ),
            Err(e) => Err(e),
        }
    }
}

/// The batch that the bytes stand for: they must be UTF-8, and are then read
/// as text.
pub open spec fn parse_text_spec(input: Seq<u8>) -> Result<TransactionBatchView, ErrorView> {
    if valid_utf8(input) {
        parse_text_chars(decode_utf8(input))
    } else {
        Err(ErrorView::Io(IoErrorKind::InvalidData))
    }
}

/// A line of output: the text and a line feed.
pub open spec fn line(text: Seq<char>) -> Seq<char> {
    text.push('\n')
}

/// A `Key: value` line for a value that may be absent.
pub open spec fn optional_line(key: Seq<char>, value: Option<Seq<char>>) -> Seq<char> {
    match value {
        Some(v) => line(key + v),
        None => Seq::empty(),
    }
}

/// The block of lines that stands for one transaction.
pub open spec fn transaction_text(tx: TransactionView) -> Seq<char> {
    line("ID: "@ + tx.id) + line("Date: "@ + date_text(tx.posted_at)) + (match tx.executed_at {
        Some(secs) => line("ExecutedDate: "@ + timestamp_text(secs)),
        None => Seq::empty(),
    }) + line("Type: "@ + kind_text(tx.kind)) + line(
        "Amount: "@ + decimal_text(tx.amount.amount) + " "@ + tx.amount.currency,
    ) + line("Description: "@ + tx.description) + optional_line("Account: "@, tx.account)
        + optional_line("Counterparty: "@, tx.counterparty) + optional_line(
        "Category: "@,
        tx.category,
    )
}

/// The blocks of all the transactions, with a line `---` between neighbours.
pub open spec fn transactions_text(txs: Seq<TransactionView>) -> Seq<char>
    decreases txs.len(),
{
    if txs.len() == 0 {
        Seq::empty()
    } else if txs.len() == 1 {
        transaction_text(txs[0])
    } else {
        transactions_text(txs.drop_last()) + line("---"@) + transaction_text(txs.last())
    }
}

/// The header: the account line and an empty line, where there is an account.
pub open spec fn header_text(account_id: Option<Seq<char>>) -> Seq<char> {
    match account_id {
        Some(id) => line("Account: "@ + id) + line(Seq::empty()),
        None => Seq::empty(),
    }
}

/// The text that stands for a batch.
pub open spec fn batch_text(b: TransactionBatchView) -> Seq<char> {
    header_text(b.account_id) + transactions_text(b.transactions)
}

/// The transaction that an `ID:` line opens.
fn open_transaction(id: Vec<char>) -> (tx: Transaction)
    ensures
        tx@ == fresh_transaction(id@),
{
    Transaction {
        id: from_chars(&id),
        posted_at: Date::epoch(),
        executed_at: None,
        kind: TransactionKind::Debit,
        amount: Money { amount: Decimal::zero(), currency: String::new() },
        description: String::new(),
        account: None,
        counterparty: None,
        category: None,
    }
}

/// The parse error for line `line_no` whose detail is `head` followed by
/// `tail`: its message is `line <line_no>: <head><tail>`.
pub fn error_at(line_no: u128, head: &str, tail: &Vec<char>) -> (e: Error)
    ensures
        e@ == line_error(line_no as nat, head@ + tail@),
{
    let mut message: Vec<char> = Vec::new();
    push_str(&mut message, "line ");
    push_number(&mut message, line_no);
    push_str(&mut message, ": ");
    push_str(&mut message, head);
    push_chars(&mut message, tail);
    assert(message@ == line_prefix(line_no as nat) + (head@ + tail@));
    Error::parse("Text", from_chars(&message))
}

/// Applies a trimmed `Key: value` line to the open transaction.
fn apply_field(tx: Transaction, line: &Vec<char>, line_no: u128) -> (r: Result<Transaction, Error>)
    ensures
        match set_field(tx@, line@, line_no as nat) {
            Ok(changed) => r matches Ok(t) && t@ == changed,
            Err(e) => r matches Err(err) && err@ == e,
        },
{
    proof {
        reveal(set_field);
    }
    let mut tx = tx;
    if let Some(value) = strip_literal_prefix(line, "Date: ") {
        match Date::parse_from_str(from_chars(&value).as_str()) {
            Ok(date) => {
                tx.posted_at = date;
                Ok(tx)
            },
            Err(msg) => Err(error_at(line_no, "invalid date: ", &to_chars(msg.as_str()))),
        }
    } else if let Some(value) = strip_literal_prefix(line, "ExecutedDate: ") {
        match Timestamp::parse_from_str(from_chars(&value).as_str()) {
            Ok(at) => {
                tx.executed_at = Some(at);
                Ok(tx)
            },
            Err(msg) => Err(error_at(line_no, "invalid executed date: ", &to_chars(msg.as_str()))),
        }
    } else if let Some(value) = strip_literal_prefix(line, "Type: ") {
        if is_literal(&value, "Credit") {
            tx.kind = TransactionKind::Credit;
            Ok(tx)
        } else if is_literal(&value, "Debit") {
            tx.kind = TransactionKind::Debit;
            Ok(tx)
        } else {
            Err(error_at(line_no, "invalid type: ", &value))
        }
    } else if let Some(value) = strip_literal_prefix(line, "Amount: ") {
        let parts = words(&value);
        if parts.len() != 2 {
            let nothing: Vec<char> = Vec::new();
            assert("invalid amount format"@ + nothing@ == "invalid amount format"@);
            Err(error_at(line_no, "invalid amount format", &nothing))
        } else {
            match Decimal::from_str(from_chars(&parts[0]).as_str()) {
                Ok(amount) => {
                    tx.amount = Money { amount, currency: from_chars(&parts[1]) };
                    Ok(tx)
                },
                Err(msg) => Err(error_at(line_no, "invalid amount: ", &to_chars(msg.as_str()))),
            }
        }
    } else if let Some(value) = strip_literal_prefix(line, "Description: ") {
        tx.description = from_chars(&value);
        Ok(tx)
    } else if let Some(value) = strip_literal_prefix(line, "Account: ") {
        tx.account = Some(from_chars(&value));
        Ok(tx)
    } else if let Some(value) = strip_literal_prefix(line, "Counterparty: ") {
        tx.counterparty = Some(from_chars(&value));
        Ok(tx)
    } else if let Some(value) = strip_literal_prefix(line, "Category: ") {
        tx.category = Some(from_chars(&value));
        Ok(tx)
    } else {
        Ok(tx)
    }
}

/// Feeds one line to the reader: `state` is where it stands, `done` holds the
/// transactions finished so far, and the result is where it stands after the
/// line.  On an error `done` is left as it was.
fn step_chars(
    state: TextState,
    line: &Vec<char>,
    line_no: u128,
    done: &mut Vec<Transaction>,
) -> (r: Result<TextState, Error>)
    ensures
        match step(Progress { done: views_of(old(done)@), state: state@ }, line@, line_no as nat) {
            Ok(next) => r matches Ok(s) && s@ == next.state && views_of(final(done)@) == next.done,
            Err(e) => r matches Err(err) && err@ == e && final(done)@ == old(done)@,
        },
{
    proof {
        reveal(step);
    }
    let trimmed = trim_chars(line);
    if trimmed.len() == 0 || is_literal(&trimmed, "---") {
        match state {
            TextState::Idle => {},
            TextState::Building(tx) => {
                proof {
                    assert(views_of(old(done)@.push(tx)) == views_of(old(done)@).push(tx@));
                }
                done.push(tx);
            },
        }
        Ok(TextState::Idle)
    } else if let Some(id) = strip_literal_prefix(&trimmed, "ID: ") {
        match state {
            TextState::Idle => {},
            TextState::Building(tx) => {
                proof {
                    assert(views_of(old(done)@.push(tx)) == views_of(old(done)@).push(tx@));
                }
                done.push(tx);
            },
        }
        Ok(TextState::Building(open_transaction(id)))
    } else {
        match state {
            TextState::Idle => Ok(TextState::Idle),
            TextState::Building(tx) => match apply_field(tx, &trimmed, line_no) {
                Ok(changed) => Ok(TextState::Building(changed)),
                Err(e) => Err(e),
            },
        }
    }
}

/// Feeds one line of text to the reader.  `state` is where the reader stands,
/// `done` holds the transactions finished so far, `line_no` is the line's
/// number for error messages.  The result is the state after the line; a
/// transaction that the line closes is appended to `done`.
pub fn text_step(state: TextState, line: &str, line_no: usize, done: &mut Vec<Transaction>) -> (r:
    Result<TextState, Error>)
    ensures
        match step(Progress { done: views_of(old(done)@), state: state@ }, line@, line_no as nat) {
            Ok(next) => r matches Ok(s) && s@ == next.state && views_of(final(done)@) == next.done,
            Err(e) => r matches Err(err) && err@ == e && final(done)@ == old(done)@,
        },
{
    let chars = to_chars(line);
    step_chars(state, &chars, line_no as u128, done)
}

/// Reads a batch from bytes in the text format.
pub fn parse_text(input: &[u8]) -> (r: Result<TransactionBatch, Error>)
    ensures
        match parse_text_spec(input@) {
            Ok(batch) => r matches Ok(b) && b@ == batch,
            Err(e) => r matches Err(err) && err@ == e,
        },
{
    let text = match utf8_text(input) {
        Ok(text) => to_chars(text),
        Err(_) => {
            return Err(Error::Io(IoErrorKind::InvalidData));
        },
    };
    let all = lines(&text);
    if all.len() == 0 {
        let none: Vec<Transaction> = Vec::new();
        assert(views_of(none@) == Seq::<TransactionView>::empty());
        return Ok(TransactionBatch { account_id: None, transactions: none });
    }
    let account_id = match strip_literal_prefix(&all[0], "Account: ") {
        Some(value) => Some(from_chars(&trim_chars(&value))),
        None => None,
    };
    let ghost spec_lines = split_lines(text@);
    let mut done: Vec<Transaction> = Vec::new();
    let mut state = TextState::Idle;
    let mut i: usize = 1;
    assert(views_of(done@) == Seq::<TransactionView>::empty());
    while i < all.len()
        invariant
            1 <= i <= all.len(),
            valid_utf8(input@),
            text@ == decode_utf8(input@),
            spec_lines == split_lines(text@),
            all@.len() == spec_lines.len(),
            forall|j: int| 0 <= j < all@.len() ==> (#[trigger] all@[j])@ == spec_lines[j],
            walk(Progress { done: Seq::empty(), state: TextStateView::Idle }, spec_lines.skip(1), 2)
                == walk(
                Progress { done: views_of(done@), state: state@ },
                spec_lines.skip(i as int),
                (i + 1) as nat,
            ),
        decreases all.len() - i,
    {
        proof {
            assert(spec_lines.skip(i as int)[0] == spec_lines[i as int]);
            assert(spec_lines.skip(i as int).skip(1) == spec_lines.skip(i + 1));
        }
        match step_chars(state, &all[i], i as u128 + 1, &mut done) {
            Ok(next) => {
                state = next;
            },
            Err(e) => {
                return Err(e);
            },
        }
        i = i + 1;
    }
    match state {
        TextState::Idle => {},
        TextState::Building(tx) => {
            proof {
                assert(views_of(done@.push(tx)) == views_of(done@).push(tx@));
            }
            done.push(tx);
        },
    }
    Ok(TransactionBatch { account_id, transactions: done })
}

/// Appends `key` and `value` as one line.
fn push_line(out: &mut Vec<char>, key: &str, value: &str)
    ensures
        final(out)@ == old(out)@ + line(key@ + value@),
{
    push_str(out, key);
    push_str(out, value);
    out.push('\n');
    assert(out@ == old(out)@ + line(key@ + value@));
}

/// Appends the line for a value that may be absent.
fn push_optional_line(out: &mut Vec<char>, key: &str, value: &Option<String>)
    ensures
        final(out)@ == old(out)@ + optional_line(key@, crate::domain::text_of(*value)),
{
    match value {
        Some(v) => push_line(out, key, v.as_str()),
        None => {
            assert(out@ + Seq::<char>::empty() == out@);
        },
    }
}

/// Appends the block of lines for one transaction.
fn push_transaction(out: &mut Vec<char>, tx: &Transaction)
    ensures
        final(out)@ == old(out)@ + transaction_text(tx@),
        transaction_renders_faithfully(tx@),
{
    tx.note_valid();
    let ghost start = out@;
    push_line(out, "ID: ", tx.id.as_str());
    let ghost block = line("ID: "@ + tx@.id);
    push_line(out, "Date: ", tx.posted_at.to_string().as_str());
    proof {
        let next = block + line("Date: "@ + date_text(tx@.posted_at));
        assert(out@ == start + next);
        block = next;
    }
    match tx.executed_at {
        Some(at) => {
            push_line(out, "ExecutedDate: ", at.to_string().as_str());
            proof {
                let next = block + line("ExecutedDate: "@ + timestamp_text(at@));
                assert(out@ == start + next);
                block = next;
            }
        },
        None => {
            proof {
                let next = block + Seq::<char>::empty();
                assert(out@ == start + next);
                block = next;
            }
        },
    }
    push_line(out, "Type: ", tx.kind.as_str());
    proof {
        let next = block + line("Type: "@ + kind_text(tx@.kind));
        assert(out@ == start + next);
        block = next;
    }
    let ghost before_amount = out@;
    push_str(out, "Amount: ");
    push_str(out, tx.amount.amount.to_string().as_str());
    push_str(out, " ");
    push_str(out, tx.amount.currency.as_str());
    out.push('\n');
    proof {
        let amount_line = line(
            "Amount: "@ + decimal_text(tx@.amount.amount) + " "@ + tx@.amount.currency,
        );
        assert(out@ == before_amount + amount_line);
        let next = block + amount_line;
        assert(out@ == start + next);
        block = next;
    }
    push_line(out, "Description: ", tx.description.as_str());
    proof {
        let next = block + line("Description: "@ + tx@.description);
        assert(out@ == start + next);
        block = next;
    }
    push_optional_line(out, "Account: ", &tx.account);
    proof {
        let next = block + optional_line("Account: "@, tx@.account);
        assert(out@ == start + next);
        block = next;
    }
    push_optional_line(out, "Counterparty: ", &tx.counterparty);
    proof {
        let next = block + optional_line("Counterparty: "@, tx@.counterparty);
        assert(out@ == start + next);
        block = next;
    }
    push_optional_line(out, "Category: ", &tx.category);
    proof {
        let next = block + optional_line("Category: "@, tx@.category);
        assert(out@ == start + next);
        block = next;
    }
    assert(block == transaction_text(tx@));
}

/// Whether the bytes written for a batch read back as exactly that batch.
pub open spec fn reads_back(b: TransactionBatchView) -> bool {
    parse_text_spec(encode_utf8(batch_text(b))) == Ok::<TransactionBatchView, ErrorView>(b)
}

/// Writes a batch in the text format, appending to `writer`.
///
/// What is written for a safe batch reads back as exactly that batch,
/// account included.
pub fn write_text(batch: &TransactionBatch, writer: &mut Vec<u8>) -> (r: Result<(), Error>)
    ensures
        r is Ok,
        final(writer)@ == old(writer)@ + encode_utf8(batch_text(batch@)),
        batch_renders_faithfully(batch@),
        safe_batch(batch@) ==> reads_back(batch@),
{
    let mut out: Vec<char> = Vec::new();
    match &batch.account_id {
        Some(id) => {
            push_line(&mut out, "Account: ", id.as_str());
            out.push('\n');
        },
        None => {},
    }
    assert(out@ == header_text(batch@.account_id));
    let ghost txs = batch@.transactions;
    let mut i: usize = 0;
    assert(txs.take(0) == Seq::<TransactionView>::empty());
    while i < batch.transactions.len()
        invariant
            i <= batch.transactions.len(),
            txs == batch@.transactions,
            txs.len() == batch.transactions.len(),
            out@ == header_text(batch@.account_id) + transactions_text(txs.take(i as int)),
            forall|j: int| 0 <= j < i ==> transaction_renders_faithfully(#[trigger] txs[j]),
        decreases batch.transactions.len() - i,
    {
        if i > 0 {
            push_str(&mut out, "---");
            out.push('\n');
        }
        push_transaction(&mut out, &batch.transactions[i]);
        proof {
            let upto = txs.take(i + 1);
            assert(upto.drop_last() == txs.take(i as int));
            assert(upto.last() == batch.transactions[i as int]@);
            assert(i == 0 ==> transactions_text(txs.take(0)) == Seq::<char>::empty());
        }
        i = i + 1;
    }
    assert(txs.take(i as int) == txs);
    proof {
        if safe_batch(batch@) {
            lemma_text_round_trip(batch@);
        }
    }
    write_utf8(writer, &out);
    Ok(())
}

/// Flush on a new id: a line that, trimmed, begins with `ID: ` closes the
/// open transaction, if there is one, and opens a new one, whatever came
/// before it.  Two such lines in a row give two transactions.
pub proof fn lemma_id_line_flushes(p: Progress, text: Seq<char>, line_no: nat)
    requires
        strip_prefix(trim(text), "ID: "@) is Some,
    ensures
        step(p, text, line_no) == Ok::<Progress, ErrorView>(
            Progress {
                done: flush(p).done,
                state: TextStateView::Building(
                    fresh_transaction(strip_prefix(trim(text), "ID: "@)->0),
                ),
            },
        ),
        p.state matches TextStateView::Building(open) ==> flush(p).done == p.done.push(open),
        p.state is Idle ==> flush(p).done == p.done,
{
    reveal(step);
    reveal_strlit("ID: ");
    reveal_strlit("---");
    let t = trim(text);
    assert(t.len() >= 4);
    assert(t.subrange(0, 4) == "ID: "@);
    assert(t.subrange(0, 4)[0] == t[0]);
    assert(t != "---"@);
}

/// Flush on a delimiter: an empty line, a line of whitespace and the line
/// `---` close the open transaction, if there is one.
pub proof fn lemma_delimiter_flushes(p: Progress, text: Seq<char>, line_no: nat)
    requires
        trim(text).len() == 0 || trim(text) == "---"@,
    ensures
        step(p, text, line_no) == Ok::<Progress, ErrorView>(flush(p)),
        p.state matches TextStateView::Building(open) ==> flush(p) == (Progress {
            done: p.done.push(open),
            state: TextStateView::Idle,
        }),
        p.state is Idle ==> flush(p) == p,
{
    reveal(step);
}

/// Flush at the end: what is still open when the lines run out is part of
/// the batch.
pub proof fn lemma_end_flushes(text: Seq<char>)
    requires
        split_lines(text).len() > 0,
    ensures
        match walk(
            Progress { done: Seq::empty(), state: TextStateView::Idle },
            split_lines(text).skip(1),
            2,
        ) {
            Ok(end) => parse_text_chars(text) matches Ok(b) && b.transactions == flush(end).done,
            Err(e) => parse_text_chars(text) == Err::<TransactionBatchView, ErrorView>(e),
        },
{
}

} // verus!
