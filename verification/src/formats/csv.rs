//! The CSV format.
//!
//! The first line is a header.  Every other line that is not blank is one
//! transaction, of at least seven comma-separated fields.  A field may stand
//! in double quotes; inside them a comma is an ordinary character and two
//! double quotes stand for one.

use crate::calendar::{
    date_from_text, date_text, timestamp_from_text, timestamp_text, Date, Timestamp,
};
use crate::decimal::{decimal_from_text, decimal_text, Decimal};
use crate::domain::{
    batch_renders_faithfully, kind_from_text, kind_text, transaction_renders_faithfully, views_of,
    Money, MoneyView, Transaction, TransactionBatch, TransactionBatchView, TransactionKind,
    TransactionView,
};
use crate::error::{parse_error, Error, ErrorView, IoErrorKind};
use crate::formats::csv_round_trip::{lemma_csv_round_trip, safe_batch, without_account};
use crate::strings::{
    from_chars, lines, number_text, push_chars, push_number, push_str, slice_chars, split_lines,
    starts_with, strip_literal_prefix, to_chars, trim, trim_chars, utf8_text, write_utf8,
};
use vstd::prelude::*;
use vstd::utf8::{decode_utf8, encode_utf8, valid_utf8};

verus! {

/// The name of this format in errors.
pub open spec fn format_tag() -> Seq<char> {
    "CSV"@
}

/// The header line that is written.
pub open spec fn header() -> Seq<char> {
    "TransactionId,PostedDate,ExecutedDate,Type,Amount,Currency,Description,Account,Counterparty,Category"@
}

/// What a header line must begin with to be accepted.
pub open spec fn header_token() -> Seq<char> {
    "TransactionId"@
}

/// The state of the walk that splits a line into fields: the fields that are
/// complete, the characters of the field being read, and whether the walk is
/// inside double quotes.
pub struct Scan {
    pub fields: Seq<Seq<char>>,
    pub current: Seq<char>,
    pub in_quotes: bool,
}

/// The walk over what is left of a line.  Outside quotes a double quote opens
/// a quoted stretch and a comma ends the field.  Inside quotes two double
/// quotes in a row are one double quote of the field, and a single one closes
/// the stretch.  Every other character belongs to the field.
pub open spec fn scan(rest: Seq<char>, s: Scan) -> Scan
    decreases rest.len(),
{
    if rest.len() == 0 {
        s
    } else if rest[0] == '"' {
        if !s.in_quotes {
            scan(rest.skip(1), Scan { in_quotes: true, ..s })
        } else if rest.len() > 1 && rest[1] == '"' {
            scan(rest.skip(2), Scan { current: s.current.push('"'), ..s })
        } else {
            scan(rest.skip(1), Scan { in_quotes: false, ..s })
        }
    } else if rest[0] == ',' && !s.in_quotes {
        scan(
            rest.skip(1),
            Scan { fields: s.fields.push(s.current), current: Seq::empty(), in_quotes: false },
        )
    } else {
        scan(rest.skip(1), Scan { current: s.current.push(rest[0]), ..s })
    }
}

/// The fields of a line, quotes removed.  There is always at least one.
pub open spec fn csv_fields(line: Seq<char>) -> Seq<Seq<char>> {
    let end = scan(line, Scan { fields: Seq::empty(), current: Seq::empty(), in_quotes: false });
    end.fields.push(end.current)
}

/// Whether a field has to be written in quotes: it holds a comma, a double
/// quote or a line feed.
pub open spec fn needs_quoting(field: Seq<char>) -> bool {
    field.contains(',') || field.contains('"') || field.contains('\n')
}

/// A field with each of its double quotes written twice.
pub open spec fn double_quotes(field: Seq<char>) -> Seq<char>
    decreases field.len(),
{
    if field.len() == 0 {
        Seq::empty()
    } else if field[0] == '"' {
        seq!['"', '"'] + double_quotes(field.skip(1))
    } else {
        seq![field[0]] + double_quotes(field.skip(1))
    }
}

/// A field as it is written: in quotes with its double quotes doubled where
/// it needs quoting, and unchanged where it does not.
#[verifier::opaque]
pub open spec fn escape_field(field: Seq<char>) -> Seq<char> {
    if needs_quoting(field) {
        seq!['"'] + double_quotes(field) + seq!['"']
    } else {
        field
    }
}

/// A field trimmed and, where a double quote then stands at both of its
/// ends, without those two.
pub open spec fn unescape_field(field: Seq<char>) -> Seq<char> {
    let t = trim(field);
    if t.len() >= 2 && t[0] == '"' && t.last() == '"' {
        t.subrange(1, t.len() - 1)
    } else {
        t
    }
}

/// The text of a field of free text: unescaped, then trimmed.
pub open spec fn text_field(field: Seq<char>) -> Seq<char> {
    trim(unescape_field(field))
}

/// The text of the optional field at index `i`: absent where the line has no
/// such field or the field's text is empty.
pub open spec fn optional_field(fields: Seq<Seq<char>>, i: int) -> Option<Seq<char>> {
    if i < fields.len() && text_field(fields[i]).len() > 0 {
        Some(text_field(fields[i]))
    } else {
        None
    }
}

/// The start of every message about a line: `line <n>: `.
pub open spec fn line_prefix(line_no: nat) -> Seq<char> {
    "line "@ + number_text(line_no) + ": "@
}

/// The error for line `line_no` with the given detail.
pub open spec fn line_error(line_no: nat, detail: Seq<char>) -> ErrorView {
    parse_error(format_tag(), line_prefix(line_no) + detail)
}

/// The execution time that a field stands for: none where the trimmed field
/// is empty.
pub open spec fn executed_field(field: Seq<char>) -> Result<Option<int>, Seq<char>> {
    if trim(field).len() == 0 {
        Ok(None)
    } else {
        match timestamp_from_text(trim(field)) {
            Ok(secs) => Ok(Some(secs)),
            Err(msg) => Err(msg),
        }
    }
}

/// The transaction that the fields of line `line_no` stand for.  The fields
/// are, in order: id, posted date, execution time, kind, amount, currency,
/// description and, optionally, account, counterparty and category.  The
/// first field at fault decides the error.
pub open spec fn record_of_fields(fields: Seq<Seq<char>>, line_no: nat) -> Result<
    TransactionView,
    ErrorView,
> {
    if fields.len() < 7 {
        Err(line_error(line_no, "insufficient fields (expected at least 7)"@))
    } else {
        match date_from_text(trim(fields[1])) {
            Err(msg) => Err(line_error(line_no, "invalid posted date: "@ + msg)),
            Ok(posted_at) => match executed_field(fields[2]) {
                Err(msg) => Err(line_error(line_no, "invalid executed date: "@ + msg)),
                Ok(executed_at) => match kind_from_text(trim(fields[3])) {
                    None => Err(
                        line_error(
                            line_no,
                            "invalid transaction type: Matching variant not found"@,
                        ),
                    ),
                    Some(kind) => match decimal_from_text(trim(fields[4])) {
                        Err(msg) => Err(line_error(line_no, "invalid amount: "@ + msg)),
                        Ok(amount) => Ok(
                            TransactionView {
                                id: text_field(fields[0]),
                                posted_at,
                                executed_at,
                                kind,
                                amount: MoneyView { amount, currency: text_field(fields[5]) },
                                description: text_field(fields[6]),
                                account: optional_field(fields, 7),
                                counterparty: optional_field(fields, 8),
                                category: optional_field(fields, 9),
                            },
                        ),
                    },
                },
            },
        }
    }
}

/// The transaction that line `line_no` stands for.
pub open spec fn record(line: Seq<char>, line_no: nat) -> Result<TransactionView, ErrorView> {
    record_of_fields(csv_fields(line), line_no)
}

/// The transactions of `lines`, the first of which has number `line_no`,
/// appended to `acc`.  Blank lines are passed over; the first line at fault
/// ends the walk with its error.
pub open spec fn records(acc: Seq<TransactionView>, lines: Seq<Seq<char>>, line_no: nat) -> Result<
    Seq<TransactionView>,
    ErrorView,
>
    decreases lines.len(),
{
    if lines.len() == 0 {
        Ok(acc)
    } else if trim(lines[0]).len() == 0 {
        records(acc, lines.skip(1), line_no + 1)
    } else {
        match record(lines[0], line_no) {
            Ok(tx) => records(acc.push(tx), lines.skip(1), line_no + 1),
            Err(e) => Err(e),
        }
    }
}

/// The batch that a text stands for.  It has no account.
pub open spec fn parse_csv_chars(text: Seq<char>) -> Result<TransactionBatchView, ErrorView> {
    let all = split_lines(text);
    if all.len() == 0 {
        Err(parse_error(format_tag(), "empty file"@))
    } else if !starts_with(all[0], header_token()) {
        Err(parse_error(format_tag(), "invalid header: "@ + all[0]))
    } else {
        match records(Seq::empty(), all.skip(1), 2) {
            Ok(txs) => Ok(TransactionBatchView { account_id: None, transactions: txs }),
            Err(e) => Err(e),
        }
    }
}

/// The batch that the bytes stand for: they must be UTF-8, and are then read
/// as text.
pub open spec fn parse_csv_spec(input: Seq<u8>) -> Result<TransactionBatchView, ErrorView> {
    if valid_utf8(input) {
        parse_csv_chars(decode_utf8(input))
    } else {
        Err(ErrorView::Io(IoErrorKind::InvalidData))
    }
}

/// The text of a value that may be absent: empty where it is.
pub open spec fn or_empty(value: Option<Seq<char>>) -> Seq<char> {
    match value {
        Some(v) => v,
        None => Seq::empty(),
    }
}

/// The execution time as it is written: empty where there is none.
pub open spec fn executed_text(executed_at: Option<int>) -> Seq<char> {
    match executed_at {
        Some(secs) => timestamp_text(secs),
        None => Seq::empty(),
    }
}

/// The line, line feed included, that stands for one transaction.
pub open spec fn record_text(tx: TransactionView) -> Seq<char> {
    escape_field(tx.id) + ","@ + date_text(tx.posted_at) + ","@ + executed_text(tx.executed_at)
        + ","@ + kind_text(tx.kind) + ","@ + decimal_text(tx.amount.amount) + ","@ + escape_field(
        tx.amount.currency,
    ) + ","@ + escape_field(tx.description) + ","@ + escape_field(or_empty(tx.account)) + ","@
        + escape_field(or_empty(tx.counterparty)) + ","@ + escape_field(or_empty(tx.category))
        + "\n"@
}

/// The lines of all the transactions.
pub open spec fn records_text(txs: Seq<TransactionView>) -> Seq<char>
    decreases txs.len(),
{
    if txs.len() == 0 {
        Seq::empty()
    } else {
        records_text(txs.drop_last()) + record_text(txs.last())
    }
}

/// The text that stands for a batch: the header line, then the transactions.
pub open spec fn csv_text(b: TransactionBatchView) -> Seq<char> {
    header() + "\n"@ + records_text(b.transactions)
}

/// Splits a line into its fields.
fn split_fields(line: &Vec<char>) -> (r: Vec<Vec<char>>)
    ensures
        r@.len() == csv_fields(line@).len(),
        forall|i: int| 0 <= i < r@.len() ==> (#[trigger] r@[i])@ == csv_fields(line@)[i],
{
    let mut fields: Vec<Vec<char>> = Vec::new();
    let ghost mut done: Seq<Seq<char>> = Seq::empty();
    let mut current: Vec<char> = Vec::new();
    let mut in_quotes = false;
    let mut i: usize = 0;
    assert(line@.skip(0) == line@);
    while i < line.len()
        invariant
            i <= line.len(),
            fields@.len() == done.len(),
            forall|j: int| 0 <= j < fields@.len() ==> (#[trigger] fields@[j])@ == done[j],
            scan(line@, Scan { fields: Seq::empty(), current: Seq::empty(), in_quotes: false })
                == scan(
                line@.skip(i as int),
                Scan { fields: done, current: current@, in_quotes },
            ),
        decreases line.len() - i,
    {
        let ghost rest = line@.skip(i as int);
        let c = line[i];
        assert(rest[0] == c);
        assert(rest.skip(1) == line@.skip(i + 1));
        if c == '"' {
            if !in_quotes {
                in_quotes = true;
                i = i + 1;
            } else if i + 1 < line.len() && line[i + 1] == '"' {
                assert(rest[1] == line@[i + 1]);
                assert(rest.skip(2) == line@.skip(i + 2));
                current.push('"');
                i = i + 2;
            } else {
                assert(rest.len() > 1 ==> rest[1] == line@[i + 1]);
                in_quotes = false;
                i = i + 1;
            }
        } else if c == ',' && !in_quotes {
            proof {
                done = done.push(current@);
            }
            fields.push(current);
            current = Vec::new();
            i = i + 1;
        } else {
            current.push(c);
            i = i + 1;
        }
    }
    proof {
        done = done.push(current@);
    }
    fields.push(current);
    fields
}

/// Splits a line into its fields, taking account of quotes.
pub fn parse_csv_fields(line: &str) -> (r: Vec<String>)
    ensures
        r@.len() == csv_fields(line@).len(),
        forall|i: int| 0 <= i < r@.len() ==> (#[trigger] r@[i])@ == csv_fields(line@)[i],
{
    let fields = split_fields(&to_chars(line));
    let mut r: Vec<String> = Vec::new();
    let mut i: usize = 0;
    while i < fields.len()
        invariant
            i <= fields.len(),
            r@.len() == i,
            forall|j: int| 0 <= j < i ==> (#[trigger] r@[j])@ == fields@[j]@,
        decreases fields.len() - i,
    {
        r.push(from_chars(&fields[i]));
        i = i + 1;
    }
    r
}

/// Doubling the quotes of a text that ends in `c` doubles those before it
/// and then writes `c`, twice where it is a double quote.
proof fn lemma_double_quotes_push(field: Seq<char>, c: char)
    ensures
        double_quotes(field.push(c)) == double_quotes(field) + (if c == '"' {
            seq!['"', '"']
        } else {
            seq![c]
        }),
    decreases field.len(),
{
    if field.len() == 0 {
        assert(field.push(c).skip(1) == Seq::<char>::empty());
        assert(double_quotes(field.push(c).skip(1)) == Seq::<char>::empty());
    } else {
        assert(field.push(c).skip(1) == field.skip(1).push(c));
        lemma_double_quotes_push(field.skip(1), c);
    }
}

/// Whether a text holds the character `c`.
fn holds(text: &Vec<char>, c: char) -> (r: bool)
    ensures
        r == text@.contains(c),
{
    let mut i: usize = 0;
    while i < text.len()
        invariant
            i <= text.len(),
            forall|j: int| 0 <= j < i ==> text@[j] != c,
        decreases text.len() - i,
    {
        if text[i] == c {
            return true;
        }
        i = i + 1;
    }
    false
}

/// Appends a field as it is written.
fn push_escaped(out: &mut Vec<char>, field: &Vec<char>)
    ensures
        final(out)@ == old(out)@ + escape_field(field@),
{
    proof {
        reveal(escape_field);
    }
    if holds(field, ',') || holds(field, '"') || holds(field, '\n') {
        let ghost start = out@;
        out.push('"');
        let mut i: usize = 0;
        assert(field@.take(0) == Seq::<char>::empty());
        while i < field.len()
            invariant
                i <= field.len(),
                out@ == start + seq!['"'] + double_quotes(field@.take(i as int)),
            decreases field.len() - i,
        {
            let c = field[i];
            proof {
                lemma_double_quotes_push(field@.take(i as int), c);
                assert(field@.take(i + 1) == field@.take(i as int).push(c));
            }
            if c == '"' {
                out.push('"');
                out.push('"');
            } else {
                out.push(c);
            }
            i = i + 1;
        }
        assert(field@.take(i as int) == field@);
        out.push('"');
        assert(out@ == start + (seq!['"'] + double_quotes(field@) + seq!['"']));
    } else {
        push_chars(out, field);
    }
}

/// A field as it is written: in double quotes, with its own double quotes
/// doubled, where it holds a comma, a double quote or a line feed; unchanged
/// otherwise.
pub fn escape_csv_field(field: &str) -> (r: String)
    ensures
        r@ == escape_field(field@),
{
    let mut out: Vec<char> = Vec::new();
    push_escaped(&mut out, &to_chars(field));
    from_chars(&out)
}

/// Trims a field and removes the double quotes around it, if there are any.
fn unescape(field: &Vec<char>) -> (r: Vec<char>)
    ensures
        r@ == unescape_field(field@),
{
    let t = trim_chars(field);
    if t.len() >= 2 && t[0] == '"' && t[t.len() - 1] == '"' {
        slice_chars(&t, 1, t.len() - 1)
    } else {
        t
    }
}

/// A field trimmed and without the double quotes around it, if there are any.
pub fn unescape_csv_field(field: &str) -> (r: String)
    ensures
        r@ == unescape_field(field@),
{
    from_chars(&unescape(&to_chars(field)))
}

/// The text of a field of free text.
fn text_of_field(field: &Vec<char>) -> (r: String)
    ensures
        r@ == text_field(field@),
{
    from_chars(&trim_chars(&unescape(field)))
}

/// The text of the optional field at index `i`.
fn optional_text(fields: &Vec<Vec<char>>, i: usize) -> (r: Option<String>)
    ensures
        crate::domain::text_of(r) == optional_field(
            Seq::new(fields@.len(), |j: int| fields@[j]@),
            i as int,
        ),
{
    if i < fields.len() {
        let value = trim_chars(&unescape(&fields[i]));
        if value.len() == 0 {
            None
        } else {
            Some(from_chars(&value))
        }
    } else {
        None
    }
}

/// The parse error for line `line_no` whose detail is `head` followed by
/// `tail`: its message is `line <line_no>: <head><tail>`.
pub fn error_at(line_no: u128, head: &str, tail: &str) -> (e: Error)
    ensures
        e@ == line_error(line_no as nat, head@ + tail@),
{
    let mut message: Vec<char> = Vec::new();
    push_str(&mut message, "line ");
    push_number(&mut message, line_no);
    push_str(&mut message, ": ");
    push_str(&mut message, head);
    push_str(&mut message, tail);
    assert(message@ == line_prefix(line_no as nat) + (head@ + tail@));
    Error::parse("CSV", from_chars(&message))
}

/// Reads the transaction that stands on line `line_no`.
fn parse_record(line: &Vec<char>, line_no: u128) -> (r: Result<Transaction, Error>)
    ensures
        match record(line@, line_no as nat) {
            Ok(tx) => r matches Ok(t) && t@ == tx,
            Err(e) => r matches Err(err) && err@ == e,
        },
{
    let fields = split_fields(line);
    let ghost spec_fields = csv_fields(line@);
    assert(spec_fields == Seq::new(fields@.len(), |j: int| fields@[j]@));
    if fields.len() < 7 {
        assert("insufficient fields (expected at least 7)"@ + ""@
            == "insufficient fields (expected at least 7)"@) by {
            reveal_strlit("");
        }
        return Err(error_at(line_no, "insufficient fields (expected at least 7)", ""));
    }
    let id = text_of_field(&fields[0]);
    let posted_at = match Date::parse_from_str(from_chars(&trim_chars(&fields[1])).as_str()) {
        Ok(date) => date,
        Err(msg) => {
            return Err(error_at(line_no, "invalid posted date: ", msg.as_str()));
        },
    };
    let executed = trim_chars(&fields[2]);
    let executed_at = if executed.len() == 0 {
        None
    } else {
        match Timestamp::parse_from_str(from_chars(&executed).as_str()) {
            Ok(at) => Some(at),
            Err(msg) => {
                return Err(error_at(line_no, "invalid executed date: ", msg.as_str()));
            },
        }
    };
    let kind = match TransactionKind::from_chars(&trim_chars(&fields[3])) {
        Some(kind) => kind,
        None => {
            assert("invalid transaction type: "@ + "Matching variant not found"@
                == "invalid transaction type: Matching variant not found"@) by {
                reveal_strlit("invalid transaction type: ");
                reveal_strlit("Matching variant not found");
                reveal_strlit("invalid transaction type: Matching variant not found");
            }
            return Err(
                error_at(line_no, "invalid transaction type: ", "Matching variant not found"),
            );
        },
    };
    let amount = match Decimal::from_str(from_chars(&trim_chars(&fields[4])).as_str()) {
        Ok(amount) => amount,
        Err(msg) => {
            return Err(error_at(line_no, "invalid amount: ", msg.as_str()));
        },
    };
    let currency = text_of_field(&fields[5]);
    let description = text_of_field(&fields[6]);
    let account = optional_text(&fields, 7);
    let counterparty = optional_text(&fields, 8);
    let category = optional_text(&fields, 9);
    Ok(
        Transaction {
            id,
            posted_at,
            executed_at,
            kind,
            amount: Money { amount, currency },
            description,
            account,
            counterparty,
            category,
        },
    )
}

/// Reads the transaction that `line` stands for.  `line_num` is the line's
/// number, for error messages.
pub fn parse_csv_line(line: &str, line_num: usize) -> (r: Result<Transaction, Error>)
    ensures
        match record(line@, line_num as nat) {
            Ok(tx) => r matches Ok(t) && t@ == tx,
            Err(e) => r matches Err(err) && err@ == e,
        },
{
    parse_record(&to_chars(line), line_num as u128)
}

/// Reads a batch from bytes in the CSV format.
pub fn parse_csv(input: &[u8]) -> (r: Result<TransactionBatch, Error>)
    ensures
        match parse_csv_spec(input@) {
            Ok(batch) => r matches Ok(b) && b@ == batch,
            Err(e) => r matches Err(err) && err@ == e,
        },
{
    let text = match utf8_text(input) {
        Ok(text) => to_chars(text),
        Err(_) => {
            return Err(Error::Io(IoErrorKind::InvalidData));
        },
    };
    let all = lines(&text);
    if all.len() == 0 {
        return Err(Error::parse("CSV", "empty file".to_owned()));
    }
    match strip_literal_prefix(&all[0], "TransactionId") {
        Some(_) => {},
        None => {
            let mut message: Vec<char> = Vec::new();
            push_str(&mut message, "invalid header: ");
            push_chars(&mut message, &all[0]);
            return Err(Error::parse("CSV", from_chars(&message)));
        },
    }
    let ghost spec_lines = split_lines(text@);
    let mut done: Vec<Transaction> = Vec::new();
    let mut i: usize = 1;
    assert(views_of(done@) == Seq::<TransactionView>::empty());
    while i < all.len()
        invariant
            1 <= i <= all.len(),
            valid_utf8(input@),
            text@ == decode_utf8(input@),
            spec_lines == split_lines(text@),
            starts_with(spec_lines[0], header_token()),
            all@.len() == spec_lines.len(),
            forall|j: int| 0 <= j < all@.len() ==> (#[trigger] all@[j])@ == spec_lines[j],
            records(Seq::empty(), spec_lines.skip(1), 2) == records(
                views_of(done@),
                spec_lines.skip(i as int),
                (i + 1) as nat,
            ),
        decreases all.len() - i,
    {
        proof {
            assert(spec_lines.skip(i as int)[0] == spec_lines[i as int]);
            assert(spec_lines.skip(i as int).skip(1) == spec_lines.skip(i + 1));
        }
        if trim_chars(&all[i]).len() != 0 {
            match parse_record(&all[i], i as u128 + 1) {
                Ok(tx) => {
                    proof {
                        assert(views_of(done@.push(tx)) == views_of(done@).push(tx@));
                    }
                    done.push(tx);
                },
                Err(e) => {
                    return Err(e);
                },
            }
        }
        i = i + 1;
    }
    Ok(TransactionBatch { account_id: None, transactions: done })
}

/// Appends a comma and the given text.
fn push_cell(out: &mut Vec<char>, cell: &str)
    ensures
        final(out)@ == old(out)@ + ","@ + cell@,
{
    push_str(out, ",");
    push_str(out, cell);
}

/// Appends a comma and the given field as it is written.
fn push_escaped_cell(out: &mut Vec<char>, field: &Vec<char>)
    ensures
        final(out)@ == old(out)@ + ","@ + escape_field(field@),
{
    push_str(out, ",");
    push_escaped(out, field);
}

/// Appending to a text that ends in `row` is appending to `row`.
proof fn lemma_extend_row(start: Seq<char>, row: Seq<char>, sep: Seq<char>, cell: Seq<char>)
    ensures
        start + row + sep + cell == start + (row + sep + cell),
{
    assert(start + row + sep + cell =~= start + (row + sep + cell));
}

/// Appends the line that stands for one transaction.
fn push_record(out: &mut Vec<char>, tx: &Transaction)
    ensures
        final(out)@ == old(out)@ + record_text(tx@),
        transaction_renders_faithfully(tx@),
{
    tx.note_valid();
    let ghost start = out@;
    push_escaped(out, &to_chars(tx.id.as_str()));
    let ghost mut row = escape_field(tx@.id);
    push_cell(out, tx.posted_at.to_string().as_str());
    proof {
        lemma_extend_row(start, row, ","@, date_text(tx@.posted_at));
        row = row + ","@ + date_text(tx@.posted_at);
    }
    match tx.executed_at {
        Some(at) => push_cell(out, at.to_string().as_str()),
        None => {
            proof {
                reveal_strlit("");
                assert(""@ == Seq::<char>::empty());
            }
            push_cell(out, "")
        },
    }
    proof {
        lemma_extend_row(start, row, ","@, executed_text(tx@.executed_at));
        row = row + ","@ + executed_text(tx@.executed_at);
    }
    push_cell(out, tx.kind.as_str());
    proof {
        lemma_extend_row(start, row, ","@, kind_text(tx@.kind));
        row = row + ","@ + kind_text(tx@.kind);
    }
    push_cell(out, tx.amount.amount.to_string().as_str());
    proof {
        lemma_extend_row(start, row, ","@, decimal_text(tx@.amount.amount));
        row = row + ","@ + decimal_text(tx@.amount.amount);
    }
    push_escaped_cell(out, &to_chars(tx.amount.currency.as_str()));
    proof {
        lemma_extend_row(start, row, ","@, escape_field(tx@.amount.currency));
        row = row + ","@ + escape_field(tx@.amount.currency);
    }
    push_escaped_cell(out, &to_chars(tx.description.as_str()));
    proof {
        lemma_extend_row(start, row, ","@, escape_field(tx@.description));
        row = row + ","@ + escape_field(tx@.description);
    }
    push_escaped_cell(out, &chars_or_empty(&tx.account));
    proof {
        lemma_extend_row(start, row, ","@, escape_field(or_empty(tx@.account)));
        row = row + ","@ + escape_field(or_empty(tx@.account));
    }
    push_escaped_cell(out, &chars_or_empty(&tx.counterparty));
    proof {
        lemma_extend_row(start, row, ","@, escape_field(or_empty(tx@.counterparty)));
        row = row + ","@ + escape_field(or_empty(tx@.counterparty));
    }
    push_escaped_cell(out, &chars_or_empty(&tx.category));
    proof {
        lemma_extend_row(start, row, ","@, escape_field(or_empty(tx@.category)));
        row = row + ","@ + escape_field(or_empty(tx@.category));
    }
    push_str(out, "\n");
    assert(out@ == start + (row + "\n"@));
}

/// The characters of a value that may be absent: none where it is.
fn chars_or_empty(value: &Option<String>) -> (r: Vec<char>)
    ensures
        r@ == or_empty(crate::domain::text_of(*value)),
{
    match value {
        Some(v) => to_chars(v.as_str()),
        None => Vec::new(),
    }
}

/// Whether the bytes written for a batch read back as that batch without
/// its account.
pub open spec fn reads_back(b: TransactionBatchView) -> bool {
    parse_csv_spec(encode_utf8(csv_text(b))) == Ok::<TransactionBatchView, ErrorView>(
        without_account(b),
    )
}

/// Writes a batch in the CSV format, appending to `writer`.  The batch's
/// account is not written: the format has no place for it.
///
/// What is written for a batch whose texts are safe reads back as the same
/// transactions, field by field.
pub fn write_csv(batch: &TransactionBatch, writer: &mut Vec<u8>) -> (r: Result<(), Error>)
    ensures
        r is Ok,
        final(writer)@ == old(writer)@ + encode_utf8(csv_text(batch@)),
        batch_renders_faithfully(batch@),
        safe_batch(batch@) ==> reads_back(batch@),
{
    let mut out: Vec<char> = Vec::new();
    push_str(
        &mut out,
        "TransactionId,PostedDate,ExecutedDate,Type,Amount,Currency,Description,Account,Counterparty,Category",
    );
    push_str(&mut out, "\n");
    let ghost txs = batch@.transactions;
    let mut i: usize = 0;
    assert(txs.take(0) == Seq::<TransactionView>::empty());
    assert(out@ == header() + "\n"@ + records_text(txs.take(0)));
    while i < batch.transactions.len()
        invariant
            i <= batch.transactions.len(),
            txs == batch@.transactions,
            txs.len() == batch.transactions.len(),
            out@ == header() + "\n"@ + records_text(txs.take(i as int)),
            forall|j: int| 0 <= j < i ==> transaction_renders_faithfully(#[trigger] txs[j]),
        decreases batch.transactions.len() - i,
    {
        push_record(&mut out, &batch.transactions[i]);
        proof {
            let upto = txs.take(i + 1);
            assert(upto.drop_last() == txs.take(i as int));
            assert(upto.last() == batch.transactions[i as int]@);
        }
        i = i + 1;
    }
    assert(txs.take(i as int) == txs);
    proof {
        if safe_batch(batch@) {
            lemma_csv_round_trip(batch@);
        }
    }
    write_utf8(writer, &out);
    Ok(())
}

/// Header check: input whose first line does not begin with the token, or
/// that has no line at all, is refused with a parse error.
pub proof fn lemma_header_is_checked(text: Seq<char>)
    requires
        split_lines(text).len() == 0 || !starts_with(split_lines(text)[0], header_token()),
    ensures
        parse_csv_chars(text) matches Err(ErrorView::Parse { format, .. }) && format
            == format_tag(),
        parse_csv_spec(encode_utf8(text)) == parse_csv_chars(text),
{
    vstd::utf8::encode_utf8_valid_utf8(text);
    vstd::utf8::encode_utf8_decode_utf8(text);
}

} // verus!
