//! Why the CSV format gives back what was written: fields as they are
//! written split back into themselves, and the lines written for a batch
//! whose texts are safe read back as its transactions.

use crate::calendar::{date_from_text, date_text, timestamp_text};
use crate::decimal::{decimal_from_text, decimal_text};
use crate::domain::{
    batch_renders_faithfully, kind_from_text, kind_text, transaction_renders_faithfully,
    TransactionBatchView, TransactionKind, TransactionView,
};
use crate::error::ErrorView;
use crate::formats::csv::{
    csv_fields, csv_text, double_quotes, escape_field, executed_field, executed_text, header,
    header_token, needs_quoting, optional_field, or_empty, parse_csv_chars, parse_csv_spec, record,
    record_of_fields, record_text, records, records_text, scan, text_field, Scan,
};
use crate::strings::{is_line, join_lines, starts_with, trim, white_space};
use vstd::prelude::*;
use vstd::utf8::encode_utf8;

verus! {

/// Outside quotes, a stretch without comma or double quote is taken into the
/// field as it stands.
pub proof fn lemma_scan_plain(cell: Seq<char>, rest: Seq<char>, s: Scan)
    requires
        !s.in_quotes,
        !cell.contains(','),
        !cell.contains('"'),
    ensures
        scan(cell + rest, s) == scan(rest, Scan { current: s.current + cell, ..s }),
    decreases cell.len(),
{
    if cell.len() == 0 {
        assert(cell + rest == rest);
        assert(s.current + cell == s.current);
    } else {
        let c = cell[0];
        assert(cell.contains(c));
        let text = cell + rest;
        assert(text[0] == c);
        assert(text.skip(1) == cell.skip(1) + rest);
        let next = Scan { current: s.current.push(c), ..s };
        assert forall|x: char| cell.skip(1).contains(x) implies cell.contains(x) by {
            let j = choose|j: int| 0 <= j < cell.skip(1).len() && cell.skip(1)[j] == x;
            assert(cell[j + 1] == x);
        }
        lemma_scan_plain(cell.skip(1), rest, next);
        assert(s.current.push(c) + cell.skip(1) == s.current + cell);
    }
}

/// Inside quotes, a field written with its double quotes doubled and then a
/// closing double quote is taken into the field as it was, and the quotes
/// are closed.
pub proof fn lemma_scan_quoted(field: Seq<char>, rest: Seq<char>, s: Scan)
    requires
        s.in_quotes,
        rest.len() > 0 ==> rest[0] != '"',
    ensures
        scan(double_quotes(field) + seq!['"'] + rest, s) == scan(
            rest,
            Scan { current: s.current + field, in_quotes: false, ..s },
        ),
    decreases field.len(),
{
    if field.len() == 0 {
        let text = double_quotes(field) + seq!['"'] + rest;
        assert(text == seq!['"'] + rest);
        assert(text[0] == '"');
        assert(text.len() > 1 ==> text[1] == rest[0]);
        assert(text.skip(1) == rest);
        assert(s.current + field == s.current);
    } else {
        let c = field[0];
        let tail = double_quotes(field.skip(1)) + seq!['"'] + rest;
        let text = double_quotes(field) + seq!['"'] + rest;
        let next = Scan { current: s.current.push(c), ..s };
        if c == '"' {
            assert(text == seq!['"', '"'] + tail);
            assert(text[0] == '"' && text[1] == '"');
            assert(text.skip(2) == tail);
        } else {
            assert(text == seq![c] + tail);
            assert(text[0] == c);
            assert(text.skip(1) == tail);
        }
        lemma_scan_quoted(field.skip(1), rest, next);
        assert(s.current.push(c) + field.skip(1) == s.current + field);
    }
}

/// A field as it is written, at the start of a field and before anything
/// that does not begin with a double quote, is read as the field it was.
pub proof fn lemma_scan_escaped(field: Seq<char>, rest: Seq<char>, s: Scan)
    requires
        !s.in_quotes,
        s.current.len() == 0,
        rest.len() > 0 ==> rest[0] != '"',
    ensures
        scan(escape_field(field) + rest, s) == scan(rest, Scan { current: field, ..s }),
{
    reveal(escape_field);
    assert(s.current + field == field);
    if needs_quoting(field) {
        let body = double_quotes(field) + seq!['"'] + rest;
        let text = escape_field(field) + rest;
        assert(text == seq!['"'] + body);
        assert(text[0] == '"');
        assert(text.skip(1) == body);
        lemma_scan_quoted(field, rest, Scan { in_quotes: true, ..s });
    } else {
        lemma_scan_plain(field, rest, s);
    }
}

/// CSV escaping: a field as it is written splits back into that one field,
/// whatever commas, double quotes and line feeds it holds.
pub proof fn lemma_escaped_field_splits_back(field: Seq<char>)
    ensures
        csv_fields(escape_field(field)) == seq![field],
{
    let start = Scan { fields: Seq::empty(), current: Seq::empty(), in_quotes: false };
    lemma_scan_escaped(field, Seq::empty(), start);
    assert(escape_field(field) + Seq::<char>::empty() == escape_field(field));
}

/// CSV escaping: a field without comma, double quote and line feed is
/// written as it is, without quotes.
pub proof fn lemma_plain_field_is_not_quoted(field: Seq<char>)
    requires
        !field.contains(','),
        !field.contains('"'),
        !field.contains('\n'),
    ensures
        escape_field(field) == field,
{
    reveal(escape_field);
}

/// Fields as they are written, with commas between them.
pub open spec fn join_escaped(values: Seq<Seq<char>>) -> Seq<char>
    decreases values.len(),
{
    if values.len() == 0 {
        Seq::empty()
    } else if values.len() == 1 {
        escape_field(values[0])
    } else {
        escape_field(values[0]) + seq![','] + join_escaped(values.skip(1))
    }
}

/// The walk over fields written with commas between them ends with all but
/// the last of them complete and the last one being read.
pub proof fn lemma_scan_row(values: Seq<Seq<char>>, s: Scan)
    requires
        values.len() > 0,
        !s.in_quotes,
        s.current.len() == 0,
    ensures
        scan(join_escaped(values), s) == (Scan {
            fields: s.fields + values.drop_last(),
            current: values.last(),
            in_quotes: false,
        }),
    decreases values.len(),
{
    if values.len() == 1 {
        lemma_scan_escaped(values[0], Seq::empty(), s);
        assert(escape_field(values[0]) + Seq::<char>::empty() == escape_field(values[0]));
        assert(s.fields + values.drop_last() == s.fields);
    } else {
        let others = values.skip(1);
        let rest = seq![','] + join_escaped(others);
        assert(join_escaped(values) == escape_field(values[0]) + rest);
        assert(rest[0] == ',');
        lemma_scan_escaped(values[0], rest, s);
        let at_comma = Scan { current: values[0], ..s };
        assert(rest.skip(1) == join_escaped(others));
        let next = Scan {
            fields: s.fields.push(values[0]),
            current: Seq::empty(),
            in_quotes: false,
        };
        assert(scan(rest, at_comma) == scan(join_escaped(others), next));
        lemma_scan_row(others, next);
        assert(others.last() == values.last());
        assert(s.fields.push(values[0]) + others.drop_last() == s.fields + values.drop_last());
    }
}

/// CSV escaping, for a whole line: fields as they are written, with commas
/// between them, split back into exactly those fields.
pub proof fn lemma_row_splits_back(values: Seq<Seq<char>>)
    requires
        values.len() > 0,
    ensures
        csv_fields(join_escaped(values)) == values,
{
    let start = Scan { fields: Seq::empty(), current: Seq::empty(), in_quotes: false };
    lemma_scan_row(values, start);
    assert((Seq::<Seq<char>>::empty() + values.drop_last()).push(values.last()) == values);
}

/// A text that a field gives back unchanged: it holds no line feed, has no
/// whitespace at its ends, and is not something between two double quotes.
pub open spec fn safe_text(text: Seq<char>) -> bool {
    &&& !text.contains('\n')
    &&& (text.len() > 0 ==> !white_space(text[0]) && !white_space(text.last()))
    &&& !(text.len() >= 2 && text[0] == '"' && text.last() == '"')
}

/// An optional text that a field gives back unchanged: absent, or safe and
/// not empty.
pub open spec fn safe_optional_text(text: Option<Seq<char>>) -> bool {
    text matches Some(t) ==> t.len() > 0 && safe_text(t)
}

/// A transaction all of whose texts are safe.
pub open spec fn safe_transaction(tx: TransactionView) -> bool {
    &&& safe_text(tx.id)
    &&& safe_text(tx.amount.currency)
    &&& safe_text(tx.description)
    &&& safe_optional_text(tx.account)
    &&& safe_optional_text(tx.counterparty)
    &&& safe_optional_text(tx.category)
}

/// A batch all of whose transactions are safe.
pub open spec fn safe_batch(b: TransactionBatchView) -> bool {
    forall|i: int| 0 <= i < b.transactions.len() ==> safe_transaction(#[trigger] b.transactions[i])
}

/// The ten values that a transaction's line holds, in order.
pub open spec fn values(tx: TransactionView) -> Seq<Seq<char>> {
    seq![
        tx.id,
        date_text(tx.posted_at),
        executed_text(tx.executed_at),
        kind_text(tx.kind),
        decimal_text(tx.amount.amount),
        tx.amount.currency,
        tx.description,
        or_empty(tx.account),
        or_empty(tx.counterparty),
        or_empty(tx.category),
    ]
}

/// The line, without its line feed, that stands for a transaction.
pub open spec fn row(tx: TransactionView) -> Seq<char> {
    join_escaped(values(tx))
}

/// What the renderings of dates, timestamps, kinds and amounts are free of.
spec fn is_bare(text: Seq<char>) -> bool {
    &&& !text.contains(',')
    &&& !text.contains('"')
    &&& !text.contains('\n')
    &&& (text.len() > 0 ==> !white_space(text[0]) && !white_space(text.last()))
}

/// The rendering of a date is bare.
proof fn lemma_date_is_bare(text: Seq<char>)
    requires
        crate::calendar::date_shaped(text),
    ensures
        is_bare(text),
        text.len() > 0,
{
    assert forall|c: char| c == ',' || c == '"' || c == '\n' implies !text.contains(c) by {
        if text.contains(c) {
            let j = choose|j: int| 0 <= j < text.len() && text[j] == c;
            assert(crate::calendar::is_digit(text[j]) || text[j] == '-' || text[j] == '+');
        }
    }
    assert(crate::calendar::is_digit(text[0]) || text[0] == '-' || text[0] == '+');
    let last = text.len() - 1;
    assert(crate::calendar::is_digit(text[last]) || text[last] == '-' || text[last] == '+');
}

/// The rendering of a timestamp is bare.
proof fn lemma_timestamp_is_bare(text: Seq<char>)
    requires
        crate::calendar::timestamp_shaped(text),
    ensures
        is_bare(text),
        text.len() > 0,
{
    assert forall|c: char| c == ',' || c == '"' || c == '\n' implies !text.contains(c) by {
        if text.contains(c) {
            let j = choose|j: int| 0 <= j < text.len() && text[j] == c;
            assert(crate::calendar::is_digit(text[j]) || text[j] == '-' || text[j] == '+'
                || text[j] == ':' || text[j] == ' ');
        }
    }
    assert(crate::calendar::is_digit(text[0]) || text[0] == '-' || text[0] == '+' || text[0]
        == ':' || text[0] == ' ');
    let last = text.len() - 1;
    assert(crate::calendar::is_digit(text[last]) || text[last] == '-' || text[last] == '+'
        || text[last] == ':' || text[last] == ' ');
}

/// The rendering of a decimal is bare.
proof fn lemma_decimal_is_bare(text: Seq<char>)
    requires
        crate::decimal::decimal_shaped(text),
    ensures
        is_bare(text),
        text.len() > 0,
{
    assert forall|c: char| c == ',' || c == '"' || c == '\n' implies !text.contains(c) by {
        if text.contains(c) {
            let j = choose|j: int| 0 <= j < text.len() && text[j] == c;
            assert(crate::decimal::is_decimal_char(text[j]));
        }
    }
    assert(crate::decimal::is_decimal_char(text[0]));
    assert(crate::decimal::is_decimal_char(text[text.len() - 1]));
}

/// The name of a kind is bare.
proof fn lemma_kind_is_bare(kind: TransactionKind)
    ensures
        is_bare(kind_text(kind)),
        kind_text(kind).len() > 0,
{
    reveal_strlit("Debit");
    reveal_strlit("Credit");
    let text = kind_text(kind);
    assert forall|c: char| c == ',' || c == '"' || c == '\n' implies !text.contains(c) by {
        if text.contains(c) {
            let j = choose|j: int| 0 <= j < text.len() && text[j] == c;
            assert(j == 0 || j == 1 || j == 2 || j == 3 || j == 4 || j == 5);
        }
    }
}

/// A bare text is written as it is.
proof fn lemma_bare_is_not_quoted(text: Seq<char>)
    requires
        is_bare(text),
    ensures
        escape_field(text) == text,
        trim(text) == text,
{
    reveal(escape_field);
    crate::strings::lemma_trim_unchanged(text);
}

/// The four renderings on a transaction's line are bare.
proof fn lemma_renderings_are_bare(tx: TransactionView)
    requires
        transaction_renders_faithfully(tx),
    ensures
        is_bare(date_text(tx.posted_at)),
        date_text(tx.posted_at).len() > 0,
        is_bare(executed_text(tx.executed_at)),
        tx.executed_at is Some ==> executed_text(tx.executed_at).len() > 0,
        is_bare(kind_text(tx.kind)),
        is_bare(decimal_text(tx.amount.amount)),
{
    lemma_date_is_bare(date_text(tx.posted_at));
    match tx.executed_at {
        Some(secs) => {
            lemma_timestamp_is_bare(timestamp_text(secs));
        },
        None => {},
    }
    lemma_kind_is_bare(tx.kind);
    lemma_decimal_is_bare(decimal_text(tx.amount.amount));
}

/// Ten cells with commas between them.
spec fn ten_cells(c: Seq<Seq<char>>) -> Seq<char> {
    c[0] + seq![','] + c[1] + seq![','] + c[2] + seq![','] + c[3] + seq![','] + c[4] + seq![',']
        + c[5] + seq![','] + c[6] + seq![','] + c[7] + seq![','] + c[8] + seq![','] + c[9]
}

/// Ten fields as they are written, with commas between them.
proof fn lemma_join_ten(v: Seq<Seq<char>>)
    requires
        v.len() == 10,
    ensures
        join_escaped(v) == ten_cells(v.map_values(|f: Seq<char>| escape_field(f))),
{
    let c = v.map_values(|f: Seq<char>| escape_field(f));
    let v1 = v.skip(1);
    let v2 = v1.skip(1);
    let v3 = v2.skip(1);
    let v4 = v3.skip(1);
    let v5 = v4.skip(1);
    let v6 = v5.skip(1);
    let v7 = v6.skip(1);
    let v8 = v7.skip(1);
    let v9 = v8.skip(1);
    assert(join_escaped(v9) == c[9]);
    assert(join_escaped(v8) == c[8] + seq![','] + join_escaped(v9));
    assert(join_escaped(v7) == c[7] + seq![','] + join_escaped(v8));
    assert(join_escaped(v6) == c[6] + seq![','] + join_escaped(v7));
    assert(join_escaped(v5) == c[5] + seq![','] + join_escaped(v6));
    assert(join_escaped(v4) == c[4] + seq![','] + join_escaped(v5));
    assert(join_escaped(v3) == c[3] + seq![','] + join_escaped(v4));
    assert(join_escaped(v2) == c[2] + seq![','] + join_escaped(v3));
    assert(join_escaped(v1) == c[1] + seq![','] + join_escaped(v2));
    assert(join_escaped(v) == c[0] + seq![','] + join_escaped(v1));
    assert(join_escaped(v) =~= ten_cells(c));
}

/// The line written for a transaction is its row and a line feed.
pub proof fn lemma_record_text_is_row(tx: TransactionView)
    requires
        transaction_renders_faithfully(tx),
    ensures
        record_text(tx) == row(tx).push('\n'),
{
    lemma_renderings_are_bare(tx);
    lemma_bare_is_not_quoted(date_text(tx.posted_at));
    lemma_bare_is_not_quoted(executed_text(tx.executed_at));
    lemma_bare_is_not_quoted(kind_text(tx.kind));
    lemma_bare_is_not_quoted(decimal_text(tx.amount.amount));
    reveal_strlit(",");
    reveal_strlit("\n");
    assert(","@ == seq![',']);
    assert("\n"@ == seq!['\n']);
    let v = values(tx);
    lemma_join_ten(v);
    let c = v.map_values(|f: Seq<char>| escape_field(f));
    assert(record_text(tx) == ten_cells(c) + seq!['\n']);
    assert(ten_cells(c) + seq!['\n'] == ten_cells(c).push('\n'));
}

/// A safe text comes back from a field as it was.
proof fn lemma_safe_text_comes_back(text: Seq<char>)
    requires
        safe_text(text),
    ensures
        text_field(text) == text,
{
    crate::strings::lemma_trim_unchanged(text);
}

/// A safe optional text comes back from its field as it was.
proof fn lemma_safe_optional_comes_back(fields: Seq<Seq<char>>, i: int, text: Option<Seq<char>>)
    requires
        0 <= i < fields.len(),
        fields[i] == or_empty(text),
        safe_optional_text(text),
    ensures
        optional_field(fields, i) == text,
{
    match text {
        Some(t) => {
            lemma_safe_text_comes_back(t);
        },
        None => {
            crate::strings::lemma_trim_unchanged(Seq::<char>::empty());
        },
    }
}

/// The values of a safe, faithful transaction stand for that transaction.
pub proof fn lemma_values_round_trip(tx: TransactionView, line_no: nat)
    requires
        safe_transaction(tx),
        transaction_renders_faithfully(tx),
    ensures
        record_of_fields(values(tx), line_no) == Ok::<TransactionView, ErrorView>(tx),
{
    let v = values(tx);
    lemma_renderings_are_bare(tx);
    lemma_bare_is_not_quoted(date_text(tx.posted_at));
    lemma_bare_is_not_quoted(executed_text(tx.executed_at));
    lemma_bare_is_not_quoted(kind_text(tx.kind));
    lemma_bare_is_not_quoted(decimal_text(tx.amount.amount));
    crate::domain::lemma_kind_round_trip(tx.kind);
    lemma_safe_text_comes_back(tx.id);
    lemma_safe_text_comes_back(tx.amount.currency);
    lemma_safe_text_comes_back(tx.description);
    lemma_safe_optional_comes_back(v, 7, tx.account);
    lemma_safe_optional_comes_back(v, 8, tx.counterparty);
    lemma_safe_optional_comes_back(v, 9, tx.category);
    assert(date_from_text(trim(v[1])) == Ok::<int, Seq<char>>(tx.posted_at));
    assert(executed_field(v[2]) == Ok::<Option<int>, Seq<char>>(tx.executed_at));
    assert(kind_from_text(trim(v[3])) == Some(tx.kind));
    assert(decimal_from_text(trim(v[4])) == Ok::<crate::decimal::DecimalView, Seq<char>>(
        tx.amount.amount,
    ));
}

/// A safe, faithful transaction's row stands for that transaction.
pub proof fn lemma_row_round_trip(tx: TransactionView, line_no: nat)
    requires
        safe_transaction(tx),
        transaction_renders_faithfully(tx),
    ensures
        record(row(tx), line_no) == Ok::<TransactionView, ErrorView>(tx),
{
    lemma_row_splits_back(values(tx));
    lemma_values_round_trip(tx, line_no);
}

/// Doubling the double quotes of a field brings in no other character.
proof fn lemma_double_quotes_chars(field: Seq<char>, c: char)
    requires
        c != '"',
        !field.contains(c),
    ensures
        !double_quotes(field).contains(c),
    decreases field.len(),
{
    if field.len() > 0 {
        let rest = field.skip(1);
        assert(!rest.contains(c)) by {
            if rest.contains(c) {
                let j = choose|j: int| 0 <= j < rest.len() && rest[j] == c;
                assert(field[j + 1] == c);
            }
        }
        lemma_double_quotes_chars(rest, c);
        let d = double_quotes(field);
        if d.contains(c) {
            let j = choose|j: int| 0 <= j < d.len() && d[j] == c;
            assert(field.contains(field[0]));
            if field[0] == '"' {
                assert(j >= 2);
                assert(double_quotes(rest)[j - 2] == c);
            } else {
                assert(j >= 1);
                assert(double_quotes(rest)[j - 1] == c);
            }
        }
    }
}

/// Writing a field brings in no character but the double quote.
proof fn lemma_escaped_chars(field: Seq<char>, c: char)
    requires
        c != '"',
        !field.contains(c),
    ensures
        !escape_field(field).contains(c),
{
    reveal(escape_field);
    if needs_quoting(field) {
        lemma_double_quotes_chars(field, c);
        let d = double_quotes(field);
        let e = escape_field(field);
        if e.contains(c) {
            let j = choose|j: int| 0 <= j < e.len() && e[j] == c;
            assert(1 <= j <= d.len());
            assert(d[j - 1] == c);
        }
    }
}

/// How a written field ends: in a double quote, or as the field does.
proof fn lemma_escaped_last(field: Seq<char>)
    ensures
        field.len() == 0 ==> escape_field(field).len() == 0,
        field.len() > 0 ==> escape_field(field).len() > 0 && (escape_field(field).last() == '"'
            || escape_field(field).last() == field.last()),
{
    reveal(escape_field);
    if field.len() == 0 {
        assert(!needs_quoting(field));
    }
}

/// Writing a row brings in no character but the double quote and the comma.
proof fn lemma_row_chars(values: Seq<Seq<char>>, c: char)
    requires
        c != '"',
        c != ',',
        forall|i: int| 0 <= i < values.len() ==> !(#[trigger] values[i]).contains(c),
    ensures
        !join_escaped(values).contains(c),
    decreases values.len(),
{
    if values.len() == 1 {
        lemma_escaped_chars(values[0], c);
    } else if values.len() > 1 {
        let others = values.skip(1);
        assert forall|i: int| 0 <= i < others.len() implies !(#[trigger] others[i]).contains(
            c,
        ) by {
            assert(others[i] == values[i + 1]);
        }
        lemma_row_chars(others, c);
        lemma_escaped_chars(values[0], c);
        let first = escape_field(values[0]);
        let rest = join_escaped(others);
        let whole = join_escaped(values);
        assert(whole == first + seq![','] + rest);
        if whole.contains(c) {
            let j = choose|j: int| 0 <= j < whole.len() && whole[j] == c;
            if j < first.len() {
                assert(first[j] == c);
            } else if j > first.len() {
                assert(rest[j - first.len() - 1] == c);
            }
        }
    }
}

/// A row of two or more fields ends in a comma and its last field.
proof fn lemma_row_end(values: Seq<Seq<char>>)
    requires
        values.len() >= 2,
    ensures
        join_escaped(values) == join_escaped(values.drop_last()) + seq![','] + escape_field(
            values.last(),
        ),
    decreases values.len(),
{
    let others = values.skip(1);
    if values.len() == 2 {
        assert(values.drop_last().len() == 1);
        assert(values.drop_last()[0] == values[0]);
        assert(others.len() == 1);
        assert(others[0] == values.last());
        assert(join_escaped(others) == escape_field(others[0]));
        assert(join_escaped(values.drop_last()) == escape_field(values[0]));
        assert(join_escaped(values) == escape_field(values[0]) + seq![','] + join_escaped(
            others,
        ));
    } else {
        lemma_row_end(others);
        assert(others.drop_last() == values.drop_last().skip(1));
        assert(others.last() == values.last());
        assert(values.drop_last()[0] == values[0]);
        let first = escape_field(values[0]);
        let mid = join_escaped(others.drop_last());
        let last = escape_field(values.last());
        assert(join_escaped(values) == first + seq![','] + (mid + seq![','] + last));
        assert(join_escaped(values.drop_last()) == first + seq![','] + mid);
        assert(first + seq![','] + (mid + seq![','] + last) =~= first + seq![','] + mid + seq![
            ',',
        ] + last);
    }
}

/// The row of a safe, faithful transaction is a line, and not a blank one.
pub proof fn lemma_row_is_line(tx: TransactionView)
    requires
        safe_transaction(tx),
        transaction_renders_faithfully(tx),
    ensures
        is_line(row(tx)),
        trim(row(tx)).len() > 0,
{
    let v = values(tx);
    let r = row(tx);
    lemma_renderings_are_bare(tx);
    assert forall|i: int| 0 <= i < v.len() implies !(#[trigger] v[i]).contains('\n') by {
        assert(!Seq::<char>::empty().contains('\n'));
    }
    lemma_row_chars(v, '\n');
    lemma_row_end(v);
    let before = join_escaped(v.drop_last()) + seq![','];
    let last = escape_field(v.last());
    assert(r == before + last);
    assert(before[before.len() - 1] == ',');
    lemma_escaped_last(v.last());
    assert(r.len() > 0 && r.last() != '\r') by {
        if last.len() == 0 {
            assert(r.last() == ',');
        } else {
            assert(r.last() == last.last());
            assert(v.last() == or_empty(tx.category));
            assert(white_space('\r'));
        }
    }
    let at = before.len() - 1;
    assert(r[at] == ',');
    assert(!white_space(','));
    crate::strings::lemma_trim_not_empty(r, at);
}

/// The rows of transactions, in order.
pub open spec fn rows(txs: Seq<TransactionView>) -> Seq<Seq<char>> {
    txs.map_values(|tx: TransactionView| row(tx))
}

/// The rows of safe, faithful transactions stand for those transactions.
pub proof fn lemma_rows_round_trip(acc: Seq<TransactionView>, txs: Seq<TransactionView>, line_no: nat)
    requires
        forall|i: int| 0 <= i < txs.len() ==> safe_transaction(#[trigger] txs[i]),
        forall|i: int| 0 <= i < txs.len() ==> transaction_renders_faithfully(#[trigger] txs[i]),
    ensures
        records(acc, rows(txs), line_no) == Ok::<Seq<TransactionView>, ErrorView>(acc + txs),
    decreases txs.len(),
{
    if txs.len() == 0 {
        assert(acc + txs == acc);
    } else {
        let first = txs[0];
        let others = txs.skip(1);
        assert(rows(txs)[0] == row(first));
        assert(rows(txs).skip(1) == rows(others));
        lemma_row_is_line(first);
        lemma_row_round_trip(first, line_no);
        assert forall|i: int| 0 <= i < others.len() implies safe_transaction(
            #[trigger] others[i],
        ) && transaction_renders_faithfully(others[i]) by {
            assert(others[i] == txs[i + 1]);
        }
        lemma_rows_round_trip(acc.push(first), others, line_no + 1);
        assert(acc.push(first) + others == acc + txs);
    }
}

/// The lines written for faithful transactions are their rows, each with
/// its line feed.
pub proof fn lemma_records_text_is_rows(txs: Seq<TransactionView>)
    requires
        forall|i: int| 0 <= i < txs.len() ==> transaction_renders_faithfully(#[trigger] txs[i]),
    ensures
        records_text(txs) == join_lines(rows(txs)),
    decreases txs.len(),
{
    if txs.len() == 0 {
        assert(rows(txs) == Seq::<Seq<char>>::empty());
    } else {
        let before = txs.drop_last();
        assert forall|i: int| 0 <= i < before.len() implies transaction_renders_faithfully(
            #[trigger] before[i],
        ) by {
            assert(before[i] == txs[i]);
        }
        lemma_records_text_is_rows(before);
        lemma_record_text_is_row(txs.last());
        let one = seq![row(txs.last())];
        assert(rows(txs) == rows(before) + one);
        crate::strings::lemma_join_lines_add(rows(before), one);
        assert(one.skip(1) == Seq::<Seq<char>>::empty());
        assert(join_lines(one) == row(txs.last()).push('\n') + join_lines(one.skip(1)));
        assert(join_lines(one) == row(txs.last()).push('\n'));
    }
}

/// The header is a line that begins with the token.
proof fn lemma_header_is_line()
    ensures
        is_line(header()),
        starts_with(header(), header_token()),
{
    reveal_strlit(
        "TransactionId,PostedDate,ExecutedDate,Type,Amount,Currency,Description,Account,Counterparty,Category",
    );
    reveal_strlit("TransactionId");
    let h = header();
    assert(h.len() == 100);
    assert(h.subrange(0, 13) =~= header_token());
    if h.contains('\n') {
        let j = choose|j: int| 0 <= j < h.len() && h[j] == '\n';
        assert(h[j] != '\n');
    }
}

/// What reading a CSV text gives for a batch: the batch without its account.
pub open spec fn without_account(b: TransactionBatchView) -> TransactionBatchView {
    TransactionBatchView { account_id: None, transactions: b.transactions }
}

/// CSV round trip, on text: the text written for a safe, faithful batch
/// reads back as that batch without its account.
pub proof fn lemma_csv_text_round_trip(b: TransactionBatchView)
    requires
        safe_batch(b),
        batch_renders_faithfully(b),
    ensures
        parse_csv_chars(csv_text(b)) == Ok::<TransactionBatchView, ErrorView>(without_account(b)),
{
    let txs = b.transactions;
    let all = seq![header()] + rows(txs);
    lemma_records_text_is_rows(txs);
    reveal_strlit("\n");
    assert("\n"@ == seq!['\n']);
    assert(csv_text(b) == join_lines(all)) by {
        crate::strings::lemma_join_lines_add(seq![header()], rows(txs));
        let one = seq![header()];
        assert(one.skip(1) == Seq::<Seq<char>>::empty());
        assert(join_lines(one) == header().push('\n') + join_lines(one.skip(1)));
        assert(join_lines(one) == header() + seq!['\n']);
    }
    lemma_header_is_line();
    assert forall|i: int| 0 <= i < all.len() implies is_line(#[trigger] all[i]) by {
        if i > 0 {
            assert(all[i] == row(txs[i - 1]));
            lemma_row_is_line(txs[i - 1]);
        }
    }
    crate::strings::lemma_split_joined_lines(all);
    assert(all.skip(1) == rows(txs));
    lemma_rows_round_trip(Seq::empty(), txs, 2);
    assert(Seq::<TransactionView>::empty() + txs == txs);
}

/// CSV round trip: the bytes written for a safe, faithful batch read back
/// as that batch without its account.
pub proof fn lemma_csv_round_trip(b: TransactionBatchView)
    requires
        safe_batch(b),
        batch_renders_faithfully(b),
    ensures
        parse_csv_spec(encode_utf8(csv_text(b))) == Ok::<TransactionBatchView, ErrorView>(
            without_account(b),
        ),
{
    vstd::utf8::encode_utf8_valid_utf8(csv_text(b));
    vstd::utf8::encode_utf8_decode_utf8(csv_text(b));
    lemma_csv_text_round_trip(b);
}

} // verus!
