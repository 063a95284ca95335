//! Why the binary format gives back what was written.
//!
//! Each `lemma_*_round_trip` says of one part of the format that its bytes,
//! whatever follows them, are read as the part and leave what follows.

use crate::calendar::{valid_day_count, valid_timestamp};
use crate::decimal::decimal_text;
use crate::domain::{TransactionBatchView, TransactionKind, TransactionView};
use crate::error::ErrorView;
use crate::formats::binary::{
    decode_amount, decode_executed, decode_i64, decode_kind, decode_optional_string, decode_posted,
    decode_string, decode_texts, decode_transaction, decode_transactions, decode_u32, decode_u8,
    encode_batch, encode_executed, encode_optional_string, encode_string, encode_transaction,
    encode_transactions, kind_byte, lemma_extend, length_bits, parse_binary_spec, u32_bytes, u32_of,
    u64_bytes, u64_of, unsigned32, unsigned64, Texts, MAGIC_NUMBER, VERSION,
};
use vstd::prelude::*;
use vstd::utf8::encode_utf8;

verus! {

/// A text whose UTF-8 encoding is short enough for its length to be written
/// in 32 bits.
#[verifier::opaque]
pub open spec fn text_fits(text: Seq<char>) -> bool {
    encode_utf8(text).len() <= u32::MAX
}

/// An optional text that is absent or fits.
pub open spec fn optional_text_fits(text: Option<Seq<char>>) -> bool {
    text matches Some(t) ==> text_fits(t)
}

/// A transaction all of whose texts fit.
pub open spec fn transaction_fits(tx: TransactionView) -> bool {
    &&& text_fits(tx.id)
    &&& text_fits(tx.amount.currency)
    &&& text_fits(tx.description)
    &&& optional_text_fits(tx.account)
    &&& optional_text_fits(tx.counterparty)
    &&& optional_text_fits(tx.category)
}

/// A batch that the format can hold: fewer than 2^32 transactions, every
/// text shorter than 2^32 bytes.
pub open spec fn batch_fits(b: TransactionBatchView) -> bool {
    &&& b.transactions.len() <= u32::MAX
    &&& optional_text_fits(b.account_id)
    &&& forall|i: int| 0 <= i < b.transactions.len() ==> transaction_fits(#[trigger] b.transactions[i])
}

/// A valid transaction whose amount has a faithful rendering.
pub open spec fn transaction_is_faithful(tx: TransactionView) -> bool {
    crate::domain::valid_transaction(tx) && crate::decimal::renders_faithfully(tx.amount.amount)
}

/// A batch of faithful transactions.  Every batch that has been written is
/// one.
pub open spec fn batch_is_faithful(b: TransactionBatchView) -> bool {
    forall|i: int| 0 <= i < b.transactions.len() ==> transaction_is_faithful(#[trigger] b.transactions[i])
}

/// Four bytes written for a number read back as that number.
pub proof fn lemma_u32_round_trip(x: int, tail: Seq<u8>)
    requires
        0 <= x <= u32::MAX,
    ensures
        decode_u32(u32_bytes(x) + tail) == Ok::<(u32, Seq<u8>), ErrorView>((x as u32, tail)),
{
    reveal(decode_u32);
    let input = u32_bytes(x) + tail;
    assert(input.take(4) == u32_bytes(x));
    assert(input.skip(4) == tail);
    assert(u32_of(u32_bytes(x)) == x);
}

/// The eight bytes of a number stand for that number.
proof fn lemma_u64_bytes(x: int)
    requires
        0 <= x <= u64::MAX,
    ensures
        u64_of(u64_bytes(x)) == x,
{
    let q1 = x / 0x100;
    let q2 = q1 / 0x100;
    let q3 = q2 / 0x100;
    let q4 = q3 / 0x100;
    let q5 = q4 / 0x100;
    let q6 = q5 / 0x100;
    let q7 = q6 / 0x100;
    assert(q2 == x / 0x1_0000);
    assert(q3 == x / 0x100_0000);
    assert(q4 == x / 0x1_0000_0000);
    assert(q5 == x / 0x100_0000_0000);
    assert(q6 == x / 0x1_0000_0000_0000);
    assert(q7 == x / 0x100_0000_0000_0000);
    assert(q7 < 0x100);
    let b = u64_bytes(x);
    assert(b[0] == x % 0x100);
    assert(b[1] == q1 % 0x100);
    assert(b[2] == q2 % 0x100);
    assert(b[3] == q3 % 0x100);
    assert(b[4] == q4 % 0x100);
    assert(b[5] == q5 % 0x100);
    assert(b[6] == q6 % 0x100);
    assert(b[7] == q7);
}

/// Eight bytes written for a signed number read back as that number.
pub proof fn lemma_i64_round_trip(x: int, tail: Seq<u8>)
    requires
        i64::MIN <= x <= i64::MAX,
    ensures
        decode_i64(u64_bytes(unsigned64(x)) + tail) == Ok::<(i64, Seq<u8>), ErrorView>(
            (x as i64, tail),
        ),
{
    reveal(decode_i64);
    let bits = unsigned64(x);
    let input = u64_bytes(bits) + tail;
    assert(input.take(8) == u64_bytes(bits));
    assert(input.skip(8) == tail);
    lemma_u64_bytes(bits);
}

/// A byte written reads back as that byte.
pub proof fn lemma_u8_round_trip(x: u8, tail: Seq<u8>)
    ensures
        decode_u8(seq![x] + tail) == Ok::<(u8, Seq<u8>), ErrorView>((x, tail)),
{
    reveal(decode_u8);
    let input = seq![x] + tail;
    assert(input.skip(1) == tail);
}

/// A string written reads back as that string, if it fits.
pub proof fn lemma_string_round_trip(text: Seq<char>, tail: Seq<u8>)
    requires
        text_fits(text),
    ensures
        decode_string(encode_string(text) + tail) == Ok::<(Seq<char>, Seq<u8>), ErrorView>(
            (text, tail),
        ),
{
    reveal(encode_string);
    reveal(text_fits);
    reveal(decode_string);
    let bytes = encode_utf8(text);
    let rest = bytes + tail;
    assert(encode_string(text) + tail == u32_bytes(bytes.len() as int) + rest);
    lemma_u32_round_trip(bytes.len() as int, rest);
    assert(rest.take(bytes.len() as int) == bytes);
    assert(rest.skip(bytes.len() as int) == tail);
    vstd::utf8::encode_utf8_valid_utf8(text);
    vstd::utf8::encode_utf8_decode_utf8(text);
}

/// An optional string written reads back as it was, if it fits.
pub proof fn lemma_optional_string_round_trip(text: Option<Seq<char>>, tail: Seq<u8>)
    requires
        optional_text_fits(text),
    ensures
        decode_optional_string(encode_optional_string(text) + tail) == Ok::<
            (Option<Seq<char>>, Seq<u8>),
            ErrorView,
        >((text, tail)),
{
    reveal(encode_optional_string);
    reveal(decode_optional_string);
    match text {
        Some(t) => {
            let rest = encode_string(t) + tail;
            assert(encode_optional_string(text) + tail == seq![1u8] + rest);
            lemma_u8_round_trip(1, rest);
            lemma_string_round_trip(t, tail);
        },
        None => {
            lemma_u8_round_trip(0, tail);
        },
    }
}

/// A representable date written reads back as that date.
pub proof fn lemma_posted_round_trip(days: int, tail: Seq<u8>)
    requires
        valid_day_count(days),
    ensures
        decode_posted(u32_bytes(unsigned32(days)) + tail) == Ok::<(int, Seq<u8>), ErrorView>(
            (days, tail),
        ),
{
    reveal(decode_posted);
    lemma_u32_round_trip(unsigned32(days), tail);
}

/// A representable execution time written reads back as it was.
pub proof fn lemma_executed_round_trip(executed_at: Option<int>, tail: Seq<u8>)
    requires
        executed_at matches Some(secs) ==> valid_timestamp(secs),
    ensures
        decode_executed(encode_executed(executed_at) + tail) == Ok::<
            (Option<int>, Seq<u8>),
            ErrorView,
        >((executed_at, tail)),
{
    reveal(encode_executed);
    reveal(decode_executed);
    match executed_at {
        Some(secs) => {
            let rest = u64_bytes(unsigned64(secs)) + tail;
            assert(encode_executed(executed_at) + tail == seq![1u8] + rest);
            lemma_u8_round_trip(1, rest);
            lemma_i64_round_trip(secs, tail);
        },
        None => {
            lemma_u8_round_trip(0, tail);
        },
    }
}

/// A kind written reads back as that kind.
pub proof fn lemma_kind_round_trip(kind: TransactionKind, tail: Seq<u8>)
    ensures
        decode_kind(seq![kind_byte(kind)] + tail) == Ok::<(TransactionKind, Seq<u8>), ErrorView>(
            (kind, tail),
        ),
{
    reveal(decode_kind);
    lemma_u8_round_trip(kind_byte(kind), tail);
}

/// An amount written reads back as that amount, if its rendering is faithful.
pub proof fn lemma_amount_round_trip(amount: crate::decimal::DecimalView, tail: Seq<u8>)
    requires
        crate::decimal::renders_faithfully(amount),
    ensures
        decode_amount(encode_string(decimal_text(amount)) + tail) == Ok::<
            (crate::decimal::DecimalView, Seq<u8>),
            ErrorView,
        >((amount, tail)),
{
    reveal(text_fits);
    reveal(decode_amount);
    let text = decimal_text(amount);
    assert(vstd::utf8::is_ascii_chars(text));
    vstd::utf8::is_ascii_chars_encode_utf8(text);
    lemma_string_round_trip(text, tail);
}

/// The five texts that end a transaction, written one after the other, read
/// back as they were, if they fit.
pub proof fn lemma_texts_round_trip(tx: TransactionView, tail: Seq<u8>)
    requires
        transaction_fits(tx),
    ensures
        decode_texts(
            encode_string(tx.amount.currency) + (encode_string(tx.description) + (
            encode_optional_string(tx.account) + (encode_optional_string(tx.counterparty) + (
            encode_optional_string(tx.category) + tail)))),
        ) == Ok::<(Texts, Seq<u8>), ErrorView>(
            (
                Texts {
                    currency: tx.amount.currency,
                    description: tx.description,
                    account: tx.account,
                    counterparty: tx.counterparty,
                    category: tx.category,
                },
                tail,
            ),
        ),
{
    reveal(decode_texts);
    let t5 = encode_optional_string(tx.category) + tail;
    let t4 = encode_optional_string(tx.counterparty) + t5;
    let t3 = encode_optional_string(tx.account) + t4;
    let t2 = encode_string(tx.description) + t3;
    lemma_string_round_trip(tx.amount.currency, t2);
    lemma_string_round_trip(tx.description, t3);
    lemma_optional_string_round_trip(tx.account, t4);
    lemma_optional_string_round_trip(tx.counterparty, t5);
    lemma_optional_string_round_trip(tx.category, tail);
}

/// Parts appended one after the other, then a tail, are the first part and
/// then all that follows it.
proof fn lemma_regroup(parts: Seq<Seq<u8>>, tail: Seq<u8>)
    requires
        parts.len() > 0,
    ensures
        joined(parts) + tail == parts[0] + (joined(parts.skip(1)) + tail),
    decreases parts.len(),
{
    if parts.len() == 1 {
        assert(parts.drop_last() == Seq::<Seq<u8>>::empty());
        assert(parts.skip(1) == Seq::<Seq<u8>>::empty());
        assert(joined(parts) =~= parts[0]);
        assert(joined(parts.skip(1)) + tail =~= tail);
    } else {
        lemma_regroup(parts.drop_last(), parts.last() + tail);
        assert(parts.drop_last().skip(1) == parts.skip(1).drop_last());
        assert(parts.skip(1).last() == parts.last());
        assert(parts.drop_last()[0] == parts[0]);
        assert(joined(parts) + tail =~= joined(parts.drop_last()) + (parts.last() + tail));
        assert(joined(parts.skip(1)) + tail =~= joined(parts.skip(1).drop_last()) + (parts.last()
            + tail));
    }
}

/// The parts one after the other.
spec fn joined(parts: Seq<Seq<u8>>) -> Seq<u8>
    decreases parts.len(),
{
    if parts.len() == 0 {
        Seq::empty()
    } else {
        joined(parts.drop_last()) + parts.last()
    }
}

/// The parts of a transaction's bytes.
spec fn transaction_parts(tx: TransactionView) -> Seq<Seq<u8>> {
    seq![
        encode_string(tx.id),
        u32_bytes(unsigned32(tx.posted_at)),
        encode_executed(tx.executed_at),
        seq![kind_byte(tx.kind)],
        encode_string(decimal_text(tx.amount.amount)),
        encode_string(tx.amount.currency),
        encode_string(tx.description),
        encode_optional_string(tx.account),
        encode_optional_string(tx.counterparty),
        encode_optional_string(tx.category),
    ]
}

/// A transaction's bytes are its parts one after the other.
proof fn lemma_transaction_parts(tx: TransactionView)
    ensures
        encode_transaction(tx) == joined(transaction_parts(tx)),
{
    reveal(encode_transaction);
    let p = transaction_parts(tx);
    reveal_with_fuel(joined, 11);
    assert(p.drop_last().drop_last().drop_last().drop_last().drop_last().drop_last().drop_last().drop_last().drop_last().drop_last()
        == Seq::<Seq<u8>>::empty());
    assert(joined(p) =~= encode_transaction(tx));
}

/// A transaction written reads back as that transaction, if it fits and is
/// faithful.
pub proof fn lemma_transaction_round_trip(tx: TransactionView, tail: Seq<u8>)
    requires
        transaction_fits(tx),
        transaction_is_faithful(tx),
    ensures
        decode_transaction(encode_transaction(tx) + tail) == Ok::<
            (TransactionView, Seq<u8>),
            ErrorView,
        >((tx, tail)),
{
    reveal(decode_transaction);
    let t9 = encode_optional_string(tx.category) + tail;
    let t8 = encode_optional_string(tx.counterparty) + t9;
    let t7 = encode_optional_string(tx.account) + t8;
    let t6 = encode_string(tx.description) + t7;
    let t5 = encode_string(tx.amount.currency) + t6;
    let t4 = encode_string(decimal_text(tx.amount.amount)) + t5;
    let t3 = seq![kind_byte(tx.kind)] + t4;
    let t2 = encode_executed(tx.executed_at) + t3;
    let t1 = u32_bytes(unsigned32(tx.posted_at)) + t2;
    let t0 = encode_string(tx.id) + t1;
    assert(encode_transaction(tx) + tail == t0) by {
        lemma_transaction_parts(tx);
        let p = transaction_parts(tx);
        lemma_regroup(p, tail);
        lemma_regroup(p.skip(1), tail);
        lemma_regroup(p.skip(1).skip(1), tail);
        lemma_regroup(p.skip(1).skip(1).skip(1), tail);
        lemma_regroup(p.skip(1).skip(1).skip(1).skip(1), tail);
        lemma_regroup(p.skip(1).skip(1).skip(1).skip(1).skip(1), tail);
        lemma_regroup(p.skip(1).skip(1).skip(1).skip(1).skip(1).skip(1), tail);
        lemma_regroup(p.skip(1).skip(1).skip(1).skip(1).skip(1).skip(1).skip(1), tail);
        lemma_regroup(p.skip(1).skip(1).skip(1).skip(1).skip(1).skip(1).skip(1).skip(1), tail);
        lemma_regroup(p.skip(1).skip(1).skip(1).skip(1).skip(1).skip(1).skip(1).skip(1).skip(1), tail);
        let e = p.skip(1).skip(1).skip(1).skip(1).skip(1).skip(1).skip(1).skip(1).skip(1).skip(1);
        assert(e == Seq::<Seq<u8>>::empty());
        assert(joined(e) + tail =~= tail);
    }
    lemma_string_round_trip(tx.id, t1);
    lemma_posted_round_trip(tx.posted_at, t2);
    lemma_executed_round_trip(tx.executed_at, t3);
    lemma_kind_round_trip(tx.kind, t4);
    lemma_amount_round_trip(tx.amount.amount, t5);
    lemma_texts_round_trip(tx, tail);
}

/// The bytes of transactions one after the other are those of the first and
/// then those of the rest.
pub proof fn lemma_encode_transactions_front(txs: Seq<TransactionView>)
    requires
        txs.len() > 0,
    ensures
        encode_transactions(txs) == encode_transaction(txs[0]) + encode_transactions(txs.skip(1)),
    decreases txs.len(),
{
    if txs.len() == 1 {
        assert(txs.drop_last() == Seq::<TransactionView>::empty());
        assert(txs.skip(1) == Seq::<TransactionView>::empty());
        assert(encode_transactions(txs.drop_last()) == Seq::<u8>::empty());
        assert(encode_transactions(txs.skip(1)) == Seq::<u8>::empty());
        assert(txs.last() == txs[0]);
    } else {
        lemma_encode_transactions_front(txs.drop_last());
        assert(txs.drop_last().skip(1) == txs.skip(1).drop_last());
        assert(txs.drop_last()[0] == txs[0]);
        assert(txs.skip(1).last() == txs.last());
        assert(encode_transactions(txs.skip(1)) == encode_transactions(txs.skip(1).drop_last())
            + encode_transaction(txs.last()));
        assert(encode_transactions(txs) =~= encode_transaction(txs[0]) + encode_transactions(
            txs.skip(1),
        ));
    }
}

/// Transactions written one after the other read back as they were.
pub proof fn lemma_transactions_round_trip(
    acc: Seq<TransactionView>,
    txs: Seq<TransactionView>,
    tail: Seq<u8>,
)
    requires
        forall|i: int| 0 <= i < txs.len() ==> transaction_fits(#[trigger] txs[i]),
        forall|i: int| 0 <= i < txs.len() ==> transaction_is_faithful(#[trigger] txs[i]),
    ensures
        decode_transactions(acc, encode_transactions(txs) + tail, txs.len()) == Ok::<
            (Seq<TransactionView>, Seq<u8>),
            ErrorView,
        >((acc + txs, tail)),
    decreases txs.len(),
{
    if txs.len() == 0 {
        assert(encode_transactions(txs) + tail == tail);
        assert(acc + txs == acc);
    } else {
        let first = txs[0];
        let others = txs.skip(1);
        let rest = encode_transactions(others) + tail;
        assert(encode_transactions(txs) + tail == encode_transaction(first) + rest) by {
            lemma_encode_transactions_front(txs);
            lemma_extend(encode_transaction(first), encode_transactions(others), tail);
        }
        assert(decode_transaction(encode_transaction(first) + rest) == Ok::<
            (TransactionView, Seq<u8>),
            ErrorView,
        >((first, rest))) by {
            lemma_transaction_round_trip(first, rest);
        }
        assert(decode_transactions(acc.push(first), rest, others.len()) == Ok::<
            (Seq<TransactionView>, Seq<u8>),
            ErrorView,
        >((acc.push(first) + others, tail))) by {
            assert forall|i: int| 0 <= i < others.len() implies transaction_fits(
                #[trigger] others[i],
            ) && transaction_is_faithful(others[i]) by {
                assert(others[i] == txs[i + 1]);
            }
            lemma_transactions_round_trip(acc.push(first), others, tail);
        }
        assert(acc.push(first) + others == acc + txs);
    }
}

/// Five parts and a tail regrouped from the back.
proof fn lemma_append5(
    a: Seq<u8>,
    b: Seq<u8>,
    c: Seq<u8>,
    d: Seq<u8>,
    e: Seq<u8>,
    tail: Seq<u8>,
)
    ensures
        a + b + c + d + e + tail == a + (b + (c + (d + (e + tail)))),
{
    assert(a + b + c + d + e + tail =~= a + (b + (c + (d + (e + tail)))));
}

/// Reading a batch is reading its five parts in turn.
proof fn lemma_parse_in_steps(
    t0: Seq<u8>,
    t1: Seq<u8>,
    t2: Seq<u8>,
    t3: Seq<u8>,
    t4: Seq<u8>,
    tail: Seq<u8>,
    b: TransactionBatchView,
    count: u32,
)
    requires
        decode_u32(t0) == Ok::<(u32, Seq<u8>), ErrorView>((MAGIC_NUMBER, t1)),
        decode_u8(t1) == Ok::<(u8, Seq<u8>), ErrorView>((VERSION, t2)),
        decode_optional_string(t2) == Ok::<(Option<Seq<char>>, Seq<u8>), ErrorView>(
            (b.account_id, t3),
        ),
        decode_u32(t3) == Ok::<(u32, Seq<u8>), ErrorView>((count, t4)),
        decode_transactions(Seq::empty(), t4, count as nat) == Ok::<
            (Seq<TransactionView>, Seq<u8>),
            ErrorView,
        >((b.transactions, tail)),
    ensures
        parse_binary_spec(t0) == Ok::<TransactionBatchView, ErrorView>(b),
{
    reveal(parse_binary_spec);
}

/// Binary round trip: the bytes of a batch, whatever follows them, read back
/// as exactly that batch, if the batch fits the format and is faithful.
pub proof fn lemma_binary_round_trip(b: TransactionBatchView, tail: Seq<u8>)
    requires
        batch_fits(b),
        batch_is_faithful(b),
    ensures
        parse_binary_spec(encode_batch(b) + tail) == Ok::<TransactionBatchView, ErrorView>(b),
{
    let count = b.transactions.len();
    let t4 = encode_transactions(b.transactions) + tail;
    let t3 = u32_bytes(length_bits(count)) + t4;
    let t2 = encode_optional_string(b.account_id) + t3;
    let t1 = seq![VERSION] + t2;
    let t0 = u32_bytes(MAGIC_NUMBER as int) + t1;
    assert(encode_batch(b) + tail == t0) by {
        lemma_append5(
            u32_bytes(MAGIC_NUMBER as int),
            seq![VERSION],
            encode_optional_string(b.account_id),
            u32_bytes(length_bits(count)),
            encode_transactions(b.transactions),
            tail,
        );
    }
    assert(decode_u32(t0) == Ok::<(u32, Seq<u8>), ErrorView>((MAGIC_NUMBER, t1))) by {
        lemma_u32_round_trip(MAGIC_NUMBER as int, t1);
    }
    assert(decode_u8(t1) == Ok::<(u8, Seq<u8>), ErrorView>((VERSION, t2))) by {
        lemma_u8_round_trip(VERSION, t2);
    }
    assert(decode_optional_string(t2) == Ok::<(Option<Seq<char>>, Seq<u8>), ErrorView>(
        (b.account_id, t3),
    )) by {
        lemma_optional_string_round_trip(b.account_id, t3);
    }
    assert(decode_u32(t3) == Ok::<(u32, Seq<u8>), ErrorView>((count as u32, t4))) by {
        lemma_u32_round_trip(count as int, t4);
    }
    assert(decode_transactions(Seq::empty(), t4, count) == Ok::<
        (Seq<TransactionView>, Seq<u8>),
        ErrorView,
    >((b.transactions, tail))) by {
        lemma_transactions_round_trip(Seq::empty(), b.transactions, tail);
        assert(Seq::<TransactionView>::empty() + b.transactions == b.transactions);
    }
    lemma_parse_in_steps(t0, t1, t2, t3, t4, tail, b, count as u32);
}

} // verus!
