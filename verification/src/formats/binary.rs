//! The binary format.
//!
//! All integers are little-endian.  A batch is the magic number, the version,
//! the optional account, the number of transactions and the transactions.  A
//! string is its length in bytes, as 32 bits, and its UTF-8 bytes; an optional
//! string is a flag byte and, where the flag is not zero, a string.

use crate::calendar::{valid_day_count, valid_timestamp, Date, Timestamp};
use crate::decimal::{decimal_from_text, decimal_text, Decimal};
use crate::domain::{
    text_of, views_of, Money, MoneyView, Transaction, TransactionBatch, TransactionBatchView,
    TransactionKind, TransactionView,
};
use crate::error::{parse_error, Error, ErrorView, IoErrorKind};
use crate::formats::binary_round_trip::{
    batch_fits, batch_is_faithful, lemma_binary_round_trip, transaction_is_faithful,
};
use crate::strings::{from_chars, number_text, push_number, push_str, utf8_error_text, utf8_text};
use vstd::prelude::*;
use vstd::slice::slice_subrange;
use vstd::utf8::{decode_utf8, encode_utf8, valid_utf8};

verus! {

/// The four bytes every batch begins with, read as a little-endian number.
pub const MAGIC_NUMBER: u32 = 0x59504246;

/// The one version of the format.
pub const VERSION: u8 = 1;

/// The name of this format in errors.
pub open spec fn format_tag() -> Seq<char> {
    "Binary"@
}

/// The error for input that ends inside a value.
pub open spec fn truncated() -> ErrorView {
    ErrorView::Io(IoErrorKind::UnexpectedEof)
}

/// The number that four little-endian bytes stand for.
pub open spec fn u32_of(b: Seq<u8>) -> int {
    b[0] + b[1] * 0x100 + b[2] * 0x1_0000 + b[3] * 0x100_0000
}

/// The four little-endian bytes of a number below 2^32.
pub open spec fn u32_bytes(x: int) -> Seq<u8> {
    seq![
        (x % 0x100) as u8,
        (x / 0x100 % 0x100) as u8,
        (x / 0x1_0000 % 0x100) as u8,
        (x / 0x100_0000 % 0x100) as u8,
    ]
}

/// The number that eight little-endian bytes stand for.
pub open spec fn u64_of(b: Seq<u8>) -> int {
    b[0] + b[1] * 0x100 + b[2] * 0x1_0000 + b[3] * 0x100_0000 + b[4] * 0x1_0000_0000 + b[5]
        * 0x100_0000_0000 + b[6] * 0x1_0000_0000_0000 + b[7] * 0x100_0000_0000_0000
}

/// The eight little-endian bytes of a number below 2^64.
pub open spec fn u64_bytes(x: int) -> Seq<u8> {
    seq![
        (x % 0x100) as u8,
        (x / 0x100 % 0x100) as u8,
        (x / 0x1_0000 % 0x100) as u8,
        (x / 0x100_0000 % 0x100) as u8,
        (x / 0x1_0000_0000 % 0x100) as u8,
        (x / 0x100_0000_0000 % 0x100) as u8,
        (x / 0x1_0000_0000_0000 % 0x100) as u8,
        (x / 0x100_0000_0000_0000 % 0x100) as u8,
    ]
}

/// A 32-bit pattern read as a signed number.
pub open spec fn signed32(x: int) -> int {
    if x >= 0x8000_0000 {
        x - 0x1_0000_0000
    } else {
        x
    }
}

/// The 32-bit pattern of a signed number.
pub open spec fn unsigned32(x: int) -> int {
    if x < 0 {
        x + 0x1_0000_0000
    } else {
        x
    }
}

/// A 64-bit pattern read as a signed number.
pub open spec fn signed64(x: int) -> int {
    if x >= 0x8000_0000_0000_0000 {
        x - 0x1_0000_0000_0000_0000
    } else {
        x
    }
}

/// The 64-bit pattern of a signed number.
pub open spec fn unsigned64(x: int) -> int {
    if x < 0 {
        x + 0x1_0000_0000_0000_0000
    } else {
        x
    }
}

/// A byte off the front of the input.
#[verifier::opaque]
pub open spec fn decode_u8(input: Seq<u8>) -> Result<(u8, Seq<u8>), ErrorView> {
    if input.len() < 1 {
        Err(truncated())
    } else {
        Ok((input[0], input.skip(1)))
    }
}

/// An unsigned 32-bit number off the front of the input.
#[verifier::opaque]
pub open spec fn decode_u32(input: Seq<u8>) -> Result<(u32, Seq<u8>), ErrorView> {
    if input.len() < 4 {
        Err(truncated())
    } else {
        Ok((u32_of(input.take(4)) as u32, input.skip(4)))
    }
}

/// A signed 64-bit number off the front of the input.
#[verifier::opaque]
pub open spec fn decode_i64(input: Seq<u8>) -> Result<(i64, Seq<u8>), ErrorView> {
    if input.len() < 8 {
        Err(truncated())
    } else {
        Ok((signed64(u64_of(input.take(8))) as i64, input.skip(8)))
    }
}

/// A string off the front of the input: its length, then that many bytes,
/// which must be UTF-8.
#[verifier::opaque]
pub open spec fn decode_string(input: Seq<u8>) -> Result<(Seq<char>, Seq<u8>), ErrorView> {
    match decode_u32(input) {
        Err(e) => Err(e),
        Ok((len, rest)) => if rest.len() < len {
            Err(truncated())
        } else if !valid_utf8(rest.take(len as int)) {
            Err(
                parse_error(
                    format_tag(),
                    "invalid UTF-8: "@ + utf8_error_text(rest.take(len as int)),
                ),
            )
        } else {
            Ok((decode_utf8(rest.take(len as int)), rest.skip(len as int)))
        },
    }
}

/// An optional string off the front of the input: a flag byte, then a
/// string unless the flag is zero.
#[verifier::opaque]
pub open spec fn decode_optional_string(input: Seq<u8>) -> Result<
    (Option<Seq<char>>, Seq<u8>),
    ErrorView,
> {
    match decode_u8(input) {
        Err(e) => Err(e),
        Ok((flag, rest)) => if flag == 0 {
            Ok((None, rest))
        } else {
            match decode_string(rest) {
                Err(e) => Err(e),
                Ok((text, after)) => Ok((Some(text), after)),
            }
        },
    }
}

/// A posting date off the front of the input: a day number as 32 bits, which
/// must denote a representable date.
#[verifier::opaque]
pub open spec fn decode_posted(input: Seq<u8>) -> Result<(int, Seq<u8>), ErrorView> {
    match decode_u32(input) {
        Err(e) => Err(e),
        Ok((bits, rest)) => if valid_day_count(signed32(bits as int)) {
            Ok((signed32(bits as int), rest))
        } else {
            Err(parse_error(format_tag(), "invalid posted date"@))
        },
    }
}

/// An optional execution time off the front of the input: a flag byte, then,
/// unless the flag is zero, seconds since the epoch as 64 bits, which must
/// denote a representable instant.
#[verifier::opaque]
pub open spec fn decode_executed(input: Seq<u8>) -> Result<(Option<int>, Seq<u8>), ErrorView> {
    match decode_u8(input) {
        Err(e) => Err(e),
        Ok((flag, rest)) => if flag == 0 {
            Ok((None, rest))
        } else {
            match decode_i64(rest) {
                Err(e) => Err(e),
                Ok((secs, after)) => if valid_timestamp(secs as int) {
                    Ok((Some(secs as int), after))
                } else {
                    Err(parse_error(format_tag(), "invalid executed timestamp"@))
                },
            }
        },
    }
}

/// The byte that stands for a kind.
pub open spec fn kind_byte(kind: TransactionKind) -> u8 {
    match kind {
        TransactionKind::Debit => 0,
        TransactionKind::Credit => 1,
    }
}

/// A kind off the front of the input: one byte, 0 for debit and 1 for credit.
#[verifier::opaque]
pub open spec fn decode_kind(input: Seq<u8>) -> Result<(TransactionKind, Seq<u8>), ErrorView> {
    match decode_u8(input) {
        Err(e) => Err(e),
        Ok((byte, rest)) => if byte == 0 {
            Ok((TransactionKind::Debit, rest))
        } else if byte == 1 {
            Ok((TransactionKind::Credit, rest))
        } else {
            Err(parse_error(format_tag(), "invalid kind: "@ + number_text(byte as nat)))
        },
    }
}

/// An amount off the front of the input: a string that must parse as a
/// decimal.
#[verifier::opaque]
pub open spec fn decode_amount(input: Seq<u8>) -> Result<
    (crate::decimal::DecimalView, Seq<u8>),
    ErrorView,
> {
    match decode_string(input) {
        Err(e) => Err(e),
        Ok((text, rest)) => match decimal_from_text(text) {
            Ok(amount) => Ok((amount, rest)),
            Err(msg) => Err(parse_error(format_tag(), "invalid amount: "@ + msg)),
        },
    }
}

/// The texts that end a transaction: currency, description, account,
/// counterparty and category.
pub struct Texts {
    pub currency: Seq<char>,
    pub description: Seq<char>,
    pub account: Option<Seq<char>>,
    pub counterparty: Option<Seq<char>>,
    pub category: Option<Seq<char>>,
}

/// The five texts that end a transaction, off the front of the input.
#[verifier::opaque]
pub open spec fn decode_texts(input: Seq<u8>) -> Result<(Texts, Seq<u8>), ErrorView> {
    match decode_string(input) {
        Err(e) => Err(e),
        Ok((currency, r1)) => match decode_string(r1) {
            Err(e) => Err(e),
            Ok((description, r2)) => match decode_optional_string(r2) {
                Err(e) => Err(e),
                Ok((account, r3)) => match decode_optional_string(r3) {
                    Err(e) => Err(e),
                    Ok((counterparty, r4)) => match decode_optional_string(r4) {
                        Err(e) => Err(e),
                        Ok((category, r5)) => Ok(
                            (Texts { currency, description, account, counterparty, category }, r5),
                        ),
                    },
                },
            },
        },
    }
}

/// A transaction off the front of the input: id, posting date, execution
/// time, kind, amount, and the five texts.  The first part at fault decides
/// the error.
#[verifier::opaque]
pub open spec fn decode_transaction(input: Seq<u8>) -> Result<(TransactionView, Seq<u8>), ErrorView> {
    match decode_string(input) {
        Err(e) => Err(e),
        Ok((id, r1)) => match decode_posted(r1) {
            Err(e) => Err(e),
            Ok((posted_at, r2)) => match decode_executed(r2) {
                Err(e) => Err(e),
                Ok((executed_at, r3)) => match decode_kind(r3) {
                    Err(e) => Err(e),
                    Ok((kind, r4)) => match decode_amount(r4) {
                        Err(e) => Err(e),
                        Ok((amount, r5)) => match decode_texts(r5) {
                            Err(e) => Err(e),
                            Ok((texts, r6)) => Ok(
                                (
                                    TransactionView {
                                        id,
                                        posted_at,
                                        executed_at,
                                        kind,
                                        amount: MoneyView { amount, currency: texts.currency },
                                        description: texts.description,
                                        account: texts.account,
                                        counterparty: texts.counterparty,
                                        category: texts.category,
                                    },
                                    r6,
                                ),
                            ),
                        },
                    },
                },
            },
        }
    }
}

/// `count` transactions off the front of the input, appended to `acc`.
pub open spec fn decode_transactions(acc: Seq<TransactionView>, input: Seq<u8>, count: nat) -> Result<
    (Seq<TransactionView>, Seq<u8>),
    ErrorView,
>
    decreases count,
{
    if count == 0 {
        Ok((acc, input))
    } else {
        match decode_transaction(input) {
            Err(e) => Err(e),
            Ok((tx, rest)) => decode_transactions(acc.push(tx), rest, (count - 1) as nat),
        }
    }
}

/// The batch with the given account and the transactions that were decoded,
/// or the error that decoding them ended in.
pub open spec fn batch_of(
    account_id: Option<Seq<char>>,
    decoded: Result<(Seq<TransactionView>, Seq<u8>), ErrorView>,
) -> Result<TransactionBatchView, ErrorView> {
    match decoded {
        Err(e) => Err(e),
        Ok((txs, _)) => Ok(TransactionBatchView { account_id, transactions: txs }),
    }
}

/// The batch that the bytes stand for.  Magic number and version are checked
/// first.  Bytes after the last transaction are not looked at.
#[verifier::opaque]
pub open spec fn parse_binary_spec(input: Seq<u8>) -> Result<TransactionBatchView, ErrorView> {
    match decode_u32(input) {
        Err(e) => Err(e),
        Ok((magic, r1)) => if magic != MAGIC_NUMBER {
            Err(parse_error(format_tag(), "invalid magic number"@))
        } else {
            match decode_u8(r1) {
                Err(e) => Err(e),
                Ok((version, r2)) => if version != VERSION {
                    Err(
                        parse_error(
                            format_tag(),
                            "unsupported version: "@ + number_text(version as nat),
                        ),
                    )
                } else {
                    match decode_optional_string(r2) {
                        Err(e) => Err(e),
                        Ok((account_id, r3)) => match decode_u32(r3) {
                            Err(e) => Err(e),
                            Ok((count, r4)) => batch_of(
                                account_id,
                                decode_transactions(Seq::empty(), r4, count as nat),
                            ),
                        },
                    }
                },
            }
        },
    }
}

/// A length as it is written: its low 32 bits.
pub open spec fn length_bits(len: nat) -> int {
    (len % 0x1_0000_0000) as int
}

/// The bytes of a string: the length of its UTF-8 encoding, then the
/// encoding.
#[verifier::opaque]
pub open spec fn encode_string(text: Seq<char>) -> Seq<u8> {
    u32_bytes(length_bits(encode_utf8(text).len())) + encode_utf8(text)
}

/// The bytes of an optional string.
#[verifier::opaque]
pub open spec fn encode_optional_string(text: Option<Seq<char>>) -> Seq<u8> {
    match text {
        Some(t) => seq![1u8] + encode_string(t),
        None => seq![0u8],
    }
}

/// The bytes of an optional execution time.
#[verifier::opaque]
pub open spec fn encode_executed(executed_at: Option<int>) -> Seq<u8> {
    match executed_at {
        Some(secs) => seq![1u8] + u64_bytes(unsigned64(secs)),
        None => seq![0u8],
    }
}

/// The bytes of a transaction.
#[verifier::opaque]
pub open spec fn encode_transaction(tx: TransactionView) -> Seq<u8> {
    encode_string(tx.id) + u32_bytes(unsigned32(tx.posted_at)) + encode_executed(tx.executed_at)
        + seq![kind_byte(tx.kind)] + encode_string(decimal_text(tx.amount.amount)) + encode_string(
        tx.amount.currency,
    ) + encode_string(tx.description) + encode_optional_string(tx.account)
        + encode_optional_string(tx.counterparty) + encode_optional_string(tx.category)
}

/// The bytes of transactions, one after the other.
pub open spec fn encode_transactions(txs: Seq<TransactionView>) -> Seq<u8>
    decreases txs.len(),
{
    if txs.len() == 0 {
        Seq::empty()
    } else {
        encode_transactions(txs.drop_last()) + encode_transaction(txs.last())
    }
}

/// The bytes of a batch.
pub open spec fn encode_batch(b: TransactionBatchView) -> Seq<u8> {
    u32_bytes(MAGIC_NUMBER as int) + seq![VERSION] + encode_optional_string(b.account_id)
        + u32_bytes(length_bits(b.transactions.len())) + encode_transactions(b.transactions)
}

/// A position in a byte slice from which values are read front to back.
#[derive(Clone, Copy)]
pub struct ByteReader<'a> {
    data: &'a [u8],
    pos: usize,
}

impl<'a> View for ByteReader<'a> {
    type V = Seq<u8>;

    /// The bytes that have not been read yet.
    closed spec fn view(&self) -> Seq<u8> {
        self.data@.skip(self.pos as int)
    }
}

impl<'a> ByteReader<'a> {
    #[verifier::type_invariant]
    spec fn in_bounds(self) -> bool {
        self.pos <= self.data@.len()
    }

    /// A reader at the start of `data`.
    pub fn new(data: &'a [u8]) -> (r: ByteReader<'a>)
        ensures
            r@ == data@,
    {
        assert(data@.skip(0) == data@);
        ByteReader { data, pos: 0 }
    }

    /// How many bytes have not been read yet.
    pub fn remaining(&self) -> (n: usize)
        ensures
            n == self@.len(),
    {
        proof {
            use_type_invariant(self);
        }
        self.data.len() - self.pos
    }

    /// Takes the next `n` bytes, or fails and stays where it is if fewer are left.
    fn take(&mut self, n: usize) -> (r: Result<&'a [u8], Error>)
        ensures
            old(self)@.len() >= n ==> (r matches Ok(bytes) && bytes@ == old(self)@.take(n as int)
                && final(self)@ == old(self)@.skip(n as int)),
            old(self)@.len() < n ==> (r matches Err(e) && e@ == truncated() && final(self)@ == old(
                self,
            )@),
    {
        proof {
            use_type_invariant(&*self);
        }
        if self.data.len() - self.pos < n {
            return Err(Error::Io(IoErrorKind::UnexpectedEof));
        }
        let bytes = slice_subrange(self.data, self.pos, self.pos + n);
        proof {
            assert(self.data@.subrange(self.pos as int, self.pos + n) == self.data@.skip(
                self.pos as int,
            ).take(n as int));
            assert(self.data@.skip(self.pos as int).skip(n as int) == self.data@.skip(
                self.pos + n,
            ));
        }
        self.pos = self.pos + n;
        Ok(bytes)
    }
}

/// Reads one byte.  On an error the reader stays where it is.
pub fn read_u8(reader: &mut ByteReader) -> (r: Result<u8, Error>)
    ensures
        match decode_u8(old(reader)@) {
            Ok((value, rest)) => r matches Ok(v) && v == value && final(reader)@ == rest,
            Err(e) => r matches Err(err) && err@ == e && final(reader)@ == old(reader)@,
        },
{
    proof {
        reveal(decode_u8);
    }
    let bytes = reader.take(1)?;
    Ok(bytes[0])
}

/// Reads an unsigned 32-bit number.  On an error the reader stays where it is.
pub fn read_u32(reader: &mut ByteReader) -> (r: Result<u32, Error>)
    ensures
        match decode_u32(old(reader)@) {
            Ok((value, rest)) => r matches Ok(v) && v == value && final(reader)@ == rest,
            Err(e) => r matches Err(err) && err@ == e && final(reader)@ == old(reader)@,
        },
{
    proof {
        reveal(decode_u32);
    }
    let b = reader.take(4)?;
    let value: u32 = b[0] as u32 + b[1] as u32 * 0x100 + b[2] as u32 * 0x1_0000 + b[3] as u32
        * 0x100_0000;
    Ok(value)
}

/// Reads a signed 64-bit number.  On an error the reader stays where it is.
pub fn read_i64(reader: &mut ByteReader) -> (r: Result<i64, Error>)
    ensures
        match decode_i64(old(reader)@) {
            Ok((value, rest)) => r matches Ok(v) && v == value && final(reader)@ == rest,
            Err(e) => r matches Err(err) && err@ == e && final(reader)@ == old(reader)@,
        },
{
    proof {
        reveal(decode_i64);
    }
    let b = reader.take(8)?;
    let bits: u64 = b[0] as u64 + b[1] as u64 * 0x100 + b[2] as u64 * 0x1_0000 + b[3] as u64
        * 0x100_0000 + b[4] as u64 * 0x1_0000_0000 + b[5] as u64 * 0x100_0000_0000 + b[6] as u64
        * 0x1_0000_0000_0000 + b[7] as u64 * 0x100_0000_0000_0000;
    let value: i64 = if bits >= 0x8000_0000_0000_0000 {
        (bits as i128 - 0x1_0000_0000_0000_0000) as i64
    } else {
        bits as i64
    };
    Ok(value)
}

/// Reads a string.  On an error the reader stays where it is.
pub fn read_string(reader: &mut ByteReader) -> (r: Result<String, Error>)
    ensures
        match decode_string(old(reader)@) {
            Ok((value, rest)) => r matches Ok(v) && v@ == value && final(reader)@ == rest,
            Err(e) => r matches Err(err) && err@ == e && final(reader)@ == old(reader)@,
        },
{
    proof {
        reveal(decode_string);
    }
    let mut probe = *reader;
    let len = read_u32(&mut probe)?;
    let bytes = probe.take(len as usize)?;
    match utf8_text(bytes) {
        Ok(text) => {
            *reader = probe;
            Ok(text.to_owned())
        },
        Err(detail) => {
            let mut message: Vec<char> = Vec::new();
            push_str(&mut message, "invalid UTF-8: ");
            push_str(&mut message, detail.as_str());
            Err(Error::parse("Binary", from_chars(&message)))
        },
    }
}

/// Reads an optional string.  On an error the reader stays where it is.
pub fn read_optional_string(reader: &mut ByteReader) -> (r: Result<Option<String>, Error>)
    ensures
        match decode_optional_string(old(reader)@) {
            Ok((value, rest)) => r matches Ok(v) && text_of(v) == value && final(reader)@ == rest,
            Err(e) => r matches Err(err) && err@ == e && final(reader)@ == old(reader)@,
        },
{
    proof {
        reveal(decode_optional_string);
    }
    let mut probe = *reader;
    let flag = read_u8(&mut probe)?;
    if flag != 0 {
        let text = read_string(&mut probe)?;
        *reader = probe;
        Ok(Some(text))
    } else {
        *reader = probe;
        Ok(None)
    }
}

/// Reads a posting date.  On an error the reader stays where it is.
fn read_posted(reader: &mut ByteReader) -> (r: Result<Date, Error>)
    ensures
        match decode_posted(old(reader)@) {
            Ok((value, rest)) => r matches Ok(v) && v@ == value && final(reader)@ == rest,
            Err(e) => r matches Err(err) && err@ == e && final(reader)@ == old(reader)@,
        },
{
    proof {
        reveal(decode_posted);
    }
    let mut probe = *reader;
    let bits = read_u32(&mut probe)?;
    let days: i32 = if bits >= 0x8000_0000 {
        (bits as i64 - 0x1_0000_0000) as i32
    } else {
        bits as i32
    };
    match Date::from_num_days_from_ce_opt(days) {
        Some(date) => {
            *reader = probe;
            Ok(date)
        },
        None => Err(Error::parse("Binary", "invalid posted date".to_owned())),
    }
}

/// Reads an optional execution time.  On an error the reader stays where it is.
fn read_executed(reader: &mut ByteReader) -> (r: Result<Option<Timestamp>, Error>)
    ensures
        match decode_executed(old(reader)@) {
            Ok((value, rest)) => r matches Ok(v) && crate::domain::seconds_of(v) == value
                && final(reader)@ == rest,
            Err(e) => r matches Err(err) && err@ == e && final(reader)@ == old(reader)@,
        },
{
    proof {
        reveal(decode_executed);
    }
    let mut probe = *reader;
    let flag = read_u8(&mut probe)?;
    if flag != 0 {
        let secs = read_i64(&mut probe)?;
        match Timestamp::from_timestamp(secs) {
            Some(at) => {
                *reader = probe;
                Ok(Some(at))
            },
            None => Err(Error::parse("Binary", "invalid executed timestamp".to_owned())),
        }
    } else {
        *reader = probe;
        Ok(None)
    }
}

/// Reads a kind.  On an error the reader stays where it is.
fn read_kind(reader: &mut ByteReader) -> (r: Result<TransactionKind, Error>)
    ensures
        match decode_kind(old(reader)@) {
            Ok((value, rest)) => r matches Ok(v) && v == value && final(reader)@ == rest,
            Err(e) => r matches Err(err) && err@ == e && final(reader)@ == old(reader)@,
        },
{
    proof {
        reveal(decode_kind);
    }
    let mut probe = *reader;
    let byte = read_u8(&mut probe)?;
    if byte == 0 {
        *reader = probe;
        Ok(TransactionKind::Debit)
    } else if byte == 1 {
        *reader = probe;
        Ok(TransactionKind::Credit)
    } else {
        let mut message: Vec<char> = Vec::new();
        push_str(&mut message, "invalid kind: ");
        push_number(&mut message, byte as u128);
        Err(Error::parse("Binary", from_chars(&message)))
    }
}

/// Reads an amount.  On an error the reader stays where it is.
fn read_amount(reader: &mut ByteReader) -> (r: Result<Decimal, Error>)
    ensures
        match decode_amount(old(reader)@) {
            Ok((value, rest)) => r matches Ok(v) && v@ == value && final(reader)@ == rest,
            Err(e) => r matches Err(err) && err@ == e && final(reader)@ == old(reader)@,
        },
{
    proof {
        reveal(decode_amount);
    }
    let mut probe = *reader;
    let text = read_string(&mut probe)?;
    match Decimal::from_str(text.as_str()) {
        Ok(amount) => {
            *reader = probe;
            Ok(amount)
        },
        Err(detail) => {
            let mut message: Vec<char> = Vec::new();
            push_str(&mut message, "invalid amount: ");
            push_str(&mut message, detail.as_str());
            Err(Error::parse("Binary", from_chars(&message)))
        },
    }
}

/// Reads one transaction.  On an error the reader stays where it is.
pub fn read_transaction(reader: &mut ByteReader) -> (r: Result<Transaction, Error>)
    ensures
        match decode_transaction(old(reader)@) {
            Ok((value, rest)) => r matches Ok(v) && v@ == value && final(reader)@ == rest,
            Err(e) => r matches Err(err) && err@ == e && final(reader)@ == old(reader)@,
        },
{
    proof {
        reveal(decode_transaction);
        reveal(decode_texts);
    }
    let mut probe = *reader;
    let id = read_string(&mut probe)?;
    let posted_at = read_posted(&mut probe)?;
    let executed_at = read_executed(&mut probe)?;
    let kind = read_kind(&mut probe)?;
    let amount = read_amount(&mut probe)?;
    let currency = read_string(&mut probe)?;
    let description = read_string(&mut probe)?;
    let account = read_optional_string(&mut probe)?;
    let counterparty = read_optional_string(&mut probe)?;
    let category = read_optional_string(&mut probe)?;
    *reader = probe;
    Ok(
        Transaction {
            id,
            posted_at,
            executed_at,
            kind,
            amount: Money { amount, currency },
            description,
            account,
            counterparty,
            category,
        },
    )
}

/// Reads a batch from bytes in the binary format.
pub fn parse_binary(input: &[u8]) -> (r: Result<TransactionBatch, Error>)
    ensures
        match parse_binary_spec(input@) {
            Ok(batch) => r matches Ok(b) && b@ == batch,
            Err(e) => r matches Err(err) && err@ == e,
        },
{
    proof {
        reveal(parse_binary_spec);
    }
    let mut reader = ByteReader::new(input);
    let magic = read_u32(&mut reader)?;
    if magic != MAGIC_NUMBER {
        return Err(Error::parse("Binary", "invalid magic number".to_owned()));
    }
    let version = read_u8(&mut reader)?;
    if version != VERSION {
        let mut message: Vec<char> = Vec::new();
        push_str(&mut message, "unsupported version: ");
        push_number(&mut message, version as u128);
        return Err(Error::parse("Binary", from_chars(&message)));
    }
    let account_id = read_optional_string(&mut reader)?;
    let count = read_u32(&mut reader)?;
    let ghost body = reader@;
    let mut transactions: Vec<Transaction> = Vec::new();
    let mut i: u32 = 0;
    assert(views_of(transactions@) == Seq::<TransactionView>::empty());
    while i < count
        invariant
            i <= count,
            parse_binary_spec(input@) == batch_of(
                text_of(account_id),
                decode_transactions(Seq::empty(), body, count as nat),
            ),
            decode_transactions(Seq::empty(), body, count as nat) == decode_transactions(
                views_of(transactions@),
                reader@,
                (count - i) as nat,
            ),
        decreases count - i,
    {
        match read_transaction(&mut reader) {
            Ok(tx) => {
                proof {
                    assert(views_of(transactions@.push(tx)) == views_of(transactions@).push(tx@));
                }
                transactions.push(tx);
            },
            Err(e) => {
                return Err(e);
            },
        }
        i = i + 1;
    }
    Ok(TransactionBatch { account_id, transactions })
}

/// Appends one byte.
pub fn write_u8(writer: &mut Vec<u8>, value: u8)
    ensures
        final(writer)@ == old(writer)@ + seq![value],
{
    writer.push(value);
    assert(writer@ == old(writer)@ + seq![value]);
}

/// Appends an unsigned 32-bit number.
pub fn write_u32(writer: &mut Vec<u8>, value: u32)
    ensures
        final(writer)@ == old(writer)@ + u32_bytes(value as int),
{
    writer.push((value % 0x100) as u8);
    writer.push((value / 0x100 % 0x100) as u8);
    writer.push((value / 0x1_0000 % 0x100) as u8);
    writer.push((value / 0x100_0000 % 0x100) as u8);
    assert(writer@ == old(writer)@ + u32_bytes(value as int));
}

/// Appends a signed 64-bit number.
pub fn write_i64(writer: &mut Vec<u8>, value: i64)
    ensures
        final(writer)@ == old(writer)@ + u64_bytes(unsigned64(value as int)),
{
    let bits: u64 = if value < 0 {
        (value as i128 + 0x1_0000_0000_0000_0000) as u64
    } else {
        value as u64
    };
    writer.push((bits % 0x100) as u8);
    writer.push((bits / 0x100 % 0x100) as u8);
    writer.push((bits / 0x1_0000 % 0x100) as u8);
    writer.push((bits / 0x100_0000 % 0x100) as u8);
    writer.push((bits / 0x1_0000_0000 % 0x100) as u8);
    writer.push((bits / 0x100_0000_0000 % 0x100) as u8);
    writer.push((bits / 0x1_0000_0000_0000 % 0x100) as u8);
    writer.push((bits / 0x100_0000_0000_0000 % 0x100) as u8);
    assert(writer@ == old(writer)@ + u64_bytes(unsigned64(value as int)));
}

/// The low 32 bits of a length.
fn low_bits(len: usize) -> (bits: u32)
    ensures
        bits == length_bits(len as nat),
{
    (len as u64 % 0x1_0000_0000) as u32
}

/// Appends a string: the length of its UTF-8 encoding, then the encoding.
/// Of a length that does not fit in 32 bits only the low 32 bits are written.
pub fn write_string(writer: &mut Vec<u8>, s: &str)
    ensures
        final(writer)@ == old(writer)@ + encode_string(s@),
{
    proof {
        reveal(encode_string);
    }
    let bytes = s.as_bytes();
    write_u32(writer, low_bits(bytes.len()));
    writer.extend_from_slice(bytes);
    assert(writer@ == old(writer)@ + encode_string(s@));
}

/// Appends an optional string.
pub fn write_optional_string(writer: &mut Vec<u8>, s: &Option<String>)
    ensures
        final(writer)@ == old(writer)@ + encode_optional_string(text_of(*s)),
{
    proof {
        reveal(encode_optional_string);
    }
    match s {
        Some(value) => {
            write_u8(writer, 1);
            write_string(writer, value.as_str());
            assert(writer@ == old(writer)@ + (seq![1u8] + encode_string(value@)));
        },
        None => {
            write_u8(writer, 0);
        },
    }
}

/// Appending to bytes that end in `part` is appending to `part`.
pub proof fn lemma_extend(start: Seq<u8>, part: Seq<u8>, more: Seq<u8>)
    ensures
        start + part + more == start + (part + more),
{
    assert(start + part + more =~= start + (part + more));
}

/// Appends one transaction.
pub fn write_transaction(writer: &mut Vec<u8>, tx: &Transaction)
    ensures
        final(writer)@ == old(writer)@ + encode_transaction(tx@),
        transaction_is_faithful(tx@),
{
    proof {
        reveal(encode_transaction);
        reveal(encode_executed);
    }
    tx.note_valid();
    let ghost start = writer@;
    write_string(writer, tx.id.as_str());
    let ghost mut part = encode_string(tx@.id);
    let days = tx.posted_at.num_days_from_ce();
    let bits: u32 = if days < 0 {
        (days as i64 + 0x1_0000_0000) as u32
    } else {
        days as u32
    };
    write_u32(writer, bits);
    proof {
        lemma_extend(start, part, u32_bytes(unsigned32(tx@.posted_at)));
        part = part + u32_bytes(unsigned32(tx@.posted_at));
    }
    match tx.executed_at {
        Some(at) => {
            let ghost before = writer@;
            write_u8(writer, 1);
            write_i64(writer, at.timestamp());
            assert(writer@ == before + (seq![1u8] + u64_bytes(unsigned64(at@))));
        },
        None => {
            write_u8(writer, 0);
        },
    }
    proof {
        lemma_extend(start, part, encode_executed(tx@.executed_at));
        part = part + encode_executed(tx@.executed_at);
    }
    let kind: u8 = match tx.kind {
        TransactionKind::Debit => 0,
        TransactionKind::Credit => 1,
    };
    write_u8(writer, kind);
    proof {
        lemma_extend(start, part, seq![kind_byte(tx@.kind)]);
        part = part + seq![kind_byte(tx@.kind)];
    }
    write_string(writer, tx.amount.amount.to_string().as_str());
    proof {
        lemma_extend(start, part, encode_string(decimal_text(tx@.amount.amount)));
        part = part + encode_string(decimal_text(tx@.amount.amount));
    }
    write_string(writer, tx.amount.currency.as_str());
    proof {
        lemma_extend(start, part, encode_string(tx@.amount.currency));
        part = part + encode_string(tx@.amount.currency);
    }
    write_string(writer, tx.description.as_str());
    proof {
        lemma_extend(start, part, encode_string(tx@.description));
        part = part + encode_string(tx@.description);
    }
    write_optional_string(writer, &tx.account);
    proof {
        lemma_extend(start, part, encode_optional_string(tx@.account));
        part = part + encode_optional_string(tx@.account);
    }
    write_optional_string(writer, &tx.counterparty);
    proof {
        lemma_extend(start, part, encode_optional_string(tx@.counterparty));
        part = part + encode_optional_string(tx@.counterparty);
    }
    write_optional_string(writer, &tx.category);
    proof {
        lemma_extend(start, part, encode_optional_string(tx@.category));
        part = part + encode_optional_string(tx@.category);
    }
}

/// Whether the bytes of a batch read back as exactly that batch.
pub open spec fn reads_back(b: TransactionBatchView) -> bool {
    parse_binary_spec(encode_batch(b)) == Ok::<TransactionBatchView, ErrorView>(b)
}

/// Writes a batch in the binary format, appending to `writer`.  Of a number
/// of transactions that does not fit in 32 bits only the low 32 bits are
/// written.
///
/// What is written for a batch that fits the format reads back as exactly
/// that batch: account, order, dates, timestamps, amounts with their scale,
/// and every text.
pub fn write_binary(batch: &TransactionBatch, writer: &mut Vec<u8>) -> (r: Result<(), Error>)
    ensures
        r is Ok,
        final(writer)@ == old(writer)@ + encode_batch(batch@),
        batch_is_faithful(batch@),
        batch_fits(batch@) ==> reads_back(batch@),
{
    let ghost start = writer@;
    write_u32(writer, MAGIC_NUMBER);
    let ghost mut part = u32_bytes(MAGIC_NUMBER as int);
    write_u8(writer, VERSION);
    proof {
        lemma_extend(start, part, seq![VERSION]);
        part = part + seq![VERSION];
    }
    write_optional_string(writer, &batch.account_id);
    proof {
        lemma_extend(start, part, encode_optional_string(batch@.account_id));
        part = part + encode_optional_string(batch@.account_id);
    }
    write_u32(writer, low_bits(batch.transactions.len()));
    proof {
        lemma_extend(start, part, u32_bytes(length_bits(batch@.transactions.len())));
        part = part + u32_bytes(length_bits(batch@.transactions.len()));
    }
    let ghost txs = batch@.transactions;
    let mut i: usize = 0;
    proof {
        assert(txs.take(0) == Seq::<TransactionView>::empty());
        assert(part + encode_transactions(txs.take(0)) == part);
    }
    while i < batch.transactions.len()
        invariant
            i <= batch.transactions.len(),
            txs == batch@.transactions,
            txs.len() == batch.transactions.len(),
            writer@ == start + (part + encode_transactions(txs.take(i as int))),
            forall|j: int| 0 <= j < i ==> transaction_is_faithful(#[trigger] txs[j]),
        decreases batch.transactions.len() - i,
    {
        write_transaction(writer, &batch.transactions[i]);
        proof {
            let upto = txs.take(i + 1);
            assert(upto.drop_last() == txs.take(i as int));
            assert(upto.last() == batch.transactions[i as int]@);
            let sofar = encode_transactions(txs.take(i as int));
            let one = encode_transaction(batch.transactions[i as int]@);
            assert(start + (part + sofar) + one =~= start + (part + (sofar + one)));
        }
        i = i + 1;
    }
    assert(txs.take(i as int) == txs);
    proof {
        if batch_fits(batch@) {
            lemma_binary_round_trip(batch@, Seq::empty());
            assert(encode_batch(batch@) + Seq::<u8>::empty() == encode_batch(batch@));
        }
    }
    Ok(())
}

/// Magic number check: input of four bytes or more that does not begin with
/// the magic number is refused as such, whatever follows.
pub proof fn lemma_magic_is_checked(input: Seq<u8>)
    requires
        input.len() >= 4,
        u32_of(input.take(4)) != MAGIC_NUMBER,
    ensures
        parse_binary_spec(input) == Err::<TransactionBatchView, ErrorView>(
            parse_error(format_tag(), "invalid magic number"@),
        ),
{
    reveal(parse_binary_spec);
    reveal(decode_u32);
    let b = input.take(4);
    assert(0 <= u32_of(b) <= u32::MAX);
}

} // verus!
