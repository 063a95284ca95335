//! Reading and writing batches of financial transactions in three formats:
//! CSV, a key-value text format, and a length-prefixed binary format.
//!
//! [`parse`] turns bytes in a given [`Format`] into a [`TransactionBatch`];
//! [`write`] appends the bytes of a batch in a given format to a buffer.
//! Every function says in its contract exactly what it returns, over the
//! plain mathematical views of the data.

pub mod calendar;
pub mod compare;
pub mod decimal;
pub mod domain;
pub mod error;
pub mod formats;
pub mod strings;

pub use calendar::{Date, Timestamp};
pub use decimal::Decimal;
pub use domain::{Money, Transaction, TransactionBatch, TransactionKind};
pub use error::{Error, IoErrorKind};
pub use formats::Format;

use domain::TransactionBatchView;
use error::ErrorView;
use vstd::prelude::*;

verus! {

/// A specialised result type for this library.
pub type Result<T> = std::result::Result<T, Error>;

/// The batch that bytes in the given format stand for.
pub open spec fn parse_spec(input: Seq<u8>, format: Format) -> std::result::Result<
    TransactionBatchView,
    ErrorView,
> {
    match format {
        Format::Csv => formats::csv::parse_csv_spec(input),
        Format::Text => formats::text::parse_text_spec(input),
        Format::Binary => formats::binary::parse_binary_spec(input),
    }
}

/// The bytes that stand for a batch in the given format.
pub open spec fn write_spec(batch: TransactionBatchView, format: Format) -> Seq<u8> {
    match format {
        Format::Csv => vstd::utf8::encode_utf8(formats::csv::csv_text(batch)),
        Format::Text => vstd::utf8::encode_utf8(formats::text::batch_text(batch)),
        Format::Binary => formats::binary::encode_batch(batch),
    }
}

/// The batches that a format gives back as they were.  CSV and text ask that
/// texts survive trimming and line splitting; binary asks that lengths fit in
/// 32 bits.
pub open spec fn safe_for(batch: TransactionBatchView, format: Format) -> bool {
    match format {
        Format::Csv => formats::csv_round_trip::safe_batch(batch),
        Format::Text => formats::text_round_trip::safe_batch(batch),
        Format::Binary => formats::binary_round_trip::batch_fits(batch),
    }
}

/// What a format gives back for a batch: the batch itself, but for CSV, which
/// has no place for the account.
pub open spec fn read_back(batch: TransactionBatchView, format: Format) -> TransactionBatchView {
    match format {
        Format::Csv => formats::csv_round_trip::without_account(batch),
        Format::Text => batch,
        Format::Binary => batch,
    }
}

/// Whether the bytes of a batch in a format read back, in that format, as
/// the batch.
pub open spec fn round_trips(batch: TransactionBatchView, format: Format) -> bool {
    parse_spec(write_spec(batch, format), format) == Ok::<TransactionBatchView, ErrorView>(
        read_back(batch, format),
    )
}

/// Empty batch: in every format, the bytes of a batch without transactions
/// read back as a batch without transactions.  The text format asks that the
/// account hold no line feed, the binary format that it fit.
pub proof fn lemma_empty_batch_round_trips(batch: TransactionBatchView, format: Format)
    requires
        batch.transactions.len() == 0,
        format == Format::Text ==> (batch.account_id matches Some(id) ==> !id.contains('\n')),
        format == Format::Binary ==> formats::binary_round_trip::optional_text_fits(batch.account_id),
    ensures
        parse_spec(write_spec(batch, format), format) matches Ok(back)
            && back.transactions.len() == 0,
{
    match format {
        Format::Csv => {
            formats::csv_round_trip::lemma_csv_round_trip(batch);
        },
        Format::Text => {
            formats::text_round_trip::lemma_empty_batch_reads_back_empty(batch);
        },
        Format::Binary => {
            formats::binary_round_trip::lemma_binary_round_trip(batch, Seq::empty());
            assert(formats::binary::encode_batch(batch) + Seq::<u8>::empty()
                == formats::binary::encode_batch(batch));
        },
    }
}

/// Reads a batch from bytes in the given format.
pub fn parse(input: &[u8], format: Format) -> (r: Result<TransactionBatch>)
    ensures
        match parse_spec(input@, format) {
            Ok(batch) => r matches Ok(b) && b@ == batch,
            Err(e) => r matches Err(err) && err@ == e,
        },
{
    match format {
        Format::Csv => formats::csv::parse_csv(input),
        Format::Text => formats::text::parse_text(input),
        Format::Binary => formats::binary::parse_binary(input),
    }
}

/// Writes a batch in the given format, appending to `writer`.
///
/// What is written for a batch that is safe for the format reads back, in
/// that format, as the batch.
pub fn write(batch: &TransactionBatch, writer: &mut Vec<u8>, format: Format) -> (r: Result<()>)
    ensures
        r is Ok,
        final(writer)@ == old(writer)@ + write_spec(batch@, format),
        safe_for(batch@, format) ==> round_trips(batch@, format),
{
    match format {
        Format::Csv => formats::csv::write_csv(batch, writer),
        Format::Text => formats::text::write_text(batch, writer),
        Format::Binary => formats::binary::write_binary(batch, writer),
    }
}

} // verus!
