use chrono::Datelike;
use parser::formats::binary::{
    parse_binary, read_i64, read_optional_string, read_string, read_transaction, read_u32,
    read_u8, write_binary, write_i64, write_optional_string, write_string, write_transaction,
    write_u32, write_u8, ByteReader,
};
use parser::{
    Date, Decimal, Error, IoErrorKind, Money, Timestamp, Transaction, TransactionBatch,
    TransactionKind,
};

fn day(year: i32, month: u32, day: u32) -> Date {
    let date = chrono::NaiveDate::from_ymd_opt(year, month, day).unwrap();
    Date::from_num_days_from_ce_opt(date.num_days_from_ce()).unwrap()
}

fn instant(text: &str) -> Timestamp {
    let at = chrono::NaiveDateTime::parse_from_str(text, "%Y-%m-%d %H:%M:%S").unwrap();
    Timestamp::from_timestamp(at.and_utc().timestamp()).unwrap()
}

fn small_transaction() -> Transaction {
    Transaction {
        id: "A".to_string(),
        posted_at: day(1970, 1, 2),
        executed_at: Some(Timestamp::from_timestamp(-2).unwrap()),
        kind: TransactionKind::Credit,
        amount: Money { amount: Decimal::from_str("1.50").unwrap(), currency: "€".to_string() },
        description: String::new(),
        account: None,
        counterparty: Some("B".to_string()),
        category: None,
    }
}

fn small_transaction_bytes() -> Vec<u8> {
    let mut expected: Vec<u8> = Vec::new();
    expected.extend_from_slice(&[1, 0, 0, 0, b'A']);
    expected.extend_from_slice(&[0x3C, 0xF9, 0x0A, 0x00]);
    expected.extend_from_slice(&[1, 0xFE, 0xFF, 0xFF, 0xFF, 0xFF, 0xFF, 0xFF, 0xFF]);
    expected.push(1);
    expected.extend_from_slice(&[4, 0, 0, 0, b'1', b'.', b'5', b'0']);
    expected.extend_from_slice(&[3, 0, 0, 0, 0xE2, 0x82, 0xAC]);
    expected.extend_from_slice(&[0, 0, 0, 0]);
    expected.push(0);
    expected.extend_from_slice(&[1, 1, 0, 0, 0, b'B']);
    expected.push(0);
    expected
}

fn parse_message(result: Result<TransactionBatch, Error>) -> (String, String) {
    match result {
        Err(Error::Parse { format, message }) => (format.to_string(), message),
        other => panic!("expected a parse error, got {:?}", other),
    }
}

#[test]
fn test_parse_and_write_binary() {
    let mut batch = TransactionBatch { account_id: Some("ACC123".to_string()), transactions: vec![] };

    batch.transactions.push(Transaction {
        id: "TX001".to_string(),
        posted_at: day(2024, 1, 15),
        executed_at: None,
        kind: TransactionKind::Credit,
        amount: Money {
            amount: Decimal::from_str("1000.50").unwrap(),
            currency: "USD".to_string(),
        },
        description: "Test".to_string(),
        account: Some("ACC123".to_string()),
        counterparty: None,
        category: Some("Salary".to_string()),
    });

    let mut buffer = Vec::new();
    write_binary(&batch, &mut buffer).unwrap();

    let parsed = parse_binary(&buffer).unwrap();

    assert_eq!(parsed.account_id, batch.account_id);
    assert_eq!(parsed.transactions.len(), 1);
    assert_eq!(parsed.transactions[0].id, "TX001");
    assert_eq!(parsed.transactions[0].amount.amount.to_string(), "1000.50");
}

#[test]
fn test_invalid_magic_number() {
    let data = vec![0, 0, 0, 0];
    let result = parse_binary(&data);
    assert!(result.is_err());
}

#[test]
fn test_binary_roundtrip() {
    let source_batch = TransactionBatch {
        account_id: Some("ACC123".to_string()),
        transactions: vec![
            Transaction {
                id: "TX001".to_string(),
                posted_at: day(2024, 1, 15),
                executed_at: Some(instant("2024-01-15 10:30:00")),
                kind: TransactionKind::Credit,
                amount: Money {
                    amount: Decimal::from_str("1000.50").unwrap(),
                    currency: "USD".to_string(),
                },
                description: "Salary payment".to_string(),
                account: Some("ACC123".to_string()),
                counterparty: Some("Employer Inc".to_string()),
                category: Some("Salary".to_string()),
            },
            Transaction {
                id: "TX002".to_string(),
                posted_at: day(2024, 1, 16),
                executed_at: None,
                kind: TransactionKind::Debit,
                amount: Money {
                    amount: Decimal::from_str("150.50").unwrap(),
                    currency: "USD".to_string(),
                },
                description: "Regular payment".to_string(),
                account: Some("ACC123".to_string()),
                counterparty: Some("Store".to_string()),
                category: Some("Food".to_string()),
            },
        ],
    };

    let mut buffer = Vec::new();
    write_binary(&source_batch, &mut buffer).unwrap();

    let parsed_batch = parse_binary(&buffer).unwrap();

    assert_eq!(parsed_batch.account_id, source_batch.account_id);
    assert_eq!(parsed_batch.transactions.len(), source_batch.transactions.len());

    for (expected, parsed) in
        source_batch.transactions.iter().zip(parsed_batch.transactions.iter())
    {
        assert_eq!(parsed.id, expected.id);
        assert_eq!(parsed.posted_at, expected.posted_at);
        assert_eq!(parsed.executed_at, expected.executed_at);
        assert_eq!(parsed.kind, expected.kind);
        assert_eq!(parsed.amount, expected.amount);
        assert_eq!(parsed.description, expected.description);
        assert_eq!(parsed.account, expected.account);
        assert_eq!(parsed.counterparty, expected.counterparty);
        assert_eq!(parsed.category, expected.category);
    }
}

#[test]
fn binary_magic_number_error_is_a_parse_error() {
    let (format, message) = parse_message(parse_binary(&[0, 0, 0, 0]));
    assert_eq!(format, "Binary");
    assert_eq!(message, "invalid magic number");
}

#[test]
fn binary_empty_batch_has_exact_bytes() {
    let batch = TransactionBatch::new();
    let mut buffer = vec![0xAA];
    write_binary(&batch, &mut buffer).unwrap();
    assert_eq!(buffer, vec![0xAA, 0x46, 0x42, 0x50, 0x59, 1, 0, 0, 0, 0, 0]);
    let parsed = parse_binary(&buffer[1..]).unwrap();
    assert_eq!(parsed.account_id, None);
    assert_eq!(parsed.transactions.len(), 0);
}

#[test]
fn binary_empty_batch_keeps_its_account() {
    let batch = TransactionBatch { account_id: Some("ACC".to_string()), transactions: vec![] };
    let mut buffer = Vec::new();
    write_binary(&batch, &mut buffer).unwrap();
    assert_eq!(
        buffer,
        vec![0x46, 0x42, 0x50, 0x59, 1, 1, 3, 0, 0, 0, b'A', b'C', b'C', 0, 0, 0, 0]
    );
    assert_eq!(parse_binary(&buffer).unwrap(), batch);
}

#[test]
fn binary_transaction_has_exact_bytes() {
    let tx = small_transaction();
    let mut buffer = Vec::new();
    write_transaction(&mut buffer, &tx);
    assert_eq!(buffer, small_transaction_bytes());
}

#[test]
fn binary_transaction_reads_back_and_leaves_the_rest() {
    let mut bytes = small_transaction_bytes();
    bytes.extend_from_slice(&[7, 8, 9]);
    let mut reader = ByteReader::new(&bytes);
    let tx = read_transaction(&mut reader).unwrap();
    assert_eq!(tx, small_transaction());
    assert_eq!(reader.remaining(), 3);
    assert_eq!(read_u8(&mut reader).unwrap(), 7);
}

#[test]
fn binary_ignores_bytes_after_the_last_transaction() {
    let batch = TransactionBatch { account_id: None, transactions: vec![small_transaction()] };
    let mut buffer = Vec::new();
    write_binary(&batch, &mut buffer).unwrap();
    buffer.extend_from_slice(&[1, 2, 3]);
    assert_eq!(parse_binary(&buffer).unwrap(), batch);
}

#[test]
fn binary_negative_day_numbers_round_trip() {
    let tx = Transaction {
        posted_at: Date::from_num_days_from_ce_opt(-5).unwrap(),
        executed_at: Some(Timestamp::from_timestamp(-86_401).unwrap()),
        ..small_transaction()
    };
    let batch = TransactionBatch { account_id: None, transactions: vec![tx] };
    let mut buffer = Vec::new();
    write_binary(&batch, &mut buffer).unwrap();
    assert_eq!(&buffer[15..19], &[0xFB, 0xFF, 0xFF, 0xFF]);
    assert_eq!(parse_binary(&buffer).unwrap(), batch);
}

#[test]
fn binary_truncated_input_is_an_io_error() {
    let batch = TransactionBatch {
        account_id: Some("ACC".to_string()),
        transactions: vec![small_transaction()],
    };
    let mut buffer = Vec::new();
    write_binary(&batch, &mut buffer).unwrap();
    for cut in 0..buffer.len() {
        match parse_binary(&buffer[..cut]) {
            Err(Error::Io(IoErrorKind::UnexpectedEof)) => {}
            other => panic!("cut at {}: expected an end-of-input error, got {:?}", cut, other),
        }
    }
    assert!(parse_binary(&buffer).is_ok());
}

#[test]
fn binary_unsupported_version_is_rejected() {
    let (format, message) = parse_message(parse_binary(&[0x46, 0x42, 0x50, 0x59, 2, 0, 0, 0, 0, 0]));
    assert_eq!(format, "Binary");
    assert_eq!(message, "unsupported version: 2");
    let (_, message) = parse_message(parse_binary(&[0x46, 0x42, 0x50, 0x59, 255]));
    assert_eq!(message, "unsupported version: 255");
}

#[test]
fn binary_invalid_kind_is_rejected() {
    let mut bytes = vec![0x46, 0x42, 0x50, 0x59, 1, 0, 1, 0, 0, 0];
    let mut tx = small_transaction_bytes();
    tx[18] = 2;
    bytes.extend_from_slice(&tx);
    let (format, message) = parse_message(parse_binary(&bytes));
    assert_eq!(format, "Binary");
    assert_eq!(message, "invalid kind: 2");
}

#[test]
fn binary_invalid_utf8_is_rejected() {
    let bytes = vec![0x46, 0x42, 0x50, 0x59, 1, 1, 2, 0, 0, 0, b'a', 0xFF, 0, 0, 0, 0];
    let (format, message) = parse_message(parse_binary(&bytes));
    assert_eq!(format, "Binary");
    let detail = String::from_utf8(vec![b'a', 0xFF]).unwrap_err().to_string();
    assert_eq!(message, format!("invalid UTF-8: {}", detail));
}

#[test]
fn binary_invalid_amount_is_rejected() {
    let mut bytes = vec![0x46, 0x42, 0x50, 0x59, 1, 0, 1, 0, 0, 0];
    let mut tx = small_transaction_bytes();
    tx[24] = b'x';
    bytes.extend_from_slice(&tx);
    let (format, message) = parse_message(parse_binary(&bytes));
    assert_eq!(format, "Binary");
    let detail = "1x50".parse::<rust_decimal::Decimal>().unwrap_err().to_string();
    assert_eq!(message, format!("invalid amount: {}", detail));
}

#[test]
fn binary_out_of_range_date_is_rejected() {
    let mut bytes = vec![0x46, 0x42, 0x50, 0x59, 1, 0, 1, 0, 0, 0];
    let mut tx = small_transaction_bytes();
    tx[5..9].copy_from_slice(&[0xFF, 0xFF, 0xFF, 0x7F]);
    bytes.extend_from_slice(&tx);
    let (format, message) = parse_message(parse_binary(&bytes));
    assert_eq!(format, "Binary");
    assert_eq!(message, "invalid posted date");
}

#[test]
fn binary_out_of_range_timestamp_is_rejected() {
    let mut bytes = vec![0x46, 0x42, 0x50, 0x59, 1, 0, 1, 0, 0, 0];
    let mut tx = small_transaction_bytes();
    tx[10..18].copy_from_slice(&[0xFF, 0xFF, 0xFF, 0xFF, 0xFF, 0xFF, 0xFF, 0x7F]);
    bytes.extend_from_slice(&tx);
    let (format, message) = parse_message(parse_binary(&bytes));
    assert_eq!(format, "Binary");
    assert_eq!(message, "invalid executed timestamp");
}

#[test]
fn binary_flags_other_than_zero_mean_present() {
    let bytes = vec![0x46, 0x42, 0x50, 0x59, 1, 9, 1, 0, 0, 0, b'Z', 0, 0, 0, 0];
    let parsed = parse_binary(&bytes).unwrap();
    assert_eq!(parsed.account_id.as_deref(), Some("Z"));
}

#[test]
fn binary_integers_are_little_endian() {
    let mut buffer = Vec::new();
    write_u8(&mut buffer, 0xAB);
    write_u32(&mut buffer, 0x0102_0304);
    write_i64(&mut buffer, -2);
    write_i64(&mut buffer, 0x0102_0304_0506_0708);
    assert_eq!(
        buffer,
        vec![
            0xAB, 4, 3, 2, 1, 0xFE, 0xFF, 0xFF, 0xFF, 0xFF, 0xFF, 0xFF, 0xFF, 8, 7, 6, 5, 4, 3,
            2, 1
        ]
    );
    let mut reader = ByteReader::new(&buffer);
    assert_eq!(read_u8(&mut reader).unwrap(), 0xAB);
    assert_eq!(read_u32(&mut reader).unwrap(), 0x0102_0304);
    assert_eq!(read_i64(&mut reader).unwrap(), -2);
    assert_eq!(read_i64(&mut reader).unwrap(), 0x0102_0304_0506_0708);
    assert_eq!(reader.remaining(), 0);
    assert!(matches!(read_u8(&mut reader), Err(Error::Io(IoErrorKind::UnexpectedEof))));
}

#[test]
fn binary_integer_extremes_round_trip() {
    for value in [i64::MIN, -1, 0, 1, i64::MAX] {
        let mut buffer = Vec::new();
        write_i64(&mut buffer, value);
        assert_eq!(buffer, value.to_le_bytes().to_vec());
        assert_eq!(read_i64(&mut ByteReader::new(&buffer)).unwrap(), value);
    }
    for value in [0u32, 1, 0x7FFF_FFFF, 0x8000_0000, u32::MAX] {
        let mut buffer = Vec::new();
        write_u32(&mut buffer, value);
        assert_eq!(buffer, value.to_le_bytes().to_vec());
        assert_eq!(read_u32(&mut ByteReader::new(&buffer)).unwrap(), value);
    }
}

#[test]
fn binary_strings_are_length_prefixed() {
    let mut buffer = Vec::new();
    write_string(&mut buffer, "héllo");
    write_optional_string(&mut buffer, &None);
    write_optional_string(&mut buffer, &Some("x".to_string()));
    assert_eq!(
        buffer,
        vec![6, 0, 0, 0, b'h', 0xC3, 0xA9, b'l', b'l', b'o', 0, 1, 1, 0, 0, 0, b'x']
    );
    let mut reader = ByteReader::new(&buffer);
    assert_eq!(read_string(&mut reader).unwrap(), "héllo");
    assert_eq!(read_optional_string(&mut reader).unwrap(), None);
    assert_eq!(read_optional_string(&mut reader).unwrap(), Some("x".to_string()));
}

#[test]
fn binary_failed_read_leaves_the_reader_in_place() {
    let bytes = vec![5, 0, 0, 0, b'a', b'b'];
    let mut reader = ByteReader::new(&bytes);
    assert!(matches!(read_string(&mut reader), Err(Error::Io(IoErrorKind::UnexpectedEof))));
    assert_eq!(reader.remaining(), 6);
    assert_eq!(read_u32(&mut reader).unwrap(), 5);
}
