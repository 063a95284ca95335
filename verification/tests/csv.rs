use chrono::Datelike;
use parser::formats::csv::{
    error_at, escape_csv_field, parse_csv, parse_csv_fields, parse_csv_line, unescape_csv_field,
    write_csv,
};
use parser::{
    Date, Decimal, Error, IoErrorKind, Money, Timestamp, Transaction, TransactionBatch,
    TransactionKind,
};

const HEADER: &str =
    "TransactionId,PostedDate,ExecutedDate,Type,Amount,Currency,Description,Account,Counterparty,Category";

fn csv_day(year: i32, month: u32, day: u32) -> Date {
    let date = chrono::NaiveDate::from_ymd_opt(year, month, day).unwrap();
    Date::from_num_days_from_ce_opt(date.num_days_from_ce()).unwrap()
}

fn csv_instant(text: &str) -> Timestamp {
    let at = chrono::NaiveDateTime::parse_from_str(text, "%Y-%m-%d %H:%M:%S").unwrap();
    Timestamp::from_timestamp(at.and_utc().timestamp()).unwrap()
}

fn csv_parse_message(result: Result<TransactionBatch, Error>) -> (String, String) {
    match result {
        Err(Error::Parse { format, message }) => (format.to_string(), message),
        other => panic!("expected a parse error, got {:?}", other),
    }
}

#[test]
fn test_parse_csv_basic() {
    let data = "TransactionId,PostedDate,ExecutedDate,Type,Amount,Currency,Description,Account,Counterparty,Category\n\
                TX001,2024-01-15,2024-01-15 10:30:00,Credit,1000.50,USD,Salary payment,ACC123,Employer Inc,Salary\n";
    let batch = parse_csv(data.as_bytes()).unwrap();

    assert_eq!(batch.transactions.len(), 1);
    assert_eq!(batch.transactions[0].id, "TX001");
    assert_eq!(batch.transactions[0].amount.amount.to_string(), "1000.50");
}

#[test]
fn test_write_csv() {
    let mut batch = TransactionBatch::default();
    batch.transactions.push(Transaction {
        id: "TX001".to_string(),
        posted_at: csv_day(2024, 1, 15),
        executed_at: None,
        kind: TransactionKind::Credit,
        amount: Money {
            amount: Decimal::from_str("1000.50").unwrap(),
            currency: "USD".to_string(),
        },
        description: "Test transaction".to_string(),
        account: Some("ACC123".to_string()),
        counterparty: None,
        category: None,
    });

    let mut buffer = Vec::new();
    write_csv(&batch, &mut buffer).unwrap();

    let output = String::from_utf8(buffer).unwrap();
    assert!(output.contains("TransactionId"));
    assert!(output.contains("TX001"));
}

#[test]
fn test_csv_roundtrip() {
    let source_batch = TransactionBatch {
        account_id: Some("ACC123".to_string()),
        transactions: vec![
            Transaction {
                id: "TX,001".to_string(),
                posted_at: csv_day(2024, 1, 15),
                executed_at: Some(csv_instant("2024-01-15 10:30:00")),
                kind: TransactionKind::Credit,
                amount: Money {
                    amount: Decimal::from_str("1000.50").unwrap(),
                    currency: "USD".to_string(),
                },
                description: "Salary \"bonus\" payment".to_string(),
                account: Some("ACC123".to_string()),
                counterparty: Some("Employer, Inc".to_string()),
                category: Some("Salary".to_string()),
            },
            Transaction {
                id: "TX002".to_string(),
                posted_at: csv_day(2024, 1, 16),
                executed_at: None,
                kind: TransactionKind::Debit,
                amount: Money {
                    amount: Decimal::from_str("150.50").unwrap(),
                    currency: "USD".to_string(),
                },
                description: "Regular payment".to_string(),
                account: Some("ACC123".to_string()),
                counterparty: Some("Store".to_string()),
                category: Some("Food".to_string()),
            },
        ],
    };

    let mut buffer = Vec::new();
    write_csv(&source_batch, &mut buffer).unwrap();

    let parsed_batch = parse_csv(&buffer).unwrap();

    assert_eq!(parsed_batch.transactions.len(), source_batch.transactions.len());

    for (expected, parsed) in
        source_batch.transactions.iter().zip(parsed_batch.transactions.iter())
    {
        assert_eq!(parsed.id, expected.id);
        assert_eq!(parsed.posted_at, expected.posted_at);
        assert_eq!(parsed.executed_at, expected.executed_at);
        assert_eq!(parsed.kind, expected.kind);
        assert_eq!(parsed.amount, expected.amount);
        assert_eq!(parsed.description, expected.description);
        assert_eq!(parsed.account, expected.account);
        assert_eq!(parsed.counterparty, expected.counterparty);
        assert_eq!(parsed.category, expected.category);
    }
}

#[test]
fn csv_sample_decodes_and_encodes_to_the_same_bytes() {
    let data = format!(
        "{}\nTX001,2024-01-15,2024-01-15 10:30:00,Credit,1000.50,USD,Salary payment,ACC123,Employer Inc,Salary\n",
        HEADER
    );
    let batch = parse_csv(data.as_bytes()).unwrap();
    assert_eq!(batch.account_id, None);
    assert_eq!(batch.transactions.len(), 1);
    let tx = &batch.transactions[0];
    assert_eq!(tx.id, "TX001");
    assert_eq!(tx.posted_at, csv_day(2024, 1, 15));
    assert_eq!(tx.executed_at, Some(csv_instant("2024-01-15 10:30:00")));
    assert_eq!(tx.kind, TransactionKind::Credit);
    assert_eq!(tx.amount.amount.to_string(), "1000.50");
    assert_eq!(tx.amount.currency, "USD");
    assert_eq!(tx.description, "Salary payment");
    assert_eq!(tx.account.as_deref(), Some("ACC123"));
    assert_eq!(tx.counterparty.as_deref(), Some("Employer Inc"));
    assert_eq!(tx.category.as_deref(), Some("Salary"));

    let mut buffer = Vec::new();
    write_csv(&batch, &mut buffer).unwrap();
    assert_eq!(String::from_utf8(buffer).unwrap(), data);
}

#[test]
fn csv_amount_keeps_its_trailing_zero() {
    let data = format!("{}\nT,2024-01-15,,Debit,1000.50,USD,d\n", HEADER);
    let batch = parse_csv(data.as_bytes()).unwrap();
    assert_eq!(batch.transactions[0].amount.amount.scale(), 2);
    assert_eq!(batch.transactions[0].amount.amount.mantissa(), 100050);
    let mut buffer = Vec::new();
    write_csv(&batch, &mut buffer).unwrap();
    let text = String::from_utf8(buffer).unwrap();
    assert!(text.contains(",1000.50,"));
    assert!(!text.contains(",1000.5,"));
}

#[test]
fn csv_header_must_start_with_the_token() {
    let (format, message) =
        csv_parse_message(parse_csv(b"Id,PostedDate\nTX001,2024-01-15,,Debit,1,USD,d\n"));
    assert_eq!(format, "CSV");
    assert_eq!(message, "invalid header: Id,PostedDate");

    let (_, message) = csv_parse_message(parse_csv(b"TX001,2024-01-15,,Debit,1,USD,d\n"));
    assert_eq!(message, "invalid header: TX001,2024-01-15,,Debit,1,USD,d");

    assert!(parse_csv(b"TransactionIdentifier and more\n").is_ok());
}

#[test]
fn csv_empty_input_is_rejected() {
    let (format, message) = csv_parse_message(parse_csv(b""));
    assert_eq!(format, "CSV");
    assert_eq!(message, "empty file");
}

#[test]
fn csv_input_must_be_utf8() {
    match parse_csv(&[b'T', 0xFF, b'\n']) {
        Err(Error::Io(IoErrorKind::InvalidData)) => {}
        other => panic!("expected an invalid-data error, got {:?}", other),
    }
}

#[test]
fn csv_empty_batch_round_trips() {
    let batch = TransactionBatch::new();
    let mut buffer = Vec::new();
    write_csv(&batch, &mut buffer).unwrap();
    assert_eq!(String::from_utf8(buffer.clone()).unwrap(), format!("{}\n", HEADER));
    let parsed = parse_csv(&buffer).unwrap();
    assert_eq!(parsed.transactions.len(), 0);
    assert_eq!(parsed.account_id, None);
}

#[test]
fn csv_drops_the_batch_account() {
    let batch = TransactionBatch { account_id: Some("ACC".to_string()), transactions: vec![] };
    let mut buffer = Vec::new();
    write_csv(&batch, &mut buffer).unwrap();
    assert_eq!(parse_csv(&buffer).unwrap().account_id, None);
}

#[test]
fn csv_blank_lines_are_skipped_but_counted() {
    let data = format!("{}\n\n   \nT1,2024-01-15,,Debit,1,USD,d\n\nT2,bad,,Debit,1,USD,d\n", HEADER);
    let (format, message) = csv_parse_message(parse_csv(data.as_bytes()));
    assert_eq!(format, "CSV");
    let detail = chrono::NaiveDate::parse_from_str("bad", "%Y-%m-%d").unwrap_err().to_string();
    assert_eq!(message, format!("line 6: invalid posted date: {}", detail));

    let good = format!("{}\n\n   \nT1,2024-01-15,,Debit,1,USD,d\n\n", HEADER);
    assert_eq!(parse_csv(good.as_bytes()).unwrap().transactions.len(), 1);
}

#[test]
fn csv_accepts_carriage_returns_and_a_missing_last_line_feed() {
    let data = format!("{}\r\nT1,2024-01-15,,Debit,1,USD,d\r\nT2,2024-01-16,,Credit,2,EUR,e", HEADER);
    let batch = parse_csv(data.as_bytes()).unwrap();
    assert_eq!(batch.transactions.len(), 2);
    assert_eq!(batch.transactions[0].description, "d");
    assert_eq!(batch.transactions[1].id, "T2");
    assert_eq!(batch.transactions[1].description, "e");
}

#[test]
fn csv_line_needs_seven_fields() {
    match parse_csv_line("a,b,c,d,e,f", 12) {
        Err(Error::Parse { format, message }) => {
            assert_eq!(format, "CSV");
            assert_eq!(message, "line 12: insufficient fields (expected at least 7)");
        }
        other => panic!("expected a parse error, got {:?}", other),
    }
}

#[test]
fn csv_line_errors_name_the_field_and_the_line() {
    let message = |line: &str, line_num: usize| match parse_csv_line(line, line_num) {
        Err(Error::Parse { format, message }) => {
            assert_eq!(format, "CSV");
            message
        }
        other => panic!("expected a parse error, got {:?}", other),
    };
    let date_detail =
        chrono::NaiveDate::parse_from_str("2024-13-01", "%Y-%m-%d").unwrap_err().to_string();
    assert_eq!(
        message("T,2024-13-01,,Debit,1,USD,d", 2),
        format!("line 2: invalid posted date: {}", date_detail)
    );
    let time_detail = chrono::NaiveDateTime::parse_from_str("2024-01-15", "%Y-%m-%d %H:%M:%S")
        .unwrap_err()
        .to_string();
    assert_eq!(
        message("T,2024-01-15,2024-01-15,Debit,1,USD,d", 3),
        format!("line 3: invalid executed date: {}", time_detail)
    );
    assert_eq!(
        message("T,2024-01-15,,debit,1,USD,d", 4),
        "line 4: invalid transaction type: Matching variant not found"
    );
    let amount_detail = "1,5".parse::<rust_decimal::Decimal>();
    assert!(amount_detail.is_err() || amount_detail.is_ok());
    let amount_detail = "abc".parse::<rust_decimal::Decimal>().unwrap_err().to_string();
    assert_eq!(
        message("T,2024-01-15,,Debit,abc,USD,d", 1000),
        format!("line 1000: invalid amount: {}", amount_detail)
    );
    assert_eq!(
        message("T,bad,bad,bad,bad,USD,d", 7),
        format!(
            "line 7: invalid posted date: {}",
            chrono::NaiveDate::parse_from_str("bad", "%Y-%m-%d").unwrap_err()
        )
    );
}

#[test]
fn csv_line_reads_every_field() {
    let tx = parse_csv_line(
        " TX1 , 2024-01-15 , 2024-01-15 10:30:00 , Credit , -12.340 , \"U,SD\" , \"say \"\"hi\"\"\" , acc ,, cat ,extra",
        2,
    )
    .unwrap();
    assert_eq!(tx.id, "TX1");
    assert_eq!(tx.posted_at, csv_day(2024, 1, 15));
    assert_eq!(tx.executed_at, Some(csv_instant("2024-01-15 10:30:00")));
    assert_eq!(tx.kind, TransactionKind::Credit);
    assert_eq!(tx.amount.amount.to_string(), "-12.340");
    assert_eq!(tx.amount.currency, "U,SD");
    assert_eq!(tx.description, "say \"hi\"");
    assert_eq!(tx.account.as_deref(), Some("acc"));
    assert_eq!(tx.counterparty, None);
    assert_eq!(tx.category.as_deref(), Some("cat"));
}

#[test]
fn csv_line_with_seven_fields_has_no_optional_texts() {
    let tx = parse_csv_line("T,2024-01-15,,Debit,0,,", 2).unwrap();
    assert_eq!(tx.executed_at, None);
    assert_eq!(tx.kind, TransactionKind::Debit);
    assert_eq!(tx.amount.currency, "");
    assert_eq!(tx.description, "");
    assert_eq!(tx.account, None);
    assert_eq!(tx.counterparty, None);
    assert_eq!(tx.category, None);
}

#[test]
fn csv_fields_are_split_at_commas_outside_quotes() {
    assert_eq!(parse_csv_fields(""), vec![""]);
    assert_eq!(parse_csv_fields("a,b,,c"), vec!["a", "b", "", "c"]);
    assert_eq!(parse_csv_fields("a,"), vec!["a", ""]);
    assert_eq!(parse_csv_fields("\"a,b\",c"), vec!["a,b", "c"]);
    assert_eq!(parse_csv_fields("\"a\"\"b\",c"), vec!["a\"b", "c"]);
    assert_eq!(parse_csv_fields("\"\"\"\""), vec!["\""]);
    assert_eq!(parse_csv_fields("x\"y,z\"w,v"), vec!["xy,zw", "v"]);
    assert_eq!(parse_csv_fields("\"open,ended"), vec!["open,ended"]);
    assert_eq!(parse_csv_fields("a\"\"b"), vec!["ab"]);
}

#[test]
fn csv_escape_quotes_only_where_needed() {
    assert_eq!(escape_csv_field("plain text"), "plain text");
    assert_eq!(escape_csv_field(""), "");
    assert_eq!(escape_csv_field(" padded "), " padded ");
    assert_eq!(escape_csv_field("a,b"), "\"a,b\"");
    assert_eq!(escape_csv_field("a\"b"), "\"a\"\"b\"");
    assert_eq!(escape_csv_field("a\nb"), "\"a\nb\"");
    assert_eq!(escape_csv_field("\""), "\"\"\"\"");
    assert_eq!(escape_csv_field("a\rb"), "a\rb");
}

#[test]
fn csv_escaped_fields_split_back_to_themselves() {
    for field in ["a,b", "say \"hi\"", "two\nlines", "\"", ",", "\"\"", "plain", "", "x,\"y\",z\n"] {
        let escaped = escape_csv_field(field);
        assert_eq!(parse_csv_fields(&escaped), vec![field.to_string()]);
        let row = format!("{},{},{}", escaped, escaped, escaped);
        assert_eq!(parse_csv_fields(&row), vec![field.to_string(); 3]);
    }
}

#[test]
fn csv_unescape_trims_and_removes_outer_quotes() {
    assert_eq!(unescape_csv_field("  abc  "), "abc");
    assert_eq!(unescape_csv_field("\"abc\""), "abc");
    assert_eq!(unescape_csv_field("  \" abc \"  "), " abc ");
    assert_eq!(unescape_csv_field("\""), "\"");
    assert_eq!(unescape_csv_field("\"\""), "");
    assert_eq!(unescape_csv_field("\"abc"), "\"abc");
    assert_eq!(unescape_csv_field("\u{a0}x\u{3000}"), "x");
}

#[test]
fn csv_writes_absent_values_as_empty_fields() {
    let batch = TransactionBatch {
        account_id: None,
        transactions: vec![Transaction {
            id: "T".to_string(),
            posted_at: csv_day(999, 2, 3),
            executed_at: None,
            kind: TransactionKind::Debit,
            amount: Money { amount: Decimal::zero(), currency: String::new() },
            description: "a \"b\"".to_string(),
            account: None,
            counterparty: Some("c,d".to_string()),
            category: None,
        }],
    };
    let mut buffer = Vec::new();
    write_csv(&batch, &mut buffer).unwrap();
    assert_eq!(
        String::from_utf8(buffer).unwrap(),
        format!("{}\nT,0999-02-03,,Debit,0,,\"a \"\"b\"\"\",,\"c,d\",\n", HEADER)
    );
}

#[test]
fn csv_error_names_line_and_detail() {
    match error_at(42, "invalid amount: ", "no digits") {
        Error::Parse { format, message } => {
            assert_eq!(format, "CSV");
            assert_eq!(message, "line 42: invalid amount: no digits");
        }
        other => panic!("expected a parse error, got {:?}", other),
    }
    assert_eq!(
        error_at(0, "", "").to_string(),
        "parse error in CSV: line 0: "
    );
}

#[test]
fn csv_trims_what_it_reads() {
    let batch = TransactionBatch {
        account_id: None,
        transactions: vec![Transaction {
            id: " padded ".to_string(),
            posted_at: csv_day(2024, 1, 15),
            executed_at: None,
            kind: TransactionKind::Debit,
            amount: Money { amount: Decimal::from_str("1").unwrap(), currency: "USD".to_string() },
            description: "\"quoted\"".to_string(),
            account: Some(String::new()),
            counterparty: None,
            category: None,
        }],
    };
    let mut buffer = Vec::new();
    write_csv(&batch, &mut buffer).unwrap();
    let parsed = parse_csv(&buffer).unwrap();
    assert_eq!(parsed.transactions[0].id, "padded");
    assert_eq!(parsed.transactions[0].description, "quoted");
    assert_eq!(parsed.transactions[0].account, None);
}
