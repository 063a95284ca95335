use chrono::Datelike;
use parser::formats::text::{error_at, parse_text, text_step, write_text, TextState};
use parser::{
    Date, Decimal, Error, IoErrorKind, Money, Timestamp, Transaction, TransactionBatch,
    TransactionKind,
};

fn text_day(year: i32, month: u32, day: u32) -> Date {
    let date = chrono::NaiveDate::from_ymd_opt(year, month, day).unwrap();
    Date::from_num_days_from_ce_opt(date.num_days_from_ce()).unwrap()
}

fn text_instant(text: &str) -> Timestamp {
    let at = chrono::NaiveDateTime::parse_from_str(text, "%Y-%m-%d %H:%M:%S").unwrap();
    Timestamp::from_timestamp(at.and_utc().timestamp()).unwrap()
}

fn text_parse_message(result: Result<TransactionBatch, Error>) -> (String, String) {
    match result {
        Err(Error::Parse { format, message }) => (format.to_string(), message),
        other => panic!("expected a parse error, got {:?}", other),
    }
}

fn fresh(id: &str) -> Transaction {
    Transaction {
        id: id.to_string(),
        posted_at: text_day(1970, 1, 1),
        executed_at: None,
        kind: TransactionKind::Debit,
        amount: Money { amount: Decimal::zero(), currency: String::new() },
        description: String::new(),
        account: None,
        counterparty: None,
        category: None,
    }
}

fn full_transaction() -> Transaction {
    Transaction {
        id: "TX001".to_string(),
        posted_at: text_day(2024, 1, 15),
        executed_at: Some(text_instant("2024-01-15 10:30:00")),
        kind: TransactionKind::Credit,
        amount: Money {
            amount: Decimal::from_str("1000.50").unwrap(),
            currency: "USD".to_string(),
        },
        description: "Salary, with \"bonus\"".to_string(),
        account: Some("ACC123".to_string()),
        counterparty: Some("Employer Inc".to_string()),
        category: Some("Salary".to_string()),
    }
}

#[test]
fn test_parse_text_basic() {
    let data = "Account: ACC123\n\n\
                ID: TX001\n\
                Date: 2024-01-15\n\
                Type: Credit\n\
                Amount: 1000.50 USD\n\
                Description: Test payment\n\
                ---\n\
                ID: TX002\n\
                Date: 2024-01-16\n\
                Type: Debit\n\
                Amount: 50.00 USD\n\
                Description: Fee\n";

    let batch = parse_text(data.as_bytes()).unwrap();

    assert_eq!(batch.account_id.as_deref(), Some("ACC123"));
    assert_eq!(batch.transactions.len(), 2);
    assert_eq!(batch.transactions[0].id, "TX001");
    assert_eq!(batch.transactions[1].id, "TX002");
}

#[test]
fn test_write_text() {
    let mut batch = TransactionBatch { account_id: Some("ACC123".to_string()), transactions: vec![] };

    batch.transactions.push(Transaction {
        id: "TX001".to_string(),
        posted_at: text_day(2024, 1, 15),
        executed_at: None,
        kind: TransactionKind::Credit,
        amount: Money {
            amount: Decimal::from_str("1000.50").unwrap(),
            currency: "USD".to_string(),
        },
        description: "Test".to_string(),
        account: None,
        counterparty: None,
        category: None,
    });

    let mut buffer = Vec::new();
    write_text(&batch, &mut buffer).unwrap();

    let output = String::from_utf8(buffer).unwrap();
    assert!(output.contains("ID: TX001"));
    assert!(output.contains("Account: ACC123"));
}

#[test]
fn text_output_is_exact() {
    let batch = TransactionBatch {
        account_id: Some("ACC123".to_string()),
        transactions: vec![
            full_transaction(),
            Transaction {
                id: "TX002".to_string(),
                posted_at: text_day(2024, 1, 16),
                kind: TransactionKind::Debit,
                amount: Money {
                    amount: Decimal::from_str("-0.5").unwrap(),
                    currency: "EUR".to_string(),
                },
                ..fresh("")
            },
        ],
    };
    let mut buffer = b"> ".to_vec();
    write_text(&batch, &mut buffer).unwrap();
    assert_eq!(
        String::from_utf8(buffer).unwrap(),
        "> Account: ACC123\n\n\
         ID: TX001\n\
         Date: 2024-01-15\n\
         ExecutedDate: 2024-01-15 10:30:00\n\
         Type: Credit\n\
         Amount: 1000.50 USD\n\
         Description: Salary, with \"bonus\"\n\
         Account: ACC123\n\
         Counterparty: Employer Inc\n\
         Category: Salary\n\
         ---\n\
         ID: TX002\n\
         Date: 2024-01-16\n\
         Type: Debit\n\
         Amount: -0.5 EUR\n\
         Description: \n"
    );
}

#[test]
fn text_round_trips_a_batch_with_an_account() {
    let batch = TransactionBatch {
        account_id: Some("ACC123".to_string()),
        transactions: vec![
            full_transaction(),
            Transaction { id: "TX002".to_string(), ..full_transaction() },
            Transaction {
                amount: Money { amount: Decimal::zero(), currency: "X".to_string() },
                ..fresh("TX003")
            },
        ],
    };
    let mut buffer = Vec::new();
    write_text(&batch, &mut buffer).unwrap();
    assert_eq!(parse_text(&buffer).unwrap(), batch);
}

#[test]
fn text_empty_batch_round_trips() {
    let with_account =
        TransactionBatch { account_id: Some("ACC123".to_string()), transactions: vec![] };
    let mut buffer = Vec::new();
    write_text(&with_account, &mut buffer).unwrap();
    assert_eq!(String::from_utf8(buffer.clone()).unwrap(), "Account: ACC123\n\n");
    assert_eq!(parse_text(&buffer).unwrap(), with_account);

    let without_account = TransactionBatch::new();
    let mut buffer = Vec::new();
    write_text(&without_account, &mut buffer).unwrap();
    assert!(buffer.is_empty());
    let parsed = parse_text(&buffer).unwrap();
    assert_eq!(parsed.transactions.len(), 0);
    assert_eq!(parsed.account_id, None);
}

#[test]
fn text_second_id_line_closes_the_first_transaction() {
    let data = "Account: A\nID: TX001\nDescription: first\nID: TX002\nDescription: second\n";
    let batch = parse_text(data.as_bytes()).unwrap();
    assert_eq!(batch.transactions.len(), 2);
    assert_eq!(batch.transactions[0].id, "TX001");
    assert_eq!(batch.transactions[0].description, "first");
    assert_eq!(batch.transactions[1].id, "TX002");
    assert_eq!(batch.transactions[1].description, "second");

    let two = parse_text(b"header\nID: a\nID: b").unwrap();
    assert_eq!(two.transactions, vec![fresh("a"), fresh("b")]);
}

#[test]
fn text_first_line_is_always_the_header() {
    let batch = parse_text(b"ID: lost\nDate: 2024-01-15\nID: kept\n").unwrap();
    assert_eq!(batch.account_id, None);
    assert_eq!(batch.transactions, vec![fresh("kept")]);

    let batch = parse_text(b"Account:   spaced  \nID: x\n").unwrap();
    assert_eq!(batch.account_id.as_deref(), Some("spaced"));

    let batch = parse_text(b"  Account: indented\n").unwrap();
    assert_eq!(batch.account_id, None);
}

#[test]
fn text_missing_keys_leave_the_defaults() {
    let batch = parse_text(b"Account: A\n\nID: TX1\n").unwrap();
    assert_eq!(batch.transactions, vec![fresh("TX1")]);
    assert_eq!(batch.transactions[0].posted_at.num_days_from_ce(), 719_163);
    assert_eq!(batch.transactions[0].amount.amount.to_string(), "0");
}

#[test]
fn text_unknown_keys_and_stray_lines_are_ignored() {
    let data = "Account: A\nDate: 2024-01-15\nnonsense\nID: TX1\nColour: blue\n  Type: Credit  \nType:Debit\n";
    let batch = parse_text(data.as_bytes()).unwrap();
    assert_eq!(batch.transactions.len(), 1);
    assert_eq!(batch.transactions[0].kind, TransactionKind::Credit);
    assert_eq!(batch.transactions[0].posted_at, text_day(1970, 1, 1));
}

#[test]
fn text_errors_carry_the_line_number() {
    let date_detail =
        chrono::NaiveDate::parse_from_str("15.01.2024", "%Y-%m-%d").unwrap_err().to_string();
    let (format, message) =
        text_parse_message(parse_text(b"Account: A\n\nID: TX1\nDate: 15.01.2024\n"));
    assert_eq!(format, "Text");
    assert_eq!(message, format!("line 4: invalid date: {}", date_detail));

    let time_detail = chrono::NaiveDateTime::parse_from_str("noon", "%Y-%m-%d %H:%M:%S")
        .unwrap_err()
        .to_string();
    let (_, message) = text_parse_message(parse_text(b"h\nID: TX1\nExecutedDate: noon\n"));
    assert_eq!(message, format!("line 3: invalid executed date: {}", time_detail));

    let (_, message) = text_parse_message(parse_text(b"h\nID: TX1\nType: credit\n"));
    assert_eq!(message, "line 3: invalid type: credit");

    let (_, message) = text_parse_message(parse_text(b"h\nID: TX1\n\nID: TX2\nAmount: 5\n"));
    assert_eq!(message, "line 5: invalid amount format");

    let (_, message) = text_parse_message(parse_text(b"h\nID: TX1\nAmount: 5 USD extra\n"));
    assert_eq!(message, "line 3: invalid amount format");

    let amount_detail = "five".parse::<rust_decimal::Decimal>().unwrap_err().to_string();
    let (_, message) = text_parse_message(parse_text(b"h\nID: TX1\nAmount: five USD\n"));
    assert_eq!(message, format!("line 3: invalid amount: {}", amount_detail));
}

#[test]
fn text_input_must_be_utf8() {
    match parse_text(&[b'I', b'D', 0xC0]) {
        Err(Error::Io(IoErrorKind::InvalidData)) => {}
        other => panic!("expected an invalid-data error, got {:?}", other),
    }
}

#[test]
fn text_amount_takes_any_whitespace_between_its_parts() {
    let batch = parse_text("h\nID: T\nAmount:   12.5\t\u{a0}USD  \n".as_bytes()).unwrap();
    assert_eq!(batch.transactions[0].amount.amount.to_string(), "12.5");
    assert_eq!(batch.transactions[0].amount.currency, "USD");
}

#[test]
fn text_step_flushes_on_blank_line() {
    let mut done = Vec::new();
    let state = text_step(TextState::Building(fresh("a")), "   ", 3, &mut done).unwrap();
    assert_eq!(state, TextState::Idle);
    assert_eq!(done, vec![fresh("a")]);
    let state = text_step(state, "", 4, &mut done).unwrap();
    assert_eq!(state, TextState::Idle);
    assert_eq!(done.len(), 1);
}

#[test]
fn text_step_flushes_on_separator() {
    let mut done = vec![fresh("first")];
    let state = text_step(TextState::Building(fresh("a")), " --- ", 3, &mut done).unwrap();
    assert_eq!(state, TextState::Idle);
    assert_eq!(done, vec![fresh("first"), fresh("a")]);
}

#[test]
fn text_step_flushes_on_new_id() {
    let mut done = Vec::new();
    let state = text_step(TextState::Building(fresh("a")), "ID: b", 3, &mut done).unwrap();
    assert_eq!(state, TextState::Building(fresh("b")));
    assert_eq!(done, vec![fresh("a")]);
    let state = text_step(TextState::Idle, "ID:  c d ", 4, &mut done).unwrap();
    assert_eq!(state, TextState::Building(fresh(" c d")));
    assert_eq!(done.len(), 1);
}

#[test]
fn text_step_sets_fields_of_the_open_transaction() {
    let mut done = Vec::new();
    let mut state = TextState::Building(fresh("TX001"));
    for line in [
        "Date: 2024-01-15",
        "ExecutedDate: 2024-01-15 10:30:00",
        "Type: Credit",
        "Amount: 1000.50 USD",
        "Description: Salary, with \"bonus\"",
        "Account: ACC123",
        "Counterparty: Employer Inc",
        "Category: Salary",
    ] {
        state = text_step(state, line, 9, &mut done).unwrap();
    }
    assert_eq!(state, TextState::Building(full_transaction()));
    assert!(done.is_empty());
}

#[test]
fn text_step_without_open_transaction_ignores_fields() {
    let mut done = Vec::new();
    let state = text_step(TextState::Idle, "Date: not a date", 2, &mut done).unwrap();
    assert_eq!(state, TextState::Idle);
    assert!(done.is_empty());
}

#[test]
fn text_step_error_leaves_done_untouched() {
    let mut done = vec![fresh("first")];
    let result = text_step(TextState::Building(fresh("a")), "Type: Neither", 17, &mut done);
    match result {
        Err(Error::Parse { format, message }) => {
            assert_eq!(format, "Text");
            assert_eq!(message, "line 17: invalid type: Neither");
        }
        other => panic!("expected a parse error, got {:?}", other),
    }
    assert_eq!(done, vec![fresh("first")]);
}

#[test]
fn text_error_names_line_and_detail() {
    let tail: Vec<char> = "neither".chars().collect();
    match error_at(7, "invalid type: ", &tail) {
        Error::Parse { format, message } => {
            assert_eq!(format, "Text");
            assert_eq!(message, "line 7: invalid type: neither");
        }
        other => panic!("expected a parse error, got {:?}", other),
    }
}

#[test]
fn text_without_account_loses_its_first_transaction() {
    let priced = |id: &str| Transaction {
        amount: Money { amount: Decimal::zero(), currency: "USD".to_string() },
        ..fresh(id)
    };
    let batch = TransactionBatch { account_id: None, transactions: vec![priced("a"), priced("b")] };
    let mut buffer = Vec::new();
    write_text(&batch, &mut buffer).unwrap();
    let parsed = parse_text(&buffer).unwrap();
    assert_eq!(parsed.account_id, None);
    assert_eq!(parsed.transactions, vec![priced("b")]);
}

#[test]
fn text_amount_without_currency_does_not_read_back() {
    let batch =
        TransactionBatch { account_id: Some("A".to_string()), transactions: vec![fresh("a")] };
    let mut buffer = Vec::new();
    write_text(&batch, &mut buffer).unwrap();
    let (format, message) = text_parse_message(parse_text(&buffer));
    assert_eq!(format, "Text");
    assert_eq!(message, "line 6: invalid amount format");
}
