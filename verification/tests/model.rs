use chrono::Datelike;
use parser::calendar::{EPOCH_DAY, MAX_DAY, MIN_DAY};
use parser::decimal::{MAX_MANTISSA, MAX_SCALE};
use parser::strings::{
    from_chars, is_literal, lines, push_chars, push_number, push_str, same_chars, slice_chars,
    strip_literal_prefix, to_chars, trim_chars, words, write_utf8,
};
use parser::{
    parse, Date, Decimal, Error, Format, IoErrorKind, Money, Timestamp, Transaction,
    TransactionBatch, TransactionKind,
};

fn chars(text: &str) -> Vec<char> {
    text.chars().collect()
}

fn texts(parts: Vec<Vec<char>>) -> Vec<String> {
    parts.into_iter().map(|p| p.into_iter().collect()).collect()
}

fn sample_batch() -> TransactionBatch {
    TransactionBatch {
        account_id: Some("ACC123".to_string()),
        transactions: vec![Transaction {
            id: "TX001".to_string(),
            posted_at: Date::parse_from_str("2024-01-15").unwrap(),
            executed_at: Some(Timestamp::parse_from_str("2024-01-15 10:30:00").unwrap()),
            kind: TransactionKind::Credit,
            amount: Money {
                amount: Decimal::from_str("1000.50").unwrap(),
                currency: "USD".to_string(),
            },
            description: "Salary payment".to_string(),
            account: Some("ACC123".to_string()),
            counterparty: Some("Employer Inc".to_string()),
            category: Some("Salary".to_string()),
        }],
    }
}

#[test]
fn date_range_is_that_of_chrono() {
    assert_eq!(chrono::NaiveDate::MIN.num_days_from_ce(), MIN_DAY);
    assert_eq!(chrono::NaiveDate::MAX.num_days_from_ce(), MAX_DAY);
    assert_eq!(chrono::NaiveDate::from_ymd_opt(1970, 1, 1).unwrap().num_days_from_ce(), EPOCH_DAY);
    assert!(Date::from_num_days_from_ce_opt(MIN_DAY).is_some());
    assert!(Date::from_num_days_from_ce_opt(MAX_DAY).is_some());
    assert!(Date::from_num_days_from_ce_opt(MIN_DAY - 1).is_none());
    assert!(Date::from_num_days_from_ce_opt(MAX_DAY + 1).is_none());
    assert!(Date::from_num_days_from_ce_opt(i32::MIN).is_none());
    assert!(Date::from_num_days_from_ce_opt(i32::MAX).is_none());
    assert_eq!(Date::from_num_days_from_ce_opt(730_000).unwrap().num_days_from_ce(), 730_000);
    assert_eq!(Date::epoch().num_days_from_ce(), 719_163);
}

#[test]
fn timestamp_range_is_that_of_chrono() {
    let first = (MIN_DAY as i64 - EPOCH_DAY as i64) * 86_400;
    let last = (MAX_DAY as i64 - EPOCH_DAY as i64) * 86_400 + 86_399;
    assert_eq!(chrono::NaiveDateTime::MIN.and_utc().timestamp(), first);
    assert_eq!(chrono::NaiveDateTime::MAX.and_utc().timestamp(), last);
    assert!(Timestamp::from_timestamp(first).is_some());
    assert!(Timestamp::from_timestamp(last).is_some());
    assert!(Timestamp::from_timestamp(first - 1).is_none());
    assert!(Timestamp::from_timestamp(last + 1).is_none());
    assert!(Timestamp::from_timestamp(i64::MIN).is_none());
    assert!(Timestamp::from_timestamp(i64::MAX).is_none());
    assert_eq!(Timestamp::from_timestamp(-1).unwrap().timestamp(), -1);
    assert_eq!(Timestamp::from_timestamp(-1).unwrap().to_string(), "1969-12-31 23:59:59");
}

#[test]
fn date_text_is_year_month_day() {
    let date = Date::parse_from_str("2024-01-15").unwrap();
    assert_eq!(
        date.num_days_from_ce(),
        chrono::NaiveDate::from_ymd_opt(2024, 1, 15).unwrap().num_days_from_ce()
    );
    assert_eq!(date.to_string(), "2024-01-15");
    assert_eq!(Date::epoch().to_string(), "1970-01-01");
    assert_eq!(Date::from_num_days_from_ce_opt(1).unwrap().to_string(), "0001-01-01");
    assert_eq!(Date::from_num_days_from_ce_opt(0).unwrap().to_string(), "0000-12-31");
    assert_eq!(Date::from_num_days_from_ce_opt(-366).unwrap().to_string(), "-0001-12-31");
    assert_eq!(Date::from_num_days_from_ce_opt(MAX_DAY).unwrap().to_string(), "+262142-12-31");
    assert_eq!(Date::from_num_days_from_ce_opt(MIN_DAY).unwrap().to_string(), "-262143-01-01");
    assert_eq!(
        Date::parse_from_str("2024-02-30").unwrap_err(),
        chrono::NaiveDate::parse_from_str("2024-02-30", "%Y-%m-%d").unwrap_err().to_string()
    );
}

#[test]
fn date_text_parses_back_to_the_date() {
    for days in [MIN_DAY, MIN_DAY + 1, -366, -1, 0, 1, 365, 719_163, 738_900, 3_652_059, 3_652_060, MAX_DAY] {
        let date = Date::from_num_days_from_ce_opt(days).unwrap();
        assert_eq!(Date::parse_from_str(&date.to_string()).unwrap(), date);
    }
}

#[test]
fn timestamp_text_is_date_and_time() {
    let at = Timestamp::parse_from_str("2024-01-15 10:30:00").unwrap();
    assert_eq!(at.timestamp(), 1_705_314_600);
    assert_eq!(at.to_string(), "2024-01-15 10:30:00");
    assert_eq!(Timestamp::from_timestamp(0).unwrap().to_string(), "1970-01-01 00:00:00");
    assert_eq!(
        Timestamp::parse_from_str("2024-01-15").unwrap_err(),
        chrono::NaiveDateTime::parse_from_str("2024-01-15", "%Y-%m-%d %H:%M:%S")
            .unwrap_err()
            .to_string()
    );
}

#[test]
fn timestamp_text_parses_back_to_the_timestamp() {
    let first = (MIN_DAY as i64 - EPOCH_DAY as i64) * 86_400;
    let last = (MAX_DAY as i64 - EPOCH_DAY as i64) * 86_400 + 86_399;
    for secs in [first, -86_401, -1, 0, 59, 86_399, 1_705_314_600, 253_402_300_799, 253_402_300_800, last] {
        let at = Timestamp::from_timestamp(secs).unwrap();
        assert_eq!(Timestamp::parse_from_str(&at.to_string()).unwrap(), at);
    }
}

#[test]
fn decimal_keeps_its_scale() {
    let amount = Decimal::from_str("1000.50").unwrap();
    assert_eq!(amount.mantissa(), 100_050);
    assert_eq!(amount.scale(), 2);
    assert_eq!(amount.to_string(), "1000.50");
    assert_ne!(amount.to_string(), "1000.5");
    assert_eq!(Decimal::from_str(&amount.to_string()).unwrap().to_string(), "1000.50");
    assert_eq!(Decimal::zero().to_string(), "0");
    assert_eq!(Decimal::try_new(-5, 3).unwrap().to_string(), "-0.005");
    assert_eq!(Decimal::try_new(12345, 2).unwrap().to_string(), "123.45");
}

#[test]
fn decimal_equality_is_by_number() {
    assert_eq!(Decimal::from_str("1000.50").unwrap(), Decimal::from_str("1000.5").unwrap());
    assert_eq!(Decimal::from_str("0").unwrap(), Decimal::from_str("0.000").unwrap());
    assert_ne!(Decimal::from_str("1000.50").unwrap(), Decimal::from_str("1000.51").unwrap());
    assert_ne!(Decimal::from_str("1").unwrap(), Decimal::from_str("-1").unwrap());
    assert_ne!(
        Decimal::from_str("0.1").unwrap(),
        Decimal::from_str("0.1000000000000000000000000001").unwrap()
    );
    assert_eq!(
        Decimal::try_new(MAX_MANTISSA, 0).unwrap(),
        Decimal::try_new(MAX_MANTISSA, 0).unwrap()
    );
}

#[test]
fn decimal_range_is_that_of_rust_decimal() {
    assert_eq!(rust_decimal::Decimal::MAX.mantissa(), MAX_MANTISSA);
    assert_eq!(rust_decimal::Decimal::MIN.mantissa(), -MAX_MANTISSA);
    assert_eq!(rust_decimal::Decimal::MAX_SCALE, MAX_SCALE);
    assert!(Decimal::try_new(MAX_MANTISSA, MAX_SCALE).is_some());
    assert!(Decimal::try_new(-MAX_MANTISSA, 0).is_some());
    assert!(Decimal::try_new(MAX_MANTISSA + 1, 0).is_none());
    assert!(Decimal::try_new(-MAX_MANTISSA - 1, 0).is_none());
    assert!(Decimal::try_new(1, MAX_SCALE + 1).is_none());
    assert_eq!(
        Decimal::from_str("abc").unwrap_err(),
        "abc".parse::<rust_decimal::Decimal>().unwrap_err().to_string()
    );
}

#[test]
fn decimal_text_parses_back_to_the_decimal() {
    for (mantissa, scale) in [
        (0, 0),
        (0, 28),
        (5, 3),
        (-5, 3),
        (100_050, 2),
        (1, 28),
        (-1, 28),
        (MAX_MANTISSA, 0),
        (MAX_MANTISSA, 28),
        (-MAX_MANTISSA, 28),
        (-MAX_MANTISSA, 14),
        (18_446_744_073_709_551_616, 5),
        (999_999_999_999_999_999, 18),
    ] {
        let amount = Decimal::try_new(mantissa, scale).unwrap();
        let back = Decimal::from_str(&amount.to_string()).unwrap();
        assert_eq!(back.mantissa(), mantissa);
        assert_eq!(back.scale(), scale);
    }
}

#[test]
fn decimal_text_matches_rust_decimal() {
    let theirs = rust_decimal::Decimal::from_i128_with_scale(-123_456, 4);
    let ours = Decimal::try_new(-123_456, 4).unwrap();
    assert_eq!(ours.to_string(), theirs.to_string());
    assert_eq!(ours.to_string(), "-12.3456");
}

#[test]
fn kind_names_are_exact() {
    assert_eq!(TransactionKind::Debit.as_str(), "Debit");
    assert_eq!(TransactionKind::Credit.as_str(), "Credit");
    assert_eq!(TransactionKind::from_chars(&chars("Debit")), Some(TransactionKind::Debit));
    assert_eq!(TransactionKind::from_chars(&chars("Credit")), Some(TransactionKind::Credit));
    assert_eq!(TransactionKind::from_chars(&chars("credit")), None);
    assert_eq!(TransactionKind::from_chars(&chars("Credit ")), None);
    assert_eq!(TransactionKind::from_chars(&chars("")), None);
    assert_eq!(TransactionKind::from_str("Debit"), Some(TransactionKind::Debit));
    assert_eq!(TransactionKind::from_str("Credit"), Some(TransactionKind::Credit));
    assert_eq!(TransactionKind::from_str("DEBIT"), None);
    for kind in [TransactionKind::Debit, TransactionKind::Credit] {
        assert_eq!(TransactionKind::from_str(kind.as_str()), Some(kind));
    }
}

#[test]
fn format_names_are_case_insensitive() {
    assert_eq!(Format::from_str("csv").unwrap(), Format::Csv);
    assert_eq!(Format::from_str("CSV").unwrap(), Format::Csv);
    assert_eq!(Format::from_str("text").unwrap(), Format::Text);
    assert_eq!(Format::from_str("Txt").unwrap(), Format::Text);
    assert_eq!(Format::from_str("BINARY").unwrap(), Format::Binary);
    assert_eq!(Format::from_str("bIn").unwrap(), Format::Binary);
    assert_eq!(Format::from_lowercase("bin").unwrap(), Format::Binary);
    assert!(Format::from_lowercase("BIN").is_err());
    for format in [Format::Csv, Format::Text, Format::Binary] {
        assert_eq!(Format::from_str(format.as_str()).unwrap(), format);
    }
}

#[test]
fn format_unknown_name_is_unsupported() {
    for name in ["", "json", "csv ", "binaries"] {
        match Format::from_str(name) {
            Err(Error::UnsupportedFormat(what)) => assert_eq!(what, "unknown format"),
            other => panic!("expected an unsupported-format error, got {:?}", other),
        }
    }
}

#[test]
fn format_as_str_is_the_canonical_name() {
    assert_eq!(Format::Csv.as_str(), "csv");
    assert_eq!(Format::Text.as_str(), "text");
    assert_eq!(Format::Binary.as_str(), "binary");
}

#[test]
fn error_descriptions() {
    assert_eq!(
        Error::parse("CSV", "Missing required field: id".to_string()).to_string(),
        "parse error in CSV: Missing required field: id"
    );
    assert_eq!(
        Error::UnsupportedFormat("unknown format").to_string(),
        "unsupported format: unknown format"
    );
    assert_eq!(
        Error::Io(IoErrorKind::UnexpectedEof).to_string(),
        "I/O error: failed to fill whole buffer"
    );
    assert_eq!(
        Error::Io(IoErrorKind::InvalidData).to_string(),
        "I/O error: stream did not contain valid UTF-8"
    );
}

#[test]
fn dispatcher_routes_by_format() {
    let batch = sample_batch();
    for format in [Format::Csv, Format::Text, Format::Binary] {
        let mut buffer = Vec::new();
        parser::write(&batch, &mut buffer, format).unwrap();
        let parsed = parse(&buffer, format).unwrap();
        assert_eq!(parsed.transactions, batch.transactions);
        match format {
            Format::Csv => assert_eq!(parsed.account_id, None),
            _ => assert_eq!(parsed.account_id, batch.account_id),
        }
    }
    let mut csv = Vec::new();
    parser::write(&batch, &mut csv, Format::Csv).unwrap();
    assert!(csv.starts_with(b"TransactionId,"));
    assert!(parse(&csv, Format::Binary).is_err());
    let mut text = Vec::new();
    parser::write(&batch, &mut text, Format::Text).unwrap();
    assert!(text.starts_with(b"Account: ACC123\n\nID: TX001\n"));
    let mut binary = Vec::new();
    parser::write(&batch, &mut binary, Format::Binary).unwrap();
    assert!(binary.starts_with(&[0x46, 0x42, 0x50, 0x59, 1]));
    assert!(parse(&binary, Format::Csv).is_err());
}

#[test]
fn dispatcher_converts_between_formats() {
    let batch = sample_batch();
    let mut text = Vec::new();
    parser::write(&batch, &mut text, Format::Text).unwrap();
    let from_text = parse(&text, Format::Text).unwrap();
    let mut binary = Vec::new();
    parser::write(&from_text, &mut binary, Format::Binary).unwrap();
    let from_binary = parse(&binary, Format::Binary).unwrap();
    assert_eq!(from_binary, batch);
}

#[test]
fn empty_batch_round_trips_in_every_format() {
    for format in [Format::Csv, Format::Text, Format::Binary] {
        let mut buffer = Vec::new();
        parser::write(&TransactionBatch::new(), &mut buffer, format).unwrap();
        let parsed = parse(&buffer, format).unwrap();
        assert_eq!(parsed.transactions.len(), 0);
        assert_eq!(parsed.account_id, None);
    }
}

#[test]
fn strings_convert_between_text_and_characters() {
    assert_eq!(to_chars("héllo"), chars("héllo"));
    assert_eq!(from_chars(&chars("héllo")), "héllo");
    assert_eq!(to_chars(""), Vec::<char>::new());
    let mut out = chars("ab");
    push_str(&mut out, "cd");
    push_chars(&mut out, &chars("ef"));
    assert_eq!(out, chars("abcdef"));
    assert_eq!(slice_chars(&chars("abcdef"), 2, 4), chars("cd"));
    assert_eq!(slice_chars(&chars("abcdef"), 3, 3), chars(""));
    assert!(same_chars(&chars("abc"), &chars("abc")));
    assert!(!same_chars(&chars("abc"), &chars("abd")));
    assert!(!same_chars(&chars("abc"), &chars("ab")));
    assert!(is_literal(&chars("---"), "---"));
    assert!(!is_literal(&chars("--"), "---"));
    let mut bytes = vec![1u8];
    write_utf8(&mut bytes, &chars("é€"));
    assert_eq!(bytes, vec![1, 0xC3, 0xA9, 0xE2, 0x82, 0xAC]);
}

#[test]
fn strings_trim_removes_unicode_whitespace() {
    assert_eq!(trim_chars(&chars("  a b  ")), chars("a b"));
    assert_eq!(trim_chars(&chars("\t\r\n\u{b}\u{c}x\u{85}\u{a0}\u{1680}")), chars("x"));
    assert_eq!(trim_chars(&chars("\u{2000}\u{200a}\u{2028}\u{2029}\u{202f}\u{205f}\u{3000}")), chars(""));
    assert_eq!(trim_chars(&chars("\u{200b}x\u{feff}")), chars("\u{200b}x\u{feff}"));
    assert_eq!(trim_chars(&chars("")), chars(""));
    for code in 0..0x11_0000u32 {
        if let Some(c) = char::from_u32(code) {
            let trimmed = trim_chars(&vec![c]);
            assert_eq!(trimmed.is_empty(), c.is_whitespace(), "U+{:04X}", code);
        }
    }
}

#[test]
fn strings_strip_prefix() {
    assert_eq!(strip_literal_prefix(&chars("ID: x"), "ID: "), Some(chars("x")));
    assert_eq!(strip_literal_prefix(&chars("ID: "), "ID: "), Some(chars("")));
    assert_eq!(strip_literal_prefix(&chars("ID:"), "ID: "), None);
    assert_eq!(strip_literal_prefix(&chars("id: x"), "ID: "), None);
    assert_eq!(strip_literal_prefix(&chars("x"), ""), Some(chars("x")));
}

#[test]
fn strings_lines_are_those_of_std() {
    for text in [
        "",
        "\n",
        "a",
        "a\n",
        "a\nb",
        "a\n\nb\n",
        "a\r\nb\r\n",
        "a\rb\n",
        "a\r",
        "\r\n",
        "a\r\r\n",
        "\n\n",
        "é\n€",
    ] {
        let expected: Vec<String> = text.lines().map(|l| l.to_string()).collect();
        assert_eq!(texts(lines(&chars(text))), expected, "{:?}", text);
    }
}

#[test]
fn strings_words_are_those_of_std() {
    for text in ["", " ", "a", " a ", "a b", "  a\t\nb  c ", "1000.50 USD", "a\u{a0}b\u{3000}c"] {
        let expected: Vec<String> = text.split_whitespace().map(|w| w.to_string()).collect();
        assert_eq!(texts(words(&chars(text))), expected, "{:?}", text);
    }
}

#[test]
fn strings_numbers_are_rendered_in_decimal() {
    for n in [0u128, 1, 9, 10, 11, 99, 100, 255, 1000, 65_535, u64::MAX as u128, u128::MAX] {
        let mut out = chars("n=");
        push_number(&mut out, n);
        assert_eq!(from_chars(&out), format!("n={}", n));
    }
}

#[test]
fn date_renderings_are_shaped_and_parse_back() {
    let mut days = MIN_DAY as i64;
    while days <= MAX_DAY as i64 {
        let date = Date::from_num_days_from_ce_opt(days as i32).unwrap();
        let text = date.to_string();
        assert!(!text.is_empty());
        assert!(text.chars().all(|c| c.is_ascii_digit() || c == '-' || c == '+'), "{}", text);
        assert_eq!(Date::parse_from_str(&text).unwrap().num_days_from_ce(), days as i32);
        days += 1_009;
    }
}

#[test]
fn timestamp_renderings_are_shaped_and_parse_back() {
    let first = (MIN_DAY as i64 - EPOCH_DAY as i64) * 86_400;
    let last = (MAX_DAY as i64 - EPOCH_DAY as i64) * 86_400 + 86_399;
    let mut secs = first;
    while secs <= last {
        let at = Timestamp::from_timestamp(secs).unwrap();
        let text = at.to_string();
        assert!(!text.starts_with(' ') && !text.ends_with(' '));
        assert!(
            text.chars().all(|c| c.is_ascii_digit() || "-+: ".contains(c)),
            "{}",
            text
        );
        assert_eq!(Timestamp::parse_from_str(&text).unwrap().timestamp(), secs);
        secs += 86_400 * 1_013 + 3_607;
    }
}

#[test]
fn decimal_renderings_are_shaped_and_parse_back() {
    let mut state: u128 = 0x2545_F491_4F6C_DD1D;
    for round in 0..40_000u32 {
        state = state.wrapping_mul(6_364_136_223_846_793_005).wrapping_add(1_442_695_040_888_963_407);
        let bits = (round % 97) as u32;
        let magnitude = (state >> 17) % (MAX_MANTISSA as u128 + 1);
        let magnitude = if bits < 96 { magnitude >> (96 - bits) } else { magnitude };
        let mantissa = if round % 2 == 0 { magnitude as i128 } else { -(magnitude as i128) };
        let scale = (state >> 5) as u32 % (MAX_SCALE + 1);
        let amount = Decimal::try_new(mantissa, scale).unwrap();
        let text = amount.to_string();
        assert!(!text.is_empty() && text.chars().count() <= 33, "{}", text);
        assert!(text.chars().all(|c| c.is_ascii_digit() || c == '.' || c == '-'), "{}", text);
        let back = Decimal::from_str(&text).unwrap();
        assert_eq!((back.mantissa(), back.scale()), (mantissa, scale), "{}", text);
        assert_eq!(
            text,
            rust_decimal::Decimal::from_i128_with_scale(mantissa, scale).to_string()
        );
    }
}

#[test]
fn decimal_equality_is_that_of_rust_decimal() {
    let samples: [(i128, u32); 9] = [
        (0, 0),
        (0, 5),
        (1, 0),
        (10, 1),
        (100, 2),
        (-100, 2),
        (15, 1),
        (150, 2),
        (MAX_MANTISSA, 0),
    ];
    for (m1, s1) in samples {
        for (m2, s2) in samples {
            let ours = Decimal::try_new(m1, s1).unwrap() == Decimal::try_new(m2, s2).unwrap();
            let theirs = rust_decimal::Decimal::from_i128_with_scale(m1, s1)
                == rust_decimal::Decimal::from_i128_with_scale(m2, s2);
            let by_number = m1 * 10i128.pow(s2) == m2 * 10i128.pow(s1);
            assert_eq!(ours, theirs);
            if m1.abs() < 1_000_000 && m2.abs() < 1_000_000 {
                assert_eq!(ours, by_number, "{}e-{} vs {}e-{}", m1, s1, m2, s2);
            }
        }
    }
}

#[test]
fn lowercase_of_ascii_names() {
    for name in ["CSV", "Csv", "cSv", "TEXT", "TXT", "Binary", "BIN"] {
        assert_eq!(
            Format::from_str(name).unwrap(),
            Format::from_lowercase(&name.to_ascii_lowercase()).unwrap()
        );
    }
    assert!(Format::from_str("\u{212A}SV").is_err());
}
