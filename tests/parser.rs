use journal_ledger::amount::Amount;
use journal_ledger::channel::{DisputeLookUpMessage, TransactionMessage};
use journal_ledger::parser::{
    parse_amount, parse_client_id, parse_deposit_or_withdrawal, parse_dispute_data, parse_record,
    parse_transaction_id, parse_type, strip_whitespace, CsvParser, JournalMessage, ParseError,
    RecordType,
};

fn rec(fields: &[&str]) -> Vec<Vec<u8>> {
    fields.iter().map(|f| f.as_bytes().to_vec()).collect()
}

fn amt(mantissa: i128, scale: u32) -> Amount {
    Amount::new(mantissa, scale).unwrap()
}

#[test]
fn test_parse_deposit_or_withdrawal() {
    let tests: Vec<(&str, Vec<Vec<u8>>, (u16, u32, Amount))> = vec![
        ("simple deposit", rec(&["deposit", "1", "1", "1.0"]), (1, 1, amt(10, 1))),
        ("simple withdrawal", rec(&["withdrawal", "1", "2", "1.0"]), (1, 2, amt(10, 1))),
        ("amount with space", rec(&["deposit", "1", "3", "1. 0"]), (1, 3, amt(10, 1))),
        (
            "amount with multiple spaces",
            rec(&["deposit", "1", "4", "10 . 0"]),
            (1, 4, amt(100, 1)),
        ),
    ];

    for (i, (name, test_data, want)) in tests.into_iter().enumerate() {
        let got = parse_deposit_or_withdrawal(&test_data).expect(&format!(
            "failed to parse data from ByteRecord for test {} - {name}",
            i + 1
        ));
        assert_eq!(got, want, "failed test {} - {name}", i + 1)
    }
}

#[test]
fn record_type_ignores_embedded_whitespace() {
    assert_eq!(parse_type(b" dep osit "), Ok(RecordType::Deposit));
    assert_eq!(parse_type(b"withdrawal"), Ok(RecordType::Withdrawal));
    assert_eq!(parse_type(b"\tdispute"), Ok(RecordType::Dispute));
    assert_eq!(parse_type(b"resolve "), Ok(RecordType::Resolve));
    assert_eq!(parse_type(b"charge back"), Ok(RecordType::Chargeback));
}

#[test]
fn record_type_is_case_sensitive() {
    assert_eq!(parse_type(b"Deposit"), Err(ParseError::UnknownType));
    assert_eq!(parse_type(b"transfer"), Err(ParseError::UnknownType));
    assert_eq!(parse_type(b""), Err(ParseError::UnknownType));
}

#[test]
fn strip_whitespace_removes_every_ascii_space() {
    assert_eq!(strip_whitespace(b" 1 0\t0\r\n"), b"100".to_vec());
    assert_eq!(strip_whitespace(b""), Vec::<u8>::new());
}

#[test]
fn integer_fields_tolerate_spaces_and_respect_bounds() {
    assert_eq!(parse_client_id(b"0 1"), Some(1));
    assert_eq!(parse_client_id(b"65535"), Some(65535));
    assert_eq!(parse_client_id(b"65536"), None);
    assert_eq!(parse_client_id(b"+7"), Some(7));
    assert_eq!(parse_client_id(b"-1"), None);
    assert_eq!(parse_client_id(b""), None);
    assert_eq!(parse_client_id(b"+"), None);
    assert_eq!(parse_transaction_id(b"5 0"), Some(50));
    assert_eq!(parse_transaction_id(b"4294967295"), Some(4294967295));
    assert_eq!(parse_transaction_id(b"4294967296"), None);
    assert_eq!(parse_transaction_id(b"12x"), None);
}

#[test]
fn amount_field_is_an_exact_decimal() {
    assert_eq!(parse_amount(b"10 000.0000"), Some(amt(100000000, 4)));
    assert_eq!(parse_amount(b"-2.5"), Some(amt(-25, 1)));
    assert_eq!(parse_amount(b"10000"), Some(amt(10000, 0)));
    assert_eq!(parse_amount(b"abc"), None);
    assert_eq!(parse_amount(b""), None);
    assert_eq!(parse_amount(&[0xef, 0xbc, 0x91, b'.', b'0']), None);
}

#[test]
fn malformed_fields_give_their_errors() {
    assert_eq!(
        parse_deposit_or_withdrawal(&rec(&["deposit", "1", "1", "x"])),
        Err(ParseError::InvalidAmount)
    );
    assert_eq!(
        parse_deposit_or_withdrawal(&rec(&["deposit", "70000", "1", "1"])),
        Err(ParseError::InvalidClientId)
    );
    assert_eq!(
        parse_deposit_or_withdrawal(&rec(&["deposit", "1", "-1", "1"])),
        Err(ParseError::InvalidTransactionId)
    );
    assert_eq!(
        parse_deposit_or_withdrawal(&rec(&["deposit", "1", "1"])),
        Err(ParseError::MissingField)
    );
    assert_eq!(
        parse_dispute_data(&rec(&["dispute", "1"])),
        Err(ParseError::MissingField)
    );
    assert_eq!(parse_dispute_data(&rec(&["dispute", " 4", "1 1", ""])), Ok((4, 11)));
}

#[test]
fn records_route_to_their_queues() {
    assert_eq!(
        parse_record(&rec(&["deposit", "1", "1", "2.5"])),
        Ok(Some(JournalMessage::Transaction(TransactionMessage::deposit(1, amt(25, 1)))))
    );
    assert_eq!(
        parse_record(&rec(&["chargeback", "1", "9", ""])),
        Ok(Some(JournalMessage::LookUp(DisputeLookUpMessage::Chargeback(1, 9))))
    );
    assert_eq!(parse_record(&rec(&["refund", "1", "9", ""])), Ok(None));
}

#[test]
fn parse_journal_routes_each_record_in_order() {
    let data = "type,client,tx,amount
deposit,1,1,10000
deposit, 1, 5 0, 10 000.0
withdrawal, 1, 8,10000.0
chargeback, 1, 9,
resolve, 1, 10,
dispute, 0 1, 11,
unknown,1,12,
";
    let parser = CsvParser::new(data.as_bytes());
    let (messages, outcome) = parser.parse_journal();
    assert_eq!(outcome, Ok(()));
    assert_eq!(
        messages,
        vec![
            JournalMessage::Transaction(TransactionMessage::deposit(1, amt(10000, 0))),
            JournalMessage::Transaction(TransactionMessage::deposit(1, amt(100000, 1))),
            JournalMessage::Transaction(TransactionMessage::withdrawal(1, amt(100000, 1))),
            JournalMessage::LookUp(DisputeLookUpMessage::Chargeback(1, 9)),
            JournalMessage::LookUp(DisputeLookUpMessage::Resolve(1, 10)),
            JournalMessage::LookUp(DisputeLookUpMessage::Dispute(1, 11)),
        ]
    );
}

#[test]
fn parse_journal_stops_at_a_malformed_record() {
    let data = "type,client,tx,amount\ndeposit,1,1,1.0\ndeposit,x,2,1.0\ndeposit,1,3,1.0\n";
    let (messages, outcome) = CsvParser::new(data.as_bytes()).parse_journal();
    assert_eq!(outcome, Err(ParseError::InvalidClientId));
    assert_eq!(
        messages,
        vec![JournalMessage::Transaction(TransactionMessage::deposit(1, amt(10, 1)))]
    );
}

#[test]
fn parse_journal_reports_an_unreadable_journal() {
    let data = "type,client,tx,amount\ndeposit,1,1,1.0\ndeposit,1\n";
    let (messages, outcome) = CsvParser::new(data.as_bytes()).parse_journal();
    assert_eq!(outcome, Err(ParseError::UnreadableRecord));
    assert_eq!(messages.len(), 1);
}

#[test]
fn look_up_message_accessors() {
    let m = DisputeLookUpMessage::Resolve(3, 44);
    assert_eq!(m.client_id(), 3);
    assert_eq!(m.transaction_id(), 44);
    let m = DisputeLookUpMessage::Chargeback(5, 6);
    assert_eq!(m.client_id(), 5);
    assert_eq!(m.transaction_id(), 6);
}
