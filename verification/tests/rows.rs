//! Headers, columns and rows.
use transaction_parser::columns::{deserialize_amount, read_record};
use transaction_parser::csv_io::{
    apply_row, normalized_headers, process, write_accounts, Action, Event, Intake, Position, Row,
};
use transaction_parser::text::number_text;
use transaction_parser::{run, Amount, Engine, Error, ParseError, Record, Reject, RowError};
use transaction_parser::Transaction;

fn dec(s: &str) -> Amount {
    Amount::from_str(s).unwrap()
}

fn strings(texts: &[&str]) -> Vec<String> {
    texts.iter().map(|text| text.to_string()).collect()
}

fn row(fields: &[&str]) -> Row {
    Row {
        fields: strings(fields),
        position: None,
    }
}

const HEADER: [&str; 4] = ["type", "client", "tx", "amount"];

fn read(header: &[&str], fields: &[&str]) -> Result<Record, String> {
    read_record(&strings(header), &strings(fields))
}

fn complaint(header: &[&str], fields: &[&str]) -> String {
    read(header, fields).unwrap_err()
}

/// The output and the warnings of a run that must not fail.
fn outcome(input: &[u8]) -> (String, Vec<String>) {
    let (mut output, mut warnings) = (String::new(), Vec::new());
    run(input, &mut output, &mut warnings).expect("processing should not fail");
    (output, warnings)
}

// --- the header ---

#[test]
fn column_names_are_trimmed_and_lower_cased() {
    let raw = strings(&[" TYPE ", "\tClient", "tX\u{a0}", "Amount", "Memo É"]);
    assert_eq!(
        normalized_headers(&raw).unwrap(),
        ["type", "client", "tx", "amount", "memo É"]
    );
}

#[test]
fn every_missing_column_is_named_in_order() {
    for (header, wanted) in [
        (vec!["client", "tx"], "type, amount"),
        (vec!["type", "client", "tx"], "amount"),
        (vec!["x"], "type, client, tx, amount"),
    ] {
        let Err(Error::Header { expected, missing }) = normalized_headers(&strings(&header)) else {
            panic!("expected a header error for {header:?}");
        };
        assert_eq!(expected, "type, client, tx, amount");
        assert_eq!(missing, wanted);
    }
}

#[test]
fn no_header_at_all_is_not_at_fault() {
    assert_eq!(normalized_headers(&Vec::new()).unwrap(), Vec::<String>::new());
    assert_eq!(outcome(b"\n\n").0, "client,available,held,total,locked\n");
}

// --- fields by column ---

#[test]
fn fields_are_read_by_column_name() {
    let header = ["amount", "memo", "tx", "client", "type"];
    let record = read(&header, &["1.5", "?", "9", "3", "deposit"]).unwrap();
    assert_eq!(record.kind, "deposit");
    assert_eq!(record.client, 3);
    assert_eq!(record.tx, 9);
    assert_eq!(record.amount, Some(dec("1.5")));
}

#[test]
fn a_blank_or_missing_amount_is_no_amount() {
    assert_eq!(read(&HEADER, &["dispute", "1", "2"]).unwrap().amount, None);
    assert_eq!(read(&HEADER, &["dispute", "1", "2", ""]).unwrap().amount, None);
    assert_eq!(read(&HEADER, &["dispute", "1", "2", "  "]).unwrap().amount, None);
    assert_eq!(deserialize_amount(None), Ok(None));
    assert_eq!(deserialize_amount(Some(" \t")), Ok(None));
    assert_eq!(deserialize_amount(Some(" 1.0001 ")), Ok(Some(dec("1.0001"))));
}

#[test]
fn clients_and_transactions_may_be_decimal_or_hexadecimal() {
    for (text, value) in [
        ("0", 0),
        ("+7", 7),
        ("007", 7),
        ("65535", 65535),
        ("0xff", 255),
        ("0x+Ff", 255),
    ] {
        assert_eq!(read(&HEADER, &["deposit", text, "1"]).unwrap().client, value, "{text}");
        assert_eq!(read(&HEADER, &["deposit", "1", text]).unwrap().tx, u32::from(value), "{text}");
    }
    assert_eq!(read(&HEADER, &["deposit", "1", "4294967295"]).unwrap().tx, u32::MAX);
    assert_eq!(read(&HEADER, &["deposit", "1", "0xffffffff"]).unwrap().tx, u32::MAX);
}

#[test]
fn a_field_that_is_no_number_is_named_by_its_place() {
    for (text, reason) in [
        ("", "cannot parse integer from empty string"),
        ("0x", "cannot parse integer from empty string"),
        ("+", "invalid digit found in string"),
        ("-1", "invalid digit found in string"),
        ("0Xff", "invalid digit found in string"),
        ("1 2", "invalid digit found in string"),
        ("65536", "number too large to fit in target type"),
    ] {
        assert_eq!(
            complaint(&HEADER, &["deposit", text, "1"]),
            format!("field 1: {reason}"),
            "{text}"
        );
    }
    assert_eq!(
        complaint(&HEADER, &["deposit", "1", "4294967296"]),
        "field 2: number too large to fit in target type"
    );
}

#[test]
fn the_leftmost_complaint_is_the_one_reported() {
    assert_eq!(
        complaint(&HEADER, &["deposit", "x", "y", "z"]),
        "field 1: invalid digit found in string"
    );
    assert_eq!(
        complaint(&HEADER, &["deposit", "1", "2", "z"]),
        Amount::from_str("z").unwrap_err()
    );
    assert_eq!(complaint(&HEADER, &["deposit"]), "expected field, but got end of row");
    assert_eq!(
        complaint(&["type", "client", "tx", "amount", "memo"], &["deposit", "1", "2", "3"]),
        "expected field, but got end of row"
    );
}

#[test]
fn a_column_named_twice_or_not_at_all_is_a_complaint() {
    for name in HEADER {
        let mut header = HEADER.to_vec();
        header.push(name);
        assert_eq!(
            complaint(&header, &["deposit", "1", "2", "3", "4"]),
            format!("duplicate field `{name}`")
        );
    }
    assert_eq!(complaint(&["client", "tx"], &["1", "2"]), "missing field `type`");
    assert_eq!(complaint(&["type", "tx"], &["deposit", "2"]), "missing field `client`");
    assert_eq!(complaint(&["type", "client"], &["deposit", "1"]), "missing field `tx`");
    assert!(read(&["type", "client", "tx"], &["dispute", "1", "2"]).is_ok());
    assert!(read(&["type", "client", "tx", "x", "x"], &["dispute", "1", "2", "", ""]).is_ok());
}

// --- rows and events ---

#[test]
fn a_row_is_applied_or_refused_with_its_reason() {
    let headers = strings(&HEADER);
    let mut engine = Engine::new();
    assert!(apply_row(&mut engine, &headers, &row(&["deposit", "1", "1", "5"])).is_ok());
    assert!(matches!(
        apply_row(&mut engine, &headers, &row(&["deposit", "2", "2", "1", "000"])),
        Err(RowError::TooManyFields { expected: 4, found: 5 })
    ));
    assert!(matches!(
        apply_row(&mut engine, &headers, &row(&["transfer", "2", "2", "1"])),
        Err(RowError::Invalid(ParseError::UnknownType(name))) if name == "transfer"
    ));
    assert!(matches!(
        apply_row(&mut engine, &headers, &row(&["dispute", "2", "1"])),
        Err(RowError::Rejected(Reject::ClientMismatch { tx: 1, owner: 1, claimed: 2 }))
    ));
    assert_eq!(engine.accounts().len(), 1);
    assert_eq!(engine.account(1).unwrap().total(), dec("5"));
}

#[test]
fn a_malformed_row_is_reported_with_its_position() {
    let headers = strings(&HEADER);
    let mut engine = Engine::new();
    let mut bad = row(&["deposit", "x", "1", "5"]);
    assert_eq!(
        apply_row(&mut engine, &headers, &bad).unwrap_err().message(),
        "malformed row: CSV deserialize error: field 1: invalid digit found in string"
    );
    bad.position = Some(Position { record: 3, line: 4, byte: 50 });
    assert_eq!(
        apply_row(&mut engine, &headers, &bad).unwrap_err().message(),
        "malformed row: CSV deserialize error: record 3 (line: 4, byte: 50): \
         field 1: invalid digit found in string"
    );
}

#[test]
fn every_row_counts_and_nothing_else_does() {
    let mut engine = Engine::new();
    let mut intake = Intake::start(&strings(&["Type", "Client", "Tx", "Amount"])).unwrap();
    let good = Event::Row(row(&["deposit", "1", "1", "5"]));
    assert!(matches!(intake.take(&mut engine, good), Action::Next));
    let bad = Event::Malformed("not text".to_owned());
    assert!(matches!(
        intake.take(&mut engine, bad),
        Action::Skip(2, RowError::Malformed(text)) if text == "not text"
    ));
    let refused = Event::Row(row(&["withdrawal", "1", "2", "6"]));
    assert!(matches!(
        intake.take(&mut engine, refused),
        Action::Skip(3, RowError::Rejected(Reject::InsufficientFunds { client: 1, .. }))
    ));
    let failed = Event::Failed("disk on fire".to_owned());
    assert!(matches!(
        intake.take(&mut engine, failed),
        Action::Fail(Error::Csv(text)) if text == "disk on fire"
    ));
    assert!(matches!(intake.take(&mut engine, Event::End), Action::Done));
    assert_eq!(intake.row_count(), 3);
}

#[test]
fn a_header_that_lacks_a_column_starts_no_run() {
    assert!(matches!(
        Intake::start(&strings(&["type", "client", "tx"])),
        Err(Error::Header { missing, .. }) if missing == "amount"
    ));
}

// --- whole inputs ---

#[test]
fn malformed_rows_are_worded_as_the_reader_words_them() {
    let input = "type,client,tx,amount\ndeposit,1,1,5\ndeposit,x,2,1.0\n";
    let (_, warnings) = outcome(input.as_bytes());
    let mut reader = csv::ReaderBuilder::new()
        .trim(csv::Trim::All)
        .flexible(true)
        .from_reader(input.as_bytes());
    let error = reader
        .deserialize::<(String, u16, u32, String)>()
        .nth(1)
        .unwrap()
        .unwrap_err();
    assert_eq!(warnings, [format!("warning: row 2: malformed row: {error}")]);
}

#[test]
fn a_row_that_is_not_text_is_skipped_and_counted() {
    let input = b"type,client,tx,amount\ndeposit,1,1,\xff\ndeposit,1,2,2\nx,1,3\n";
    let (output, warnings) = outcome(input);
    assert_eq!(output, "client,available,held,total,locked\n1,2,0,2,false\n");
    assert_eq!(warnings.len(), 2);
    assert!(warnings[0].starts_with("warning: row 1: malformed row: CSV parse error: record 1 "));
    assert_eq!(warnings[1], "warning: row 3: unknown transaction type `x`");
}

#[test]
fn a_header_that_is_not_text_stops_the_run() {
    let (mut output, mut warnings) = (String::new(), Vec::new());
    let result = run(b"type,client,tx,\xff\n", &mut output, &mut warnings);
    assert!(matches!(result, Err(Error::Csv(text)) if text.starts_with("CSV parse error")));
    assert_eq!(output, "");
    assert!(warnings.is_empty());
}

#[test]
fn a_run_that_fails_writes_nothing() {
    let (mut output, mut warnings) = ("kept".to_owned(), vec!["kept".to_owned()]);
    let result = run(b"type,client,amount\n1,2,3\n", &mut output, &mut warnings);
    assert!(matches!(result, Err(Error::Header { missing, .. }) if missing == "tx"));
    assert_eq!(output, "kept");
    assert_eq!(warnings, ["kept"]);
}

#[test]
fn fields_are_trimmed_and_may_be_quoted() {
    let (output, warnings) =
        outcome("type, client , tx,amount\n deposit , 1,\u{3000}1 ,\" 2.50 \"\n".as_bytes());
    assert_eq!(output, "client,available,held,total,locked\n1,2.5,0,2.5,false\n");
    assert!(warnings.is_empty());
}

#[test]
fn skipped_rows_are_added_to_those_already_there() {
    let mut engine = Engine::new();
    let mut skipped = Vec::new();
    for number in 1..=2 {
        process(b"type,client,tx,amount\ndispute,1,9,\n", &mut engine, &mut skipped).unwrap();
        assert_eq!(skipped.len(), number);
    }
    assert!(matches!(
        skipped.as_slice(),
        [
            (1, RowError::Rejected(Reject::UnknownTx(9))),
            (1, RowError::Rejected(Reject::UnknownTx(9))),
        ]
    ));
}

#[test]
fn accounts_are_written_in_client_order_with_zeros_trimmed() {
    let mut engine = Engine::new();
    for (client, tx, amount) in [(700, 1, "1.5000"), (2, 2, "0.0001"), (65535, 3, "3")] {
        engine
            .apply(Transaction::Deposit { client, tx, amount: dec(amount) })
            .unwrap();
    }
    engine.apply(Transaction::Dispute { client: 2, tx: 2 }).unwrap();
    engine.apply(Transaction::Dispute { client: 700, tx: 1 }).unwrap();
    engine.apply(Transaction::Chargeback { client: 700, tx: 1 }).unwrap();
    let mut output = "# accounts\n".to_owned();
    write_accounts(&engine, &mut output);
    assert_eq!(
        output,
        "# accounts\n\
         client,available,held,total,locked\n\
         2,0,0.0001,0.0001,false\n\
         700,0,0,0,true\n\
         65535,3,0,3,false\n"
    );
}

#[test]
fn whole_numbers_are_written_in_decimal() {
    for number in [0, 9, 10, 65535, 4294967295, u64::MAX] {
        assert_eq!(number_text(number), number.to_string());
    }
}

#[test]
fn one_run_can_meet_every_reason_to_skip_a_row() {
    let input = "type,client,tx,amount\n\
                 deposit,1,1,10\n\
                 transfer,1,2,1\n\
                 deposit,1,1,5\n\
                 deposit,1,3,\n\
                 deposit,1,4,0\n\
                 withdrawal,1,5,-3\n\
                 withdrawal,1,6,10.0001\n\
                 dispute,1,404,\n\
                 dispute,2,1,\n\
                 resolve,1,1,\n\
                 chargeback,1,1,\n\
                 deposit,one,7,1\n\
                 deposit,1,8,1,000\n\
                 dispute,1,1\n\
                 dispute,1,1\n\
                 chargeback,1,1\n\
                 deposit,1,9,1\n\
                 deposit,2,10,10000000000000000000000000\n\
                 deposit,2,11,0.0001\n";
    let mut engine = Engine::new();
    let mut skipped = Vec::new();
    process(input.as_bytes(), &mut engine, &mut skipped).unwrap();
    let reasons: Vec<(u64, String)> = skipped
        .iter()
        .map(|(number, error)| {
            let debug = match error {
                RowError::Malformed(_) => "malformed".to_owned(),
                RowError::TooManyFields { .. } => "too many fields".to_owned(),
                RowError::Invalid(invalid) => format!("{invalid:?}"),
                RowError::Rejected(reject) => format!("{reject:?}"),
            };
            (*number, debug.split(['(', '{']).next().unwrap().trim().to_owned())
        })
        .collect();
    let wanted = [
        (2, "UnknownType"),
        (3, "DuplicateTx"),
        (4, "MissingAmount"),
        (5, "NonPositiveAmount"),
        (6, "NonPositiveAmount"),
        (7, "InsufficientFunds"),
        (8, "UnknownTx"),
        (9, "ClientMismatch"),
        (10, "NotDisputed"),
        (11, "NotDisputed"),
        (12, "malformed"),
        (13, "too many fields"),
        (15, "AlreadyDisputed"),
        (17, "AccountLocked"),
        (19, "Unrepresentable"),
    ];
    assert_eq!(reasons.len(), wanted.len(), "{reasons:?}");
    for ((number, reason), (row, name)) in reasons.iter().zip(wanted) {
        assert_eq!((*number, reason.as_str()), (row, name));
    }
}

#[test]
fn where_rows_stand_changes_neither_their_numbers_nor_the_outcome() {
    let rows = ["deposit,1,1,5", "deposit,x,2,1", "deposit,2,3,1,000", "dispute,1,1", "dispute,1,1"];
    let mut outcomes = Vec::new();
    for (end, blanks) in [("\n", 0), ("\r\n", 0), ("\n", 3), ("\r\n", 2), ("\r", 1)] {
        let mut input = format!("type,client,tx,amount{end}");
        for row in rows {
            input.push_str(&end.repeat(blanks));
            input.push_str(row);
            input.push_str(end);
        }
        let mut engine = Engine::new();
        let mut skipped = Vec::new();
        process(input.as_bytes(), &mut engine, &mut skipped).unwrap();
        let kinds: Vec<(u64, &str)> = skipped
            .iter()
            .map(|(number, error)| match error {
                RowError::Malformed(_) => (*number, "malformed"),
                RowError::TooManyFields { .. } => (*number, "too many fields"),
                RowError::Rejected(Reject::AlreadyDisputed(1)) => (*number, "already disputed"),
                _ => (*number, "something else"),
            })
            .collect();
        assert_eq!(
            kinds,
            [(2, "malformed"), (3, "too many fields"), (5, "already disputed")]
        );
        let mut table = String::new();
        write_accounts(&engine, &mut table);
        outcomes.push(table);
    }
    assert_eq!(outcomes[0], "client,available,held,total,locked\n1,0,5,5,false\n");
    assert!(outcomes.iter().all(|table| *table == outcomes[0]));
}

#[test]
fn rows_that_differ_in_position_only_are_treated_alike() {
    let headers = strings(&HEADER);
    for fields in [vec!["deposit", "1", "1", "5.25"], vec!["deposit", "x", "1", "5"]] {
        let mut results = Vec::new();
        for position in [None, Some(Position { record: 9, line: 80, byte: 700 })] {
            let mut engine = Engine::new();
            let row = Row { fields: strings(&fields), position };
            let result = apply_row(&mut engine, &headers, &row);
            let account = engine.account(1).map(|account| account.available().text());
            results.push((matches!(result, Err(RowError::Malformed(_))), account));
        }
        assert_eq!(results[0], results[1]);
    }
}
