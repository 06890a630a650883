//! Unquoted CSV against its lines, split by hand.
use transaction_parser::csv_io::{process, write_accounts, Action, Event, Intake, Row};
use transaction_parser::{Engine, Error, RowError};

/// A repeatable sequence of numbers with no pattern to speak of.
fn scramble(state: &mut u64) -> usize {
    *state = state
        .wrapping_mul(6364136223846793005)
        .wrapping_add(1442695040888963407);
    (*state >> 33) as usize
}

/// The lines of an input, without the empty ones.
fn lines(input: &[u8]) -> Vec<&[u8]> {
    input
        .split(|byte| *byte == b'\r' || *byte == b'\n')
        .filter(|line| !line.is_empty())
        .collect()
}

/// The fields of a line, if they are text.
fn fields(line: &[u8]) -> Option<Vec<String>> {
    line.split(|byte| *byte == b',')
        .map(|piece| std::str::from_utf8(piece).ok().map(|text| text.trim().to_owned()))
        .collect()
}

/// What is kept of a run: how it ended, the numbers and kinds of the rows skipped,
/// and the account table.
type Outcome = (String, Vec<(u64, String)>, String);

fn ending(result: &Result<(), Error>) -> String {
    match result {
        Ok(()) => "ok".to_owned(),
        Err(Error::Csv(_)) => "unreadable".to_owned(),
        Err(error) => error.message(),
    }
}

fn kind(error: &RowError) -> String {
    match error {
        RowError::Malformed(_) => "malformed".to_owned(),
        error => error.message(),
    }
}

fn table(engine: &Engine) -> String {
    let mut table = String::new();
    write_accounts(engine, &mut table);
    table
}

/// The outcome of a run over the bytes.
fn by_bytes(input: &[u8]) -> Outcome {
    let mut engine = Engine::new();
    let mut skipped = Vec::new();
    let result = process(input, &mut engine, &mut skipped);
    let skipped = skipped.iter().map(|(number, error)| (*number, kind(error))).collect();
    (ending(&result), skipped, table(&engine))
}

/// The outcome of a run over the lines, split by hand.
fn by_lines(input: &[u8]) -> Outcome {
    let mut engine = Engine::new();
    let mut skipped = Vec::new();
    let lines = lines(input);
    let header = match lines.first() {
        None => Some(Vec::new()),
        Some(line) => fields(line),
    };
    let Some(header) = header else {
        return ("unreadable".to_owned(), skipped, table(&engine));
    };
    let mut intake = match Intake::start(&header) {
        Ok(intake) => intake,
        Err(error) => return (error.message(), skipped, table(&engine)),
    };
    for line in lines.iter().skip(1) {
        let event = match fields(line) {
            Some(fields) => Event::Row(Row { fields, position: None }),
            None => Event::Malformed(String::new()),
        };
        if let Action::Skip(number, error) = intake.take(&mut engine, event) {
            skipped.push((number, kind(&error)));
        }
    }
    ("ok".to_owned(), skipped, table(&engine))
}

const PIECES: [&[u8]; 24] = [
    b"deposit", b"withdrawal", b"dispute", b"resolve", b"1", b"2", b"7", b"5.0", b".5", b"+3",
    b",", b",", b",", b",", b",", b",", b"\n", b"\n", b"\r\n", b"\r", b" ", b"\t", b"\xff",
    b"\xc2\xa0",
];

#[test]
fn records_are_lines_and_fields_stand_between_commas() {
    let mut state = 19;
    let (mut rows, mut unreadable) = (0, 0);
    for round in 0..4_000 {
        let mut input: Vec<u8> = Vec::new();
        for _ in 0..scramble(&mut state) % 3 {
            input.extend_from_slice(b"\r\n");
        }
        if round % 8 != 0 {
            input.extend_from_slice(b"type, client ,tx,Amount");
            input.extend_from_slice([&b"\n"[..], b"\r\n", b"\r"][scramble(&mut state) % 3]);
        }
        for _ in 0..scramble(&mut state) % 60 {
            input.extend_from_slice(PIECES[scramble(&mut state) % PIECES.len()]);
        }
        let outcome = by_bytes(&input);
        assert_eq!(outcome, by_lines(&input), "{:?}", String::from_utf8_lossy(&input));
        rows += outcome.1.len();
        unreadable += outcome.1.iter().filter(|row| row.1 == "malformed").count();
    }
    assert!(rows > 5_000 && unreadable > 1_000, "{rows} {unreadable}");
}

#[test]
fn plausible_rows_come_to_what_their_lines_come_to() {
    let mut state = 23;
    let mut accounts = 0;
    for _ in 0..500 {
        let mut input = b"type,client,tx,amount\n".to_vec();
        for _ in 0..40 {
            let kind = ["deposit", "withdrawal", "Dispute", "resolve", "chargeback", "what"];
            let kind = kind[scramble(&mut state) % kind.len()];
            let (client, tx) = (scramble(&mut state) % 4, scramble(&mut state) % 20);
            let amount = ["5", "2.5", " 0.0001", "", ".75", "12.", "1,000", "x"];
            let amount = amount[scramble(&mut state) % amount.len()];
            let end = ["\n", "\r\n", "\n\n", "\r"][scramble(&mut state) % 4];
            input.extend_from_slice(format!("{kind}, {client},{tx},{amount}{end}").as_bytes());
        }
        let outcome = by_bytes(&input);
        assert_eq!(outcome, by_lines(&input));
        accounts += outcome.2.lines().count() - 1;
    }
    assert!(accounts > 500, "{accounts}");
}

#[test]
fn blank_lines_and_line_endings_make_no_difference() {
    let input = "type,client,tx,amount\ndeposit,1,1,5\ndeposit,1,x,5\nresolve,1,1\nlast,1,2";
    let outcome = by_bytes(input.as_bytes());
    assert_eq!(outcome.1.len(), 3);
    assert_eq!(by_bytes(input.replace('\n', "\r\n").as_bytes()), outcome);
    assert_eq!(by_bytes(input.replace('\n', "\r").as_bytes()), outcome);
    assert_eq!(by_bytes(input.replace('\n', "\n\n\r\n").as_bytes()), outcome);
    assert_eq!(by_bytes(format!("\n\r\n{input}\n\n").as_bytes()), outcome);
}
