//! Reading transactions in and writing account balances out.
use vstd::prelude::*;
use vstd::string::*;

use crate::account;
use crate::account::{Account, AccountView};
use crate::columns;
use crate::engine::Engine;
use crate::error::{Error, ErrorView, RowError, RowErrorView};
use crate::laws;
use crate::ledger::LedgerView;
use crate::lines;
use crate::money;
use crate::money::Figure;
use crate::record;
use crate::record::{ParseErrorView, Transaction, TransactionView};
use crate::text;

verus! {

/// The names of the columns the engine needs.
fn required_columns() -> (names: Vec<String>)
    ensures
        columns::texts(names@) == columns::required(),
{
    let names = vec!["type".to_owned(), "client".to_owned(), "tx".to_owned(), "amount".to_owned()];
    assert(columns::texts(names@) =~= columns::required());
    names
}

/// Texts one after the other, with a separator between neighbours.
fn join(items: &Vec<String>, separator: &str) -> (text: String)
    ensures
        text@ == text::joined(columns::texts(items@), separator@),
{
    let ghost all = columns::texts(items@);
    let mut text = String::new();
    let mut i: usize = 0;
    proof {
        assert(text@ =~= text::joined(all.take(0), separator@));
    }
    while i < items.len()
        invariant
            i <= items.len(),
            all == columns::texts(items@),
            text@ == text::joined(all.take(i as int), separator@),
        decreases items.len() - i,
    {
        proof {
            assert(all.take(i + 1).drop_last() =~= all.take(i as int));
            assert(all.take(i + 1).last() == items[i as int]@);
        }
        if i > 0 {
            text.append(separator);
        }
        text.append(items[i].as_str());
        proof {
            assert(text@ =~= text::joined(all.take(i + 1), separator@));
        }
        i = i + 1;
    }
    assert(all.take(items.len() as int) =~= all);
    text
}

/// Column names without the whitespace around them and in lower case.
pub open spec fn normalized(raw: Seq<Seq<char>>) -> Seq<Seq<char>> {
    raw.map_values(|column: Seq<char>| text::lowered(text::trimmed(column)))
}

/// The columns the engine needs that a header does not name.
pub open spec fn missing_from(headers: Seq<Seq<char>>) -> Seq<Seq<char>> {
    columns::required().filter(|column: Seq<char>| !headers.contains(column))
}

/// What becomes of a header: its column names, normalized, or the failure that
/// stops the run because a column is missing. An input with no header at all is
/// not at fault.
pub open spec fn header_in(raw: Seq<Seq<char>>) -> Result<Seq<Seq<char>>, ErrorView> {
    let headers = normalized(raw);
    let missing = missing_from(headers);
    if raw.len() == 0 || missing.len() == 0 {
        Ok(headers)
    } else {
        Err(
            ErrorView::Header {
                expected: text::joined(columns::required(), ", "@),
                missing: text::joined(missing, ", "@),
            },
        )
    }
}

/// Whether one of the names is the given one.
fn contains_name(names: &Vec<String>, name: &String) -> (found: bool)
    ensures
        found == columns::texts(names@).contains(name@),
{
    let ghost all = columns::texts(names@);
    let mut i: usize = 0;
    while i < names.len()
        invariant
            i <= names.len(),
            all == columns::texts(names@),
            forall|j: int| 0 <= j < i ==> all[j] != name@,
        decreases names.len() - i,
    {
        if names[i] == *name {
            assert(all[i as int] == name@);
            return true;
        }
        i = i + 1;
    }
    false
}

/// Lower-cases the header and checks it names the columns we need.
///
/// Column names are matched case-insensitively for the same reason transaction
/// types are. Without this check a header of `Type,Client,Tx,Amount` would
/// produce an identical "missing field" warning for every row in the file and
/// still exit successfully with an empty table, which is the worst of both
/// worlds: noisy and silent at once.
pub fn normalized_headers(raw: &Vec<String>) -> (headers: Result<Vec<String>, Error>)
    ensures
        match header_in(columns::texts(raw@)) {
            Ok(names) => headers is Ok && columns::texts(headers->Ok_0@) == names,
            Err(error) => headers is Err && headers->Err_0@ == error,
        },
{
    let mut headers: Vec<String> = Vec::new();
    let mut i: usize = 0;
    while i < raw.len()
        invariant
            i <= raw.len(),
            columns::texts(headers@) == normalized(columns::texts(raw@)).take(i as int),
        decreases raw.len() - i,
    {
        let column = text::to_lower(text::trim(raw[i].as_str()));
        let ghost before = headers@;
        headers.push(column);
        proof {
            assert(columns::texts(headers@) =~= columns::texts(before).push(column@));
            assert(normalized(columns::texts(raw@)).take(i + 1) =~= normalized(
                columns::texts(raw@),
            ).take(i as int).push(column@));
        }
        i = i + 1;
    }
    let ghost names = normalized(columns::texts(raw@));
    assert(columns::texts(headers@) == names) by {
        assert(names.take(raw.len() as int) =~= names);
    }

    // An input with no bytes at all has no header to be wrong about; it simply
    // has no rows, and reports an empty account table.
    if headers.len() == 0 {
        return Ok(headers);
    }
    let required = required_columns();
    let ghost absent = |column: Seq<char>| !names.contains(column);
    let mut missing: Vec<String> = Vec::new();
    let mut i: usize = 0;
    proof {
        reveal(Seq::filter);
        assert(columns::texts(missing@) =~= columns::required().take(0).filter(absent));
    }
    while i < required.len()
        invariant
            i <= required.len(),
            columns::texts(required@) == columns::required(),
            columns::texts(headers@) == names,
            absent == |column: Seq<char>| !names.contains(column),
            columns::texts(missing@) == columns::required().take(i as int).filter(absent),
        decreases required.len() - i,
    {
        let ghost before = missing@;
        let ghost taken = columns::required().take(i + 1);
        proof {
            reveal(Seq::filter);
            assert(taken.drop_last() =~= columns::required().take(i as int));
            assert(taken.last() == required[i as int]@);
        }
        if !contains_name(&headers, &required[i]) {
            missing.push(required[i].clone());
            assert(columns::texts(missing@) =~= columns::texts(before).push(required[i as int]@));
        }
        i = i + 1;
    }
    assert(columns::required().take(required.len() as int) =~= columns::required());
    if missing.len() == 0 {
        Ok(headers)
    } else {
        Err(Error::Header { expected: join(&required, ", "), missing: join(&missing, ", ") })
    }
}

/// Where in the input a row starts: how many records and bytes come before it, and
/// on which line it is.
#[derive(Debug, Clone, Copy, PartialEq, Eq, Structural)]
pub struct Position {
    pub record: u64,
    pub line: u64,
    pub byte: u64,
}

/// One data row, as its fields.
#[derive(Debug)]
pub struct Row {
    pub fields: Vec<String>,
    pub position: Option<Position>,
}

/// A [`Row`] with its fields as mathematics sees them.
pub struct RowView {
    pub fields: Seq<Seq<char>>,
    pub position: Option<Position>,
}

impl View for Row {
    type V = RowView;

    open spec fn view(&self) -> RowView {
        RowView { fields: columns::texts(self.fields@), position: self.position }
    }
}

/// How a complaint about the fields of a row reads, with the row's position where
/// it is known.
pub open spec fn deserialize_text(position: Option<Position>, complaint: Seq<char>) -> Seq<char> {
    match position {
        Some(position) => "CSV deserialize error: record "@ + text::decimal_digits(
            position.record as nat,
        ) + " (line: "@ + text::decimal_digits(position.line as nat) + ", byte: "@
            + text::decimal_digits(position.byte as nat) + "): "@ + complaint,
        None => "CSV deserialize error: "@ + complaint,
    }
}

/// Words a complaint about the fields of a row.
fn deserialize_error(position: Option<Position>, complaint: &str) -> (text: String)
    ensures
        text@ == deserialize_text(position, complaint@),
{
    match position {
        Some(position) => {
            let mut text = "CSV deserialize error: record ".to_owned();
            text.append(text::number_text(position.record).as_str());
            text.append(" (line: ");
            text.append(text::number_text(position.line).as_str());
            text.append(", byte: ");
            text.append(text::number_text(position.byte).as_str());
            text.append("): ");
            text.append(complaint);
            text
        },
        None => {
            let mut text = "CSV deserialize error: ".to_owned();
            text.append(complaint);
            text
        },
    }
}

/// The ledger after one row, or why the row is skipped: it has more fields than
/// the header names, its fields are not what their columns are for, they do not
/// describe a transaction, or the ledger does not accept the transaction.
#[verifier::opaque]
pub open spec fn row_outcome(
    ledger: LedgerView,
    headers: Seq<Seq<char>>,
    row: RowView,
) -> Result<LedgerView, RowErrorView> {
    if row.fields.len() > headers.len() {
        Err(RowErrorView::TooManyFields { expected: headers.len(), found: row.fields.len() })
    } else {
        match columns::record_in(headers, row.fields) {
            Err(complaint) => Err(
                RowErrorView::Malformed(deserialize_text(row.position, complaint)),
            ),
            Ok(record) => match record.parsed() {
                Err(invalid) => Err(RowErrorView::Invalid(invalid)),
                Ok(transaction) => match ledger.applied(transaction) {
                    Err(reject) => Err(RowErrorView::Rejected(reject)),
                    Ok(next) => Ok(next),
                },
            },
        }
    }
}

/// Feeds one row to the engine.
pub fn apply_row(engine: &mut Engine, headers: &Vec<String>, row: &Row) -> (result: Result<
    (),
    RowError,
>)
    requires
        old(engine).wf(),
    ensures
        final(engine).wf(),
        match row_outcome(old(engine)@, columns::texts(headers@), row@) {
            Ok(next) => result is Ok && final(engine)@ == next,
            Err(error) => result is Err && result->Err_0@ == error && final(engine)@
                == old(engine)@,
        },
        laws::prudent(old(engine)@) ==> laws::prudent(final(engine)@),
        row.fields@.len() <= headers@.len() ==> columns::amount_as_written(
            columns::texts(headers@),
            row@.fields,
        ),
{
    proof {
        reveal(row_outcome);
    }
    // Reading by column would take the first few fields by header position and
    // drop the rest, so a stray thousands separator in `1,000` would post as `1`.
    if row.fields.len() > headers.len() {
        return Err(
            RowError::TooManyFields { expected: headers.len(), found: row.fields.len() },
        );
    }
    match columns::read_record(headers, &row.fields) {
        Ok(record) => match record.parse() {
            Ok(transaction) => {
                proof {
                    match transaction {
                        Transaction::Deposit { amount, .. } => use_type_invariant(&amount),
                        Transaction::Withdrawal { amount, .. } => use_type_invariant(&amount),
                        _ => {},
                    }
                    if laws::prudent(engine@) {
                        laws::positive_amounts_keep_a_ledger_prudent(engine@, transaction@);
                    }
                }
                match engine.apply(transaction) {
                    Ok(()) => Ok(()),
                    Err(reject) => Err(RowError::Rejected(reject)),
                }
            },
            Err(invalid) => Err(RowError::Invalid(invalid)),
        },
        Err(complaint) => Err(
            RowError::Malformed(deserialize_error(row.position, complaint.as_str())),
        ),
    }
}

/// What a reader has to report when it is asked for the next row.
#[derive(Debug)]
pub enum Event {
    /// There is one.
    Row(Row),
    /// There is one, but it cannot be read; the text says why.
    Malformed(String),
    /// The input cannot be read any further; the text says why.
    Failed(String),
    /// The input is at its end.
    End,
}

/// An [`Event`] with its texts as mathematics sees them.
pub enum EventView {
    Row(RowView),
    Malformed(Seq<char>),
    Failed(Seq<char>),
    End,
}

impl View for Event {
    type V = EventView;

    open spec fn view(&self) -> EventView {
        match *self {
            Event::Row(row) => EventView::Row(row@),
            Event::Malformed(text) => EventView::Malformed(text@),
            Event::Failed(text) => EventView::Failed(text@),
            Event::End => EventView::End,
        }
    }
}

/// What follows from an [`Event`].
#[derive(Debug)]
pub enum Action {
    /// The row has been applied; ask for the next one.
    Next,
    /// The row with this number is skipped and worth a report; ask for the next
    /// one.
    Skip(u64, RowError),
    /// The run is over, and has failed.
    Fail(Error),
    /// The run is over.
    Done,
}

/// An [`Action`] with its number and reasons as mathematics sees them.
pub enum ActionView {
    Next,
    Skip(nat, RowErrorView),
    Fail(ErrorView),
    Done,
}

impl View for Action {
    type V = ActionView;

    open spec fn view(&self) -> ActionView {
        match *self {
            Action::Next => ActionView::Next,
            Action::Skip(number, error) => ActionView::Skip(number as nat, error@),
            Action::Fail(error) => ActionView::Fail(error@),
            Action::Done => ActionView::Done,
        }
    }
}

/// What an event does to the ledger, and what follows from it, when `rows` data
/// rows have come before.
pub open spec fn taken(
    ledger: LedgerView,
    headers: Seq<Seq<char>>,
    rows: nat,
    event: EventView,
) -> (LedgerView, ActionView) {
    match event {
        EventView::Row(row) => match row_outcome(ledger, headers, row) {
            Ok(next) => (next, ActionView::Next),
            Err(error) => (ledger, ActionView::Skip(rows + 1, error)),
        },
        EventView::Malformed(text) => (
            ledger,
            ActionView::Skip(rows + 1, RowErrorView::Malformed(text)),
        ),
        EventView::Failed(text) => (ledger, ActionView::Fail(ErrorView::Csv(text))),
        EventView::End => (ledger, ActionView::Done),
    }
}

/// Whether an event is no row, or one whose amount is read as exactly the value
/// written.
pub open spec fn as_written(headers: Seq<Seq<char>>, event: EventView) -> bool {
    event matches EventView::Row(row) ==> (row.fields.len() <= headers.len()
        ==> columns::amount_as_written(headers, row.fields))
}

/// The state of a run between two rows: the header it goes by, and how many data
/// rows have come so far.
#[derive(Debug)]
pub struct Intake {
    headers: Vec<String>,
    rows: u64,
}

impl Intake {
    /// The column names the run goes by.
    pub closed spec fn headers(self) -> Seq<Seq<char>> {
        columns::texts(self.headers@)
    }

    /// How many data rows have come so far.
    pub closed spec fn rows(self) -> nat {
        self.rows as nat
    }

    /// Starts a run with the header of its input.
    pub fn start(header: &Vec<String>) -> (intake: Result<Intake, Error>)
        ensures
            match header_in(columns::texts(header@)) {
                Ok(names) => intake is Ok && intake->Ok_0.headers() == names
                    && intake->Ok_0.rows() == 0,
                Err(error) => intake is Err && intake->Err_0@ == error,
            },
    {
        match normalized_headers(header) {
            Ok(headers) => Ok(Intake { headers, rows: 0 }),
            Err(error) => Err(error),
        }
    }

    /// The number of data rows so far.
    pub fn row_count(&self) -> (rows: u64)
        ensures
            rows == self.rows(),
    {
        self.rows
    }

    /// Takes what the reader reports, and says what follows from it. Every row
    /// counts, whether it can be read or not.
    pub fn take(&mut self, engine: &mut Engine, event: Event) -> (action: Action)
        requires
            old(engine).wf(),
            event is Row || event is Malformed ==> old(self).rows() < u64::MAX,
        ensures
            final(engine).wf(),
            (final(engine)@, action@) == taken(
                old(engine)@,
                old(self).headers(),
                old(self).rows(),
                event@,
            ),
            laws::prudent(old(engine)@) ==> laws::prudent(final(engine)@),
            as_written(old(self).headers(), event@),
            final(self).headers() == old(self).headers(),
            final(self).rows() == old(self).rows() + if event is Row || event is Malformed {
                1nat
            } else {
                0nat
            },
    {
        match event {
            Event::Row(row) => {
                self.rows = self.rows + 1;
                match apply_row(engine, &self.headers, &row) {
                    Ok(()) => Action::Next,
                    Err(error) => Action::Skip(self.rows, error),
                }
            },
            Event::Malformed(text) => {
                self.rows = self.rows + 1;
                Action::Skip(self.rows, RowError::Malformed(text))
            },
            Event::Failed(text) => Action::Fail(Error::Csv(text)),
            Event::End => Action::Done,
        }
    }
}

/// `csv::Reader`, which splits an input into records.
#[verifier::external_type_specification]
#[verifier::external_body]
#[verifier::reject_recursive_types(R)]
pub struct ExReader<R>(csv::Reader<R>);

/// The first record of a text, as `csv::Reader` splits it with the whitespace
/// around every field removed, or the wording of its complaint.
pub uninterp spec fn csv_header(input: Seq<u8>) -> Result<Seq<Seq<char>>, Seq<char>>;

/// The records of a text after the first one, as `csv::Reader` splits it with the
/// whitespace around every field removed and records of any length allowed. Each
/// is either its fields and its position, as record, line and byte, or the wording
/// of a complaint and whether that came from reading the input itself.
pub uninterp spec fn csv_rows(input: Seq<u8>) -> Seq<
    Result<(Seq<Seq<char>>, Option<(u64, u64, u64)>), (bool, Seq<char>)>,
>;

/// The records that a `csv::Reader` past its header has yet to give.
pub uninterp spec fn rows_ahead(reader: csv::Reader<&[u8]>) -> Seq<
    Result<(Seq<Seq<char>>, Option<(u64, u64, u64)>), (bool, Seq<char>)>,
>;

/// The event in what a `csv::Reader` gives for one record.
pub open spec fn event_of(
    record: Result<(Seq<Seq<char>>, Option<(u64, u64, u64)>), (bool, Seq<char>)>,
) -> EventView {
    match record {
        Ok((fields, position)) => EventView::Row(
            RowView {
                fields,
                position: match position {
                    Some((record, line, byte)) => Some(Position { record, line, byte }),
                    None => None,
                },
            },
        ),
        Err((failed, text)) => if failed {
            EventView::Failed(text)
        } else {
            EventView::Malformed(text)
        },
    }
}

/// The column names in the first of a number of lines, if they are text. Without a
/// line there are none.
pub open spec fn header_in_lines(lines: Seq<Seq<u8>>) -> Option<Seq<Seq<char>>> {
    if lines.len() == 0 {
        Some(seq![])
    } else if lines::is_text(lines[0]) {
        Some(lines::fields(lines[0]))
    } else {
        None
    }
}

/// Whether records are what the lines after the first one hold: the fields of each
/// line, or a complaint about the row where they are not text.
pub open spec fn are_rows_of(
    records: Seq<Result<(Seq<Seq<char>>, Option<(u64, u64, u64)>), (bool, Seq<char>)>>,
    lines: Seq<Seq<u8>>,
) -> bool {
    &&& records.len() == if lines.len() == 0 {
        0
    } else {
        lines.len() - 1
    }
    &&& forall|i: int|
        0 <= i < records.len() ==> match #[trigger] records[i] {
            Ok((fields, _)) => lines::is_text(lines[i + 1]) && fields == lines::fields(
                lines[i + 1],
            ),
            Err((failed, _)) => !lines::is_text(lines[i + 1]) && !failed,
        }
}

/// `csv::Reader::headers`, on a reader that `csv::ReaderBuilder` has made to trim
/// every field and to let records differ in length. What the first record holds,
/// or how the complaint about it is worded, and what the records after it hold,
/// depend on the input alone; and each record takes up at least one byte of it.
/// Where nothing is quoted, the records are the lines of the input, their fields
/// what stands between the commas, and a record is complained about exactly when a
/// field of it is not text. How such a complaint is worded, and at what position a
/// record is said to stand, is left unsaid.
#[verifier::external_body]
fn open_reader(input: &[u8]) -> (opened: (csv::Reader<&[u8]>, Result<Vec<String>, String>))
    ensures
        match opened.1 {
            Ok(header) => csv_header(input@) == Ok::<Seq<Seq<char>>, Seq<char>>(
                columns::texts(header@),
            ),
            Err(complaint) => csv_header(input@) == Err::<Seq<Seq<char>>, Seq<char>>(complaint@),
        },
        rows_ahead(opened.0) == csv_rows(input@),
        rows_ahead(opened.0).len() <= input@.len(),
        lines::is_unquoted(input@) ==> match opened.1 {
            Ok(header) => header_in_lines(lines::lines(input@)) == Some(columns::texts(header@)),
            Err(_) => header_in_lines(lines::lines(input@)) is None,
        },
        lines::is_unquoted(input@) ==> are_rows_of(
            rows_ahead(opened.0),
            lines::lines(input@),
        ),
{
    let mut reader = csv::ReaderBuilder::new()
        .trim(csv::Trim::All)
        .flexible(true)
        .from_reader(input);
    let header = match reader.headers() {
        Ok(header) => Ok(header.iter().map(str::to_owned).collect()),
        Err(error) => Err(error.to_string()),
    };
    (reader, header)
}

/// `csv::Reader::read_record`, on a reader past its header. It gives the records
/// one by one, in order, and then the end for as long as it is asked.
#[verifier::external_body]
fn read_row(reader: &mut csv::Reader<&[u8]>) -> (event: Event)
    ensures
        rows_ahead(*old(reader)).len() == 0 ==> event@ == EventView::End && rows_ahead(
            *final(reader),
        ) == rows_ahead(*old(reader)),
        rows_ahead(*old(reader)).len() > 0 ==> event@ == event_of(rows_ahead(*old(reader))[0])
            && rows_ahead(*final(reader)) == rows_ahead(*old(reader)).skip(1),
{
    let mut row = csv::StringRecord::new();
    match reader.read_record(&mut row) {
        Ok(true) => Event::Row(Row {
            fields: row.iter().map(str::to_owned).collect(),
            position: row.position().map(|at| Position {
                record: at.record(),
                line: at.line(),
                byte: at.byte(),
            }),
        }),
        Ok(false) => Event::End,
        Err(error) if error.is_io_error() => Event::Failed(error.to_string()),
        Err(error) => Event::Malformed(error.to_string()),
    }
}

/// How far a run has come: the ledger, the rows skipped with their numbers, and
/// the failure that ended the run, if there was one.
pub struct Progress {
    pub ledger: LedgerView,
    pub skipped: Seq<(nat, RowErrorView)>,
    pub failure: Option<ErrorView>,
}

/// A run after its first `count` events.
pub open spec fn progress(
    ledger: LedgerView,
    headers: Seq<Seq<char>>,
    events: Seq<EventView>,
    count: nat,
) -> Progress
    decreases count,
{
    if count == 0 {
        Progress { ledger, skipped: seq![], failure: None }
    } else {
        let before = progress(ledger, headers, events, (count - 1) as nat);
        let (next, action) = taken(
            before.ledger,
            headers,
            (count - 1) as nat,
            events[count - 1],
        );
        if before.failure is Some {
            before
        } else {
            match action {
                ActionView::Next => Progress { ledger: next, ..before },
                ActionView::Skip(number, error) => Progress {
                    ledger: next,
                    skipped: before.skipped.push((number, error)),
                    ..before
                },
                ActionView::Fail(error) => Progress {
                    ledger: next,
                    failure: Some(error),
                    ..before
                },
                ActionView::Done => before,
            }
        }
    }
}

/// The events in what a `csv::Reader` gives for its records.
pub open spec fn events_of(
    records: Seq<Result<(Seq<Seq<char>>, Option<(u64, u64, u64)>), (bool, Seq<char>)>>,
) -> Seq<EventView> {
    Seq::new(records.len(), |i: int| event_of(records[i]))
}

/// A whole run: the header is read and checked first, and only then the rows.
pub open spec fn processed(
    ledger: LedgerView,
    header: Result<Seq<Seq<char>>, Seq<char>>,
    events: Seq<EventView>,
) -> Progress {
    match header {
        Err(complaint) => Progress {
            ledger,
            skipped: seq![],
            failure: Some(ErrorView::Csv(complaint)),
        },
        Ok(raw) => match header_in(raw) {
            Err(error) => Progress { ledger, skipped: seq![], failure: Some(error) },
            Ok(headers) => progress(ledger, headers, events, events.len()),
        },
    }
}

/// Whether the amounts of all rows under a header are read as exactly the values
/// written.
pub open spec fn all_as_written(
    header: Result<Seq<Seq<char>>, Seq<char>>,
    events: Seq<EventView>,
) -> bool {
    header matches Ok(raw) ==> (header_in(raw) matches Ok(headers) ==> forall|i: int|
        0 <= i < events.len() ==> as_written(headers, #[trigger] events[i]))
}

/// The rows in the lines after the first one, with nothing said of their positions
/// or of how a complaint is worded.
pub open spec fn events_in_lines(lines: Seq<Seq<u8>>) -> Seq<EventView> {
    Seq::new(
        if lines.len() == 0 {
            0
        } else {
            (lines.len() - 1) as nat
        },
        |i: int|
            if lines::is_text(lines[i + 1]) {
                EventView::Row(RowView { fields: lines::fields(lines[i + 1]), position: None })
            } else {
                EventView::Malformed(seq![])
            },
    )
}

/// What a run comes to on lines of CSV without quotes, the first of them being the
/// header.
pub open spec fn processed_lines(ledger: LedgerView, lines: Seq<Seq<u8>>) -> Progress {
    let header = match header_in_lines(lines) {
        Some(names) => Ok(names),
        None => Err(seq![]),
    };
    processed(ledger, header, events_in_lines(lines))
}

/// Skipped rows as mathematics sees them.
pub open spec fn reports(skipped: Seq<(u64, RowError)>) -> Seq<(nat, RowErrorView)> {
    skipped.map_values(|report: (u64, RowError)| (report.0 as nat, report.1@))
}

/// Once a run has failed, nothing that comes later matters.
pub proof fn lemma_failure_is_final(
    ledger: LedgerView,
    headers: Seq<Seq<char>>,
    events: Seq<EventView>,
    count: nat,
    total: nat,
)
    requires
        count <= total,
        progress(ledger, headers, events, count).failure is Some,
    ensures
        progress(ledger, headers, events, total) == progress(ledger, headers, events, count),
    decreases total,
{
    if count < total {
        lemma_failure_is_final(ledger, headers, events, count, (total - 1) as nat);
    }
}

/// Feeds every row of `input` through `engine`, adding the skipped rows to
/// `skipped`.
///
/// Two things are fatal: an unreadable header, and a failure to read on.
/// Everything else — a row that cannot be parsed, or that the ledger refuses — is
/// added to `skipped` with its 1-based data row number and processing continues.
pub fn process(input: &[u8], engine: &mut Engine, skipped: &mut Vec<(u64, RowError)>) -> (result:
    Result<(), Error>)
    requires
        old(engine).wf(),
    ensures
        final(engine).wf(),
        ({
            let run = processed(old(engine)@, csv_header(input@), events_of(csv_rows(input@)));
            &&& final(engine)@ == run.ledger
            &&& reports(final(skipped)@) == reports(old(skipped)@) + run.skipped
            &&& match run.failure {
                Some(error) => result is Err && result->Err_0@ == error,
                None => result is Ok,
            }
        }),
        laws::prudent(old(engine)@) ==> laws::prudent(final(engine)@),
        result is Ok ==> all_as_written(csv_header(input@), events_of(csv_rows(input@))),
        lines::is_unquoted(input@) ==> same_outcome(
            processed(old(engine)@, csv_header(input@), events_of(csv_rows(input@))),
            processed_lines(old(engine)@, lines::lines(input@)),
        ),
{
    let ghost records = csv_rows(input@);
    let ghost events = events_of(records);
    let (mut reader, header) = open_reader(input);
    proof {
        if lines::is_unquoted(input@) {
            lemma_processed_lines(engine@, csv_header(input@), records, lines::lines(input@));
        }
    }
    let header = match header {
        Ok(header) => header,
        Err(complaint) => return Err(Error::Csv(complaint)),
    };
    let mut intake = match Intake::start(&header) {
        Ok(intake) => intake,
        Err(error) => return Err(error),
    };
    let ghost before = engine@;
    let ghost headers = intake.headers();
    loop
        invariant
            engine.wf(),
            before == old(engine)@,
            laws::prudent(before) ==> laws::prudent(engine@),
            records == csv_rows(input@),
            events == events_of(records),
            records.len() <= input@.len(),
            headers == intake.headers(),
            intake.rows() <= records.len(),
            rows_ahead(reader) == records.skip(intake.rows() as int),
            engine@ == progress(before, headers, events, intake.rows()).ledger,
            reports(skipped@) == reports(old(skipped)@) + progress(
                before,
                headers,
                events,
                intake.rows(),
            ).skipped,
            progress(before, headers, events, intake.rows()).failure is None,
            forall|i: int| 0 <= i < intake.rows() ==> as_written(headers, #[trigger] events[i]),
            csv_header(input@) matches Ok(raw) && header_in(raw) == Ok::<
                Seq<Seq<char>>,
                ErrorView,
            >(headers),
            lines::is_unquoted(input@) ==> same_outcome(
                processed(before, csv_header(input@), events),
                processed_lines(before, lines::lines(input@)),
            ),
            processed(before, csv_header(input@), events) == progress(
                before,
                headers,
                events,
                events.len(),
            ),
        decreases rows_ahead(reader).len(),
    {
        let ghost rows = intake.rows();
        let ghost reported = skipped@;
        let event = read_row(&mut reader);
        proof {
            assert(input@.len() == input.len());
            assert(rows < records.len() ==> rows_ahead(reader) =~= records.skip(rows as int + 1));
            assert(rows < records.len() ==> event@ == events[rows as int]);
        }
        match intake.take(engine, event) {
            Action::Next => {},
            Action::Skip(number, error) => {
                skipped.push((number, error));
                proof {
                    assert(reports(skipped@) =~= reports(reported).push((number as nat, error@)));
                    assert(reports(skipped@) =~= reports(old(skipped)@) + progress(
                        before,
                        headers,
                        events,
                        rows + 1,
                    ).skipped);
                }
            },
            Action::Fail(error) => {
                proof {
                    lemma_failure_is_final(before, headers, events, rows + 1, events.len());
                }
                return Err(error);
            },
            Action::Done => {
                return Ok(());
            },
        }
    }
}

/// Columns of the output CSV, in order.
pub open spec fn output_header() -> Seq<Seq<char>> {
    seq!["client"@, "available"@, "held"@, "total"@, "locked"@]
}

/// A truth value as text.
pub open spec fn flag_text(flag: bool) -> Seq<char> {
    if flag {
        "true"@
    } else {
        "false"@
    }
}

/// What the output shows of an account, in the order of [`output_header`].
pub open spec fn account_fields(account: AccountView) -> Seq<Seq<char>> {
    seq![
        text::decimal_digits(account.client as nat),
        account.available.rendered(),
        account.held.rendered(),
        account.total().rendered(),
        flag_text(account.locked),
    ]
}

/// A line of the output: the fields with commas between them.
pub open spec fn csv_line(fields: Seq<Seq<char>>) -> Seq<char> {
    text::joined(fields, ","@) + "\n"@
}

/// The account table: a line with the column names, and then one for each account.
pub open spec fn table(accounts: Seq<AccountView>) -> Seq<char>
    decreases accounts.len(),
{
    if accounts.len() == 0 {
        csv_line(output_header())
    } else {
        table(accounts.drop_last()) + csv_line(account_fields(accounts.last()))
    }
}

/// Whether a field stands in a CSV line as it is, because it is not empty and
/// holds only digits, lower-case letters, minus signs and decimal points.
pub open spec fn is_plain(field: Seq<char>) -> bool {
    field.len() > 0 && forall|i: int| 0 <= i < field.len() ==> #[trigger] is_plain_char(field[i])
}

pub open spec fn is_plain_char(c: char) -> bool {
    ('0' <= c && c <= '9') || ('a' <= c && c <= 'z') || c == '-' || c == '.'
}

/// `csv::Writer::write_record`, on a fresh writer. Plain fields come out as they
/// are, with commas between them and a line feed at the end.
#[verifier::external_body]
fn write_line(fields: &Vec<String>) -> (line: String)
    requires
        fields@.len() > 0,
        forall|i: int| 0 <= i < fields@.len() ==> is_plain(#[trigger] fields@[i]@),
    ensures
        line@ == csv_line(columns::texts(fields@)),
{
    let mut writer = csv::Writer::from_writer(Vec::new());
    let _ = writer.write_record(fields);
    String::from_utf8(writer.into_inner().unwrap_or_default()).unwrap_or_default()
}

/// The digits of a number are plain.
proof fn lemma_digits_are_plain(number: nat)
    ensures
        is_plain(text::decimal_digits(number)),
    decreases number,
{
    if number >= 10 {
        lemma_digits_are_plain(number / 10);
    }
}

/// Decimal places are plain characters, as many of them as were asked for.
proof fn lemma_places_are_plain(number: nat, width: nat)
    ensures
        text::padded_digits(number, width).len() == width,
        width > 0 ==> is_plain(text::padded_digits(number, width)),
    decreases width,
{
    if width > 0 {
        lemma_places_are_plain(number / 10, (width - 1) as nat);
    }
}

/// A figure written out is plain.
proof fn lemma_text_is_plain(figure: Figure)
    ensures
        is_plain(figure.text()),
{
    let power = text::pow10(figure.scale);
    lemma_digits_are_plain(figure.magnitude / power);
    lemma_places_are_plain(figure.magnitude % power, figure.scale);
}

/// Writes the account table as CSV.
pub fn write_accounts(engine: &Engine, output: &mut String)
    ensures
        final(output)@ == old(output)@ + table(engine@.listing()),
{
    let header = vec![
        "client".to_owned(),
        "available".to_owned(),
        "held".to_owned(),
        "total".to_owned(),
        "locked".to_owned(),
    ];
    proof {
        reveal_strlit("client");
        reveal_strlit("available");
        reveal_strlit("held");
        reveal_strlit("total");
        reveal_strlit("locked");
        assert(columns::texts(header@) =~= output_header());
    }
    output.append(write_line(&header).as_str());
    let accounts = engine.accounts();
    let ghost all = engine@.listing();
    let mut i: usize = 0;
    assert(table(all.take(0)) == csv_line(output_header()));
    while i < accounts.len()
        invariant
            i <= accounts.len(),
            all == crate::engine::views(accounts@),
            output@ == old(output)@ + table(all.take(i as int)),
        decreases accounts.len() - i,
    {
        let line = account_line(accounts[i]);
        output.append(line.as_str());
        proof {
            assert(all.take(i + 1).drop_last() =~= all.take(i as int));
            assert(all.take(i + 1).last() == accounts[i as int]@);
            assert(output@ =~= old(output)@ + table(all.take(i + 1)));
        }
        i = i + 1;
    }
    assert(all.take(accounts.len() as int) =~= all);
}

/// Writes the line for one account.
fn account_line(account: &Account) -> (line: String)
    ensures
        line@ == csv_line(account_fields(account@)),
{
    let locked = if account.is_locked() {
        "true"
    } else {
        "false"
    };
    let fields = vec![
        text::number_text(account.client() as u64),
        money::render(account.available()),
        money::render(account.held()),
        money::render(account.total()),
        locked.to_owned(),
    ];
    proof {
        reveal_strlit("true");
        reveal_strlit("false");
        lemma_digits_are_plain(account@.client as nat);
        lemma_text_is_plain(account@.available.rounded(money::SCALE as nat).normalized());
        lemma_text_is_plain(account@.held.rounded(money::SCALE as nat).normalized());
        lemma_text_is_plain(account@.total().rounded(money::SCALE as nat).normalized());
        assert(columns::texts(fields@) =~= account_fields(account@));
    }
    write_line(&fields)
}

/// A header is accepted exactly when there is none at all or it names every column
/// the engine needs, in any case and with any whitespace around the names.
pub proof fn a_header_must_name_every_column(raw: Seq<Seq<char>>)
    ensures
        header_in(raw) is Ok <==> raw.len() == 0 || forall|name: Seq<char>| #[trigger]
            columns::required().contains(name) ==> normalized(raw).contains(name),
        header_in(raw) matches Ok(headers) ==> headers == normalized(raw),
{
    let headers = normalized(raw);
    let required = columns::required();
    let absent = |column: Seq<char>| !headers.contains(column);
    let missing = required.filter(absent);
    if missing.len() > 0 {
        let name = missing[0];
        assert(missing.contains(name));
        required.lemma_filter_contains_rev(absent, name);
        required.lemma_filter_pred(absent, 0);
    } else {
        assert forall|name: Seq<char>| #[trigger] required.contains(name) implies headers.contains(
            name,
        ) by {
            let i = required.index_of(name);
            assert(required[i] == name);
            if absent(required[i]) {
                required.lemma_filter_contains(absent, i);
            }
        }
    }
}

/// What a run goes by depends on the column names alone, not on the case of their
/// letters or the whitespace around them.
pub proof fn column_names_ignore_case_and_whitespace(left: Seq<Seq<char>>, right: Seq<Seq<char>>)
    requires
        left.len() == right.len(),
        forall|i: int|
            0 <= i < left.len() ==> text::lowered(text::trimmed(#[trigger] left[i]))
                == text::lowered(text::trimmed(right[i])),
    ensures
        header_in(left) == header_in(right),
{
    assert(normalized(left) =~= normalized(right));
}

/// A row with more fields than the header names is skipped and never truncated.
pub proof fn long_rows_are_never_truncated(
    ledger: LedgerView,
    headers: Seq<Seq<char>>,
    row: RowView,
)
    requires
        row.fields.len() > headers.len(),
    ensures
        row_outcome(ledger, headers, row) == Err::<LedgerView, RowErrorView>(
            RowErrorView::TooManyFields { expected: headers.len(), found: row.fields.len() },
        ),
{
    reveal(row_outcome);
}

/// The transaction that an event brings, if it is a row that describes one.
pub open spec fn transaction_of(headers: Seq<Seq<char>>, event: EventView) -> Option<
    TransactionView,
> {
    match event {
        EventView::Row(row) => if row.fields.len() > headers.len() {
            None
        } else {
            match columns::record_in(headers, row.fields) {
                Ok(record) => match record.parsed() {
                    Ok(transaction) => Some(transaction),
                    Err(_) => None,
                },
                Err(_) => None,
            }
        },
        _ => None,
    }
}

/// The transactions among the first `count` events, in order.
pub open spec fn transactions_of(
    headers: Seq<Seq<char>>,
    events: Seq<EventView>,
    count: nat,
) -> Seq<TransactionView>
    decreases count,
{
    if count == 0 {
        seq![]
    } else {
        let before = transactions_of(headers, events, (count - 1) as nat);
        match transaction_of(headers, events[count - 1]) {
            Some(transaction) => before.push(transaction),
            None => before,
        }
    }
}

/// A run applies the transactions it is given in the order of their rows, and
/// nothing else touches the ledger: a row that is skipped makes no difference.
pub proof fn rows_are_applied_in_order(
    ledger: LedgerView,
    headers: Seq<Seq<char>>,
    events: Seq<EventView>,
    count: nat,
)
    requires
        progress(ledger, headers, events, count).failure is None,
    ensures
        progress(ledger, headers, events, count).ledger == laws::after(
            ledger,
            transactions_of(headers, events, count),
        ),
    decreases count,
{
    if count > 0 {
        rows_are_applied_in_order(ledger, headers, events, (count - 1) as nat);
        reveal(row_outcome);
        let before = transactions_of(headers, events, (count - 1) as nat);
        match transaction_of(headers, events[count - 1]) {
            Some(transaction) => {
                assert(before.push(transaction).drop_last() =~= before);
            },
            None => {},
        }
    }
}

/// The action that follows from one of the events of a run.
pub open spec fn action_at(
    ledger: LedgerView,
    headers: Seq<Seq<char>>,
    events: Seq<EventView>,
    i: nat,
) -> ActionView {
    taken(progress(ledger, headers, events, i).ledger, headers, i, events[i as int]).1
}

/// Every row of a run is either applied or reported, once, under its number among
/// the data rows and with the reason for which it was skipped; and the reports come
/// in the order of the rows.
pub proof fn every_row_is_applied_or_reported_once(
    ledger: LedgerView,
    headers: Seq<Seq<char>>,
    events: Seq<EventView>,
    count: nat,
)
    requires
        progress(ledger, headers, events, count).failure is None,
    ensures
        ({
            let skipped = progress(ledger, headers, events, count).skipped;
            &&& forall|k: int|
                0 <= k < skipped.len() ==> 1 <= (#[trigger] skipped[k]).0 <= count && action_at(
                    ledger,
                    headers,
                    events,
                    (skipped[k].0 - 1) as nat,
                ) == ActionView::Skip(skipped[k].0, skipped[k].1)
            &&& forall|j: int, k: int|
                0 <= j < k < skipped.len() ==> (#[trigger] skipped[j]).0 < (#[trigger] skipped[k]).0
            &&& forall|i: nat|
                i < count && (#[trigger] action_at(ledger, headers, events, i)) is Skip
                    ==> exists|k: int| 0 <= k < skipped.len() && (#[trigger] skipped[k]).0 == i + 1
        }),
    decreases count,
{
    if count > 0 {
        let last = (count - 1) as nat;
        every_row_is_applied_or_reported_once(ledger, headers, events, last);
        let before = progress(ledger, headers, events, last).skipped;
        let skipped = progress(ledger, headers, events, count).skipped;
        assert forall|i: nat|
            i < count && (#[trigger] action_at(ledger, headers, events, i)) is Skip implies exists|
            k: int,
        | 0 <= k < skipped.len() && (#[trigger] skipped[k]).0 == i + 1 by {
            if i == last {
                assert(skipped[skipped.len() - 1].0 == i + 1);
            } else {
                let k = choose|k: int| 0 <= k < before.len() && (#[trigger] before[k]).0 == i + 1;
                assert(skipped[k] == before[k]);
            }
        }
    }
}

/// Whether two rows have the same fields, wherever in the input they stand, or two
/// events are otherwise of the same kind, however a complaint about a row that
/// cannot be read is worded.
pub open spec fn same_but_for_position(left: EventView, right: EventView) -> bool {
    match (left, right) {
        (EventView::Row(l), EventView::Row(r)) => l.fields == r.fields,
        (EventView::Malformed(_), EventView::Malformed(_)) => true,
        (EventView::Failed(l), EventView::Failed(r)) => l == r,
        (EventView::End, EventView::End) => true,
        _ => false,
    }
}

/// Whether two rows were skipped for the same reason, however it is worded where
/// the rows are malformed.
pub open spec fn same_reason(left: RowErrorView, right: RowErrorView) -> bool {
    (left is Malformed && right is Malformed) || left == right
}

/// Whether two runs ended alike, however an input that cannot be read is complained
/// about.
pub open spec fn same_end(left: Option<ErrorView>, right: Option<ErrorView>) -> bool {
    (left matches Some(ErrorView::Csv(_)) && right matches Some(ErrorView::Csv(_))) || left
        == right
}

/// Whether two runs came to the same: the same ledger, the same end, and the same
/// rows skipped, by their numbers and for the same reasons.
pub open spec fn same_outcome(left: Progress, right: Progress) -> bool {
    &&& left.ledger == right.ledger
    &&& same_end(left.failure, right.failure)
    &&& left.skipped.len() == right.skipped.len()
    &&& forall|k: int|
        0 <= k < left.skipped.len() ==> (#[trigger] left.skipped[k]).0 == right.skipped[k].0
            && same_reason(left.skipped[k].1, right.skipped[k].1)
}

/// Row numbers count data rows and not lines: where the rows stand in the input,
/// with what line endings and with how many blank lines between them, makes no
/// difference to the ledger, to which rows are skipped, or to their numbers and
/// reasons.
pub proof fn row_numbers_ignore_where_rows_stand(
    ledger: LedgerView,
    headers: Seq<Seq<char>>,
    left: Seq<EventView>,
    right: Seq<EventView>,
    count: nat,
)
    requires
        count <= left.len(),
        left.len() == right.len(),
        forall|i: int|
            0 <= i < left.len() ==> same_but_for_position(#[trigger] left[i], right[i]),
    ensures
        same_outcome(
            progress(ledger, headers, left, count),
            progress(ledger, headers, right, count),
        ),
    decreases count,
{
    if count > 0 {
        let last = (count - 1) as nat;
        row_numbers_ignore_where_rows_stand(ledger, headers, left, right, last);
        assert(same_but_for_position(left[last as int], right[last as int]));
        reveal(row_outcome);
    }
}

/// Two inputs with the same header whose rows differ only in where they stand come
/// to the same.
pub proof fn runs_ignore_where_rows_stand(
    ledger: LedgerView,
    header: Result<Seq<Seq<char>>, Seq<char>>,
    left: Seq<EventView>,
    right: Seq<EventView>,
)
    requires
        left.len() == right.len(),
        forall|i: int|
            0 <= i < left.len() ==> same_but_for_position(#[trigger] left[i], right[i]),
    ensures
        same_outcome(processed(ledger, header, left), processed(ledger, header, right)),
{
    if header is Ok && header_in(header->Ok_0) is Ok {
        row_numbers_ignore_where_rows_stand(
            ledger,
            header_in(header->Ok_0)->Ok_0,
            left,
            right,
            left.len(),
        );
    }
}

/// A run over the records of unquoted CSV comes to what its lines come to.
proof fn lemma_processed_lines(
    ledger: LedgerView,
    header: Result<Seq<Seq<char>>, Seq<char>>,
    records: Seq<Result<(Seq<Seq<char>>, Option<(u64, u64, u64)>), (bool, Seq<char>)>>,
    lines: Seq<Seq<u8>>,
)
    requires
        are_rows_of(records, lines),
        match header {
            Ok(names) => header_in_lines(lines) == Some(names),
            Err(_) => header_in_lines(lines) is None,
        },
    ensures
        same_outcome(
            processed(ledger, header, events_of(records)),
            processed_lines(ledger, lines),
        ),
{
    let left = events_of(records);
    let right = events_in_lines(lines);
    if header is Ok {
        assert forall|i: int| 0 <= i < left.len() implies same_but_for_position(
            #[trigger] left[i],
            right[i],
        ) by {
            assert(left[i] == event_of(records[i]));
        }
        runs_ignore_where_rows_stand(ledger, header, left, right);
    }
}

/// A blank line makes no difference to a run over unquoted CSV, wherever it stands.
pub proof fn runs_ignore_blank_lines(
    ledger: LedgerView,
    before: Seq<u8>,
    end: u8,
    after: Seq<u8>,
)
    requires
        lines::is_line_end(end),
        before.len() == 0 || lines::is_line_end(before.last()),
    ensures
        processed_lines(ledger, lines::lines(before.push(end) + after)) == processed_lines(
            ledger,
            lines::lines(before + after),
        ),
{
    lines::blank_lines_are_no_lines(before, end, after);
}

/// Line endings make no difference to a run over unquoted CSV.
pub proof fn runs_ignore_line_endings(ledger: LedgerView, input: Seq<u8>)
    ensures
        processed_lines(ledger, lines::lines(lines::with_carriage_returns(input)))
            == processed_lines(ledger, lines::lines(input)),
{
    lines::line_endings_do_not_matter(input);
}

/// Two runs that come to the same as a third come to the same.
pub proof fn outcomes_that_match_a_third_match(left: Progress, right: Progress, third: Progress)
    requires
        same_outcome(left, third),
        same_outcome(right, third),
    ensures
        same_outcome(left, right),
{
    assert forall|k: int| 0 <= k < left.skipped.len() implies (#[trigger] left.skipped[k]).0
        == right.skipped[k].0 && same_reason(left.skipped[k].1, right.skipped[k].1) by {
        assert(right.skipped[k].0 == third.skipped[k].0);
    }
}

/// Every column of a header is kept, in its place, in lower case and without the
/// whitespace around it.
pub proof fn every_column_name_is_kept(raw: Seq<Seq<char>>)
    ensures
        normalized(raw).len() == raw.len(),
        forall|i: int|
            0 <= i < raw.len() ==> normalized(raw)[i] == text::lowered(
                text::trimmed(#[trigger] raw[i]),
            ),
{
}

/// A header that is refused is refused with the four names it should have, and with
/// those of them that it lacks, in that order.
pub proof fn a_refused_header_is_told_what_it_lacks(raw: Seq<Seq<char>>)
    requires
        header_in(raw) is Err,
    ensures
        ({
            let lacks = |name: Seq<char>|
                if normalized(raw).contains(name) {
                    seq![]
                } else {
                    seq![name]
                };
            header_in(raw) == Err::<Seq<Seq<char>>, ErrorView>(
                ErrorView::Header {
                    expected: "type, client, tx, amount"@,
                    missing: text::joined(
                        lacks("type"@) + lacks("client"@) + lacks("tx"@) + lacks("amount"@),
                        ", "@,
                    ),
                },
            )
        }),
{
    let names = normalized(raw);
    let absent = |column: Seq<char>| !names.contains(column);
    let required = columns::required();
    assert(missing_from(names) =~= (if absent("type"@) {
        seq!["type"@]
    } else {
        seq![]
    }) + (if absent("client"@) {
        seq!["client"@]
    } else {
        seq![]
    }) + (if absent("tx"@) {
        seq!["tx"@]
    } else {
        seq![]
    }) + (if absent("amount"@) {
        seq!["amount"@]
    } else {
        seq![]
    })) by {
        reveal(Seq::filter);
        assert(required.drop_last() =~= seq!["type"@, "client"@, "tx"@]);
        assert(required.drop_last().drop_last() =~= seq!["type"@, "client"@]);
        assert(required.drop_last().drop_last().drop_last() =~= seq!["type"@]);
        assert(required.drop_last().drop_last().drop_last().drop_last() =~= seq![]);
        let one = required.drop_last().drop_last().drop_last();
        let two = required.drop_last().drop_last();
        let three = required.drop_last();
        assert(one.drop_last().filter(absent) =~= seq![]);
        assert(one.filter(absent) =~= if absent("type"@) {
            seq!["type"@]
        } else {
            seq![]
        });
        assert(two.filter(absent) =~= one.filter(absent) + if absent("client"@) {
            seq!["client"@]
        } else {
            seq![]
        });
        assert(three.filter(absent) =~= two.filter(absent) + if absent("tx"@) {
            seq!["tx"@]
        } else {
            seq![]
        });
    }
    assert(text::joined(required, ", "@) =~= "type, client, tx, amount"@) by {
        reveal_strlit("type");
        reveal_strlit("client");
        reveal_strlit("tx");
        reveal_strlit("amount");
        reveal_strlit(", ");
        reveal_strlit("type, client, tx, amount");
        let three = required.drop_last();
        let two = three.drop_last();
        let one = two.drop_last();
        assert(text::joined(one, ", "@) == "type"@);
        assert(text::joined(two, ", "@) == "type"@ + ", "@ + "client"@);
        assert(text::joined(three, ", "@) == "type"@ + ", "@ + "client"@ + ", "@ + "tx"@);
    }
}

/// A complaint about the fields of a row is passed on as it is, with the record,
/// line and byte at which the row stands before it where they are known.
pub proof fn complaints_are_passed_on_with_the_place(position: Position, complaint: Seq<char>)
    ensures
        deserialize_text(None, complaint) == "CSV deserialize error: "@ + complaint,
        deserialize_text(Some(position), complaint) == "CSV deserialize error: record "@
            + text::decimal_digits(position.record as nat) + " (line: "@ + text::decimal_digits(
            position.line as nat,
        ) + ", byte: "@ + text::decimal_digits(position.byte as nat) + "): "@ + complaint,
{
}

/// A row is skipped for one of four reasons, and for each exactly where it holds: it
/// has more fields than the header names, it cannot be read, what it says is no
/// transaction, or the ledger turns the transaction away. Otherwise the ledger is
/// what the transaction makes of it.
pub proof fn why_a_row_is_skipped(ledger: LedgerView, headers: Seq<Seq<char>>, row: RowView)
    ensures
        ({
            let outcome = row_outcome(ledger, headers, row);
            let too_long = row.fields.len() > headers.len();
            let record = columns::record_in(headers, row.fields);
            let readable = !too_long && record is Ok;
            let transaction = record->Ok_0.parsed();
            &&& too_long ==> outcome == Err::<LedgerView, RowErrorView>(
                RowErrorView::TooManyFields { expected: headers.len(), found: row.fields.len() },
            )
            &&& !too_long ==> (record matches Err(complaint) ==> outcome == Err::<
                LedgerView,
                RowErrorView,
            >(RowErrorView::Malformed(deserialize_text(row.position, complaint))))
            &&& readable ==> (transaction matches Err(why) ==> outcome == Err::<
                LedgerView,
                RowErrorView,
            >(RowErrorView::Invalid(why)))
            &&& readable ==> (transaction matches Ok(given) ==> (ledger.applied(given) matches Err(
                why,
            ) ==> outcome == Err::<LedgerView, RowErrorView>(RowErrorView::Rejected(why))))
            &&& readable ==> (transaction matches Ok(given) ==> (ledger.applied(given) matches Ok(
                next,
            ) ==> outcome == Ok::<LedgerView, RowErrorView>(next)))
        }),
{
    reveal(row_outcome);
}

/// Whether a row does to a ledger what a transaction does.
pub open spec fn does(
    ledger: LedgerView,
    headers: Seq<Seq<char>>,
    row: RowView,
    transaction: TransactionView,
) -> bool {
    match ledger.applied(transaction) {
        Ok(next) => row_outcome(ledger, headers, row) == Ok::<LedgerView, RowErrorView>(next),
        Err(why) => row_outcome(ledger, headers, row) == Err::<LedgerView, RowErrorView>(
            RowErrorView::Rejected(why),
        ),
    }
}

/// A row that can be read does what its type names, for the client and with the ID in
/// its fields: a `dispute`, `resolve` or `chargeback` row is a dispute, a resolution
/// or a chargeback.
pub proof fn a_row_does_what_its_type_names(
    ledger: LedgerView,
    headers: Seq<Seq<char>>,
    row: RowView,
    kind: int,
    client: int,
    tx: int,
)
    requires
        row.fields.len() <= headers.len(),
        columns::record_in(headers, row.fields) is Ok,
        0 <= kind < headers.len() && headers[kind] == "type"@,
        0 <= client < headers.len() && headers[client] == "client"@,
        0 <= tx < headers.len() && headers[tx] == "tx"@,
    ensures
        ({
            let name = text::lowered(text::trimmed(row.fields[kind]));
            let c = columns::number_in(row.fields[client], u16::MAX as nat)->0 as u16;
            let t = columns::number_in(row.fields[tx], u32::MAX as nat)->0 as u32;
            &&& name == "dispute"@ ==> does(
                ledger,
                headers,
                row,
                TransactionView::Dispute { client: c, tx: t },
            )
            &&& name == "resolve"@ ==> does(
                ledger,
                headers,
                row,
                TransactionView::Resolve { client: c, tx: t },
            )
            &&& name == "chargeback"@ ==> does(
                ledger,
                headers,
                row,
                TransactionView::Chargeback { client: c, tx: t },
            )
        }),
{
    let fields = row.fields;
    columns::a_record_says_what_its_fields_say(headers, fields, kind);
    columns::a_record_says_what_its_fields_say(headers, fields, client);
    columns::a_record_says_what_its_fields_say(headers, fields, tx);
    record::a_dispute_row_becomes_what_its_type_names(columns::record_in(headers, fields)->Ok_0);
    why_a_row_is_skipped(ledger, headers, row);
}

/// A `deposit` or `withdrawal` row that can be read moves the amount that is written
/// in it, rounded to four places, for the client and under the ID in its fields.
pub proof fn a_row_moves_the_amount_written_in_it(
    ledger: LedgerView,
    headers: Seq<Seq<char>>,
    row: RowView,
    kind: int,
    client: int,
    tx: int,
    amount: int,
)
    requires
        row.fields.len() <= headers.len(),
        columns::record_in(headers, row.fields) is Ok,
        0 <= kind < headers.len() && headers[kind] == "type"@,
        0 <= client < headers.len() && headers[client] == "client"@,
        0 <= tx < headers.len() && headers[tx] == "tx"@,
        0 <= amount < row.fields.len() && headers[amount] == "amount"@,
        money::decimal_in(text::trimmed(row.fields[amount])) is Some,
        money::reads_as_written(text::trimmed(row.fields[amount])),
    ensures
        ({
            let name = text::lowered(text::trimmed(row.fields[kind]));
            let c = columns::number_in(row.fields[client], u16::MAX as nat)->0 as u16;
            let t = columns::number_in(row.fields[tx], u32::MAX as nat)->0 as u32;
            let written = money::decimal_in(text::trimmed(row.fields[amount]))->0;
            let counts = 2 * written.units() > text::pow10(
                (money::MAX_SCALE - money::SCALE) as nat,
            );
            &&& name == "deposit"@ && counts ==> exists|moved: Figure|
                #![trigger money::rounds_to(written, moved, money::SCALE as nat)]
                money::rounds_to(written, moved, money::SCALE as nat) && does(
                    ledger,
                    headers,
                    row,
                    TransactionView::Deposit { client: c, tx: t, amount: moved },
                )
            &&& name == "withdrawal"@ && counts ==> exists|moved: Figure|
                #![trigger money::rounds_to(written, moved, money::SCALE as nat)]
                money::rounds_to(written, moved, money::SCALE as nat) && does(
                    ledger,
                    headers,
                    row,
                    TransactionView::Withdrawal { client: c, tx: t, amount: moved },
                )
            &&& (name == "deposit"@ || name == "withdrawal"@) && !counts ==> (row_outcome(
                ledger,
                headers,
                row,
            ) matches Err(RowErrorView::Invalid(ParseErrorView::NonPositiveAmount(shown)))
                && money::rounds_to(written, shown, money::SCALE as nat))
        }),
{
    let fields = row.fields;
    let record = columns::record_in(headers, fields)->Ok_0;
    columns::a_record_says_what_its_fields_say(headers, fields, kind);
    columns::a_record_says_what_its_fields_say(headers, fields, client);
    columns::a_record_says_what_its_fields_say(headers, fields, tx);
    columns::a_record_says_what_its_fields_say(headers, fields, amount);
    if text::trimmed(fields[amount]).len() == 0 {
        money::lemma_no_text_is_no_decimal(text::trimmed(fields[amount]));
    }
    record::a_movement_row_moves_the_amount_on_it(record);
    why_a_row_is_skipped(ledger, headers, row);
    let name = text::lowered(text::trimmed(record.kind));
    match record.parsed() {
        Ok(TransactionView::Deposit { amount: moved, .. }) => {
            assert(name == "deposit"@ ==> money::rounds_to(
                record.amount->0,
                moved,
                money::SCALE as nat,
            ));
        },
        Ok(TransactionView::Withdrawal { amount: moved, .. }) => {
            assert(name == "withdrawal"@ ==> money::rounds_to(
                record.amount->0,
                moved,
                money::SCALE as nat,
            ));
        },
        _ => {},
    }
}

/// What follows from an event. A row that goes through changes the ledger as it
/// should and asks for the next; one that does not, or that cannot be read, is
/// skipped under the number after that of the row before it, and changes nothing; a
/// failure to read on is passed on as it is; and the end is the end.
pub proof fn what_follows_from_an_event(
    ledger: LedgerView,
    headers: Seq<Seq<char>>,
    rows: nat,
    event: EventView,
)
    ensures
        ({
            let (next, action) = taken(ledger, headers, rows, event);
            match event {
                EventView::Row(row) => match row_outcome(ledger, headers, row) {
                    Ok(changed) => next == changed && action == ActionView::Next,
                    Err(why) => next == ledger && action == ActionView::Skip(rows + 1, why),
                },
                EventView::Malformed(why) => next == ledger && action == ActionView::Skip(
                    rows + 1,
                    RowErrorView::Malformed(why),
                ),
                EventView::Failed(why) => next == ledger && action == ActionView::Fail(
                    ErrorView::Csv(why),
                ),
                EventView::End => next == ledger && action == ActionView::Done,
            }
        }),
{
}

/// Why an event is reported as a skipped row, if it is.
pub open spec fn reason_to_skip(
    ledger: LedgerView,
    headers: Seq<Seq<char>>,
    event: EventView,
) -> Option<RowErrorView> {
    match event {
        EventView::Row(row) => match row_outcome(ledger, headers, row) {
            Ok(_) => None,
            Err(why) => Some(why),
        },
        EventView::Malformed(text) => Some(RowErrorView::Malformed(text)),
        _ => None,
    }
}

/// A run that cannot read its header, or is given one that lacks a column, ends
/// there: it fails, no row is looked at, and the ledger stays as it was.
pub proof fn without_a_proper_header_nothing_is_done(
    ledger: LedgerView,
    header: Result<Seq<Seq<char>>, Seq<char>>,
    events: Seq<EventView>,
)
    ensures
        ({
            let run = processed(ledger, header, events);
            let nothing_done = run.ledger == ledger && run.skipped.len() == 0;
            &&& header matches Err(complaint) ==> nothing_done && run.failure == Some(
                ErrorView::Csv(complaint),
            )
            &&& header matches Ok(raw) ==> (header_in(raw) matches Err(why) ==> nothing_done
                && run.failure == Some(why))
        }),
{
}

/// A run whose input can be read to the end goes through every row: the ledger is
/// what the transactions on the rows make of it, in order, and the rows skipped are
/// exactly those with a reason for it, in order, each under its number and with the
/// reason that the ledger gave at that point.
pub proof fn a_run_goes_through_every_row(
    ledger: LedgerView,
    raw: Seq<Seq<char>>,
    events: Seq<EventView>,
)
    requires
        header_in(raw) is Ok,
        forall|i: int| 0 <= i < events.len() ==> !(#[trigger] events[i] is Failed),
    ensures
        ({
            let headers = normalized(raw);
            let run = processed(ledger, Ok(raw), events);
            let reason = |i: int|
                reason_to_skip(
                    laws::after(ledger, transactions_of(headers, events, i as nat)),
                    headers,
                    events[i],
                );
            &&& run.failure is None
            &&& run.ledger == laws::after(ledger, transactions_of(headers, events, events.len()))
            &&& forall|k: int|
                0 <= k < run.skipped.len() ==> 1 <= (#[trigger] run.skipped[k]).0 <= events.len()
                    && reason(run.skipped[k].0 - 1) == Some(run.skipped[k].1)
            &&& forall|j: int, k: int|
                0 <= j < k < run.skipped.len() ==> (#[trigger] run.skipped[j]).0 < (
                #[trigger] run.skipped[k]).0
            &&& forall|i: int|
                0 <= i < events.len() && #[trigger] reason(i) is Some ==> exists|k: int|
                    0 <= k < run.skipped.len() && (#[trigger] run.skipped[k]).0 == i + 1
        }),
{
    let headers = normalized(raw);
    let run = processed(ledger, Ok(raw), events);
    let count = events.len();
    a_header_must_name_every_column(raw);
    lemma_no_failure(ledger, headers, events, count);
    rows_are_applied_in_order(ledger, headers, events, count);
    every_row_is_applied_or_reported_once(ledger, headers, events, count);
    let reason = |i: int|
        reason_to_skip(
            laws::after(ledger, transactions_of(headers, events, i as nat)),
            headers,
            events[i],
        );
    assert forall|i: int| 0 <= i < count implies (#[trigger] reason(i) matches Some(why)
        ==> action_at(ledger, headers, events, i as nat) == ActionView::Skip((i + 1) as nat, why))
        && (reason(i) is None ==> !(action_at(ledger, headers, events, i as nat) is Skip)) by {
        lemma_no_failure(ledger, headers, events, i as nat);
        rows_are_applied_in_order(ledger, headers, events, i as nat);
    }
    assert forall|k: int| 0 <= k < run.skipped.len() implies 1 <= (#[trigger] run.skipped[k]).0
        <= count && reason(run.skipped[k].0 - 1) == Some(run.skipped[k].1) by {
        let i = run.skipped[k].0 - 1;
        assert(reason(i) is Some || reason(i) is None);
    }
    assert forall|i: int| 0 <= i < count && #[trigger] reason(i) is Some implies exists|k: int|
        0 <= k < run.skipped.len() && (#[trigger] run.skipped[k]).0 == i + 1 by {
        assert(action_at(ledger, headers, events, i as nat) is Skip);
    }
}

/// Where no event is a failure to read on, the run has not failed.
proof fn lemma_no_failure(
    ledger: LedgerView,
    headers: Seq<Seq<char>>,
    events: Seq<EventView>,
    count: nat,
)
    requires
        count <= events.len(),
        forall|i: int| 0 <= i < count ==> !(#[trigger] events[i] is Failed),
    ensures
        progress(ledger, headers, events, count).failure is None,
    decreases count,
{
    if count > 0 {
        lemma_no_failure(ledger, headers, events, (count - 1) as nat);
    }
}

/// A run whose input cannot be read beyond some point stops there and fails with
/// what the reader says; up to there it is the run over the rows before.
pub proof fn a_run_stops_where_its_input_does(
    ledger: LedgerView,
    raw: Seq<Seq<char>>,
    events: Seq<EventView>,
    at: int,
    why: Seq<char>,
)
    requires
        header_in(raw) is Ok,
        0 <= at < events.len(),
        events[at] == EventView::Failed(why),
        forall|i: int| 0 <= i < at ==> !(#[trigger] events[i] is Failed),
    ensures
        ({
            let run = processed(ledger, Ok(raw), events);
            let rows_before = processed(ledger, Ok(raw), events.take(at));
            &&& run.failure == Some(ErrorView::Csv(why))
            &&& run.ledger == rows_before.ledger
            &&& run.skipped == rows_before.skipped
        }),
{
    let headers = header_in(raw)->Ok_0;
    lemma_no_failure(ledger, headers, events, at as nat);
    lemma_failure_is_final(ledger, headers, events, (at + 1) as nat, events.len());
    lemma_later_events_do_not_matter(ledger, headers, events, at as nat, at as nat);
}

/// What comes after an event makes no difference to the run up to it.
proof fn lemma_later_events_do_not_matter(
    ledger: LedgerView,
    headers: Seq<Seq<char>>,
    events: Seq<EventView>,
    at: nat,
    count: nat,
)
    requires
        count <= at <= events.len(),
    ensures
        progress(ledger, headers, events, count) == progress(
            ledger,
            headers,
            events.take(at as int),
            count,
        ),
    decreases count,
{
    if count > 0 {
        lemma_later_events_do_not_matter(ledger, headers, events, at, (count - 1) as nat);
    }
}

/// A record becomes a row with its fields and its position; a complaint about one
/// becomes a row that cannot be read; and a failure of the input stays one.
pub proof fn a_record_becomes_an_event(
    records: Seq<Result<(Seq<Seq<char>>, Option<(u64, u64, u64)>), (bool, Seq<char>)>>,
    i: int,
)
    requires
        0 <= i < records.len(),
    ensures
        events_of(records).len() == records.len(),
        match records[i] {
            Ok((fields, position)) => events_of(records)[i] matches EventView::Row(row)
                && row.fields == fields && match position {
                Some((record, line, byte)) => row.position == Some(Position { record, line, byte }),
                None => row.position is None,
            },
            Err((true, why)) => events_of(records)[i] == EventView::Failed(why),
            Err((false, why)) => events_of(records)[i] == EventView::Malformed(why),
        },
{
}

/// Reports keep every skipped row, in order, with its number and its reason.
pub proof fn reports_keep_every_skipped_row(skipped: Seq<(u64, RowError)>)
    ensures
        reports(skipped).len() == skipped.len(),
        forall|i: int|
            0 <= i < skipped.len() ==> reports(skipped)[i].0 == (#[trigger] skipped[i]).0
                && reports(skipped)[i].1 == skipped[i].1@,
{
}

/// Whether a text shows an amount: written plainly and without trailing zeros, it
/// reads back as what the amount comes to with four decimal places.
pub open spec fn shows(field: Seq<char>, amount: Figure) -> bool {
    let shown = money::decimal_in(field);
    &&& shown is Some
    &&& field == shown->0.text()
    &&& shown->0.scale > 0 ==> shown->0.magnitude % 10 != 0
    &&& exists|kept: Figure|
        #[trigger] money::rounds_to(amount, kept, money::SCALE as nat) && shown->0.units()
            == kept.units()
}

/// The line for an account, locked or not, shows its client number, its available
/// and held funds, the two added up, and whether it is locked, in this order.
pub proof fn a_line_shows_the_account(account: AccountView)
    requires
        account.valid(),
    ensures
        ({
            let fields = account_fields(account);
            &&& fields.len() == 5
            &&& text::digits_value(fields[0], 10) == Some(account.client as nat)
            &&& fields[0][0] == '0' ==> fields[0].len() == 1
            &&& shows(fields[1], account.available)
            &&& shows(fields[2], account.held)
            &&& exists|total: Figure|
                total.valid() && #[trigger] total.units() == account.available.units()
                    + account.held.units() && shows(fields[3], total)
            &&& account.locked ==> fields[4] == "true"@
            &&& !account.locked ==> fields[4] == "false"@
        }),
{
    text::a_number_reads_back_from_its_digits(account.client as nat);
    account::the_total_is_available_plus_held(account);
    lemma_rendered_shows(account.available);
    lemma_rendered_shows(account.held);
    lemma_rendered_shows(account.total());
    let fields = account_fields(account);
    assert(fields[3] == account.total().rendered());
}

/// An amount as the output shows it shows the amount.
proof fn lemma_rendered_shows(amount: Figure)
    requires
        amount.valid(),
    ensures
        shows(amount.rendered(), amount),
{
    money::what_is_shown_reads_back(amount);
}

/// The table begins with the column names, and then has a line for each account, in
/// the order given: five fields with a comma between each two and a line feed at the
/// end.
pub proof fn the_table_has_a_line_for_each_account(accounts: Seq<AccountView>)
    ensures
        accounts.len() == 0 ==> table(accounts) == "client,available,held,total,locked\n"@,
        accounts.len() > 0 ==> ({
            let fields = account_fields(accounts.last());
            table(accounts) == table(accounts.drop_last()) + fields[0] + ","@ + fields[1] + ","@
                + fields[2] + ","@ + fields[3] + ","@ + fields[4] + "\n"@
        }),
{
    if accounts.len() == 0 {
        lemma_five_fields(output_header());
        reveal_strlit("client");
        reveal_strlit("available");
        reveal_strlit("held");
        reveal_strlit("total");
        reveal_strlit("locked");
        reveal_strlit(",");
        reveal_strlit("\n");
        reveal_strlit("client,available,held,total,locked\n");
        assert(table(accounts) =~= "client,available,held,total,locked\n"@);
    } else {
        let fields = account_fields(accounts.last());
        lemma_five_fields(fields);
        assert(table(accounts) =~= table(accounts.drop_last()) + fields[0] + ","@ + fields[1]
            + ","@ + fields[2] + ","@ + fields[3] + ","@ + fields[4] + "\n"@);
    }
}

/// Five fields with commas between them.
proof fn lemma_five_fields(fields: Seq<Seq<char>>)
    requires
        fields.len() == 5,
    ensures
        csv_line(fields) == fields[0] + ","@ + fields[1] + ","@ + fields[2] + ","@ + fields[3]
            + ","@ + fields[4] + "\n"@,
{
    let four = fields.drop_last();
    let three = four.drop_last();
    let two = three.drop_last();
    let one = two.drop_last();
    assert(text::joined(one, ","@) == fields[0]);
    assert(text::joined(two, ","@) == fields[0] + ","@ + fields[1]);
    assert(text::joined(three, ","@) == fields[0] + ","@ + fields[1] + ","@ + fields[2]);
    assert(text::joined(four, ","@) == fields[0] + ","@ + fields[1] + ","@ + fields[2] + ","@
        + fields[3]);
}

/// An event, and what follows from it, is what is written in it.
pub proof fn an_event_is_what_is_written_in_it(event: Event, action: Action)
    ensures
        match event {
            Event::Row(row) => event@ matches EventView::Row(view) && view.fields
                == columns::texts(row.fields@) && view.position == row.position,
            Event::Malformed(text) => event@ == EventView::Malformed(text@),
            Event::Failed(text) => event@ == EventView::Failed(text@),
            Event::End => event@ == EventView::End,
        },
        match action {
            Action::Next => action@ == ActionView::Next,
            Action::Skip(number, why) => action@ == ActionView::Skip(number as nat, why@),
            Action::Fail(why) => action@ == ActionView::Fail(why@),
            Action::Done => action@ == ActionView::Done,
        },
{
}

} // verus!
