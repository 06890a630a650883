//! Reading a row's fields by the names of their columns.
//!
//! The header names the columns, in any order, and a row's fields follow that
//! order. Columns with other names than the four the engine needs are passed
//! over.
use vstd::prelude::*;
use vstd::string::*;

use crate::money;
use crate::money::{Amount, Figure};
use crate::record::{Record, RecordView};
use crate::text;

verus! {

/// Column names the input header must provide.
pub open spec fn required() -> Seq<Seq<char>> {
    seq!["type"@, "client"@, "tx"@, "amount"@]
}

/// The whole number in a field, if the field holds one no larger than `limit`:
/// decimal digits, or hexadecimal ones behind `0x`, with a plus sign before them
/// if need be.
pub open spec fn number_in(field: Seq<char>, limit: nat) -> Option<nat> {
    let hexadecimal = field.len() >= 2 && field[0] == '0' && field[1] == 'x';
    let (rest, radix) = if hexadecimal {
        (field.skip(2), 16nat)
    } else {
        (field, 10nat)
    };
    let digits = if rest.len() > 0 && rest[0] == '+' {
        rest.skip(1)
    } else {
        rest
    };
    match text::digits_value(digits, radix) {
        Some(value) => if digits.len() > 0 && value <= limit {
            Some(value)
        } else {
            None
        },
        None => None,
    }
}

/// How `StringRecord::deserialize` words its complaint about a field that holds no
/// whole number up to `limit`.
pub uninterp spec fn number_complaint(field: Seq<char>, limit: nat) -> Seq<char>;

/// `StringRecord::deserialize` of a single field into a `u16`. It reads decimal
/// digits, or hexadecimal ones behind `0x`, an optional plus sign before them, and
/// refuses everything else; how it words the refusal depends on the field alone.
#[verifier::external_body]
fn read_u16(field: &str) -> (number: Result<u16, String>)
    ensures
        match number {
            Ok(number) => number_in(field@, u16::MAX as nat) == Some(number as nat),
            Err(complaint) => number_in(field@, u16::MAX as nat) is None && complaint@
                == number_complaint(field@, u16::MAX as nat),
        },
{
    let cell = csv::StringRecord::from(vec![field]);
    cell.deserialize::<u16>(None).map_err(|error| match error.into_kind() {
        csv::ErrorKind::Deserialize { err, .. } => err.kind().to_string(),
        kind => format!("{kind:?}"),
    })
}

/// `StringRecord::deserialize` of a single field into a `u32`, on the same terms
/// as [`read_u16`].
#[verifier::external_body]
fn read_u32(field: &str) -> (number: Result<u32, String>)
    ensures
        match number {
            Ok(number) => number_in(field@, u32::MAX as nat) == Some(number as nat),
            Err(complaint) => number_in(field@, u32::MAX as nat) is None && complaint@
                == number_complaint(field@, u32::MAX as nat),
        },
{
    let cell = csv::StringRecord::from(vec![field]);
    cell.deserialize::<u32>(None).map_err(|error| match error.into_kind() {
        csv::ErrorKind::Deserialize { err, .. } => err.kind().to_string(),
        kind => format!("{kind:?}"),
    })
}

/// The amount in a field, a missing or blank field being no amount.
pub open spec fn amount_in(raw: Option<Seq<char>>) -> Result<Option<Figure>, Seq<char>> {
    match raw {
        None => Ok(None),
        Some(raw) => {
            let text = text::trimmed(raw);
            if text.len() == 0 {
                Ok(None)
            } else {
                match money::decimal_from_str(text) {
                    Ok((negative, magnitude, scale)) => Ok(
                        Some(Figure { negative, magnitude, scale }),
                    ),
                    Err(complaint) => Err(complaint),
                }
            }
        },
    }
}

/// Reads the `amount` column, treating a missing or blank field as no amount.
///
/// Parsing goes through the text rather than a float so that `1.0001` is the
/// exact value written, not the nearest binary approximation of it.
pub fn deserialize_amount(raw: Option<&str>) -> (amount: Result<Option<Amount>, String>)
    ensures
        match amount_in(
            match raw {
                Some(raw) => Some(raw@),
                None => None,
            },
        ) {
            Ok(read) => amount is Ok && money::figure_in(amount->Ok_0) == read,
            Err(complaint) => amount is Err && amount->Err_0@ == complaint,
        },
        raw matches Some(raw) ==> money::reads_as_written(text::trimmed(raw@)),
        raw matches Some(raw) ==> (money::decimal_in(text::trimmed(raw@)) matches Some(figure)
            ==> amount is Ok && money::figure_in(amount->Ok_0) == Some(figure)),
{
    proof {
        money::lemma_no_text_is_no_decimal(seq![]);
    }
    match raw {
        None => Ok(None),
        Some(raw) => {
            let text = text::trim(raw);
            if text.unicode_len() == 0 {
                assert(text@ =~= Seq::<char>::empty());
                Ok(None)
            } else {
                match Amount::from_str(text) {
                    Ok(amount) => Ok(Some(amount)),
                    Err(complaint) => Err(complaint),
                }
            }
        },
    }
}

/// The field in a column, where the row is long enough to have one.
pub open spec fn cell(fields: Seq<Seq<char>>, column: int) -> Option<Seq<char>> {
    if column < fields.len() {
        Some(fields[column])
    } else {
        None
    }
}

/// What is wrong with one column of a row, if anything: a name the engine knows
/// stands there for the second time, the row has ended although only the amount
/// may be left out, or the field does not hold what the column is for.
pub open spec fn column_complaint(
    headers: Seq<Seq<char>>,
    fields: Seq<Seq<char>>,
    column: int,
) -> Option<Seq<char>> {
    let name = headers[column];
    let numbered = |complaint: Seq<char>|
        "field "@ + text::decimal_digits(column as nat) + ": "@ + complaint;
    if required().contains(name) && headers.take(column).contains(name) {
        Some("duplicate field `"@ + name + "`"@)
    } else if name == "amount"@ {
        match amount_in(cell(fields, column)) {
            Ok(_) => None,
            Err(complaint) => Some(complaint),
        }
    } else if column >= fields.len() {
        Some("expected field, but got end of row"@)
    } else if name == "client"@ && number_in(fields[column], u16::MAX as nat) is None {
        Some(numbered(number_complaint(fields[column], u16::MAX as nat)))
    } else if name == "tx"@ && number_in(fields[column], u32::MAX as nat) is None {
        Some(numbered(number_complaint(fields[column], u32::MAX as nat)))
    } else {
        None
    }
}

/// The first complaint among the leftmost `count` columns.
pub open spec fn first_complaint(
    headers: Seq<Seq<char>>,
    fields: Seq<Seq<char>>,
    count: nat,
) -> Option<Seq<char>>
    decreases count,
{
    if count == 0 {
        None
    } else {
        match first_complaint(headers, fields, (count - 1) as nat) {
            Some(complaint) => Some(complaint),
            None => column_complaint(headers, fields, count - 1),
        }
    }
}

/// The field in the leftmost column with a given name.
pub open spec fn field_under(
    headers: Seq<Seq<char>>,
    fields: Seq<Seq<char>>,
    name: Seq<char>,
) -> Option<Seq<char>> {
    match headers.index_of_first(name) {
        Some(column) => cell(fields, column),
        None => None,
    }
}

/// What a row says, its fields being named by the header: the record, or the first
/// complaint about a column, or the first column that is not there at all. Only
/// the amount can be done without.
pub open spec fn record_in(headers: Seq<Seq<char>>, fields: Seq<Seq<char>>) -> Result<
    RecordView,
    Seq<char>,
> {
    match first_complaint(headers, fields, headers.len()) {
        Some(complaint) => Err(complaint),
        None => if !headers.contains("type"@) {
            Err("missing field `type`"@)
        } else if !headers.contains("client"@) {
            Err("missing field `client`"@)
        } else if !headers.contains("tx"@) {
            Err("missing field `tx`"@)
        } else {
            Ok(
                RecordView {
                    kind: field_under(headers, fields, "type"@)->0,
                    client: number_in(
                        field_under(headers, fields, "client"@)->0,
                        u16::MAX as nat,
                    )->0 as u16,
                    tx: number_in(
                        field_under(headers, fields, "tx"@)->0,
                        u32::MAX as nat,
                    )->0 as u32,
                    amount: amount_in(field_under(headers, fields, "amount"@))->Ok_0,
                },
            )
        },
    }
}

/// Whether the amount of a row is read as exactly the value written, where reading
/// gets as far as its column.
pub open spec fn amount_as_written(headers: Seq<Seq<char>>, fields: Seq<Seq<char>>) -> bool {
    match headers.index_of_first("amount"@) {
        Some(column) => first_complaint(headers, fields, column as nat) is None && column
            < fields.len() ==> money::reads_as_written(text::trimmed(fields[column])),
        None => true,
    }
}

/// The texts behind a sequence of strings.
pub open spec fn texts(strings: Seq<String>) -> Seq<Seq<char>> {
    strings.map_values(|string: String| string@)
}

/// Whether a column has a given name.
fn is_named(header: &String, name: &str) -> (same: bool)
    ensures
        same == (header@ == name@),
{
    *header == name.to_owned()
}

/// A complaint about the field in a column, with the column's number before it.
fn numbered(column: usize, complaint: &str) -> (text: String)
    ensures
        text@ == "field "@ + text::decimal_digits(column as nat) + ": "@ + complaint@,
{
    let mut text = "field ".to_owned();
    text.append(text::number_text(column as u64).as_str());
    text.append(": ");
    text.append(complaint);
    text
}

/// The complaint about a column name that stands in the header twice.
fn duplicate(name: &str) -> (text: String)
    ensures
        text@ == "duplicate field `"@ + name@ + "`"@,
{
    let mut text = "duplicate field `".to_owned();
    text.append(name);
    text.append("`");
    text
}

/// The four column names differ from one another.
pub proof fn lemma_required_names()
    ensures
        required().contains("type"@),
        required().contains("client"@),
        required().contains("tx"@),
        required().contains("amount"@),
        "type"@ != "client"@,
        "type"@ != "tx"@,
        "type"@ != "amount"@,
        "client"@ != "tx"@,
        "client"@ != "amount"@,
        "tx"@ != "amount"@,
{
    reveal_strlit("type");
    reveal_strlit("client");
    reveal_strlit("tx");
    reveal_strlit("amount");
    assert(required()[0] == "type"@);
    assert(required()[1] == "client"@);
    assert(required()[2] == "tx"@);
    assert(required()[3] == "amount"@);
    assert("type"@.len() == 4 && "client"@.len() == 6 && "tx"@.len() == 2 && "amount"@.len() == 6);
    assert("client"@[0] != "amount"@[0]);
}

/// A complaint among the leftmost columns is the row's complaint.
pub proof fn lemma_first_complaint_stays(
    headers: Seq<Seq<char>>,
    fields: Seq<Seq<char>>,
    count: nat,
    total: nat,
)
    requires
        first_complaint(headers, fields, count) is Some,
        count <= total,
    ensures
        first_complaint(headers, fields, total) == first_complaint(headers, fields, count),
    decreases total,
{
    if count < total {
        lemma_first_complaint_stays(headers, fields, count, (total - 1) as nat);
    }
}

/// One column more, and the names among the leftmost columns are those from before
/// and the new one. The leftmost column with a name is the first one reached.
proof fn lemma_one_more_column(
    headers: Seq<Seq<char>>,
    fields: Seq<Seq<char>>,
    column: int,
    name: Seq<char>,
)
    requires
        0 <= column < headers.len(),
    ensures
        headers.take(column + 1).contains(name) <==> headers.take(column).contains(name)
            || headers[column] == name,
        headers[column] == name && !headers.take(column).contains(name) ==> field_under(
            headers,
            fields,
            name,
        ) == cell(fields, column),
{
    let before = headers.take(column);
    let after = headers.take(column + 1);
    assert(after == before.push(headers[column]));
    assert(after[column] == headers[column]);
    if before.contains(name) {
        assert(after[before.index_of(name)] == name);
    }
    if after.contains(name) && headers[column] != name {
        assert(before[after.index_of(name)] == name);
    }
    if headers[column] == name && !before.contains(name) {
        headers.index_of_first_ensures(name);
        let first = headers.index_of_first(name)->0;
        if first < column {
            assert(before[first] == name);
        }
    }
}

/// What has been read of a row so far.
struct Reading {
    kind: Option<String>,
    client: Option<u16>,
    tx: Option<u32>,
    amount: Option<Option<Amount>>,
}

impl Reading {
    /// Whether this is what the leftmost `count` columns hold.
    spec fn covers(
        self,
        headers: Seq<Seq<char>>,
        fields: Seq<Seq<char>>,
        count: int,
    ) -> bool {
        let seen = headers.take(count);
        let field = |name: Seq<char>| field_under(headers, fields, name);
        &&& self.kind is Some <==> seen.contains("type"@)
        &&& self.kind matches Some(kind) ==> field("type"@) == Some(kind@)
        &&& self.client is Some <==> seen.contains("client"@)
        &&& self.client matches Some(client) ==> number_in(field("client"@)->0, u16::MAX as nat)
            == Some(client as nat)
        &&& self.tx is Some <==> seen.contains("tx"@)
        &&& self.tx matches Some(tx) ==> number_in(field("tx"@)->0, u32::MAX as nat) == Some(
            tx as nat,
        )
        &&& self.amount is Some <==> seen.contains("amount"@)
        &&& self.amount matches Some(amount) ==> amount_in(field("amount"@)) == Ok::<
            Option<Figure>,
            Seq<char>,
        >(money::figure_in(amount))
    }

    /// Reads one column more.
    fn read_column(
        &mut self,
        headers: &Vec<String>,
        fields: &Vec<String>,
        column: usize,
    ) -> (result: Result<(), String>)
        requires
            column < headers.len(),
            old(self).covers(texts(headers@), texts(fields@), column as int),
        ensures
            match column_complaint(texts(headers@), texts(fields@), column as int) {
                Some(complaint) => result is Err && result->Err_0@ == complaint,
                None => result is Ok && final(self).covers(
                    texts(headers@),
                    texts(fields@),
                    column + 1,
                ),
            },
            texts(headers@).index_of_first("amount"@) == Some(column as int) && column
                < fields.len() ==> money::reads_as_written(
                text::trimmed(texts(fields@)[column as int]),
            ),
    {
        let ghost names = texts(headers@);
        let ghost cells = texts(fields@);
        let header = &headers[column];
        proof {
            lemma_required_names();
            assert(names[column as int] == header@);
            lemma_one_more_column(names, cells, column as int, "type"@);
            lemma_one_more_column(names, cells, column as int, "client"@);
            lemma_one_more_column(names, cells, column as int, "tx"@);
            lemma_one_more_column(names, cells, column as int, "amount"@);
            names.index_of_first_ensures("amount"@);
        }
        if is_named(header, "amount") {
            if self.amount.is_some() {
                proof {
                    let seen = names.take(column as int);
                    let first = seen.index_of("amount"@);
                    assert(names[first] == "amount"@);
                }
                return Err(duplicate("amount"));
            }
            let raw = if column < fields.len() {
                Some(fields[column].as_str())
            } else {
                None
            };
            match deserialize_amount(raw) {
                Ok(amount) => {
                    self.amount = Some(amount);
                    return Ok(());
                },
                Err(complaint) => return Err(complaint),
            }
        }
        if is_named(header, "type") && self.kind.is_some() {
            return Err(duplicate("type"));
        }
        if is_named(header, "client") && self.client.is_some() {
            return Err(duplicate("client"));
        }
        if is_named(header, "tx") && self.tx.is_some() {
            return Err(duplicate("tx"));
        }
        proof {
            assert(required().contains(header@) ==> {
                ||| header@ == "type"@
                ||| header@ == "client"@
                ||| header@ == "tx"@
            });
        }
        if column >= fields.len() {
            return Err("expected field, but got end of row".to_owned());
        }
        let field = fields[column].as_str();
        assert(cells[column as int] == field@);
        if is_named(header, "type") {
            self.kind = Some(field.to_owned());
        } else if is_named(header, "client") {
            match read_u16(field) {
                Ok(client) => self.client = Some(client),
                Err(complaint) => return Err(numbered(column, complaint.as_str())),
            }
        } else if is_named(header, "tx") {
            match read_u32(field) {
                Ok(tx) => self.tx = Some(tx),
                Err(complaint) => return Err(numbered(column, complaint.as_str())),
            }
        }
        Ok(())
    }
}

/// Reads a row's fields by the names of their columns.
pub fn read_record(headers: &Vec<String>, fields: &Vec<String>) -> (record: Result<Record, String>)
    ensures
        match record_in(texts(headers@), texts(fields@)) {
            Ok(read) => record is Ok && record->Ok_0@ == read,
            Err(complaint) => record is Err && record->Err_0@ == complaint,
        },
        amount_as_written(texts(headers@), texts(fields@)),
{
    let ghost names = texts(headers@);
    let ghost cells = texts(fields@);
    let ghost amount_column = names.index_of_first("amount"@);
    proof {
        names.index_of_first_ensures("amount"@);
    }
    let mut reading = Reading { kind: None, client: None, tx: None, amount: None };
    let mut column: usize = 0;
    while column < headers.len()
        invariant
            names == texts(headers@),
            cells == texts(fields@),
            column <= headers.len(),
            first_complaint(names, cells, column as nat) is None,
            reading.covers(names, cells, column as int),
            amount_column == names.index_of_first("amount"@),
            amount_column matches Some(at) ==> 0 <= at < names.len(),
            amount_column matches Some(at) ==> (at < column && at < cells.len()
                ==> money::reads_as_written(text::trimmed(cells[at]))),
        decreases headers.len() - column,
    {
        match reading.read_column(headers, fields, column) {
            Ok(()) => {},
            Err(complaint) => {
                proof {
                    lemma_first_complaint_stays(
                        names,
                        cells,
                        (column + 1) as nat,
                        headers.len() as nat,
                    );
                    if amount_column is Some && column < amount_column->0 {
                        lemma_first_complaint_stays(
                            names,
                            cells,
                            (column + 1) as nat,
                            amount_column->0 as nat,
                        );
                    }
                }
                return Err(complaint);
            },
        }
        column = column + 1;
    }
    proof {
        assert(names.take(column as int) == names);
        names.index_of_first_ensures("amount"@);
    }
    let kind = match reading.kind {
        Some(kind) => kind,
        None => return Err("missing field `type`".to_owned()),
    };
    let client = match reading.client {
        Some(client) => client,
        None => return Err("missing field `client`".to_owned()),
    };
    let tx = match reading.tx {
        Some(tx) => tx,
        None => return Err("missing field `tx`".to_owned()),
    };
    let amount = match reading.amount {
        Some(amount) => amount,
        None => None,
    };
    Ok(Record { kind, client, tx, amount })
}

/// Whether a header names each of the four columns, none of them twice.
pub open spec fn well_named(headers: Seq<Seq<char>>) -> bool {
    &&& headers.contains("type"@)
    &&& headers.contains("client"@)
    &&& headers.contains("tx"@)
    &&& headers.contains("amount"@)
    &&& forall|i: int, j: int|
        0 <= i < j < headers.len() && headers[i] == headers[j] ==> !required().contains(headers[i])
}

/// Whether a row is long enough to have a field in every column that is none of
/// the four.
pub open spec fn others_filled(headers: Seq<Seq<char>>, fields: Seq<Seq<char>>) -> bool {
    forall|column: int|
        0 <= column < headers.len() && !required().contains(#[trigger] headers[column]) ==> column
            < fields.len()
}

/// Under a well-named header a row can be read exactly when the fields under the
/// four names can.
proof fn lemma_readable(headers: Seq<Seq<char>>, fields: Seq<Seq<char>>)
    requires
        well_named(headers),
        others_filled(headers, fields),
    ensures
        record_in(headers, fields) is Ok <==> {
            &&& field_under(headers, fields, "type"@) is Some
            &&& field_under(headers, fields, "client"@) matches Some(field) && number_in(
                field,
                u16::MAX as nat,
            ) is Some
            &&& field_under(headers, fields, "tx"@) matches Some(field) && number_in(
                field,
                u32::MAX as nat,
            ) is Some
            &&& amount_in(field_under(headers, fields, "amount"@)) is Ok
        },
{
    lemma_required_names();
    headers.index_of_first_ensures("type"@);
    headers.index_of_first_ensures("client"@);
    headers.index_of_first_ensures("tx"@);
    headers.index_of_first_ensures("amount"@);
    let kind = headers.index_of_first("type"@)->0;
    let client = headers.index_of_first("client"@)->0;
    let tx = headers.index_of_first("tx"@)->0;
    let amount = headers.index_of_first("amount"@)->0;
    assert forall|column: int| 0 <= column < headers.len() implies !(required().contains(
        #[trigger] headers[column],
    ) && headers.take(column).contains(headers[column])) by {
        let seen = headers.take(column);
        if seen.contains(headers[column]) {
            let first = seen.index_of(headers[column]);
            assert(headers[first] == headers[column]);
        }
    }
    if first_complaint(headers, fields, headers.len()) is None {
        lemma_no_complaint(headers, fields, headers.len(), kind);
        lemma_no_complaint(headers, fields, headers.len(), client);
        lemma_no_complaint(headers, fields, headers.len(), tx);
        lemma_no_complaint(headers, fields, headers.len(), amount);
    } else {
        let column = lemma_some_complaint(headers, fields, headers.len());
        assert(column == kind || column == client || column == tx || column == amount
            || !required().contains(headers[column]));
    }
}

/// Where the leftmost columns bring no complaint, none of them does.
proof fn lemma_no_complaint(
    headers: Seq<Seq<char>>,
    fields: Seq<Seq<char>>,
    count: nat,
    column: int,
)
    requires
        first_complaint(headers, fields, count) is None,
        0 <= column < count,
    ensures
        column_complaint(headers, fields, column) is None,
    decreases count,
{
    if column < count - 1 {
        lemma_no_complaint(headers, fields, (count - 1) as nat, column);
    }
}

/// Where the leftmost columns bring a complaint, one of them does.
proof fn lemma_some_complaint(
    headers: Seq<Seq<char>>,
    fields: Seq<Seq<char>>,
    count: nat,
) -> (column: int)
    requires
        first_complaint(headers, fields, count) is Some,
    ensures
        0 <= column < count,
        column_complaint(headers, fields, column) is Some,
    decreases count,
{
    if first_complaint(headers, fields, (count - 1) as nat) is Some {
        lemma_some_complaint(headers, fields, (count - 1) as nat)
    } else {
        count - 1
    }
}

/// The columns may stand in any order: two rows that have the same fields under the
/// four names say the same, however their headers are arranged and whatever other
/// columns there are.
pub proof fn columns_may_stand_in_any_order(
    headers: Seq<Seq<char>>,
    fields: Seq<Seq<char>>,
    other_headers: Seq<Seq<char>>,
    other_fields: Seq<Seq<char>>,
)
    requires
        well_named(headers),
        well_named(other_headers),
        others_filled(headers, fields),
        others_filled(other_headers, other_fields),
        forall|name: Seq<char>| #[trigger]
            required().contains(name) ==> field_under(headers, fields, name) == field_under(
                other_headers,
                other_fields,
                name,
            ),
    ensures
        record_in(headers, fields) is Ok <==> record_in(other_headers, other_fields) is Ok,
        record_in(headers, fields) matches Ok(record) ==> record_in(other_headers, other_fields)
            == Ok::<RecordView, Seq<char>>(record),
{
    lemma_required_names();
    lemma_readable(headers, fields);
    lemma_readable(other_headers, other_fields);
}

/// Texts keep every string, in the same order.
pub proof fn texts_keep_every_string(strings: Seq<String>)
    ensures
        texts(strings).len() == strings.len(),
        forall|i: int| 0 <= i < strings.len() ==> texts(strings)[i] == (#[trigger] strings[i])@,
{
}

/// A number written in decimal is read as that number, up to the limit and not
/// beyond it.
pub proof fn numbers_are_read_as_written(number: nat, limit: nat)
    ensures
        number <= limit ==> number_in(text::decimal_digits(number), limit) == Some(number),
        number > limit ==> number_in(text::decimal_digits(number), limit) is None,
{
    text::a_number_reads_back_from_its_digits(number);
    let digits = text::decimal_digits(number);
    if digits.len() >= 2 {
        assert('0' <= digits[1] && digits[1] <= '9');
    }
}

/// A row that is read says what its fields say. Each column's field is there, but
/// for the amount's; the type is the text under `type`, the client and the ID are
/// the numbers under `client` and `tx`, and the amount is the decimal that the field
/// under `amount` writes out, or none exactly where that field is missing or blank.
/// No field has any say in what another one is read as, and none of the four names
/// stands there twice.
pub proof fn a_record_says_what_its_fields_say(
    headers: Seq<Seq<char>>,
    fields: Seq<Seq<char>>,
    column: int,
)
    requires
        record_in(headers, fields) is Ok,
        0 <= column < headers.len(),
    ensures
        ({
            let record = record_in(headers, fields)->Ok_0;
            let name = headers[column];
            let written = text::trimmed(fields[column]);
            let blank = column >= fields.len() || written.len() == 0;
            &&& column < fields.len() || name == "amount"@
            &&& required().contains(name) ==> forall|other: int|
                0 <= other < headers.len() && #[trigger] headers[other] == name ==> other == column
            &&& name == "type"@ ==> record.kind == fields[column]
            &&& name == "client"@ ==> number_in(fields[column], u16::MAX as nat) == Some(
                record.client as nat,
            )
            &&& name == "tx"@ ==> number_in(fields[column], u32::MAX as nat) == Some(
                record.tx as nat,
            )
            &&& name == "amount"@ ==> (record.amount is None <==> blank)
            &&& name == "amount"@ && !blank ==> money::decimal_from_str(written) == Ok::<
                (bool, nat, nat),
                Seq<char>,
            >((record.amount->0.negative, record.amount->0.magnitude, record.amount->0.scale))
            &&& name == "amount"@ && !blank && money::reads_as_written(written) ==> (
            money::decimal_in(written) matches Some(figure) ==> record.amount == Some(figure))
        }),
        headers.contains("type"@) && headers.contains("client"@) && headers.contains("tx"@),
        !headers.contains("amount"@) ==> record_in(headers, fields)->Ok_0.amount is None,
{
    let name = headers[column];
    lemma_required_names();
    headers.index_of_first_ensures("amount"@);
    lemma_no_complaint(headers, fields, headers.len(), column);
    lemma_one_more_column(headers, fields, column, name);
    if required().contains(name) {
        assert forall|other: int|
            0 <= other < headers.len() && #[trigger] headers[other] == name implies other
            == column by {
            lemma_no_complaint(headers, fields, headers.len(), other);
            if other < column {
                assert(headers.take(column)[other] == name);
            } else if other > column {
                assert(headers.take(other)[column] == name);
            }
        }
    }
}

/// A row is read exactly where its fields are right: under a header that names each
/// of the four columns once, in a row with a field for every column besides them,
/// there is a type, the client and the ID are numbers that fit, and the amount is
/// missing, blank or a number.
pub proof fn a_row_is_read_exactly_where_its_fields_are_right(
    headers: Seq<Seq<char>>,
    fields: Seq<Seq<char>>,
    kind: int,
    client: int,
    tx: int,
    amount: int,
)
    requires
        0 <= kind < headers.len() && headers[kind] == "type"@,
        0 <= client < headers.len() && headers[client] == "client"@,
        0 <= tx < headers.len() && headers[tx] == "tx"@,
        0 <= amount < headers.len() && headers[amount] == "amount"@,
        forall|i: int, j: int|
            0 <= i < j < headers.len() && headers[i] == headers[j] ==> !required().contains(
                headers[i],
            ),
        forall|column: int|
            0 <= column < headers.len() && !required().contains(#[trigger] headers[column])
                ==> column < fields.len(),
    ensures
        record_in(headers, fields) is Ok <==> {
            &&& kind < fields.len()
            &&& client < fields.len() && number_in(fields[client], u16::MAX as nat) is Some
            &&& tx < fields.len() && number_in(fields[tx], u32::MAX as nat) is Some
            &&& amount >= fields.len() || text::trimmed(fields[amount]).len() == 0
                || money::decimal_from_str(text::trimmed(fields[amount])) is Ok
        },
{
    lemma_required_names();
    lemma_readable(headers, fields);
    lemma_only_column(headers, fields, kind);
    lemma_only_column(headers, fields, client);
    lemma_only_column(headers, fields, tx);
    lemma_only_column(headers, fields, amount);
}

/// The field under a name that stands in one column only is the field in it.
proof fn lemma_only_column(headers: Seq<Seq<char>>, fields: Seq<Seq<char>>, column: int)
    requires
        0 <= column < headers.len(),
        required().contains(headers[column]),
        forall|i: int, j: int|
            0 <= i < j < headers.len() && headers[i] == headers[j] ==> !required().contains(
                headers[i],
            ),
    ensures
        field_under(headers, fields, headers[column]) == cell(fields, column),
{
    lemma_one_more_column(headers, fields, column, headers[column]);
    let seen = headers.take(column);
    if seen.contains(headers[column]) {
        let first = seen.index_of(headers[column]);
        assert(headers[first] == headers[column]);
    }
}

/// The leftmost column at fault is the one complained about: a name of the four that
/// stands there again, an amount that is no number, a row that has ended, or a
/// client or an ID that is no number that fits, with the number of its column.
pub proof fn the_leftmost_fault_is_reported(
    headers: Seq<Seq<char>>,
    fields: Seq<Seq<char>>,
    column: int,
)
    requires
        0 <= column < headers.len(),
        forall|i: int|
            0 <= i < column ==> column_complaint(headers, fields, i) is None,
    ensures
        ({
            let name = headers[column];
            let field = fields[column];
            let written = text::trimmed(field);
            let ended = column >= fields.len();
            let repeated = exists|i: int| 0 <= i < column && #[trigger] headers[i] == name;
            let reported = |complaint: Seq<char>|
                record_in(headers, fields) == Err::<RecordView, Seq<char>>(complaint);
            let place = "field "@ + text::decimal_digits(column as nat) + ": "@;
            let is_number = |limit: nat| number_in(field, limit) is Some;
            &&& required().contains(name) && repeated ==> reported(
                "duplicate field `"@ + name + "`"@,
            )
            &&& name == "amount"@ && !repeated && !ended && written.len() > 0 ==> (
            money::decimal_from_str(written) matches Err(complaint) ==> reported(complaint))
            &&& name != "amount"@ && ended && !(required().contains(name) && repeated) ==> reported(
                "expected field, but got end of row"@,
            )
            &&& name == "client"@ && !repeated && !ended && !is_number(u16::MAX as nat)
                ==> reported(place + number_complaint(field, u16::MAX as nat))
            &&& name == "tx"@ && !repeated && !ended && !is_number(u32::MAX as nat)
                ==> reported(place + number_complaint(field, u32::MAX as nat))
        }),
{
    let name = headers[column];
    let seen = headers.take(column);
    lemma_required_names();
    lemma_all_clear(headers, fields, column as nat);
    assert(seen.contains(name) <==> exists|i: int| 0 <= i < column && #[trigger] headers[i]
        == name) by {
        if seen.contains(name) {
            let i = seen.index_of(name);
            assert(headers[i] == name);
        }
        if exists|i: int| 0 <= i < column && #[trigger] headers[i] == name {
            let i = choose|i: int| 0 <= i < column && #[trigger] headers[i] == name;
            assert(seen[i] == name);
        }
    }
    if column_complaint(headers, fields, column) is Some {
        lemma_first_complaint_stays(headers, fields, (column + 1) as nat, headers.len());
    }
}

/// A column is in order exactly where its name, if it is one of the four, has not
/// stood there before, and its field is what the column is for: anything at all, or
/// a number that fits under `client` and `tx`, or a number, a blank or nothing under
/// `amount`.
pub proof fn when_a_column_is_in_order(
    headers: Seq<Seq<char>>,
    fields: Seq<Seq<char>>,
    column: int,
)
    requires
        0 <= column < headers.len(),
    ensures
        column_complaint(headers, fields, column) is None <==> {
            let name = headers[column];
            let field = fields[column];
            let ended = column >= fields.len();
            &&& required().contains(name) ==> forall|i: int|
                0 <= i < column ==> #[trigger] headers[i] != name
            &&& !ended || name == "amount"@
            &&& name == "client"@ ==> number_in(field, u16::MAX as nat) is Some
            &&& name == "tx"@ ==> number_in(field, u32::MAX as nat) is Some
            &&& name == "amount"@ ==> ended || text::trimmed(field).len() == 0
                || money::decimal_from_str(text::trimmed(field)) is Ok
        },
{
    let name = headers[column];
    let seen = headers.take(column);
    lemma_required_names();
    if seen.contains(name) {
        let i = seen.index_of(name);
        assert(headers[i] == name);
    } else {
        assert forall|i: int| 0 <= i < column implies #[trigger] headers[i] != name by {
            assert(seen[i] == headers[i]);
        }
    }
}

/// Where no column brings a complaint, there is no first one.
proof fn lemma_all_clear(headers: Seq<Seq<char>>, fields: Seq<Seq<char>>, count: nat)
    requires
        forall|i: int|
            0 <= i < count ==> column_complaint(headers, fields, i) is None,
    ensures
        first_complaint(headers, fields, count) is None,
    decreases count,
{
    if count > 0 {
        lemma_all_clear(headers, fields, (count - 1) as nat);
    }
}

/// Where no column is at fault but the type, the client or the ID has none, the first
/// of these that is missing is reported.
pub proof fn a_missing_column_is_reported(headers: Seq<Seq<char>>, fields: Seq<Seq<char>>)
    requires
        forall|i: int| 0 <= i < headers.len() ==> column_complaint(headers, fields, i) is None,
    ensures
        ({
            let reported = |complaint: Seq<char>|
                record_in(headers, fields) == Err::<RecordView, Seq<char>>(complaint);
            let named = |name: Seq<char>|
                exists|i: int| 0 <= i < headers.len() && #[trigger] headers[i] == name;
            &&& !named("type"@) ==> reported("missing field `type`"@)
            &&& named("type"@) && !named("client"@) ==> reported("missing field `client`"@)
            &&& named("type"@) && named("client"@) && !named("tx"@) ==> reported(
                "missing field `tx`"@,
            )
            &&& named("type"@) && named("client"@) && named("tx"@) ==> record_in(
                headers,
                fields,
            ) is Ok
        }),
{
    lemma_all_clear(headers, fields, headers.len());
}

} // verus!
