//! Things that can go wrong, at two levels: one row, or the whole run.
use vstd::prelude::*;
use vstd::string::*;

use crate::money::{Amount, Figure};
use crate::record::{ParseError, ParseErrorView};
use crate::text;

verus! {

/// Why a well-formed CSV row could not be applied to the ledger.
///
/// Every variant describes one row being ignored, never the run being
/// abandoned: a payments feed that stops at the first bad line is worse than
/// one that processes the other 99,999 rows and says what it dropped.
#[derive(Debug, PartialEq, Eq)]
pub enum Reject {
    AccountLocked(u16),
    DuplicateTx(u32),
    UnknownTx(u32),
    ClientMismatch { tx: u32, owner: u16, claimed: u16 },
    InsufficientFunds { client: u16, available: Amount, requested: Amount },
    AlreadyDisputed(u32),
    NotDisputed(u32),
    ChargedBack(u32),
    Unrepresentable,
}

/// A [`Reject`] with its amounts as figures.
pub enum RejectView {
    AccountLocked(u16),
    DuplicateTx(u32),
    UnknownTx(u32),
    ClientMismatch { tx: u32, owner: u16, claimed: u16 },
    InsufficientFunds { client: u16, available: Figure, requested: Figure },
    AlreadyDisputed(u32),
    NotDisputed(u32),
    ChargedBack(u32),
    Unrepresentable,
}

impl View for Reject {
    type V = RejectView;

    open spec fn view(&self) -> RejectView {
        match *self {
            Reject::AccountLocked(client) => RejectView::AccountLocked(client),
            Reject::DuplicateTx(tx) => RejectView::DuplicateTx(tx),
            Reject::UnknownTx(tx) => RejectView::UnknownTx(tx),
            Reject::ClientMismatch { tx, owner, claimed } => RejectView::ClientMismatch {
                tx,
                owner,
                claimed,
            },
            Reject::InsufficientFunds { client, available, requested } => {
                RejectView::InsufficientFunds {
                    client,
                    available: available@,
                    requested: requested@,
                }
            },
            Reject::AlreadyDisputed(tx) => RejectView::AlreadyDisputed(tx),
            Reject::NotDisputed(tx) => RejectView::NotDisputed(tx),
            Reject::ChargedBack(tx) => RejectView::ChargedBack(tx),
            Reject::Unrepresentable => RejectView::Unrepresentable,
        }
    }
}

impl RejectView {
    /// How the refusal reads in a warning.
    pub open spec fn message(self) -> Seq<char> {
        match self {
            RejectView::AccountLocked(client) => "client "@ + text::decimal_digits(client as nat)
                + " is locked; the account is frozen and accepts no further activity"@,
            RejectView::DuplicateTx(tx) => "transaction "@ + text::decimal_digits(tx as nat)
                + " has already been recorded; the duplicate is ignored"@,
            RejectView::UnknownTx(tx) => "transaction "@ + text::decimal_digits(tx as nat)
                + " does not exist"@,
            RejectView::ClientMismatch { tx, owner, claimed } => "transaction "@
                + text::decimal_digits(tx as nat) + " belongs to client "@ + text::decimal_digits(
                owner as nat,
            ) + ", not client "@ + text::decimal_digits(claimed as nat),
            RejectView::InsufficientFunds { client, available, requested } => "client "@
                + text::decimal_digits(client as nat) + " has "@ + available.text()
                + " available but tried to withdraw "@ + requested.text(),
            RejectView::AlreadyDisputed(tx) => "transaction "@ + text::decimal_digits(tx as nat)
                + " is already under dispute"@,
            RejectView::NotDisputed(tx) => "transaction "@ + text::decimal_digits(tx as nat)
                + " is not under dispute"@,
            RejectView::ChargedBack(tx) => "transaction "@ + text::decimal_digits(tx as nat)
                + " has been charged back and is final"@,
            RejectView::Unrepresentable => "the resulting balance cannot be represented exactly"@,
        }
    }
}

/// A number between two pieces of text.
fn around(before: &str, number: u64, after: &str) -> (text: String)
    ensures
        text@ == before@ + text::decimal_digits(number as nat) + after@,
{
    let mut text = before.to_owned();
    text.append(text::number_text(number).as_str());
    text.append(after);
    text
}

impl Reject {
    /// How the refusal reads in a warning.
    pub fn message(&self) -> (text: String)
        ensures
            text@ == self@.message(),
    {
        match self {
            Reject::AccountLocked(client) => around(
                "client ",
                *client as u64,
                " is locked; the account is frozen and accepts no further activity",
            ),
            Reject::DuplicateTx(tx) => around(
                "transaction ",
                *tx as u64,
                " has already been recorded; the duplicate is ignored",
            ),
            Reject::UnknownTx(tx) => around("transaction ", *tx as u64, " does not exist"),
            Reject::ClientMismatch { tx, owner, claimed } => {
                let mut text = around("transaction ", *tx as u64, " belongs to client ");
                text.append(text::number_text(*owner as u64).as_str());
                text.append(", not client ");
                text.append(text::number_text(*claimed as u64).as_str());
                text
            },
            Reject::InsufficientFunds { client, available, requested } => {
                let mut text = around("client ", *client as u64, " has ");
                text.append(available.text().as_str());
                text.append(" available but tried to withdraw ");
                text.append(requested.text().as_str());
                text
            },
            Reject::AlreadyDisputed(tx) => around(
                "transaction ",
                *tx as u64,
                " is already under dispute",
            ),
            Reject::NotDisputed(tx) => around("transaction ", *tx as u64, " is not under dispute"),
            Reject::ChargedBack(tx) => around(
                "transaction ",
                *tx as u64,
                " has been charged back and is final",
            ),
            Reject::Unrepresentable => {
                "the resulting balance cannot be represented exactly".to_owned()
            },
        }
    }
}

/// Why a row was skipped, covering both malformed CSV and rejected transactions.
#[derive(Debug)]
pub enum RowError {
    /// The row could not be read, or its fields are not those of a
    /// [`crate::record::Record`]; the text says what is wrong with it.
    Malformed(String),
    /// The row was read but does not describe a transaction.
    Invalid(ParseError),
    /// The row has more fields than the header names. Reading it by column would
    /// silently keep the first few and drop the rest, so `1,000` in an amount
    /// column would post as `1`.
    TooManyFields { expected: usize, found: usize },
    /// The row parsed cleanly but the ledger would not accept it.
    Rejected(Reject),
}

/// A [`RowError`] with its texts and amounts as mathematics sees them.
pub enum RowErrorView {
    Malformed(Seq<char>),
    Invalid(ParseErrorView),
    TooManyFields { expected: nat, found: nat },
    Rejected(RejectView),
}

impl View for RowError {
    type V = RowErrorView;

    open spec fn view(&self) -> RowErrorView {
        match *self {
            RowError::Malformed(text) => RowErrorView::Malformed(text@),
            RowError::Invalid(invalid) => RowErrorView::Invalid(invalid@),
            RowError::TooManyFields { expected, found } => RowErrorView::TooManyFields {
                expected: expected as nat,
                found: found as nat,
            },
            RowError::Rejected(reject) => RowErrorView::Rejected(reject@),
        }
    }
}

impl RowErrorView {
    /// How the reason reads in a warning.
    pub open spec fn message(self) -> Seq<char> {
        match self {
            RowErrorView::Malformed(text) => "malformed row: "@ + text,
            RowErrorView::Invalid(invalid) => invalid.message(),
            RowErrorView::TooManyFields { expected, found } => "expected "@ + text::decimal_digits(
                expected,
            ) + " fields to match the header, found "@ + text::decimal_digits(found),
            RowErrorView::Rejected(reject) => reject.message(),
        }
    }
}

impl RowError {
    /// How the reason reads in a warning.
    pub fn message(&self) -> (text: String)
        ensures
            text@ == self@.message(),
    {
        match self {
            RowError::Malformed(what) => {
                let mut text = "malformed row: ".to_owned();
                text.append(what.as_str());
                text
            },
            RowError::Invalid(invalid) => invalid.message(),
            RowError::TooManyFields { expected, found } => {
                let mut text = around(
                    "expected ",
                    *expected as u64,
                    " fields to match the header, found ",
                );
                text.append(text::number_text(*found as u64).as_str());
                text
            },
            RowError::Rejected(reject) => reject.message(),
        }
    }
}

/// A failure that stops the whole run, as opposed to skipping one row.
#[derive(Debug)]
pub enum Error {
    /// The header does not name the columns the engine needs. Every row would
    /// fail identically, so this fails once and loudly instead.
    Header { expected: String, missing: String },
    /// The input could not be read.
    Csv(String),
    /// The output could not be written.
    Output(String),
}

/// An [`Error`] with its texts as mathematics sees them.
pub enum ErrorView {
    Header { expected: Seq<char>, missing: Seq<char> },
    Csv(Seq<char>),
    Output(Seq<char>),
}

impl View for Error {
    type V = ErrorView;

    open spec fn view(&self) -> ErrorView {
        match *self {
            Error::Header { expected, missing } => ErrorView::Header {
                expected: expected@,
                missing: missing@,
            },
            Error::Csv(text) => ErrorView::Csv(text@),
            Error::Output(text) => ErrorView::Output(text@),
        }
    }
}

impl ErrorView {
    /// How the failure is reported.
    pub open spec fn message(self) -> Seq<char> {
        match self {
            ErrorView::Header { expected, missing } => "input header must name the columns "@
                + expected + "; missing "@ + missing,
            ErrorView::Csv(text) => text,
            ErrorView::Output(text) => "writing output: "@ + text,
        }
    }
}

impl Error {
    /// How the failure is reported.
    pub fn message(&self) -> (text: String)
        ensures
            text@ == self@.message(),
    {
        match self {
            Error::Header { expected, missing } => {
                let mut text = "input header must name the columns ".to_owned();
                text.append(expected.as_str());
                text.append("; missing ");
                text.append(missing.as_str());
                text
            },
            Error::Csv(what) => what.clone(),
            Error::Output(what) => {
                let mut text = "writing output: ".to_owned();
                text.append(what.as_str());
                text
            },
        }
    }
}

/// A refusal is worded by what it is about: it names the client or the transaction by
/// number, writes out the amounts in question, and says what is the matter.
pub proof fn refusals_say_what_is_the_matter(
    tx: u32,
    client: u16,
    other: u16,
    available: Figure,
    requested: Figure,
)
    ensures
        ({
            let transaction = "transaction "@ + text::decimal_digits(tx as nat);
            let this_client = "client "@ + text::decimal_digits(client as nat);
            &&& RejectView::AccountLocked(client).message() == this_client
                + " is locked; the account is frozen and accepts no further activity"@
            &&& RejectView::DuplicateTx(tx).message() == transaction
                + " has already been recorded; the duplicate is ignored"@
            &&& RejectView::UnknownTx(tx).message() == transaction + " does not exist"@
            &&& (RejectView::ClientMismatch { tx, owner: other, claimed: client }).message()
                == transaction + " belongs to client "@ + text::decimal_digits(other as nat)
                + ", not client "@ + text::decimal_digits(client as nat)
            &&& (RejectView::InsufficientFunds { client, available, requested }).message()
                == this_client + " has "@ + available.text() + " available but tried to withdraw "@
                + requested.text()
            &&& RejectView::AlreadyDisputed(tx).message() == transaction
                + " is already under dispute"@
            &&& RejectView::NotDisputed(tx).message() == transaction + " is not under dispute"@
            &&& RejectView::ChargedBack(tx).message() == transaction
                + " has been charged back and is final"@
            &&& RejectView::Unrepresentable.message()
                == "the resulting balance cannot be represented exactly"@
        }),
{
}

/// A skipped row is reported with the reason it was skipped for: in the words of the
/// reader, of the row's own fault or of the ledger's refusal, or with the number of
/// fields it should and does have.
pub proof fn skipped_rows_say_why(
    text: Seq<char>,
    name: Seq<char>,
    amount: Figure,
    reject: RejectView,
    expected: nat,
    found: nat,
)
    ensures
        RowErrorView::Malformed(text).message() == "malformed row: "@ + text,
        RowErrorView::Rejected(reject).message() == reject.message(),
        (RowErrorView::TooManyFields { expected, found }).message() == "expected "@
            + text::decimal_digits(expected) + " fields to match the header, found "@
            + text::decimal_digits(found),
        RowErrorView::Invalid(ParseErrorView::UnknownType(name)).message()
            == "unknown transaction type `"@ + name + "`"@,
        RowErrorView::Invalid(ParseErrorView::MissingAmount).message()
            == "a deposit or withdrawal must carry an amount"@,
        RowErrorView::Invalid(ParseErrorView::NonPositiveAmount(amount)).message()
            == "amount must be greater than zero (got "@ + amount.text() + " after rounding to "@
            + seq!['4'] + " decimal places)"@,
{
    assert(text::decimal_digits(4) =~= seq!['4']);
}

/// A run that fails says why: which columns its header should name and which of them
/// it lacks, or what went wrong with the input or the output.
pub proof fn failures_say_why(expected: Seq<char>, missing: Seq<char>, text: Seq<char>)
    ensures
        (ErrorView::Header { expected, missing }).message()
            == "input header must name the columns "@ + expected + "; missing "@ + missing,
        ErrorView::Csv(text).message() == text,
        ErrorView::Output(text).message() == "writing output: "@ + text,
{
}

/// A refusal is about what is written in it.
pub proof fn a_refusal_is_what_is_written_in_it(reject: Reject)
    ensures
        match reject {
            Reject::AccountLocked(client) => reject@ == RejectView::AccountLocked(client),
            Reject::DuplicateTx(tx) => reject@ == RejectView::DuplicateTx(tx),
            Reject::UnknownTx(tx) => reject@ == RejectView::UnknownTx(tx),
            Reject::ClientMismatch { tx, owner, claimed } => reject@ == (
            RejectView::ClientMismatch { tx, owner, claimed }),
            Reject::InsufficientFunds { client, available, requested } => reject@ == (
            RejectView::InsufficientFunds {
                client,
                available: available@,
                requested: requested@,
            }),
            Reject::AlreadyDisputed(tx) => reject@ == RejectView::AlreadyDisputed(tx),
            Reject::NotDisputed(tx) => reject@ == RejectView::NotDisputed(tx),
            Reject::ChargedBack(tx) => reject@ == RejectView::ChargedBack(tx),
            Reject::Unrepresentable => reject@ == RejectView::Unrepresentable,
        },
{
}

/// A reason to skip a row is the one written in it.
pub proof fn a_reason_is_what_is_written_in_it(error: RowError)
    ensures
        match error {
            RowError::Malformed(text) => error@ == RowErrorView::Malformed(text@),
            RowError::Invalid(ParseError::UnknownType(name)) => error@ == RowErrorView::Invalid(
                ParseErrorView::UnknownType(name@),
            ),
            RowError::Invalid(ParseError::MissingAmount) => error@ == RowErrorView::Invalid(
                ParseErrorView::MissingAmount,
            ),
            RowError::Invalid(ParseError::NonPositiveAmount(amount)) => error@
                == RowErrorView::Invalid(ParseErrorView::NonPositiveAmount(amount@)),
            RowError::TooManyFields { expected, found } => error@ == (
            RowErrorView::TooManyFields { expected: expected as nat, found: found as nat }),
            RowError::Rejected(reject) => error@ == RowErrorView::Rejected(reject@),
        },
{
}

/// A failure is the one written in it.
pub proof fn a_failure_is_what_is_written_in_it(error: Error)
    ensures
        match error {
            Error::Header { expected, missing } => error@ == (ErrorView::Header {
                expected: expected@,
                missing: missing@,
            }),
            Error::Csv(text) => error@ == ErrorView::Csv(text@),
            Error::Output(text) => error@ == ErrorView::Output(text@),
        },
{
}

} // verus!
