//! How refusals and failures read.
use transaction_parser::{warning, Amount, Error, ParseError, Reject, RowError};

fn dec(s: &str) -> Amount {
    Amount::from_str(s).unwrap()
}

#[test]
fn every_refusal_explains_itself() {
    for (reject, text) in [
        (
            Reject::AccountLocked(7),
            "client 7 is locked; the account is frozen and accepts no further activity",
        ),
        (
            Reject::DuplicateTx(10),
            "transaction 10 has already been recorded; the duplicate is ignored",
        ),
        (Reject::UnknownTx(404), "transaction 404 does not exist"),
        (
            Reject::ClientMismatch {
                tx: 4294967295,
                owner: 1,
                claimed: 65535,
            },
            "transaction 4294967295 belongs to client 1, not client 65535",
        ),
        (
            Reject::InsufficientFunds {
                client: 2,
                available: dec("2.0"),
                requested: dec("3.0"),
            },
            "client 2 has 2.0 available but tried to withdraw 3.0",
        ),
        (
            Reject::AlreadyDisputed(1),
            "transaction 1 is already under dispute",
        ),
        (Reject::NotDisputed(1), "transaction 1 is not under dispute"),
        (
            Reject::ChargedBack(1),
            "transaction 1 has been charged back and is final",
        ),
        (
            Reject::Unrepresentable,
            "the resulting balance cannot be represented exactly",
        ),
    ] {
        assert_eq!(reject.message(), text);
        assert_eq!(RowError::Rejected(reject).message(), text);
    }
}

#[test]
fn every_parse_failure_explains_itself() {
    for (invalid, text) in [
        (
            ParseError::UnknownType("transfer".to_owned()),
            "unknown transaction type `transfer`",
        ),
        (
            ParseError::MissingAmount,
            "a deposit or withdrawal must carry an amount",
        ),
        (
            ParseError::NonPositiveAmount(dec("-1.0")),
            "amount must be greater than zero (got -1.0 after rounding to 4 decimal places)",
        ),
    ] {
        assert_eq!(invalid.message(), text);
        assert_eq!(RowError::Invalid(invalid).message(), text);
    }
}

#[test]
fn the_other_row_errors_explain_themselves() {
    assert_eq!(
        RowError::Malformed("what is wrong".to_owned()).message(),
        "malformed row: what is wrong"
    );
    assert_eq!(
        RowError::TooManyFields {
            expected: 4,
            found: 5
        }
        .message(),
        "expected 4 fields to match the header, found 5"
    );
}

#[test]
fn every_failure_explains_itself() {
    assert_eq!(
        Error::Header {
            expected: "type, client, tx, amount".to_owned(),
            missing: "tx".to_owned(),
        }
        .message(),
        "input header must name the columns type, client, tx, amount; missing tx"
    );
    assert_eq!(Error::Csv("bad input".to_owned()).message(), "bad input");
    assert_eq!(
        Error::Output("pipe closed".to_owned()).message(),
        "writing output: pipe closed"
    );
}

#[test]
fn a_warning_names_the_row() {
    let error = RowError::Rejected(Reject::InsufficientFunds {
        client: 2,
        available: dec("2.0"),
        requested: dec("3.0"),
    });
    assert_eq!(
        warning(5, &error),
        "warning: row 5: client 2 has 2.0 available but tried to withdraw 3.0"
    );
}
