//! Turning a row into a transaction.
use transaction_parser::{Amount, ParseError, Record, Transaction};

fn dec(s: &str) -> Amount {
    Amount::from_str(s).unwrap()
}

fn record(kind: &str, amount: Option<&str>) -> Record {
    Record {
        kind: kind.to_owned(),
        client: 1,
        tx: 2,
        amount: amount.map(dec),
    }
}

#[test]
fn parses_the_five_transaction_types() {
    assert_eq!(
        record("deposit", Some("1.0")).parse(),
        Ok(Transaction::Deposit {
            client: 1,
            tx: 2,
            amount: dec("1.0")
        })
    );
    assert_eq!(
        record("withdrawal", Some("1.0")).parse(),
        Ok(Transaction::Withdrawal {
            client: 1,
            tx: 2,
            amount: dec("1.0")
        })
    );
    assert_eq!(
        record("dispute", None).parse(),
        Ok(Transaction::Dispute { client: 1, tx: 2 })
    );
    assert_eq!(
        record("resolve", None).parse(),
        Ok(Transaction::Resolve { client: 1, tx: 2 })
    );
    assert_eq!(
        record("chargeback", None).parse(),
        Ok(Transaction::Chargeback { client: 1, tx: 2 })
    );
}

#[test]
fn type_names_are_case_and_whitespace_insensitive() {
    assert!(matches!(
        record("  DePoSiT ", Some("1.0")).parse(),
        Ok(Transaction::Deposit { .. })
    ));
    assert!(matches!(
        record("CHARGEBACK", None).parse(),
        Ok(Transaction::Chargeback { .. })
    ));
}

#[test]
fn rejects_unknown_type_names() {
    assert_eq!(
        record("transfer", Some("1.0")).parse(),
        Err(ParseError::UnknownType("transfer".to_owned()))
    );
    // The reported name is trimmed but otherwise as written.
    assert_eq!(
        record("  Deposits ", Some("1.0")).parse(),
        Err(ParseError::UnknownType("Deposits".to_owned()))
    );
}

#[test]
fn deposits_and_withdrawals_need_an_amount_above_zero() {
    for kind in ["deposit", "withdrawal"] {
        assert_eq!(
            record(kind, None).parse(),
            Err(ParseError::MissingAmount),
            "{kind}"
        );
        assert_eq!(
            record(kind, Some("0")).parse(),
            Err(ParseError::NonPositiveAmount(Amount::zero())),
            "{kind}"
        );
        assert_eq!(
            record(kind, Some("-1.0")).parse(),
            Err(ParseError::NonPositiveAmount(dec("-1.0"))),
            "{kind}"
        );
    }
}

#[test]
fn amounts_are_rounded_to_four_decimal_places() {
    assert_eq!(
        record("deposit", Some("1.00005")).parse(),
        Ok(Transaction::Deposit {
            client: 1,
            tx: 2,
            amount: dec("1.0000")
        })
    );
}

#[test]
fn an_amount_that_rounds_away_to_nothing_is_refused() {
    assert_eq!(
        record("deposit", Some("0.00004")).parse(),
        Err(ParseError::NonPositiveAmount(Amount::zero()))
    );
}

#[test]
fn the_dispute_family_ignores_any_amount_on_the_row() {
    assert_eq!(
        record("dispute", Some("9999.0")).parse(),
        Ok(Transaction::Dispute { client: 1, tx: 2 })
    );
}

#[test]
fn client_and_tx_are_readable_for_every_variant() {
    for kind in ["deposit", "withdrawal", "dispute", "resolve", "chargeback"] {
        let transaction = record(kind, Some("1.0")).parse().expect("valid");
        assert_eq!(transaction.client(), 1, "{kind}");
        assert_eq!(transaction.tx(), 2, "{kind}");
    }
}
