//! Input rows, and the transactions they parse into.
//!
//! [`Record`] is the CSV's shape: whatever the file happened to contain, with a
//! type name that may not be a type and an amount that may not be there.
//! [`Transaction`] is what the ledger accepts, and the two are separated so that
//! everything which can be wrong with a *row* is settled here, before the engine
//! sees it. That is why a dispute has no amount field to ignore and a deposit
//! has no optional amount to unwrap.
use vstd::prelude::*;
use vstd::string::*;

use crate::money;
use crate::money::{Amount, Figure};
use crate::text;

verus! {

/// A transaction the engine can act on.
///
/// Every variant carries exactly the fields its kind needs, so a deposit
/// without an amount or a dispute with one cannot be constructed.
#[derive(Debug, Clone, Copy, PartialEq, Eq)]
pub enum Transaction {
    /// A credit to the client's account. The amount is positive and rounded to
    /// the engine's precision.
    Deposit { client: u16, tx: u32, amount: Amount },
    /// A debit from the client's account, on the same terms.
    Withdrawal { client: u16, tx: u32, amount: Amount },
    /// A claim that an earlier transaction was erroneous.
    Dispute { client: u16, tx: u32 },
    /// A claim withdrawn.
    Resolve { client: u16, tx: u32 },
    /// A claim upheld, reversing the transaction and freezing the account.
    Chargeback { client: u16, tx: u32 },
}

/// A [`Transaction`] with its amount as a figure.
pub enum TransactionView {
    Deposit { client: u16, tx: u32, amount: Figure },
    Withdrawal { client: u16, tx: u32, amount: Figure },
    Dispute { client: u16, tx: u32 },
    Resolve { client: u16, tx: u32 },
    Chargeback { client: u16, tx: u32 },
}

impl TransactionView {
    /// The client the transaction belongs to.
    pub open spec fn client(self) -> u16 {
        match self {
            TransactionView::Deposit { client, .. } => client,
            TransactionView::Withdrawal { client, .. } => client,
            TransactionView::Dispute { client, .. } => client,
            TransactionView::Resolve { client, .. } => client,
            TransactionView::Chargeback { client, .. } => client,
        }
    }

    /// The transaction's own ID, or the one it refers to.
    pub open spec fn tx(self) -> u32 {
        match self {
            TransactionView::Deposit { tx, .. } => tx,
            TransactionView::Withdrawal { tx, .. } => tx,
            TransactionView::Dispute { tx, .. } => tx,
            TransactionView::Resolve { tx, .. } => tx,
            TransactionView::Chargeback { tx, .. } => tx,
        }
    }

    /// Whether the amount, where there is one, fits a decimal.
    pub open spec fn valid(self) -> bool {
        match self {
            TransactionView::Deposit { amount, .. } => amount.valid(),
            TransactionView::Withdrawal { amount, .. } => amount.valid(),
            _ => true,
        }
    }
}

impl View for Transaction {
    type V = TransactionView;

    open spec fn view(&self) -> TransactionView {
        match *self {
            Transaction::Deposit { client, tx, amount } => TransactionView::Deposit {
                client,
                tx,
                amount: amount@,
            },
            Transaction::Withdrawal { client, tx, amount } => TransactionView::Withdrawal {
                client,
                tx,
                amount: amount@,
            },
            Transaction::Dispute { client, tx } => TransactionView::Dispute { client, tx },
            Transaction::Resolve { client, tx } => TransactionView::Resolve { client, tx },
            Transaction::Chargeback { client, tx } => TransactionView::Chargeback { client, tx },
        }
    }
}

impl Transaction {
    /// The client this transaction belongs to.
    pub fn client(&self) -> (client: u16)
        ensures
            client == self@.client(),
    {
        match *self {
            Transaction::Deposit { client, .. }
            | Transaction::Withdrawal { client, .. }
            | Transaction::Dispute { client, .. }
            | Transaction::Resolve { client, .. }
            | Transaction::Chargeback { client, .. } => client,
        }
    }

    /// The transaction ID: this transaction's own for a deposit or withdrawal,
    /// or the one being referred to for the dispute family.
    pub fn tx(&self) -> (tx: u32)
        ensures
            tx == self@.tx(),
    {
        match *self {
            Transaction::Deposit { tx, .. }
            | Transaction::Withdrawal { tx, .. }
            | Transaction::Dispute { tx, .. }
            | Transaction::Resolve { tx, .. }
            | Transaction::Chargeback { tx, .. } => tx,
        }
    }
}

/// Why a row could not be turned into a [`Transaction`].
#[derive(Debug, PartialEq, Eq)]
pub enum ParseError {
    UnknownType(String),
    MissingAmount,
    NonPositiveAmount(Amount),
}

/// A [`ParseError`] with its text and amount as mathematics sees them.
pub enum ParseErrorView {
    UnknownType(Seq<char>),
    MissingAmount,
    NonPositiveAmount(Figure),
}

impl View for ParseError {
    type V = ParseErrorView;

    open spec fn view(&self) -> ParseErrorView {
        match *self {
            ParseError::UnknownType(name) => ParseErrorView::UnknownType(name@),
            ParseError::MissingAmount => ParseErrorView::MissingAmount,
            ParseError::NonPositiveAmount(amount) => ParseErrorView::NonPositiveAmount(amount@),
        }
    }
}

impl ParseErrorView {
    /// How the reason reads in a warning.
    pub open spec fn message(self) -> Seq<char> {
        match self {
            ParseErrorView::UnknownType(name) => "unknown transaction type `"@ + name + "`"@,
            ParseErrorView::MissingAmount => "a deposit or withdrawal must carry an amount"@,
            ParseErrorView::NonPositiveAmount(amount) => "amount must be greater than zero (got "@
                + amount.text() + " after rounding to "@ + text::decimal_digits(
                money::SCALE as nat,
            ) + " decimal places)"@,
        }
    }
}

impl ParseError {
    /// How the reason reads in a warning.
    pub fn message(&self) -> (text: String)
        ensures
            text@ == self@.message(),
    {
        match self {
            ParseError::UnknownType(name) => {
                let mut text = "unknown transaction type `".to_owned();
                text.append(name.as_str());
                text.append("`");
                text
            },
            ParseError::MissingAmount => "a deposit or withdrawal must carry an amount".to_owned(),
            ParseError::NonPositiveAmount(amount) => {
                let mut text = "amount must be greater than zero (got ".to_owned();
                text.append(amount.text().as_str());
                text.append(" after rounding to ");
                text.append(text::number_text(money::SCALE as u64).as_str());
                text.append(" decimal places)");
                text
            },
        }
    }
}

/// One row of the input CSV, before any rules are applied.
///
/// `kind` stays a string and `amount` stays optional, because that is what the
/// file can contain. [`Record::parse`] is where that becomes a transaction or a
/// skipped row.
#[derive(Debug)]
pub struct Record {
    /// What the `type` column says.
    pub kind: String,
    pub client: u16,
    pub tx: u32,
    /// Absent on dispute, resolve and chargeback rows, which reference a
    /// transaction by ID instead of stating an amount.
    pub amount: Option<Amount>,
}

/// A [`Record`] with its text and amount as mathematics sees them.
pub struct RecordView {
    pub kind: Seq<char>,
    pub client: u16,
    pub tx: u32,
    pub amount: Option<Figure>,
}

impl View for Record {
    type V = RecordView;

    open spec fn view(&self) -> RecordView {
        RecordView {
            kind: self.kind@,
            client: self.client,
            tx: self.tx,
            amount: money::figure_in(self.amount),
        }
    }
}

impl RecordView {
    /// The amount of a deposit or withdrawal: rounded to the engine's precision,
    /// and positive.
    pub open spec fn checked_amount(self) -> Result<Figure, ParseErrorView> {
        match self.amount {
            None => Err(ParseErrorView::MissingAmount),
            Some(amount) => {
                let rounded = amount.rounded(money::SCALE as nat);
                if rounded.units() > 0 {
                    Ok(rounded)
                } else {
                    Err(ParseErrorView::NonPositiveAmount(rounded))
                }
            },
        }
    }

    /// The transaction the row describes, or why it describes none. The type is
    /// recognised whatever the case of its letters and whatever whitespace is
    /// around it.
    pub open spec fn parsed(self) -> Result<TransactionView, ParseErrorView> {
        let (client, tx) = (self.client, self.tx);
        let name = text::trimmed(self.kind);
        let kind = text::lowered(name);
        if kind == "deposit"@ {
            match self.checked_amount() {
                Ok(amount) => Ok(TransactionView::Deposit { client, tx, amount }),
                Err(why) => Err(why),
            }
        } else if kind == "withdrawal"@ {
            match self.checked_amount() {
                Ok(amount) => Ok(TransactionView::Withdrawal { client, tx, amount }),
                Err(why) => Err(why),
            }
        } else if kind == "dispute"@ {
            Ok(TransactionView::Dispute { client, tx })
        } else if kind == "resolve"@ {
            Ok(TransactionView::Resolve { client, tx })
        } else if kind == "chargeback"@ {
            Ok(TransactionView::Chargeback { client, tx })
        } else {
            Err(ParseErrorView::UnknownType(name))
        }
    }
}

/// The five type names, and so the distinctions between them, survive being
/// brought to lower case.
proof fn lemma_type_names()
    ensures
        text::lowered("deposit"@) == "deposit"@,
        text::lowered("withdrawal"@) == "withdrawal"@,
        text::lowered("dispute"@) == "dispute"@,
        text::lowered("resolve"@) == "resolve"@,
        text::lowered("chargeback"@) == "chargeback"@,
{
    reveal_strlit("deposit");
    reveal_strlit("withdrawal");
    reveal_strlit("dispute");
    reveal_strlit("resolve");
    reveal_strlit("chargeback");
    assert(text::lowered("deposit"@) =~= "deposit"@);
    assert(text::lowered("withdrawal"@) =~= "withdrawal"@);
    assert(text::lowered("dispute"@) =~= "dispute"@);
    assert(text::lowered("resolve"@) =~= "resolve"@);
    assert(text::lowered("chargeback"@) =~= "chargeback"@);
}

impl Record {
    /// Validates the row into a transaction the engine will accept.
    pub fn parse(&self) -> (transaction: Result<Transaction, ParseError>)
        ensures
            match self@.parsed() {
                Ok(parsed) => transaction is Ok && transaction->Ok_0@ == parsed,
                Err(why) => transaction is Err && transaction->Err_0@ == why,
            },
    {
        proof {
            lemma_type_names();
        }
        let (client, tx) = (self.client, self.tx);

        // Type names are matched case-insensitively, ignoring surrounding
        // whitespace, and compared in place because this runs once per row.
        let name = text::trim(self.kind.as_str());
        if text::same_name(name, "deposit") {
            match self.amount() {
                Ok(amount) => Ok(Transaction::Deposit { client, tx, amount }),
                Err(why) => Err(why),
            }
        } else if text::same_name(name, "withdrawal") {
            match self.amount() {
                Ok(amount) => Ok(Transaction::Withdrawal { client, tx, amount }),
                Err(why) => Err(why),
            }
        } else if text::same_name(name, "dispute") {
            Ok(Transaction::Dispute { client, tx })
        } else if text::same_name(name, "resolve") {
            Ok(Transaction::Resolve { client, tx })
        } else if text::same_name(name, "chargeback") {
            Ok(Transaction::Chargeback { client, tx })
        } else {
            Err(ParseError::UnknownType(name.to_owned()))
        }
    }

    /// The amount for a deposit or withdrawal, rounded and checked.
    ///
    /// A negative deposit would be a withdrawal that skips the sufficient-funds
    /// check, and a zero-value movement is a no-op worth reporting, so both are
    /// refused. Any amount on a dispute, resolve or chargeback is ignored: such a
    /// row does not state one, and the recorded transaction is what governs.
    fn amount(&self) -> (amount: Result<Amount, ParseError>)
        ensures
            match self@.checked_amount() {
                Ok(checked) => amount is Ok && amount->Ok_0@ == checked,
                Err(why) => amount is Err && amount->Err_0@ == why,
            },
    {
        match self.amount {
            None => Err(ParseError::MissingAmount),
            Some(amount) => {
                let amount = money::to_engine_scale(amount);
                proof {
                    money::lemma_zero(money::zero_figure(), money::MAX_SCALE as nat);
                }
                if Amount::zero().is_less_than(amount) {
                    Ok(amount)
                } else {
                    Err(ParseError::NonPositiveAmount(amount))
                }
            },
        }
    }
}

/// A row that parses keeps its client and its transaction ID.
pub proof fn parsing_keeps_client_and_tx(record: RecordView)
    ensures
        record.parsed() matches Ok(transaction) ==> transaction.client() == record.client
            && transaction.tx() == record.tx,
{
}

/// What the engine is asked to move is always a positive amount with at most four
/// decimal places.
pub proof fn parsed_amounts_are_positive_and_rounded(record: RecordView)
    requires
        record.amount matches Some(amount) ==> amount.valid(),
    ensures
        record.parsed() matches Ok(transaction) ==> transaction.valid(),
        record.parsed() matches Ok(TransactionView::Deposit { amount, .. }) ==> amount.units() > 0
            && amount.scale <= money::SCALE,
        record.parsed() matches Ok(TransactionView::Withdrawal { amount, .. }) ==> amount.units()
            > 0 && amount.scale <= money::SCALE,
{
    if record.amount is Some {
        money::rounding_limits_the_places(record.amount->0, money::SCALE as nat);
    }
}

/// An amount counts exactly when it is more than half of the last decimal place
/// kept: up to `0.00005`, it rounds to nothing and is refused.
pub proof fn amounts_that_round_to_nothing_are_refused(record: RecordView)
    requires
        record.amount matches Some(amount) ==> amount.valid(),
    ensures
        record.checked_amount() is Ok <==> (record.amount matches Some(amount) && 2
            * amount.units() > text::pow10((money::MAX_SCALE - money::SCALE) as nat)),
{
    if record.amount is Some {
        money::rounding_to_nothing(record.amount->0, money::SCALE as nat);
    }
}

/// The type name counts whatever the case of its letters and whatever whitespace is
/// around it: two rows that differ in nothing else give the same transaction.
pub proof fn type_names_ignore_case_and_whitespace(left: RecordView, right: RecordView)
    requires
        text::lowered(text::trimmed(left.kind)) == text::lowered(text::trimmed(right.kind)),
        right == (RecordView { kind: right.kind, ..left }),
        !(left.parsed() matches Err(ParseErrorView::UnknownType(_))),
    ensures
        left.parsed() == right.parsed(),
{
}

/// An amount on a dispute, resolve or chargeback row is ignored.
pub proof fn the_dispute_family_ignores_the_amount(record: RecordView, amount: Option<Figure>)
    requires
        record.parsed() matches Ok(transaction) && !(transaction is Deposit)
            && !(transaction is Withdrawal),
    ensures
        (RecordView { amount, ..record }).parsed() == record.parsed(),
{
    lemma_type_names();
}

/// The five type names differ from one another.
proof fn lemma_type_names_differ()
    ensures
        "deposit"@ != "withdrawal"@,
        "deposit"@ != "dispute"@,
        "deposit"@ != "resolve"@,
        "deposit"@ != "chargeback"@,
        "withdrawal"@ != "dispute"@,
        "withdrawal"@ != "resolve"@,
        "withdrawal"@ != "chargeback"@,
        "dispute"@ != "resolve"@,
        "dispute"@ != "chargeback"@,
        "resolve"@ != "chargeback"@,
{
    reveal_strlit("deposit");
    reveal_strlit("withdrawal");
    reveal_strlit("dispute");
    reveal_strlit("resolve");
    reveal_strlit("chargeback");
    assert("deposit"@[2] == 'p' && "dispute"@[2] == 's' && "resolve"@[0] == 'r');
    assert("deposit"@[0] == 'd' && "dispute"@[0] == 'd');
    assert("withdrawal"@[0] == 'w' && "chargeback"@[0] == 'c');
}

/// A row of the dispute family always parses, whatever its client, its transaction
/// ID and its amount, and becomes the transaction that its type names.
pub proof fn a_dispute_row_becomes_what_its_type_names(record: RecordView)
    ensures
        ({
            let kind = text::lowered(text::trimmed(record.kind));
            let (client, tx) = (record.client, record.tx);
            &&& kind == "dispute"@ ==> record.parsed() == Ok::<TransactionView, ParseErrorView>(
                TransactionView::Dispute { client, tx },
            )
            &&& kind == "resolve"@ ==> record.parsed() == Ok::<TransactionView, ParseErrorView>(
                TransactionView::Resolve { client, tx },
            )
            &&& kind == "chargeback"@ ==> record.parsed() == Ok::<TransactionView, ParseErrorView>(
                TransactionView::Chargeback { client, tx },
            )
        }),
{
    lemma_type_names_differ();
}

/// Whether a row that is to move money comes to this: it is refused for having no
/// amount, or it moves what its amount comes to with four decimal places if that is
/// above zero, and is refused with that figure otherwise.
pub open spec fn moves_its_amount(
    record: RecordView,
    outcome: Result<Figure, ParseErrorView>,
) -> bool {
    let places = money::SCALE as nat;
    let unit = text::pow10((money::MAX_SCALE - money::SCALE) as nat);
    match (record.amount, outcome) {
        (None, Err(why)) => why == ParseErrorView::MissingAmount,
        (Some(amount), Ok(moved)) => 2 * amount.units() > unit && moved.units() > 0
            && money::rounds_to(amount, moved, places),
        (Some(amount), Err(ParseErrorView::NonPositiveAmount(shown))) => 2 * amount.units() <= unit
            && shown.units() <= 0 && money::rounds_to(amount, shown, places),
        _ => false,
    }
}

/// A deposit or withdrawal row becomes a movement of the kind its type names, for
/// the client and under the ID on the row and with the amount on the row rounded to
/// four places, exactly when that is above zero.
pub proof fn a_movement_row_moves_the_amount_on_it(record: RecordView)
    requires
        record.amount matches Some(amount) ==> amount.valid(),
    ensures
        ({
            let kind = text::lowered(text::trimmed(record.kind));
            let (client, tx) = (record.client, record.tx);
            &&& kind == "deposit"@ ==> match record.parsed() {
                Ok(TransactionView::Deposit { client: c, tx: t, amount }) => c == client && t == tx
                    && moves_its_amount(record, Ok(amount)),
                Ok(_) => false,
                Err(why) => moves_its_amount(record, Err(why)),
            }
            &&& kind == "withdrawal"@ ==> match record.parsed() {
                Ok(TransactionView::Withdrawal { client: c, tx: t, amount }) => c == client && t
                    == tx && moves_its_amount(record, Ok(amount)),
                Ok(_) => false,
                Err(why) => moves_its_amount(record, Err(why)),
            }
        }),
{
    lemma_type_names_differ();
    if record.amount is Some {
        let places = money::SCALE as nat;
        money::rounding_goes_to_the_even_neighbour_in_a_tie(record.amount->0, places);
        money::rounding_to_nothing(record.amount->0, places);
    }
}

/// A row of any other type is refused, with the name it gave as its type.
pub proof fn other_types_are_refused(record: RecordView)
    requires
        ({
            let kind = text::lowered(text::trimmed(record.kind));
            &&& kind != "deposit"@
            &&& kind != "withdrawal"@
            &&& kind != "dispute"@
            &&& kind != "resolve"@
            &&& kind != "chargeback"@
        }),
    ensures
        record.parsed() == Err::<TransactionView, ParseErrorView>(
            ParseErrorView::UnknownType(text::trimmed(record.kind)),
        ),
{
}

/// A transaction belongs to the client and carries the ID that are written in it,
/// and its amount is the one it was made with.
pub proof fn a_transaction_is_what_is_written_in_it(transaction: Transaction)
    ensures
        match transaction {
            Transaction::Deposit { client, tx, amount } => transaction@ == (
            TransactionView::Deposit { client, tx, amount: amount@ }) && transaction@.client()
                == client && transaction@.tx() == tx,
            Transaction::Withdrawal { client, tx, amount } => transaction@ == (
            TransactionView::Withdrawal { client, tx, amount: amount@ }) && transaction@.client()
                == client && transaction@.tx() == tx,
            Transaction::Dispute { client, tx } => transaction@ == (TransactionView::Dispute {
                client,
                tx,
            }) && transaction@.client() == client && transaction@.tx() == tx,
            Transaction::Resolve { client, tx } => transaction@ == (TransactionView::Resolve {
                client,
                tx,
            }) && transaction@.client() == client && transaction@.tx() == tx,
            Transaction::Chargeback { client, tx } => transaction@ == (
            TransactionView::Chargeback { client, tx }) && transaction@.client() == client
                && transaction@.tx() == tx,
        },
{
}

/// A record says what is written in it.
pub proof fn a_record_is_what_is_written_in_it(record: Record)
    ensures
        record@.kind == record.kind@,
        record@.client == record.client,
        record@.tx == record.tx,
        record@.amount is Some <==> record.amount is Some,
        record.amount matches Some(amount) ==> record@.amount == Some(amount@),
{
}

} // verus!
