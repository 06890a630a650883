//! A payment engine.
//!
//! Reads a CSV of deposits, withdrawals, disputes, resolutions and chargebacks,
//! applies them to per-client asset accounts, and writes the resulting balances
//! back out as CSV.
//!
//! The work is split so that the ledger rules ([`engine`]) know nothing about
//! CSV, and the CSV handling ([`csv_io`]) knows nothing about the rules. A row
//! becomes a [`Transaction`] before the engine sees it, so everything that can
//! be wrong with the *row* is settled by then.
//!
//! What the code does is stated over a mathematical model: [`money::Figure`] for
//! amounts, [`ledger::LedgerView`] for the accounts and the transactions on
//! record, [`csv_io::Progress`] for a run. Each function's contract says what it
//! does to the model, and the public proof functions state what follows for the
//! engine as a whole.
use vstd::prelude::*;
use vstd::string::*;

pub mod account;
pub mod columns;
pub mod csv_io;
pub mod engine;
pub mod error;
pub mod laws;
pub mod ledger;
pub mod lines;
pub mod money;
pub mod record;
pub mod text;

pub use account::Account;
pub use engine::Engine;
pub use error::{Error, Reject, RowError};
pub use money::Amount;
pub use record::{ParseError, Record, Transaction};

verus! {

/// How a skipped row is reported.
pub open spec fn warning_text(number: nat, error: error::RowErrorView) -> Seq<char> {
    "warning: row "@ + text::decimal_digits(number) + ": "@ + error.message()
}

/// The warnings for all skipped rows.
pub open spec fn warning_texts(skipped: Seq<(nat, error::RowErrorView)>) -> Seq<Seq<char>> {
    skipped.map_values(
        |report: (nat, error::RowErrorView)| warning_text(report.0, report.1),
    )
}

/// Words the report of a skipped row.
pub fn warning(number: u64, error: &RowError) -> (text: String)
    ensures
        text@ == warning_text(number as nat, error@),
{
    let mut text = "warning: row ".to_owned();
    text.append(text::number_text(number).as_str());
    text.append(": ");
    text.append(error.message().as_str());
    text
}

/// Processes `input` and adds the resulting account table to `output`, reporting
/// every skipped row in `warnings`. Nothing is added to `output` when the run
/// fails.
///
/// Anything that needs more than the wording of a warning should call
/// [`csv_io::process`] directly.
pub fn run(input: &[u8], output: &mut String, warnings: &mut Vec<String>) -> (result: Result<
    (),
    Error,
>)
    ensures
        ({
            let run = csv_io::processed(
                ledger::empty(),
                csv_io::csv_header(input@),
                csv_io::events_of(csv_io::csv_rows(input@)),
            );
            &&& columns::texts(final(warnings)@) == columns::texts(old(warnings)@)
                + warning_texts(run.skipped)
            &&& match run.failure {
                Some(error) => {
                    &&& result is Err
                    &&& result->Err_0@ == error
                    &&& final(output)@ == old(output)@
                },
                None => {
                    &&& result is Ok
                    &&& final(output)@ == old(output)@ + csv_io::table(run.ledger.listing())
                },
            }
        }),
        result is Ok ==> csv_io::all_as_written(
            csv_io::csv_header(input@),
            csv_io::events_of(csv_io::csv_rows(input@)),
        ),
        lines::is_unquoted(input@) ==> csv_io::same_outcome(
            csv_io::processed(
                ledger::empty(),
                csv_io::csv_header(input@),
                csv_io::events_of(csv_io::csv_rows(input@)),
            ),
            csv_io::processed_lines(ledger::empty(), lines::lines(input@)),
        ),
{
    let mut engine = Engine::new();
    let mut skipped: Vec<(u64, RowError)> = Vec::new();
    let result = csv_io::process(input, &mut engine, &mut skipped);
    let ghost reports = csv_io::reports(skipped@);
    let mut i: usize = 0;
    while i < skipped.len()
        invariant
            i <= skipped.len(),
            reports == csv_io::reports(skipped@),
            columns::texts(warnings@) == columns::texts(old(warnings)@) + warning_texts(
                reports.take(i as int),
            ),
        decreases skipped.len() - i,
    {
        let ghost before = warnings@;
        let (number, error) = &skipped[i];
        let text = warning(*number, error);
        warnings.push(text);
        proof {
            assert(columns::texts(warnings@) =~= columns::texts(before).push(text@));
            assert(reports.take(i + 1) =~= reports.take(i as int).push(reports[i as int]));
            assert(columns::texts(warnings@) =~= columns::texts(old(warnings)@) + warning_texts(
                reports.take(i + 1),
            ));
        }
        i = i + 1;
    }
    assert(reports.take(skipped.len() as int) =~= reports);
    match result {
        Ok(()) => {
            csv_io::write_accounts(&engine, output);
            Ok(())
        },
        Err(error) => Err(error),
    }
}

/// Every skipped row is reported in one warning, in order, with its number and the
/// reason it was skipped for.
pub proof fn every_skipped_row_gets_one_warning(skipped: Seq<(nat, error::RowErrorView)>)
    ensures
        warning_texts(skipped).len() == skipped.len(),
        forall|i: int|
            0 <= i < skipped.len() ==> warning_texts(skipped)[i] == "warning: row "@
                + text::decimal_digits((#[trigger] skipped[i]).0) + ": "@
                + skipped[i].1.message(),
{
}

} // verus!
