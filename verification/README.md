# Payment engine

Reads a CSV of deposits, withdrawals, disputes, resolutions and chargebacks,
applies them to per-client accounts, and writes the resulting balances as CSV.
The library is written in Rust with its behaviour stated in Verus contracts and
proved; the command line around it is ordinary Rust.

## Layout

| File | What's in it |
| --- | --- |
| `src/text.rs` | Numbers and names as text |
| `src/money.rs` | The amount type, its precision, and exact arithmetic |
| `src/account.rs` | One client's balances and the six ways they move |
| `src/record.rs` | The CSV row, and the `Transaction` it parses into |
| `src/columns.rs` | Reading a row's fields by the names of their columns |
| `src/ledger.rs` | The ledger as a mathematical model, and its invariant |
| `src/engine.rs` | The ledger in memory, and the rules applied to it |
| `src/laws.rs` | What holds over any number of transactions |
| `src/lines.rs` | The lines and fields of CSV in which nothing is quoted |
| `src/csv_io.rs` | CSV in, CSV out |
| `src/error.rs` | Every reason a row is skipped, and those that stop a run |
| `app/main.rs` | Arguments, files and standard output |

## What is proved

- `Engine::apply` does exactly what `LedgerView::applied` says, and a refused
  transaction changes nothing.
- Every balance is, to the last decimal place, what the client's transactions on
  record add up to; an account is locked exactly when one of them has been charged
  back (`the_books_always_balance`).
- Sums and differences are exact or refused, never rounded. A decimal written out
  is read as exactly that value, whatever its sign or leading zeros, and what the
  output shows reads back as the amount rounded to four places.
- A resolution undoes its dispute, a chargeback reverses the transaction, a locked
  account never changes again, and records are permanent.
- With positive amounts, which are all a row can bring, an open account is never in
  debt in total, and every dispute on an account that is not locked can be settled
  either way.
- A run applies its transactions in the order of their rows, reports every row it
  skips once and under its number, and lists the accounts in client order. Where a
  row stands in the input makes no difference to its number or its effect, and in
  CSV without quotes neither do blank lines or line endings.

## What is assumed

The functions marked `external_body` call into `rust_decimal`, `csv` and the
standard library. The comment above each says what is claimed of the function it
calls. The tests run every one of them.

## Reading of the rules

| | Dispute | Resolve | Chargeback |
| --- | --- | --- | --- |
| **Deposit** | available −amt, held +amt | held −amt, available +amt | held −amt (total falls) |
| **Withdrawal** | held +amt (total rises) | held −amt (total falls) | held −amt, available +amt |

- A rejected row leaves no trace, and a locked account accepts nothing else.
- Transaction IDs are unique across clients: the first row with an ID wins.
- A dispute has to come from the client who owns the transaction.
- More than four decimal places are rounded, half to even; amounts have to be
  greater than zero after that.
- The header must name `type`, `client`, `tx` and `amount`, in any order and case.
- A row with more fields than the header is skipped, not truncated.
