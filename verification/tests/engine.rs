//! The ledger's rules, one transaction at a time.
use transaction_parser::{Account, Amount, Engine, Reject, Transaction};

fn dec(s: &str) -> Amount {
    Amount::from_str(s).unwrap()
}

fn deposit(client: u16, tx: u32, amount: &str) -> Transaction {
    Transaction::Deposit {
        client,
        tx,
        amount: dec(amount),
    }
}

fn withdrawal(client: u16, tx: u32, amount: &str) -> Transaction {
    Transaction::Withdrawal {
        client,
        tx,
        amount: dec(amount),
    }
}

fn dispute(client: u16, tx: u32) -> Transaction {
    Transaction::Dispute { client, tx }
}

fn resolve(client: u16, tx: u32) -> Transaction {
    Transaction::Resolve { client, tx }
}

fn chargeback(client: u16, tx: u32) -> Transaction {
    Transaction::Chargeback { client, tx }
}

/// The three transaction types that refer to an earlier transaction by ID.
const DISPUTE_FAMILY: [fn(u16, u32) -> Transaction; 3] = [dispute, resolve, chargeback];

/// An engine with the given transactions applied, each of which must succeed.
fn engine_with(transactions: &[Transaction]) -> Engine {
    let mut engine = Engine::new();
    for &transaction in transactions {
        engine
            .apply(transaction)
            .unwrap_or_else(|error| panic!("setup {transaction:?} was rejected: {}", error.message()));
    }
    engine
}

/// Asserts a client's four output figures.
///
/// `total` is stated rather than derived from `available` and `held`, so
/// that a change which broke the relationship between them would be caught
/// here instead of being recomputed by the assertion.
fn assert_balances(
    engine: &Engine,
    client: u16,
    available: &str,
    held: &str,
    total: &str,
    locked: bool,
) {
    let account = engine
        .account(client)
        .unwrap_or_else(|| panic!("client {client} has no account"));
    assert_eq!(account.available(), dec(available), "available");
    assert_eq!(account.held(), dec(held), "held");
    assert_eq!(account.total(), dec(total), "total");
    assert_eq!(account.is_locked(), locked, "locked");
}

// --- deposits and withdrawals ---

#[test]
fn a_deposit_creates_the_account_and_credits_it() {
    let engine = engine_with(&[deposit(1, 1, "1.0")]);
    assert_balances(&engine, 1, "1.0", "0", "1.0", false);
}

#[test]
fn a_withdrawal_debits_available_and_total() {
    let engine = engine_with(&[deposit(1, 1, "5.0"), withdrawal(1, 2, "1.5")]);
    assert_balances(&engine, 1, "3.5", "0", "3.5", false);
}

#[test]
fn a_withdrawal_beyond_available_funds_leaves_the_total_unchanged() {
    let mut engine = engine_with(&[deposit(1, 1, "1.0")]);
    let outcome = engine.apply(withdrawal(1, 2, "2.0"));
    assert!(matches!(outcome, Err(Reject::InsufficientFunds { .. })));
    assert_balances(&engine, 1, "1.0", "0", "1.0", false);
}

#[test]
fn a_failed_withdrawal_is_not_recorded_and_cannot_be_disputed() {
    let mut engine = engine_with(&[deposit(1, 1, "1.0")]);
    let _ = engine.apply(withdrawal(1, 2, "2.0"));
    assert_eq!(engine.apply(dispute(1, 2)), Err(Reject::UnknownTx(2)));
}

#[test]
fn a_rejected_transaction_creates_no_account_for_an_unseen_client() {
    let mut engine = Engine::new();
    assert!(engine.apply(withdrawal(7, 1, "5.0")).is_err());
    assert!(engine.apply(dispute(8, 2)).is_err());
    assert_eq!(engine.accounts().len(), 0);
}

#[test]
fn a_duplicate_transaction_id_creates_no_account() {
    let mut engine = engine_with(&[deposit(1, 1, "1.0")]);
    // Client 2 is new, but transaction 1 is not, so nothing should happen.
    assert_eq!(
        engine.apply(deposit(2, 1, "5.0")),
        Err(Reject::DuplicateTx(1))
    );
    assert!(engine.account(2).is_none());
    // The first transaction still belongs to client 1.
    assert_eq!(
        engine.apply(dispute(2, 1)),
        Err(Reject::ClientMismatch {
            tx: 1,
            owner: 1,
            claimed: 2,
        })
    );
}

#[test]
fn clients_are_independent() {
    let engine = engine_with(&[deposit(1, 1, "1.0"), deposit(2, 2, "2.0")]);
    assert_balances(&engine, 1, "1.0", "0", "1.0", false);
    assert_balances(&engine, 2, "2.0", "0", "2.0", false);
}

#[test]
fn a_repeated_transaction_id_is_ignored() {
    let mut engine = engine_with(&[deposit(1, 1, "1.0")]);
    assert_eq!(
        engine.apply(deposit(1, 1, "500.0")),
        Err(Reject::DuplicateTx(1))
    );
    assert_balances(&engine, 1, "1.0", "0", "1.0", false);
}

#[test]
fn a_balance_that_could_not_be_tracked_exactly_is_refused() {
    let mut engine = engine_with(&[deposit(1, 1, "10000000000000000000000000")]);
    assert_eq!(
        engine.apply(deposit(1, 2, "0.0001")),
        Err(Reject::Unrepresentable)
    );
    assert_balances(
        &engine,
        1,
        "10000000000000000000000000",
        "0",
        "10000000000000000000000000",
        false,
    );
}

// --- disputing a deposit: the funds are in the account, so freeze them ---

#[test]
fn disputing_a_deposit_moves_funds_to_held_and_leaves_the_total() {
    let engine = engine_with(&[deposit(1, 1, "5.0"), deposit(1, 2, "2.0"), dispute(1, 1)]);
    assert_balances(&engine, 1, "2.0", "5.0", "7.0", false);
}

#[test]
fn resolving_a_disputed_deposit_returns_the_funds() {
    let engine = engine_with(&[deposit(1, 1, "5.0"), dispute(1, 1), resolve(1, 1)]);
    assert_balances(&engine, 1, "5.0", "0", "5.0", false);
}

#[test]
fn charging_back_a_deposit_removes_the_funds_and_locks_the_account() {
    let engine = engine_with(&[deposit(1, 1, "5.0"), dispute(1, 1), chargeback(1, 1)]);
    assert_balances(&engine, 1, "0", "0", "0", true);
}

#[test]
fn the_fraud_case_leaves_the_client_owing_the_reversed_deposit() {
    // Deposit, spend the proceeds, then reverse the deposit: the negative
    // available balance is the record of what the client owes.
    let engine = engine_with(&[
        deposit(1, 1, "100.0"),
        withdrawal(1, 2, "100.0"),
        dispute(1, 1),
        chargeback(1, 1),
    ]);
    assert_balances(&engine, 1, "-100.0", "0", "-100.0", true);
}

#[test]
fn an_account_can_be_locked_with_funds_still_held() {
    // Two disputes in flight; charging one back freezes the account while
    // the other claim is still holding funds.
    let engine = engine_with(&[
        deposit(1, 1, "100.0"),
        withdrawal(1, 2, "60.0"),
        withdrawal(1, 3, "40.0"),
        dispute(1, 1),
        dispute(1, 3),
        chargeback(1, 3),
    ]);
    // Deposit 1 is still held (100), and the charged-back withdrawal of 40
    // was refunded into available, which the disputed deposit drove negative.
    assert_balances(&engine, 1, "-60.0", "100.0", "40.0", true);
}

// --- disputing a withdrawal: the funds are gone, so hold the pending refund ---

#[test]
fn disputing_a_withdrawal_holds_the_pending_refund() {
    let engine = engine_with(&[deposit(1, 1, "5.0"), withdrawal(1, 2, "2.0"), dispute(1, 2)]);
    assert_balances(&engine, 1, "3.0", "2.0", "5.0", false);
}

#[test]
fn resolving_a_disputed_withdrawal_drops_the_refund_claim() {
    let engine = engine_with(&[
        deposit(1, 1, "5.0"),
        withdrawal(1, 2, "2.0"),
        dispute(1, 2),
        resolve(1, 2),
    ]);
    assert_balances(&engine, 1, "3.0", "0", "3.0", false);
}

#[test]
fn charging_back_a_withdrawal_pays_the_refund_and_locks_the_account() {
    let engine = engine_with(&[
        deposit(1, 1, "5.0"),
        withdrawal(1, 2, "2.0"),
        dispute(1, 2),
        chargeback(1, 2),
    ]);
    assert_balances(&engine, 1, "5.0", "0", "5.0", true);
}

// --- dispute lifecycle rules ---

#[test]
fn the_dispute_family_ignores_an_unknown_transaction() {
    let mut engine = engine_with(&[deposit(1, 1, "5.0")]);
    for make in DISPUTE_FAMILY {
        assert_eq!(engine.apply(make(1, 99)), Err(Reject::UnknownTx(99)));
    }
    assert_balances(&engine, 1, "5.0", "0", "5.0", false);
}

#[test]
fn the_dispute_family_ignores_a_client_with_no_account() {
    let mut engine = engine_with(&[deposit(1, 1, "5.0")]);
    for make in DISPUTE_FAMILY {
        assert_eq!(
            engine.apply(make(42, 1)),
            Err(Reject::ClientMismatch {
                tx: 1,
                owner: 1,
                claimed: 42,
            })
        );
        assert_eq!(engine.apply(make(42, 99)), Err(Reject::UnknownTx(99)));
    }
    assert!(engine.account(42).is_none());
}

#[test]
fn a_client_cannot_dispute_another_clients_transaction() {
    let mut engine = engine_with(&[deposit(1, 1, "5.0"), deposit(2, 2, "5.0")]);
    assert_eq!(
        engine.apply(dispute(2, 1)),
        Err(Reject::ClientMismatch {
            tx: 1,
            owner: 1,
            claimed: 2,
        })
    );
    assert_balances(&engine, 1, "5.0", "0", "5.0", false);
    assert_balances(&engine, 2, "5.0", "0", "5.0", false);
}

#[test]
fn disputing_the_same_transaction_twice_is_ignored() {
    let mut engine = engine_with(&[deposit(1, 1, "5.0"), dispute(1, 1)]);
    assert_eq!(engine.apply(dispute(1, 1)), Err(Reject::AlreadyDisputed(1)));
    assert_balances(&engine, 1, "0", "5.0", "5.0", false);
}

#[test]
fn resolving_or_charging_back_an_undisputed_transaction_is_ignored() {
    let mut engine = engine_with(&[deposit(1, 1, "5.0")]);
    assert_eq!(engine.apply(resolve(1, 1)), Err(Reject::NotDisputed(1)));
    assert_eq!(engine.apply(chargeback(1, 1)), Err(Reject::NotDisputed(1)));
    assert_balances(&engine, 1, "5.0", "0", "5.0", false);
}

#[test]
fn a_transaction_cannot_be_charged_back_after_it_is_resolved() {
    let mut engine = engine_with(&[deposit(1, 1, "5.0"), dispute(1, 1), resolve(1, 1)]);
    assert_eq!(engine.apply(chargeback(1, 1)), Err(Reject::NotDisputed(1)));
    assert_balances(&engine, 1, "5.0", "0", "5.0", false);
}

#[test]
fn a_resolved_deposit_can_be_disputed_again() {
    let engine = engine_with(&[
        deposit(1, 1, "5.0"),
        dispute(1, 1),
        resolve(1, 1),
        dispute(1, 1),
    ]);
    assert_balances(&engine, 1, "0", "5.0", "5.0", false);
}

#[test]
fn a_resolved_withdrawal_can_be_disputed_again() {
    let engine = engine_with(&[
        deposit(1, 1, "5.0"),
        withdrawal(1, 2, "2.0"),
        dispute(1, 2),
        resolve(1, 2),
        dispute(1, 2),
    ]);
    assert_balances(&engine, 1, "3.0", "2.0", "5.0", false);
}

#[test]
fn a_locked_account_accepts_nothing_further() {
    let mut engine = engine_with(&[
        deposit(1, 1, "5.0"),
        deposit(1, 2, "5.0"),
        dispute(1, 1),
        dispute(1, 2),
        chargeback(1, 1),
    ]);
    for refused in [
        deposit(1, 10, "1.0"),
        withdrawal(1, 11, "1.0"),
        // Including the transaction that was just charged back...
        dispute(1, 1),
        // ...and a dispute already in flight, which can no longer resolve.
        resolve(1, 2),
        chargeback(1, 2),
    ] {
        assert_eq!(engine.apply(refused), Err(Reject::AccountLocked(1)));
    }
    assert_balances(&engine, 1, "0", "5.0", "5.0", true);
}

#[test]
fn one_clients_chargeback_does_not_freeze_another() {
    let mut engine = engine_with(&[
        deposit(1, 1, "5.0"),
        deposit(2, 2, "5.0"),
        dispute(1, 1),
        chargeback(1, 1),
    ]);
    engine.apply(deposit(2, 3, "1.0")).unwrap();
    assert_balances(&engine, 1, "0", "0", "0", true);
    assert_balances(&engine, 2, "6.0", "0", "6.0", false);
}

#[test]
fn disputes_for_several_clients_can_be_in_flight_at_once() {
    let engine = engine_with(&[
        deposit(1, 1, "10.0"),
        deposit(2, 2, "20.0"),
        deposit(3, 3, "30.0"),
        dispute(2, 2),
        dispute(1, 1),
        deposit(2, 4, "5.0"),
        resolve(1, 1),
        dispute(3, 3),
        chargeback(3, 3),
    ]);
    assert_balances(&engine, 1, "10.0", "0", "10.0", false);
    assert_balances(&engine, 2, "5.0", "20.0", "25.0", false);
    assert_balances(&engine, 3, "0", "0", "0", true);
}

#[test]
fn accounts_are_listed_in_client_order() {
    let engine = engine_with(&[
        deposit(7, 1, "1.0"),
        deposit(2, 2, "1.0"),
        deposit(5, 3, "1.0"),
    ]);
    let clients: Vec<u16> = engine.accounts().into_iter().map(Account::client).collect();
    assert_eq!(clients, [2, 5, 7]);
}
