//! What holds over several transactions, on concrete ones.
use transaction_parser::{run, Account, Amount, Engine, Reject, Transaction};

fn dec(s: &str) -> Amount {
    Amount::from_str(s).unwrap()
}

fn deposit(client: u16, tx: u32, amount: &str) -> Transaction {
    Transaction::Deposit { client, tx, amount: dec(amount) }
}

fn withdrawal(client: u16, tx: u32, amount: &str) -> Transaction {
    Transaction::Withdrawal { client, tx, amount: dec(amount) }
}

fn dispute(client: u16, tx: u32) -> Transaction {
    Transaction::Dispute { client, tx }
}

fn resolve(client: u16, tx: u32) -> Transaction {
    Transaction::Resolve { client, tx }
}

fn chargeback(client: u16, tx: u32) -> Transaction {
    Transaction::Chargeback { client, tx }
}

/// A client's balances and lock, as text with every decimal place.
fn balances(engine: &Engine, client: u16) -> (String, String, String, bool) {
    let account = engine.account(client).expect("the client has an account");
    (
        account.available().text(),
        account.held().text(),
        account.total().text(),
        account.is_locked(),
    )
}

/// Every account's balances, as one text.
fn snapshot(engine: &Engine) -> String {
    let lines: Vec<String> = engine
        .accounts()
        .into_iter()
        .map(|account| format!("{} {:?}", account.client(), balances(engine, account.client())))
        .collect();
    lines.join("; ")
}

/// A repeatable sequence of numbers with no pattern to speak of.
fn scramble(state: &mut u64) -> u64 {
    *state = state
        .wrapping_mul(6364136223846793005)
        .wrapping_add(1442695040888963407);
    *state >> 33
}

#[test]
fn balances_are_always_what_the_accepted_transactions_add_up_to() {
    #[derive(Clone, Copy, PartialEq)]
    enum State {
        Normal,
        Disputed,
        ChargedBack,
    }
    let mut engine = Engine::new();
    // By transaction ID: the client, the amount with its sign, and the state.
    let mut history: Vec<Option<(u16, i64, State)>> = vec![None; 60];
    let mut state = 3;
    for _ in 0..4_000 {
        let client = (scramble(&mut state) % 12) as u16;
        let tx = (scramble(&mut state) % 60) as usize;
        let cents = (scramble(&mut state) % 10_000) as i64 + 1;
        let amount = dec(&format!("{}.{:04}", cents / 10_000, cents % 10_000));
        let kind = scramble(&mut state) % 40;
        let transaction = match kind {
            0..=11 => Transaction::Deposit { client, tx: tx as u32, amount },
            12..=19 => Transaction::Withdrawal { client, tx: tx as u32, amount },
            20..=29 => dispute(client, tx as u32),
            30..=38 => resolve(client, tx as u32),
            _ => chargeback(client, tx as u32),
        };
        let before = snapshot(&engine);
        if engine.apply(transaction).is_err() {
            assert_eq!(snapshot(&engine), before, "a refused transaction left a trace");
            continue;
        }
        match transaction {
            Transaction::Deposit { .. } => history[tx] = Some((client, cents, State::Normal)),
            Transaction::Withdrawal { .. } => history[tx] = Some((client, -cents, State::Normal)),
            Transaction::Dispute { .. } => history[tx].as_mut().unwrap().2 = State::Disputed,
            Transaction::Resolve { .. } => history[tx].as_mut().unwrap().2 = State::Normal,
            Transaction::Chargeback { .. } => history[tx].as_mut().unwrap().2 = State::ChargedBack,
        }
        for client in 0..12 {
            let own: Vec<(i64, State)> = history
                .iter()
                .flatten()
                .filter(|entry| entry.0 == client)
                .map(|entry| (entry.1, entry.2))
                .collect();
            let Some(account) = engine.account(client) else {
                assert!(own.is_empty(), "client {client} should have an account");
                continue;
            };
            assert!(!own.is_empty(), "client {client} should have no account");
            let held: i64 = own
                .iter()
                .filter(|entry| entry.1 == State::Disputed)
                .map(|entry| entry.0.abs())
                .sum();
            let available: i64 = own
                .iter()
                .filter(|entry| {
                    entry.1 == State::Normal || (entry.1 == State::Disputed && entry.0 < 0)
                })
                .map(|entry| entry.0)
                .sum();
            let text = |units: i64| {
                let sign = if units < 0 { "-" } else { "" };
                format!("{sign}{}.{:04}", units.abs() / 10_000, units.abs() % 10_000)
            };
            assert_eq!(account.held(), dec(&text(held)));
            assert_eq!(account.available(), dec(&text(available)));
            assert_eq!(account.total(), dec(&text(available + held)));
            assert_eq!(
                account.is_locked(),
                own.iter().any(|entry| entry.1 == State::ChargedBack)
            );
        }
    }
    assert!(engine.accounts().iter().any(|account| account.is_locked()));
}

#[test]
fn a_balance_spent_to_zero_can_be_paid_into_again() {
    let mut engine = Engine::new();
    engine.apply(deposit(1, 1, "1.0000")).unwrap();
    engine.apply(withdrawal(1, 2, "1.0000")).unwrap();
    engine.apply(deposit(1, 3, "1.5")).unwrap();
    assert_eq!(engine.account(1).unwrap().total(), dec("1.5"));
}

#[test]
fn a_resolution_restores_the_balances_before_the_dispute() {
    for transactions in [
        vec![deposit(1, 1, "5.25")],
        vec![deposit(1, 1, "5.25"), withdrawal(1, 2, "5.25")],
        vec![deposit(1, 1, "1.5"), deposit(1, 2, "2"), withdrawal(1, 3, "0.25")],
    ] {
        let mut engine = Engine::new();
        for &transaction in &transactions {
            engine.apply(transaction).unwrap();
        }
        let tx = transactions.len() as u32;
        let account = engine.account(1).unwrap();
        let (available, held) = (account.available(), account.held());
        for _ in 0..3 {
            engine.apply(dispute(1, tx)).unwrap();
            engine.apply(resolve(1, tx)).unwrap();
            let account = engine.account(1).unwrap();
            assert_eq!(account.available(), available);
            assert_eq!(account.held(), held);
        }
    }
}

#[test]
fn a_resolved_dispute_is_closed_until_it_is_raised_again() {
    for transactions in [vec![deposit(1, 1, "5")], vec![deposit(1, 2, "5"), withdrawal(1, 1, "2")]] {
        let mut engine = Engine::new();
        for transaction in transactions {
            engine.apply(transaction).unwrap();
        }
        engine.apply(dispute(1, 1)).unwrap();
        let disputed = balances(&engine, 1);
        engine.apply(resolve(1, 1)).unwrap();
        assert_eq!(engine.apply(resolve(1, 1)), Err(Reject::NotDisputed(1)));
        assert_eq!(engine.apply(chargeback(1, 1)), Err(Reject::NotDisputed(1)));
        engine.apply(dispute(1, 1)).unwrap();
        assert_eq!(balances(&engine, 1), disputed);
    }
}

#[test]
fn a_dispute_can_be_settled_however_large_the_balance() {
    // The amounts are as large as a balance with one decimal place can be.
    let large = "7922816251426433759354395033";
    for settle in [resolve, chargeback] {
        let mut engine = Engine::new();
        engine.apply(deposit(1, 1, large)).unwrap();
        engine.apply(deposit(1, 2, "0.5")).unwrap();
        engine.apply(dispute(1, 2)).unwrap();
        engine.apply(settle(1, 2)).unwrap();

        let mut engine = Engine::new();
        engine.apply(deposit(1, 1, large)).unwrap();
        engine.apply(withdrawal(1, 2, large)).unwrap();
        engine.apply(deposit(1, 3, "0.5")).unwrap();
        engine.apply(dispute(1, 2)).unwrap();
        engine.apply(settle(1, 2)).unwrap();
    }
}

#[test]
fn a_dispute_stays_open_to_settlement_while_other_things_happen() {
    for settle in [resolve, chargeback] {
        let mut engine = Engine::new();
        for transaction in [
            deposit(1, 1, "792281625142643375935439"),
            deposit(1, 2, "3.5"),
            withdrawal(1, 3, "792281625142643375935439"),
            dispute(1, 1),
            dispute(1, 3),
            deposit(1, 4, "0.0001"),
            dispute(1, 4),
            resolve(1, 4),
            withdrawal(1, 5, "3.5001"),
        ] {
            if let Err(error) = engine.apply(transaction) {
                assert!(matches!(error, Reject::InsufficientFunds { .. }), "{error:?}");
            }
        }
        engine.apply(resolve(1, 3)).unwrap();
        engine.apply(settle(1, 1)).unwrap();
    }
}

#[test]
fn with_debts_an_undone_move_may_need_more_digits_than_there_are() {
    // Only an account that is already deep in debt gets here: with one decimal
    // place, the balance from before no longer fits.
    let mut account = Account::new(1);
    account.credit(dec("-7922816251426433759354395035")).unwrap();
    account.add_held(dec("1")).unwrap();
    account.add_held(dec("1.5")).unwrap();
    assert_eq!(account.remove_held(dec("1.5")), Err(Reject::Unrepresentable));
    assert_eq!(account.held(), dec("2.5"));
}

#[test]
fn an_open_account_is_never_in_debt_but_a_locked_one_can_be() {
    let mut engine = Engine::new();
    for transaction in [deposit(1, 1, "100"), withdrawal(1, 2, "100"), dispute(1, 1)] {
        engine.apply(transaction).unwrap();
    }
    assert_eq!(balances(&engine, 1), ("-100".into(), "100".into(), "0".into(), false));
    engine.apply(chargeback(1, 1)).unwrap();
    assert_eq!(balances(&engine, 1), ("-100".into(), "0".into(), "-100".into(), true));
}

#[test]
fn a_chargeback_reverses_a_deposit_and_a_withdrawal() {
    let mut engine = Engine::new();
    for transaction in [
        deposit(1, 1, "7"),
        deposit(1, 2, "5"),
        dispute(1, 2),
        chargeback(1, 2),
        deposit(2, 3, "7"),
        withdrawal(2, 4, "5"),
        dispute(2, 4),
        chargeback(2, 4),
    ] {
        engine.apply(transaction).unwrap();
    }
    assert_eq!(balances(&engine, 1), ("7".into(), "0".into(), "7".into(), true));
    assert_eq!(balances(&engine, 2), ("7".into(), "0".into(), "7".into(), true));
}

#[test]
fn a_locked_account_stays_as_it_is_while_others_move() {
    let mut engine = Engine::new();
    for transaction in [deposit(1, 1, "5"), dispute(1, 1), chargeback(1, 1)] {
        engine.apply(transaction).unwrap();
    }
    let locked = balances(&engine, 1);
    for refused in [deposit(1, 2, "1"), withdrawal(1, 3, "1"), dispute(1, 1), resolve(1, 1)] {
        assert_eq!(engine.apply(refused), Err(Reject::AccountLocked(1)));
        engine.apply(deposit(2, refused.tx() + 100, "1")).ok();
        assert_eq!(balances(&engine, 1), locked);
    }
}

#[test]
fn the_first_transaction_with_an_id_keeps_it() {
    let mut engine = Engine::new();
    engine.apply(deposit(1, 1, "5")).unwrap();
    assert_eq!(engine.apply(deposit(2, 1, "9")), Err(Reject::DuplicateTx(1)));
    assert_eq!(engine.apply(withdrawal(1, 1, "2")), Err(Reject::DuplicateTx(1)));
    engine.apply(dispute(1, 1)).unwrap();
    assert_eq!(balances(&engine, 1).1, "5");
}

#[test]
fn a_withdrawal_never_takes_a_client_below_zero() {
    let mut engine = Engine::new();
    engine.apply(deposit(1, 1, "5")).unwrap();
    engine.apply(deposit(1, 2, "3")).unwrap();
    engine.apply(dispute(1, 1)).unwrap();
    assert!(matches!(
        engine.apply(withdrawal(1, 3, "3.0001")),
        Err(Reject::InsufficientFunds { client: 1, .. })
    ));
    engine.apply(withdrawal(1, 4, "3")).unwrap();
    assert_eq!(engine.account(1).unwrap().available(), Amount::zero());
}

#[test]
fn skipped_rows_make_no_difference_to_the_outcome() {
    let with = "type,client,tx,amount\n\
                deposit,1,1,5\n\
                withdrawal,1,2,9\n\
                nonsense,1,3,1\n\
                deposit,one,4,1\n\
                deposit,2,5,1,000\n\
                deposit,2,6,2.5\n\
                dispute,2,1\n\
                dispute,1,1\n";
    let without = "type,client,tx,amount\n\
                   deposit,1,1,5\n\
                   deposit,2,6,2.5\n\
                   dispute,1,1\n";
    let outcome = |input: &str| {
        let (mut output, mut warnings) = (String::new(), Vec::new());
        run(input.as_bytes(), &mut output, &mut warnings).unwrap();
        (output, warnings)
    };
    let (output, warnings) = outcome(with);
    assert_eq!(outcome(without), (output, Vec::new()));
    let rows: Vec<&str> = warnings
        .iter()
        .map(|warning| warning.split(": ").nth(1).unwrap())
        .collect();
    assert_eq!(rows, ["row 2", "row 3", "row 4", "row 5", "row 7"]);
}

#[test]
fn the_order_of_the_columns_makes_no_difference() {
    let rows = [["deposit", "1", "1", "5"], ["withdrawal", "1", "2", "1.5"], ["dispute", "1", "2", ""]];
    let names = ["type", "client", "tx", "amount"];
    let mut outputs = Vec::new();
    for order in [[0, 1, 2, 3], [3, 2, 1, 0], [2, 0, 3, 1]] {
        let mut input = String::new();
        for line in std::iter::once(names).chain(rows) {
            let fields: Vec<&str> = order.iter().map(|&column| line[column]).collect();
            input.push_str(&fields.join(","));
            input.push('\n');
        }
        let (mut output, mut warnings) = (String::new(), Vec::new());
        run(input.as_bytes(), &mut output, &mut warnings).unwrap();
        assert!(warnings.is_empty(), "{warnings:?}");
        outputs.push(output);
    }
    assert_eq!(outputs[0], "client,available,held,total,locked\n1,3.5,1.5,5,false\n");
    assert!(outputs.iter().all(|output| *output == outputs[0]));
}

#[test]
fn a_new_engine_and_a_default_one_are_empty() {
    assert!(Engine::new().accounts().is_empty());
    assert!(Engine::default().accounts().is_empty());
    assert!(Engine::new().account(0).is_none());
}
