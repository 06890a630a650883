//! What holds of the ledger over any number of transactions.
use vstd::prelude::*;

use crate::account;
use crate::account::AccountView;
use crate::error::{Reject, RejectView};
use crate::ledger;
use crate::ledger::{DisputeState, EntryView, LedgerView, Movement};
use crate::money;
use crate::record::TransactionView;

verus! {

/// The ledger after one transaction, which leaves no trace if it is refused.
pub open spec fn after_one(ledger: LedgerView, transaction: TransactionView) -> LedgerView {
    match ledger.applied(transaction) {
        Ok(next) => next,
        Err(_) => ledger,
    }
}

/// The ledger after a sequence of transactions, applied in order.
pub open spec fn after(ledger: LedgerView, transactions: Seq<TransactionView>) -> LedgerView
    decreases transactions.len(),
{
    if transactions.len() == 0 {
        ledger
    } else {
        after_one(after(ledger, transactions.drop_last()), transactions.last())
    }
}

/// Whether every amount in a sequence of transactions fits a decimal.
pub open spec fn all_valid(transactions: Seq<TransactionView>) -> bool {
    forall|i: int| 0 <= i < transactions.len() ==> #[trigger] transactions[i].valid()
}

/// A ledger with no history is consistent.
pub proof fn an_empty_ledger_is_consistent()
    ensures
        ledger::empty().consistent(),
{
}

/// Whatever transactions an engine has been through, its books balance.
pub proof fn the_books_balance_forever(ledger: LedgerView, transactions: Seq<TransactionView>)
    requires
        ledger.consistent(),
        all_valid(transactions),
    ensures
        after(ledger, transactions).consistent(),
    decreases transactions.len(),
{
    if transactions.len() > 0 {
        let front = transactions.drop_last();
        assert forall|i: int| 0 <= i < front.len() implies #[trigger] front[i].valid() by {
            assert(front[i] == transactions[i]);
        }
        the_books_balance_forever(ledger, front);
        ledger::the_books_always_balance(after(ledger, front), transactions.last());
    }
}

/// A locked account turns away every transaction of its client, whatever it is.
pub proof fn a_locked_account_accepts_nothing(ledger: LedgerView, transaction: TransactionView)
    requires
        ledger.is_locked(transaction.client()),
    ensures
        ledger.applied(transaction) == Err::<LedgerView, RejectView>(
            RejectView::AccountLocked(transaction.client()),
        ),
{
}

/// An account never disappears, and once it is locked it stays as it is for ever.
pub proof fn a_locked_account_never_changes(
    ledger: LedgerView,
    transactions: Seq<TransactionView>,
    client: u16,
)
    requires
        ledger.consistent(),
        all_valid(transactions),
        ledger.accounts.contains_key(client),
    ensures
        after(ledger, transactions).accounts.contains_key(client),
        ledger.is_locked(client) ==> after(ledger, transactions).accounts[client]
            == ledger.accounts[client],
    decreases transactions.len(),
{
    if transactions.len() > 0 {
        let front = transactions.drop_last();
        assert forall|i: int| 0 <= i < front.len() implies #[trigger] front[i].valid() by {
            assert(front[i] == transactions[i]);
        }
        a_locked_account_never_changes(ledger, front, client);
        the_books_balance_forever(ledger, front);
        ledger::an_accepted_transaction_touches_one_account_and_one_record(
            after(ledger, front),
            transactions.last(),
        );
    }
}

/// A transaction on record stays on record for the client, the movement and the
/// amount it was first recorded with, and a charged-back one stays charged back.
pub proof fn records_are_permanent(
    ledger: LedgerView,
    transactions: Seq<TransactionView>,
    tx: u32,
)
    requires
        ledger.consistent(),
        all_valid(transactions),
        ledger.transactions.contains_key(tx),
    ensures
        ({
            let before = ledger.transactions[tx];
            let later = after(ledger, transactions);
            &&& later.transactions.contains_key(tx)
            &&& later.transactions[tx] == (EntryView {
                state: later.transactions[tx].state,
                ..before
            })
            &&& before.state == DisputeState::ChargedBack ==> later.transactions[tx] == before
        }),
    decreases transactions.len(),
{
    if transactions.len() > 0 {
        let front = transactions.drop_last();
        assert forall|i: int| 0 <= i < front.len() implies #[trigger] front[i].valid() by {
            assert(front[i] == transactions[i]);
        }
        records_are_permanent(ledger, front, tx);
        the_books_balance_forever(ledger, front);
        let middle = after(ledger, front);
        ledger::an_accepted_transaction_touches_one_account_and_one_record(
            middle,
            transactions.last(),
        );
        ledger::lemma_account_follows_record(middle, transactions.last());
    }
}

/// A record goes through the dispute lifecycle step by step: it begins as normal,
/// only a normal one can be disputed, and only a disputed one can be resolved,
/// which makes it normal again, or charged back.
pub proof fn how_a_record_changes_state(ledger: LedgerView, transaction: TransactionView)
    requires
        ledger.applied(transaction) is Ok,
    ensures
        ({
            let tx = transaction.tx();
            let known = ledger.transactions.contains_key(tx);
            let before = ledger.transactions[tx].state;
            let after = ledger.applied(transaction)->Ok_0.transactions[tx].state;
            match transaction {
                TransactionView::Deposit { .. } => !known && after == DisputeState::Normal,
                TransactionView::Withdrawal { .. } => !known && after == DisputeState::Normal,
                TransactionView::Dispute { .. } => known && before == DisputeState::Normal && after
                    == DisputeState::Disputed,
                TransactionView::Resolve { .. } => known && before == DisputeState::Disputed
                    && after == DisputeState::Normal,
                TransactionView::Chargeback { .. } => known && before == DisputeState::Disputed
                    && after == DisputeState::ChargedBack,
            }
        }),
{
}

/// A charged-back transaction is always behind a lock: whoever asks for it is
/// turned away as locked out or as someone else, and never gets as far as its
/// state.
pub proof fn a_charged_back_transaction_is_behind_a_lock(
    ledger: LedgerView,
    transaction: TransactionView,
)
    requires
        ledger.consistent(),
    ensures
        !(ledger.applied(transaction) matches Err(RejectView::ChargedBack(_))),
{
    let client = transaction.client();
    let tx = transaction.tx();
    if ledger.charged_back(client, tx) {
        assert(ledger.accounts.contains_key(client));
        assert(ledger.balanced(client));
    }
    if ledger.accounts.contains_key(client) {
        assert(ledger.balanced(client));
    }
}

/// The first transaction with an ID wins: a deposit or withdrawal that repeats an
/// ID on record is refused as a duplicate, unless the client is locked out anyway.
pub proof fn duplicates_are_refused(ledger: LedgerView, transaction: TransactionView)
    requires
        transaction is Deposit || transaction is Withdrawal,
        ledger.transactions.contains_key(transaction.tx()),
    ensures
        ledger.applied(transaction) == Err::<LedgerView, RejectView>(
            if ledger.is_locked(transaction.client()) {
                RejectView::AccountLocked(transaction.client())
            } else {
                RejectView::DuplicateTx(transaction.tx())
            },
        ),
{
}

/// Every transaction on record has its account, and that belongs to the client the
/// transaction was recorded for.
pub proof fn a_recorded_transaction_has_its_account(ledger: LedgerView, tx: u32)
    requires
        ledger.consistent(),
        ledger.transactions.contains_key(tx),
    ensures
        ledger.accounts.contains_key(ledger.transactions[tx].client),
        ledger.accounts[ledger.transactions[tx].client].client == ledger.transactions[tx].client,
{
    assert(ledger.balanced(ledger.transactions[tx].client));
}

/// A dispute, a resolution or a chargeback is accepted only from the client who
/// owns the transaction, and only where that is on record.
pub proof fn only_the_owner_can_dispute(ledger: LedgerView, transaction: TransactionView)
    requires
        transaction is Dispute || transaction is Resolve || transaction is Chargeback,
        ledger.applied(transaction) is Ok,
    ensures
        ledger.records(transaction.client(), transaction.tx()),
{
}

/// Clients do not interact: another client's account and transactions are the same
/// after a transaction as before it.
pub proof fn clients_are_independent(
    ledger: LedgerView,
    transaction: TransactionView,
    other: u16,
    tx: u32,
)
    requires
        ledger.consistent(),
        other != transaction.client(),
    ensures
        ({
            let next = after_one(ledger, transaction);
            &&& next.accounts.contains_key(other) == ledger.accounts.contains_key(other)
            &&& next.accounts.contains_key(other) ==> next.accounts[other]
                == ledger.accounts[other]
            &&& next.records(other, tx) == ledger.records(other, tx)
            &&& next.records(other, tx) ==> next.transactions[tx] == ledger.transactions[tx]
        }),
{
}

/// What becomes of a transaction depends on its client's account and on what is on
/// record under its ID, and on nothing else in the ledger.
pub proof fn a_verdict_depends_on_one_account_and_one_record(
    left: LedgerView,
    right: LedgerView,
    transaction: TransactionView,
)
    requires
        left.consistent(),
        right.consistent(),
        left.accounts.contains_key(transaction.client()) == right.accounts.contains_key(
            transaction.client(),
        ),
        left.accounts.contains_key(transaction.client()) ==> left.accounts[transaction.client()]
            == right.accounts[transaction.client()],
        left.transactions.contains_key(transaction.tx()) == right.transactions.contains_key(
            transaction.tx(),
        ),
        left.transactions.contains_key(transaction.tx()) ==> left.transactions[transaction.tx()]
            == right.transactions[transaction.tx()],
    ensures
        match (left.applied(transaction), right.applied(transaction)) {
            (Ok(l), Ok(r)) => {
                &&& l.accounts[transaction.client()] == r.accounts[transaction.client()]
                &&& l.transactions[transaction.tx()] == r.transactions[transaction.tx()]
            },
            (Err(l), Err(r)) => l == r,
            _ => false,
        },
{
}

/// A client has an account exactly when one of their deposits or withdrawals has
/// been accepted: nothing that is refused creates one, and no dispute does.
pub proof fn accounts_come_from_accepted_movements(
    ledger: LedgerView,
    transaction: TransactionView,
    client: u16,
)
    requires
        ledger.consistent(),
        !ledger.accounts.contains_key(client),
        after_one(ledger, transaction).accounts.contains_key(client),
    ensures
        ledger.applied(transaction) is Ok,
        transaction is Deposit || transaction is Withdrawal,
        transaction.client() == client,
{
}

/// The dispute of a client's transaction.
pub open spec fn dispute_of(client: u16, tx: u32) -> TransactionView {
    TransactionView::Dispute { client, tx }
}

/// The resolution of a client's dispute.
pub open spec fn resolve_of(client: u16, tx: u32) -> TransactionView {
    TransactionView::Resolve { client, tx }
}

/// The chargeback of a client's disputed transaction.
pub open spec fn chargeback_of(client: u16, tx: u32) -> TransactionView {
    TransactionView::Chargeback { client, tx }
}

/// A resolution undoes its dispute: every record is what it was before, and so is
/// every account but for trailing zeros in its balances. The one thing that can
/// stand in its way is a balance too large for the decimal places it would need.
pub proof fn a_resolution_undoes_its_dispute(ledger: LedgerView, client: u16, tx: u32)
    requires
        ledger.consistent(),
        ledger.applied(dispute_of(client, tx)) is Ok,
    ensures
        ({
            let disputed = ledger.applied(dispute_of(client, tx))->Ok_0;
            match disputed.applied(resolve_of(client, tx)) {
                Ok(resolved) => {
                    &&& resolved.transactions == ledger.transactions
                    &&& resolved.accounts == ledger.accounts.insert(
                        client,
                        resolved.accounts[client],
                    )
                    &&& account::same_balances(resolved.accounts[client], ledger.accounts[client])
                    &&& resolved.accounts[client].total().units()
                        == ledger.accounts[client].total().units()
                    &&& !resolved.accounts[client].locked
                },
                Err(why) => why == RejectView::Unrepresentable,
            }
        }),
{
    let dispute = dispute_of(client, tx);
    let resolve = resolve_of(client, tx);
    let disputed = ledger.applied(dispute)->Ok_0;
    ledger::the_books_always_balance(ledger, dispute);
    ledger::lemma_account_follows_record(ledger, dispute);
    ledger::lemma_account_follows_record(disputed, resolve);
    if disputed.applied(resolve) is Ok {
        let resolved = disputed.applied(resolve)->Ok_0;
        assert(resolved.transactions =~= ledger.transactions);
        assert(resolved.accounts =~= ledger.accounts.insert(client, resolved.accounts[client]));
        assert(ledger.balanced(client));
        account::the_total_is_available_plus_held(ledger.accounts[client]);
        account::the_total_is_available_plus_held(resolved.accounts[client]);
    }
}

/// A resolved dispute is closed: resolving it again or charging it back is refused,
/// because the transaction is no longer under dispute.
pub proof fn a_resolved_dispute_is_closed(ledger: LedgerView, client: u16, tx: u32)
    requires
        ledger.consistent(),
        ledger.applied(resolve_of(client, tx)) is Ok,
    ensures
        ({
            let resolved = ledger.applied(resolve_of(client, tx))->Ok_0;
            let refusal = Err::<LedgerView, RejectView>(RejectView::NotDisputed(tx));
            &&& resolved.applied(resolve_of(client, tx)) == refusal
            &&& resolved.applied(chargeback_of(client, tx)) == refusal
        }),
{
    ledger::lemma_account_follows_record(ledger, resolve_of(client, tx));
}

/// Where the client's balances and the amount fit with `places` decimal places
/// before and during a dispute, the dispute is accepted, and so is its resolution.
pub proof fn disputes_can_be_resolved_where_balances_fit(
    ledger: LedgerView,
    client: u16,
    tx: u32,
    places: nat,
)
    requires
        ledger.consistent(),
        !ledger.is_locked(client),
        ledger.records(client, tx),
        ledger.transactions[tx].state == DisputeState::Normal,
        ledger.transactions[tx].amount.scale <= places,
        ledger.accounts[client].fits_within(places),
        ({
            let entry = ledger.transactions[tx];
            let moved = entry.amount.at_scale(places);
            let available = ledger.accounts[client].available.at_scale(places);
            let held = ledger.accounts[client].held.at_scale(places);
            &&& money::countable(held + moved)
            &&& entry.movement == Movement::Deposit ==> money::countable(available - moved)
            &&& entry.movement == Movement::Withdrawal ==> money::countable(
                available + held + moved,
            )
        }),
    ensures
        ledger.applied(dispute_of(client, tx)) is Ok,
        ledger.applied(dispute_of(client, tx))->Ok_0.applied(resolve_of(client, tx)) is Ok,
{
    let entry = ledger.transactions[tx];
    let account = ledger.accounts[client];
    assert(ledger.accounts.contains_key(client));
    assert(ledger.balanced(client));
    account::balances_that_fit_are_accepted(account, entry.amount, places);
    account::freezing_keeps_the_total(account, entry.amount);
    account::holding_a_refund_raises_the_total(account, entry.amount);
    let disputed = ledger.applied(dispute_of(client, tx))->Ok_0;
    account::balances_that_fit_are_accepted(
        disputed.accounts[client],
        entry.amount,
        places,
    );
}

/// A chargeback reverses the transaction it is about: from before the dispute to
/// after the chargeback, a deposit's amount leaves the client's available funds
/// and a withdrawal's comes back to them, held funds are as they were, and the
/// account is locked with the transaction charged back.
pub proof fn a_chargeback_reverses_the_transaction(ledger: LedgerView, client: u16, tx: u32)
    requires
        ledger.consistent(),
        ledger.applied(dispute_of(client, tx)) is Ok,
        ledger.applied(dispute_of(client, tx))->Ok_0.applied(chargeback_of(client, tx)) is Ok,
    ensures
        ({
            let disputed = ledger.applied(dispute_of(client, tx))->Ok_0;
            let reversed = disputed.applied(chargeback_of(client, tx))->Ok_0;
            let entry = ledger.transactions[tx];
            let before = ledger.accounts[client];
            let account = reversed.accounts[client];
            let amount = entry.amount.units();
            &&& account.available.units() == before.available.units() + match entry.movement {
                Movement::Deposit => -amount,
                Movement::Withdrawal => amount,
            }
            &&& account.held.units() == before.held.units()
            &&& account.total().units() == account.available.units() + before.held.units()
            &&& account.locked
            &&& reversed.charged_back(client, tx)
            &&& reversed.accounts == ledger.accounts.insert(client, account)
        }),
{
    let dispute = dispute_of(client, tx);
    let disputed = ledger.applied(dispute)->Ok_0;
    ledger::the_books_always_balance(ledger, dispute);
    ledger::lemma_account_follows_record(ledger, dispute);
    ledger::lemma_account_follows_record(disputed, chargeback_of(client, tx));
    let reversed = disputed.applied(chargeback_of(client, tx))->Ok_0;
    account::the_total_is_available_plus_held(reversed.accounts[client]);
    assert(reversed.accounts =~= ledger.accounts.insert(client, reversed.accounts[client]));
}

/// Disputing a deposit or charging back a withdrawal keeps the client's total;
/// disputing a withdrawal raises it by the amount, and charging back a deposit or
/// resolving a withdrawal lowers it by as much.
pub proof fn how_disputes_change_the_total(ledger: LedgerView, transaction: TransactionView)
    requires
        ledger.consistent(),
        transaction is Dispute || transaction is Resolve || transaction is Chargeback,
        ledger.applied(transaction) is Ok,
    ensures
        ({
            let client = transaction.client();
            let entry = ledger.transactions[transaction.tx()];
            let before = ledger.accounts[client].total().units();
            let after = ledger.applied(transaction)->Ok_0.accounts[client].total().units();
            after - before == match (transaction, entry.movement) {
                (TransactionView::Dispute { .. }, Movement::Withdrawal) => entry.amount.units(),
                (TransactionView::Resolve { .. }, Movement::Withdrawal) => -entry.amount.units(),
                (TransactionView::Chargeback { .. }, Movement::Deposit) => -entry.amount.units(),
                _ => 0,
            }
        }),
{
    let client = transaction.client();
    ledger::lemma_account_follows_record(ledger, transaction);
    assert(ledger.accounts.contains_key(client));
    assert(ledger.balanced(client));
    account::the_total_is_available_plus_held(ledger.accounts[client]);
    account::the_total_is_available_plus_held(
        ledger.applied(transaction)->Ok_0.accounts[client],
    );
}

/// A resolved dispute can be raised again: whatever the balances, if the dispute
/// and its resolution were accepted, so is the dispute the second time, and it has
/// the same effect as the first.
pub proof fn a_resolved_dispute_can_be_raised_again(ledger: LedgerView, client: u16, tx: u32)
    requires
        ledger.consistent(),
        ledger.applied(dispute_of(client, tx)) is Ok,
        ledger.applied(dispute_of(client, tx))->Ok_0.applied(resolve_of(client, tx)) is Ok,
    ensures
        ({
            let disputed = ledger.applied(dispute_of(client, tx))->Ok_0;
            let resolved = disputed.applied(resolve_of(client, tx))->Ok_0;
            let again = resolved.applied(dispute_of(client, tx));
            &&& again is Ok
            &&& again->Ok_0.transactions == disputed.transactions
            &&& again->Ok_0.accounts == disputed.accounts.insert(
                client,
                again->Ok_0.accounts[client],
            )
            &&& account::same_balances(again->Ok_0.accounts[client], disputed.accounts[client])
        }),
{
    let dispute = dispute_of(client, tx);
    let resolve = resolve_of(client, tx);
    let disputed = ledger.applied(dispute)->Ok_0;
    let resolved = disputed.applied(resolve)->Ok_0;
    ledger::the_books_always_balance(ledger, dispute);
    ledger::the_books_always_balance(disputed, resolve);
    ledger::lemma_account_follows_record(disputed, resolve);
    let account = ledger.accounts[client];
    let entry = ledger.transactions[tx];
    assert(ledger.balanced(client));
    account::what_was_undone_can_be_done_again(account, entry.amount);
    assert(resolved.accounts[client].client == client);
    let again = resolved.applied(dispute)->Ok_0;
    ledger::lemma_account_follows_record(ledger, dispute);
    ledger::lemma_account_follows_record(resolved, dispute);
    assert(again.transactions =~= disputed.transactions);
    assert(again.accounts =~= disputed.accounts.insert(client, again.accounts[client]));
}

/// The accounts are listed in strictly ascending client order.
pub proof fn accounts_are_listed_in_client_order(ledger: LedgerView, i: int, j: int)
    requires
        ledger.consistent(),
        0 <= i < j < ledger.listing().len(),
    ensures
        ledger.listing()[i].client < ledger.listing()[j].client,
{
    lemma_listed(ledger, ledger::CLIENTS as nat);
}

/// An account is listed exactly when the ledger has it.
pub proof fn every_account_is_listed(ledger: LedgerView, account: AccountView)
    requires
        ledger.consistent(),
    ensures
        ledger.listing().contains(account) <==> ledger.accounts.contains_key(account.client)
            && ledger.accounts[account.client] == account,
{
    lemma_listed(ledger, ledger::CLIENTS as nat);
}

/// The listing of the clients below a number is in strictly ascending order, and
/// holds those accounts and no others.
proof fn lemma_listed(ledger: LedgerView, below: nat)
    requires
        ledger.consistent(),
        below <= ledger::CLIENTS,
    ensures
        ({
            let listed = ledger::listed(ledger.accounts, below);
            &&& forall|i: int, j: int|
                0 <= i < j < listed.len() ==> listed[i].client < listed[j].client
            &&& forall|i: int|
                0 <= i < listed.len() ==> (#[trigger] listed[i]).client < below
                    && ledger.accounts.contains_key(listed[i].client)
                    && ledger.accounts[listed[i].client] == listed[i]
            &&& forall|client: u16| #[trigger]
                ledger.accounts.contains_key(client) && client < below ==> listed.contains(
                    ledger.accounts[client],
                )
        }),
    decreases below,
{
    if below > 0 {
        lemma_listed(ledger, (below - 1) as nat);
        let client = (below - 1) as u16;
        let before = ledger::listed(ledger.accounts, (below - 1) as nat);
        let listed = ledger::listed(ledger.accounts, below);
        assert(ledger.accounts.contains_key(client) ==> ledger.balanced(client));
        assert forall|c: u16| #[trigger] ledger.accounts.contains_key(c) && c < below implies
            listed.contains(ledger.accounts[c]) by {
            if c == client {
                assert(listed.last() == ledger.accounts[c]);
            } else {
                assert(before.contains(ledger.accounts[c]));
                let i = before.index_of(ledger.accounts[c]);
                assert(listed[i] == ledger.accounts[c]);
            }
        }
    }
}

/// What a transaction paid in or out when it was recorded, whatever has become of
/// it since.
pub open spec fn movement_share(entry: EntryView) -> int {
    match entry.movement {
        Movement::Deposit => entry.amount.units(),
        Movement::Withdrawal => -entry.amount.units(),
    }
}

/// The movement share as a function.
pub open spec fn movement_shares() -> spec_fn(EntryView) -> int {
    |entry: EntryView| movement_share(entry)
}

/// What a client has paid in, less what they have taken out, disputes aside.
pub open spec fn paid_in(ledger: LedgerView, client: u16) -> int {
    ledger::summed(
        ledger.transactions,
        client,
        movement_shares(),
        ledger::TRANSACTION_IDS as nat,
    )
}

/// Whether a deposit or withdrawal is of a positive amount.
pub open spec fn is_positive(transaction: TransactionView) -> bool {
    match transaction {
        TransactionView::Deposit { amount, .. } => amount.units() > 0,
        TransactionView::Withdrawal { amount, .. } => amount.units() > 0,
        _ => true,
    }
}

/// What holds of a ledger that has only ever been given positive amounts, as every
/// parsed row has them: it is consistent, every amount on record is positive, held
/// funds have at least the decimal places of every amount in dispute, and no client
/// whose account is open has taken out more than they have paid in.
pub open spec fn prudent(ledger: LedgerView) -> bool {
    &&& ledger.consistent()
    &&& forall|tx: u32| #[trigger]
        ledger.transactions.contains_key(tx) ==> ledger.transactions[tx].amount.units() > 0
    &&& forall|tx: u32| #[trigger]
        ledger.transactions.contains_key(tx) ==> (ledger.transactions[tx].state
            == DisputeState::Disputed ==> ledger.transactions[tx].amount.scale
            <= ledger.accounts[ledger.transactions[tx].client].held.scale)
    &&& forall|client: u16| #[trigger]
        ledger.accounts.contains_key(client) && !ledger.accounts[client].locked ==> paid_in(
            ledger,
            client,
        ) >= 0
}

/// Shares that are no larger add up to no more.
proof fn lemma_summed_in_order(
    transactions: Map<u32, EntryView>,
    client: u16,
    lower: spec_fn(EntryView) -> int,
    upper: spec_fn(EntryView) -> int,
    below: nat,
)
    requires
        forall|tx: u32|
            transactions.contains_key(tx) && transactions[tx].client == client ==> #[trigger] lower(
                transactions[tx],
            ) <= upper(transactions[tx]),
    ensures
        ledger::summed(transactions, client, lower, below) <= ledger::summed(
            transactions,
            client,
            upper,
            below,
        ),
    decreases below,
{
    if below > 0 {
        lemma_summed_in_order(transactions, client, lower, upper, (below - 1) as nat);
        let tx = (below - 1) as u32;
        if transactions.contains_key(tx) && transactions[tx].client == client {
            assert(lower(transactions[tx]) <= upper(transactions[tx]));
        }
    }
}

/// The sum of two kinds of shares is the sum of the shares taken together.
proof fn lemma_summed_together(
    transactions: Map<u32, EntryView>,
    client: u16,
    left: spec_fn(EntryView) -> int,
    right: spec_fn(EntryView) -> int,
    below: nat,
)
    ensures
        ledger::summed(transactions, client, left, below) + ledger::summed(
            transactions,
            client,
            right,
            below,
        ) == ledger::summed(
            transactions,
            client,
            |entry: EntryView| left(entry) + right(entry),
            below,
        ),
    decreases below,
{
    if below > 0 {
        lemma_summed_together(transactions, client, left, right, (below - 1) as nat);
    }
}

/// With positive amounts, held funds are never negative.
pub proof fn held_funds_are_never_negative(ledger: LedgerView, client: u16)
    requires
        prudent(ledger),
        ledger.accounts.contains_key(client),
    ensures
        ledger.accounts[client].held.units() >= 0,
{
    let none = |entry: EntryView| 0int;
    let ids = ledger::TRANSACTION_IDS as nat;
    assert(ledger.balanced(client));
    lemma_summed_in_order(ledger.transactions, client, none, ledger::held_shares(), ids);
    lemma_summed_none(ledger.transactions, client, ids);
}

/// A sum of shares none of which is negative is at least any one of them.
proof fn lemma_summed_at_least_one(
    transactions: Map<u32, EntryView>,
    client: u16,
    share: spec_fn(EntryView) -> int,
    tx: u32,
    below: nat,
)
    requires
        below <= ledger::TRANSACTION_IDS,
        forall|id: u32|
            transactions.contains_key(id) && transactions[id].client == client
                ==> #[trigger] share(transactions[id]) >= 0,
    ensures
        ledger::summed(transactions, client, share, below) >= 0,
        tx < below ==> ledger::summed(transactions, client, share, below) >= ledger::part(
            transactions,
            client,
            share,
            tx,
        ),
    decreases below,
{
    if below > 0 {
        lemma_summed_at_least_one(transactions, client, share, tx, (below - 1) as nat);
        let last = (below - 1) as u32;
        if transactions.contains_key(last) && transactions[last].client == client {
            assert(share(transactions[last]) >= 0);
        }
    }
}

/// With positive amounts, an amount in dispute is among the held funds.
pub proof fn disputed_amounts_are_held(ledger: LedgerView, client: u16, tx: u32)
    requires
        prudent(ledger),
        ledger.records(client, tx),
        ledger.transactions[tx].state == DisputeState::Disputed,
    ensures
        0 < ledger.transactions[tx].amount.units() <= ledger.accounts[client].held.units(),
{
    let ids = ledger::TRANSACTION_IDS as nat;
    assert(ledger.balanced(client));
    lemma_summed_at_least_one(ledger.transactions, client, ledger::held_shares(), tx, ids);
}

/// Shares of nothing add up to nothing.
proof fn lemma_summed_none(transactions: Map<u32, EntryView>, client: u16, below: nat)
    ensures
        ledger::summed(transactions, client, |entry: EntryView| 0int, below) == 0,
    decreases below,
{
    if below > 0 {
        lemma_summed_none(transactions, client, (below - 1) as nat);
    }
}

/// With positive amounts, an open account is never in debt: its total is at least
/// what the client has paid in less what they have taken out, and that is never
/// negative. Available funds can be, while a deposit that was spent is in dispute.
pub proof fn an_open_account_is_never_in_debt(ledger: LedgerView, client: u16)
    requires
        prudent(ledger),
        ledger.accounts.contains_key(client),
        !ledger.accounts[client].locked,
    ensures
        ledger.accounts[client].available.units() <= paid_in(ledger, client),
        0 <= paid_in(ledger, client) <= ledger.accounts[client].total().units(),
{
    let ids = ledger::TRANSACTION_IDS as nat;
    let account = ledger.accounts[client];
    let held = ledger::held_shares();
    let available = ledger::available_shares();
    assert(ledger.balanced(client));
    assert forall|tx: u32| ledger.records(client, tx) implies #[trigger] available(
        ledger.transactions[tx],
    ) <= movement_shares()(ledger.transactions[tx]) by {
        assert(!ledger.charged_back(client, tx));
    }
    lemma_summed_in_order(ledger.transactions, client, available, movement_shares(), ids);
    let both = |entry: EntryView| available(entry) + held(entry);
    lemma_summed_together(ledger.transactions, client, available, held, ids);
    assert forall|tx: u32| ledger.records(client, tx) implies #[trigger] movement_shares()(
        ledger.transactions[tx],
    ) <= both(ledger.transactions[tx]) by {
        assert(!ledger.charged_back(client, tx));
    }
    lemma_summed_in_order(ledger.transactions, client, movement_shares(), both, ids);
    account::the_total_is_available_plus_held(account);
}

/// A ledger that is only ever given positive amounts stays prudent.
pub proof fn positive_amounts_keep_a_ledger_prudent(
    ledger: LedgerView,
    transaction: TransactionView,
)
    requires
        prudent(ledger),
        transaction.valid(),
        is_positive(transaction),
    ensures
        prudent(after_one(ledger, transaction)),
{
    if ledger.applied(transaction) is Ok {
        let next = ledger.applied(transaction)->Ok_0;
        let client = transaction.client();
        let tx = transaction.tx();
        let entry = next.transactions[tx];
        let ids = ledger::TRANSACTION_IDS as nat;
        ledger::the_books_always_balance(ledger, transaction);
        ledger::an_accepted_transaction_touches_one_account_and_one_record(ledger, transaction);
        ledger::lemma_account_follows_record(ledger, transaction);
        assert forall|c: u16| #[trigger]
            next.accounts.contains_key(c) && !next.accounts[c].locked implies paid_in(next, c)
            >= 0 by {
            ledger::lemma_summed_insert(ledger.transactions, c, movement_shares(), tx, entry, ids);
            if ledger.accounts.contains_key(c) {
                if !ledger.accounts[c].locked {
                    an_open_account_is_never_in_debt(ledger, c);
                    assert(ledger.balanced(c));
                    if c == client && transaction is Withdrawal {
                        account::a_debit_lowers_the_total(
                            ledger.accounts[c],
                            transaction->Withdrawal_amount,
                        );
                    }
                }
            } else {
                ledger::lemma_summed_nothing(ledger.transactions, c, movement_shares(), ids);
                if transaction is Withdrawal {
                    money::lemma_zero(money::zero_figure(), money::MAX_SCALE as nat);
                    account::a_debit_lowers_the_total(
                        account::opened(c),
                        transaction->Withdrawal_amount,
                    );
                }
            }
        }
        assert forall|id: u32| #[trigger]
            next.transactions.contains_key(id) && next.transactions[id].state
                == DisputeState::Disputed implies next.transactions[id].amount.scale
            <= next.accounts[next.transactions[id].client].held.scale by {
            if next.transactions[id].client == client {
                lemma_held_scale(ledger, transaction, id);
            }
        }
    }
}

/// Held funds keep the decimal places of what is in dispute when a transaction of
/// the same client is accepted.
proof fn lemma_held_scale(ledger: LedgerView, transaction: TransactionView, id: u32)
    requires
        prudent(ledger),
        transaction.valid(),
        is_positive(transaction),
        ledger.applied(transaction) is Ok,
        ledger.applied(transaction)->Ok_0.records(transaction.client(), id),
        ledger.applied(transaction)->Ok_0.transactions[id].state == DisputeState::Disputed,
    ensures
        ledger.applied(transaction)->Ok_0.transactions[id].amount.scale <= ledger.applied(
            transaction,
        )->Ok_0.accounts[transaction.client()].held.scale,
{
    let client = transaction.client();
    let tx = transaction.tx();
    let top = money::MAX_SCALE as nat;
    let account = ledger.accounts[client];
    ledger::an_accepted_transaction_touches_one_account_and_one_record(ledger, transaction);
    if id != tx {
        disputed_amounts_are_held(ledger, client, id);
    }
    if transaction is Resolve || transaction is Chargeback {
        disputed_amounts_are_held(ledger, client, tx);
    }
    if ledger.accounts.contains_key(client) {
        assert(ledger.balanced(client));
        money::lemma_zero(account.held, top);
    }
    if ledger.transactions.contains_key(tx) {
        money::lemma_zero(ledger.transactions[tx].amount, top);
    }
}

/// With positive amounts, every open dispute can be settled either way: as long as
/// the account is not locked, neither its resolution nor its chargeback is refused.
pub proof fn an_open_dispute_can_be_settled(ledger: LedgerView, client: u16, tx: u32)
    requires
        prudent(ledger),
        ledger.records(client, tx),
        ledger.transactions[tx].state == DisputeState::Disputed,
        !ledger.is_locked(client),
    ensures
        ledger.applied(resolve_of(client, tx)) is Ok,
        ledger.applied(chargeback_of(client, tx)) is Ok,
{
    let account = ledger.accounts[client];
    let amount = ledger.transactions[tx].amount;
    a_recorded_transaction_has_its_account(ledger, tx);
    assert(ledger.balanced(client));
    disputed_amounts_are_held(ledger, client, tx);
    an_open_account_is_never_in_debt(ledger, client);
    account::the_total_is_available_plus_held(account);
    account::an_open_claim_can_be_settled(account, amount);
}

/// With positive amounts, a dispute that has been accepted can be resolved at once,
/// and that puts everything back.
pub proof fn a_dispute_can_be_undone_at_once(ledger: LedgerView, client: u16, tx: u32)
    requires
        prudent(ledger),
        ledger.applied(dispute_of(client, tx)) is Ok,
    ensures
        ({
            let disputed = ledger.applied(dispute_of(client, tx))->Ok_0;
            let resolved = disputed.applied(resolve_of(client, tx));
            &&& resolved is Ok
            &&& resolved->Ok_0.transactions == ledger.transactions
            &&& account::same_balances(resolved->Ok_0.accounts[client], ledger.accounts[client])
        }),
{
    let disputed = ledger.applied(dispute_of(client, tx))->Ok_0;
    positive_amounts_keep_a_ledger_prudent(ledger, dispute_of(client, tx));
    ledger::lemma_account_follows_record(ledger, dispute_of(client, tx));
    an_open_dispute_can_be_settled(disputed, client, tx);
    a_resolution_undoes_its_dispute(ledger, client, tx);
}

/// A ledger with no history is prudent.
pub proof fn an_empty_ledger_is_prudent()
    ensures
        prudent(ledger::empty()),
{
}

/// Whatever positive amounts an engine has been given, its ledger is prudent.
pub proof fn a_prudent_ledger_stays_prudent(
    ledger: LedgerView,
    transactions: Seq<TransactionView>,
)
    requires
        prudent(ledger),
        all_valid(transactions),
        forall|i: int| 0 <= i < transactions.len() ==> is_positive(#[trigger] transactions[i]),
    ensures
        prudent(after(ledger, transactions)),
    decreases transactions.len(),
{
    if transactions.len() > 0 {
        let front = transactions.drop_last();
        assert forall|i: int| 0 <= i < front.len() implies #[trigger] front[i].valid()
            && is_positive(front[i]) by {
            assert(front[i] == transactions[i]);
        }
        a_prudent_ledger_stays_prudent(ledger, front);
        let last = transactions[transactions.len() - 1];
        positive_amounts_keep_a_ledger_prudent(after(ledger, front), last);
    }
}

/// What a client has available and held, a client not seen before having nothing.
pub open spec fn balances(ledger: LedgerView, client: u16) -> (money::Figure, money::Figure) {
    if ledger.accounts.contains_key(client) {
        (ledger.accounts[client].available, ledger.accounts[client].held)
    } else {
        (money::zero_figure(), money::zero_figure())
    }
}

/// Whether a client has an account and that is locked.
pub open spec fn locked_out(ledger: LedgerView, client: u16) -> bool {
    ledger.accounts.contains_key(client) && ledger.accounts[client].locked
}

/// Whether one ledger comes from another by this and nothing else: the record under
/// one ID is now `entry`, and its client's account, now locked or not, has these new
/// balances, which are so many units more than they were.
pub open spec fn changed_by(
    ledger: LedgerView,
    next: LedgerView,
    tx: u32,
    entry: EntryView,
    new_balances: (Option<money::Figure>, Option<money::Figure>),
    available: int,
    held: int,
    locked: bool,
) -> bool {
    let (was_available, was_held) = balances(ledger, entry.client);
    let account = next.accounts[entry.client];
    &&& next.transactions == ledger.transactions.insert(tx, entry)
    &&& next.accounts == ledger.accounts.insert(entry.client, account)
    &&& account.valid()
    &&& account.client == entry.client
    &&& account.locked == locked
    &&& account.available.units() == was_available.units() + available
    &&& account.held.units() == was_held.units() + held
    &&& account.total().units() == was_available.units() + was_held.units() + available + held
    &&& new_balances == (Some(account.available), Some(account.held))
}

/// A deposit adds its amount to what its client has available, leaves held funds as
/// they are, and goes on record under its ID with that very amount. It is refused
/// only for a locked account, for an ID already on record, or where the new
/// balances cannot be kept exactly, and in that order.
pub proof fn what_a_deposit_does(ledger: LedgerView, client: u16, tx: u32, amount: money::Figure)
    requires
        ledger.consistent(),
        amount.valid(),
    ensures
        ({
            let outcome = ledger.applied(TransactionView::Deposit { client, tx, amount });
            let entry = EntryView {
                client,
                movement: Movement::Deposit,
                amount,
                state: DisputeState::Normal,
            };
            let (available, held) = balances(ledger, client);
            if locked_out(ledger, client) {
                outcome == Err::<LedgerView, RejectView>(RejectView::AccountLocked(client))
            } else if ledger.transactions.contains_key(tx) {
                outcome == Err::<LedgerView, RejectView>(RejectView::DuplicateTx(tx))
            } else if account::can_be_kept(money::exact_sum(available, amount), Some(held)) {
                outcome is Ok && changed_by(
                    ledger,
                    outcome->Ok_0,
                    tx,
                    entry,
                    (money::exact_sum(available, amount), Some(held)),
                    amount.units(),
                    0,
                    false,
                )
            } else {
                outcome == Err::<LedgerView, RejectView>(RejectView::Unrepresentable)
            }
        }),
{
    let transaction = TransactionView::Deposit { client, tx, amount };
    let account = ledger.account_or_new(client);
    lemma_before(ledger, client);
    account::a_credit_raises_the_total(account, amount);
    account::the_total_is_available_plus_held(account);
    if ledger.applied(transaction) is Ok {
        ledger::an_accepted_transaction_touches_one_account_and_one_record(ledger, transaction);
    }
}

/// A withdrawal takes its amount off what its client has available whenever that
/// covers it, whatever is held, and goes on record under its ID with that very
/// amount. It is refused only for a locked account, for an ID already on record, for
/// want of available funds, or where the new balances cannot be kept exactly, and
/// in that order.
pub proof fn what_a_withdrawal_does(ledger: LedgerView, client: u16, tx: u32, amount: money::Figure)
    requires
        ledger.consistent(),
        amount.valid(),
    ensures
        ({
            let outcome = ledger.applied(TransactionView::Withdrawal { client, tx, amount });
            let entry = EntryView {
                client,
                movement: Movement::Withdrawal,
                amount,
                state: DisputeState::Normal,
            };
            let (available, held) = balances(ledger, client);
            if locked_out(ledger, client) {
                outcome == Err::<LedgerView, RejectView>(RejectView::AccountLocked(client))
            } else if ledger.transactions.contains_key(tx) {
                outcome == Err::<LedgerView, RejectView>(RejectView::DuplicateTx(tx))
            } else if available.units() < amount.units() {
                outcome == Err::<LedgerView, RejectView>(
                    RejectView::InsufficientFunds { client, available, requested: amount },
                )
            } else if account::can_be_kept(money::exact_difference(available, amount), Some(held)) {
                outcome is Ok && changed_by(
                    ledger,
                    outcome->Ok_0,
                    tx,
                    entry,
                    (money::exact_difference(available, amount), Some(held)),
                    -amount.units(),
                    0,
                    false,
                )
            } else {
                outcome == Err::<LedgerView, RejectView>(RejectView::Unrepresentable)
            }
        }),
{
    let transaction = TransactionView::Withdrawal { client, tx, amount };
    let account = ledger.account_or_new(client);
    lemma_before(ledger, client);
    account::a_debit_lowers_the_total(account, amount);
    account::the_total_is_available_plus_held(account);
    if ledger.applied(transaction) is Ok {
        ledger::an_accepted_transaction_touches_one_account_and_one_record(ledger, transaction);
    }
}

/// Whether a dispute, a resolution or a chargeback is turned away before any money
/// is looked at, for the first of these reasons that holds: the account is locked,
/// the transaction is not on record, it is someone else's, or it is not in the
/// state called for.
pub open spec fn turned_away(
    ledger: LedgerView,
    client: u16,
    tx: u32,
    expected: DisputeState,
) -> Option<RejectView> {
    let entry = ledger.transactions[tx];
    if locked_out(ledger, client) {
        Some(RejectView::AccountLocked(client))
    } else if !ledger.transactions.contains_key(tx) {
        Some(RejectView::UnknownTx(tx))
    } else if entry.client != client {
        Some(RejectView::ClientMismatch { tx, owner: entry.client, claimed: client })
    } else if entry.state == expected {
        None
    } else if entry.state == DisputeState::Normal {
        Some(RejectView::NotDisputed(tx))
    } else {
        Some(RejectView::AlreadyDisputed(tx))
    }
}

/// A dispute holds the amount on record: for a deposit it moves from available to
/// held funds, for a withdrawal it is added to held funds. The record is then under
/// dispute and otherwise as it was, and the account is not locked.
pub proof fn what_a_dispute_does(ledger: LedgerView, client: u16, tx: u32)
    requires
        ledger.consistent(),
    ensures
        ({
            let outcome = ledger.applied(TransactionView::Dispute { client, tx });
            let entry = ledger.transactions[tx];
            let amount = entry.amount;
            let (available, held) = balances(ledger, client);
            let (new_available, moved) = match entry.movement {
                Movement::Deposit => (
                    money::exact_difference(available, amount),
                    -amount.units(),
                ),
                Movement::Withdrawal => (Some(available), 0),
            };
            match turned_away(ledger, client, tx, DisputeState::Normal) {
                Some(why) => outcome == Err::<LedgerView, RejectView>(why),
                None => if account::can_be_kept(new_available, money::exact_sum(held, amount)) {
                    outcome is Ok && changed_by(
                        ledger,
                        outcome->Ok_0,
                        tx,
                        EntryView { state: DisputeState::Disputed, ..entry },
                        (new_available, money::exact_sum(held, amount)),
                        moved,
                        amount.units(),
                        false,
                    )
                } else {
                    outcome == Err::<LedgerView, RejectView>(RejectView::Unrepresentable)
                },
            }
        }),
{
    lemma_settled(ledger, TransactionView::Dispute { client, tx });
}

/// A resolution gives up the claim on the amount on record: for a deposit it moves
/// back from held to available funds, for a withdrawal it is taken off held funds.
/// The record is then as it was before the dispute, and the account is not locked.
pub proof fn what_a_resolution_does(ledger: LedgerView, client: u16, tx: u32)
    requires
        ledger.consistent(),
    ensures
        ({
            let outcome = ledger.applied(TransactionView::Resolve { client, tx });
            let entry = ledger.transactions[tx];
            let amount = entry.amount;
            let (available, held) = balances(ledger, client);
            let (new_available, moved) = match entry.movement {
                Movement::Deposit => (money::exact_sum(available, amount), amount.units()),
                Movement::Withdrawal => (Some(available), 0),
            };
            match turned_away(ledger, client, tx, DisputeState::Disputed) {
                Some(why) => outcome == Err::<LedgerView, RejectView>(why),
                None => if account::can_be_kept(
                    new_available,
                    money::exact_difference(held, amount),
                ) {
                    outcome is Ok && changed_by(
                        ledger,
                        outcome->Ok_0,
                        tx,
                        EntryView { state: DisputeState::Normal, ..entry },
                        (new_available, money::exact_difference(held, amount)),
                        moved,
                        -amount.units(),
                        false,
                    )
                } else {
                    outcome == Err::<LedgerView, RejectView>(RejectView::Unrepresentable)
                },
            }
        }),
{
    lemma_settled(ledger, TransactionView::Resolve { client, tx });
}

/// A chargeback upholds the claim on the amount on record: for a deposit it is taken
/// off held funds, for a withdrawal it moves from held to available funds. The
/// record is then charged back and otherwise as it was, and the account is locked.
pub proof fn what_a_chargeback_does(ledger: LedgerView, client: u16, tx: u32)
    requires
        ledger.consistent(),
    ensures
        ({
            let outcome = ledger.applied(TransactionView::Chargeback { client, tx });
            let entry = ledger.transactions[tx];
            let amount = entry.amount;
            let (available, held) = balances(ledger, client);
            let (new_available, moved) = match entry.movement {
                Movement::Deposit => (Some(available), 0),
                Movement::Withdrawal => (money::exact_sum(available, amount), amount.units()),
            };
            match turned_away(ledger, client, tx, DisputeState::Disputed) {
                Some(why) => outcome == Err::<LedgerView, RejectView>(why),
                None => if account::can_be_kept(
                    new_available,
                    money::exact_difference(held, amount),
                ) {
                    outcome is Ok && changed_by(
                        ledger,
                        outcome->Ok_0,
                        tx,
                        EntryView { state: DisputeState::ChargedBack, ..entry },
                        (new_available, money::exact_difference(held, amount)),
                        moved,
                        -amount.units(),
                        true,
                    )
                } else {
                    outcome == Err::<LedgerView, RejectView>(RejectView::Unrepresentable)
                },
            }
        }),
{
    lemma_settled(ledger, TransactionView::Chargeback { client, tx });
}

/// What a client has before a transaction is what their account, or a fresh one,
/// holds.
proof fn lemma_before(ledger: LedgerView, client: u16)
    requires
        ledger.consistent(),
    ensures
        ledger.account_or_new(client).valid(),
        ledger.account_or_new(client).client == client,
        ledger.account_or_new(client).available == balances(ledger, client).0,
        ledger.account_or_new(client).held == balances(ledger, client).1,
        ledger.account_or_new(client).locked == locked_out(ledger, client),
{
    if ledger.accounts.contains_key(client) {
        assert(ledger.balanced(client));
    }
    money::lemma_zero(money::zero_figure(), money::MAX_SCALE as nat);
}

/// What is known of a dispute, a resolution or a chargeback whose transaction is on
/// record for its client.
proof fn lemma_settled(ledger: LedgerView, transaction: TransactionView)
    requires
        ledger.consistent(),
        transaction is Dispute || transaction is Resolve || transaction is Chargeback,
    ensures
        ({
            let client = transaction.client();
            let tx = transaction.tx();
            let entry = ledger.transactions[tx];
            let account = ledger.accounts[client];
            &&& ledger.charged_back(client, tx) ==> locked_out(ledger, client)
            &&& ledger.records(client, tx) ==> {
                &&& ledger.accounts.contains_key(client)
                &&& account.valid()
                &&& account.client == client
                &&& entry.amount.valid()
            }
            &&& ledger.applied(transaction) matches Ok(next) ==> {
                let after = next.accounts[client];
                &&& after.valid()
                &&& after.client == client
                &&& after.total().units() == after.available.units() + after.held.units()
                &&& next.accounts == ledger.accounts.insert(client, after)
                &&& after.held.units() - account.held.units()
                    == next.transactions[tx].held_share() - entry.held_share()
                &&& after.available.units() - account.available.units()
                    == next.transactions[tx].available_share() - entry.available_share()
            }
        }),
{
    let client = transaction.client();
    let tx = transaction.tx();
    if ledger.records(client, tx) {
        assert(ledger.balanced(client));
    }
    if ledger.applied(transaction) is Ok {
        ledger::lemma_account_follows_record(ledger, transaction);
        ledger::an_accepted_transaction_touches_one_account_and_one_record(ledger, transaction);
        account::the_total_is_available_plus_held(
            ledger.applied(transaction)->Ok_0.accounts[client],
        );
    }
}

/// The amount that a transaction is about: its own, or the one on record under the
/// ID it refers to.
pub open spec fn amount_at_stake(
    ledger: LedgerView,
    transaction: TransactionView,
) -> money::Figure {
    match transaction {
        TransactionView::Deposit { amount, .. } => amount,
        TransactionView::Withdrawal { amount, .. } => amount,
        _ => ledger.transactions[transaction.tx()].amount,
    }
}

/// A transaction that nothing else stands in the way of is accepted wherever the
/// balances it leads to, and their total, fit with `places` decimal places. What
/// was held before makes no difference to a deposit or a withdrawal.
pub proof fn what_leads_to_balances_that_fit_is_accepted(
    ledger: LedgerView,
    transaction: TransactionView,
    places: nat,
)
    requires
        ledger.consistent(),
        transaction.valid(),
        !locked_out(ledger, transaction.client()),
        balances(ledger, transaction.client()).0.scale <= places,
        balances(ledger, transaction.client()).1.scale <= places,
        amount_at_stake(ledger, transaction).scale <= places,
        ({
            let tx = transaction.tx();
            let entry = ledger.transactions[tx];
            let known = ledger.transactions.contains_key(tx);
            let owned = known && entry.client == transaction.client();
            match transaction {
                TransactionView::Deposit { .. } => !known,
                TransactionView::Withdrawal { amount, .. } => !known && balances(
                    ledger,
                    transaction.client(),
                ).0.units() >= amount.units(),
                TransactionView::Dispute { .. } => owned && entry.state == DisputeState::Normal,
                _ => owned && entry.state == DisputeState::Disputed,
            }
        }),
        ({
            let available = balances(ledger, transaction.client()).0.at_scale(places);
            let held = balances(ledger, transaction.client()).1.at_scale(places);
            let amount = amount_at_stake(ledger, transaction).at_scale(places);
            let movement = ledger.transactions[transaction.tx()].movement;
            let room = |a: int, h: int|
                money::countable(a) && money::countable(h) && money::countable(a + h);
            match (transaction, movement) {
                (TransactionView::Deposit { .. }, _) => room(available + amount, held),
                (TransactionView::Withdrawal { .. }, _) => room(available - amount, held),
                (TransactionView::Dispute { .. }, Movement::Deposit) => room(
                    available - amount,
                    held + amount,
                ),
                (TransactionView::Dispute { .. }, Movement::Withdrawal) => room(
                    available,
                    held + amount,
                ),
                (TransactionView::Resolve { .. }, Movement::Deposit) => room(
                    available + amount,
                    held - amount,
                ),
                (TransactionView::Resolve { .. }, Movement::Withdrawal) => room(
                    available,
                    held - amount,
                ),
                (TransactionView::Chargeback { .. }, Movement::Deposit) => room(
                    available,
                    held - amount,
                ),
                (TransactionView::Chargeback { .. }, Movement::Withdrawal) => room(
                    available + amount,
                    held - amount,
                ),
            }
        }),
    ensures
        ledger.applied(transaction) is Ok,
{
    let client = transaction.client();
    let account = ledger.account_or_new(client);
    lemma_before(ledger, client);
    account::balances_that_fit_are_accepted(account, amount_at_stake(ledger, transaction), places);
}

/// A ledger with no history has no accounts and no transactions.
pub proof fn an_empty_ledger_has_nothing_in_it(client: u16, tx: u32)
    ensures
        !ledger::empty().accounts.contains_key(client),
        !ledger::empty().transactions.contains_key(tx),
        ledger::empty().listing().len() == 0,
{
    lemma_listed(ledger::empty(), ledger::CLIENTS as nat);
    let listing = ledger::empty().listing();
    if listing.len() > 0 {
        assert(ledger::empty().accounts.contains_key(listing[0].client));
    }
}

/// A change that is carried out succeeds exactly when it is allowed and leads where
/// it should; one that is refused gives the reason and leaves no trace.
pub proof fn a_refused_change_leaves_no_trace(
    allowed: Result<LedgerView, RejectView>,
    before: LedgerView,
    after: LedgerView,
    result: Result<(), Reject>,
)
    requires
        ledger::carries_out(allowed, before, after, result),
    ensures
        result is Ok <==> allowed is Ok,
        result is Ok ==> after == allowed->Ok_0,
        result is Err ==> after == before && result->Err_0@ == allowed->Err_0,
{
}

/// Transactions are applied one after the other: those that come later start from
/// where those before them left the ledger.
pub proof fn transactions_are_applied_in_turn(
    ledger: LedgerView,
    transactions: Seq<TransactionView>,
    transaction: TransactionView,
)
    ensures
        after(ledger, seq![]) == ledger,
        after(ledger, transactions.push(transaction)) == match after(
            ledger,
            transactions,
        ).applied(transaction) {
            Ok(next) => next,
            Err(_) => after(ledger, transactions),
        },
{
    assert(transactions.push(transaction).drop_last() =~= transactions);
}

} // verus!
