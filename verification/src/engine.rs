//! The ledger: accounts, recorded transactions, and the rules connecting them.
use std::collections::{BTreeMap, HashMap};

use vstd::prelude::*;

use crate::account::{Account, AccountView};
use crate::error::{Reject, RejectView};
use crate::laws;
use crate::ledger;
use crate::ledger::{DisputeState, EntryView, LedgerView, Movement};
use crate::money::Amount;
use crate::record::{Transaction, TransactionView};

verus! {

broadcast use {
    vstd::std_specs::hash::group_hash_axioms,
    vstd::std_specs::btree::group_btree_axioms,
    vstd::laws_cmp::group_laws_cmp,
};

/// A transaction retained so that a later dispute can reference it by ID.
#[derive(Debug, Clone, Copy)]
pub(crate) struct RecordedTx {
    client: u16,
    movement: Movement,
    amount: Amount,
    state: DisputeState,
}

impl View for RecordedTx {
    type V = EntryView;

    closed spec fn view(&self) -> EntryView {
        EntryView {
            client: self.client,
            movement: self.movement,
            amount: self.amount@,
            state: self.state,
        }
    }
}

/// Processes transactions against a set of client accounts.
///
/// The engine holds two maps: one of accounts, and one of the deposits and
/// withdrawals that a dispute might later reference. Rows are applied one at a
/// time and never buffered, so memory is bounded by the number of clients and
/// disputable transactions rather than by the size of the input.
///
/// Accounts live in a `BTreeMap` so that reporting them in client order is a
/// property of the structure rather than a step someone could forget. Clients
/// are `u16`, so the map holds at most 65,536 entries and the ordered lookup
/// costs nothing next to parsing the row it came from.
#[derive(Debug)]
pub struct Engine {
    accounts: BTreeMap<u16, Account>,
    transactions: HashMap<u32, RecordedTx>,
}

impl Default for Engine {
    /// The same as [`Engine::new`].
    fn default() -> (engine: Engine)
        ensures
            engine.wf(),
            engine@ == ledger::empty(),
    {
        Engine { accounts: BTreeMap::new(), transactions: HashMap::new() }
    }
}

impl View for Engine {
    type V = LedgerView;

    closed spec fn view(&self) -> LedgerView {
        LedgerView {
            accounts: self.accounts@.map_values(|account: Account| account@),
            transactions: self.transactions@.map_values(|recorded: RecordedTx| recorded@),
        }
    }
}

/// The accounts behind a sequence of references.
pub open spec fn views(accounts: Seq<&Account>) -> Seq<AccountView> {
    accounts.map_values(|account: &Account| account@)
}

/// Clients in the order a `BTreeMap` keeps its keys in are strictly ascending.
proof fn lemma_ascending(clients: Seq<u16>)
    requires
        vstd::std_specs::btree::increasing_seq(clients),
    ensures
        forall|i: int, j: int| 0 <= i < j < clients.len() ==> clients[i] < clients[j],
{
    assert forall|i: int, j: int| 0 <= i < j < clients.len() implies clients[i] < clients[j] by {
        assert(vstd::laws_cmp::obeys_cmp::<u16>());
        assert(vstd::std_specs::cmp::OrdSpec::cmp_spec(&clients[i], &clients[j]) is Less);
    }
}

impl Engine {
    /// The rules that every engine's ledger keeps to.
    pub open spec fn wf(self) -> bool {
        self@.consistent()
    }

    /// An engine with no clients and no history.
    pub fn new() -> (engine: Engine)
        ensures
            engine.wf(),
            engine@ == ledger::empty(),
    {
        Engine::default()
    }

    /// Applies one transaction.
    ///
    /// An `Err` means it was skipped and left no trace: no balance moved, no
    /// transaction recorded, and no account created for a client the engine had
    /// not already seen. The caller can carry straight on with the next one.
    pub fn apply(&mut self, transaction: Transaction) -> (result: Result<(), Reject>)
        requires
            old(self).wf(),
        ensures
            final(self).wf(),
            ledger::carries_out(old(self)@.applied(transaction@), old(self)@, final(self)@, result),
            result is Ok ==> old(self)@.applied(transaction@) == Ok::<LedgerView, RejectView>(
                final(self)@,
            ),
            result is Err ==> old(self)@.applied(transaction@) == Err::<LedgerView, RejectView>(
                result->Err_0@,
            ) && final(self)@ == old(self)@,
    {
        let client = transaction.client();

        // A chargeback freezes the account, and a frozen account accepts nothing
        // further, not even the resolution of a dispute already in flight.
        if let Some(account) = self.account(client) {
            if account.is_locked() {
                return Err(Reject::AccountLocked(client));
            }
        }
        match transaction {
            Transaction::Deposit { tx, amount, .. } => self.record_movement(
                client,
                tx,
                amount,
                Movement::Deposit,
            ),
            Transaction::Withdrawal { tx, amount, .. } => self.record_movement(
                client,
                tx,
                amount,
                Movement::Withdrawal,
            ),
            Transaction::Dispute { tx, .. } => self.dispute(client, tx),
            Transaction::Resolve { tx, .. } => self.resolve(client, tx),
            Transaction::Chargeback { tx, .. } => self.chargeback(client, tx),
        }
    }

    /// The account for a client, if that client has been seen.
    pub fn account(&self, client: u16) -> (account: Option<&Account>)
        ensures
            match account {
                Some(account) => self@.accounts.contains_key(client) && account@
                    == self@.accounts[client],
                None => !self@.accounts.contains_key(client),
            },
    {
        self.accounts.get(&client)
    }

    /// Every account, in ascending client order.
    pub fn accounts(&self) -> (accounts: Vec<&Account>)
        ensures
            views(accounts@) == self@.listing(),
    {
        let mut accounts: Vec<&Account> = Vec::new();
        let values = self.accounts.values();
        let ghost clients = choose|clients: Seq<u16>|
            vstd::std_specs::btree::increasing_seq(clients) && clients.to_set()
                == self.accounts@.dom() && clients.no_duplicates()
                && vstd::std_specs::iter::IteratorSpec::remaining(&values) == clients.map(
                |i: int, client| &self.accounts@[client],
            );
        for account in iter: values
            invariant
                accounts@ == iter.seq().take(iter.index()),
                iter.seq() == clients.map(|i: int, client| &self.accounts@[client]),
        {
            accounts.push(account);
        }
        proof {
            let count = clients.len();
            lemma_ascending(clients);
            ledger::lemma_listed_by_ascending_clients(
                self@.accounts,
                clients,
                count,
                ledger::CLIENTS as nat,
            );
            assert(views(accounts@) =~= Seq::new(
                count,
                |i: int| self@.accounts[clients[i]],
            ));
        }
        accounts
    }

    /// Applies a deposit or withdrawal and records it for later dispute.
    pub(crate) fn record_movement(
        &mut self,
        client: u16,
        tx: u32,
        amount: Amount,
        movement: Movement,
    ) -> (result: Result<(), Reject>)
        requires
            old(self).wf(),
            !old(self)@.is_locked(client),
        ensures
            final(self).wf(),
            ledger::carries_out(
                old(self)@.with_movement(client, tx, amount@, movement),
                old(self)@,
                final(self)@,
                result,
            ),
    {
        proof {
            use_type_invariant(&amount);
            let transaction = match movement {
                Movement::Deposit => TransactionView::Deposit { client, tx, amount: amount@ },
                Movement::Withdrawal => TransactionView::Withdrawal { client, tx, amount: amount@ },
            };
            ledger::the_books_always_balance(self@, transaction);
        }
        // Transaction IDs are globally unique, so a repeat is a replayed or
        // corrupted row. Keeping the first record stops a later row from
        // silently repointing a dispute at a different client or amount.
        if self.transactions.contains_key(&tx) {
            return Err(Reject::DuplicateTx(tx));
        }

        // The balance change is applied to a copy, so a refused movement leaves
        // nothing behind — not even an empty account for a client whose only
        // appearance was the row just rejected.
        let mut account = match self.accounts.get(&client) {
            Some(account) => *account,
            None => Account::new(client),
        };
        let moved = match movement {
            Movement::Deposit => account.credit(amount),
            Movement::Withdrawal => account.debit(amount),
        };
        match moved {
            Ok(()) => {
                self.transactions.insert(
                    tx,
                    RecordedTx { client, movement, amount, state: DisputeState::Normal },
                );
                self.accounts.insert(client, account);
                assert(self@ =~= old(self)@.with_movement(client, tx, amount@, movement)->Ok_0);
                Ok(())
            },
            Err(why) => Err(why),
        }
    }

    /// Holds the funds behind a transaction while the claim is investigated.
    pub(crate) fn dispute(&mut self, client: u16, tx: u32) -> (result: Result<(), Reject>)
        requires
            old(self).wf(),
            !old(self)@.is_locked(client),
        ensures
            final(self).wf(),
            ledger::carries_out(
                old(self)@.with_dispute(client, tx),
                old(self)@,
                final(self)@,
                result,
            ),
    {
        proof {
            ledger::the_books_always_balance(self@, TransactionView::Dispute { client, tx });
        }
        let recorded = match self.recorded_tx(client, tx, DisputeState::Normal) {
            Ok(recorded) => recorded,
            Err(why) => return Err(why),
        };
        let mut account = self.account_of(&recorded);
        let moved = match recorded.movement {
            // The client received these funds; freeze what they already have.
            Movement::Deposit => account.move_available_to_held(recorded.amount),
            // These funds already left the account; freeze the pending refund.
            Movement::Withdrawal => account.add_held(recorded.amount),
        };
        match moved {
            Ok(()) => {
                self.set_state(tx, recorded, account, DisputeState::Disputed);
                Ok(())
            },
            Err(why) => Err(why),
        }
    }

    /// Drops the claim and puts the account back where it was before the dispute.
    pub(crate) fn resolve(&mut self, client: u16, tx: u32) -> (result: Result<(), Reject>)
        requires
            old(self).wf(),
            !old(self)@.is_locked(client),
        ensures
            final(self).wf(),
            ledger::carries_out(
                old(self)@.with_resolve(client, tx),
                old(self)@,
                final(self)@,
                result,
            ),
    {
        proof {
            ledger::the_books_always_balance(self@, TransactionView::Resolve { client, tx });
        }
        let recorded = match self.recorded_tx(client, tx, DisputeState::Disputed) {
            Ok(recorded) => recorded,
            Err(why) => return Err(why),
        };
        let mut account = self.account_of(&recorded);
        let moved = match recorded.movement {
            // Give the client back the funds that were frozen.
            Movement::Deposit => account.move_held_to_available(recorded.amount),
            // No refund is owed after all; the withdrawal stands.
            Movement::Withdrawal => account.remove_held(recorded.amount),
        };
        match moved {
            Ok(()) => {
                self.set_state(tx, recorded, account, DisputeState::Normal);
                Ok(())
            },
            Err(why) => Err(why),
        }
    }

    /// Reverses the transaction and freezes the account.
    pub(crate) fn chargeback(&mut self, client: u16, tx: u32) -> (result: Result<(), Reject>)
        requires
            old(self).wf(),
            !old(self)@.is_locked(client),
        ensures
            final(self).wf(),
            ledger::carries_out(
                old(self)@.with_chargeback(client, tx),
                old(self)@,
                final(self)@,
                result,
            ),
    {
        proof {
            ledger::the_books_always_balance(self@, TransactionView::Chargeback { client, tx });
        }
        let recorded = match self.recorded_tx(client, tx, DisputeState::Disputed) {
            Ok(recorded) => recorded,
            Err(why) => return Err(why),
        };
        let mut account = self.account_of(&recorded);
        let moved = match recorded.movement {
            // Reversing a deposit takes the funds back out of the account.
            Movement::Deposit => account.remove_held(recorded.amount),
            // Reversing a withdrawal pays the pending refund into the account.
            Movement::Withdrawal => account.move_held_to_available(recorded.amount),
        };
        match moved {
            Ok(()) => {
                account.lock();
                self.set_state(tx, recorded, account, DisputeState::ChargedBack);
                Ok(())
            },
            Err(why) => Err(why),
        }
    }

    /// Looks up the transaction a dispute, resolve or chargeback refers to, and
    /// checks that it belongs to the client on the row and is in `expected` state.
    pub(crate) fn recorded_tx(&self, client: u16, tx: u32, expected: DisputeState) -> (recorded:
        Result<RecordedTx, Reject>)
        ensures
            match self@.entry(client, tx, expected) {
                Ok(entry) => recorded is Ok && recorded->Ok_0@ == entry,
                Err(why) => recorded is Err && recorded->Err_0@ == why,
            },
            recorded is Ok ==> self@.transactions.contains_value(recorded->Ok_0@),
    {
        let recorded = match self.transactions.get(&tx) {
            Some(recorded) => *recorded,
            None => return Err(Reject::UnknownTx(tx)),
        };
        if recorded.client != client {
            return Err(Reject::ClientMismatch { tx, owner: recorded.client, claimed: client });
        }
        if recorded.state == expected {
            assert(self@.transactions[tx] == recorded@);
            return Ok(recorded);
        }
        match recorded.state {
            // Unreachable through `apply`, because a chargeback locks the owning
            // account in the same breath and `apply` refuses locked accounts
            // before it gets here. Kept deliberately: the finality of a
            // chargeback is a property of the transaction, not a side effect of
            // the account being frozen, and this is what would still enforce it
            // if unfreezing were ever added.
            DisputeState::ChargedBack => Err(Reject::ChargedBack(tx)),
            DisputeState::Disputed => Err(Reject::AlreadyDisputed(tx)),
            DisputeState::Normal => Err(Reject::NotDisputed(tx)),
        }
    }

    /// The account owning a recorded transaction.
    ///
    /// Recording a transaction always stores its account in the same call, so
    /// the account exists whenever a transaction does.
    pub(crate) fn account_of(&self, recorded: &RecordedTx) -> (account: Account)
        requires
            self.wf(),
            self@.transactions.contains_value(recorded@),
        ensures
            self@.accounts.contains_key(recorded@.client),
            account@ == self@.accounts[recorded@.client],
            account@.client == recorded@.client,
    {
        proof {
            let tx = choose|tx: u32|
                self@.transactions.contains_key(tx) && #[trigger] self@.transactions[tx]
                    == recorded@;
            laws::a_recorded_transaction_has_its_account(self@, tx);
        }
        match self.accounts.get(&recorded.client) {
            Some(account) => *account,
            None => Account::new(recorded.client),
        }
    }

    /// Stores an account that a dispute has changed, and the state which the
    /// recorded transaction behind it has entered.
    pub(crate) fn set_state(
        &mut self,
        tx: u32,
        recorded: RecordedTx,
        account: Account,
        state: DisputeState,
    )
        requires
            old(self)@.transactions.contains_key(tx),
            old(self)@.transactions[tx] == recorded@,
        ensures
            Ok::<LedgerView, RejectView>(final(self)@) == old(self)@.with_state(
                tx,
                Ok(account@),
                state,
            ),
    {
        self.transactions.insert(tx, RecordedTx { state, ..recorded });
        self.accounts.insert(recorded.client, account);
        assert(self@ =~= old(self)@.with_state(tx, Ok(account@), state)->Ok_0);
    }
}

/// The accounts behind references are those accounts, in the same order.
pub proof fn views_keep_every_account(accounts: Seq<&Account>)
    ensures
        views(accounts).len() == accounts.len(),
        forall|i: int| 0 <= i < accounts.len() ==> views(accounts)[i] == (#[trigger] accounts[i])@,
{
}

} // verus!
