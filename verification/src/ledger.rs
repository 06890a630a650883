//! The ledger as mathematics sees it: which transactions are accepted, what each
//! of them changes, and what is always true of the outcome.
use vstd::prelude::*;

use crate::account;
use crate::account::AccountView;
use crate::error::{Reject, RejectView};
use crate::money;
use crate::money::Figure;
use crate::record::TransactionView;

verus! {

/// The two transaction types that move money, and can therefore be disputed.
#[derive(Debug, Clone, Copy, PartialEq, Eq, Structural)]
pub enum Movement {
    Deposit,
    Withdrawal,
}

/// Where a recorded transaction sits in the dispute lifecycle.
///
/// `Normal -> Disputed -> Normal` may repeat: a resolved claim can be raised
/// again. `ChargedBack` is terminal.
#[derive(Debug, Clone, Copy, PartialEq, Eq, Structural)]
pub enum DisputeState {
    Normal,
    Disputed,
    ChargedBack,
}

/// A recorded transaction with its amount as a figure.
pub struct EntryView {
    pub client: u16,
    pub movement: Movement,
    pub amount: Figure,
    pub state: DisputeState,
}

impl EntryView {
    /// What the transaction adds to the client's held funds: its amount while it
    /// is under dispute, and nothing otherwise.
    pub open spec fn held_share(self) -> int {
        if self.state == DisputeState::Disputed {
            self.amount.units()
        } else {
            0
        }
    }

    /// What the transaction adds to the client's available funds. A deposit counts
    /// unless it is disputed or charged back; a withdrawal counts against the
    /// client until it is charged back.
    pub open spec fn available_share(self) -> int {
        match (self.movement, self.state) {
            (Movement::Deposit, DisputeState::Normal) => self.amount.units(),
            (Movement::Deposit, _) => 0,
            (Movement::Withdrawal, DisputeState::ChargedBack) => 0,
            (Movement::Withdrawal, _) => -self.amount.units(),
        }
    }
}

/// The held share as a function.
pub open spec fn held_shares() -> spec_fn(EntryView) -> int {
    |entry: EntryView| entry.held_share()
}

/// The available share as a function.
pub open spec fn available_shares() -> spec_fn(EntryView) -> int {
    |entry: EntryView| entry.available_share()
}

/// How many client numbers there are.
pub const CLIENTS: u64 = 65536;

/// How many transaction IDs there are.
pub const TRANSACTION_IDS: u64 = 4294967296;

/// The accounts of the clients below a number, in ascending client order.
pub open spec fn listed(accounts: Map<u16, AccountView>, below: nat) -> Seq<AccountView>
    decreases below,
{
    if below == 0 {
        seq![]
    } else {
        let client = (below - 1) as u16;
        let rest = listed(accounts, (below - 1) as nat);
        if accounts.contains_key(client) {
            rest.push(accounts[client])
        } else {
            rest
        }
    }
}

/// One transaction's part in a client's sum: its share if it is on record for the
/// client, and nothing otherwise.
pub open spec fn part(
    transactions: Map<u32, EntryView>,
    client: u16,
    share: spec_fn(EntryView) -> int,
    tx: u32,
) -> int {
    if transactions.contains_key(tx) && transactions[tx].client == client {
        share(transactions[tx])
    } else {
        0
    }
}

/// The sum of the parts of all transactions with an ID below a number.
pub open spec fn summed(
    transactions: Map<u32, EntryView>,
    client: u16,
    share: spec_fn(EntryView) -> int,
    below: nat,
) -> int
    decreases below,
{
    if below == 0 {
        0
    } else {
        summed(transactions, client, share, (below - 1) as nat) + part(
            transactions,
            client,
            share,
            (below - 1) as u32,
        )
    }
}

/// The ledger: every account by client, and every deposit and withdrawal by
/// transaction ID.
#[verifier::ext_equal]
pub struct LedgerView {
    pub accounts: Map<u16, AccountView>,
    pub transactions: Map<u32, EntryView>,
}

/// A ledger with no clients and no history.
pub open spec fn empty() -> LedgerView {
    LedgerView { accounts: Map::empty(), transactions: Map::empty() }
}

impl LedgerView {
    /// A client's account, or a fresh one for a client not seen before.
    pub open spec fn account_or_new(self, client: u16) -> AccountView {
        if self.accounts.contains_key(client) {
            self.accounts[client]
        } else {
            account::opened(client)
        }
    }

    /// Whether a chargeback has frozen a client's account.
    pub open spec fn is_locked(self, client: u16) -> bool {
        self.accounts.contains_key(client) && self.accounts[client].locked
    }

    /// The ledger after a deposit or withdrawal, recorded for later dispute.
    pub open spec fn with_movement(
        self,
        client: u16,
        tx: u32,
        amount: Figure,
        movement: Movement,
    ) -> Result<LedgerView, RejectView> {
        let account = self.account_or_new(client);
        let moved = match movement {
            Movement::Deposit => account.credited(amount),
            Movement::Withdrawal => account.debited(amount),
        };
        if self.transactions.contains_key(tx) {
            Err(RejectView::DuplicateTx(tx))
        } else {
            match moved {
                Ok(account) => Ok(
                    LedgerView {
                        accounts: self.accounts.insert(client, account),
                        transactions: self.transactions.insert(
                            tx,
                            EntryView { client, movement, amount, state: DisputeState::Normal },
                        ),
                    },
                ),
                Err(why) => Err(why),
            }
        }
    }

    /// The transaction that a dispute, resolve or chargeback refers to, if it
    /// belongs to the client on the row and is in the `expected` state.
    pub open spec fn entry(
        self,
        client: u16,
        tx: u32,
        expected: DisputeState,
    ) -> Result<EntryView, RejectView> {
        let entry = self.transactions[tx];
        if !self.transactions.contains_key(tx) {
            Err(RejectView::UnknownTx(tx))
        } else if entry.client != client {
            Err(RejectView::ClientMismatch { tx, owner: entry.client, claimed: client })
        } else if entry.state == expected {
            Ok(entry)
        } else {
            match entry.state {
                DisputeState::ChargedBack => Err(RejectView::ChargedBack(tx)),
                DisputeState::Disputed => Err(RejectView::AlreadyDisputed(tx)),
                DisputeState::Normal => Err(RejectView::NotDisputed(tx)),
            }
        }
    }

    /// The ledger once the account behind a recorded transaction has changed and
    /// the transaction has entered a new state.
    pub open spec fn with_state(
        self,
        tx: u32,
        changed: Result<AccountView, RejectView>,
        state: DisputeState,
    ) -> Result<LedgerView, RejectView> {
        let entry = self.transactions[tx];
        match changed {
            Ok(account) => Ok(
                LedgerView {
                    accounts: self.accounts.insert(entry.client, account),
                    transactions: self.transactions.insert(tx, EntryView { state, ..entry }),
                },
            ),
            Err(why) => Err(why),
        }
    }

    /// The ledger with the funds behind a transaction held.
    pub open spec fn with_dispute(self, client: u16, tx: u32) -> Result<LedgerView, RejectView> {
        match self.entry(client, tx, DisputeState::Normal) {
            Ok(entry) => {
                let account = self.accounts[entry.client];
                let changed = match entry.movement {
                    Movement::Deposit => account.frozen(entry.amount),
                    Movement::Withdrawal => account.held_raised(entry.amount),
                };
                self.with_state(tx, changed, DisputeState::Disputed)
            },
            Err(why) => Err(why),
        }
    }

    /// The ledger with a claim dropped.
    pub open spec fn with_resolve(self, client: u16, tx: u32) -> Result<LedgerView, RejectView> {
        match self.entry(client, tx, DisputeState::Disputed) {
            Ok(entry) => {
                let account = self.accounts[entry.client];
                let changed = match entry.movement {
                    Movement::Deposit => account.released(entry.amount),
                    Movement::Withdrawal => account.held_lowered(entry.amount),
                };
                self.with_state(tx, changed, DisputeState::Normal)
            },
            Err(why) => Err(why),
        }
    }

    /// The ledger with a transaction reversed and its account frozen.
    pub open spec fn with_chargeback(self, client: u16, tx: u32) -> Result<LedgerView, RejectView> {
        match self.entry(client, tx, DisputeState::Disputed) {
            Ok(entry) => {
                let account = self.accounts[entry.client];
                let changed = match entry.movement {
                    Movement::Deposit => account.held_lowered(entry.amount),
                    Movement::Withdrawal => account.released(entry.amount),
                };
                let locked = match changed {
                    Ok(account) => Ok(AccountView { locked: true, ..account }),
                    Err(why) => Err(why),
                };
                self.with_state(tx, locked, DisputeState::ChargedBack)
            },
            Err(why) => Err(why),
        }
    }

    /// The ledger after one transaction, or the reason it is refused.
    pub open spec fn applied(self, transaction: TransactionView) -> Result<LedgerView, RejectView> {
        let client = transaction.client();
        if self.is_locked(client) {
            Err(RejectView::AccountLocked(client))
        } else {
            match transaction {
                TransactionView::Deposit { client, tx, amount } => self.with_movement(
                    client,
                    tx,
                    amount,
                    Movement::Deposit,
                ),
                TransactionView::Withdrawal { client, tx, amount } => self.with_movement(
                    client,
                    tx,
                    amount,
                    Movement::Withdrawal,
                ),
                TransactionView::Dispute { client, tx } => self.with_dispute(client, tx),
                TransactionView::Resolve { client, tx } => self.with_resolve(client, tx),
                TransactionView::Chargeback { client, tx } => self.with_chargeback(client, tx),
            }
        }
    }

    /// Every account, in ascending client order.
    pub open spec fn listing(self) -> Seq<AccountView> {
        listed(self.accounts, CLIENTS as nat)
    }

    /// What a client's open disputes add up to.
    pub open spec fn claims(self, client: u16) -> int {
        summed(self.transactions, client, held_shares(), TRANSACTION_IDS as nat)
    }

    /// What a client's history leaves free to use.
    pub open spec fn proceeds(self, client: u16) -> int {
        summed(self.transactions, client, available_shares(), TRANSACTION_IDS as nat)
    }

    /// Whether a transaction is on record for a client.
    pub open spec fn records(self, client: u16, tx: u32) -> bool {
        self.transactions.contains_key(tx) && self.transactions[tx].client == client
    }

    /// Whether a transaction is on record for a client and has been charged back.
    pub open spec fn charged_back(self, client: u16, tx: u32) -> bool {
        self.records(client, tx) && self.transactions[tx].state == DisputeState::ChargedBack
    }

    /// Whether a client's account agrees with the transactions on record: it is
    /// there because of one of them, its balances are what they add up to, and it
    /// is locked exactly when one of them has been charged back.
    pub open spec fn balanced(self, client: u16) -> bool {
        let account = self.accounts[client];
        &&& account.valid()
        &&& account.client == client
        &&& account.held.units() == self.claims(client)
        &&& account.available.units() == self.proceeds(client)
        &&& account.locked == exists|tx: u32| self.charged_back(client, tx)
        &&& exists|tx: u32| self.records(client, tx)
    }

    /// The rules that every ledger keeps to: each account is balanced, and each
    /// transaction on record belongs to an account and has an amount that fits.
    pub open spec fn consistent(self) -> bool {
        &&& forall|client: u16| #[trigger]
            self.accounts.contains_key(client) ==> self.balanced(client)
        &&& forall|tx: u32| #[trigger]
            self.transactions.contains_key(tx) ==> self.accounts.contains_key(
                self.transactions[tx].client,
            ) && self.transactions[tx].amount.valid()
    }
}

/// What a method that changes the ledger promises: it succeeds exactly when the
/// change is `allowed`, the ledger is then the one the change leads to, and
/// otherwise the refusal is the given one and the ledger stays as it was.
pub open spec fn carries_out(
    allowed: Result<LedgerView, RejectView>,
    before: LedgerView,
    after: LedgerView,
    result: Result<(), Reject>,
) -> bool {
    match allowed {
        Ok(next) => result is Ok && after == next,
        Err(why) => result is Err && result->Err_0@ == why && after == before,
    }
}


/// Clients in strictly ascending order, those of the accounts and no others, list
/// the accounts in order.
pub proof fn lemma_listed_by_ascending_clients(
    accounts: Map<u16, AccountView>,
    clients: Seq<u16>,
    count: nat,
    below: nat,
)
    requires
        below <= CLIENTS,
        count <= clients.len(),
        forall|i: int, j: int| 0 <= i < j < clients.len() ==> clients[i] < clients[j],
        forall|client: u16| #[trigger]
            accounts.contains_key(client) <==> clients.contains(client),
        forall|i: int| 0 <= i < clients.len() ==> (i < count <==> #[trigger] clients[i] < below),
    ensures
        listed(accounts, below) == Seq::new(count, |i: int| accounts[clients[i]]),
    decreases below,
{
    if below == 0 {
        assert(count == 0) by {
            if count > 0 {
                assert(clients[0] < below);
            }
        }
    } else {
        let client = (below - 1) as u16;
        if accounts.contains_key(client) {
            let i = clients.index_of(client);
            assert(clients.contains(client));
            assert(clients[i] == client);
            assert(i == count - 1) by {
                if i < count - 1 {
                    assert(clients[count - 1] < below);
                }
            }
            assert forall|i: int| 0 <= i < clients.len() implies (i < count - 1
                <==> #[trigger] clients[i] < below - 1) by {}
            lemma_listed_by_ascending_clients(
                accounts,
                clients,
                (count - 1) as nat,
                (below - 1) as nat,
            );
        } else {
            assert forall|i: int| 0 <= i < clients.len() implies (i < count
                <==> #[trigger] clients[i] < below - 1) by {
                assert(clients.contains(clients[i]));
            }
            lemma_listed_by_ascending_clients(accounts, clients, count, (below - 1) as nat);
        }
    }
}

/// Recording a transaction, or replacing what is recorded under its ID, changes a
/// sum by the change in that one part.
pub proof fn lemma_summed_insert(
    transactions: Map<u32, EntryView>,
    client: u16,
    share: spec_fn(EntryView) -> int,
    tx: u32,
    entry: EntryView,
    below: nat,
)
    requires
        below <= TRANSACTION_IDS,
    ensures
        summed(transactions.insert(tx, entry), client, share, below) == summed(
            transactions,
            client,
            share,
            below,
        ) + if tx < below {
            part(transactions.insert(tx, entry), client, share, tx) - part(
                transactions,
                client,
                share,
                tx,
            )
        } else {
            0
        },
    decreases below,
{
    if below > 0 {
        lemma_summed_insert(transactions, client, share, tx, entry, (below - 1) as nat);
    }
}

/// With nothing on record for a client, every sum of theirs is zero.
pub proof fn lemma_summed_nothing(
    transactions: Map<u32, EntryView>,
    client: u16,
    share: spec_fn(EntryView) -> int,
    below: nat,
)
    requires
        forall|tx: u32| #[trigger]
            transactions.contains_key(tx) ==> transactions[tx].client != client,
    ensures
        summed(transactions, client, share, below) == 0,
    decreases below,
{
    if below > 0 {
        lemma_summed_nothing(transactions, client, share, (below - 1) as nat);
    }
}

/// An accepted transaction touches its own client's account and the record under
/// its own ID, and nothing else.
pub proof fn an_accepted_transaction_touches_one_account_and_one_record(
    ledger: LedgerView,
    transaction: TransactionView,
)
    requires
        ledger.consistent(),
    ensures
        ledger.applied(transaction) matches Ok(next) ==> {
            let client = transaction.client();
            let tx = transaction.tx();
            &&& next.accounts == ledger.accounts.insert(client, next.accounts[client])
            &&& next.transactions == ledger.transactions.insert(tx, next.transactions[tx])
            &&& next.records(client, tx)
        },
{
}

/// An accepted transaction changes the balances of its client's account by as much
/// as it changes the shares of its record, and locks the account exactly when it
/// is a chargeback.
pub proof fn lemma_account_follows_record(ledger: LedgerView, transaction: TransactionView)
    requires
        ledger.consistent(),
        transaction.valid(),
    ensures
        ledger.applied(transaction) matches Ok(next) ==> {
            let client = transaction.client();
            let tx = transaction.tx();
            let before = ledger.account_or_new(client);
            let after = next.accounts[client];
            let entry = next.transactions[tx];
            let known = ledger.transactions.contains_key(tx);
            let held = if known {
                ledger.transactions[tx].held_share()
            } else {
                0
            };
            let available = if known {
                ledger.transactions[tx].available_share()
            } else {
                0
            };
            &&& known ==> ledger.records(client, tx)
            &&& known ==> ledger.transactions[tx].state != DisputeState::ChargedBack
            &&& entry.amount.valid()
            &&& after.valid()
            &&& after.client == client
            &&& after.held.units() - before.held.units() == entry.held_share() - held
            &&& after.available.units() - before.available.units() == entry.available_share()
                - available
            &&& !before.locked
            &&& after.locked == (transaction is Chargeback)
            &&& (entry.state == DisputeState::ChargedBack) == (transaction is Chargeback)
        },
{
    if ledger.applied(transaction) is Ok {
        let client = transaction.client();
        let tx = transaction.tx();
        let before = ledger.account_or_new(client);
        assert(ledger.accounts.contains_key(client) ==> ledger.balanced(client));
        match transaction {
            TransactionView::Deposit { amount, .. } => {
                account::a_credit_raises_the_total(before, amount);
            },
            TransactionView::Withdrawal { amount, .. } => {
                account::a_debit_lowers_the_total(before, amount);
            },
            TransactionView::Dispute { .. } => {
                let amount = ledger.transactions[tx].amount;
                account::freezing_keeps_the_total(before, amount);
                account::holding_a_refund_raises_the_total(before, amount);
            },
            _ => {
                let amount = ledger.transactions[tx].amount;
                account::releasing_keeps_the_total(before, amount);
                account::removing_held_funds_lowers_the_total(before, amount);
            },
        }
    }
}

/// An account stays balanced while another client's transaction is recorded or
/// changes state.
proof fn lemma_others_stay_balanced(
    ledger: LedgerView,
    next: LedgerView,
    client: u16,
    tx: u32,
    other: u16,
)
    requires
        other != client,
        ledger.accounts.contains_key(other),
        next.accounts.contains_key(other),
        next.transactions.contains_key(tx),
        ledger.balanced(other),
        next.accounts[other] == ledger.accounts[other],
        next.transactions == ledger.transactions.insert(tx, next.transactions[tx]),
        next.transactions[tx].client == client,
        ledger.transactions.contains_key(tx) ==> ledger.records(client, tx),
    ensures
        next.balanced(other),
{
    let ids = TRANSACTION_IDS as nat;
    let entry = next.transactions[tx];
    lemma_summed_insert(ledger.transactions, other, held_shares(), tx, entry, ids);
    lemma_summed_insert(ledger.transactions, other, available_shares(), tx, entry, ids);
    let id = choose|id: u32| ledger.records(other, id);
    assert(next.records(other, id));
    assert forall|id: u32| #[trigger]
        next.charged_back(other, id) implies ledger.charged_back(other, id) by {}
    assert forall|id: u32| #[trigger]
        ledger.charged_back(other, id) implies next.charged_back(other, id) by {}
}

/// The account of an accepted transaction's client is balanced afterwards.
proof fn lemma_own_account_is_balanced(ledger: LedgerView, transaction: TransactionView)
    requires
        ledger.consistent(),
        transaction.valid(),
        ledger.applied(transaction) is Ok,
    ensures
        ledger.applied(transaction)->Ok_0.balanced(transaction.client()),
{
    let next = ledger.applied(transaction)->Ok_0;
    let client = transaction.client();
    let tx = transaction.tx();
    let entry = next.transactions[tx];
    let ids = TRANSACTION_IDS as nat;
    lemma_account_follows_record(ledger, transaction);
    an_accepted_transaction_touches_one_account_and_one_record(ledger, transaction);
    lemma_summed_insert(ledger.transactions, client, held_shares(), tx, entry, ids);
    lemma_summed_insert(ledger.transactions, client, available_shares(), tx, entry, ids);
    if ledger.accounts.contains_key(client) {
        assert(ledger.balanced(client));
    } else {
        lemma_summed_nothing(ledger.transactions, client, held_shares(), ids);
        lemma_summed_nothing(ledger.transactions, client, available_shares(), ids);
        money::lemma_zero(money::zero_figure(), money::MAX_SCALE as nat);
    }
    assert(next.records(client, tx));
    if transaction is Chargeback {
        assert(next.charged_back(client, tx));
    } else {
        assert forall|id: u32| !#[trigger] next.charged_back(client, id) by {
            assert(!ledger.charged_back(client, id));
        }
    }
}

/// A transaction that is accepted leaves the ledger consistent: whatever has been
/// applied, every balance is what the client's transactions on record add up to,
/// nothing has been created, lost or rounded away, and the locked accounts are
/// those with a charged-back transaction.
pub proof fn the_books_always_balance(ledger: LedgerView, transaction: TransactionView)
    requires
        ledger.consistent(),
        transaction.valid(),
    ensures
        ledger.applied(transaction) matches Ok(next) ==> next.consistent(),
{
    if ledger.applied(transaction) is Ok {
        let next = ledger.applied(transaction)->Ok_0;
        let client = transaction.client();
        let tx = transaction.tx();
        lemma_account_follows_record(ledger, transaction);
        an_accepted_transaction_touches_one_account_and_one_record(ledger, transaction);
        lemma_own_account_is_balanced(ledger, transaction);
        assert forall|c: u16| #[trigger] next.accounts.contains_key(c) implies next.balanced(c) by {
            if c != client {
                assert(ledger.accounts.contains_key(c));
                lemma_others_stay_balanced(ledger, next, client, tx, c);
            }
        }
        assert forall|id: u32| #[trigger] next.transactions.contains_key(id) implies {
            &&& next.accounts.contains_key(next.transactions[id].client)
            &&& next.transactions[id].amount.valid()
        } by {
            if id != tx {
                assert(ledger.transactions.contains_key(id));
            }
        }
    }
}

} // verus!
