//! A single client's asset account.
use vstd::prelude::*;

use crate::error::{Reject, RejectView};
use crate::money;
use crate::money::{Amount, Figure};

verus! {

/// One client's balances.
///
/// `total` is not stored: it is always `available + held`, so there is no way
/// for the three figures to disagree. Every mutation goes through a method that
/// checks the arithmetic before committing, which keeps the invariant that the
/// total is exactly representable and lets [`Account::total`] add without
/// checking.
#[derive(Debug, Clone, Copy)]
pub struct Account {
    client: u16,
    available: Amount,
    held: Amount,
    locked: bool,
}

/// An [`Account`] with its balances as figures.
pub struct AccountView {
    pub client: u16,
    pub available: Figure,
    pub held: Figure,
    pub locked: bool,
}

/// An account with no funds.
pub open spec fn opened(client: u16) -> AccountView {
    AccountView {
        client,
        available: money::zero_figure(),
        held: money::zero_figure(),
        locked: false,
    }
}

impl AccountView {
    /// Whether both balances, and their total with every decimal place kept, fit
    /// a decimal.
    pub open spec fn valid(self) -> bool {
        &&& self.available.valid()
        &&& self.held.valid()
        &&& money::exact_sum(self.available, self.held) is Some
    }

    /// Available plus held.
    pub open spec fn total(self) -> Figure {
        money::exact_sum(self.available, self.held)->0
    }

    /// The account with new balances, provided that both of them and their total
    /// are exact.
    pub open spec fn with_balances(
        self,
        available: Option<Figure>,
        held: Option<Figure>,
    ) -> Result<AccountView, RejectView> {
        match (available, held) {
            (Some(available), Some(held)) => if money::exact_sum(available, held) is Some {
                Ok(AccountView { available, held, ..self })
            } else {
                Err(RejectView::Unrepresentable)
            },
            _ => Err(RejectView::Unrepresentable),
        }
    }

    /// The account after a deposit.
    pub open spec fn credited(self, amount: Figure) -> Result<AccountView, RejectView> {
        self.with_balances(money::exact_sum(self.available, amount), Some(self.held))
    }

    /// The account after a withdrawal, which needs enough available funds.
    pub open spec fn debited(self, amount: Figure) -> Result<AccountView, RejectView> {
        if self.available.units() < amount.units() {
            Err(
                RejectView::InsufficientFunds {
                    client: self.client,
                    available: self.available,
                    requested: amount,
                },
            )
        } else {
            self.with_balances(money::exact_difference(self.available, amount), Some(self.held))
        }
    }

    /// The account with an amount moved from available to held.
    pub open spec fn frozen(self, amount: Figure) -> Result<AccountView, RejectView> {
        self.with_balances(
            money::exact_difference(self.available, amount),
            money::exact_sum(self.held, amount),
        )
    }

    /// The account with an amount moved from held to available.
    pub open spec fn released(self, amount: Figure) -> Result<AccountView, RejectView> {
        self.with_balances(
            money::exact_sum(self.available, amount),
            money::exact_difference(self.held, amount),
        )
    }

    /// The account with an amount added to held.
    pub open spec fn held_raised(self, amount: Figure) -> Result<AccountView, RejectView> {
        self.with_balances(Some(self.available), money::exact_sum(self.held, amount))
    }

    /// The account with an amount taken off held.
    pub open spec fn held_lowered(self, amount: Figure) -> Result<AccountView, RejectView> {
        self.with_balances(Some(self.available), money::exact_difference(self.held, amount))
    }
}

/// What a method that changes an account promises: it succeeds exactly when the
/// change is `allowed`, the account is then the one the change leads to, and
/// otherwise the refusal is the given one and the account stays as it was.
pub open spec fn carries_out(
    allowed: Result<AccountView, RejectView>,
    before: AccountView,
    after: AccountView,
    result: Result<(), Reject>,
) -> bool {
    match allowed {
        Ok(next) => result is Ok && after == next,
        Err(why) => result is Err && result->Err_0@ == why && after == before,
    }
}

impl View for Account {
    type V = AccountView;

    closed spec fn view(&self) -> AccountView {
        AccountView {
            client: self.client,
            available: self.available@,
            held: self.held@,
            locked: self.locked,
        }
    }
}

impl Account {
    #[verifier::type_invariant]
    pub open spec fn sound(self) -> bool {
        self@.valid()
    }

    /// An account with no funds, as created the first time a client is seen.
    pub fn new(client: u16) -> (account: Account)
        ensures
            account@ == opened(client),
    {
        Account { client, available: Amount::zero(), held: Amount::zero(), locked: false }
    }

    pub fn client(&self) -> (client: u16)
        ensures
            client == self@.client,
    {
        self.client
    }

    /// Funds free for trading, staking or withdrawal.
    pub fn available(&self) -> (available: Amount)
        ensures
            available@ == self@.available,
    {
        self.available
    }

    /// Funds frozen pending the outcome of a dispute.
    pub fn held(&self) -> (held: Amount)
        ensures
            held@ == self@.held,
    {
        self.held
    }

    /// Available plus held.
    pub fn total(&self) -> (total: Amount)
        ensures
            total@ == self@.total(),
            total@.units() == self@.available.units() + self@.held.units(),
    {
        proof {
            use_type_invariant(self);
            the_total_is_available_plus_held(self@);
        }
        self.available + self.held
    }

    /// Whether a chargeback has frozen this account.
    pub fn is_locked(&self) -> (locked: bool)
        ensures
            locked == self@.locked,
    {
        self.locked
    }

    /// Increases available funds. Used by a deposit.
    pub fn credit(&mut self, amount: Amount) -> (result: Result<(), Reject>)
        ensures
            carries_out(old(self)@.credited(amount@), old(self)@, final(self)@, result),
    {
        match money::exact_add(self.available, amount) {
            Some(available) => self.commit(available, self.held),
            None => Err(Reject::Unrepresentable),
        }
    }

    /// Decreases available funds, failing if they would not cover the amount.
    /// Used by a withdrawal.
    pub fn debit(&mut self, amount: Amount) -> (result: Result<(), Reject>)
        ensures
            carries_out(old(self)@.debited(amount@), old(self)@, final(self)@, result),
    {
        if self.available.is_less_than(amount) {
            return Err(
                Reject::InsufficientFunds {
                    client: self.client,
                    available: self.available,
                    requested: amount,
                },
            );
        }
        match money::exact_sub(self.available, amount) {
            Some(available) => self.commit(available, self.held),
            None => Err(Reject::Unrepresentable),
        }
    }

    /// Freezes funds the client already has. The total does not change.
    ///
    /// Available may go negative: a client can deposit, withdraw the proceeds,
    /// and only then have the deposit disputed. The negative balance is the
    /// honest record of what they owe.
    pub fn move_available_to_held(&mut self, amount: Amount) -> (result: Result<(), Reject>)
        ensures
            carries_out(old(self)@.frozen(amount@), old(self)@, final(self)@, result),
    {
        match (money::exact_sub(self.available, amount), money::exact_add(self.held, amount)) {
            (Some(available), Some(held)) => self.commit(available, held),
            _ => Err(Reject::Unrepresentable),
        }
    }

    /// Returns frozen funds to the client. The total does not change.
    pub fn move_held_to_available(&mut self, amount: Amount) -> (result: Result<(), Reject>)
        ensures
            carries_out(old(self)@.released(amount@), old(self)@, final(self)@, result),
    {
        match (money::exact_add(self.available, amount), money::exact_sub(self.held, amount)) {
            (Some(available), Some(held)) => self.commit(available, held),
            _ => Err(Reject::Unrepresentable),
        }
    }

    /// Freezes funds that are not in the account, raising the total. Used when a
    /// withdrawal is disputed and a refund becomes pending.
    pub fn add_held(&mut self, amount: Amount) -> (result: Result<(), Reject>)
        ensures
            carries_out(old(self)@.held_raised(amount@), old(self)@, final(self)@, result),
    {
        match money::exact_add(self.held, amount) {
            Some(held) => self.commit(self.available, held),
            None => Err(Reject::Unrepresentable),
        }
    }

    /// Removes frozen funds from the account entirely, lowering the total.
    pub fn remove_held(&mut self, amount: Amount) -> (result: Result<(), Reject>)
        ensures
            carries_out(old(self)@.held_lowered(amount@), old(self)@, final(self)@, result),
    {
        match money::exact_sub(self.held, amount) {
            Some(held) => self.commit(self.available, held),
            None => Err(Reject::Unrepresentable),
        }
    }

    /// Freezes the account. A chargeback is the only thing that does this, and
    /// nothing unfreezes it.
    pub fn lock(&mut self)
        ensures
            final(self)@ == (AccountView { locked: true, ..old(self)@ }),
    {
        proof {
            use_type_invariant(&*self);
        }
        self.locked = true;
    }

    /// Applies new balances once the total is known to be exactly representable.
    fn commit(&mut self, available: Amount, held: Amount) -> (result: Result<(), Reject>)
        ensures
            carries_out(
                old(self)@.with_balances(Some(available@), Some(held@)),
                old(self)@,
                final(self)@,
                result,
            ),
    {
        proof {
            use_type_invariant(&available);
            use_type_invariant(&held);
        }
        match money::exact_add(available, held) {
            Some(_) => {
                *self = Account { client: self.client, available, held, locked: self.locked };
                Ok(())
            },
            None => Err(Reject::Unrepresentable),
        }
    }
}

/// The total of a sound account is its available and held funds added up, to the
/// last decimal place.
pub proof fn the_total_is_available_plus_held(account: AccountView)
    requires
        account.valid(),
    ensures
        account.total().valid(),
        account.total().units() == account.available.units() + account.held.units(),
{
    money::exact_sums_never_round(account.available, account.held);
}

/// A credit raises available funds and the total by the amount, and touches
/// nothing else.
pub proof fn a_credit_raises_the_total(account: AccountView, amount: Figure)
    requires
        account.valid(),
        amount.valid(),
    ensures
        account.credited(amount) matches Ok(next) ==> {
            &&& next.valid()
            &&& next.available.units() == account.available.units() + amount.units()
            &&& next.total().units() == account.total().units() + amount.units()
            &&& next == (AccountView { available: next.available, ..account })
        },
{
    if account.credited(amount) is Ok {
        money::exact_sums_never_round(account.available, amount);
        the_total_is_available_plus_held(account);
        the_total_is_available_plus_held(account.credited(amount)->Ok_0);
    }
}

/// A debit lowers available funds and the total by the amount, touches nothing
/// else, and never takes available funds below zero.
pub proof fn a_debit_lowers_the_total(account: AccountView, amount: Figure)
    requires
        account.valid(),
        amount.valid(),
    ensures
        account.debited(amount) matches Ok(next) ==> {
            &&& next.valid()
            &&& next.available.units() == account.available.units() - amount.units()
            &&& next.available.units() >= 0
            &&& next.total().units() == account.total().units() - amount.units()
            &&& next == (AccountView { available: next.available, ..account })
        },
{
    if account.debited(amount) is Ok {
        money::exact_differences_never_round(account.available, amount);
        the_total_is_available_plus_held(account);
        the_total_is_available_plus_held(account.debited(amount)->Ok_0);
    }
}

/// Freezing funds moves the amount from available to held and leaves the total as
/// it was.
pub proof fn freezing_keeps_the_total(account: AccountView, amount: Figure)
    requires
        account.valid(),
        amount.valid(),
    ensures
        account.frozen(amount) matches Ok(next) ==> {
            &&& next.valid()
            &&& next.available.units() == account.available.units() - amount.units()
            &&& next.held.units() == account.held.units() + amount.units()
            &&& next.total().units() == account.total().units()
            &&& next.client == account.client
            &&& next.locked == account.locked
        },
{
    if account.frozen(amount) is Ok {
        money::exact_differences_never_round(account.available, amount);
        money::exact_sums_never_round(account.held, amount);
        the_total_is_available_plus_held(account);
        the_total_is_available_plus_held(account.frozen(amount)->Ok_0);
    }
}

/// Releasing funds moves the amount from held to available and leaves the total as
/// it was.
pub proof fn releasing_keeps_the_total(account: AccountView, amount: Figure)
    requires
        account.valid(),
        amount.valid(),
    ensures
        account.released(amount) matches Ok(next) ==> {
            &&& next.valid()
            &&& next.available.units() == account.available.units() + amount.units()
            &&& next.held.units() == account.held.units() - amount.units()
            &&& next.total().units() == account.total().units()
            &&& next.client == account.client
            &&& next.locked == account.locked
        },
{
    if account.released(amount) is Ok {
        money::exact_sums_never_round(account.available, amount);
        money::exact_differences_never_round(account.held, amount);
        the_total_is_available_plus_held(account);
        the_total_is_available_plus_held(account.released(amount)->Ok_0);
    }
}

/// Holding a pending refund raises held funds and the total by the amount, and
/// touches nothing else.
pub proof fn holding_a_refund_raises_the_total(account: AccountView, amount: Figure)
    requires
        account.valid(),
        amount.valid(),
    ensures
        account.held_raised(amount) matches Ok(next) ==> {
            &&& next.valid()
            &&& next.held.units() == account.held.units() + amount.units()
            &&& next.total().units() == account.total().units() + amount.units()
            &&& next == (AccountView { held: next.held, ..account })
        },
{
    if account.held_raised(amount) is Ok {
        money::exact_sums_never_round(account.held, amount);
        the_total_is_available_plus_held(account);
        the_total_is_available_plus_held(account.held_raised(amount)->Ok_0);
    }
}

/// Removing held funds lowers them and the total by the amount, and touches
/// nothing else.
pub proof fn removing_held_funds_lowers_the_total(account: AccountView, amount: Figure)
    requires
        account.valid(),
        amount.valid(),
    ensures
        account.held_lowered(amount) matches Ok(next) ==> {
            &&& next.valid()
            &&& next.held.units() == account.held.units() - amount.units()
            &&& next.total().units() == account.total().units() - amount.units()
            &&& next == (AccountView { held: next.held, ..account })
        },
{
    if account.held_lowered(amount) is Ok {
        money::exact_differences_never_round(account.held, amount);
        the_total_is_available_plus_held(account);
        the_total_is_available_plus_held(account.held_lowered(amount)->Ok_0);
    }
}

/// Whether two accounts belong to the same client, hold the same balances, however
/// many trailing zeros those carry, and are both locked or both not.
pub open spec fn same_balances(left: AccountView, right: AccountView) -> bool {
    &&& left.client == right.client
    &&& left.locked == right.locked
    &&& left.available.units() == right.available.units()
    &&& left.held.units() == right.held.units()
}

/// The two move methods are inverses: what one of them does to an account, the
/// other undoes.
pub proof fn the_two_moves_are_inverses(account: AccountView, amount: Figure)
    requires
        account.valid(),
        amount.valid(),
    ensures
        account.frozen(amount) matches Ok(next) ==> (next.released(amount) matches Ok(back)
            ==> same_balances(back, account)),
        account.released(amount) matches Ok(next) ==> (next.frozen(amount) matches Ok(back)
            ==> same_balances(back, account)),
{
    freezing_keeps_the_total(account, amount);
    releasing_keeps_the_total(account, amount);
    if account.frozen(amount) is Ok {
        releasing_keeps_the_total(account.frozen(amount)->Ok_0, amount);
    }
    if account.released(amount) is Ok {
        freezing_keeps_the_total(account.released(amount)->Ok_0, amount);
    }
}

/// The two held methods are inverses: what one of them does to an account, the
/// other undoes.
pub proof fn the_two_held_changes_are_inverses(account: AccountView, amount: Figure)
    requires
        account.valid(),
        amount.valid(),
    ensures
        account.held_raised(amount) matches Ok(next) ==> (next.held_lowered(amount) matches Ok(back)
            ==> same_balances(back, account)),
        account.held_lowered(amount) matches Ok(next) ==> (next.held_raised(amount) matches Ok(back)
            ==> same_balances(back, account)),
{
    holding_a_refund_raises_the_total(account, amount);
    removing_held_funds_lowers_the_total(account, amount);
    if account.held_raised(amount) is Ok {
        removing_held_funds_lowers_the_total(account.held_raised(amount)->Ok_0, amount);
    }
    if account.held_lowered(amount) is Ok {
        holding_a_refund_raises_the_total(account.held_lowered(amount)->Ok_0, amount);
    }
}

impl AccountView {
    /// Whether both balances and their total fit a decimal with `places` decimal
    /// places, and need no more of them than that.
    pub open spec fn fits_within(self, places: nat) -> bool {
        let available = self.available.at_scale(places);
        let held = self.held.at_scale(places);
        &&& self.available.scale <= places
        &&& self.held.scale <= places
        &&& money::countable(available)
        &&& money::countable(held)
        &&& money::countable(available + held)
    }
}

/// Whether a change of an account is accepted and leads to balances that fit, the
/// available funds having changed by `available` and the held ones by `held`,
/// counted in units of the last of `places` decimal places.
pub open spec fn accepted(
    changed: Result<AccountView, RejectView>,
    account: AccountView,
    available: int,
    held: int,
    places: nat,
) -> bool {
    &&& changed is Ok
    &&& changed->Ok_0.fits_within(places)
    &&& changed->Ok_0.available.at_scale(places) == account.available.at_scale(places) + available
    &&& changed->Ok_0.held.at_scale(places) == account.held.at_scale(places) + held
}

/// A change that leads to balances which fit is never refused as unrepresentable.
/// With four decimal places there is room for balances of up to some 7.9e24.
#[verifier::rlimit(40)]
pub proof fn balances_that_fit_are_accepted(account: AccountView, amount: Figure, places: nat)
    requires
        account.valid(),
        amount.valid(),
        account.available.scale <= places,
        account.held.scale <= places,
        amount.scale <= places,
    ensures
        ({
            let available = account.available.at_scale(places);
            let held = account.held.at_scale(places);
            let moved = amount.at_scale(places);
            let room = |a: int, h: int|
                money::countable(a) && money::countable(h) && money::countable(a + h);
            &&& room(available + moved, held) ==> accepted(
                account.credited(amount),
                account,
                moved,
                0,
                places,
            )
            &&& room(available - moved, held) && account.available.units() >= amount.units()
                ==> accepted(account.debited(amount), account, -moved, 0, places)
            &&& room(available - moved, held + moved) ==> accepted(
                account.frozen(amount),
                account,
                -moved,
                moved,
                places,
            )
            &&& room(available + moved, held - moved) ==> accepted(
                account.released(amount),
                account,
                moved,
                -moved,
                places,
            )
            &&& room(available, held + moved) ==> accepted(
                account.held_raised(amount),
                account,
                0,
                moved,
                places,
            )
            &&& room(available, held - moved) ==> accepted(
                account.held_lowered(amount),
                account,
                0,
                -moved,
                places,
            )
        }),
{
    let available = account.available;
    let held = account.held;
    let a = available.at_scale(places);
    let h = held.at_scale(places);
    let moved = amount.at_scale(places);
    if money::countable(a + moved) {
        money::sums_within_range_are_accepted(available, amount, places);
        money::exact_sums_never_round(available, amount);
    }
    if money::countable(a - moved) {
        money::differences_within_range_are_accepted(available, amount, places);
        money::exact_differences_never_round(available, amount);
    }
    if money::countable(h + moved) {
        money::sums_within_range_are_accepted(held, amount, places);
        money::exact_sums_never_round(held, amount);
    }
    if money::countable(h - moved) {
        money::differences_within_range_are_accepted(held, amount, places);
        money::exact_differences_never_round(held, amount);
    }
    let raised = money::exact_sum(available, amount);
    let lowered = money::exact_difference(available, amount);
    let more = money::exact_sum(held, amount);
    let less = money::exact_difference(held, amount);
    if money::countable(a + moved) && money::countable(a + moved + h) {
        money::sums_within_range_are_accepted(raised->0, held, places);
    }
    if money::countable(a - moved) && money::countable(a - moved + h) {
        money::sums_within_range_are_accepted(lowered->0, held, places);
    }
    if money::countable(a - moved) && money::countable(h + moved) && money::countable(a + h) {
        money::sums_within_range_are_accepted(lowered->0, more->0, places);
    }
    if money::countable(a + moved) && money::countable(h - moved) && money::countable(a + h) {
        money::sums_within_range_are_accepted(raised->0, less->0, places);
    }
    if money::countable(h + moved) && money::countable(a + h + moved) {
        money::sums_within_range_are_accepted(available, more->0, places);
    }
    if money::countable(h - moved) && money::countable(a + h - moved) {
        money::sums_within_range_are_accepted(available, less->0, places);
    }
}

/// A difference that was taken and then added back can be taken again, with the
/// same outcome but for trailing zeros.
proof fn lemma_subtract_again(figure: Figure, amount: Figure)
    requires
        figure.valid(),
        amount.valid(),
        money::exact_difference(figure, amount) is Some,
        money::exact_sum(money::exact_difference(figure, amount)->0, amount) is Some,
    ensures
        ({
            let first = money::exact_difference(figure, amount)->0;
            let back = money::exact_sum(first, amount)->0;
            let again = money::exact_difference(back, amount);
            &&& again is Some
            &&& again->0.valid()
            &&& again->0.units() == first.units()
            &&& again->0.scale <= first.scale || first.is_zero()
        }),
{
    let first = money::exact_difference(figure, amount)->0;
    money::exact_differences_never_round(figure, amount);
    money::exact_sums_never_round(first, amount);
    let back = money::exact_sum(first, amount)->0;
    let top = money::MAX_SCALE as nat;
    money::lemma_zero(figure, top);
    money::lemma_zero(back, top);
    money::lemma_zero(first, top);
    if !back.is_zero() && !amount.is_zero() {
        money::only_differences_that_do_not_fit_are_refused(back, amount, first);
    }
    money::exact_differences_never_round(back, amount);
}

/// A sum that was made and then undone can be made again, with the same outcome but
/// for trailing zeros.
proof fn lemma_add_again(figure: Figure, amount: Figure)
    requires
        figure.valid(),
        amount.valid(),
        money::exact_sum(figure, amount) is Some,
        money::exact_difference(money::exact_sum(figure, amount)->0, amount) is Some,
    ensures
        ({
            let first = money::exact_sum(figure, amount)->0;
            let back = money::exact_difference(first, amount)->0;
            let again = money::exact_sum(back, amount);
            &&& again is Some
            &&& again->0.valid()
            &&& again->0.units() == first.units()
            &&& again->0.scale <= first.scale || first.is_zero()
        }),
{
    let first = money::exact_sum(figure, amount)->0;
    money::exact_sums_never_round(figure, amount);
    money::exact_differences_never_round(first, amount);
    let back = money::exact_difference(first, amount)->0;
    let top = money::MAX_SCALE as nat;
    money::lemma_zero(figure, top);
    money::lemma_zero(back, top);
    money::lemma_zero(first, top);
    if !back.is_zero() && !amount.is_zero() {
        money::only_sums_that_do_not_fit_are_refused(back, amount, first);
    }
    money::exact_sums_never_round(back, amount);
}

/// Two balances that are those of a sound account, but for trailing zeros they have
/// lost, have an exact total.
proof fn lemma_total_again(account: AccountView, available: Figure, held: Figure)
    requires
        account.valid(),
        available.valid(),
        held.valid(),
        available.units() == account.available.units(),
        held.units() == account.held.units(),
        available.scale <= account.available.scale || available.is_zero(),
        held.scale <= account.held.scale || held.is_zero(),
    ensures
        money::exact_sum(available, held) is Some,
{
    let top = money::MAX_SCALE as nat;
    money::lemma_zero(available, top);
    money::lemma_zero(account.available, top);
    money::lemma_zero(held, top);
    money::lemma_zero(account.held, top);
    the_total_is_available_plus_held(account);
    if !available.is_zero() && !held.is_zero() {
        money::only_sums_that_do_not_fit_are_refused(available, held, account.total());
    }
}

/// What was undone can be done again: an amount that was frozen and released can be
/// frozen once more, and a refund that was held and dropped can be held once more.
pub proof fn what_was_undone_can_be_done_again(account: AccountView, amount: Figure)
    requires
        account.valid(),
        amount.valid(),
    ensures
        account.frozen(amount) matches Ok(next) ==> (next.released(amount) matches Ok(back)
            ==> back.frozen(amount) is Ok),
        account.held_raised(amount) matches Ok(next) ==> (next.held_lowered(amount) matches Ok(back)
            ==> back.held_raised(amount) is Ok),
{
    let top = money::MAX_SCALE as nat;
    freezing_keeps_the_total(account, amount);
    holding_a_refund_raises_the_total(account, amount);
    if account.frozen(amount) is Ok {
        let next = account.frozen(amount)->Ok_0;
        if next.released(amount) is Ok {
            let back = next.released(amount)->Ok_0;
            lemma_subtract_again(account.available, amount);
            lemma_add_again(account.held, amount);
            let available = money::exact_difference(back.available, amount)->0;
            let held = money::exact_sum(back.held, amount)->0;
            money::lemma_zero(available, top);
            money::lemma_zero(next.available, top);
            money::lemma_zero(held, top);
            money::lemma_zero(next.held, top);
            lemma_total_again(next, available, held);
        }
    }
    if account.held_raised(amount) is Ok {
        let next = account.held_raised(amount)->Ok_0;
        if next.held_lowered(amount) is Ok {
            let back = next.held_lowered(amount)->Ok_0;
            lemma_add_again(account.held, amount);
            let held = money::exact_sum(back.held, amount)->0;
            money::lemma_zero(held, top);
            money::lemma_zero(next.held, top);
            lemma_total_again(next, back.available, held);
        }
    }
}

/// An open claim can be settled either way. Where an account holds a positive amount,
/// with at least its decimal places, and owes nothing in total, neither releasing
/// the amount nor taking it away is refused.
pub proof fn an_open_claim_can_be_settled(account: AccountView, amount: Figure)
    requires
        account.valid(),
        amount.valid(),
        0 < amount.units() <= account.held.units(),
        amount.scale <= account.held.scale,
        account.available.units() + account.held.units() >= 0,
    ensures
        account.released(amount) is Ok,
        account.held_lowered(amount) is Ok,
{
    let top = money::MAX_SCALE as nat;
    let available = account.available;
    let total = account.total();
    the_total_is_available_plus_held(account);
    money::lemma_zero(amount, top);
    money::lemma_zero(available, top);
    money::lemma_zero(account.held, top);
    money::differences_no_larger_than_a_figure_are_accepted(account.held, amount, account.held);
    money::exact_differences_never_round(account.held, amount);
    let held = money::exact_difference(account.held, amount)->0;
    if !available.is_zero() {
        if available.units() + amount.units() >= 0 {
            money::sums_no_larger_than_a_figure_are_accepted(available, amount, total);
        } else if available.scale >= amount.scale {
            money::sums_no_larger_than_a_figure_are_accepted(available, amount, available);
        } else {
            money::sums_no_larger_than_a_figure_are_accepted(available, amount, account.held);
        }
    }
    money::exact_sums_never_round(available, amount);
    let raised = money::exact_sum(available, amount)->0;
    if !raised.is_zero() && !held.is_zero() {
        money::sums_no_larger_than_a_figure_are_accepted(raised, held, total);
    }
    if !available.is_zero() && !held.is_zero() {
        if available.units() + held.units() >= 0 {
            money::sums_no_larger_than_a_figure_are_accepted(available, held, total);
        } else if account.held.scale >= available.scale {
            money::sums_no_larger_than_a_figure_are_accepted(available, held, account.held);
        } else {
            money::sums_no_larger_than_a_figure_are_accepted(available, held, available);
        }
    }
}

/// Whether two new balances can be kept: each is exact, and so is their total.
pub open spec fn can_be_kept(available: Option<Figure>, held: Option<Figure>) -> bool {
    available is Some && held is Some && money::exact_sum(available->0, held->0) is Some
}

/// A change of an account is refused for want of funds only where a debit asks for
/// more than is available, and otherwise exactly where the new balances cannot be
/// kept. Held funds, the client and the lock have no say in it.
pub proof fn when_a_change_is_refused(account: AccountView, amount: Figure)
    ensures
        ({
            let more = money::exact_sum(account.available, amount);
            let less = money::exact_difference(account.available, amount);
            let held_more = money::exact_sum(account.held, amount);
            let held_less = money::exact_difference(account.held, amount);
            let verdict = |changed: Result<AccountView, RejectView>, kept: bool|
                (changed is Ok <==> kept) && (changed matches Err(why) ==> why
                    == RejectView::Unrepresentable);
            &&& verdict(account.credited(amount), can_be_kept(more, Some(account.held)))
            &&& account.available.units() >= amount.units() ==> verdict(
                account.debited(amount),
                can_be_kept(less, Some(account.held)),
            )
            &&& account.available.units() < amount.units() ==> account.debited(amount) == Err::<
                AccountView,
                RejectView,
            >(
                RejectView::InsufficientFunds {
                    client: account.client,
                    available: account.available,
                    requested: amount,
                },
            )
            &&& verdict(account.frozen(amount), can_be_kept(less, held_more))
            &&& verdict(account.released(amount), can_be_kept(more, held_less))
            &&& verdict(
                account.held_raised(amount),
                can_be_kept(Some(account.available), held_more),
            )
            &&& verdict(
                account.held_lowered(amount),
                can_be_kept(Some(account.available), held_less),
            )
        }),
{
}

/// An account is opened for its client with nothing in it, and not locked.
pub proof fn an_account_is_opened_empty(client: u16)
    ensures
        opened(client).client == client,
        opened(client).available.units() == 0,
        opened(client).held.units() == 0,
        opened(client).total().units() == 0,
        !opened(client).locked,
{
    money::lemma_zero(money::zero_figure(), money::MAX_SCALE as nat);
}

/// A change that is carried out succeeds exactly when it is allowed and leads where
/// it should; one that is refused gives the reason and leaves the account alone.
pub proof fn a_refused_change_leaves_the_account_alone(
    allowed: Result<AccountView, RejectView>,
    before: AccountView,
    after: AccountView,
    result: Result<(), Reject>,
)
    requires
        carries_out(allowed, before, after, result),
    ensures
        result is Ok <==> allowed is Ok,
        result is Ok ==> after == allowed->Ok_0,
        result is Err ==> after == before && result->Err_0@ == allowed->Err_0,
{
}

} // verus!
