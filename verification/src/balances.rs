use crate::numeric::{checked_add_u128, checked_sub_u128, zero_u128};
use crate::store::Store;
use crate::support::{outcome_is, Dispatch, DispatchResult};
use crate::types::{AccountId, Balance};
use vstd::prelude::*;

verus! {

/// The balance that the map `m` gives `who`: zero where it has no entry.
pub open spec fn balance_in(m: Map<Seq<char>, u128>, who: Seq<char>) -> u128 {
    if m.contains_key(who) {
        m[who]
    } else {
        0
    }
}

/// Why a transfer of `amount` from `from` to `to` fails on the balances `m`,
/// or `None` where it succeeds. The sender's funds are looked at first.
pub open spec fn transfer_error(
    m: Map<Seq<char>, u128>,
    from: Seq<char>,
    to: Seq<char>,
    amount: u128,
) -> Option<Seq<char>> {
    if balance_in(m, from) < amount {
        Some("Insufficient balance"@)
    } else if balance_in(m, to) + amount > u128::MAX {
        Some("Overflow"@)
    } else {
        None
    }
}

/// The balances after a transfer of `amount` from `from` to `to` on the
/// balances `m`. A failed transfer changes nothing. Otherwise the amount is
/// taken from the sender, and then added to what the receiver holds at that
/// moment: an account that sends to itself ends with what it had.
pub open spec fn transfer_effect(
    m: Map<Seq<char>, u128>,
    from: Seq<char>,
    to: Seq<char>,
    amount: u128,
) -> Map<Seq<char>, u128> {
    if transfer_error(m, from, to, amount).is_some() {
        m
    } else {
        let taken = m.insert(from, (balance_in(m, from) - amount) as u128);
        taken.insert(to, (balance_in(taken, to) + amount) as u128)
    }
}

/// Why the call `call` of `caller` fails on the balances `m`, or `None`.
pub open spec fn call_error(m: Map<Seq<char>, u128>, caller: Seq<char>, call: Call) -> Option<
    Seq<char>,
> {
    match call {
        Call::Transfer { to, amount } => transfer_error(m, caller, to@, amount),
    }
}

/// The balances after the call `call` of `caller` on the balances `m`.
pub open spec fn call_effect(m: Map<Seq<char>, u128>, caller: Seq<char>, call: Call) -> Map<
    Seq<char>,
    u128,
> {
    match call {
        Call::Transfer { to, amount } => transfer_effect(m, caller, to@, amount),
    }
}

/// The ledger: the balance of each account.
#[derive(Debug)]
pub struct Pallet {
    balances: Store<Balance>,
}

/// The calls that the ledger takes.
pub enum Call {
    Transfer { to: AccountId, amount: Balance },
}

impl Pallet {
    /// The invariant of the representation.
    pub closed spec fn wf(&self) -> bool {
        self.balances.wf()
    }

    /// The balances that are stored, by account.
    pub closed spec fn balances(&self) -> Map<Seq<char>, u128> {
        self.balances@
    }

    /// The balance of `who`: zero for an account that was never written.
    pub open spec fn spec_balance(&self, who: Seq<char>) -> u128 {
        balance_in(self.balances(), who)
    }

    pub fn new() -> (p: Self)
        ensures
            p.wf(),
            p.balances() == Map::<Seq<char>, u128>::empty(),
            forall|who: Seq<char>| p.spec_balance(who) == 0,
    {
        Pallet { balances: Store::new() }
    }

    /// Overwrites the balance of `who`.
    pub fn set_balance(&mut self, who: &AccountId, amount: Balance)
        requires
            old(self).wf(),
        ensures
            final(self).wf(),
            final(self).balances() == old(self).balances().insert(who@, amount),
    {
        self.balances.insert(who.clone(), amount);
    }

    pub fn balance(&self, who: &AccountId) -> (b: Balance)
        requires
            self.wf(),
        ensures
            b == self.spec_balance(who@),
    {
        match self.balances.get(who) {
            Some(b) => *b,
            None => zero_u128(),
        }
    }

    /// Moves `amount` from `from` to `to`, or fails and changes nothing.
    pub fn transfer(&mut self, from: AccountId, to: AccountId, amount: Balance) -> (r:
        DispatchResult)
        requires
            old(self).wf(),
        ensures
            final(self).wf(),
            outcome_is(r, transfer_error(old(self).balances(), from@, to@, amount)),
            final(self).balances() == transfer_effect(old(self).balances(), from@, to@, amount),
            r.is_err() ==> *final(self) == *old(self),
    {
        let caller_balance = self.balance(&from);
        let to_balance = self.balance(&to);
        let new_caller_balance = match checked_sub_u128(caller_balance, amount) {
            Some(b) => b,
            None => {
                return Err("Insufficient balance");
            },
        };
        if checked_add_u128(to_balance, amount).is_none() {
            return Err("Overflow");
        }
        self.set_balance(&from, new_caller_balance);
        let new_to_balance = self.balance(&to) + amount;
        self.set_balance(&to, new_to_balance);
        Ok(())
    }
}

impl Dispatch for Pallet {
    type Caller = AccountId;

    type Call = Call;

    open spec fn ready(&self) -> bool {
        self.wf()
    }

    /// Routes a call to the operation it names.
    fn dispatch(&mut self, caller: AccountId, call: Call) -> (r: DispatchResult)
        ensures
            outcome_is(r, call_error(old(self).balances(), caller@, call)),
            final(self).balances() == call_effect(old(self).balances(), caller@, call),
            r.is_err() ==> *final(self) == *old(self),
    {
        match call {
            Call::Transfer { to, amount } => self.transfer(caller, to, amount),
        }
    }
}

/// A successful transfer takes `amount` from the sender and gives it to the
/// receiver: the sum of the two balances stays what it was, and no other
/// account's balance changes. Between two different accounts the sender has
/// `amount` less and the receiver `amount` more; an account that sends to
/// itself has what it had.
pub proof fn lemma_transfer_conserves(
    m: Map<Seq<char>, u128>,
    from: Seq<char>,
    to: Seq<char>,
    amount: u128,
)
    requires
        transfer_error(m, from, to, amount).is_none(),
    ensures
        balance_in(transfer_effect(m, from, to, amount), from) + balance_in(
            transfer_effect(m, from, to, amount),
            to,
        ) == balance_in(m, from) + balance_in(m, to),
        from != to ==> balance_in(transfer_effect(m, from, to, amount), from) == balance_in(
            m,
            from,
        ) - amount,
        from != to ==> balance_in(transfer_effect(m, from, to, amount), to) == balance_in(m, to)
            + amount,
        from == to ==> balance_in(transfer_effect(m, from, to, amount), from) == balance_in(
            m,
            from,
        ),
        forall|who: Seq<char>|
            who != from && who != to ==> balance_in(transfer_effect(m, from, to, amount), who)
                == balance_in(m, who),
{
}

/// A transfer that fails leaves every balance as it was, and the reason is
/// the want of funds exactly where the sender holds less than the amount.
pub proof fn lemma_failed_transfer_changes_nothing(
    m: Map<Seq<char>, u128>,
    from: Seq<char>,
    to: Seq<char>,
    amount: u128,
)
    requires
        transfer_error(m, from, to, amount).is_some(),
    ensures
        transfer_effect(m, from, to, amount) == m,
        transfer_error(m, from, to, amount) == Some("Insufficient balance"@) <==> balance_in(
            m,
            from,
        ) < amount,
{
    reveal_strlit("Insufficient balance");
    reveal_strlit("Overflow");
    if balance_in(m, from) >= amount {
        assert("Overflow"@.len() != "Insufficient balance"@.len());
    }
}

} // verus!
