//! The withdrawal vault: what each predictor has won and not yet collected.
//!
//! As mathematics the vault is a map that gives every address a balance,
//! zero for an address that never won. In memory only the addresses that
//! were credited have an entry; an entry is zeroed by a withdrawal and never
//! removed.

use vstd::prelude::*;
use crate::address::Address;
use crate::error::Error;
use crate::rewards::{distinct_recipients, lemma_paid_to_at, paid_to, Reward};
use crate::uint::{u256_max, U256};

verus! {

/// Whether every balance can take the reward meant for it and still fit in
/// 256 bits.
pub open spec fn credits_fit(vault: Map<Address, nat>, rewards: Seq<Reward>) -> bool {
    forall|i: int|
        0 <= i < rewards.len() ==> vault[(#[trigger] rewards[i]).predictor] + rewards[i].amount@
            <= u256_max()
}

/// The vault after every reward was added to the balance of its recipient.
pub open spec fn credited(vault: Map<Address, nat>, rewards: Seq<Reward>) -> Map<Address, nat> {
    Map::total(|a: Address| vault[a] + paid_to(rewards, a))
}

/// What the vault owes to one address.
#[derive(Clone, Copy, Debug)]
struct Balance {
    owner: Address,
    amount: U256,
}

/// Whether `owner` has an entry.
spec fn owned(entries: Seq<Balance>, owner: Address) -> bool {
    exists|i: int| 0 <= i < entries.len() && (#[trigger] entries[i]).owner == owner
}

/// The balance of `owner`: what its entry says, and zero without one.
spec fn balance_in(entries: Seq<Balance>, owner: Address) -> nat {
    if owned(entries, owner) {
        let i = choose|i: int| 0 <= i < entries.len() && (#[trigger] entries[i]).owner == owner;
        entries[i].amount@
    } else {
        0
    }
}

/// No address has two entries.
spec fn distinct_owners(entries: Seq<Balance>) -> bool {
    forall|i: int, j: int|
        0 <= i < j < entries.len() ==> (#[trigger] entries[i]).owner != (#[trigger] entries[j]).owner
}

/// With one entry per address, an address's balance is what its entry says.
proof fn lemma_balance_at(entries: Seq<Balance>, i: int)
    requires
        distinct_owners(entries),
        0 <= i < entries.len(),
    ensures
        owned(entries, entries[i].owner),
        balance_in(entries, entries[i].owner) == entries[i].amount@,
{
}

/// Replacing the amount in one entry changes that owner's balance and no
/// other.
proof fn lemma_entry_replaced(entries: Seq<Balance>, i: int, amount: U256)
    requires
        distinct_owners(entries),
        0 <= i < entries.len(),
    ensures
        distinct_owners(entries.update(i, Balance { owner: entries[i].owner, amount })),
        forall|a: Address|
            balance_in(
                entries.update(i, Balance { owner: entries[i].owner, amount }),
                a,
            ) == if a == entries[i].owner {
                amount@
            } else {
                balance_in(entries, a)
            },
{
    let owner = entries[i].owner;
    let next = entries.update(i, Balance { owner, amount });
    assert forall|a: Address| balance_in(next, a) == if a == owner {
        amount@
    } else {
        balance_in(entries, a)
    } by {
        if a == owner {
            lemma_balance_at(next, i);
        } else if owned(entries, a) {
            let j = choose|j: int| 0 <= j < entries.len() && (#[trigger] entries[j]).owner == a;
            lemma_balance_at(next, j);
        }
    }
}

/// Appending an entry for an address that had none gives that address the
/// new balance and changes no other.
proof fn lemma_entry_added(entries: Seq<Balance>, entry: Balance)
    requires
        distinct_owners(entries),
        !owned(entries, entry.owner),
    ensures
        distinct_owners(entries.push(entry)),
        forall|a: Address|
            balance_in(entries.push(entry), a) == if a == entry.owner {
                entry.amount@
            } else {
                balance_in(entries, a)
            },
{
    let next = entries.push(entry);
    let last = entries.len() as int;
    assert forall|a: Address| balance_in(next, a) == if a == entry.owner {
        entry.amount@
    } else {
        balance_in(entries, a)
    } by {
        if a == entry.owner {
            lemma_balance_at(next, last);
        } else if owned(entries, a) {
            let j = choose|j: int| 0 <= j < entries.len() && (#[trigger] entries[j]).owner == a;
            lemma_balance_at(next, j);
        }
    }
}

/// The balances that predictors may withdraw.
#[derive(Debug)]
pub struct WithdrawalVault {
    entries: Vec<Balance>,
}

impl View for WithdrawalVault {
    type V = Map<Address, nat>;

    closed spec fn view(&self) -> Map<Address, nat> {
        Map::total(|a: Address| balance_in(self.entries@, a))
    }
}

impl WithdrawalVault {
    /// The vault's invariant: no address has two entries.
    pub closed spec fn wf(&self) -> bool {
        distinct_owners(self.entries@)
    }

    /// The vault gives every address a balance, and each fits in 256 bits.
    pub proof fn lemma_total(&self)
        ensures
            self@.dom() == Set::<Address>::full(),
            forall|a: Address| #[trigger] self@[a] <= u256_max(),
    {
    }

    /// A vault that owes nothing to anyone.
    pub fn new() -> (vault: WithdrawalVault)
        ensures
            vault.wf(),
            vault@ == Map::total(|a: Address| 0nat),
    {
        WithdrawalVault { entries: Vec::new() }
    }

    /// Where the entry of `owner` stands, if there is one.
    fn position(&self, owner: Address) -> (r: Option<usize>)
        ensures
            match r {
                Some(i) => i < self.entries@.len() && self.entries@[i as int].owner == owner,
                None => !owned(self.entries@, owner),
            },
    {
        let mut i: usize = 0;
        while i < self.entries.len()
            invariant
                i <= self.entries.len(),
                forall|j: int| 0 <= j < i ==> (#[trigger] self.entries@[j]).owner != owner,
            decreases self.entries.len() - i,
        {
            if self.entries[i].owner == owner {
                return Some(i);
            }
            i += 1;
        }
        None
    }

    /// What `owner` may withdraw.
    pub fn balance_of(&self, owner: Address) -> (r: U256)
        requires
            self.wf(),
        ensures
            r@ == self@[owner],
    {
        match self.position(owner) {
            Some(i) => self.entries[i].amount,
            None => U256::zero(),
        }
    }

    /// Adds `amount` to what `predictor` may withdraw. The new balance must
    /// fit in 256 bits.
    pub fn credit(&mut self, predictor: Address, amount: U256)
        requires
            old(self).wf(),
            old(self)@[predictor] + amount@ <= u256_max(),
        ensures
            final(self).wf(),
            final(self)@ == old(self)@.insert(predictor, old(self)@[predictor] + amount@),
    {
        match self.position(predictor) {
            Some(i) => {
                let raised = self.entries[i].amount.checked_add(amount).unwrap();
                proof {
                    lemma_entry_replaced(self.entries@, i as int, raised);
                }
                self.entries[i] = Balance { owner: predictor, amount: raised };
            },
            None => {
                let entry = Balance { owner: predictor, amount };
                proof {
                    lemma_entry_added(self.entries@, entry);
                }
                self.entries.push(entry);
            },
        }
    }

    /// Credits every reward to its recipient. The recipients must be
    /// distinct, and every new balance must fit in 256 bits.
    pub fn credit_all(&mut self, rewards: &Vec<Reward>)
        requires
            old(self).wf(),
            distinct_recipients(rewards@),
            credits_fit(old(self)@, rewards@),
        ensures
            final(self).wf(),
            final(self)@ == credited(old(self)@, rewards@),
    {
        let mut i: usize = 0;
        while i < rewards.len()
            invariant
                i <= rewards.len(),
                self.wf(),
                distinct_recipients(rewards@),
                credits_fit(old(self)@, rewards@),
                self@ == credited(old(self)@, rewards@.take(i as int)),
            decreases rewards.len() - i,
        {
            let reward = rewards[i];
            proof {
                // Among the rewards up to this one, this one alone names its
                // recipient.
                lemma_paid_to_at(rewards@.take(i as int + 1), i as int);
            }
            self.credit(reward.predictor, reward.amount);
            i += 1;
        }
        assert(rewards@.take(i as int) =~= rewards@);
    }

    /// Takes everything `caller` may withdraw out of the vault.
    ///
    /// Fails with `NoRewardsAvailable`, changing nothing, exactly when the
    /// balance is zero. Otherwise the balance is set to zero and the amount
    /// that was there is returned, to be paid out.
    pub fn withdraw(&mut self, caller: Address) -> (r: Result<U256, Error>)
        requires
            old(self).wf(),
        ensures
            final(self).wf(),
            old(self)@[caller] == 0 ==> r == Err::<U256, Error>(Error::NoRewardsAvailable)
                && final(self)@ == old(self)@,
            old(self)@[caller] > 0 ==> {
                &&& r matches Ok(amount)
                &&& amount@ == old(self)@[caller]
                &&& final(self)@ == old(self)@.insert(caller, 0)
            },
    {
        match self.position(caller) {
            Some(i) => {
                let amount = self.entries[i].amount;
                if amount.is_zero() {
                    return Err(Error::NoRewardsAvailable);
                }
                let cleared = U256::zero();
                proof {
                    lemma_entry_replaced(self.entries@, i as int, cleared);
                }
                self.entries[i] = Balance { owner: caller, amount: cleared };
                Ok(amount)
            },
            None => Err(Error::NoRewardsAvailable),
        }
    }
}

} // verus!
