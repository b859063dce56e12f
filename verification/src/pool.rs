//! The stake ledger of one match: two parties, the stakes placed on each, and
//! the running totals.

use vstd::prelude::*;
use crate::address::Address;
use crate::error::Error;
use crate::uint::{u256_max, U256};

verus! {

/// One of the two sides of a match.
#[derive(Clone, Copy, Debug, PartialEq, Eq, Structural)]
pub enum Party {
    One,
    Two,
}

impl Party {
    /// The party that a number names: 1 and 2 name one each, nothing else does.
    pub open spec fn from_number(n: nat) -> Option<Party> {
        if n == 1 {
            Some(Party::One)
        } else if n == 2 {
            Some(Party::Two)
        } else {
            None
        }
    }

    /// The number that names this party.
    pub open spec fn number(self) -> nat {
        match self {
            Party::One => 1,
            Party::Two => 2,
        }
    }

    /// Reads a party from the word a caller passed.
    pub fn from_u256(n: U256) -> (r: Option<Party>)
        ensures
            r == Party::from_number(n@),
    {
        let one = U256::from_u64(1);
        let two = U256::from_u64(2);
        if n == one {
            Some(Party::One)
        } else if n == two {
            Some(Party::Two)
        } else {
            None
        }
    }

    /// The word that names this party.
    pub fn to_u256(self) -> (r: U256)
        ensures
            r@ == self.number(),
            Party::from_number(r@) == Some(self),
    {
        match self {
            Party::One => U256::from_u64(1),
            Party::Two => U256::from_u64(2),
        }
    }
}

/// What one predictor put on a party.
#[derive(Clone, Copy, Debug, PartialEq, Eq, Structural)]
pub struct Stake {
    pub predictor: Address,
    pub amount: U256,
}

/// The sum of the amounts in a list of stakes.
pub open spec fn stake_sum(stakes: Seq<Stake>) -> nat
    decreases stakes.len(),
{
    if stakes.len() == 0 {
        0
    } else {
        stake_sum(stakes.drop_last()) + stakes.last().amount@
    }
}

/// Whether `predictor` placed one of the stakes in the list.
pub open spec fn backs(stakes: Seq<Stake>, predictor: Address) -> bool {
    exists|i: int| 0 <= i < stakes.len() && (#[trigger] stakes[i]).predictor == predictor
}

/// No predictor placed two of the stakes in the list.
pub open spec fn distinct_predictors(stakes: Seq<Stake>) -> bool {
    forall|i: int, j: int|
        0 <= i < j < stakes.len() ==> (#[trigger] stakes[i]).predictor != (
        #[trigger] stakes[j]).predictor
}

/// No predictor placed a stake in both lists.
pub open spec fn disjoint_predictors(left: Seq<Stake>, right: Seq<Stake>) -> bool {
    forall|i: int, j: int|
        0 <= i < left.len() && 0 <= j < right.len() ==> (#[trigger] left[i]).predictor != (
        #[trigger] right[j]).predictor
}

/// Adding a stake to the end of a list adds its amount to the sum.
pub proof fn lemma_stake_sum_push(stakes: Seq<Stake>, stake: Stake)
    ensures
        stake_sum(stakes.push(stake)) == stake_sum(stakes) + stake.amount@,
{
    assert(stakes.push(stake).drop_last() =~= stakes);
}

/// No single stake is larger than the sum of the list it stands in.
pub proof fn lemma_stake_within_sum(stakes: Seq<Stake>, i: int)
    requires
        0 <= i < stakes.len(),
    ensures
        stakes[i].amount@ <= stake_sum(stakes),
    decreases stakes.len(),
{
    if i < stakes.len() - 1 {
        lemma_stake_within_sum(stakes.drop_last(), i);
    }
}

/// The stakes placed so far never add up to more than all of them.
pub proof fn lemma_stake_sum_prefix(stakes: Seq<Stake>, n: int)
    requires
        0 <= n <= stakes.len(),
    ensures
        stake_sum(stakes.take(n)) <= stake_sum(stakes),
    decreases stakes.len(),
{
    if n == stakes.len() {
        assert(stakes.take(n) =~= stakes);
    } else {
        assert(stakes.drop_last().take(n) =~= stakes.take(n));
        lemma_stake_sum_prefix(stakes.drop_last(), n);
    }
}

/// Whether two lists of stakes can be the two sides of a pool: no predictor
/// twice, and a total that fits in 256 bits.
pub open spec fn restorable(party1: Seq<Stake>, party2: Seq<Stake>) -> bool {
    &&& distinct_predictors(party1)
    &&& distinct_predictors(party2)
    &&& disjoint_predictors(party1, party2)
    &&& stake_sum(party1) + stake_sum(party2) <= u256_max()
}

/// The state of one pool as plain mathematics.
pub struct PoolView {
    /// The stakes on party 1, in the order they were placed.
    pub party1: Seq<Stake>,
    /// The stakes on party 2, in the order they were placed.
    pub party2: Seq<Stake>,
    /// The aggregate stake on party 1.
    pub party1_stake: nat,
    /// The aggregate stake on party 2.
    pub party2_stake: nat,
    /// Everything staked in the pool.
    pub total_staked: nat,
    /// The winner, once the result has been submitted.
    pub winner: Option<Party>,
}

impl PoolView {
    /// A pool that was just created: open, with nothing staked.
    pub open spec fn empty() -> PoolView {
        PoolView {
            party1: Seq::empty(),
            party2: Seq::empty(),
            party1_stake: 0,
            party2_stake: 0,
            total_staked: 0,
            winner: None,
        }
    }

    /// The stakes on `party`.
    pub open spec fn side(self, party: Party) -> Seq<Stake> {
        match party {
            Party::One => self.party1,
            Party::Two => self.party2,
        }
    }

    /// The aggregate stake on `party`.
    pub open spec fn side_stake(self, party: Party) -> nat {
        match party {
            Party::One => self.party1_stake,
            Party::Two => self.party2_stake,
        }
    }

    /// Whether `predictor` has a stake on either party.
    pub open spec fn has_predictor(self, predictor: Address) -> bool {
        backs(self.party1, predictor) || backs(self.party2, predictor)
    }

    /// Whether the result has been submitted.
    pub open spec fn is_resolved(self) -> bool {
        self.winner is Some
    }

    /// The pool's invariant: each aggregate is the sum of its party's
    /// stakes, the total is the sum of the two aggregates and fits in 256
    /// bits, and no predictor appears twice.
    pub open spec fn wf(self) -> bool {
        &&& self.party1_stake == stake_sum(self.party1)
        &&& self.party2_stake == stake_sum(self.party2)
        &&& self.total_staked == self.party1_stake + self.party2_stake
        &&& self.total_staked <= u256_max()
        &&& distinct_predictors(self.party1)
        &&& distinct_predictors(self.party2)
        &&& disjoint_predictors(self.party1, self.party2)
    }

    /// Whether the total can grow by `amount` and still fit in 256 bits.
    pub open spec fn can_hold(self, amount: U256) -> bool {
        self.total_staked + amount@ <= u256_max()
    }

    /// The pool with `stake` appended to `party` and the totals raised.
    pub open spec fn with_stake(self, party: Party, stake: Stake) -> PoolView {
        match party {
            Party::One => PoolView {
                party1: self.party1.push(stake),
                party1_stake: self.party1_stake + stake.amount@,
                total_staked: self.total_staked + stake.amount@,
                ..self
            },
            Party::Two => PoolView {
                party2: self.party2.push(stake),
                party2_stake: self.party2_stake + stake.amount@,
                total_staked: self.total_staked + stake.amount@,
                ..self
            },
        }
    }

    /// What staking does: refused once the pool is resolved, refused for a
    /// predictor who is in the pool already, otherwise the stake is recorded.
    pub open spec fn stake(self, party: Party, predictor: Address, amount: U256) -> Result<
        PoolView,
        Error,
    > {
        if self.is_resolved() {
            Err(Error::PoolAlreadyResolved)
        } else if self.has_predictor(predictor) {
            Err(Error::DuplicatePredictor)
        } else {
            Ok(self.with_stake(party, Stake { predictor, amount }))
        }
    }

    /// What submitting a result does: refused once the pool is resolved,
    /// refused when nothing is staked on the winner, otherwise the winner is
    /// recorded and nothing else changes.
    pub open spec fn resolve(self, winner: Party) -> Result<PoolView, Error> {
        if self.is_resolved() {
            Err(Error::PoolAlreadyResolved)
        } else if self.side_stake(winner) == 0 {
            Err(Error::NoWinningStakers)
        } else {
            Ok(PoolView { winner: Some(winner), ..self })
        }
    }
}

/// Recording a stake keeps the pool's invariant, provided the predictor is
/// new to the pool and the total still fits.
pub proof fn lemma_with_stake_wf(pool: PoolView, party: Party, stake: Stake)
    requires
        pool.wf(),
        !pool.has_predictor(stake.predictor),
        pool.can_hold(stake.amount),
    ensures
        pool.with_stake(party, stake).wf(),
        pool.with_stake(party, stake).has_predictor(stake.predictor),
{
    lemma_stake_sum_push(pool.side(party), stake);
}

/// The total staked in a pool is the sum of the two parties' aggregates, and
/// each aggregate is the sum of the stakes placed on its party.
pub proof fn lemma_total_is_sum_of_parties(pool: Pool)
    requires
        pool.wf(),
    ensures
        pool@.total_staked == pool@.party1_stake + pool@.party2_stake,
        pool@.total_staked == stake_sum(pool@.party1) + stake_sum(pool@.party2),
{
}

/// No address holds two stakes in one pool, on the same party or across the
/// two.
pub proof fn lemma_predictors_are_unique(pool: Pool)
    requires
        pool.wf(),
    ensures
        distinct_predictors(pool@.party1 + pool@.party2),
{
}

/// The stake ledger of one match.
#[derive(Debug)]
pub struct Pool {
    party1: Vec<Stake>,
    party2: Vec<Stake>,
    party1_stake: U256,
    party2_stake: U256,
    total_staked: U256,
    winner: Option<Party>,
}

impl View for Pool {
    type V = PoolView;

    closed spec fn view(&self) -> PoolView {
        PoolView {
            party1: self.party1@,
            party2: self.party2@,
            party1_stake: self.party1_stake@,
            party2_stake: self.party2_stake@,
            total_staked: self.total_staked@,
            winner: self.winner,
        }
    }
}

/// Whether `predictor` placed one of `stakes`.
fn placed_by(stakes: &Vec<Stake>, predictor: Address) -> (r: bool)
    ensures
        r == backs(stakes@, predictor),
{
    let mut i: usize = 0;
    while i < stakes.len()
        invariant
            i <= stakes.len(),
            forall|j: int| 0 <= j < i ==> (#[trigger] stakes@[j]).predictor != predictor,
        decreases stakes.len() - i,
    {
        if stakes[i].predictor == predictor {
            return true;
        }
        i += 1;
    }
    false
}

impl Pool {
    /// Whether the pool satisfies its invariant (see [`PoolView::wf`]).
    pub open spec fn wf(&self) -> bool {
        self@.wf()
    }

    /// A fresh pool: open, with nothing staked.
    pub fn new() -> (pool: Pool)
        ensures
            pool@ == PoolView::empty(),
            pool.wf(),
    {
        Pool {
            party1: Vec::new(),
            party2: Vec::new(),
            party1_stake: U256::zero(),
            party2_stake: U256::zero(),
            total_staked: U256::zero(),
            winner: None,
        }
    }

    /// Rebuilds a pool from the stakes and the winner that were stored for
    /// it, recomputing the totals.
    ///
    /// `None` exactly when the lists cannot be the two sides of a pool: a
    /// predictor appears twice, or the total does not fit in 256 bits.
    pub fn restore(party1: &Vec<Stake>, party2: &Vec<Stake>, winner: Option<Party>) -> (r: Option<
        Pool,
    >)
        ensures
            match r {
                Some(pool) => {
                    &&& pool.wf()
                    &&& pool@.party1 == party1@
                    &&& pool@.party2 == party2@
                    &&& pool@.winner == winner
                },
                None => !restorable(party1@, party2@),
            },
    {
        let mut pool = Pool::new();
        let mut i: usize = 0;
        while i < party1.len()
            invariant
                i <= party1.len(),
                pool.wf(),
                pool@.party1 == party1@.take(i as int),
                pool@.party2 == Seq::<Stake>::empty(),
                pool@.winner is None,
            decreases party1.len() - i,
        {
            let stake = party1[i];
            proof {
                assert(party1@.take(i as int + 1) =~= party1@.take(i as int).push(stake));
                lemma_stake_sum_push(party1@.take(i as int), stake);
                lemma_stake_sum_prefix(party1@, i as int + 1);
            }
            if pool.has_predictor(stake.predictor) {
                return None;
            }
            if pool.total_staked.checked_add(stake.amount).is_none() {
                return None;
            }
            let _ = pool.stake(Party::One, stake.predictor, stake.amount);
            i += 1;
        }
        let mut j: usize = 0;
        while j < party2.len()
            invariant
                j <= party2.len(),
                pool.wf(),
                pool@.party1 == party1@,
                pool@.party2 == party2@.take(j as int),
                pool@.winner is None,
            decreases party2.len() - j,
        {
            let stake = party2[j];
            proof {
                assert(party2@.take(j as int + 1) =~= party2@.take(j as int).push(stake));
                lemma_stake_sum_push(party2@.take(j as int), stake);
                lemma_stake_sum_prefix(party2@, j as int + 1);
            }
            if pool.has_predictor(stake.predictor) {
                return None;
            }
            if pool.total_staked.checked_add(stake.amount).is_none() {
                return None;
            }
            let _ = pool.stake(Party::Two, stake.predictor, stake.amount);
            j += 1;
        }
        pool.winner = winner;
        Some(pool)
    }

    /// Everything staked in the pool.
    pub fn total_staked(&self) -> (r: U256)
        ensures
            r@ == self@.total_staked,
    {
        self.total_staked
    }

    /// The aggregate stake on `party`.
    pub fn party_stake(&self, party: Party) -> (r: U256)
        ensures
            r@ == self@.side_stake(party),
    {
        match party {
            Party::One => self.party1_stake,
            Party::Two => self.party2_stake,
        }
    }

    /// The stakes on `party`, in the order they were placed.
    pub fn stakes(&self, party: Party) -> (r: &Vec<Stake>)
        ensures
            r@ == self@.side(party),
    {
        match party {
            Party::One => &self.party1,
            Party::Two => &self.party2,
        }
    }

    /// How many predictors staked on `party`.
    pub fn predictor_count(&self, party: Party) -> (r: usize)
        ensures
            r == self@.side(party).len(),
    {
        match party {
            Party::One => self.party1.len(),
            Party::Two => self.party2.len(),
        }
    }

    /// The winner, once the result has been submitted.
    pub fn winner(&self) -> (r: Option<Party>)
        ensures
            r == self@.winner,
    {
        self.winner
    }

    /// Whether the result has been submitted.
    pub fn is_resolved(&self) -> (r: bool)
        ensures
            r == self@.is_resolved(),
    {
        self.winner.is_some()
    }

    /// Whether `predictor` has a stake on either party.
    pub fn has_predictor(&self, predictor: Address) -> (r: bool)
        ensures
            r == self@.has_predictor(predictor),
    {
        placed_by(&self.party1, predictor) || placed_by(&self.party2, predictor)
    }

    /// Whether the pool would take a stake from `predictor`: the refusals of
    /// [`Pool::stake`], without the stake.
    pub fn admits(&self, predictor: Address) -> (r: Result<(), Error>)
        ensures
            self@.is_resolved() ==> r == Err::<(), Error>(Error::PoolAlreadyResolved),
            !self@.is_resolved() && self@.has_predictor(predictor) ==> r == Err::<(), Error>(
                Error::DuplicatePredictor,
            ),
            !self@.is_resolved() && !self@.has_predictor(predictor) ==> r is Ok,
    {
        if self.winner.is_some() {
            Err(Error::PoolAlreadyResolved)
        } else if self.has_predictor(predictor) {
            Err(Error::DuplicatePredictor)
        } else {
            Ok(())
        }
    }

    /// Records `amount` from `predictor` on `party`.
    ///
    /// Fails with `PoolAlreadyResolved` once the result is in, and with
    /// `DuplicatePredictor` for a predictor who already has a stake here; a
    /// failure changes nothing. The total must be able to hold the amount.
    pub fn stake(&mut self, party: Party, predictor: Address, amount: U256) -> (r: Result<
        (),
        Error,
    >)
        requires
            old(self).wf(),
            old(self)@.stake(party, predictor, amount) is Ok ==> old(self)@.can_hold(amount),
        ensures
            final(self).wf(),
            match old(self)@.stake(party, predictor, amount) {
                Ok(next) => r is Ok && final(self)@ == next,
                Err(e) => r == Err::<(), Error>(e) && final(self)@ == old(self)@,
            },
    {
        self.admits(predictor)?;
        let entry = Stake { predictor, amount };
        proof {
            lemma_with_stake_wf(self@, party, entry);
        }
        let total = self.total_staked.checked_add(amount).unwrap();
        match party {
            Party::One => {
                let aggregate = self.party1_stake.checked_add(amount).unwrap();
                self.party1.push(entry);
                self.party1_stake = aggregate;
            },
            Party::Two => {
                let aggregate = self.party2_stake.checked_add(amount).unwrap();
                self.party2.push(entry);
                self.party2_stake = aggregate;
            },
        }
        self.total_staked = total;
        Ok(())
    }

    /// Records the winner.
    ///
    /// Fails with `PoolAlreadyResolved` if a winner was recorded before, and
    /// with `NoWinningStakers` if nothing is staked on `winner`; a failure
    /// changes nothing. Stakes and totals are never touched.
    pub fn resolve(&mut self, winner: Party) -> (r: Result<(), Error>)
        requires
            old(self).wf(),
        ensures
            final(self).wf(),
            match old(self)@.resolve(winner) {
                Ok(next) => r is Ok && final(self)@ == next,
                Err(e) => r == Err::<(), Error>(e) && final(self)@ == old(self)@,
            },
    {
        if self.winner.is_some() {
            return Err(Error::PoolAlreadyResolved);
        }
        if self.party_stake(winner).is_zero() {
            return Err(Error::NoWinningStakers);
        }
        self.winner = Some(winner);
        Ok(())
    }
}

} // verus!
