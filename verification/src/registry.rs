//! The pool registry: which matches have a pool, and the pool of each.

use vstd::prelude::*;
use crate::address::Address;
use crate::error::Error;
use crate::pool::{Party, Pool, PoolView};
use crate::rewards::{compute_rewards, paid_sum, rewards_match, Reward};
use crate::uint::U256;

verus! {

/// Every pool in the map satisfies the pool invariant.
pub open spec fn pools_wf(pools: Map<U256, PoolView>) -> bool {
    forall|id: U256| pools.dom().contains(id) ==> (#[trigger] pools[id]).wf()
}

/// What creating a pool does: refused for a match that has one, otherwise
/// the match gets an empty pool.
pub open spec fn create_in(pools: Map<U256, PoolView>, match_id: U256) -> Result<
    Map<U256, PoolView>,
    Error,
> {
    if pools.dom().contains(match_id) {
        Err(Error::PoolAlreadyExists)
    } else {
        Ok(pools.insert(match_id, PoolView::empty()))
    }
}

/// What taking in a rebuilt pool does: refused for a match that has a pool,
/// otherwise the match gets the pool.
pub open spec fn adopt_in(pools: Map<U256, PoolView>, match_id: U256, pool: PoolView) -> Result<
    Map<U256, PoolView>,
    Error,
> {
    if pools.dom().contains(match_id) {
        Err(Error::PoolAlreadyExists)
    } else {
        Ok(pools.insert(match_id, pool))
    }
}

/// What staking on a match does: refused for a match without a pool,
/// otherwise whatever the pool of the match decides.
pub open spec fn stake_in(
    pools: Map<U256, PoolView>,
    match_id: U256,
    party: Party,
    predictor: Address,
    amount: U256,
) -> Result<Map<U256, PoolView>, Error> {
    if !pools.dom().contains(match_id) {
        Err(Error::PoolNotFound)
    } else {
        match pools[match_id].stake(party, predictor, amount) {
            Ok(next) => Ok(pools.insert(match_id, next)),
            Err(e) => Err(e),
        }
    }
}

/// What resolving a match does: refused for a match without a pool,
/// otherwise whatever the pool of the match decides.
pub open spec fn resolve_in(pools: Map<U256, PoolView>, match_id: U256, winner: Party) -> Result<
    Map<U256, PoolView>,
    Error,
> {
    if !pools.dom().contains(match_id) {
        Err(Error::PoolNotFound)
    } else {
        match pools[match_id].resolve(winner) {
            Ok(next) => Ok(pools.insert(match_id, next)),
            Err(e) => Err(e),
        }
    }
}

/// The pool of one match.
#[derive(Debug)]
struct Entry {
    match_id: U256,
    pool: Pool,
}

/// Whether `match_id` has an entry.
spec fn listed(entries: Seq<Entry>, match_id: U256) -> bool {
    exists|i: int| 0 <= i < entries.len() && (#[trigger] entries[i]).match_id == match_id
}

/// The pool of `match_id`, where it has an entry.
spec fn pool_in(entries: Seq<Entry>, match_id: U256) -> PoolView {
    let i = choose|i: int| 0 <= i < entries.len() && (#[trigger] entries[i]).match_id == match_id;
    entries[i].pool@
}

/// No match has two entries.
spec fn distinct_ids(entries: Seq<Entry>) -> bool {
    forall|i: int, j: int|
        0 <= i < j < entries.len() ==> (#[trigger] entries[i]).match_id != (
        #[trigger] entries[j]).match_id
}

/// The map that a list of entries stands for.
spec fn pools_of(entries: Seq<Entry>) -> Map<U256, PoolView> {
    Map::new(|id: U256| listed(entries, id), |id: U256| pool_in(entries, id))
}

/// Changing the pool in one entry changes the pool of that match and of no
/// other.
proof fn lemma_pool_replaced(before: Seq<Entry>, after: Seq<Entry>, i: int)
    requires
        distinct_ids(before),
        0 <= i < before.len(),
        after.len() == before.len(),
        after[i].match_id == before[i].match_id,
        forall|j: int| 0 <= j < before.len() && j != i ==> after[j] == before[j],
    ensures
        distinct_ids(after),
        pools_of(after) == pools_of(before).insert(before[i].match_id, after[i].pool@),
{
}

/// Appending an entry for a match that had none gives that match the new
/// pool and changes no other.
proof fn lemma_pool_added(before: Seq<Entry>, entry: Entry)
    requires
        distinct_ids(before),
        !listed(before, entry.match_id),
    ensures
        distinct_ids(before.push(entry)),
        pools_of(before.push(entry)) == pools_of(before).insert(entry.match_id, entry.pool@),
{
    let after = before.push(entry);
    assert(after[before.len() as int] == entry);
    assert forall|a: U256| listed(after, a) == (listed(before, a) || a == entry.match_id) by {
        if listed(before, a) {
            let j = choose|j: int| 0 <= j < before.len() && (#[trigger] before[j]).match_id == a;
            assert(after[j].match_id == a);
        }
    }
}

/// The pools of all matches.
#[derive(Debug)]
pub struct PoolRegistry {
    entries: Vec<Entry>,
}

impl View for PoolRegistry {
    type V = Map<U256, PoolView>;

    closed spec fn view(&self) -> Map<U256, PoolView> {
        pools_of(self.entries@)
    }
}

impl PoolRegistry {
    /// The registry's invariant: no match has two pools, and every pool
    /// satisfies the pool invariant.
    pub closed spec fn wf(&self) -> bool {
        &&& distinct_ids(self.entries@)
        &&& forall|i: int| 0 <= i < self.entries@.len() ==> (#[trigger] self.entries@[i]).pool.wf()
    }

    /// In a well-formed registry every pool is well formed.
    pub proof fn lemma_pools_wf(&self)
        requires
            self.wf(),
        ensures
            pools_wf(self@),
    {
    }

    /// A registry without pools.
    pub fn new() -> (registry: PoolRegistry)
        ensures
            registry.wf(),
            registry@ == Map::<U256, PoolView>::empty(),
    {
        PoolRegistry { entries: Vec::new() }
    }

    /// Where the entry of `match_id` stands, if there is one.
    fn position(&self, match_id: U256) -> (r: Option<usize>)
        ensures
            match r {
                Some(i) => i < self.entries@.len() && self.entries@[i as int].match_id == match_id,
                None => !listed(self.entries@, match_id),
            },
    {
        let mut i: usize = 0;
        while i < self.entries.len()
            invariant
                i <= self.entries.len(),
                forall|j: int| 0 <= j < i ==> (#[trigger] self.entries@[j]).match_id != match_id,
            decreases self.entries.len() - i,
        {
            if self.entries[i].match_id == match_id {
                return Some(i);
            }
            i += 1;
        }
        None
    }

    /// Whether a pool was created for `match_id`.
    pub fn contains(&self, match_id: U256) -> (r: bool)
        requires
            self.wf(),
        ensures
            r == self@.dom().contains(match_id),
    {
        match self.position(match_id) {
            Some(i) => {
                true
            },
            None => false,
        }
    }

    /// The pool of `match_id`, or `None` where none was created.
    pub fn get_pool(&self, match_id: U256) -> (r: Option<&Pool>)
        requires
            self.wf(),
        ensures
            match r {
                Some(pool) => self@.dom().contains(match_id) && pool@ == self@[match_id]
                    && pool.wf(),
                None => !self@.dom().contains(match_id),
            },
    {
        match self.position(match_id) {
            Some(i) => {
                Some(&self.entries[i].pool)
            },
            None => None,
        }
    }

    /// Creates an empty pool for `match_id`.
    ///
    /// Fails with `PoolAlreadyExists`, changing nothing, exactly when the
    /// match has a pool already.
    pub fn create_pool(&mut self, match_id: U256) -> (r: Result<(), Error>)
        requires
            old(self).wf(),
        ensures
            final(self).wf(),
            match create_in(old(self)@, match_id) {
                Ok(next) => r is Ok && final(self)@ == next,
                Err(e) => r == Err::<(), Error>(e) && final(self)@ == old(self)@,
            },
    {
        self.adopt(match_id, Pool::new())
    }

    /// Takes in a pool that was rebuilt from storage as the pool of
    /// `match_id`.
    ///
    /// Fails with `PoolAlreadyExists`, changing nothing, exactly when the
    /// match has a pool already.
    pub fn adopt(&mut self, match_id: U256, pool: Pool) -> (r: Result<(), Error>)
        requires
            old(self).wf(),
            pool.wf(),
        ensures
            final(self).wf(),
            match adopt_in(old(self)@, match_id, pool@) {
                Ok(next) => r is Ok && final(self)@ == next,
                Err(e) => r == Err::<(), Error>(e) && final(self)@ == old(self)@,
            },
    {
        match self.position(match_id) {
            Some(i) => {
                Err(Error::PoolAlreadyExists)
            },
            None => {
                let entry = Entry { match_id, pool };
                proof {
                    lemma_pool_added(self.entries@, entry);
                }
                self.entries.push(entry);
                Ok(())
            },
        }
    }

    /// Records a stake in the pool of `match_id`.
    ///
    /// Fails with `PoolNotFound` where the match has no pool, and otherwise
    /// as [`Pool::stake`] does; a failure changes nothing. Where the stake
    /// is accepted, the pool's total must be able to hold the amount.
    pub fn stake(
        &mut self,
        match_id: U256,
        party: Party,
        predictor: Address,
        amount: U256,
    ) -> (r: Result<(), Error>)
        requires
            old(self).wf(),
            stake_in(old(self)@, match_id, party, predictor, amount) is Ok ==> old(
                self,
            )@[match_id].can_hold(amount),
        ensures
            final(self).wf(),
            match stake_in(old(self)@, match_id, party, predictor, amount) {
                Ok(next) => r is Ok && final(self)@ == next,
                Err(e) => r == Err::<(), Error>(e) && final(self)@ == old(self)@,
            },
    {
        match self.position(match_id) {
            Some(i) => {
                let pool = &mut self.entries[i].pool;
                let outcome = pool.stake(party, predictor, amount);
                proof {
                    lemma_pool_replaced(old(self).entries@, self.entries@, i as int);
                }
                outcome
            },
            None => Err(Error::PoolNotFound),
        }
    }

    /// Records the winner of `match_id` and computes what the winners are
    /// owed.
    ///
    /// Fails with `PoolNotFound` where the match has no pool, and otherwise
    /// as [`Pool::resolve`] does; a failure changes nothing. On success the
    /// rewards are those of the pool as it stood, one for each stake on the
    /// winning party, and they add up to no more than the pool holds.
    pub fn resolve(&mut self, match_id: U256, winner: Party) -> (r: Result<Vec<Reward>, Error>)
        requires
            old(self).wf(),
        ensures
            final(self).wf(),
            match resolve_in(old(self)@, match_id, winner) {
                Ok(next) => {
                    &&& r matches Ok(rewards)
                    &&& final(self)@ == next
                    &&& rewards_match(rewards@, old(self)@[match_id], winner)
                    &&& paid_sum(rewards@) <= old(self)@[match_id].total_staked
                },
                Err(e) => r == Err::<Vec<Reward>, Error>(e) && final(self)@ == old(self)@,
            },
    {
        match self.position(match_id) {
            Some(i) => {
                let pool = &mut self.entries[i].pool;
                let marked = pool.resolve(winner);
                proof {
                    lemma_pool_replaced(old(self).entries@, self.entries@, i as int);
                }
                match marked {
                    Ok(()) => compute_rewards(&self.entries[i].pool, winner),
                    Err(e) => Err(e),
                }
            },
            None => Err(Error::PoolNotFound),
        }
    }
}

} // verus!
