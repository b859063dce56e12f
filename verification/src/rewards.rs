//! What each winner is owed: a share of the whole pool in proportion to the
//! winner's share of the winning side, rounded down.

use vstd::prelude::*;
use crate::address::Address;
use crate::error::Error;
use crate::pool::{backs, lemma_stake_within_sum, stake_sum, Party, Pool, PoolView, Stake};
use crate::uint::U256;

verus! {

/// What one winner is owed.
#[derive(Clone, Copy, Debug, PartialEq, Eq, Structural)]
pub struct Reward {
    pub predictor: Address,
    pub amount: U256,
}

/// The reward for a stake of `stake` on a winning side that holds `winning`
/// in a pool that holds `total`: `floor(stake * total / winning)`.
pub open spec fn reward_of(stake: nat, total: nat, winning: nat) -> nat {
    stake * total / winning
}

/// The sum of the rewards for a list of winning stakes.
pub open spec fn reward_sum(stakes: Seq<Stake>, total: nat, winning: nat) -> nat
    decreases stakes.len(),
{
    if stakes.len() == 0 {
        0
    } else {
        reward_sum(stakes.drop_last(), total, winning) + reward_of(
            stakes.last().amount@,
            total,
            winning,
        )
    }
}

/// The sum of the amounts in a list of rewards.
pub open spec fn paid_sum(rewards: Seq<Reward>) -> nat
    decreases rewards.len(),
{
    if rewards.len() == 0 {
        0
    } else {
        paid_sum(rewards.drop_last()) + rewards.last().amount@
    }
}

/// Whether `rewards` is what `pool` owes when `winner` wins: one reward for
/// each stake on the winning side, in the same order, to the same predictor,
/// of the amount that [`reward_of`] gives.
pub open spec fn rewards_match(rewards: Seq<Reward>, pool: PoolView, winner: Party) -> bool {
    &&& rewards.len() == pool.side(winner).len()
    &&& forall|i: int|
        0 <= i < rewards.len() ==> {
            &&& (#[trigger] rewards[i]).predictor == pool.side(winner)[i].predictor
            &&& rewards[i].amount@ == reward_of(
                pool.side(winner)[i].amount@,
                pool.total_staked,
                pool.side_stake(winner),
            )
        }
}

/// No predictor is named by two of the rewards.
pub open spec fn distinct_recipients(rewards: Seq<Reward>) -> bool {
    forall|i: int, j: int|
        0 <= i < j < rewards.len() ==> (#[trigger] rewards[i]).predictor != (
        #[trigger] rewards[j]).predictor
}

/// Whether one of the rewards names `predictor`.
pub open spec fn pays(rewards: Seq<Reward>, predictor: Address) -> bool {
    exists|i: int| 0 <= i < rewards.len() && (#[trigger] rewards[i]).predictor == predictor
}

/// What the rewards give to `predictor`: the amount of the reward that names
/// the predictor, and nothing without one.
pub open spec fn paid_to(rewards: Seq<Reward>, predictor: Address) -> nat {
    if pays(rewards, predictor) {
        let i = choose|i: int|
            0 <= i < rewards.len() && (#[trigger] rewards[i]).predictor == predictor;
        rewards[i].amount@
    } else {
        0
    }
}

/// Among rewards with distinct recipients, a recipient is paid the amount of
/// its reward.
pub proof fn lemma_paid_to_at(rewards: Seq<Reward>, i: int)
    requires
        distinct_recipients(rewards),
        0 <= i < rewards.len(),
    ensures
        pays(rewards, rewards[i].predictor),
        paid_to(rewards, rewards[i].predictor) == rewards[i].amount@,
{
}

/// The rewards that match a well-formed pool name each winner once, and give
/// every address exactly what [`reward_for`] says it is owed.
pub proof fn lemma_rewards_match_reward_for(rewards: Seq<Reward>, pool: PoolView, winner: Party)
    requires
        pool.wf(),
        rewards_match(rewards, pool, winner),
    ensures
        distinct_recipients(rewards),
        forall|a: Address| paid_to(rewards, a) == reward_for(pool, winner, a),
{
    let side = pool.side(winner);
    assert forall|a: Address| paid_to(rewards, a) == reward_for(pool, winner, a) by {
        if !pays(rewards, a) && backs(side, a) {
            let j = choose|j: int| 0 <= j < side.len() && (#[trigger] side[j]).predictor == a;
            assert(rewards[j].predictor == a);
        }
    }
}

/// What `predictor` is owed when `winner` wins: the reward for the stake the
/// predictor placed on the winning side, and nothing without one.
pub open spec fn reward_for(pool: PoolView, winner: Party, predictor: Address) -> nat {
    let side = pool.side(winner);
    if backs(side, predictor) {
        let i = choose|i: int| 0 <= i < side.len() && (#[trigger] side[i]).predictor == predictor;
        reward_of(side[i].amount@, pool.total_staked, pool.side_stake(winner))
    } else {
        0
    }
}

/// Rounding down never gives more than the exact share.
proof fn lemma_floor_times_divisor(x: nat, d: nat)
    by (nonlinear_arith)
    requires
        d > 0,
    ensures
        (x / d) * d <= x,
{
}

/// A stake no larger than the winning side earns no more than the pool holds.
pub proof fn lemma_reward_within_total(stake: nat, total: nat, winning: nat)
    by (nonlinear_arith)
    requires
        winning > 0,
        stake <= winning,
    ensures
        reward_of(stake, total, winning) <= total,
{
}

/// The rewards for a list of stakes, scaled by the winning side, stay within
/// the stakes scaled by the pool.
proof fn lemma_reward_sum_scaled(stakes: Seq<Stake>, total: nat, winning: nat)
    requires
        winning > 0,
    ensures
        reward_sum(stakes, total, winning) * winning <= stake_sum(stakes) * total,
    decreases stakes.len(),
{
    let paid = reward_sum(stakes, total, winning);
    let staked = stake_sum(stakes);
    if stakes.len() == 0 {
        assert(paid * winning <= staked * total) by (nonlinear_arith)
            requires
                paid == 0,
        ;
    } else {
        let rest = stakes.drop_last();
        let last = stakes.last().amount@;
        let rest_paid = reward_sum(rest, total, winning);
        let last_paid = reward_of(last, total, winning);
        lemma_reward_sum_scaled(rest, total, winning);
        lemma_floor_times_divisor(last * total, winning);
        assert(paid * winning <= staked * total) by (nonlinear_arith)
            requires
                paid == rest_paid + last_paid,
                staked == stake_sum(rest) + last,
                rest_paid * winning <= stake_sum(rest) * total,
                last_paid * winning <= last * total,
        ;
    }
}

/// The rewards paid for a resolution never add up to more than the pool
/// holds: rounding loses, it never creates.
pub proof fn lemma_rewards_within_total(pool: PoolView, winner: Party)
    requires
        pool.wf(),
        pool.side_stake(winner) > 0,
    ensures
        reward_sum(pool.side(winner), pool.total_staked, pool.side_stake(winner))
            <= pool.total_staked,
{
    let paid = reward_sum(pool.side(winner), pool.total_staked, pool.side_stake(winner));
    let winning = pool.side_stake(winner);
    let total = pool.total_staked;
    lemma_reward_sum_scaled(pool.side(winner), total, winning);
    assert(paid <= total) by (nonlinear_arith)
        requires
            paid * winning <= winning * total,
            winning > 0,
    ;
}

/// Extending matching lists of rewards and stakes by a matching pair keeps
/// the two sums equal.
proof fn lemma_paid_sum_push(
    rewards: Seq<Reward>,
    reward: Reward,
    stakes: Seq<Stake>,
    stake: Stake,
    total: nat,
    winning: nat,
)
    requires
        paid_sum(rewards) == reward_sum(stakes, total, winning),
        reward.amount@ == reward_of(stake.amount@, total, winning),
    ensures
        paid_sum(rewards.push(reward)) == reward_sum(stakes.push(stake), total, winning),
{
    assert(rewards.push(reward).drop_last() =~= rewards);
    assert(stakes.push(stake).drop_last() =~= stakes);
}

/// Computes what each predictor on `winning_party` is owed, without
/// changing anything.
///
/// Fails with `NoWinningStakers` exactly when nothing is staked on the
/// winning party. Otherwise the rewards follow the winning stakes one for
/// one, and together they do not exceed what the pool holds.
pub fn compute_rewards(pool: &Pool, winning_party: Party) -> (r: Result<Vec<Reward>, Error>)
    requires
        pool.wf(),
    ensures
        pool@.side_stake(winning_party) == 0 ==> r == Err::<Vec<Reward>, Error>(
            Error::NoWinningStakers,
        ),
        pool@.side_stake(winning_party) > 0 ==> {
            &&& r matches Ok(rewards)
            &&& rewards_match(rewards@, pool@, winning_party)
            &&& paid_sum(rewards@) == reward_sum(
                pool@.side(winning_party),
                pool@.total_staked,
                pool@.side_stake(winning_party),
            )
            &&& paid_sum(rewards@) <= pool@.total_staked
        },
{
    let winning = pool.party_stake(winning_party);
    if winning.is_zero() {
        return Err(Error::NoWinningStakers);
    }
    let total = pool.total_staked();
    let winners = pool.stakes(winning_party);
    let mut rewards: Vec<Reward> = Vec::new();
    let mut i: usize = 0;
    while i < winners.len()
        invariant
            i <= winners.len(),
            pool.wf(),
            winners@ == pool@.side(winning_party),
            total@ == pool@.total_staked,
            winning@ == pool@.side_stake(winning_party),
            winning@ > 0,
            rewards@.len() == i,
            forall|j: int|
                0 <= j < i ==> {
                    &&& (#[trigger] rewards@[j]).predictor == winners@[j].predictor
                    &&& rewards@[j].amount@ == reward_of(winners@[j].amount@, total@, winning@)
                },
            paid_sum(rewards@) == reward_sum(winners@.take(i as int), total@, winning@),
        decreases winners.len() - i,
    {
        let stake = winners[i];
        proof {
            lemma_stake_within_sum(winners@, i as int);
            lemma_reward_within_total(stake.amount@, total@, winning@);
        }
        let amount = stake.amount.mul_div(total, winning).unwrap();
        let reward = Reward { predictor: stake.predictor, amount };
        proof {
            lemma_paid_sum_push(
                rewards@,
                reward,
                winners@.take(i as int),
                stake,
                total@,
                winning@,
            );
            assert(winners@.take(i as int).push(stake) =~= winners@.take(i as int + 1));
        }
        rewards.push(reward);
        i += 1;
    }
    proof {
        assert(winners@.take(i as int) =~= winners@);
        lemma_rewards_within_total(pool@, winning_party);
    }
    Ok(rewards)
}

} // verus!
