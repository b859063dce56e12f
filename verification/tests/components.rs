//! The parts on their own: parties, pools, rewards, the vault, the registry,
//! the access check.

use prediction_pool::access::require_caller_is;
use prediction_pool::address::Address;
use prediction_pool::contract::PredictionContract;
use prediction_pool::error::Error;
use prediction_pool::pool::{Party, Pool, Stake};
use prediction_pool::registry::PoolRegistry;
use prediction_pool::rewards::{compute_rewards, Reward};
use prediction_pool::uint::U256;
use prediction_pool::vault::WithdrawalVault;

const TOP: U256 = U256 { l0: u64::MAX, l1: u64::MAX, l2: u64::MAX, l3: u64::MAX };

fn who(n: u128) -> Address {
    Address { hi: 7, lo: n }
}

fn amount(n: u64) -> U256 {
    U256::from_u64(n)
}

fn entry(n: u128, value: u64) -> Stake {
    Stake { predictor: who(n), amount: amount(value) }
}

#[test]
fn caller_must_be_the_configured_address() {
    assert_eq!(require_caller_is(who(1), who(1)), Ok(()));
    assert_eq!(require_caller_is(who(1), who(2)), Err(Error::Unauthorized));
    let near = Address { hi: 8, lo: 1 };
    assert_eq!(require_caller_is(near, who(1)), Err(Error::Unauthorized));
}

#[test]
fn parties_are_named_one_and_two() {
    assert_eq!(Party::from_u256(amount(1)), Some(Party::One));
    assert_eq!(Party::from_u256(amount(2)), Some(Party::Two));
    assert_eq!(Party::from_u256(amount(0)), None);
    assert_eq!(Party::from_u256(amount(3)), None);
    assert_eq!(Party::from_u256(U256 { l0: 1, l1: 0, l2: 0, l3: 1 }), None);
    assert_eq!(Party::One.to_u256(), amount(1));
    assert_eq!(Party::Two.to_u256(), amount(2));
}

#[test]
fn fresh_pool_is_open_and_empty() {
    let pool = Pool::new();
    assert_eq!(pool.total_staked(), amount(0));
    assert_eq!(pool.party_stake(Party::One), amount(0));
    assert_eq!(pool.party_stake(Party::Two), amount(0));
    assert_eq!(pool.predictor_count(Party::One), 0);
    assert_eq!(pool.predictor_count(Party::Two), 0);
    assert!(pool.stakes(Party::One).is_empty());
    assert_eq!(pool.winner(), None);
    assert!(!pool.is_resolved());
    assert!(!pool.has_predictor(who(1)));
    assert_eq!(pool.admits(who(1)), Ok(()));
}

#[test]
fn stakes_are_kept_in_order_with_running_totals() {
    let mut pool = Pool::new();
    assert_eq!(pool.stake(Party::Two, who(1), amount(5)), Ok(()));
    assert_eq!(pool.stake(Party::One, who(2), amount(7)), Ok(()));
    assert_eq!(pool.stake(Party::Two, who(3), amount(11)), Ok(()));
    assert_eq!(pool.stakes(Party::Two), &vec![entry(1, 5), entry(3, 11)]);
    assert_eq!(pool.stakes(Party::One), &vec![entry(2, 7)]);
    assert_eq!(pool.party_stake(Party::One), amount(7));
    assert_eq!(pool.party_stake(Party::Two), amount(16));
    assert_eq!(pool.total_staked(), amount(23));
    assert_eq!(pool.predictor_count(Party::Two), 2);
    assert!(pool.has_predictor(who(3)));
    assert!(!pool.has_predictor(who(4)));
    assert_eq!(pool.admits(who(3)), Err(Error::DuplicatePredictor));
    assert_eq!(pool.stake(Party::One, who(3), amount(1)), Err(Error::DuplicatePredictor));
    assert_eq!(pool.total_staked(), amount(23));
}

#[test]
fn pool_resolves_once_and_only_for_a_backed_winner() {
    let mut pool = Pool::new();
    pool.stake(Party::One, who(1), amount(5)).unwrap();
    assert_eq!(pool.resolve(Party::Two), Err(Error::NoWinningStakers));
    assert_eq!(pool.winner(), None);
    assert_eq!(pool.resolve(Party::One), Ok(()));
    assert_eq!(pool.winner(), Some(Party::One));
    assert!(pool.is_resolved());
    assert_eq!(pool.resolve(Party::One), Err(Error::PoolAlreadyResolved));
    assert_eq!(pool.resolve(Party::Two), Err(Error::PoolAlreadyResolved));
    assert_eq!(pool.admits(who(9)), Err(Error::PoolAlreadyResolved));
    assert_eq!(pool.stake(Party::Two, who(9), amount(1)), Err(Error::PoolAlreadyResolved));
    // A resolved pool refuses even a predictor it already holds with the same error.
    assert_eq!(pool.admits(who(1)), Err(Error::PoolAlreadyResolved));
    assert_eq!(pool.total_staked(), amount(5));
    assert_eq!(pool.winner(), Some(Party::One));
}

#[test]
fn zero_stake_on_the_winner_is_no_winning_stake() {
    let mut pool = Pool::new();
    pool.stake(Party::One, who(1), amount(0)).unwrap();
    pool.stake(Party::Two, who(2), amount(9)).unwrap();
    assert_eq!(compute_rewards(&pool, Party::One), Err(Error::NoWinningStakers));
    assert_eq!(pool.resolve(Party::One), Err(Error::NoWinningStakers));
}

#[test]
fn pool_is_rebuilt_from_its_stakes() {
    let party1 = vec![entry(1, 100), entry(2, 50)];
    let party2 = vec![entry(3, 300)];
    let pool = Pool::restore(&party1, &party2, None).unwrap();
    assert_eq!(pool.stakes(Party::One), &party1);
    assert_eq!(pool.stakes(Party::Two), &party2);
    assert_eq!(pool.party_stake(Party::One), amount(150));
    assert_eq!(pool.party_stake(Party::Two), amount(300));
    assert_eq!(pool.total_staked(), amount(450));
    assert_eq!(pool.winner(), None);
    let resolved = Pool::restore(&party1, &party2, Some(Party::Two)).unwrap();
    assert_eq!(resolved.winner(), Some(Party::Two));
    assert_eq!(resolved.total_staked(), amount(450));
    let empty = Pool::restore(&Vec::new(), &Vec::new(), None).unwrap();
    assert_eq!(empty.total_staked(), amount(0));
}

#[test]
fn pool_is_not_rebuilt_from_impossible_stakes() {
    let twice = vec![entry(1, 1), entry(2, 1), entry(1, 1)];
    assert!(Pool::restore(&twice, &Vec::new(), None).is_none());
    assert!(Pool::restore(&Vec::new(), &twice, None).is_none());
    let left = vec![entry(1, 1), entry(2, 1)];
    let right = vec![entry(3, 1), entry(2, 1)];
    assert!(Pool::restore(&left, &right, None).is_none());
    let heavy = vec![Stake { predictor: who(1), amount: TOP }];
    let light = vec![entry(2, 1)];
    assert!(Pool::restore(&heavy, &light, None).is_none());
    assert!(Pool::restore(&light, &heavy, None).is_none());
    assert!(Pool::restore(&heavy, &vec![entry(2, 0)], None).is_some());
}

#[test]
fn rewards_follow_the_winning_stakes() {
    let mut pool = Pool::new();
    pool.stake(Party::One, who(1), amount(100)).unwrap();
    pool.stake(Party::One, who(2), amount(50)).unwrap();
    pool.stake(Party::Two, who(3), amount(300)).unwrap();
    assert_eq!(
        compute_rewards(&pool, Party::One),
        Ok(vec![
            Reward { predictor: who(1), amount: amount(300) },
            Reward { predictor: who(2), amount: amount(150) },
        ])
    );
    assert_eq!(
        compute_rewards(&pool, Party::Two),
        Ok(vec![Reward { predictor: who(3), amount: amount(450) }])
    );
    // Computing rewards changes nothing.
    assert_eq!(pool.total_staked(), amount(450));
    assert!(!pool.is_resolved());
}

#[test]
fn rewards_never_add_up_to_more_than_the_pool() {
    let mut pool = Pool::new();
    let stakes: [u64; 5] = [3, 3, 3, 1, 7];
    let mut n: u128 = 1;
    for value in stakes {
        pool.stake(Party::One, who(n), amount(value)).unwrap();
        n += 1;
    }
    pool.stake(Party::Two, who(100), amount(6)).unwrap();
    // total 23, winning 17: floor(3*23/17)=4, 4, 4, floor(23/17)=1, floor(161/17)=9.
    let rewards = compute_rewards(&pool, Party::One).unwrap();
    let paid: Vec<U256> = rewards.iter().map(|r| r.amount).collect();
    assert_eq!(paid, vec![amount(4), amount(4), amount(4), amount(1), amount(9)]);
    let mut sum = U256::zero();
    for reward in rewards.iter() {
        sum = sum.checked_add(reward.amount).unwrap();
    }
    assert_eq!(sum, amount(22));
    assert!(sum.checked_add(amount(1)) == Some(pool.total_staked()));
}

#[test]
fn rewards_of_huge_stakes_are_exact() {
    // One winner holding everything gets everything, however large.
    let mut pool = Pool::new();
    pool.stake(Party::One, who(1), TOP).unwrap();
    assert_eq!(
        compute_rewards(&pool, Party::One),
        Ok(vec![Reward { predictor: who(1), amount: TOP }])
    );
    // 2^255 on each side: the winner's reward is 2^255 * 2^256-ish / 2^255, the whole pool.
    let half = U256 { l0: 0, l1: 0, l2: 0, l3: 1 << 63 };
    let rest = U256 { l0: u64::MAX, l1: u64::MAX, l2: u64::MAX, l3: (1 << 63) - 1 };
    let mut pool = Pool::new();
    pool.stake(Party::One, who(1), half).unwrap();
    pool.stake(Party::Two, who(2), rest).unwrap();
    assert_eq!(pool.total_staked(), TOP);
    assert_eq!(
        compute_rewards(&pool, Party::One),
        Ok(vec![Reward { predictor: who(1), amount: TOP }])
    );
}

#[test]
fn vault_starts_empty_and_adds_up_credits() {
    let mut vault = WithdrawalVault::new();
    assert_eq!(vault.balance_of(who(1)), amount(0));
    vault.credit(who(1), amount(5));
    vault.credit(who(2), amount(7));
    vault.credit(who(1), amount(6));
    assert_eq!(vault.balance_of(who(1)), amount(11));
    assert_eq!(vault.balance_of(who(2)), amount(7));
    assert_eq!(vault.balance_of(who(3)), amount(0));
}

#[test]
fn vault_withdrawal_empties_one_balance() {
    let mut vault = WithdrawalVault::new();
    assert_eq!(vault.withdraw(who(1)), Err(Error::NoRewardsAvailable));
    vault.credit(who(1), amount(5));
    vault.credit(who(2), amount(7));
    assert_eq!(vault.withdraw(who(1)), Ok(amount(5)));
    assert_eq!(vault.balance_of(who(1)), amount(0));
    assert_eq!(vault.balance_of(who(2)), amount(7));
    assert_eq!(vault.withdraw(who(1)), Err(Error::NoRewardsAvailable));
    vault.credit(who(1), amount(2));
    assert_eq!(vault.withdraw(who(1)), Ok(amount(2)));
    // A credit of nothing leaves nothing to withdraw.
    vault.credit(who(4), amount(0));
    assert_eq!(vault.withdraw(who(4)), Err(Error::NoRewardsAvailable));
}

#[test]
fn vault_credits_a_list_of_rewards() {
    let mut vault = WithdrawalVault::new();
    vault.credit(who(2), amount(1));
    let rewards = vec![
        Reward { predictor: who(1), amount: amount(10) },
        Reward { predictor: who(2), amount: amount(20) },
        Reward { predictor: who(3), amount: amount(0) },
    ];
    vault.credit_all(&rewards);
    assert_eq!(vault.balance_of(who(1)), amount(10));
    assert_eq!(vault.balance_of(who(2)), amount(21));
    assert_eq!(vault.balance_of(who(3)), amount(0));
    assert_eq!(vault.balance_of(who(4)), amount(0));
    vault.credit_all(&Vec::new());
    assert_eq!(vault.balance_of(who(1)), amount(10));
}

#[test]
fn registry_keeps_one_pool_per_match() {
    let mut registry = PoolRegistry::new();
    assert!(!registry.contains(amount(1)));
    assert!(registry.get_pool(amount(1)).is_none());
    assert_eq!(registry.create_pool(amount(1)), Ok(()));
    assert_eq!(registry.create_pool(amount(2)), Ok(()));
    assert!(registry.contains(amount(1)));
    assert_eq!(registry.create_pool(amount(1)), Err(Error::PoolAlreadyExists));
    assert_eq!(registry.stake(amount(1), Party::One, who(1), amount(4)), Ok(()));
    assert_eq!(registry.stake(amount(3), Party::One, who(1), amount(4)), Err(Error::PoolNotFound));
    assert_eq!(registry.get_pool(amount(1)).unwrap().total_staked(), amount(4));
    assert_eq!(registry.get_pool(amount(2)).unwrap().total_staked(), amount(0));
    // The same predictor may stake on another match.
    assert_eq!(registry.stake(amount(2), Party::Two, who(1), amount(9)), Ok(()));
    assert_eq!(registry.stake(amount(2), Party::One, who(1), amount(9)), Err(Error::DuplicatePredictor));
}

#[test]
fn registry_resolves_a_match_and_returns_the_rewards() {
    let mut registry = PoolRegistry::new();
    registry.create_pool(amount(1)).unwrap();
    registry.stake(amount(1), Party::One, who(1), amount(4)).unwrap();
    registry.stake(amount(1), Party::Two, who(2), amount(6)).unwrap();
    assert_eq!(registry.resolve(amount(9), Party::One), Err(Error::PoolNotFound));
    assert_eq!(
        registry.resolve(amount(1), Party::Two),
        Ok(vec![Reward { predictor: who(2), amount: amount(10) }])
    );
    assert_eq!(registry.get_pool(amount(1)).unwrap().winner(), Some(Party::Two));
    assert_eq!(registry.resolve(amount(1), Party::Two), Err(Error::PoolAlreadyResolved));
}

#[test]
fn registry_adopts_a_rebuilt_pool() {
    let mut registry = PoolRegistry::new();
    let pool = Pool::restore(&vec![entry(1, 3)], &vec![entry(2, 4)], None).unwrap();
    assert_eq!(registry.adopt(amount(5), pool), Ok(()));
    assert_eq!(registry.get_pool(amount(5)).unwrap().total_staked(), amount(7));
    assert_eq!(registry.adopt(amount(5), Pool::new()), Err(Error::PoolAlreadyExists));
    assert_eq!(registry.get_pool(amount(5)).unwrap().total_staked(), amount(7));
}

#[test]
fn contract_is_rebuilt_from_stored_state() {
    let authority = who(0xA0);
    let mut c = PredictionContract::restore(true, who(1), who(2), who(3), authority);
    assert!(c.is_initialized());
    assert_eq!(c.get_owner(), who(1));
    assert_eq!(c.get_this_address(), who(2));
    assert_eq!(c.get_player_info_smart_contract_address(), who(3));
    assert_eq!(c.get_match_info_smart_contract_address(), authority);
    let pool = Pool::restore(&vec![entry(10, 30)], &vec![entry(11, 10)], None).unwrap();
    assert_eq!(c.adopt_pool(amount(5), pool), Ok(()));
    assert_eq!(c.adopt_pool(amount(5), Pool::new()), Err(Error::PoolAlreadyExists));
    assert!(c.adopt_balance(who(11), amount(2)));
    assert!(!c.adopt_balance(who(11), amount(50)));
    assert_eq!(c.withdrawable(who(11)), amount(2));
    assert!(c.rewards_fit(amount(5), amount(2)));
    assert!(c.submit_match_result(authority, amount(5), amount(2)).is_ok());
    assert_eq!(c.withdrawable(who(11)), amount(42));
    assert_eq!(c.withdrawable(who(10)), amount(0));
    let closed = PredictionContract::restore(false, who(1), who(2), who(3), authority);
    assert!(!closed.is_initialized());
}
