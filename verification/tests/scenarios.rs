//! End-to-end scenarios on the contract.

use prediction_pool::address::Address;
use prediction_pool::contract::{Payout, PredictionContract, ResultAvailable, StakePlaced, TransferRequest};
use prediction_pool::error::Error;
use prediction_pool::pool::Party;
use prediction_pool::uint::U256;

fn addr(n: u128) -> Address {
    Address { hi: 0, lo: n }
}

fn word(n: u64) -> U256 {
    U256::from_u64(n)
}

fn owner() -> Address {
    addr(0x01)
}

fn authority() -> Address {
    addr(0xA0)
}

fn custodian() -> Address {
    addr(0xC0)
}

/// An initialized contract with the authority and the custodian configured.
fn ready() -> PredictionContract {
    let mut c = PredictionContract::new();
    assert_eq!(c.init(owner()), Ok(()));
    assert_eq!(c.set_match_info_smart_contract_address(authority()), Ok(()));
    assert_eq!(c.set_this_address(custodian()), Ok(()));
    c
}

fn stake(c: &mut PredictionContract, m: u64, party: u64, who: Address, amount: u64) -> Result<StakePlaced, Error> {
    assert!(c.stake_fits(word(m), word(amount)));
    c.predict_match(authority(), word(m), word(party), who, word(amount), true)
}

fn submit(c: &mut PredictionContract, m: u64, winner: u64) -> Result<ResultAvailable, Error> {
    assert!(c.rewards_fit(word(m), word(winner)));
    c.submit_match_result(authority(), word(m), word(winner))
}

#[test]
fn proportional_rewards_are_credited_to_winners() {
    let (a, b, c_) = (addr(0x0A), addr(0x0B), addr(0x0C));
    let mut c = ready();
    assert_eq!(c.create_prediction_pool(authority(), word(7)), Ok(()));
    assert!(stake(&mut c, 7, 1, a, 100).is_ok());
    assert!(stake(&mut c, 7, 1, b, 50).is_ok());
    assert!(stake(&mut c, 7, 2, c_, 300).is_ok());
    {
        let pool = c.get_pool(word(7)).unwrap();
        assert_eq!(pool.total_staked(), word(450));
        assert_eq!(pool.party_stake(Party::One), word(150));
        assert_eq!(pool.party_stake(Party::Two), word(300));
        assert_eq!(pool.predictor_count(Party::One), 2);
        assert_eq!(pool.predictor_count(Party::Two), 1);
        assert!(!pool.is_resolved());
    }
    assert_eq!(
        submit(&mut c, 7, 1),
        Ok(ResultAvailable { match_id: word(7), winner: word(1) })
    );
    assert_eq!(c.withdrawable(a), word(300));
    assert_eq!(c.withdrawable(b), word(150));
    assert_eq!(c.withdrawable(c_), word(0));
    let pool = c.get_pool(word(7)).unwrap();
    assert_eq!(pool.winner(), Some(Party::One));
    assert_eq!(pool.total_staked(), word(450));
}

#[test]
fn second_stake_by_same_predictor_is_rejected() {
    let a = addr(0x0A);
    let mut c = ready();
    c.create_prediction_pool(authority(), word(7)).unwrap();
    assert_eq!(
        stake(&mut c, 7, 1, a, 100),
        Ok(StakePlaced { match_id: word(7), predictor: a, party: word(1), amount: word(100) })
    );
    assert_eq!(stake(&mut c, 7, 1, a, 40), Err(Error::DuplicatePredictor));
    assert_eq!(stake(&mut c, 7, 2, a, 40), Err(Error::DuplicatePredictor));
    let pool = c.get_pool(word(7)).unwrap();
    assert_eq!(pool.total_staked(), word(100));
    assert_eq!(pool.party_stake(Party::One), word(100));
    assert_eq!(pool.party_stake(Party::Two), word(0));
    assert_eq!(pool.predictor_count(Party::One), 1);
    assert_eq!(pool.predictor_count(Party::Two), 0);
    assert_eq!(pool.stakes(Party::One)[0].predictor, a);
    assert_eq!(pool.stakes(Party::One)[0].amount, word(100));
}

#[test]
fn withdraw_with_zero_balance_asks_for_no_payment() {
    let mut c = ready();
    assert_eq!(c.withdraw_rewards(addr(0x0A)), Err(Error::NoRewardsAvailable));
    assert_eq!(c.withdrawable(addr(0x0A)), word(0));
}

#[test]
fn second_withdrawal_finds_nothing() {
    let (a, b) = (addr(0x0A), addr(0x0B));
    let mut c = ready();
    c.create_prediction_pool(authority(), word(1)).unwrap();
    stake(&mut c, 1, 1, a, 10).unwrap();
    stake(&mut c, 1, 2, b, 30).unwrap();
    submit(&mut c, 1, 1).unwrap();
    assert_eq!(c.withdrawable(a), word(40));
    let payout = c.withdraw_rewards(a).unwrap();
    assert_eq!(payout, Payout { to: a, amount: word(40) });
    assert_eq!(c.withdrawable(a), word(0));
    assert_eq!(c.settle_withdrawal(payout, true), Ok(word(40)));
    assert_eq!(c.withdrawable(a), word(0));
    assert_eq!(c.withdraw_rewards(a), Err(Error::NoRewardsAvailable));
}

#[test]
fn result_without_winning_stakers_leaves_pool_open() {
    let b = addr(0x0B);
    let mut c = ready();
    c.create_prediction_pool(authority(), word(3)).unwrap();
    stake(&mut c, 3, 2, b, 30).unwrap();
    assert_eq!(submit(&mut c, 3, 1), Err(Error::NoWinningStakers));
    assert!(!c.get_pool(word(3)).unwrap().is_resolved());
    assert_eq!(c.withdrawable(b), word(0));
    // The pool still takes stakes and can still be resolved.
    assert!(stake(&mut c, 3, 1, addr(0x0A), 10).is_ok());
    assert!(submit(&mut c, 3, 1).is_ok());
}

#[test]
fn result_is_accepted_once() {
    let (a, b) = (addr(0x0A), addr(0x0B));
    let mut c = ready();
    c.create_prediction_pool(authority(), word(9)).unwrap();
    stake(&mut c, 9, 1, a, 10).unwrap();
    stake(&mut c, 9, 2, b, 30).unwrap();
    assert!(submit(&mut c, 9, 2).is_ok());
    assert_eq!(submit(&mut c, 9, 2), Err(Error::PoolAlreadyResolved));
    assert_eq!(submit(&mut c, 9, 1), Err(Error::PoolAlreadyResolved));
    assert_eq!(c.withdrawable(b), word(40));
    assert_eq!(c.withdrawable(a), word(0));
    assert_eq!(c.get_pool(word(9)).unwrap().winner(), Some(Party::Two));
}

#[test]
fn resolved_pool_takes_no_stake() {
    let (a, b) = (addr(0x0A), addr(0x0B));
    let mut c = ready();
    c.create_prediction_pool(authority(), word(9)).unwrap();
    stake(&mut c, 9, 1, a, 10).unwrap();
    submit(&mut c, 9, 1).unwrap();
    assert_eq!(stake(&mut c, 9, 2, b, 30), Err(Error::PoolAlreadyResolved));
    assert_eq!(c.get_pool(word(9)).unwrap().total_staked(), word(10));
}

#[test]
fn rewards_round_down_and_stay_within_the_pool() {
    let (a, b, d) = (addr(0x0A), addr(0x0B), addr(0x0D));
    let mut c = ready();
    c.create_prediction_pool(authority(), word(2)).unwrap();
    stake(&mut c, 2, 1, a, 1).unwrap();
    stake(&mut c, 2, 1, b, 2).unwrap();
    stake(&mut c, 2, 2, d, 2).unwrap();
    submit(&mut c, 2, 1).unwrap();
    // floor(1 * 5 / 3) = 1 and floor(2 * 5 / 3) = 3: one unit is lost to rounding.
    assert_eq!(c.withdrawable(a), word(1));
    assert_eq!(c.withdrawable(b), word(3));
    assert_eq!(c.withdrawable(d), word(0));
}

#[test]
fn rewards_accumulate_across_matches() {
    let (a, b) = (addr(0x0A), addr(0x0B));
    let mut c = ready();
    c.create_prediction_pool(authority(), word(1)).unwrap();
    c.create_prediction_pool(authority(), word(2)).unwrap();
    stake(&mut c, 1, 1, a, 10).unwrap();
    stake(&mut c, 1, 2, b, 10).unwrap();
    stake(&mut c, 2, 2, a, 5).unwrap();
    stake(&mut c, 2, 1, b, 7).unwrap();
    submit(&mut c, 1, 1).unwrap();
    submit(&mut c, 2, 2).unwrap();
    assert_eq!(c.withdrawable(a), word(32));
    assert_eq!(c.withdrawable(b), word(0));
}

#[test]
fn failed_payout_restores_the_balance() {
    let (a, b) = (addr(0x0A), addr(0x0B));
    let mut c = ready();
    c.create_prediction_pool(authority(), word(1)).unwrap();
    stake(&mut c, 1, 1, a, 10).unwrap();
    stake(&mut c, 1, 2, b, 30).unwrap();
    submit(&mut c, 1, 1).unwrap();
    let payout = c.withdraw_rewards(a).unwrap();
    assert_eq!(c.withdrawable(a), word(0));
    assert_eq!(c.settle_withdrawal(payout, false), Err(Error::TransferFailed));
    assert_eq!(c.withdrawable(a), word(40));
    assert_eq!(c.withdraw_rewards(a), Ok(Payout { to: a, amount: word(40) }));
}

#[test]
fn failed_stake_transfer_changes_nothing() {
    let a = addr(0x0A);
    let mut c = ready();
    c.create_prediction_pool(authority(), word(1)).unwrap();
    assert_eq!(
        c.prepare_prediction(authority(), word(1), word(2), a, word(25)),
        Ok(TransferRequest { from: a, to: custodian(), amount: word(25) })
    );
    assert_eq!(
        c.predict_match(authority(), word(1), word(2), a, word(25), false),
        Err(Error::TransferFailed)
    );
    let pool = c.get_pool(word(1)).unwrap();
    assert_eq!(pool.total_staked(), word(0));
    assert_eq!(pool.predictor_count(Party::Two), 0);
    assert!(!pool.has_predictor(a));
    // The same predictor can still stake once the transfer goes through.
    assert!(stake(&mut c, 1, 2, a, 25).is_ok());
}

#[test]
fn operations_are_refused_before_initialization() {
    let mut c = PredictionContract::new();
    assert!(!c.is_initialized());
    assert_eq!(c.create_prediction_pool(authority(), word(1)), Err(Error::NotInitialized));
    assert_eq!(
        c.predict_match(authority(), word(1), word(1), addr(5), word(1), true),
        Err(Error::NotInitialized)
    );
    assert_eq!(
        c.prepare_prediction(authority(), word(1), word(1), addr(5), word(1)),
        Err(Error::NotInitialized)
    );
    assert_eq!(c.submit_match_result(authority(), word(1), word(1)), Err(Error::NotInitialized));
    assert_eq!(c.withdraw_rewards(addr(5)), Err(Error::NotInitialized));
}

#[test]
fn init_happens_once() {
    let mut c = PredictionContract::new();
    assert_eq!(c.init(owner()), Ok(()));
    assert!(c.is_initialized());
    assert_eq!(c.get_owner(), owner());
    assert_eq!(c.init(addr(0x99)), Err(Error::AlreadyInitialized));
    assert_eq!(c.get_owner(), owner());
}

#[test]
fn only_the_authority_is_let_through() {
    let stranger = addr(0x77);
    let mut c = ready();
    assert_eq!(c.create_prediction_pool(stranger, word(1)), Err(Error::Unauthorized));
    assert!(c.get_pool(word(1)).is_none());
    c.create_prediction_pool(authority(), word(1)).unwrap();
    assert_eq!(
        c.predict_match(stranger, word(1), word(1), stranger, word(5), true),
        Err(Error::Unauthorized)
    );
    assert_eq!(c.submit_match_result(stranger, word(1), word(1)), Err(Error::Unauthorized));
    assert_eq!(c.get_pool(word(1)).unwrap().total_staked(), word(0));
}

#[test]
fn party_must_be_one_or_two() {
    let mut c = ready();
    c.create_prediction_pool(authority(), word(1)).unwrap();
    assert_eq!(stake(&mut c, 1, 0, addr(5), 5), Err(Error::InvalidParty));
    assert_eq!(stake(&mut c, 1, 3, addr(5), 5), Err(Error::InvalidParty));
    let wide_one = U256 { l0: 1, l1: 1, l2: 0, l3: 0 };
    assert_eq!(
        c.predict_match(authority(), word(1), wide_one, addr(5), word(5), true),
        Err(Error::InvalidParty)
    );
    // The party is checked before the pool is looked up.
    assert_eq!(stake(&mut c, 8, 3, addr(5), 5), Err(Error::InvalidParty));
}

#[test]
fn winner_must_be_one_or_two() {
    let mut c = ready();
    c.create_prediction_pool(authority(), word(1)).unwrap();
    stake(&mut c, 1, 1, addr(5), 5).unwrap();
    assert_eq!(submit(&mut c, 1, 0), Err(Error::InvalidWinner));
    assert_eq!(submit(&mut c, 1, 3), Err(Error::InvalidWinner));
    // The pool is looked up before the winner is checked.
    assert_eq!(submit(&mut c, 8, 3), Err(Error::PoolNotFound));
    assert!(!c.get_pool(word(1)).unwrap().is_resolved());
}

#[test]
fn unknown_match_has_no_pool() {
    let mut c = ready();
    assert!(c.get_pool(word(4)).is_none());
    assert_eq!(stake(&mut c, 4, 1, addr(5), 5), Err(Error::PoolNotFound));
    assert_eq!(submit(&mut c, 4, 1), Err(Error::PoolNotFound));
}

#[test]
fn pool_cannot_be_created_twice() {
    let mut c = ready();
    assert_eq!(c.create_prediction_pool(authority(), word(4)), Ok(()));
    stake(&mut c, 4, 1, addr(5), 5).unwrap();
    assert_eq!(c.create_prediction_pool(authority(), word(4)), Err(Error::PoolAlreadyExists));
    assert_eq!(c.get_pool(word(4)).unwrap().total_staked(), word(5));
}

#[test]
fn configuration_is_read_back() {
    let mut c = PredictionContract::new();
    assert_eq!(c.get_this_address(), Address::zero());
    assert_eq!(c.get_match_info_smart_contract_address(), Address::zero());
    assert_eq!(c.get_player_info_smart_contract_address(), Address::zero());
    assert_eq!(c.set_this_address(addr(1)), Ok(()));
    assert_eq!(c.set_match_info_smart_contract_address(addr(2)), Ok(()));
    assert_eq!(c.set_player_info_smart_contract_address(addr(3)), Ok(()));
    assert_eq!(c.get_this_address(), addr(1));
    assert_eq!(c.get_match_info_smart_contract_address(), addr(2));
    assert_eq!(c.get_player_info_smart_contract_address(), addr(3));
}

#[test]
fn total_is_the_sum_of_both_parties_after_every_stake() {
    let mut c = ready();
    c.create_prediction_pool(authority(), word(6)).unwrap();
    let amounts: [(u64, u64); 5] = [(1, 11), (2, 7), (2, 0), (1, 1000), (2, 3)];
    let mut n: u128 = 0x100;
    for (party, amount) in amounts {
        stake(&mut c, 6, party, addr(n), amount).unwrap();
        n += 1;
        let pool = c.get_pool(word(6)).unwrap();
        let one = pool.party_stake(Party::One);
        let two = pool.party_stake(Party::Two);
        assert_eq!(one.checked_add(two), Some(pool.total_staked()));
    }
    assert_eq!(c.get_pool(word(6)).unwrap().total_staked(), word(1021));
}

#[test]
fn stake_that_overflows_the_total_does_not_fit() {
    let mut c = ready();
    c.create_prediction_pool(authority(), word(6)).unwrap();
    let max = U256 { l0: u64::MAX, l1: u64::MAX, l2: u64::MAX, l3: u64::MAX };
    assert!(c.stake_fits(word(6), max));
    c.predict_match(authority(), word(6), word(1), addr(1), max, true).unwrap();
    assert!(!c.stake_fits(word(6), word(1)));
    assert!(c.stake_fits(word(6), word(0)));
    assert!(c.stake_fits(word(7), word(1)));
}

#[test]
fn rewards_that_overflow_a_balance_do_not_fit() {
    let (a, b) = (addr(0x0A), addr(0x0B));
    let max = U256 { l0: u64::MAX, l1: u64::MAX, l2: u64::MAX, l3: u64::MAX };
    let mut c = ready();
    c.create_prediction_pool(authority(), word(1)).unwrap();
    c.create_prediction_pool(authority(), word(2)).unwrap();
    c.predict_match(authority(), word(1), word(1), a, max, true).unwrap();
    assert!(c.rewards_fit(word(1), word(1)));
    c.submit_match_result(authority(), word(1), word(1)).unwrap();
    assert_eq!(c.withdrawable(a), max);
    stake(&mut c, 2, 1, a, 1).unwrap();
    stake(&mut c, 2, 2, b, 1).unwrap();
    assert!(!c.rewards_fit(word(2), word(1)));
    assert!(c.rewards_fit(word(2), word(2)));
}
