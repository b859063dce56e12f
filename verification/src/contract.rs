//! The prediction contract: configuration, the pools of all matches and the
//! withdrawal vault, behind the access check.
//!
//! Every operation takes the caller's address as an argument. Moving the
//! asset itself is left to the asset ledger: an operation that needs a
//! transfer says which one, and the operation that depends on its outcome
//! takes the outcome as an argument.

use vstd::prelude::*;
use crate::access::{caller_is, require_caller_is};
use crate::address::Address;
use crate::error::Error;
use crate::pool::{Party, Pool, PoolView};
use crate::registry::{adopt_in, create_in, pools_wf, resolve_in, stake_in, PoolRegistry};
use crate::rewards::{
    compute_rewards, distinct_recipients, lemma_rewards_match_reward_for, paid_to, reward_for,
};
use crate::uint::{u256_max, U256};
use crate::vault::WithdrawalVault;

verus! {

/// A transfer the asset ledger is asked to make on behalf of `from`.
#[derive(Clone, Copy, Debug, PartialEq, Eq, Structural)]
pub struct TransferRequest {
    pub from: Address,
    pub to: Address,
    pub amount: U256,
}

/// A payment the asset ledger is asked to make out of the custodial balance.
#[derive(Clone, Copy, Debug, PartialEq, Eq, Structural)]
pub struct Payout {
    pub to: Address,
    pub amount: U256,
}

/// The notice that a stake was placed.
#[derive(Clone, Copy, Debug, PartialEq, Eq, Structural)]
pub struct StakePlaced {
    pub match_id: U256,
    pub predictor: Address,
    pub party: U256,
    pub amount: U256,
}

/// The notice that the result of a match is in and the rewards are credited.
#[derive(Clone, Copy, Debug, PartialEq, Eq, Structural)]
pub struct ResultAvailable {
    pub match_id: U256,
    pub winner: U256,
}

/// The state of the contract as plain mathematics.
pub struct ContractView {
    pub initialized: bool,
    pub owner: Address,
    /// The custodial address that stakes are moved to.
    pub this_address: Address,
    pub player_info_smart_contract_address: Address,
    /// The match authority: the only caller that may create pools, route
    /// stakes and submit results.
    pub match_info_smart_contract_address: Address,
    /// The pool of every match that has one.
    pub pools: Map<U256, PoolView>,
    /// What every address may withdraw.
    pub vault: Map<Address, nat>,
}

impl ContractView {
    /// The state before initialization: nothing configured, no pools,
    /// nothing owed.
    pub open spec fn fresh() -> ContractView {
        ContractView {
            initialized: false,
            owner: Address { hi: 0, lo: 0 },
            this_address: Address { hi: 0, lo: 0 },
            player_info_smart_contract_address: Address { hi: 0, lo: 0 },
            match_info_smart_contract_address: Address { hi: 0, lo: 0 },
            pools: Map::empty(),
            vault: Map::total(|a: Address| 0nat),
        }
    }

    /// The contract's invariant: every pool satisfies the pool invariant,
    /// and the vault gives every address a balance that fits in 256 bits.
    pub open spec fn wf(self) -> bool {
        &&& pools_wf(self.pools)
        &&& forall|a: Address| #[trigger] self.vault.dom().contains(a)
        &&& forall|a: Address| #[trigger] self.vault[a] <= u256_max()
    }

    /// What guards the operations of the match authority: the
    /// contract must be initialized, and the caller must be the authority.
    pub open spec fn authorize(self, caller: Address) -> Result<(), Error> {
        if !self.initialized {
            Err(Error::NotInitialized)
        } else if !caller_is(caller, self.match_info_smart_contract_address) {
            Err(Error::Unauthorized)
        } else {
            Ok(())
        }
    }

    /// What `adopt_pool` does.
    pub open spec fn adopt_pool(self, match_id: U256, pool: PoolView) -> Result<
        ContractView,
        Error,
    > {
        match adopt_in(self.pools, match_id, pool) {
            Err(e) => Err(e),
            Ok(pools) => Ok(ContractView { pools, ..self }),
        }
    }

    /// What `adopt_balance` does: an account without a balance gets
    /// `amount`, an account with one keeps it.
    pub open spec fn adopt_balance(self, account: Address, amount: U256) -> ContractView {
        if self.vault[account] == 0 {
            ContractView { vault: self.vault.insert(account, amount@), ..self }
        } else {
            self
        }
    }

    /// What `init` does.
    pub open spec fn init(self, caller: Address) -> Result<ContractView, Error> {
        if self.initialized {
            Err(Error::AlreadyInitialized)
        } else {
            Ok(ContractView { initialized: true, owner: caller, ..self })
        }
    }

    /// What `create_prediction_pool` does.
    pub open spec fn create_prediction_pool(self, caller: Address, match_id: U256) -> Result<
        ContractView,
        Error,
    > {
        match self.authorize(caller) {
            Err(e) => Err(e),
            Ok(_) => match create_in(self.pools, match_id) {
                Err(e) => Err(e),
                Ok(pools) => Ok(ContractView { pools, ..self }),
            },
        }
    }

    /// What `predict_match` does, given whether the asset ledger moved the
    /// stake.
    pub open spec fn predict_match(
        self,
        caller: Address,
        match_id: U256,
        party: U256,
        predictor: Address,
        amount: U256,
        transferred: bool,
    ) -> Result<ContractView, Error> {
        match self.authorize(caller) {
            Err(e) => Err(e),
            Ok(_) => match Party::from_number(party@) {
                None => Err(Error::InvalidParty),
                Some(side) => match stake_in(self.pools, match_id, side, predictor, amount) {
                    Err(e) => Err(e),
                    Ok(pools) => if transferred {
                        Ok(ContractView { pools, ..self })
                    } else {
                        Err(Error::TransferFailed)
                    },
                },
            },
        }
    }

    /// Whether the pool of `match_id`, if there is one, can hold `amount`
    /// more.
    pub open spec fn stake_fits(self, match_id: U256, amount: U256) -> bool {
        self.pools.dom().contains(match_id) ==> self.pools[match_id].can_hold(amount)
    }

    /// The vault after the winners of `pool` were credited.
    pub open spec fn vault_after(self, pool: PoolView, winner: Party) -> Map<Address, nat> {
        Map::total(|a: Address| self.vault[a] + reward_for(pool, winner, a))
    }

    /// What `submit_match_result` does.
    pub open spec fn submit_match_result(self, caller: Address, match_id: U256, winner: U256)
        -> Result<ContractView, Error> {
        match self.authorize(caller) {
            Err(e) => Err(e),
            Ok(_) => if !self.pools.dom().contains(match_id) {
                Err(Error::PoolNotFound)
            } else {
                match Party::from_number(winner@) {
                    None => Err(Error::InvalidWinner),
                    Some(side) => match resolve_in(self.pools, match_id, side) {
                        Err(e) => Err(e),
                        Ok(pools) => Ok(
                            ContractView {
                                pools,
                                vault: self.vault_after(self.pools[match_id], side),
                                ..self
                            },
                        ),
                    },
                }
            },
        }
    }

    /// Whether every winner's balance can take its reward and still fit in
    /// 256 bits, should `winner` be declared for `match_id`.
    pub open spec fn rewards_fit(self, match_id: U256, winner: U256) -> bool {
        self.pools.dom().contains(match_id) ==> match Party::from_number(winner@) {
            None => true,
            Some(side) => self.pools[match_id].side_stake(side) > 0 ==> forall|a: Address|
                self.vault[a] + #[trigger] reward_for(self.pools[match_id], side, a)
                    <= u256_max(),
        }
    }

    /// What `withdraw_rewards` does.
    pub open spec fn withdraw_rewards(self, caller: Address) -> Result<ContractView, Error> {
        if !self.initialized {
            Err(Error::NotInitialized)
        } else if self.vault[caller] == 0 {
            Err(Error::NoRewardsAvailable)
        } else {
            Ok(ContractView { vault: self.vault.insert(caller, 0), ..self })
        }
    }

    /// The state after the asset ledger answered a payout: unchanged if it
    /// paid, and with the amount back in the recipient's balance if it did
    /// not.
    pub open spec fn settle_withdrawal(self, payout: Payout, transferred: bool) -> ContractView {
        if transferred {
            self
        } else {
            ContractView {
                vault: self.vault.insert(payout.to, self.vault[payout.to] + payout.amount@),
                ..self
            }
        }
    }
}

/// The prediction contract.
#[derive(Debug)]
pub struct PredictionContract {
    initialized: bool,
    owner: Address,
    this_address: Address,
    player_info_smart_contract_address: Address,
    match_info_smart_contract_address: Address,
    prediction_pools: PoolRegistry,
    withdrawable_pool: WithdrawalVault,
}

impl View for PredictionContract {
    type V = ContractView;

    closed spec fn view(&self) -> ContractView {
        ContractView {
            initialized: self.initialized,
            owner: self.owner,
            this_address: self.this_address,
            player_info_smart_contract_address: self.player_info_smart_contract_address,
            match_info_smart_contract_address: self.match_info_smart_contract_address,
            pools: self.prediction_pools@,
            vault: self.withdrawable_pool@,
        }
    }
}

impl PredictionContract {
    /// The invariant of the contract's parts.
    pub closed spec fn wf(&self) -> bool {
        &&& self.prediction_pools.wf()
        &&& self.withdrawable_pool.wf()
    }

    /// The state of a well-formed contract satisfies [`ContractView::wf`].
    pub proof fn lemma_view_wf(&self)
        requires
            self.wf(),
        ensures
            self@.wf(),
    {
        self.prediction_pools.lemma_pools_wf();
        self.withdrawable_pool.lemma_total();
    }

    /// A contract that has not been initialized.
    pub fn new() -> (contract: PredictionContract)
        ensures
            contract.wf(),
            contract@ == ContractView::fresh(),
    {
        PredictionContract {
            initialized: false,
            owner: Address::zero(),
            this_address: Address::zero(),
            player_info_smart_contract_address: Address::zero(),
            match_info_smart_contract_address: Address::zero(),
            prediction_pools: PoolRegistry::new(),
            withdrawable_pool: WithdrawalVault::new(),
        }
    }

    /// A contract with the given configuration, without pools and with
    /// nothing owed: the starting point for rebuilding a stored state.
    pub fn restore(
        initialized: bool,
        owner: Address,
        this_address: Address,
        player_info_smart_contract_address: Address,
        match_info_smart_contract_address: Address,
    ) -> (contract: PredictionContract)
        ensures
            contract.wf(),
            contract@ == (ContractView {
                initialized,
                owner,
                this_address,
                player_info_smart_contract_address,
                match_info_smart_contract_address,
                ..ContractView::fresh()
            }),
    {
        PredictionContract {
            initialized,
            owner,
            this_address,
            player_info_smart_contract_address,
            match_info_smart_contract_address,
            prediction_pools: PoolRegistry::new(),
            withdrawable_pool: WithdrawalVault::new(),
        }
    }

    /// Takes in a pool that was rebuilt from storage as the pool of
    /// `match_id`.
    ///
    /// Fails with `PoolAlreadyExists`, changing nothing, exactly when the
    /// match has a pool already.
    pub fn adopt_pool(&mut self, match_id: U256, pool: Pool) -> (r: Result<(), Error>)
        requires
            old(self).wf(),
            pool.wf(),
        ensures
            final(self).wf(),
            match old(self)@.adopt_pool(match_id, pool@) {
                Ok(next) => r is Ok && final(self)@ == next,
                Err(e) => r == Err::<(), Error>(e) && final(self)@ == old(self)@,
            },
    {
        self.prediction_pools.adopt(match_id, pool)
    }

    /// Takes in a stored balance: sets what `account` may withdraw to
    /// `amount`, or does nothing where the account has a balance already.
    pub fn adopt_balance(&mut self, account: Address, amount: U256) -> (r: bool)
        requires
            old(self).wf(),
        ensures
            final(self).wf(),
            r == (old(self)@.vault[account] == 0),
            final(self)@ == old(self)@.adopt_balance(account, amount),
    {
        if self.withdrawable_pool.balance_of(account).is_zero() {
            self.withdrawable_pool.credit(account, amount);
            true
        } else {
            false
        }
    }

    /// Initializes the contract and makes `caller` its owner.
    ///
    /// Fails with `AlreadyInitialized`, changing nothing, exactly when it
    /// was initialized before.
    pub fn init(&mut self, caller: Address) -> (r: Result<(), Error>)
        requires
            old(self).wf(),
        ensures
            final(self).wf(),
            match old(self)@.init(caller) {
                Ok(next) => r is Ok && final(self)@ == next,
                Err(e) => r == Err::<(), Error>(e) && final(self)@ == old(self)@,
            },
    {
        if self.initialized {
            return Err(Error::AlreadyInitialized);
        }
        self.initialized = true;
        self.owner = caller;
        Ok(())
    }

    /// Whether the contract has been initialized.
    pub fn is_initialized(&self) -> (r: bool)
        ensures
            r == self@.initialized,
    {
        self.initialized
    }

    /// The address that initialized the contract.
    pub fn get_owner(&self) -> (r: Address)
        ensures
            r == self@.owner,
    {
        self.owner
    }

    /// The configured player registry.
    pub fn get_player_info_smart_contract_address(&self) -> (r: Address)
        ensures
            r == self@.player_info_smart_contract_address,
    {
        self.player_info_smart_contract_address
    }

    /// Configures the player registry. Always succeeds.
    pub fn set_player_info_smart_contract_address(
        &mut self,
        player_info_smart_contract_address: Address,
    ) -> (r: Result<(), Error>)
        requires
            old(self).wf(),
        ensures
            final(self).wf(),
            r is Ok,
            final(self)@ == (ContractView { player_info_smart_contract_address, ..old(self)@ }),
    {
        self.player_info_smart_contract_address = player_info_smart_contract_address;
        Ok(())
    }

    /// The configured match authority.
    pub fn get_match_info_smart_contract_address(&self) -> (r: Address)
        ensures
            r == self@.match_info_smart_contract_address,
    {
        self.match_info_smart_contract_address
    }

    /// Configures the match authority. Always succeeds.
    pub fn set_match_info_smart_contract_address(
        &mut self,
        match_info_smart_contract_address: Address,
    ) -> (r: Result<(), Error>)
        requires
            old(self).wf(),
        ensures
            final(self).wf(),
            r is Ok,
            final(self)@ == (ContractView { match_info_smart_contract_address, ..old(self)@ }),
    {
        self.match_info_smart_contract_address = match_info_smart_contract_address;
        Ok(())
    }

    /// The configured custodial address.
    pub fn get_this_address(&self) -> (r: Address)
        ensures
            r == self@.this_address,
    {
        self.this_address
    }

    /// Configures the custodial address. Always succeeds.
    pub fn set_this_address(&mut self, this_address: Address) -> (r: Result<(), Error>)
        requires
            old(self).wf(),
        ensures
            final(self).wf(),
            r is Ok,
            final(self)@ == (ContractView { this_address, ..old(self)@ }),
    {
        self.this_address = this_address;
        Ok(())
    }

    /// The pool of `match_id`, or `None` where none was created.
    pub fn get_pool(&self, match_id: U256) -> (r: Option<&Pool>)
        requires
            self.wf(),
        ensures
            match r {
                Some(pool) => self@.pools.dom().contains(match_id) && pool@
                    == self@.pools[match_id] && pool.wf(),
                None => !self@.pools.dom().contains(match_id),
            },
    {
        self.prediction_pools.get_pool(match_id)
    }

    /// What `account` may withdraw.
    pub fn withdrawable(&self, account: Address) -> (r: U256)
        requires
            self.wf(),
        ensures
            r@ == self@.vault[account],
    {
        self.withdrawable_pool.balance_of(account)
    }

    /// Lets the match authority through once the contract is initialized.
    fn authorize(&self, caller: Address) -> (r: Result<(), Error>)
        ensures
            r == self@.authorize(caller),
    {
        if !self.initialized {
            return Err(Error::NotInitialized);
        }
        require_caller_is(caller, self.match_info_smart_contract_address)
    }

    /// Opens a pool for `match_id`.
    ///
    /// Fails with `NotInitialized`, then `Unauthorized` for a caller other
    /// than the match authority, then `PoolAlreadyExists`; a failure changes
    /// nothing.
    pub fn create_prediction_pool(&mut self, caller: Address, match_id: U256) -> (r: Result<
        (),
        Error,
    >)
        requires
            old(self).wf(),
        ensures
            final(self).wf(),
            match old(self)@.create_prediction_pool(caller, match_id) {
                Ok(next) => r is Ok && final(self)@ == next,
                Err(e) => r == Err::<(), Error>(e) && final(self)@ == old(self)@,
            },
    {
        self.authorize(caller)?;
        self.prediction_pools.create_pool(match_id)
    }

    /// Whether the pool of `match_id`, if there is one, can hold `amount`
    /// more. A stake of an amount that does not fit must not be placed.
    pub fn stake_fits(&self, match_id: U256, amount: U256) -> (r: bool)
        requires
            self.wf(),
        ensures
            r == self@.stake_fits(match_id, amount),
    {
        match self.prediction_pools.get_pool(match_id) {
            Some(pool) => pool.total_staked().checked_add(amount).is_some(),
            None => true,
        }
    }

    /// Decides whether a stake would be accepted and says which transfer
    /// the asset ledger has to make for it, without changing anything.
    ///
    /// Fails exactly as [`PredictionContract::predict_match`] does for a
    /// stake that was moved. Otherwise the request is for `amount` from
    /// `predictor` to the custodial address.
    pub fn prepare_prediction(
        &self,
        caller: Address,
        match_id: U256,
        party: U256,
        predictor: Address,
        amount: U256,
    ) -> (r: Result<TransferRequest, Error>)
        requires
            self.wf(),
        ensures
            match self@.predict_match(caller, match_id, party, predictor, amount, true) {
                Ok(_) => r == Ok::<TransferRequest, Error>(
                    TransferRequest { from: predictor, to: self@.this_address, amount },
                ),
                Err(e) => r == Err::<TransferRequest, Error>(e),
            },
    {
        self.authorize(caller)?;
        if Party::from_u256(party).is_none() {
            return Err(Error::InvalidParty);
        }
        match self.prediction_pools.get_pool(match_id) {
            None => Err(Error::PoolNotFound),
            Some(pool) => {
                pool.admits(predictor)?;
                Ok(TransferRequest { from: predictor, to: self.this_address, amount })
            },
        }
    }

    /// Places a stake of `amount` from `predictor` on `party` of `match_id`,
    /// given whether the asset ledger moved the amount to the custodial
    /// address.
    ///
    /// Fails, in this order, with `NotInitialized`; `Unauthorized` for a
    /// caller other than the match authority; `InvalidParty` unless `party`
    /// is 1 or 2; `PoolNotFound`; `PoolAlreadyResolved`; `DuplicatePredictor`
    /// for a predictor with a stake on either party; and `TransferFailed`
    /// where the transfer was not made. A failure changes nothing. On
    /// success the stake is appended to the party's list and added to the
    /// party's aggregate and to the pool's total, and the notice to emit is
    /// returned. The pool's total must be able to hold the amount.
    pub fn predict_match(
        &mut self,
        caller: Address,
        match_id: U256,
        party: U256,
        predictor: Address,
        amount: U256,
        transferred: bool,
    ) -> (r: Result<StakePlaced, Error>)
        requires
            old(self).wf(),
            old(self)@.predict_match(caller, match_id, party, predictor, amount, transferred)
                is Ok ==> old(self)@.stake_fits(match_id, amount),
        ensures
            final(self).wf(),
            match old(self)@.predict_match(caller, match_id, party, predictor, amount, transferred) {
                Ok(next) => r == Ok::<StakePlaced, Error>(
                    StakePlaced { match_id, predictor, party, amount },
                ) && final(self)@ == next,
                Err(e) => r == Err::<StakePlaced, Error>(e) && final(self)@ == old(self)@,
            },
    {
        self.prepare_prediction(caller, match_id, party, predictor, amount)?;
        if !transferred {
            return Err(Error::TransferFailed);
        }
        let side = Party::from_u256(party).unwrap();
        self.prediction_pools.stake(match_id, side, predictor, amount)?;
        Ok(StakePlaced { match_id, predictor, party, amount })
    }

    /// Whether every winner's balance can take its reward and still fit in
    /// 256 bits, should `winner` be declared for `match_id`. A result whose
    /// rewards do not fit must not be submitted.
    pub fn rewards_fit(&self, match_id: U256, winner: U256) -> (r: bool)
        requires
            self.wf(),
        ensures
            r == self@.rewards_fit(match_id, winner),
    {
        let pool = match self.prediction_pools.get_pool(match_id) {
            Some(pool) => pool,
            None => { return true; },
        };
        let side = match Party::from_u256(winner) {
            Some(side) => side,
            None => { return true; },
        };
        proof {
            self.withdrawable_pool.lemma_total();
        }
        let rewards = match compute_rewards(pool, side) {
            Ok(rewards) => rewards,
            Err(_) => { return true; },
        };
        proof {
            lemma_rewards_match_reward_for(rewards@, pool@, side);
        }
        let mut i: usize = 0;
        while i < rewards.len()
            invariant
                i <= rewards.len(),
                self.wf(),
                self@.pools.dom().contains(match_id),
                pool@ == self@.pools[match_id],
                pool@.side_stake(side) > 0,
                Party::from_number(winner@) == Some(side),
                distinct_recipients(rewards@),
                forall|a: Address| #[trigger] paid_to(rewards@, a) == reward_for(pool@, side, a),
                forall|a: Address| #[trigger] self@.vault[a] <= u256_max(),
                forall|j: int|
                    0 <= j < i ==> self@.vault[(#[trigger] rewards@[j]).predictor]
                        + rewards@[j].amount@ <= u256_max(),
            decreases rewards.len() - i,
        {
            let reward = rewards[i];
            let balance = self.withdrawable_pool.balance_of(reward.predictor);
            if balance.checked_add(reward.amount).is_none() {
                proof {
                    assert(paid_to(rewards@, reward.predictor) == reward_for(
                        pool@,
                        side,
                        reward.predictor,
                    ));
                }
                return false;
            }
            i += 1;
        }
        proof {
            assert forall|a: Address|
                self@.vault[a] + #[trigger] reward_for(pool@, side, a) <= u256_max() by {
                assert(paid_to(rewards@, a) == reward_for(pool@, side, a));
            }
        }
        true
    }

    /// Records that `winner` won `match_id` and credits every predictor on
    /// the winning party with its reward.
    ///
    /// Fails, in this order, with `NotInitialized`; `Unauthorized` for a
    /// caller other than the match authority; `PoolNotFound`;
    /// `InvalidWinner` unless `winner` is 1 or 2; `PoolAlreadyResolved`; and
    /// `NoWinningStakers` where nothing is staked on the winner. A failure
    /// changes nothing. On success the pool is marked resolved, stakes and
    /// totals untouched, each address's balance has grown by exactly its
    /// reward, `floor(stake * total / winning aggregate)`, and the notice to
    /// emit is returned. Every winner's new balance must fit in 256 bits.
    pub fn submit_match_result(&mut self, caller: Address, match_id: U256, winner: U256) -> (r:
        Result<ResultAvailable, Error>)
        requires
            old(self).wf(),
            old(self)@.submit_match_result(caller, match_id, winner) is Ok ==> old(
                self,
            )@.rewards_fit(match_id, winner),
        ensures
            final(self).wf(),
            match old(self)@.submit_match_result(caller, match_id, winner) {
                Ok(next) => r == Ok::<ResultAvailable, Error>(ResultAvailable { match_id, winner })
                    && final(self)@ == next,
                Err(e) => r == Err::<ResultAvailable, Error>(e) && final(self)@ == old(self)@,
            },
    {
        self.authorize(caller)?;
        if !self.prediction_pools.contains(match_id) {
            return Err(Error::PoolNotFound);
        }
        let side = match Party::from_u256(winner) {
            Some(side) => side,
            None => { return Err(Error::InvalidWinner); },
        };
        proof {
            self.prediction_pools.lemma_pools_wf();
        }
        let rewards = self.prediction_pools.resolve(match_id, side)?;
        proof {
            let pool = old(self)@.pools[match_id];
            lemma_rewards_match_reward_for(rewards@, pool, side);
            assert forall|i: int| 0 <= i < rewards@.len() implies old(self)@.vault[(
            #[trigger] rewards@[i]).predictor] + rewards@[i].amount@ <= u256_max() by {
                assert(old(self)@.vault[rewards@[i].predictor] + reward_for(
                    pool,
                    side,
                    rewards@[i].predictor,
                ) <= u256_max());
            }
        }
        self.withdrawable_pool.credit_all(&rewards);
        assert(self@.vault =~= old(self)@.vault_after(old(self)@.pools[match_id], side));
        Ok(ResultAvailable { match_id, winner })
    }

    /// Takes everything `caller` may withdraw out of the vault and says
    /// which payment the asset ledger has to make.
    ///
    /// Fails with `NotInitialized`, then with `NoRewardsAvailable` where the
    /// caller's balance is zero; a failure changes nothing and asks for no
    /// payment. Otherwise the balance is zero afterwards, before any payment
    /// is attempted, and the payout is for the whole former balance.
    pub fn withdraw_rewards(&mut self, caller: Address) -> (r: Result<Payout, Error>)
        requires
            old(self).wf(),
        ensures
            final(self).wf(),
            match old(self)@.withdraw_rewards(caller) {
                Ok(next) => {
                    &&& r matches Ok(payout)
                    &&& payout.to == caller
                    &&& payout.amount@ == old(self)@.vault[caller]
                    &&& final(self)@ == next
                },
                Err(e) => r == Err::<Payout, Error>(e) && final(self)@ == old(self)@,
            },
    {
        if !self.initialized {
            return Err(Error::NotInitialized);
        }
        let amount = self.withdrawable_pool.withdraw(caller)?;
        Ok(Payout { to: caller, amount })
    }

    /// Closes a withdrawal, given whether the asset ledger made the payout.
    ///
    /// Where it did, nothing changes and the amount paid is returned. Where
    /// it did not, the amount goes back into the recipient's balance and the
    /// withdrawal fails with `TransferFailed`. The restored balance must fit
    /// in 256 bits, as it does right after the withdrawal.
    pub fn settle_withdrawal(&mut self, payout: Payout, transferred: bool) -> (r: Result<
        U256,
        Error,
    >)
        requires
            old(self).wf(),
            !transferred ==> old(self)@.vault[payout.to] + payout.amount@ <= u256_max(),
        ensures
            final(self).wf(),
            final(self)@ == old(self)@.settle_withdrawal(payout, transferred),
            transferred ==> r == Ok::<U256, Error>(payout.amount),
            !transferred ==> r == Err::<U256, Error>(Error::TransferFailed),
    {
        if transferred {
            Ok(payout.amount)
        } else {
            self.withdrawable_pool.credit(payout.to, payout.amount);
            Err(Error::TransferFailed)
        }
    }
}

} // verus!
