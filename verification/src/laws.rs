//! What holds of the contract whatever is called on it, and in whatever
//! order.
//!
//! The calls are described as data ([`Call`]), a call's effect on the state
//! by [`step`], and a history of calls by [`run`]. The operations of
//! [`crate::contract::PredictionContract`] are proved to change its state
//! exactly as `step` says, so everything shown here of `run` holds of the
//! contract itself.

use vstd::prelude::*;
use crate::address::Address;
use crate::contract::{ContractView, Payout};
use crate::error::Error;
use crate::pool::{
    backs, distinct_predictors, lemma_with_stake_wf, stake_sum, Party, PoolView, Stake,
};
use crate::uint::{u256_max, U256};

verus! {

/// One call on the contract, with its arguments.
pub enum Call {
    Init { caller: Address },
    SetPlayerInfoAddress { address: Address },
    SetMatchInfoAddress { address: Address },
    SetThisAddress { address: Address },
    CreatePredictionPool { caller: Address, match_id: U256 },
    PredictMatch {
        caller: Address,
        match_id: U256,
        party: U256,
        predictor: Address,
        amount: U256,
        transferred: bool,
    },
    SubmitMatchResult { caller: Address, match_id: U256, winner: U256 },
    WithdrawRewards { caller: Address },
    SettleWithdrawal { payout: Payout, transferred: bool },
    AdoptPool { match_id: U256, pool: PoolView },
    AdoptBalance { account: Address, amount: U256 },
}

/// The state that a refused call leaves: the one it found.
pub open spec fn state_after(before: ContractView, outcome: Result<ContractView, Error>)
    -> ContractView {
    match outcome {
        Ok(next) => next,
        Err(_) => before,
    }
}

/// The state after `call` was made in state `s`.
pub open spec fn step(s: ContractView, call: Call) -> ContractView {
    match call {
        Call::Init { caller } => state_after(s, s.init(caller)),
        Call::SetPlayerInfoAddress { address } => ContractView {
            player_info_smart_contract_address: address,
            ..s
        },
        Call::SetMatchInfoAddress { address } => ContractView {
            match_info_smart_contract_address: address,
            ..s
        },
        Call::SetThisAddress { address } => ContractView { this_address: address, ..s },
        Call::CreatePredictionPool { caller, match_id } => state_after(
            s,
            s.create_prediction_pool(caller, match_id),
        ),
        Call::PredictMatch { caller, match_id, party, predictor, amount, transferred } => state_after(
            s,
            s.predict_match(caller, match_id, party, predictor, amount, transferred),
        ),
        Call::SubmitMatchResult { caller, match_id, winner } => state_after(
            s,
            s.submit_match_result(caller, match_id, winner),
        ),
        Call::WithdrawRewards { caller } => state_after(s, s.withdraw_rewards(caller)),
        Call::SettleWithdrawal { payout, transferred } => s.settle_withdrawal(payout, transferred),
        Call::AdoptPool { match_id, pool } => state_after(s, s.adopt_pool(match_id, pool)),
        Call::AdoptBalance { account, amount } => s.adopt_balance(account, amount),
    }
}

/// Whether `call` keeps every amount within 256 bits when made in state
/// `s`: what the operations ask of their callers. A call that is refused
/// moves no amount and is within the limits whatever its arguments.
pub open spec fn within_limits(s: ContractView, call: Call) -> bool {
    match call {
        Call::PredictMatch { caller, match_id, party, predictor, amount, transferred } => s.predict_match(
            caller,
            match_id,
            party,
            predictor,
            amount,
            transferred,
        ) is Ok ==> s.stake_fits(match_id, amount),
        Call::SubmitMatchResult { caller, match_id, winner } => s.submit_match_result(
            caller,
            match_id,
            winner,
        ) is Ok ==> s.rewards_fit(match_id, winner),
        Call::SettleWithdrawal { payout, transferred } => !transferred ==> s.vault[payout.to]
            + payout.amount@ <= u256_max(),
        Call::AdoptPool { match_id, pool } => pool.wf(),
        _ => true,
    }
}

/// The state after the calls were made one after the other, starting in
/// state `start`.
pub open spec fn run(start: ContractView, calls: Seq<Call>) -> ContractView
    decreases calls.len(),
{
    if calls.len() == 0 {
        start
    } else {
        step(run(start, calls.drop_last()), calls.last())
    }
}

/// Whether every call of the history kept within the limits in the state it
/// met.
pub open spec fn all_within_limits(start: ContractView, calls: Seq<Call>) -> bool
    decreases calls.len(),
{
    if calls.len() == 0 {
        true
    } else {
        &&& all_within_limits(start, calls.drop_last())
        &&& within_limits(run(start, calls.drop_last()), calls.last())
    }
}

/// The state before initialization satisfies the contract's invariant.
pub proof fn lemma_fresh_wf()
    ensures
        ContractView::fresh().wf(),
{
}

/// A call that keeps within the limits preserves the contract's invariant.
pub proof fn lemma_step_preserves_wf(s: ContractView, call: Call)
    requires
        s.wf(),
        within_limits(s, call),
    ensures
        step(s, call).wf(),
{
    match call {
        Call::PredictMatch { caller, match_id, party, predictor, amount, transferred } => {
            if s.predict_match(caller, match_id, party, predictor, amount, transferred) is Ok {
                let side = Party::from_number(party@)->Some_0;
                lemma_with_stake_wf(s.pools[match_id], side, Stake { predictor, amount });
            }
        },
        _ => {},
    }
}

/// The invariant holds at every point in time: after any history of calls
/// that kept within the limits, starting from a state that satisfied it.
pub proof fn lemma_invariant_always_holds(start: ContractView, calls: Seq<Call>)
    requires
        start.wf(),
        all_within_limits(start, calls),
    ensures
        run(start, calls).wf(),
    decreases calls.len(),
{
    if calls.len() > 0 {
        lemma_invariant_always_holds(start, calls.drop_last());
        lemma_step_preserves_wf(run(start, calls.drop_last()), calls.last());
    }
}

/// At every point in time, the total staked in every pool is the sum of the
/// two parties' aggregates, and each aggregate is the sum of the stakes on
/// its party.
pub proof fn lemma_totals_always_balance(calls: Seq<Call>, match_id: U256)
    requires
        all_within_limits(ContractView::fresh(), calls),
        run(ContractView::fresh(), calls).pools.dom().contains(match_id),
    ensures
        ({
            let pool = run(ContractView::fresh(), calls).pools[match_id];
            &&& pool.total_staked == pool.party1_stake + pool.party2_stake
            &&& pool.party1_stake == stake_sum(pool.party1)
            &&& pool.party2_stake == stake_sum(pool.party2)
        }),
{
    lemma_invariant_always_holds(ContractView::fresh(), calls);
}

/// At every point in time, no address appears twice across the two party
/// lists of a pool.
pub proof fn lemma_predictors_always_unique(calls: Seq<Call>, match_id: U256)
    requires
        all_within_limits(ContractView::fresh(), calls),
        run(ContractView::fresh(), calls).pools.dom().contains(match_id),
    ensures
        ({
            let pool = run(ContractView::fresh(), calls).pools[match_id];
            distinct_predictors(pool.party1 + pool.party2)
        }),
{
    lemma_invariant_always_holds(ContractView::fresh(), calls);
}

/// A stake that is accepted puts the predictor into the pool.
pub proof fn lemma_stake_registers_predictor(
    s: ContractView,
    caller: Address,
    match_id: U256,
    party: U256,
    predictor: Address,
    amount: U256,
    transferred: bool,
)
    requires
        s.predict_match(caller, match_id, party, predictor, amount, transferred) is Ok,
    ensures
        ({
            let next = step(
                s,
                Call::PredictMatch { caller, match_id, party, predictor, amount, transferred },
            );
            &&& next.pools.dom().contains(match_id)
            &&& next.pools[match_id].has_predictor(predictor)
        }),
{
    let side = Party::from_number(party@)->Some_0;
    let stake = Stake { predictor, amount };
    let grown = s.pools[match_id].side(side).push(stake);
    assert(grown[grown.len() - 1].predictor == predictor);
}

/// A pool, once created, stays; a predictor, once in a pool, stays in it;
/// and a pool, once resolved, never changes again.
pub proof fn lemma_step_keeps_pools(s: ContractView, call: Call, match_id: U256)
    requires
        s.pools.dom().contains(match_id),
    ensures
        step(s, call).pools.dom().contains(match_id),
        forall|predictor: Address|
            s.pools[match_id].has_predictor(predictor) ==> #[trigger] step(
                s,
                call,
            ).pools[match_id].has_predictor(predictor),
        s.pools[match_id].is_resolved() ==> step(s, call).pools[match_id] == s.pools[match_id],
{
    let next = step(s, call);
    let before = s.pools[match_id];
    let after = next.pools[match_id];
    assert forall|predictor: Address| before.has_predictor(predictor) implies after.has_predictor(
        predictor,
    ) by {
        if after != before {
            if backs(before.party1, predictor) {
                let i = choose|i: int|
                    0 <= i < before.party1.len() && (#[trigger] before.party1[i]).predictor
                        == predictor;
                assert(after.party1[i].predictor == predictor);
            } else {
                let i = choose|i: int|
                    0 <= i < before.party2.len() && (#[trigger] before.party2[i]).predictor
                        == predictor;
                assert(after.party2[i].predictor == predictor);
            }
        }
    }
}

/// The same over a whole history of calls.
pub proof fn lemma_run_keeps_pools(s: ContractView, calls: Seq<Call>, match_id: U256)
    requires
        s.pools.dom().contains(match_id),
    ensures
        run(s, calls).pools.dom().contains(match_id),
        forall|predictor: Address|
            s.pools[match_id].has_predictor(predictor) ==> #[trigger] run(
                s,
                calls,
            ).pools[match_id].has_predictor(predictor),
        s.pools[match_id].is_resolved() ==> run(s, calls).pools[match_id] == s.pools[match_id],
    decreases calls.len(),
{
    if calls.len() > 0 {
        let earlier = run(s, calls.drop_last());
        lemma_run_keeps_pools(s, calls.drop_last(), match_id);
        lemma_step_keeps_pools(earlier, calls.last(), match_id);
    }
}

/// An address that staked on a match can never stake on it again: whatever
/// was called in between, a second stake by the same predictor on the same
/// match is refused, and with `DuplicatePredictor` whenever it gets as far
/// as the pool and finds it open.
pub proof fn lemma_second_stake_is_refused(
    s: ContractView,
    first: Call,
    between: Seq<Call>,
    second: Call,
)
    requires
        first matches Call::PredictMatch { caller, match_id, party, predictor, amount, transferred }
            && s.predict_match(caller, match_id, party, predictor, amount, transferred) is Ok,
        second is PredictMatch,
        second->PredictMatch_match_id == first->PredictMatch_match_id,
        second->PredictMatch_predictor == first->PredictMatch_predictor,
    ensures
        ({
            let later = run(step(s, first), between);
            let outcome = later.predict_match(
                second->PredictMatch_caller,
                second->PredictMatch_match_id,
                second->PredictMatch_party,
                second->PredictMatch_predictor,
                second->PredictMatch_amount,
                second->PredictMatch_transferred,
            );
            &&& outcome is Err
            &&& step(later, second) == later
            &&& later.authorize(second->PredictMatch_caller) is Ok && Party::from_number(
                second->PredictMatch_party@,
            ) is Some && !later.pools[second->PredictMatch_match_id].is_resolved() ==> outcome
                == Err::<ContractView, Error>(Error::DuplicatePredictor)
        }),
{
    let match_id = first->PredictMatch_match_id;
    let predictor = first->PredictMatch_predictor;
    lemma_stake_registers_predictor(
        s,
        first->PredictMatch_caller,
        match_id,
        first->PredictMatch_party,
        predictor,
        first->PredictMatch_amount,
        first->PredictMatch_transferred,
    );
    let placed = step(s, first);
    lemma_run_keeps_pools(placed, between, match_id);
}

/// The result of a match is accepted at most once: whatever was called in
/// between, a second result for the same match is refused, and with
/// `PoolAlreadyResolved` whenever it comes from the match authority and
/// names a valid winner. The pool stays as the first result left it.
pub proof fn lemma_second_result_is_refused(
    s: ContractView,
    first: Call,
    between: Seq<Call>,
    second: Call,
)
    requires
        first matches Call::SubmitMatchResult { caller, match_id, winner }
            && s.submit_match_result(caller, match_id, winner) is Ok,
        second is SubmitMatchResult,
        second->SubmitMatchResult_match_id == first->SubmitMatchResult_match_id,
    ensures
        ({
            let resolved = step(s, first);
            let later = run(resolved, between);
            let match_id = first->SubmitMatchResult_match_id;
            let outcome = later.submit_match_result(
                second->SubmitMatchResult_caller,
                match_id,
                second->SubmitMatchResult_winner,
            );
            &&& outcome is Err
            &&& step(later, second) == later
            &&& later.pools[match_id] == resolved.pools[match_id]
            &&& later.pools[match_id].winner == Party::from_number(
                first->SubmitMatchResult_winner@,
            )
            &&& later.authorize(second->SubmitMatchResult_caller) is Ok && Party::from_number(
                second->SubmitMatchResult_winner@,
            ) is Some ==> outcome == Err::<ContractView, Error>(Error::PoolAlreadyResolved)
        }),
{
    let match_id = first->SubmitMatchResult_match_id;
    let resolved = step(s, first);
    lemma_run_keeps_pools(resolved, between, match_id);
}

/// A withdrawal whose payout the asset ledger refuses leaves everything as
/// it was before the withdrawal. `payout` is what the withdrawal asked for.
pub proof fn lemma_failed_withdrawal_changes_nothing(
    s: ContractView,
    caller: Address,
    payout: Payout,
)
    requires
        s.wf(),
        s.withdraw_rewards(caller) is Ok,
        payout.to == caller,
        payout.amount@ == s.vault[caller],
    ensures
        ({
            let emptied = step(s, Call::WithdrawRewards { caller });
            &&& emptied.vault[caller] == 0
            &&& within_limits(emptied, Call::SettleWithdrawal { payout, transferred: false })
            &&& step(emptied, Call::SettleWithdrawal { payout, transferred: false }) == s
        }),
{
    let emptied = step(s, Call::WithdrawRewards { caller });
    let restored = step(emptied, Call::SettleWithdrawal { payout, transferred: false });
    assert(restored.vault =~= s.vault);
}

} // verus!
