//! Why an operation was refused.

use vstd::prelude::*;

verus! {

/// The ways an operation can fail. A failed operation changes nothing.
#[derive(Clone, Copy, Debug, PartialEq, Eq, Structural)]
pub enum Error {
    /// The contract has not been initialized yet.
    NotInitialized,
    /// The contract was initialized before.
    AlreadyInitialized,
    /// The caller is not the address that may perform the operation.
    Unauthorized,
    /// A stake named a party other than 1 or 2.
    InvalidParty,
    /// A result named a winner other than 1 or 2.
    InvalidWinner,
    /// No pool was created for the match.
    PoolNotFound,
    /// A pool for the match exists already.
    PoolAlreadyExists,
    /// The pool's result was submitted before.
    PoolAlreadyResolved,
    /// The predictor has a stake in the pool already.
    DuplicatePredictor,
    /// Nothing was staked on the declared winner.
    NoWinningStakers,
    /// The asset ledger refused the transfer.
    TransferFailed,
    /// The caller has nothing to withdraw.
    NoRewardsAvailable,
}

} // verus!
