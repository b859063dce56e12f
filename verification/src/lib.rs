//! Accounting for two-sided staking pools: who staked what on which side of
//! a match, what each winner is owed once the result is known, and what each
//! predictor may still withdraw.

pub mod access;
pub mod address;
pub mod contract;
pub mod error;
pub mod laws;
pub mod pool;
pub mod registry;
pub mod rewards;
pub mod uint;
pub mod vault;
