//! A proportional reward ledger: a pool of principal and shares whose
//! exchange rate spreads fee income over every live participant in O(1).

pub mod arith;
pub mod error;
pub mod laws;
pub mod ledger;
pub mod pool;

pub use error::RewardsError;
pub use ledger::{
    Claim, Close, Enter, Identity, Ledger, LedgerView, ParticipantShare, StakeRecord,
};
pub use pool::{Pool, INITIAL_RATE, SCALE};
