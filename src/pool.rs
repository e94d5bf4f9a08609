//! The global pool: aggregate totals and the cached exchange rate.
use vstd::prelude::*;

use crate::error::RewardsError;

verus! {

/// Fixed-point scale of the rate: a rate of `SCALE` mints one share per
/// unit of principal.
pub const SCALE: u128 = 1_000_000_000_000_000_000;

/// The rate of an empty pool.
pub const INITIAL_RATE: u128 = SCALE;

/// Totals of the pool and the rate derived from them.
#[derive(Clone, Copy, Debug, PartialEq, Eq, Structural)]
pub struct Pool {
    /// Sum of the shares of all live participants.
    pub share_total: u128,
    /// Principal of all live participants plus fee income not yet paid out.
    pub principal_total: u128,
    /// `share_total * SCALE / principal_total`, or `INITIAL_RATE` when empty.
    pub rate: u128,
}

/// The rate that the given totals call for, or why it cannot be computed.
pub open spec fn rate_for(share_total: u128, principal_total: u128) -> Result<u128, RewardsError> {
    if principal_total == 0 {
        if share_total == 0 {
            Ok(INITIAL_RATE)
        } else {
            Err(RewardsError::DivisionByZero)
        }
    } else if share_total as int * SCALE as int > u128::MAX {
        Err(RewardsError::Overflow)
    } else {
        Ok((share_total as int * SCALE as int / principal_total as int) as u128)
    }
}

impl Pool {
    /// The pool's rate is the one its totals call for.
    pub open spec fn wf(self) -> bool {
        rate_for(self.share_total, self.principal_total) == Ok::<u128, RewardsError>(self.rate)
    }

    /// A pool with the given totals and its rate recomputed.
    pub open spec fn with_totals(share_total: u128, principal_total: u128) -> Result<Pool, RewardsError> {
        match rate_for(share_total, principal_total) {
            Ok(rate) => Ok(Pool { share_total, principal_total, rate }),
            Err(e) => Err(e),
        }
    }

    /// Shares minted for `principal` at the current rate.
    pub open spec fn shares_for(self, principal: u128) -> Result<u128, RewardsError> {
        if principal as int * self.rate as int > u128::MAX {
            Err(RewardsError::Overflow)
        } else {
            Ok((principal as int * self.rate as int / SCALE as int) as u128)
        }
    }

    /// Principal that `shares` are worth at the current rate.
    pub open spec fn principal_for(self, shares: u128) -> Result<u128, RewardsError> {
        if self.rate == 0 {
            Err(RewardsError::DivisionByZero)
        } else if shares as int * SCALE as int > u128::MAX {
            Err(RewardsError::Overflow)
        } else {
            Ok((shares as int * SCALE as int / self.rate as int) as u128)
        }
    }

    /// The empty pool.
    pub open spec fn empty() -> Pool {
        Pool { share_total: 0, principal_total: 0, rate: INITIAL_RATE }
    }

    /// An empty pool.
    pub fn new() -> (r: Pool)
        ensures
            r == Pool::empty(),
            r.wf(),
    {
        Pool { share_total: 0, principal_total: 0, rate: INITIAL_RATE }
    }

    /// `principal * rate / SCALE`, with the product checked.
    pub fn to_shares(&self, principal: u128) -> (r: Result<u128, RewardsError>)
        ensures
            r == self.shares_for(principal),
    {
        match principal.checked_mul(self.rate) {
            Some(product) => Ok(product / SCALE),
            None => Err(RewardsError::Overflow),
        }
    }

    /// `shares * SCALE / rate`, with the product and the divisor checked.
    pub fn to_principal(&self, shares: u128) -> (r: Result<u128, RewardsError>)
        ensures
            r == self.principal_for(shares),
    {
        if self.rate == 0 {
            return Err(RewardsError::DivisionByZero);
        }
        match shares.checked_mul(SCALE) {
            Some(product) => Ok(product / self.rate),
            None => Err(RewardsError::Overflow),
        }
    }

    /// Sets the rate from the totals; on failure the pool is left as it was.
    pub fn recompute_rate(&mut self) -> (r: Result<(), RewardsError>)
        ensures
            match rate_for(old(self).share_total, old(self).principal_total) {
                Ok(rate) => r is Ok && *final(self) == (Pool { rate, ..*old(self) }),
                Err(e) => r == Err::<(), RewardsError>(e) && *final(self) == *old(self),
            },
    {
        if self.principal_total == 0 {
            if self.share_total == 0 {
                self.rate = INITIAL_RATE;
                return Ok(());
            }
            return Err(RewardsError::DivisionByZero);
        }
        match self.share_total.checked_mul(SCALE) {
            Some(product) => {
                self.rate = product / self.principal_total;
                Ok(())
            },
            None => Err(RewardsError::Overflow),
        }
    }
}

} // verus!
