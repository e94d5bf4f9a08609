//! The ledger: the pool and one share record per live participant.
use vstd::prelude::*;

use std::collections::HashMap;

use crate::error::RewardsError;
use crate::pool::Pool;

verus! {

broadcast use vstd::std_specs::hash::group_hash_axioms;

/// Identifier of a participant.
pub type Identity = u64;

/// One participant's fixed principal and the shares minted for it.
#[derive(Clone, Copy, Debug, PartialEq, Eq, Structural)]
pub struct ParticipantShare {
    pub owner: Identity,
    pub principal_owned: u128,
    pub share_owned: u128,
}

/// What the staking side reports of a participant's stake.
#[derive(Clone, Copy, Debug, PartialEq, Eq, Structural)]
pub struct StakeRecord {
    /// The amount currently staked.
    pub principal: u128,
    /// When withdrawal began; 0 while the stake is not being withdrawn.
    pub withdrawal_timestamp: i64,
}

/// Sum of the shares of the entries.
pub open spec fn share_sum(m: Map<Identity, ParticipantShare>) -> int
    decreases m.dom().len(),
{
    if m.dom().finite() && m.dom().len() > 0 {
        let k = m.dom().choose();
        m[k].share_owned + share_sum(m.remove(k))
    } else {
        0
    }
}

/// Sum of the principals of the entries.
pub open spec fn principal_sum(m: Map<Identity, ParticipantShare>) -> int
    decreases m.dom().len(),
{
    if m.dom().finite() && m.dom().len() > 0 {
        let k = m.dom().choose();
        m[k].principal_owned + principal_sum(m.remove(k))
    } else {
        0
    }
}

/// Taking one entry out of a map takes its amounts out of both sums.
pub proof fn lemma_sums_remove(m: Map<Identity, ParticipantShare>, k: Identity)
    requires
        m.dom().finite(),
        m.contains_key(k),
    ensures
        share_sum(m) == m[k].share_owned + share_sum(m.remove(k)),
        principal_sum(m) == m[k].principal_owned + principal_sum(m.remove(k)),
    decreases m.dom().len(),
{
    assert(m.dom().len() > 0);
    let c = m.dom().choose();
    if c != k {
        assert(m.remove(c).dom().len() < m.dom().len());
        lemma_sums_remove(m.remove(c), k);
        lemma_sums_remove(m.remove(k), c);
        assert(m.remove(c).remove(k) =~= m.remove(k).remove(c));
    } else {
        assert(m.remove(c) =~= m.remove(k));
    }
}

/// Both sums are non-negative.
pub proof fn lemma_sums_nonneg(m: Map<Identity, ParticipantShare>)
    ensures
        share_sum(m) >= 0,
        principal_sum(m) >= 0,
    decreases m.dom().len(),
{
    if m.dom().finite() && m.dom().len() > 0 {
        let k = m.dom().choose();
        lemma_sums_nonneg(m.remove(k));
    }
}

/// Adding a new entry adds its amounts to both sums.
pub proof fn lemma_sums_insert(m: Map<Identity, ParticipantShare>, k: Identity, e: ParticipantShare)
    requires
        m.dom().finite(),
        !m.contains_key(k),
    ensures
        share_sum(m.insert(k, e)) == e.share_owned + share_sum(m),
        principal_sum(m.insert(k, e)) == e.principal_owned + principal_sum(m),
{
    lemma_sums_remove(m.insert(k, e), k);
    assert(m.insert(k, e).remove(k) =~= m);
}

/// The caller and stake of an `enter`.
#[derive(Clone, Copy, Debug, PartialEq, Eq, Structural)]
pub struct Enter {
    pub authority: Identity,
    pub stake: StakeRecord,
}

/// The caller and stake of a `claim`.
#[derive(Clone, Copy, Debug, PartialEq, Eq, Structural)]
pub struct Claim {
    pub authority: Identity,
    pub stake: StakeRecord,
}

/// The caller of a `close`, the owner of the entry closed, and the owner's stake.
#[derive(Clone, Copy, Debug, PartialEq, Eq, Structural)]
pub struct Close {
    pub authority: Identity,
    pub staker: Identity,
    pub stake: StakeRecord,
}

/// The state of a ledger: its pool and its live entries by owner.
pub struct LedgerView {
    pub pool: Pool,
    pub entries: Map<Identity, ParticipantShare>,
}

impl LedgerView {
    /// A fresh ledger.
    pub open spec fn empty() -> LedgerView {
        LedgerView { pool: Pool::empty(), entries: Map::empty() }
    }

    /// The pool's rate matches its totals, each entry is filed under its
    /// owner, the share total is the sum of the entries' shares, and the
    /// principal total backs the sum of the entries' principals.
    pub open spec fn wf(self) -> bool {
        &&& self.pool.wf()
        &&& self.entries.dom().finite()
        &&& forall|k: Identity| #[trigger] self.entries.contains_key(k) ==> self.entries[k].owner == k
        &&& self.pool.share_total == share_sum(self.entries)
        &&& self.pool.principal_total >= principal_sum(self.entries)
    }

    /// `enter`: mint shares for the stake's principal at the current rate
    /// and add both to the pool.
    pub open spec fn enter_result(self, who: Identity, principal: u128) -> Result<LedgerView, RewardsError> {
        if self.entries.contains_key(who) {
            Err(RewardsError::DuplicateEntry)
        } else if principal == 0 {
            Err(RewardsError::InvalidAmount)
        } else {
            match self.pool.shares_for(principal) {
                Err(e) => Err(e),
                Ok(shares) => if self.pool.share_total + shares > u128::MAX
                    || self.pool.principal_total + principal > u128::MAX {
                    Err(RewardsError::Overflow)
                } else {
                    match Pool::with_totals(
                        (self.pool.share_total + shares) as u128,
                        (self.pool.principal_total + principal) as u128,
                    ) {
                        Err(e) => Err(e),
                        Ok(pool) => Ok(LedgerView {
                            pool,
                            entries: self.entries.insert(
                                who,
                                ParticipantShare { owner: who, principal_owned: principal, share_owned: shares },
                            ),
                        }),
                    }
                },
            }
        }
    }

    /// `add_fee`: add principal to the pool without minting shares.
    pub open spec fn add_fee_result(self, amount: u64) -> Result<LedgerView, RewardsError> {
        if amount == 0 {
            Err(RewardsError::InvalidAmount)
        } else if self.pool.principal_total + amount > u128::MAX {
            Err(RewardsError::Overflow)
        } else {
            match Pool::with_totals(self.pool.share_total, (self.pool.principal_total + amount) as u128) {
                Err(e) => Err(e),
                Ok(pool) => Ok(LedgerView { pool, entries: self.entries }),
            }
        }
    }

    /// `claim`: take the entry's whole current value out of the pool,
    /// remove the entry, and pay out what the value exceeds its principal by.
    pub open spec fn claim_result(self, who: Identity, stake: StakeRecord) -> Result<(LedgerView, u64), RewardsError> {
        if !self.entries.contains_key(who) {
            Err(RewardsError::NotEntered)
        } else if stake.withdrawal_timestamp != 0 {
            Err(RewardsError::AlreadyWithdrawing)
        } else if stake.principal < self.entries[who].principal_owned {
            Err(RewardsError::PrincipalDecreased)
        } else {
            let e = self.entries[who];
            match self.pool.principal_for(e.share_owned) {
                Err(err) => Err(err),
                Ok(value) => if value < e.principal_owned {
                    Err(RewardsError::NegativeYield)
                } else if self.pool.principal_total < value
                    || self.pool.principal_total - value < principal_sum(self.entries) - e.principal_owned {
                    Err(RewardsError::Underflow)
                } else if value - e.principal_owned > u64::MAX {
                    Err(RewardsError::Overflow)
                } else {
                    match Pool::with_totals(
                        (self.pool.share_total - e.share_owned) as u128,
                        (self.pool.principal_total - value) as u128,
                    ) {
                        Err(err) => Err(err),
                        Ok(pool) => Ok((
                            LedgerView { pool, entries: self.entries.remove(who) },
                            (value - e.principal_owned) as u64,
                        )),
                    }
                },
            }
        }
    }

    /// `close`: remove the entry with its principal, leaving its unclaimed
    /// yield in the pool.
    pub open spec fn close_result(self, authority: Identity, staker: Identity, stake: StakeRecord) -> Result<LedgerView, RewardsError> {
        if !self.entries.contains_key(staker) {
            Err(RewardsError::NotEntered)
        } else if stake.withdrawal_timestamp == 0 && authority != staker {
            Err(RewardsError::Unauthorized)
        } else {
            let e = self.entries[staker];
            match Pool::with_totals(
                (self.pool.share_total - e.share_owned) as u128,
                (self.pool.principal_total - e.principal_owned) as u128,
            ) {
                Err(err) => Err(err),
                Ok(pool) => Ok(LedgerView { pool, entries: self.entries.remove(staker) }),
            }
        }
    }
}

/// The ledger: the pool, the live entries by owner, and the sum of their
/// principals, kept so that no operation walks the entries.
pub struct Ledger {
    pool: Pool,
    entries: HashMap<Identity, ParticipantShare>,
    principal_owned: u128,
}

impl View for Ledger {
    type V = LedgerView;

    closed spec fn view(&self) -> LedgerView {
        LedgerView { pool: self.pool, entries: self.entries@ }
    }
}

impl Ledger {
    /// The view is well formed and the cached principal sum is exact.
    pub closed spec fn inv(&self) -> bool {
        &&& self@.wf()
        &&& self.principal_owned == principal_sum(self.entries@)
    }

    /// A ledger with an empty pool and no entries.
    pub fn init() -> (r: Ledger)
        ensures
            r.inv(),
            r@.wf(),
            r@ == LedgerView::empty(),
    {
        let r = Ledger { pool: Pool::new(), entries: HashMap::new(), principal_owned: 0 };
        proof {
            assert(r.entries@ =~= Map::<Identity, ParticipantShare>::empty());
            assert(r.entries@.dom() =~= Set::<Identity>::empty());
        }
        r
    }

    /// The pool.
    pub fn pool(&self) -> (r: Pool)
        ensures
            r == self@.pool,
    {
        self.pool
    }

    /// The live entry of `who`, if any.
    pub fn share(&self, who: Identity) -> (r: Option<ParticipantShare>)
        ensures
            r == (if self@.entries.contains_key(who) {
                Some(self@.entries[who])
            } else {
                None::<ParticipantShare>
            }),
    {
        match self.entries.get(&who) {
            Some(e) => Some(*e),
            None => None,
        }
    }

    /// Enters the caller with the principal of their stake, minting shares
    /// at the current rate; refused for a caller who already has an entry
    /// and for a zero principal.
    pub fn enter(&mut self, ctx: &Enter) -> (r: Result<(), RewardsError>)
        requires
            old(self).inv(),
        ensures
            final(self).inv(),
            final(self)@.wf(),
            match old(self)@.enter_result(ctx.authority, ctx.stake.principal) {
                Ok(v) => r is Ok && final(self)@ == v,
                Err(e) => r == Err::<(), RewardsError>(e) && final(self)@ == old(self)@,
            },
    {
        let who = ctx.authority;
        let principal = ctx.stake.principal;
        if self.entries.contains_key(&who) {
            return Err(RewardsError::DuplicateEntry);
        }
        if principal == 0 {
            return Err(RewardsError::InvalidAmount);
        }
        let shares = match self.pool.to_shares(principal) {
            Ok(s) => s,
            Err(e) => return Err(e),
        };
        let share_total = match self.pool.share_total.checked_add(shares) {
            Some(t) => t,
            None => return Err(RewardsError::Overflow),
        };
        let principal_total = match self.pool.principal_total.checked_add(principal) {
            Some(t) => t,
            None => return Err(RewardsError::Overflow),
        };
        let mut pool = Pool { share_total, principal_total, rate: self.pool.rate };
        match pool.recompute_rate() {
            Ok(()) => {},
            Err(e) => return Err(e),
        }
        let entry = ParticipantShare { owner: who, principal_owned: principal, share_owned: shares };
        proof {
            lemma_sums_insert(self.entries@, who, entry);
        }
        self.entries.insert(who, entry);
        self.pool = pool;
        self.principal_owned = self.principal_owned + principal;
        Ok(())
    }

    /// Adds `amount` of fee income to the pool without minting shares,
    /// which lowers the rate and raises the value of every share.
    pub fn add_fee(&mut self, amount: u64) -> (r: Result<(), RewardsError>)
        requires
            old(self).inv(),
        ensures
            final(self).inv(),
            final(self)@.wf(),
            match old(self)@.add_fee_result(amount) {
                Ok(v) => r is Ok && final(self)@ == v,
                Err(e) => r == Err::<(), RewardsError>(e) && final(self)@ == old(self)@,
            },
    {
        if amount == 0 {
            return Err(RewardsError::InvalidAmount);
        }
        let principal_total = match self.pool.principal_total.checked_add(amount as u128) {
            Some(t) => t,
            None => return Err(RewardsError::Overflow),
        };
        let mut pool = Pool { share_total: self.pool.share_total, principal_total, rate: self.pool.rate };
        match pool.recompute_rate() {
            Ok(()) => {},
            Err(e) => return Err(e),
        }
        self.pool = pool;
        Ok(())
    }

    /// Takes the caller's entry out at its current value and returns the
    /// yield to pay out: the value less the principal entered with. Refused
    /// while the stake is being withdrawn or has fallen below the entry's
    /// principal, and refused with `Underflow` where the pool left behind
    /// would no longer back the principals of the remaining entries.
    pub fn claim(&mut self, ctx: &Claim) -> (r: Result<u64, RewardsError>)
        requires
            old(self).inv(),
        ensures
            final(self).inv(),
            final(self)@.wf(),
            match old(self)@.claim_result(ctx.authority, ctx.stake) {
                Ok((v, paid)) => r == Ok::<u64, RewardsError>(paid) && final(self)@ == v,
                Err(e) => r == Err::<u64, RewardsError>(e) && final(self)@ == old(self)@,
            },
    {
        let who = ctx.authority;
        let entry = match self.entries.get(&who) {
            Some(e) => *e,
            None => return Err(RewardsError::NotEntered),
        };
        if ctx.stake.withdrawal_timestamp != 0 {
            return Err(RewardsError::AlreadyWithdrawing);
        }
        if ctx.stake.principal < entry.principal_owned {
            return Err(RewardsError::PrincipalDecreased);
        }
        let value = match self.pool.to_principal(entry.share_owned) {
            Ok(v) => v,
            Err(e) => return Err(e),
        };
        if value < entry.principal_owned {
            return Err(RewardsError::NegativeYield);
        }
        let earned = value - entry.principal_owned;
        if self.pool.principal_total < value {
            return Err(RewardsError::Underflow);
        }
        let principal_total = self.pool.principal_total - value;
        proof {
            lemma_sums_remove(self.entries@, who);
            lemma_sums_nonneg(self.entries@.remove(who));
        }
        let rest_principal = self.principal_owned - entry.principal_owned;
        if principal_total < rest_principal {
            return Err(RewardsError::Underflow);
        }
        if earned > u64::MAX as u128 {
            return Err(RewardsError::Overflow);
        }
        let mut pool = Pool {
            share_total: self.pool.share_total - entry.share_owned,
            principal_total,
            rate: self.pool.rate,
        };
        match pool.recompute_rate() {
            Ok(()) => {},
            Err(e) => return Err(e),
        }
        self.entries.remove(&who);
        self.pool = pool;
        self.principal_owned = rest_principal;
        Ok(earned as u64)
    }

    /// Removes an entry with its principal and pays nothing: its unclaimed
    /// yield stays in the pool for the others. Anyone may close an entry
    /// whose stake is being withdrawn; otherwise only its owner.
    pub fn close(&mut self, ctx: &Close) -> (r: Result<(), RewardsError>)
        requires
            old(self).inv(),
        ensures
            final(self).inv(),
            final(self)@.wf(),
            match old(self)@.close_result(ctx.authority, ctx.staker, ctx.stake) {
                Ok(v) => r is Ok && final(self)@ == v,
                Err(e) => r == Err::<(), RewardsError>(e) && final(self)@ == old(self)@,
            },
    {
        let who = ctx.staker;
        let entry = match self.entries.get(&who) {
            Some(e) => *e,
            None => return Err(RewardsError::NotEntered),
        };
        if ctx.stake.withdrawal_timestamp == 0 && ctx.authority != who {
            return Err(RewardsError::Unauthorized);
        }
        proof {
            lemma_sums_remove(self.entries@, who);
            lemma_sums_nonneg(self.entries@.remove(who));
        }
        let mut pool = Pool {
            share_total: self.pool.share_total - entry.share_owned,
            principal_total: self.pool.principal_total - entry.principal_owned,
            rate: self.pool.rate,
        };
        match pool.recompute_rate() {
            Ok(()) => {},
            Err(e) => return Err(e),
        }
        self.entries.remove(&who);
        self.pool = pool;
        self.principal_owned = self.principal_owned - entry.principal_owned;
        Ok(())
    }
}

} // verus!
