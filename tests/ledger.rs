use nosana_rewards::{
    Claim, Close, Enter, Ledger, Pool, RewardsError, StakeRecord, INITIAL_RATE, SCALE,
};

fn staked(principal: u128) -> StakeRecord {
    StakeRecord { principal, withdrawal_timestamp: 0 }
}

fn withdrawing(principal: u128) -> StakeRecord {
    StakeRecord { principal, withdrawal_timestamp: 1_700_000_000 }
}

fn enter(ledger: &mut Ledger, who: u64, principal: u128) -> Result<(), RewardsError> {
    ledger.enter(&Enter { authority: who, stake: staked(principal) })
}

fn claim(ledger: &mut Ledger, who: u64, principal: u128) -> Result<u64, RewardsError> {
    ledger.claim(&Claim { authority: who, stake: staked(principal) })
}

#[test]
fn init_is_empty() {
    let ledger = Ledger::init();
    let pool = ledger.pool();
    assert_eq!(pool.share_total, 0);
    assert_eq!(pool.principal_total, 0);
    assert_eq!(pool.rate, INITIAL_RATE);
    assert_eq!(ledger.share(7), None);
}

#[test]
fn enter_mints_shares_at_current_rate() {
    let mut ledger = Ledger::init();
    assert_eq!(enter(&mut ledger, 1, 1_000_000), Ok(()));
    let share = ledger.share(1).unwrap();
    assert_eq!(share.owner, 1);
    assert_eq!(share.principal_owned, 1_000_000);
    assert_eq!(share.share_owned, 1_000_000);
    let pool = ledger.pool();
    assert_eq!(pool.share_total, 1_000_000);
    assert_eq!(pool.principal_total, 1_000_000);
    assert_eq!(pool.rate, SCALE);
}

#[test]
fn enter_after_fee_mints_fewer_shares() {
    let mut ledger = Ledger::init();
    enter(&mut ledger, 1, 1_000_000).unwrap();
    ledger.add_fee(1_000_000).unwrap();
    assert_eq!(ledger.pool().rate, SCALE / 2);
    enter(&mut ledger, 2, 500_000).unwrap();
    assert_eq!(ledger.share(2).unwrap().share_owned, 250_000);
    let pool = ledger.pool();
    assert_eq!(pool.share_total, 1_250_000);
    assert_eq!(pool.principal_total, 2_500_000);
}

#[test]
fn enter_without_rounding_keeps_rate() {
    let mut ledger = Ledger::init();
    enter(&mut ledger, 1, 3_000_000).unwrap();
    ledger.add_fee(1_000_000).unwrap();
    let before = ledger.pool().rate;
    assert_eq!(before, 750_000_000_000_000_000);
    enter(&mut ledger, 2, 1_234_568).unwrap();
    assert_eq!(ledger.share(2).unwrap().share_owned, 925_926);
    assert_eq!(ledger.pool().rate, before);
}

#[test]
fn enter_into_large_pool_keeps_rate_within_one_unit() {
    let mut ledger = Ledger::init();
    enter(&mut ledger, 1, 2_000_000_000_000_000_000).unwrap();
    ledger.add_fee(1_000_000_000_000_000_000).unwrap();
    let before = ledger.pool().rate;
    assert_eq!(before, 666_666_666_666_666_666);
    enter(&mut ledger, 2, 1_234_567).unwrap();
    let after = ledger.pool().rate;
    assert!(after <= before);
    assert!(before - after <= 1);
}

#[test]
fn enter_twice_is_refused() {
    let mut ledger = Ledger::init();
    enter(&mut ledger, 1, 100).unwrap();
    let pool = ledger.pool();
    assert_eq!(enter(&mut ledger, 1, 100), Err(RewardsError::DuplicateEntry));
    assert_eq!(ledger.pool(), pool);
}

#[test]
fn enter_zero_is_refused() {
    let mut ledger = Ledger::init();
    assert_eq!(enter(&mut ledger, 1, 0), Err(RewardsError::InvalidAmount));
    assert_eq!(ledger.share(1), None);
}

#[test]
fn enter_overflowing_principal_is_refused() {
    let mut ledger = Ledger::init();
    assert_eq!(enter(&mut ledger, 1, u128::MAX), Err(RewardsError::Overflow));
    assert_eq!(ledger.share(1), None);
}

#[test]
fn add_fee_zero_is_refused() {
    let mut ledger = Ledger::init();
    enter(&mut ledger, 1, 100).unwrap();
    assert_eq!(ledger.add_fee(0), Err(RewardsError::InvalidAmount));
    assert_eq!(ledger.pool().principal_total, 100);
}

#[test]
fn add_fee_raises_share_value() {
    let mut ledger = Ledger::init();
    enter(&mut ledger, 1, 1_000_000).unwrap();
    let shares = ledger.share(1).unwrap().share_owned;
    let mut last = ledger.pool().to_principal(shares).unwrap();
    assert_eq!(last, 1_000_000);
    for fee in [10u64, 500, 250_000] {
        let rate = ledger.pool().rate;
        ledger.add_fee(fee).unwrap();
        assert!(ledger.pool().rate < rate);
        let value = ledger.pool().to_principal(shares).unwrap();
        assert!(value > last);
        assert!(value >= 1_000_000);
        last = value;
    }
    assert_eq!(last, 1_250_510);
}

#[test]
fn sole_claim_pays_the_fee() {
    let mut ledger = Ledger::init();
    enter(&mut ledger, 1, 1_000_000).unwrap();
    ledger.add_fee(500_000).unwrap();
    assert_eq!(claim(&mut ledger, 1, 1_000_000), Ok(500_000));
    let pool = ledger.pool();
    assert_eq!(pool.share_total, 0);
    assert_eq!(pool.principal_total, 0);
    assert_eq!(pool.rate, INITIAL_RATE);
    assert_eq!(ledger.share(1), None);
}

#[test]
fn close_forfeits_yield_to_others() {
    let mut ledger = Ledger::init();
    enter(&mut ledger, 1, 1_000_000).unwrap();
    enter(&mut ledger, 2, 1_000_000).unwrap();
    ledger.add_fee(300_000).unwrap();
    let close = Close { authority: 1, staker: 1, stake: staked(1_000_000) };
    assert_eq!(ledger.close(&close), Ok(()));
    assert_eq!(ledger.pool().principal_total, 1_300_000);
    let paid = claim(&mut ledger, 2, 1_000_000).unwrap();
    assert!(2 * paid > 300_000);
    assert_eq!(paid, 300_000);
    assert_eq!(ledger.pool().share_total, 0);
}

#[test]
fn claim_refused_when_principal_decreased() {
    let mut ledger = Ledger::init();
    enter(&mut ledger, 1, 1_000_000).unwrap();
    ledger.add_fee(1_000).unwrap();
    assert_eq!(claim(&mut ledger, 1, 999_999), Err(RewardsError::PrincipalDecreased));
    assert!(ledger.share(1).is_some());
}

#[test]
fn claim_refused_when_withdrawing() {
    let mut ledger = Ledger::init();
    enter(&mut ledger, 1, 1_000_000).unwrap();
    ledger.add_fee(1_000).unwrap();
    let ctx = Claim { authority: 1, stake: withdrawing(1_000_000) };
    assert_eq!(ledger.claim(&ctx), Err(RewardsError::AlreadyWithdrawing));
    assert!(ledger.share(1).is_some());
}

#[test]
fn claim_without_entry_is_refused() {
    let mut ledger = Ledger::init();
    assert_eq!(claim(&mut ledger, 9, 1), Err(RewardsError::NotEntered));
}

#[test]
fn claim_below_principal_is_refused() {
    let mut ledger = Ledger::init();
    enter(&mut ledger, 1, 1).unwrap();
    ledger.add_fee(2).unwrap();
    enter(&mut ledger, 2, 2).unwrap();
    assert_eq!(ledger.share(2).unwrap().share_owned, 0);
    assert_eq!(claim(&mut ledger, 2, 2), Err(RewardsError::NegativeYield));
}

#[test]
fn claim_that_would_leave_principal_unbacked_is_refused() {
    let mut ledger = Ledger::init();
    enter(&mut ledger, 1, 1).unwrap();
    ledger.add_fee(2).unwrap();
    enter(&mut ledger, 2, 1).unwrap();
    assert_eq!(ledger.pool().rate, 250_000_000_000_000_000);
    let pool = ledger.pool();
    assert_eq!(claim(&mut ledger, 1, 1), Err(RewardsError::Underflow));
    assert_eq!(ledger.pool(), pool);
}

#[test]
fn close_by_stranger_refused_while_staked() {
    let mut ledger = Ledger::init();
    enter(&mut ledger, 1, 100).unwrap();
    let close = Close { authority: 2, staker: 1, stake: staked(100) };
    assert_eq!(ledger.close(&close), Err(RewardsError::Unauthorized));
    assert!(ledger.share(1).is_some());
}

#[test]
fn close_by_stranger_allowed_while_withdrawing() {
    let mut ledger = Ledger::init();
    enter(&mut ledger, 1, 100).unwrap();
    enter(&mut ledger, 2, 50).unwrap();
    let close = Close { authority: 2, staker: 1, stake: withdrawing(100) };
    assert_eq!(ledger.close(&close), Ok(()));
    assert_eq!(ledger.share(1), None);
    assert_eq!(ledger.pool().share_total, 50);
    assert_eq!(ledger.pool().principal_total, 50);
}

#[test]
fn close_without_entry_is_refused() {
    let mut ledger = Ledger::init();
    let close = Close { authority: 1, staker: 1, stake: staked(1) };
    assert_eq!(ledger.close(&close), Err(RewardsError::NotEntered));
}

#[test]
fn pool_conversions() {
    let pool = Pool { share_total: 1_000_000, principal_total: 1_500_000, rate: 666_666_666_666_666_666 };
    assert_eq!(pool.to_principal(1_000_000), Ok(1_500_000));
    assert_eq!(pool.to_shares(3_000_000), Ok(1_999_999));
    assert_eq!(pool.to_shares(u128::MAX), Err(RewardsError::Overflow));
    let empty = Pool { share_total: 0, principal_total: 0, rate: 0 };
    assert_eq!(empty.to_principal(1), Err(RewardsError::DivisionByZero));
}

#[test]
fn recompute_rate_cases() {
    let mut pool = Pool { share_total: 2, principal_total: 3, rate: 0 };
    assert_eq!(pool.recompute_rate(), Ok(()));
    assert_eq!(pool.rate, 666_666_666_666_666_666);
    let mut broken = Pool { share_total: 1, principal_total: 0, rate: 5 };
    assert_eq!(broken.recompute_rate(), Err(RewardsError::DivisionByZero));
    assert_eq!(broken.rate, 5);
    let mut empty = Pool::new();
    empty.rate = 0;
    assert_eq!(empty.recompute_rate(), Ok(()));
    assert_eq!(empty.rate, INITIAL_RATE);
}
