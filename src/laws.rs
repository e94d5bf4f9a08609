//! Properties that relate the ledger's operations to one another.
use vstd::prelude::*;

use crate::arith::{lemma_div_antitone, lemma_floor_between, lemma_floor_bounds};
use crate::ledger::{lemma_sums_insert, Identity, LedgerView, ParticipantShare, StakeRecord};
use crate::pool::{Pool, SCALE};

verus! {

/// Entering never raises the rate. It keeps the rate exactly when no share
/// is lost to rounding, and within one unit once the pool holds at least
/// `SCALE` units of principal.
pub proof fn lemma_enter_rate_neutral(v: LedgerView, who: Identity, principal: u128)
    requires
        v.wf(),
        v.enter_result(who, principal) is Ok,
    ensures
        v.enter_result(who, principal)->Ok_0.pool.rate <= v.pool.rate,
        (principal * v.pool.rate) % (SCALE as int) == 0
            ==> v.enter_result(who, principal)->Ok_0.pool.rate == v.pool.rate,
        v.pool.principal_total + principal >= SCALE
            ==> v.pool.rate <= v.enter_result(who, principal)->Ok_0.pool.rate + 1,
{
    let n = v.enter_result(who, principal)->Ok_0;
    let p = principal as int;
    let r = v.pool.rate as int;
    let big_s = v.pool.share_total as int;
    let big_p = v.pool.principal_total as int;
    let sc = SCALE as int;
    let s = p * r / sc;
    lemma_floor_bounds(p * r, sc);
    vstd::arithmetic::div_mod::lemma_fundamental_div_mod(p * r, sc);
    assert(0 <= p * r) by (nonlinear_arith)
        requires
            p >= 0,
            r >= 0,
    ;
    let y = (big_s + s) * sc;
    let d = big_p + p;
    assert(n.pool.rate == y / d);
    if big_p == 0 {
        assert(big_s == 0);
        assert(r == sc);
        lemma_floor_between(p * sc, sc, p);
        assert(s == p);
        assert(y == sc * d) by (nonlinear_arith)
            requires
                y == (big_s + s) * sc,
                big_s == 0,
                s == p,
                d == big_p + p,
                big_p == 0,
        ;
        assert(y < (sc + 1) * d && sc * d <= y) by (nonlinear_arith)
            requires
                y == sc * d,
                d > 0,
        ;
        lemma_floor_between(y, d, sc);
        assert(y / d == sc);
    } else {
        lemma_floor_bounds(big_s * sc, big_p);
        assert(big_s * sc >= 0) by (nonlinear_arith)
            requires
                big_s >= 0,
                sc >= 0,
        ;
        assert(r == big_s * sc / big_p);
        assert(y < (r + 1) * d) by (nonlinear_arith)
            requires
                y == (big_s + s) * sc,
                big_s * sc < big_p * r + big_p,
                sc * s <= p * r,
                d == big_p + p,
                p > 0,
                r >= 0,
        ;
        assert(y >= 0) by (nonlinear_arith)
            requires
                y == (big_s + s) * sc,
                big_s >= 0,
                s >= 0,
                sc > 0,
        ;
        lemma_floor_between(y, d, r);
        assert(y / d <= r);
        if (p * r) % sc == 0 {
            assert(r * d <= y) by (nonlinear_arith)
                requires
                    y == (big_s + s) * sc,
                    big_p * r <= big_s * sc,
                    p * r == sc * s,
                    d == big_p + p,
            ;
            lemma_floor_between(y, d, r);
        }
        if d >= sc && r >= 1 {
            assert((r - 1) * d <= y) by (nonlinear_arith)
                requires
                    y == (big_s + s) * sc,
                    big_p * r <= big_s * sc,
                    p * r < sc * s + sc,
                    d == big_p + p,
                    d >= sc,
                    r >= 1,
            ;
            lemma_floor_between(y, d, r - 1);
        }
    }
}

/// A fee never raises the rate, leaves the entries alone, and never
/// lowers what a share is worth.
pub proof fn lemma_fee_raises_value(v: LedgerView, amount: u64, shares: u128)
    requires
        v.wf(),
        v.add_fee_result(amount) is Ok,
    ensures
        v.add_fee_result(amount)->Ok_0.entries == v.entries,
        v.add_fee_result(amount)->Ok_0.pool.rate <= v.pool.rate,
        v.pool.principal_for(shares) is Ok && v.add_fee_result(amount)->Ok_0.pool.principal_for(shares) is Ok
            ==> v.pool.principal_for(shares)->Ok_0 <= v.add_fee_result(amount)->Ok_0.pool.principal_for(shares)->Ok_0,
{
    let n = v.add_fee_result(amount)->Ok_0;
    let sc = SCALE as int;
    let big_s = v.pool.share_total as int;
    let big_p = v.pool.principal_total as int;
    assert(big_s * sc >= 0) by (nonlinear_arith)
        requires
            big_s >= 0,
            sc >= 0,
    ;
    if big_p == 0 {
        assert(big_s == 0);
        assert(n.pool.rate == 0);
    } else {
        lemma_div_antitone(big_s * sc, big_p, big_p + amount);
    }
    let x = shares as int * sc;
    assert(x >= 0) by (nonlinear_arith)
        requires
            x == shares as int * sc,
            shares >= 0,
            sc >= 0,
    ;
    if n.pool.rate > 0 {
        lemma_div_antitone(x, n.pool.rate as int, v.pool.rate as int);
    }
}

/// An entry minted without rounding is worth at least its principal at
/// every later rate no higher than the rate after it entered.
pub proof fn lemma_entry_covers_principal(v: LedgerView, who: Identity, principal: u128, later: Pool)
    requires
        v.wf(),
        v.enter_result(who, principal) is Ok,
        (principal * v.pool.rate) % (SCALE as int) == 0,
        later.rate <= v.enter_result(who, principal)->Ok_0.pool.rate,
        later.principal_for(v.enter_result(who, principal)->Ok_0.entries[who].share_owned) is Ok,
    ensures
        later.principal_for(v.enter_result(who, principal)->Ok_0.entries[who].share_owned)->Ok_0
            >= principal,
{
    let n = v.enter_result(who, principal)->Ok_0;
    lemma_enter_rate_neutral(v, who, principal);
    let p = principal as int;
    let r = v.pool.rate as int;
    let sc = SCALE as int;
    let s = n.entries[who].share_owned as int;
    assert(s == p * r / sc);
    assert(0 <= p * r) by (nonlinear_arith)
        requires
            p >= 0,
            r >= 0,
    ;
    vstd::arithmetic::div_mod::lemma_fundamental_div_mod(p * r, sc);
    assert(s * sc == p * r);
    let lr = later.rate as int;
    assert(0 < lr <= r);
    lemma_div_antitone(p * r, lr, r);
    assert(p * r < (p + 1) * r) by (nonlinear_arith)
        requires
            r > 0,
    ;
    lemma_floor_between(p * r, r, p);
}

/// With `t * t <= p * SCALE`, the rate for `p` shares over `t` principal is
/// at least `t`, and the `p` shares are then worth exactly `t`.
proof fn lemma_exact_value(p: int, t: int)
    requires
        0 < p,
        0 < t,
        t * t <= p * SCALE,
    ensures
        (p * SCALE) / t >= t,
        (p * SCALE) / ((p * SCALE) / t) == t,
{
    let x = p * SCALE;
    lemma_floor_between(x, t, t);
    let r = x / t;
    lemma_floor_bounds(x, t);
    assert(x < (t + 1) * r) by (nonlinear_arith)
        requires
            x < t * r + t,
            t <= r,
    ;
    assert(t * r <= x) by (nonlinear_arith)
        requires
            t * r <= x,
    ;
    lemma_floor_between(x, r, t);
}

/// A participant alone in a fresh ledger who enters with `principal` and
/// claims after a fee of `fee` is paid exactly `fee`, and the pool is left
/// without shares. The condition on the amounts keeps the rate fine enough
/// for the claim to carry no rounding.
pub proof fn lemma_sole_claim_pays_fee(who: Identity, principal: u128, fee: u64, stake: StakeRecord)
    requires
        principal > 0,
        fee > 0,
        (principal + fee) * (principal + fee) <= principal * SCALE,
        stake.withdrawal_timestamp == 0,
        stake.principal >= principal,
    ensures
        LedgerView::empty().enter_result(who, principal) is Ok,
        LedgerView::empty().enter_result(who, principal)->Ok_0.add_fee_result(fee) is Ok,
        LedgerView::empty().enter_result(who, principal)->Ok_0.add_fee_result(fee)->Ok_0.claim_result(
            who,
            stake,
        ) is Ok,
        LedgerView::empty().enter_result(who, principal)->Ok_0.add_fee_result(fee)->Ok_0.claim_result(
            who,
            stake,
        )->Ok_0.1 == fee,
        LedgerView::empty().enter_result(who, principal)->Ok_0.add_fee_result(fee)->Ok_0.claim_result(
            who,
            stake,
        )->Ok_0.0.pool.share_total == 0,
{
    let p = principal as int;
    let f = fee as int;
    let sc = SCALE as int;
    assert(p <= sc) by (nonlinear_arith)
        requires
            (p + f) * (p + f) <= p * sc,
            p > 0,
            f > 0,
    ;
    assert(p * sc <= sc * sc) by (nonlinear_arith)
        requires
            p <= sc,
            sc > 0,
    ;
    lemma_floor_between(p * sc, sc, p);
    assert(p * sc < (p + 1) * sc) by (nonlinear_arith)
        requires
            sc > 0,
    ;
    lemma_floor_between(p * sc, p, sc);
    assert(p * sc < (sc + 1) * p) by (nonlinear_arith)
        requires
            p > 0,
    ;
    let e = ParticipantShare { owner: who, principal_owned: principal, share_owned: principal };
    let m0 = Map::<Identity, ParticipantShare>::empty();
    assert(m0.dom() =~= Set::<Identity>::empty());
    lemma_sums_insert(m0, who, e);
    lemma_exact_value(p, p + f);
    let v1 = LedgerView::empty().enter_result(who, principal)->Ok_0;
    assert(v1.pool.rate == SCALE);
    let v2 = v1.add_fee_result(fee)->Ok_0;
    assert(v2.pool.rate == (p * sc) / (p + f));
    assert(v1.entries.remove(who) =~= m0);
}

/// Two participants enter a fresh ledger with the same principal and a fee
/// follows. When the first closes, forfeiting its yield, the second's claim
/// is paid the whole fee, which is more than half of it.
pub proof fn lemma_close_forfeits_yield(
    a: Identity,
    b: Identity,
    principal: u128,
    fee: u64,
    stake_a: StakeRecord,
    stake_b: StakeRecord,
)
    requires
        a != b,
        principal > 0,
        fee > 0,
        (principal + fee) * (principal + fee) <= principal * SCALE,
        stake_b.withdrawal_timestamp == 0,
        stake_b.principal >= principal,
    ensures
        ({
            let v1 = LedgerView::empty().enter_result(a, principal);
            &&& v1 is Ok
            &&& v1->Ok_0.enter_result(b, principal) is Ok
            &&& v1->Ok_0.enter_result(b, principal)->Ok_0.add_fee_result(fee) is Ok
        }),
        ({
            let v3 = LedgerView::empty().enter_result(a, principal)->Ok_0.enter_result(b, principal)->Ok_0.add_fee_result(fee)->Ok_0;
            let v4 = v3.close_result(a, a, stake_a);
            &&& v4 is Ok
            &&& v4->Ok_0.claim_result(b, stake_b) is Ok
            &&& v4->Ok_0.claim_result(b, stake_b)->Ok_0.1 == fee
            &&& 2 * v4->Ok_0.claim_result(b, stake_b)->Ok_0.1 > fee
        }),
{
    let p = principal as int;
    let f = fee as int;
    let sc = SCALE as int;
    assert(p <= sc) by (nonlinear_arith)
        requires
            (p + f) * (p + f) <= p * sc,
            p > 0,
            f > 0,
    ;
    assert(2 * p * sc <= 2 * sc * sc) by (nonlinear_arith)
        requires
            p <= sc,
            sc > 0,
    ;
    lemma_floor_between(p * sc, sc, p);
    assert(p * sc < (p + 1) * sc) by (nonlinear_arith)
        requires
            sc > 0,
    ;
    lemma_floor_between(p * sc, p, sc);
    assert(p * sc < (sc + 1) * p) by (nonlinear_arith)
        requires
            p > 0,
    ;
    assert((2 * p) * sc < (sc + 1) * (2 * p) && sc * (2 * p) <= (2 * p) * sc) by (nonlinear_arith)
        requires
            p > 0,
    ;
    lemma_floor_between((2 * p) * sc, 2 * p, sc);
    let ea = ParticipantShare { owner: a, principal_owned: principal, share_owned: principal };
    let eb = ParticipantShare { owner: b, principal_owned: principal, share_owned: principal };
    let m0 = Map::<Identity, ParticipantShare>::empty();
    assert(m0.dom() =~= Set::<Identity>::empty());
    lemma_sums_insert(m0, a, ea);
    lemma_sums_insert(m0.insert(a, ea), b, eb);
    lemma_sums_insert(m0, b, eb);
    lemma_exact_value(p, p + f);
    let v1 = LedgerView::empty().enter_result(a, principal)->Ok_0;
    assert(v1.pool.rate == SCALE);
    let v2 = v1.enter_result(b, principal)->Ok_0;
    assert(v2.pool.rate == SCALE);
    let v3 = v2.add_fee_result(fee)->Ok_0;
    let v4 = v3.close_result(a, a, stake_a)->Ok_0;
    assert(v4.entries =~= m0.insert(b, eb));
    assert(v4.pool.rate == (p * sc) / (p + f));
    assert(v4.entries.remove(b) =~= m0);
}

} // verus!
