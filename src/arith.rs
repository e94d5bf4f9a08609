//! Facts about floor division on non-negative integers.
use vstd::prelude::*;

verus! {

/// `y / d` is the largest `q` with `q * d <= y`.
pub proof fn lemma_floor_bounds(y: int, d: int)
    requires
        y >= 0,
        d > 0,
    ensures
        d * (y / d) <= y,
        y < d * (y / d) + d,
        y / d >= 0,
{
    vstd::arithmetic::div_mod::lemma_fundamental_div_mod(y, d);
    vstd::arithmetic::div_mod::lemma_mod_pos_bound(y, d);
    vstd::arithmetic::div_mod::lemma_div_pos_is_pos(y, d);
}

/// A quotient is pinned by bounds on the dividend.
pub proof fn lemma_floor_between(y: int, d: int, q: int)
    requires
        y >= 0,
        d > 0,
    ensures
        y < (q + 1) * d ==> y / d <= q,
        q * d <= y ==> q <= y / d,
{
    lemma_floor_bounds(y, d);
    let f = y / d;
    if y < (q + 1) * d {
        assert(f <= q) by (nonlinear_arith)
            requires
                d * f <= y,
                y < (q + 1) * d,
                d > 0,
        ;
    }
    if q * d <= y {
        assert(q <= f) by (nonlinear_arith)
            requires
                q * d <= y,
                y < d * f + d,
                d > 0,
        ;
    }
}

/// Dividing by a smaller positive number gives no smaller quotient.
pub proof fn lemma_div_antitone(y: int, d1: int, d2: int)
    requires
        y >= 0,
        0 < d1 <= d2,
    ensures
        y / d2 <= y / d1,
{
    lemma_floor_bounds(y, d2);
    let q = y / d2;
    assert(q * d1 <= y) by (nonlinear_arith)
        requires
            d2 * q <= y,
            q >= 0,
            0 < d1 <= d2,
    ;
    lemma_floor_between(y, d1, q);
}

} // verus!
