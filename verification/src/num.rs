//! Integer helpers shared by the force model and the integrators: division
//! that truncates toward zero on either sign, as the simulation's fixed-point
//! convention requires.

use vstd::prelude::*;

verus! {

/// Division truncating toward zero (the quotient of `a / b` with any
/// fractional part discarded), defined for a positive divisor.
pub open spec fn div_trunc_spec(a: int, b: int) -> int
    recommends
        b > 0,
{
    if a >= 0 {
        a / b
    } else {
        -((-a) / b)
    }
}

pub fn div_trunc(a: i64, b: i64) -> (r: i64)
    requires
        b > 0,
        a != i64::MIN,
    ensures
        r == div_trunc_spec(a as int, b as int),
{
    if a >= 0 {
        a / b
    } else {
        -((-a) / b)
    }
}

/// Truncating division is antisymmetric in its dividend.
pub proof fn lemma_div_trunc_neg(a: int, b: int)
    requires
        b > 0,
    ensures
        div_trunc_spec(-a, b) == -div_trunc_spec(a, b),
{
}

/// Truncating division cancels an exact multiple.
pub proof fn lemma_div_trunc_exact(a: int, b: int)
    requires
        b > 0,
    ensures
        div_trunc_spec(a * b, b) == a,
{
    if a >= 0 {
        assert(a * b >= 0) by (nonlinear_arith)
            requires
                a >= 0 && b > 0,
        ;
        assert((a * b) / b == a) by (nonlinear_arith)
            requires
                b > 0,
        ;
    } else {
        assert(a * b < 0) by (nonlinear_arith)
            requires
                a < 0 && b > 0,
        ;
        assert(-(a * b) == (-a) * b) by (nonlinear_arith);
        assert(((-a) * b) / b == -a) by (nonlinear_arith)
            requires
                b > 0,
        ;
    }
}

/// A quotient bound from a bound on the dividend: if `|p| <= w*s` then the
/// truncated quotient `p/w` stays within `[-s, s]`.
pub proof fn lemma_div_trunc_le(p: int, w: int, s: int)
    requires
        w > 0,
        s >= 0,
        -(w * s) <= p <= w * s,
    ensures
        -s <= div_trunc_spec(p, w) <= s,
{
    if p >= 0 {
        assert(0 <= p / w <= s) by (nonlinear_arith)
            requires
                w > 0 && s >= 0 && 0 <= p <= w * s,
        ;
    } else {
        assert(0 <= (-p) / w <= s) by (nonlinear_arith)
            requires
                w > 0 && s >= 0 && 0 <= -p <= w * s,
        ;
    }
}

/// The magnitude of a truncated quotient never exceeds that of the dividend.
pub proof fn lemma_div_trunc_bound(a: int, b: int, m: int)
    requires
        b > 0,
        -m <= a <= m,
        m >= 0,
    ensures
        -m <= div_trunc_spec(a, b) <= m,
{
    if a >= 0 {
        assert(0 <= a / b <= a) by (nonlinear_arith)
            requires
                b > 0 && a >= 0,
        ;
    } else {
        assert(0 <= (-a) / b <= -a) by (nonlinear_arith)
            requires
                b > 0 && -a >= 0,
        ;
    }
}

} // verus!
