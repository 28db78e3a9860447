//! Signed integer division and remainder with the Euclidean convention
//! (the convention of specification arithmetic), plus truncating division,
//! used by the fixed-point interpolation of the rasterizers.

use vstd::arithmetic::div_mod::lemma_fundamental_div_mod;
use vstd::arithmetic::div_mod::lemma_fundamental_div_mod_converse;
use vstd::prelude::*;

verus! {

/// A loose magnitude bound under which every intermediate value of the
/// helpers below fits comfortably in an `i128`.
pub open spec fn small_i128(a: int) -> bool {
    -0x4000_0000_0000_0000_0000_0000_0000_0000 < a < 0x4000_0000_0000_0000_0000_0000_0000_0000
}

/// Floor division `a / b` for a positive divisor; equals the Euclidean
/// (specification-level) quotient.
pub fn floor_div(a: i128, b: i128) -> (q: i128)
    requires
        b > 0,
        small_i128(a as int),
    ensures
        q == a as int / b as int,
{
    if a >= 0 {
        let q = (a as u128) / (b as u128);
        q as i128
    } else {
        let n = (-a) as u128;
        let q = (n + (b as u128 - 1)) / (b as u128);
        proof {
            let nn = n as int;
            let bb = b as int;
            let qq = q as int;
            let rr = (nn + bb - 1) - qq * bb;
            assert(nn + bb - 1 == qq * bb + ((nn + bb - 1) % bb)) by {
                lemma_fundamental_div_mod(nn + bb - 1, bb);
                vstd::arithmetic::mul::lemma_mul_is_commutative(qq, bb);
            }
            assert(0 <= (nn + bb - 1) % bb < bb);
            assert(rr == (nn + bb - 1) % bb);
            assert(qq <= nn) by (nonlinear_arith)
                requires
                    qq * bb + rr == nn + bb - 1,
                    0 <= rr,
                    bb >= 1,
                    nn >= 1,
            ;
            // -n == (-q) * b + (b - 1 - r) with the remainder in [0, b)
            assert(-nn == (-qq) * bb + (bb - 1 - rr)) by (nonlinear_arith)
                requires
                    nn + bb - 1 == qq * bb + rr,
            ;
            lemma_fundamental_div_mod_converse(-nn, bb, -qq, bb - 1 - rr);
            assert(a as int / b as int == -qq);
        }
        -(q as i128)
    }
}

/// Euclidean remainder `a % b` for a positive divisor; always in `[0, b)`.
pub fn euclid_mod(a: i128, b: i128) -> (r: i128)
    requires
        0 < b,
        small_i128(b as int),
        small_i128(a as int),
    ensures
        r == a as int % b as int,
        0 <= r < b,
{
    let q = floor_div(a, b);
    proof {
        lemma_fundamental_div_mod(a as int, b as int);
        assert(0 <= (a as int % b as int) && (a as int % b as int) < b as int);
        assert(a as int % b as int == a as int - (b as int) * (a as int / b as int));
        assert((b as int) * (a as int / b as int) == (a as int / b as int) * (b as int))
            by (nonlinear_arith);
    }
    a - q * b
}

/// Quotient of nonnegative `a` by positive `b`; never larger than `a`.
pub fn div_small(a: i64, b: i64) -> (q: i64)
    requires
        0 <= a,
        1 <= b,
    ensures
        q == a as int / b as int,
        0 <= q <= a,
{
    proof {
        vstd::arithmetic::div_mod::lemma_div_is_ordered_by_denominator(a as int, 1, b as int);
        vstd::arithmetic::div_mod::lemma_div_basics_2(a as int);
        vstd::arithmetic::div_mod::lemma_div_pos_is_pos(a as int, b as int);
    }
    ((a as u64) / (b as u64)) as i64
}

/// Division truncated toward zero, the convention of the scanline filler's
/// fixed-point edge interpolation.
pub open spec fn trunc_div(a: int, b: int) -> int {
    if a >= 0 {
        a / b
    } else {
        -((-a) / b)
    }
}

/// A magnitude bound carries through truncating division: if the numerator
/// is at most `b * m` in magnitude, the quotient is at most `m`.
pub proof fn lemma_trunc_div_bound(a: int, b: int, m: int)
    requires
        b > 0,
        0 <= m,
        -(b * m) <= a <= b * m,
    ensures
        -m <= trunc_div(a, b) <= m,
{
    vstd::arithmetic::mul::lemma_mul_is_commutative(b, m);
    vstd::arithmetic::div_mod::lemma_div_multiples_vanish(m, b);
    if a >= 0 {
        vstd::arithmetic::div_mod::lemma_div_is_ordered(a, b * m, b);
        vstd::arithmetic::div_mod::lemma_div_pos_is_pos(a, b);
    } else {
        vstd::arithmetic::div_mod::lemma_div_is_ordered(-a, b * m, b);
        vstd::arithmetic::div_mod::lemma_div_pos_is_pos(-a, b);
    }
}

/// Truncating division `a / b` for a positive divisor.
pub fn trunc_div_exec(a: i128, b: i128) -> (q: i128)
    requires
        b > 0,
        small_i128(a as int),
    ensures
        q == trunc_div(a as int, b as int),
{
    if a >= 0 {
        ((a as u128) / (b as u128)) as i128
    } else {
        let n = (-a) as u128;
        let q = n / (b as u128);
        -(q as i128)
    }
}

} // verus!
