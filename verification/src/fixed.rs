//! Fixed-point transcendentals for the annealing temperature schedule:
//! a Q32 negated exponential and a Q32 natural logarithm.
//!
//! These are deterministic integer approximations — the acceptance curve
//! and the cooling rate are defined by exactly these computations, so the
//! search stays a pure function of its inputs. Out-of-range intermediates
//! are clamped defensively, like the epsilon floors they replace; the
//! clamps are part of the definition and never fire for the ranges the
//! solver produces.

use vstd::prelude::*;
use vstd::arithmetic::power2::pow2;
use vstd::arithmetic::div_mod::lemma_div_is_ordered;

verus! {

/// One, in Q32 fixed point.
pub const ONE_Q32: u64 = 0x1_0000_0000;

/// ln 2, in Q32 fixed point.
pub const LN2_Q32: u64 = 2_977_044_472;

/// Ratios more negative than this have acceptance probability zero.
pub const EXP_CUTOFF: u64 = 50;

/// One Taylor step: the next term's magnitude from the previous one.
pub open spec fn taylor_step(t: int, r: int, j: int) -> int {
    (t * r) / (0x1_0000_0000 * j)
}

fn taylor_step_exec(t: u128, r: u128, j: u128) -> (res: u128)
    requires
        t <= ONE_Q32,
        r <= ONE_Q32,
        1 <= j <= 16,
    ensures
        res == taylor_step(t as int, r as int, j as int),
        res <= ONE_Q32,
{
    proof {
        assert(t * r <= (ONE_Q32 as int) * (ONE_Q32 as int)) by (nonlinear_arith)
            requires
                0 <= t <= ONE_Q32,
                0 <= r <= ONE_Q32,
        ;
        assert((ONE_Q32 as int) * j >= ONE_Q32) by (nonlinear_arith)
            requires
                j >= 1,
        ;
        lemma_div_is_ordered(
            (t * r) as int,
            (ONE_Q32 as int) * (ONE_Q32 as int),
            ((ONE_Q32 as u128) * j) as int,
        );
        vstd::arithmetic::div_mod::lemma_div_is_ordered_by_denominator(
            (ONE_Q32 as int) * (ONE_Q32 as int),
            ONE_Q32 as int,
            ((ONE_Q32 as u128) * j) as int,
        );
    }
    (t * r) / ((ONE_Q32 as u128) * j)
}

/// The alternating Taylor sum for `e^(-r/2^32)`, `r` in `[0, 2^32]`,
/// truncated after fourteen terms and clamped into `[0, 1]`.
pub open spec fn exp_frac(r: int) -> int {
    let t0 = ONE_Q32 as int;
    let t1 = taylor_step(t0, r, 1);
    let t2 = taylor_step(t1, r, 2);
    let t3 = taylor_step(t2, r, 3);
    let t4 = taylor_step(t3, r, 4);
    let t5 = taylor_step(t4, r, 5);
    let t6 = taylor_step(t5, r, 6);
    let t7 = taylor_step(t6, r, 7);
    let t8 = taylor_step(t7, r, 8);
    let t9 = taylor_step(t8, r, 9);
    let t10 = taylor_step(t9, r, 10);
    let t11 = taylor_step(t10, r, 11);
    let t12 = taylor_step(t11, r, 12);
    let t13 = taylor_step(t12, r, 13);
    let even = t0 + t2 + t4 + t6 + t8 + t10 + t12;
    let odd = t1 + t3 + t5 + t7 + t9 + t11 + t13;
    if even <= odd {
        0
    } else if even - odd > ONE_Q32 {
        ONE_Q32 as int
    } else {
        even - odd
    }
}

fn exp_frac_exec(r: u64) -> (res: u64)
    requires
        r <= ONE_Q32,
    ensures
        res == exp_frac(r as int),
        res <= ONE_Q32,
{
    let r: u128 = r as u128;
    let t0: u128 = ONE_Q32 as u128;
    let t1 = taylor_step_exec(t0, r, 1);
    let t2 = taylor_step_exec(t1, r, 2);
    let t3 = taylor_step_exec(t2, r, 3);
    let t4 = taylor_step_exec(t3, r, 4);
    let t5 = taylor_step_exec(t4, r, 5);
    let t6 = taylor_step_exec(t5, r, 6);
    let t7 = taylor_step_exec(t6, r, 7);
    let t8 = taylor_step_exec(t7, r, 8);
    let t9 = taylor_step_exec(t8, r, 9);
    let t10 = taylor_step_exec(t9, r, 10);
    let t11 = taylor_step_exec(t10, r, 11);
    let t12 = taylor_step_exec(t11, r, 12);
    let t13 = taylor_step_exec(t12, r, 13);
    let even = t0 + t2 + t4 + t6 + t8 + t10 + t12;
    let odd = t1 + t3 + t5 + t7 + t9 + t11 + t13;
    if even <= odd {
        0
    } else if even - odd > ONE_Q32 as u128 {
        ONE_Q32
    } else {
        (even - odd) as u64
    }
}

/// `e^(-x)` for a non-negative Q32 ratio `x`, in Q32, with probability
/// forced to zero beyond the cutoff.
pub open spec fn exp_neg(x: int) -> int {
    if x >= (EXP_CUTOFF as int) * (ONE_Q32 as int) {
        0
    } else {
        let k = x / (LN2_Q32 as int);
        let r = x % (LN2_Q32 as int);
        let f = exp_frac(r);
        if k >= 64 {
            0
        } else {
            f / pow2(k as nat) as int
        }
    }
}

pub fn exp_neg_exec(x: u64) -> (res: u64)
    ensures
        res == exp_neg(x as int),
        res <= ONE_Q32,
{
    if x >= EXP_CUTOFF * ONE_Q32 {
        return 0;
    }
    let k = x / LN2_Q32;
    let r = x % LN2_Q32;
    let f = exp_frac_exec(r);
    if k >= 64 {
        return 0;
    }
    let mut d: u64 = 1;
    let mut j: u64 = 0;
    proof {
        vstd::arithmetic::power2::lemma2_to64();
    }
    while j < k
        invariant
            0 <= j <= k < 64,
            d == pow2(j as nat),
            d <= 0x8000_0000_0000_0000u64,
        decreases k - j,
    {
        proof {
            vstd::arithmetic::power2::lemma_pow2_unfold((j + 1) as nat);
            if j + 1 < 63 {
                vstd::arithmetic::power2::lemma_pow2_strictly_increases((j + 1) as nat, 63);
            }
            vstd::arithmetic::power2::lemma2_to64_rest();
        }
        d = d * 2;
        j = j + 1;
    }
    proof {
        vstd::arithmetic::power2::lemma_pow2_pos(k as nat);
        lemma_div_is_ordered(f as int, ONE_Q32 as int, d as int);
        vstd::arithmetic::div_mod::lemma_div_is_ordered_by_denominator(ONE_Q32 as int, 1, d as int);
    }
    f / d
}

/// Floor of the base-2 logarithm.
pub open spec fn floor_log2(n: int) -> nat
    decreases n,
{
    if n < 2 {
        0
    } else {
        1 + floor_log2(n / 2)
    }
}

/// `ln n` for a positive integer, in Q32: split off the power of two,
/// then an arctanh series on the mantissa.
pub open spec fn ln_q32(n: int) -> int {
    let k = floor_log2(n);
    let m = (n * (ONE_Q32 as int)) / pow2(k) as int;
    let mc = if m < ONE_Q32 as int {
        ONE_Q32 as int
    } else if m > 2 * (ONE_Q32 as int) - 1 {
        2 * (ONE_Q32 as int) - 1
    } else {
        m
    };
    let z = ((mc - ONE_Q32 as int) * (ONE_Q32 as int)) / (mc + ONE_Q32 as int);
    let zc = if z > (ONE_Q32 as int) / 2 {
        (ONE_Q32 as int) / 2
    } else {
        z
    };
    let z2 = (zc * zc) / (ONE_Q32 as int);
    let z3 = (z2 * zc) / (ONE_Q32 as int);
    let z5 = (z3 * z2) / (ONE_Q32 as int);
    let z7 = (z5 * z2) / (ONE_Q32 as int);
    let z9 = (z7 * z2) / (ONE_Q32 as int);
    let s = zc + z3 / 3 + z5 / 5 + z7 / 7 + z9 / 9;
    (k as int) * (LN2_Q32 as int) + 2 * s
}

pub fn ln_q32_exec(n: u128) -> (res: u64)
    requires
        1 <= n < 0x1_0000_0000_0000_0000_0000_0000,
    ensures
        res == ln_q32(n as int),
        res < 0x100_0000_0000u64,
{
    let mut m: u128 = n;
    let mut k: u64 = 0;
    let mut d: u128 = 1;
    proof {
        vstd::arithmetic::power2::lemma_pow2_pos(0);
        assert(pow2(0) == 1) by {
            vstd::arithmetic::power2::lemma2_to64();
        }
        vstd::arithmetic::div_mod::lemma_div_basics(n as int);
    }
    while m >= 2
        invariant
            1 <= n < 0x1_0000_0000_0000_0000_0000_0000,
            d == pow2(k as nat),
            m as int == (n as int) / (d as int),
            1 <= d <= n,
            k <= 100,
            floor_log2(n as int) == k + floor_log2(m as int),
        decreases m,
    {
        proof {
            vstd::arithmetic::power2::lemma_pow2_unfold((k + 1) as nat);
            vstd::arithmetic::div_mod::lemma_fundamental_div_mod(n as int, d as int);
            vstd::arithmetic::div_mod::lemma_mod_bound(n as int, d as int);
            assert((d as int) * ((n as int) / (d as int)) >= (d as int) * 2) by (nonlinear_arith)
                requires
                    d >= 1,
                    (n as int) / (d as int) >= 2,
            ;
            assert(d * 2 <= n);
            vstd::arithmetic::div_mod::lemma_div_denominator(n as int, d as int, 2);
            assert(k + 1 <= 100) by {
                if k >= 100 {
                    vstd::arithmetic::power2::lemma_pow2_strictly_increases(96, k as nat);
                    vstd::arithmetic::power2::lemma_pow2_adds(64, 32);
                    vstd::arithmetic::power2::lemma2_to64();
                    vstd::arithmetic::power2::lemma2_to64_rest();
                    assert(false);
                }
            }
        }
        m = m / 2;
        k = k + 1;
        d = d * 2;
    }
    // m == n / 2^k is now 1, so 2^k <= n < 2^(k+1)
    let mq: u128 = (n * (ONE_Q32 as u128)) / d;
    let one = ONE_Q32 as u128;
    let mc: u128 = if mq < one {
        one
    } else if mq > 2 * one - 1 {
        2 * one - 1
    } else {
        mq
    };
    let z: u128 = ((mc - one) * one) / (mc + one);
    let zc: u128 = if z > one / 2 {
        one / 2
    } else {
        z
    };
    proof {
        let o = ONE_Q32 as int;
        assert(zc * zc <= (o / 2) * (o / 2) && (o / 2) * (o / 2) < o * o) by (nonlinear_arith)
            requires
                0 <= zc <= (ONE_Q32 as int) / 2,
                o == ONE_Q32 as int,
        ;
    }
    let z2: u128 = (zc * zc) / one;
    proof {
        lemma_div_is_ordered((zc * zc) as int, (ONE_Q32 as int) * (ONE_Q32 as int), one as int);
        assert((ONE_Q32 as int) * (ONE_Q32 as int) / (ONE_Q32 as int) == ONE_Q32 as int)
            by (nonlinear_arith);
        assert(z2 * zc <= (ONE_Q32 as int) * (ONE_Q32 as int)) by (nonlinear_arith)
            requires
                0 <= z2 <= ONE_Q32 as int,
                0 <= zc <= ONE_Q32 as int,
        ;
    }
    let z3: u128 = (z2 * zc) / one;
    proof {
        lemma_div_is_ordered((z2 * zc) as int, (ONE_Q32 as int) * (ONE_Q32 as int), one as int);
        assert((z3 * z2) <= (ONE_Q32 as int) * (ONE_Q32 as int)) by (nonlinear_arith)
            requires
                0 <= z3 <= ONE_Q32 as int,
                0 <= z2 <= ONE_Q32 as int,
        ;
    }
    let z5: u128 = (z3 * z2) / one;
    proof {
        lemma_div_is_ordered((z3 * z2) as int, (ONE_Q32 as int) * (ONE_Q32 as int), one as int);
        assert((z5 * z2) <= (ONE_Q32 as int) * (ONE_Q32 as int)) by (nonlinear_arith)
            requires
                0 <= z5 <= ONE_Q32 as int,
                0 <= z2 <= ONE_Q32 as int,
        ;
    }
    let z7: u128 = (z5 * z2) / one;
    proof {
        lemma_div_is_ordered((z5 * z2) as int, (ONE_Q32 as int) * (ONE_Q32 as int), one as int);
        assert((z7 * z2) <= (ONE_Q32 as int) * (ONE_Q32 as int)) by (nonlinear_arith)
            requires
                0 <= z7 <= ONE_Q32 as int,
                0 <= z2 <= ONE_Q32 as int,
        ;
    }
    let z9: u128 = (z7 * z2) / one;
    proof {
        lemma_div_is_ordered((z7 * z2) as int, (ONE_Q32 as int) * (ONE_Q32 as int), one as int);
    }
    let s: u128 = zc + z3 / 3 + z5 / 5 + z7 / 7 + z9 / 9;
    let res: u128 = (k as u128) * (LN2_Q32 as u128) + 2 * s;
    proof {
        assert((k as int) * (LN2_Q32 as int) <= 100 * (LN2_Q32 as int)) by (nonlinear_arith)
            requires
                0 <= k <= 100,
        ;
    }
    res as u64
}

} // verus!
