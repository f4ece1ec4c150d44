//! Small arithmetic lemmas shared across the crate.

use vstd::prelude::*;
use vstd::arithmetic::div_mod::lemma_basic_div;
use vstd::arithmetic::div_mod::lemma_fundamental_div_mod;
use vstd::arithmetic::div_mod::lemma_fundamental_div_mod_converse;
use vstd::arithmetic::div_mod::lemma_mod_division_less_than_divisor;
use vstd::arithmetic::mul::lemma_mul_inequality;
use vstd::arithmetic::power2::lemma2_to64;
use vstd::arithmetic::power2::lemma2_to64_rest;
use vstd::arithmetic::power2::lemma_pow2_adds;
use vstd::arithmetic::power2::lemma_pow2_pos;
use vstd::arithmetic::power2::lemma_pow2_strictly_increases;
use vstd::arithmetic::power2::pow2;

verus! {

/// For a positive divisor, comparing a quotient against a bound is the
/// same as comparing the dividend against the scaled bound.
pub proof fn lemma_div_vs_mul(avail: int, n: int, w: int)
    requires
        w >= 1,
        avail >= 0,
        n >= 0,
    ensures
        (avail / w < n) <==> (avail < n * w),
{
    lemma_fundamental_div_mod(avail, w);
    lemma_mod_division_less_than_divisor(avail, w);
    let q = avail / w;
    let r = avail % w;
    if q < n {
        assert(avail < n * w) by (nonlinear_arith)
            requires
                avail == w * q + r,
                0 <= r < w,
                q < n,
                w >= 1,
        ;
    } else {
        assert(avail >= n * w) by (nonlinear_arith)
            requires
                avail == w * q + r,
                0 <= r,
                q >= n,
                w >= 1,
                n >= 0,
        ;
    }
}

/// Adding the divisor once raises the quotient by one.
pub proof fn lemma_div_shift(a: int, k: int)
    requires
        a >= 0,
        k >= 1,
    ensures
        (a + k) / k == a / k + 1,
{
    lemma_fundamental_div_mod(a, k);
    lemma_mod_division_less_than_divisor(a, k);
    let q0 = a / k;
    let r0 = a % k;
    assert((q0 + 1) * k + r0 == a + k) by (nonlinear_arith)
        requires
            a == k * q0 + r0,
    ;
    lemma_fundamental_div_mod_converse(a + k, k, q0 + 1, r0);
}

/// `x`, capped at `usize::MAX`.
pub open spec fn cap_usize(x: nat) -> nat {
    if x <= usize::MAX {
        x
    } else {
        usize::MAX as nat
    }
}

/// Capping before a multiplication gives the same capped product.
pub proof fn lemma_mul_cap_absorb(x: nat, b: nat)
    ensures
        cap_usize(cap_usize(x) * b) == cap_usize(x * b),
{
    if x > usize::MAX {
        if b == 0 {
        } else {
            assert(x * b >= 1 * x) by (nonlinear_arith)
                requires
                    b >= 1,
                    x >= 0,
            ;
            assert(usize::MAX as nat * b >= 1 * usize::MAX) by (nonlinear_arith)
                requires
                    b >= 1,
            ;
        }
    }
}

/// Capping before an addition gives the same capped sum.
pub proof fn lemma_add_cap_absorb(x: nat, b: nat)
    ensures
        cap_usize(cap_usize(x) + cap_usize(b)) == cap_usize(x + b),
{
}

/// Saturating multiplication: the product, capped at `usize::MAX`.
pub fn mul_sat(a: usize, b: usize) -> (r: usize)
    ensures
        r as nat == cap_usize((a as nat) * (b as nat)),
{
    if b == 0 {
        return 0;
    }
    proof {
        lemma_div_vs_mul(usize::MAX as int, a as int, b as int);
    }
    if a > usize::MAX / b {
        usize::MAX
    } else {
        a * b
    }
}

/// Saturating addition: the sum, capped at `usize::MAX`.
pub fn add_sat(a: usize, b: usize) -> (r: usize)
    ensures
        r as nat == cap_usize((a as nat) + (b as nat)),
{
    if a > usize::MAX - b {
        usize::MAX
    } else {
        a + b
    }
}

/// `x`, capped at `cap`.
pub open spec fn cap_at(x: nat, cap: nat) -> nat {
    if x > cap {
        cap
    } else {
        x
    }
}

/// Computes a small power of two.
pub fn pow2_exec(k: u64) -> (r: u64)
    requires
        k <= 63,
    ensures
        r as nat == pow2(k as nat),
        r >= 1,
{
    proof {
        lemma2_to64();
        lemma2_to64_rest();
    }
    let mut p: u64 = 1;
    let mut i: u64 = 0;
    while i < k
        invariant
            i <= k <= 63,
            p as nat == pow2(i as nat),
        decreases k - i,
    {
        proof {
            lemma_pow2_adds(i as nat, 1);
            lemma2_to64();
            if i + 1 < 64 {
                lemma_pow2_strictly_increases((i + 1) as nat, 64);
                lemma2_to64_rest();
            }
        }
        p = p * 2;
        i += 1;
    }
    proof {
        lemma_pow2_pos(k as nat);
    }
    p
}

/// A significand scaled by a (possibly negative) power of two, truncated
/// toward zero: the whole magnitude for a nonnegative scale, the quotient
/// for a negative one.
pub open spec fn trunc_mag(m: nat, kk: int) -> nat {
    if kk >= 0 {
        m * pow2(kk as nat)
    } else {
        m / pow2((-kk) as nat)
    }
}

/// Computes `trunc_mag`, capped at `cap`.
pub fn trunc_mag_sat(m: u64, kk: i64, cap: u64) -> (r: u64)
    requires
        m <= 0x20_0000_0000_0000,
        -4000 <= kk <= 4000,
        1 <= cap <= 0x8000_0000_0000_0000,
    ensures
        r as nat == cap_at(trunc_mag(m as nat, kk as int), cap as nat),
        r <= cap,
{
    if m == 0 {
        proof {
            if kk >= 0 {
                assert(trunc_mag(0, kk as int) == 0 * pow2(kk as nat));
            } else {
                lemma_pow2_pos((-kk) as nat);
                assert(0nat / pow2((-kk) as nat) == 0);
            }
        }
        return 0;
    }
    if kk >= 0 {
        if kk >= 64 {
            proof {
                lemma_pow2_strictly_increases(63, kk as nat);
                lemma2_to64_rest();
                lemma_mul_inequality(1, m as int, pow2(kk as nat) as int);
            }
            return cap;
        }
        let p = pow2_exec(kk as u64);
        proof {
            lemma_div_vs_mul(cap as int, m as int, p as int);
        }
        if m > cap / p {
            proof {
                assert(trunc_mag(m as nat, kk as int) == (m as nat) * pow2(kk as nat));
            }
            cap
        } else {
            m * p
        }
    } else {
        let sh = (0i64 - kk) as u64;
        proof {
            assert(sh as int == -(kk as int));
        }
        if sh >= 64 {
            proof {
                lemma_pow2_strictly_increases(54, sh as nat);
                lemma2_to64_rest();
                lemma_pow2_pos(sh as nat);
                assert(m < pow2(sh as nat));
                lemma_basic_div(m as int, pow2(sh as nat) as int);
                assert((m as nat) / pow2(sh as nat) == 0);
            }
            return 0;
        }
        let p = pow2_exec(sh);
        let q = m / p;
        if q > cap {
            cap
        } else {
            q
        }
    }
}

/// Checked multiplication: the exact product when it fits `usize`.
pub fn mul_checked(a: usize, b: usize) -> (r: Option<usize>)
    ensures
        (r is Some) == ((a as nat) * (b as nat) <= usize::MAX),
        r matches Some(v) ==> v == (a as nat) * (b as nat),
{
    if b == 0 {
        return Some(0);
    }
    proof {
        lemma_div_vs_mul(usize::MAX as int, a as int, b as int);
    }
    if a > usize::MAX / b {
        None
    } else {
        Some(a * b)
    }
}

/// Checked addition: the exact sum when it fits `usize`.
pub fn add_checked(a: usize, b: usize) -> (r: Option<usize>)
    ensures
        (r is Some) == (a + b <= usize::MAX),
        r matches Some(v) ==> v == a + b,
{
    if a > usize::MAX - b {
        None
    } else {
        Some(a + b)
    }
}

} // verus!
