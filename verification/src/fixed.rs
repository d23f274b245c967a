//! Rounding and saturation for the fixed-point numbers of the scheduling
//! models.

use vstd::prelude::*;

verus! {

/// `n / d`, rounded to the nearest whole number, a half upwards.
pub open spec fn rounded_quotient(n: nat, d: nat) -> nat
    recommends
        d > 0,
{
    (n + d / 2) / d
}

/// `n`, or the largest `u64` where `n` is larger.
pub open spec fn saturated(n: nat) -> u64 {
    if n >= u64::MAX {
        u64::MAX
    } else {
        n as u64
    }
}

/// One more than `n`, unless `n` is the largest `u64` already.
pub open spec fn successor(n: u64) -> u64 {
    saturated(n as nat + 1)
}

/// `n / d` rounded half up, saturating.
pub fn round_div(n: u128, d: u128) -> (q: u64)
    requires
        d > 0,
    ensures
        q == saturated(rounded_quotient(n as nat, d as nat)),
{
    let whole: u128 = n / d;
    let rest: u128 = n % d;
    let half: u128 = d / 2;
    let up = rest >= d - half;
    proof {
        vstd::arithmetic::div_mod::lemma_fundamental_div_mod(n as int, d as int);
        vstd::arithmetic::mul::lemma_mul_is_commutative(d as int, whole as int);
        if up {
            vstd::arithmetic::mul::lemma_mul_is_distributive_add_other_way(
                d as int,
                whole as int,
                1,
            );
            vstd::arithmetic::div_mod::lemma_fundamental_div_mod_converse(
                n + half,
                d as int,
                whole + 1,
                rest + half - d,
            );
        } else {
            vstd::arithmetic::div_mod::lemma_fundamental_div_mod_converse(
                n + half,
                d as int,
                whole as int,
                rest + half,
            );
        }
    }
    if whole >= u64::MAX as u128 {
        u64::MAX
    } else if up {
        (whole + 1) as u64
    } else {
        whole as u64
    }
}

/// One more than `n`, saturating.
pub fn increment(n: u64) -> (m: u64)
    ensures
        m == successor(n),
{
    if n == u64::MAX {
        n
    } else {
        n + 1
    }
}

/// The product of two numbers that fit 64 bits fits 128 bits.
pub proof fn product_fits(a: u64, b: u64)
    ensures
        a as nat * b as nat <= u128::MAX,
{
    assert(a as nat * b as nat <= 0xffff_ffff_ffff_ffff * 0xffff_ffff_ffff_ffff) by (nonlinear_arith)
        requires
            a <= 0xffff_ffff_ffff_ffff,
            b <= 0xffff_ffff_ffff_ffff,
    ;
}

} // verus!
