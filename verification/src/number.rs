//! Conversions between IEEE-754 double bit patterns and integers, stated
//! entirely in integer arithmetic over powers of two.
//!
//! A finite nonzero double with bit pattern `b` (sign `s`, biased exponent
//! `e`, mantissa `f`) denotes `(-1)^s * (2^52 + f) * 2^(e - 1075)` when
//! `e >= 1`. The functions here encode an integer into that form and
//! truncate a double back to a 32-bit integer by the scripting language's
//! `ToInt32` rule.

use vstd::prelude::*;
use vstd::arithmetic::power2::{pow2, lemma2_to64, lemma2_to64_rest, lemma_pow2_adds,
    lemma_pow2_strictly_increases, lemma_pow2_pos};
use vstd::arithmetic::div_mod::{lemma_div_denominator, lemma_mul_mod_noop_left};
use vstd::arithmetic::mul::{lemma_mul_inequality, lemma_mul_strict_inequality};
use vstd::bits::{lemma_u64_shl_is_mul, lemma_u64_pow2_no_overflow};

verus! {

/// Floor of the base-2 logarithm.
pub open spec fn log2_floor(m: nat) -> nat
    decreases m,
{
    if m < 2 {
        0
    } else {
        1 + log2_floor(m / 2)
    }
}

/// `2^log2_floor(m) <= m < 2^(log2_floor(m) + 1)` for `m >= 1`.
pub proof fn lemma_log2_floor_bounds(m: nat)
    requires
        m >= 1,
    ensures
        pow2(log2_floor(m)) <= m,
        m < pow2(log2_floor(m) + 1),
    decreases m,
{
    if m < 2 {
        lemma2_to64();
    } else {
        lemma_log2_floor_bounds(m / 2);
        let k = log2_floor(m / 2);
        lemma_pow2_adds(k, 1);
        lemma_pow2_adds(k + 1, 1);
        lemma2_to64();
        assert(pow2(k + 1) == pow2(k) * 2);
        assert(pow2(k + 2) == pow2(k + 1) * 2);
    }
}

/// `log2_floor` is monotone in its bounds: if `2^k <= m < 2^(k+1)` then
/// `log2_floor(m) == k`.
pub proof fn lemma_log2_floor_unique(m: nat, k: nat)
    requires
        pow2(k) <= m,
        m < pow2(k + 1),
    ensures
        log2_floor(m) == k,
    decreases m,
{
    lemma_pow2_pos(k);
    if k == 0 {
        lemma2_to64();
    } else {
        lemma_pow2_adds((k - 1) as nat, 1);
        lemma_pow2_adds(k, 1);
        lemma2_to64();
        assert(pow2(k) == pow2((k - 1) as nat) * 2);
        assert(pow2(k + 1) == pow2(k) * 2);
        assert(pow2((k - 1) as nat) <= m / 2 < pow2(k));
        lemma_log2_floor_unique(m / 2, (k - 1) as nat);
    }
}

/// The bit pattern of the double whose value is `(-1)^neg * m`, for an
/// integer magnitude `1 <= m < 2^53` (every such integer is exactly
/// representable).
pub open spec fn spec_double_from_parts(neg: bool, m: nat) -> u64 {
    let k = log2_floor(m);
    let frac = m * pow2((52 - k) as nat) - pow2(52);
    let sign: nat = if neg { 0x8000_0000_0000_0000 } else { 0 };
    (sign + (1023 + k) * 0x10_0000_0000_0000 + frac) as u64
}

/// The bit pattern of the double whose value is the integer `n`,
/// for `|n| < 2^53`.
pub open spec fn spec_double_of_int(n: int) -> u64 {
    if n == 0 {
        0
    } else if n > 0 {
        spec_double_from_parts(false, n as nat)
    } else {
        spec_double_from_parts(true, (-n) as nat)
    }
}

/// 2^k as a `u64`.
pub fn p2(k: u64) -> (r: u64)
    requires
        k < 64,
    ensures
        r == pow2(k as nat),
{
    proof {
        lemma_u64_pow2_no_overflow(k as nat);
        lemma_u64_shl_is_mul(1u64, k);
    }
    1u64 << k
}

/// Floor of the base-2 logarithm, computed by repeated halving.
fn log2_floor_exec(m: u64) -> (r: u64)
    requires
        m >= 1,
    ensures
        r == log2_floor(m as nat),
        r < 64,
{
    let mut k: u64 = 0;
    let mut t: u64 = m;
    while t >= 2
        invariant
            1 <= t <= m,
            k < 64,
            log2_floor(m as nat) == k + log2_floor(t as nat),
        decreases t,
    {
        assert(log2_floor(t as nat) == 1 + log2_floor((t / 2) as nat));
        assert(k < 63) by {
            if k >= 63 {
                // impossible: log2_floor of a u64 value is below 64
                assert(log2_floor(t as nat) >= 1);
                assert(log2_floor(m as nat) >= 64);
                lemma_log2_floor_bounds(m as nat);
                if log2_floor(m as nat) > 64 {
                    lemma_pow2_strictly_increases(64, log2_floor(m as nat));
                }
                lemma2_to64_rest();
                assert(m as nat >= pow2(64));
            }
        }
        t = t / 2;
        k = k + 1;
    }
    k
}

/// Builds the double bit pattern for the integer `(-1)^neg * m`.
pub fn double_from_parts(neg: bool, m: u64) -> (r: u64)
    requires
        1 <= m < 0x20_0000_0000_0000,
    ensures
        r == spec_double_from_parts(neg, m as nat),
{
    let k = log2_floor_exec(m);
    proof {
        lemma_log2_floor_bounds(m as nat);
        assert(pow2(k as nat) <= m as nat);
        assert(k <= 52) by {
            if k > 52 {
                if k > 53 {
                    lemma_pow2_strictly_increases(53, k as nat);
                }
                lemma2_to64_rest();
                assert(m as nat >= pow2(53));
            }
        }
        lemma_pow2_adds(k as nat, (52 - k) as nat);
        lemma_pow2_adds((k + 1) as nat, (52 - k) as nat);
        lemma_pow2_pos((52 - k) as nat);
        // 2^52 <= m * 2^(52-k) < 2^53
        lemma_mul_inequality(pow2(k as nat) as int, m as int, pow2((52 - k) as nat) as int);
        lemma_mul_strict_inequality(m as int, pow2((k + 1) as nat) as int,
            pow2((52 - k) as nat) as int);
        lemma2_to64_rest();
    }
    let scaled = m * p2(52 - k);
    let frac = scaled - p2(52);
    let sign: u64 = if neg { 0x8000_0000_0000_0000 } else { 0 };
    sign + (1023 + k) * 0x10_0000_0000_0000 + frac
}

/// The double bit pattern of a signed 32-bit integer.
pub fn double_from_i32(n: i32) -> (r: u64)
    ensures
        r == spec_double_of_int(n as int),
{
    if n == 0 {
        0
    } else if n > 0 {
        double_from_parts(false, n as u64)
    } else {
        let m = -(n as i64);
        double_from_parts(true, m as u64)
    }
}

/// The double bit pattern of an unsigned 32-bit integer.
pub fn double_from_u32(n: u32) -> (r: u64)
    ensures
        r == spec_double_of_int(n as int),
{
    if n == 0 {
        0
    } else {
        double_from_parts(false, n as u64)
    }
}

/// The double bit pattern of an unsigned integer below 2^53.
pub fn double_from_u53(n: u64) -> (r: u64)
    requires
        n < 0x20_0000_0000_0000,
    ensures
        r == spec_double_of_int(n as int),
{
    if n == 0 {
        0
    } else {
        double_from_parts(false, n)
    }
}

/// Sign field of a double's bit pattern, extracted arithmetically.
pub open spec fn spec_sign_field(b: u64) -> u64 {
    b / 0x8000_0000_0000_0000
}

/// Biased exponent field, extracted arithmetically.
pub open spec fn spec_exp_field(b: u64) -> u64 {
    (b / 0x10_0000_0000_0000) % 0x800
}

/// Mantissa field, extracted arithmetically.
pub open spec fn spec_man_field(b: u64) -> u64 {
    b % 0x10_0000_0000_0000
}

/// The scripting language's `ToInt32` rule on a double's bit pattern:
/// NaN and the infinities go to 0, everything else is truncated toward
/// zero and reduced modulo 2^32 into the signed range.
pub open spec fn spec_double_to_i32(b: u64) -> i32 {
    let e = spec_exp_field(b) as int;
    if e == 0x7FF {
        0
    } else if e < 1023 {
        0
    } else {
        let ee = e - 1023;
        let sig = (pow2(52) + spec_man_field(b)) as nat;
        let ip: nat = if ee <= 52 {
            sig / pow2((52 - ee) as nat)
        } else {
            sig * pow2((ee - 52) as nat)
        };
        let m32 = ip % 0x1_0000_0000;
        let sm: nat = if spec_sign_field(b) == 1 {
            ((0x1_0000_0000 - m32) % 0x1_0000_0000) as nat
        } else {
            m32
        };
        crate::value::spec_i32_of_u32(sm as u32)
    }
}

/// Truncates a double bit pattern to a signed 32-bit integer by the
/// `ToInt32` rule.
pub fn double_to_i32(b: u64) -> (r: i32)
    ensures
        r == spec_double_to_i32(b),
{
    let e = (b / 0x10_0000_0000_0000) % 0x800;
    if e == 0x7FF {
        return 0;
    }
    if e < 1023 {
        return 0;
    }
    let ee = e - 1023;
    let man = b % 0x10_0000_0000_0000;
    let sig: u64 = 0x10_0000_0000_0000u64 + man;
    proof {
        lemma2_to64();
        lemma2_to64_rest();
        assert(sig as nat == pow2(52) + spec_man_field(b));
    }
    let m32: u64 = if ee <= 52 {
        proof {
            lemma_pow2_pos((52 - (ee as int)) as nat);
        }
        (sig / p2(52 - ee)) % 0x1_0000_0000
    } else if ee >= 84 {
        proof {
            let g = (ee - 84) as nat;
            lemma_pow2_adds(g, 32);
            lemma2_to64();
            let sigs = (pow2(52) + spec_man_field(b)) as nat;
            assert(sigs * pow2(((ee as int) - 52) as nat) == (sigs * pow2(g)) * pow2(32)) by {
                vstd::arithmetic::mul::lemma_mul_is_associative(sigs as int, pow2(g) as int,
                    pow2(32) as int);
            }
            vstd::arithmetic::div_mod::lemma_mod_multiples_basic(
                (sigs * pow2(g)) as int, pow2(32) as int);
        }
        0
    } else {
        proof {
            let d = ((ee as int) - 52) as nat;
            lemma_u64_pow2_no_overflow(d);
            let sigs = (pow2(52) + spec_man_field(b)) as int;
            if d < 32 {
                lemma_pow2_strictly_increases(d, 32);
            }
            lemma2_to64();
            lemma_mul_mod_noop_left(sigs, pow2(d) as int, 0x1_0000_0000);
            vstd::arithmetic::mul::lemma_mul_upper_bound(sigs % 0x1_0000_0000, 0xFFFF_FFFF,
                pow2(d) as int, 0x1_0000_0000);
        }
        ((sig % 0x1_0000_0000) * p2(ee - 52)) % 0x1_0000_0000
    };
    let sm: u64 = if b >= 0x8000_0000_0000_0000 {
        proof {
            assert(spec_sign_field(b) == 1) by {
                assert(b / 0x8000_0000_0000_0000 >= 1);
                assert(b / 0x8000_0000_0000_0000 <= 1) by {
                    assert(b <= 0xFFFF_FFFF_FFFF_FFFF);
                }
            }
        }
        (0x1_0000_0000 - m32) % 0x1_0000_0000
    } else {
        proof {
            assert(spec_sign_field(b) == 0);
        }
        m32
    };
    crate::value::i32_of_u32(sm as u32)
}

} // verus!
