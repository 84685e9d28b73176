//! The last step of tone mapping: from the value of a channel, a double given
//! by its bits, to one of 256 levels. The value is clamped to the range from
//! zero to 0.999, multiplied by 256 and rounded down.

use vstd::prelude::*;
use vstd::arithmetic::div_mod::lemma_basic_div;
use vstd::arithmetic::div_mod::lemma_div_is_ordered;
use vstd::arithmetic::div_mod::lemma_div_multiples_vanish_quotient;
use vstd::arithmetic::div_mod::lemma_multiply_divide_lt;
use vstd::arithmetic::div_mod::lemma_fundamental_div_mod;
use vstd::arithmetic::mul::lemma_mul_is_commutative;
use vstd::arithmetic::power2::lemma2_to64;
use vstd::arithmetic::power2::lemma2_to64_rest;
use vstd::arithmetic::power2::lemma_pow2_adds;
use vstd::arithmetic::power2::lemma_pow2_pos;
use vstd::arithmetic::power2::lemma_pow2_strictly_increases;
use vstd::arithmetic::power2::lemma_pow2_subtracts;
use vstd::arithmetic::power2::lemma_pow2_unfold;
use vstd::arithmetic::power2::pow2;
use crate::double::exponent;
use crate::double::is_nan;
use crate::double::at_most;
use crate::double::units;
use crate::double::significand;
use crate::double::HIDDEN_BIT;
use crate::double::SIGN_BIT;

verus! {

/// The bits of the double nearest to 0.999, the greatest value that a channel
/// is left with.
pub const LIMIT: u64 = 0x3FEF_F7CE_D916_872B;

/// The bits of the value that a channel is left with: zero for what lies below
/// zero and for a NaN, the limit for what lies above it.
pub open spec fn clamped(bits: u64) -> u64 {
    if bits >= SIGN_BIT || is_nan(bits) {
        0
    } else if bits > LIMIT {
        LIMIT
    } else {
        bits
    }
}

/// 256 times the value of the double, rounded down, for a double from zero
/// to the limit: the value is `units(bits)` times two to the power of -1074.
pub open spec fn floor_256(bits: u64) -> int
    recommends
        bits <= LIMIT,
{
    (256 * (units(bits) as int)) / (pow2(1074) as int)
}

/// The level of a channel.
pub open spec fn level_of(bits: u64) -> int {
    floor_256(clamped(bits))
}

/// Two to the power of `k`.
fn power_of_two(k: u64) -> (p: u64)
    requires
        k <= 52,
    ensures
        p == pow2(k as nat),
{
    let mut p: u64 = 1;
    let mut i: u64 = 0;
    proof {
        lemma2_to64();
        lemma2_to64_rest();
    }
    while i < k
        invariant
            i <= k <= 52,
            p == pow2(i as nat),
            pow2(52) == 0x10_0000_0000_0000,
        decreases k - i,
    {
        proof {
            lemma_pow2_unfold((i + 1) as nat);
            if i + 1 < 52 {
                lemma_pow2_strictly_increases((i + 1) as nat, 52);
            }
        }
        p = p * 2;
        i = i + 1;
    }
    p
}

/// The level of a double from zero to the limit.
fn floor_of(bits: u64) -> (l: u8)
    requires
        bits <= LIMIT,
    ensures
        l == floor_256(bits),
{
    let e = bits / HIDDEN_BIT;
    let f = bits % HIDDEN_BIT;
    proof {
        assert(e == exponent(bits) && e <= 1022);
        lemma_level_by_exponent(bits);
        lemma_levels(bits);
    }
    if e < 1015 {
        // The double is below 1/256.
        0
    } else {
        let sig = HIDDEN_BIT + f;
        let d = power_of_two(1067 - e);
        proof {
            lemma_pow2_pos((1067 - e) as nat);
        }
        (sig / d) as u8
    }
}

/// The level of the channel whose value is the double with these bits.
pub fn level(bits: u64) -> (l: u8)
    ensures
        l == level_of(bits),
{
    if bits >= SIGN_BIT {
        floor_of(0)
    } else if bits / HIDDEN_BIT == 2047 && bits % HIDDEN_BIT != 0 {
        floor_of(0)
    } else if bits > LIMIT {
        floor_of(LIMIT)
    } else {
        floor_of(bits)
    }
}

/// The level is the greatest whole number that is not above 256 times the
/// clamped value: black is level 0 and the limit is level 255.
pub proof fn lemma_level_is_floor(bits: u64)
    ensures
        0 <= level_of(bits) <= 255,
        level_of(bits) * pow2(1074) <= 256 * units(clamped(bits)),
        256 * units(clamped(bits)) < (level_of(bits) + 1) * pow2(1074),
        level_of(0) == 0,
        level_of(LIMIT) == 255,
{
    let c = clamped(bits);
    let n = 256 * (units(c) as int);
    let d = pow2(1074) as int;
    let q = n / d;
    lemma_pow2_pos(1074);
    lemma_fundamental_div_mod(n, d);
    lemma_mul_is_commutative(d, q);
    assert((q + 1) * d == q * d + d) by (nonlinear_arith);
    lemma_levels(c);
    lemma_levels(0);
    lemma_levels(LIMIT);
}

/// The levels stay in range, and the ends of the range have the lowest and
/// the highest level.
proof fn lemma_levels(bits: u64)
    requires
        bits <= LIMIT,
    ensures
        0 <= floor_256(bits) <= 255,
        bits == 0 ==> floor_256(bits) == 0,
        bits == LIMIT ==> floor_256(bits) == 255,
{
    let e = exponent(bits);
    lemma_level_by_exponent(bits);
    lemma2_to64();
    lemma2_to64_rest();
    if e >= 1015 {
        if e < 1022 {
            lemma_pow2_strictly_increases((e - 1014) as nat, 8);
        }
        lemma_pow2_pos((e - 1015) as nat);
        if bits == LIMIT {
            assert(e == 1022);
            assert(significand(bits) == 0x1F_F7CE_D916_872B);
            assert(0x1F_F7CE_D916_872Bint / 0x2000_0000_0000int == 255);
        }
    }
}

/// Where the levels above zero lie: a double from `2^k / 256` up to twice
/// that has a level from `2^k` up to twice that.
proof fn lemma_level_by_exponent(bits: u64)
    requires
        bits <= LIMIT,
    ensures
        exponent(bits) < 1015 ==> floor_256(bits) == 0,
        exponent(bits) >= 1015 ==> pow2((exponent(bits) - 1015) as nat) <= floor_256(bits) < pow2(
            (exponent(bits) - 1014) as nat,
        ),
        exponent(bits) >= 1015 ==> floor_256(bits) == (significand(bits) as int) / (pow2(
            (1067 - exponent(bits)) as nat,
        ) as int),
{
    let e = exponent(bits);
    let sig = significand(bits) as int;
    lemma2_to64();
    lemma2_to64_rest();
    if e == 0 {
        // A subnormal double: fewer than 2^52 units.
        lemma_pow2_strictly_increases(60, 1074);
        lemma_basic_div(256 * (units(bits) as int), pow2(1074) as int);
    } else {
        // units == sig * p, and 2^1074 == p * 2^(1075 - e).
        let p = pow2((e - 1) as nat) as int;
        let rest = pow2((1075 - e) as nat) as int;
        lemma_pow2_pos((e - 1) as nat);
        lemma_pow2_pos((1075 - e) as nat);
        lemma_pow2_adds((e - 1) as nat, (1075 - e) as nat);
        assert(pow2(1074) == p * rest);
        assert(256 * (sig * p) == p * (256 * sig)) by (nonlinear_arith);
        lemma_div_multiples_vanish_quotient(p, 256 * sig, rest);
        assert(floor_256(bits) == (256 * sig) / rest);
        if e < 1015 {
            if 1075 - e > 61 {
                lemma_pow2_strictly_increases(61, (1075 - e) as nat);
            }
            lemma_basic_div(256 * sig, rest);
        } else {
            let shift = (1067 - e) as nat;
            let d = pow2(shift) as int;
            lemma_pow2_pos(shift);
            lemma_pow2_adds(8, shift);
            lemma_div_multiples_vanish_quotient(256, sig, d);
            // 2^52 / d <= sig / d < 2^53 / d
            lemma_pow2_subtracts(shift, 52);
            lemma_pow2_adds((53 - shift) as nat, shift);
            lemma_div_is_ordered(pow2(52) as int, sig, d);
            lemma_mul_is_commutative(pow2((53 - shift) as nat) as int, d);
            lemma_multiply_divide_lt(sig, d, pow2((53 - shift) as nat) as int);
        }
    }
}

/// A greater value never has a lower level.
pub proof fn lemma_level_keeps_order(a: u64, b: u64)
    requires
        at_most(a, b),
    ensures
        level_of(a) <= level_of(b),
{
    let x = clamped(a);
    let y = clamped(b);
    lemma_levels(x);
    lemma_levels(y);
    if a < SIGN_BIT && b < SIGN_BIT {
        assert(x <= y <= LIMIT);
        lemma_level_by_exponent(x);
        lemma_level_by_exponent(y);
        let ex = exponent(x);
        let ey = exponent(y);
        assert(ex <= ey);
        if ex >= 1015 {
            if ex == ey {
                lemma_pow2_pos((1067 - ex) as nat);
                lemma_div_is_ordered(
                    significand(x) as int,
                    significand(y) as int,
                    pow2((1067 - ex) as nat) as int,
                );
            } else if ex + 1 < ey {
                lemma_pow2_strictly_increases((ex - 1014) as nat, (ey - 1015) as nat);
            }
        }
    }
}

} // verus!
