//! IEEE 754 doubles, read as bit patterns.
//!
//! A double is 64 bits: a sign bit, eleven bits of exponent and fifty-two
//! bits of fraction. Nothing here computes with a double; the functions take
//! and return the bits, which are integers.

use vstd::prelude::*;
use vstd::arithmetic::power2::lemma_pow2_adds;
use vstd::arithmetic::power2::lemma_pow2_pos;
use vstd::arithmetic::power2::lemma_pow2_strictly_increases;
use vstd::arithmetic::power2::lemma2_to64;
use vstd::arithmetic::power2::lemma2_to64_rest;
use vstd::arithmetic::power2::pow2;

verus! {

/// The sign bit of a double; the other 63 bits are its magnitude.
pub const SIGN_BIT: u64 = 0x8000_0000_0000_0000;

/// Two to the power of 52: the bit above the fraction, which stands for the
/// leading one of a normal double's significand.
pub const HIDDEN_BIT: u64 = 0x10_0000_0000_0000;

/// The bits of positive zero.
pub const ZERO: u64 = 0;

/// The bits of the double 1.
pub const ONE: u64 = 0x3FF0_0000_0000_0000;

/// The bits of positive infinity: the greatest magnitude that is not a NaN.
pub const INFINITY: u64 = 0x7FF0_0000_0000_0000;

/// The bits without the sign.
pub open spec fn magnitude(bits: u64) -> u64 {
    bits % SIGN_BIT
}

/// The bits are those of zero, of either sign.
pub open spec fn is_zero(bits: u64) -> bool {
    magnitude(bits) == 0
}

/// The eleven exponent bits.
pub open spec fn exponent(bits: u64) -> nat {
    ((bits / HIDDEN_BIT) % 2048) as nat
}

/// The fifty-two fraction bits.
pub open spec fn fraction(bits: u64) -> nat {
    (bits % HIDDEN_BIT) as nat
}

/// The bits are those of a NaN, of either sign.
pub open spec fn is_nan(bits: u64) -> bool {
    exponent(bits) == 2047 && fraction(bits) != 0
}

/// The significand as a whole number: the fraction, with the leading one
/// unless the double is zero or subnormal.
pub open spec fn significand(bits: u64) -> nat {
    if exponent(bits) == 0 {
        fraction(bits)
    } else {
        (HIDDEN_BIT + fraction(bits)) as nat
    }
}

/// The bits are those of a number that is not infinite: not of an infinity
/// and not of a NaN.
pub open spec fn is_finite(bits: u64) -> bool {
    exponent(bits) < 2047
}

/// The magnitude of a finite double, counted in units of the least positive
/// double, two to the power of -1074: every finite double is a whole number
/// of them.
pub open spec fn units(bits: u64) -> nat {
    if exponent(bits) == 0 {
        fraction(bits)
    } else {
        significand(bits) * pow2((exponent(bits) - 1) as nat)
    }
}

/// The value of a finite double, in the same units: below zero where the sign
/// bit is set.
pub open spec fn value(bits: u64) -> int {
    if bits >= SIGN_BIT {
        -(units(bits) as int)
    } else {
        units(bits) as int
    }
}

/// The key of a double with these bits, an integer that orders the doubles:
/// its magnitude bits where the sign bit is clear, and below zero, the further
/// the greater the magnitude, where it is set.
pub open spec fn key_of(bits: u64) -> i64 {
    if bits < SIGN_BIT {
        bits as i64
    } else {
        (-1 - (bits - SIGN_BIT)) as i64
    }
}

/// The key of the double with these bits.
pub fn to_key(bits: u64) -> (key: i64)
    ensures
        key == key_of(bits),
{
    if bits < SIGN_BIT {
        bits as i64
    } else {
        -1 - ((bits - SIGN_BIT) as i64)
    }
}

/// The first double is less than the second, as `<` compares doubles: a NaN
/// is less than nothing and nothing is less than a NaN, the two zeros are
/// equal, and all other doubles are ordered as their keys.
pub open spec fn less_than(a: u64, b: u64) -> bool {
    &&& !is_nan(a)
    &&& !is_nan(b)
    &&& !(is_zero(a) && is_zero(b))
    &&& key_of(a) < key_of(b)
}

/// The bits without the sign: the absolute value of the double.
pub fn abs(bits: u64) -> (m: u64)
    ensures
        m == magnitude(bits),
        is_nan(m) == is_nan(bits),
{
    bits % SIGN_BIT
}

/// Whether the first double is less than the second.
pub fn less(a: u64, b: u64) -> (r: bool)
    ensures
        r == less_than(a, b),
{
    let ma = abs(a);
    let mb = abs(b);
    proof {
        lemma_nan_by_magnitude(a);
        lemma_nan_by_magnitude(b);
    }
    if ma > INFINITY || mb > INFINITY {
        false
    } else if ma == 0 && mb == 0 {
        false
    } else {
        to_key(a) < to_key(b)
    }
}

/// The NaNs are the bit patterns whose magnitude lies above infinity.
pub proof fn lemma_nan_by_magnitude(bits: u64)
    ensures
        is_nan(bits) <==> magnitude(bits) > INFINITY,
{
}

/// Less-than is a strict order: nothing is less than itself, no two doubles
/// are each less than the other, and less than less is less.
pub proof fn lemma_less_than_is_strict(a: u64, b: u64, c: u64)
    ensures
        !less_than(a, a),
        less_than(a, b) ==> !less_than(b, a),
        less_than(a, b) && less_than(b, c) ==> less_than(a, c),
{
}

/// The first double is less than or equal to the second, as `<=` compares
/// doubles: false where either is a NaN.
pub open spec fn at_most(a: u64, b: u64) -> bool {
    !is_nan(a) && !is_nan(b) && !less_than(b, a)
}

/// The lesser of two doubles; the other one where one is a NaN, and the first
/// where they are equal.
pub open spec fn lesser_of(a: u64, b: u64) -> u64 {
    if is_nan(a) {
        b
    } else if less_than(b, a) {
        b
    } else {
        a
    }
}

/// The greater of two doubles; the other one where one is a NaN, and the
/// first where they are equal.
pub open spec fn greater_of(a: u64, b: u64) -> u64 {
    if is_nan(a) {
        b
    } else if less_than(a, b) {
        b
    } else {
        a
    }
}

/// Whether the first double is less than or equal to the second.
pub fn less_or_equal(a: u64, b: u64) -> (r: bool)
    ensures
        r == at_most(a, b),
{
    proof {
        lemma_nan_by_magnitude(a);
        lemma_nan_by_magnitude(b);
    }
    abs(a) <= INFINITY && abs(b) <= INFINITY && !less(b, a)
}

/// The lesser of two doubles.
pub fn min(a: u64, b: u64) -> (m: u64)
    ensures
        m == lesser_of(a, b),
{
    proof {
        lemma_nan_by_magnitude(a);
    }
    if abs(a) > INFINITY || less(b, a) {
        b
    } else {
        a
    }
}

/// The greater of two doubles.
pub fn max(a: u64, b: u64) -> (m: u64)
    ensures
        m == greater_of(a, b),
{
    proof {
        lemma_nan_by_magnitude(a);
    }
    if abs(a) > INFINITY || less(a, b) {
        b
    } else {
        a
    }
}

/// Less-or-equal orders the numbers: every number is at most itself, and at
/// most of at most is at most.
pub proof fn lemma_at_most_orders(a: u64, b: u64, c: u64)
    ensures
        at_most(a, a) <==> !is_nan(a),
        at_most(a, b) ==> !is_nan(a) && !is_nan(b),
        at_most(a, b) && at_most(b, c) ==> at_most(a, c),
        !is_nan(a) && !is_nan(b) ==> at_most(a, b) || at_most(b, a),
{
}

/// The lesser and the greater of two doubles are each one of the two, and of
/// a double and itself that double.
pub proof fn lemma_lesser_and_greater_choose(a: u64, b: u64)
    ensures
        lesser_of(a, b) == a || lesser_of(a, b) == b,
        greater_of(a, b) == a || greater_of(a, b) == b,
        lesser_of(a, a) == a,
        greater_of(a, a) == a,
{
}

/// What either of two doubles is at most, their lesser is at most; what is at
/// most either, is at most their greater.
pub proof fn lemma_lesser_and_greater_reach(a: u64, b: u64, p: u64)
    ensures
        at_most(a, p) || at_most(b, p) ==> at_most(lesser_of(a, b), p),
        at_most(p, a) || at_most(p, b) ==> at_most(p, greater_of(a, b)),
{
}

/// The lesser of two numbers is at most both and the greater is at least
/// both.
pub proof fn lemma_lesser_and_greater_bound(a: u64, b: u64)
    requires
        !is_nan(a),
        !is_nan(b),
    ensures
        at_most(lesser_of(a, b), a),
        at_most(lesser_of(a, b), b),
        at_most(a, greater_of(a, b)),
        at_most(b, greater_of(a, b)),
{
}

/// Of two finite doubles without a sign, the one with the lesser bits has the
/// lesser magnitude.
proof fn lemma_units_grow(a: u64, b: u64)
    requires
        a < b < INFINITY,
    ensures
        units(a) < units(b),
{
    let ea = exponent(a);
    let eb = exponent(b);
    let fa = fraction(a);
    let fb = fraction(b);
    assert(ea <= eb);
    assert(ea == eb ==> fa < fb);
    if eb >= 1 {
        let pb = pow2((eb - 1) as nat);
        lemma_pow2_pos((eb - 1) as nat);
        if ea == eb {
            assert((HIDDEN_BIT + fa) * pb < (HIDDEN_BIT + fb) * pb) by (nonlinear_arith)
                requires
                    fa < fb,
                    pb > 0,
            ;
        } else {
            // Less than the least double of the exponent of `b`.
            assert(HIDDEN_BIT * pb <= (HIDDEN_BIT + fb) * pb) by (nonlinear_arith)
                requires
                    pb > 0,
                    fb >= 0,
            ;
            if ea == 0 {
                assert(fa < HIDDEN_BIT * pb) by (nonlinear_arith)
                    requires
                        fa < HIDDEN_BIT,
                        pb >= 1,
                ;
            } else {
                let pa = pow2((ea - 1) as nat);
                lemma_pow2_pos((ea - 1) as nat);
                lemma_pow2_adds(1, (ea - 1) as nat);
                lemma2_to64();
                if ea < eb - 1 {
                    lemma_pow2_strictly_increases(ea as nat, (eb - 1) as nat);
                }
                assert(2 * pa <= pb);
                assert((HIDDEN_BIT + fa) * pa < HIDDEN_BIT * pb) by (nonlinear_arith)
                    requires
                        fa < HIDDEN_BIT,
                        pa > 0,
                        2 * pa <= pb,
                ;
            }
        }
    }
}

/// Less-than compares finite doubles by their values: the order of the bits
/// is the order of the numbers that the doubles stand for.
pub proof fn lemma_less_than_is_by_value(a: u64, b: u64)
    requires
        is_finite(a),
        is_finite(b),
    ensures
        less_than(a, b) <==> value(a) < value(b),
        is_zero(a) <==> value(a) == 0,
{
    let ma = magnitude(a);
    let mb = magnitude(b);
    assert(units(a) == units(ma) && units(b) == units(mb));
    assert(ma < INFINITY && mb < INFINITY);
    if ma < mb {
        lemma_units_grow(ma, mb);
    } else if mb < ma {
        lemma_units_grow(mb, ma);
    }
    if 0 < ma {
        lemma_units_grow(0, ma);
    }
    if 0 < mb {
        lemma_units_grow(0, mb);
    }
    assert(units(0) == 0);
}

} // verus!
