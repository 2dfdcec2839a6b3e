//! Real numbers as IEEE 754 binary32 bit patterns.
//!
//! A pattern is a sign bit, eight exponent bits and twenty-three fraction
//! bits. `weight` gives the number a pattern encodes, multiplied by 2^149 so
//! that it is an integer; the comparisons below are computed on the patterns
//! and proved to agree with the order of the weights.
use vstd::arithmetic::div_mod::lemma_div_multiples_vanish_quotient;
use vstd::arithmetic::power2::{
    lemma_pow2_adds, lemma_pow2_pos, lemma_pow2_strictly_increases, lemma_pow2_unfold, pow2,
};
use vstd::bits::lemma_u32_shr_is_div;
use vstd::prelude::*;

verus! {

/// The pattern of positive zero.
pub const ZERO: u32 = 0;

/// The pattern of positive infinity. Patterns whose magnitude lies above it encode no number.
pub const INFINITY: u32 = 0x7f80_0000;

/// The pattern of the largest finite number.
pub const LARGEST: u32 = 0x7f7f_ffff;

/// The pattern of the smallest number with a full 24-bit significand.
pub const SMALLEST_NORMAL: u32 = 0x0080_0000;

/// The sign bit, alone.
pub const SIGN: u32 = 0x8000_0000;

/// Whether the sign bit is set.
pub open spec fn negative(bits: u32) -> bool {
    bits >= SIGN
}

/// The pattern without its sign bit.
pub open spec fn magnitude(bits: u32) -> nat {
    if bits >= SIGN {
        (bits - SIGN) as nat
    } else {
        bits as nat
    }
}

/// Whether the pattern encodes no number.
pub open spec fn is_nan(bits: u32) -> bool {
    magnitude(bits) > INFINITY
}

/// The absolute value encoded by a magnitude, times 2^149. Below the smallest
/// normal magnitude the fraction counts alone; above it the fraction gains its
/// hidden bit and doubles with every step of the exponent. Infinity comes out
/// above every finite number.
pub open spec fn scaled(mag: nat) -> nat {
    if mag < SMALLEST_NORMAL {
        mag
    } else {
        ((SMALLEST_NORMAL + mag % (SMALLEST_NORMAL as nat)) * pow2(
            (mag / (SMALLEST_NORMAL as nat) - 1) as nat,
        )) as nat
    }
}

/// The number encoded by a pattern, times 2^149.
pub open spec fn weight(bits: u32) -> int {
    if negative(bits) {
        -(scaled(magnitude(bits)) as int)
    } else {
        scaled(magnitude(bits)) as int
    }
}

/// The order of the encoded numbers: false whenever either side encodes none.
pub open spec fn less(a: u32, b: u32) -> bool {
    !is_nan(a) && !is_nan(b) && weight(a) < weight(b)
}

/// The pattern of the absolute value.
pub open spec fn abs(bits: u32) -> u32 {
    magnitude(bits) as u32
}

/// A larger magnitude encodes a larger absolute value.
pub proof fn lemma_scaled_increases(m1: nat, m2: nat)
    requires
        m1 < m2,
    ensures
        scaled(m1) < scaled(m2),
{
    let n = SMALLEST_NORMAL as nat;
    if m2 < n {
    } else if m1 < n {
        let p = pow2((m2 / n - 1) as nat);
        lemma_pow2_pos((m2 / n - 1) as nat);
        assert((n + m2 % n) * p >= n) by (nonlinear_arith)
            requires
                p >= 1,
                n + m2 % n >= n,
        ;
    } else {
        let e1 = (m1 / n - 1) as nat;
        let e2 = (m2 / n - 1) as nat;
        let f1 = m1 % n;
        let f2 = m2 % n;
        assert(m1 == n * (m1 / n) + f1 && m2 == n * (m2 / n) + f2 && m1 / n <= m2 / n
            && 0 <= f1 < n && 0 <= f2 < n) by (nonlinear_arith)
            requires
                m1 < m2,
                n == 0x80_0000,
                f1 == m1 % n,
                f2 == m2 % n,
        ;
        lemma_pow2_pos(e1);
        lemma_pow2_pos(e2);
        if e1 == e2 {
            assert(f1 < f2) by (nonlinear_arith)
                requires
                    m1 < m2,
                    m1 == n * (m1 / n) + f1,
                    m2 == n * (m2 / n) + f2,
                    m1 / n == m2 / n,
            ;
            assert((n + f1) * pow2(e1) < (n + f2) * pow2(e1)) by (nonlinear_arith)
                requires
                    f1 < f2,
                    pow2(e1) > 0,
            ;
        } else {
            lemma_pow2_unfold(e1 + 1);
            if e1 + 1 < e2 {
                lemma_pow2_strictly_increases(e1 + 1, e2);
            }
            let below = pow2(e1);
            let above = pow2(e2);
            assert((n + f1) * below < (n + f2) * above) by (nonlinear_arith)
                requires
                    f1 < n,
                    0 <= f2,
                    below > 0,
                    2 * below <= above,
                    n > 0,
            ;
        }
    }
}

/// Magnitudes are ordered as the absolute values they encode.
pub proof fn lemma_scaled_order(m1: nat, m2: nat)
    ensures
        m1 < m2 <==> scaled(m1) < scaled(m2),
        m1 == m2 <==> scaled(m1) == scaled(m2),
{
    if m1 < m2 {
        lemma_scaled_increases(m1, m2);
    } else if m2 < m1 {
        lemma_scaled_increases(m2, m1);
    }
}

/// The order of the numbers as it shows in the patterns: among numbers that
/// are not negative the smaller pattern comes first, among negative ones the
/// larger, a negative number comes before one that is not unless both are
/// zero, and what encodes no number comes nowhere.
pub open spec fn precedes(a: u32, b: u32) -> bool {
    if magnitude(a) > INFINITY || magnitude(b) > INFINITY {
        false
    } else if negative(a) {
        if negative(b) {
            magnitude(b) < magnitude(a)
        } else {
            magnitude(a) != 0 || magnitude(b) != 0
        }
    } else {
        !negative(b) && magnitude(a) < magnitude(b)
    }
}

/// The order that shows in the patterns is the order of the numbers.
pub proof fn lemma_less(a: u32, b: u32)
    ensures
        less(a, b) == precedes(a, b),
{
    lemma_scaled_order(magnitude(a), magnitude(b));
    lemma_scaled_order(0, magnitude(a));
    lemma_scaled_order(0, magnitude(b));
}

/// A number is above zero exactly if its pattern lies above that of zero
/// and not above that of infinity.
pub proof fn lemma_positive(bits: u32)
    ensures
        less(ZERO, bits) == (0 < bits <= INFINITY),
{
    lemma_less(ZERO, bits);
}

/// Whether the encoded number is below another: the comparison `a < b` of
/// binary32, computed on the patterns.
pub fn less_than(a: u32, b: u32) -> (r: bool)
    ensures
        r == less(a, b),
{
    let ma: u32 = if a >= SIGN { a - SIGN } else { a };
    let mb: u32 = if b >= SIGN { b - SIGN } else { b };
    proof {
        lemma_less(a, b);
    }
    if ma > INFINITY || mb > INFINITY {
        false
    } else if a >= SIGN {
        if b >= SIGN {
            mb < ma
        } else {
            ma != 0 || mb != 0
        }
    } else {
        b < SIGN && ma < mb
    }
}

/// Whether the encoded number is above zero: the comparison `x > 0` of binary32.
pub fn is_positive(bits: u32) -> (r: bool)
    ensures
        r == less(ZERO, bits),
{
    less_than(ZERO, bits)
}

/// Whether the absolute value of the encoded number is below a bound: the
/// comparison `|x| < bound` of binary32.
pub fn magnitude_below(bits: u32, bound: u32) -> (r: bool)
    ensures
        r == less(abs(bits), bound),
{
    let m: u32 = if bits >= SIGN { bits - SIGN } else { bits };
    less_than(m, bound)
}

/// The order of the numbers is strict: nothing is below itself, and of two
/// patterns at most one is below the other.
pub proof fn lemma_less_strict(a: u32, b: u32)
    ensures
        !less(a, a),
        !(less(a, b) && less(b, a)),
{
}

/// Among positive numbers the order of the patterns is the order of the numbers.
pub proof fn lemma_positive_order(a: u32, b: u32)
    requires
        less(ZERO, a),
        less(ZERO, b),
    ensures
        less(a, b) <==> a < b,
{
    lemma_less(a, b);
    lemma_positive(a);
    lemma_positive(b);
}

/// The whole part of the absolute value of the encoded number.
pub open spec fn whole_part(bits: u32) -> nat {
    scaled(magnitude(bits)) / pow2(149)
}

/// The byte nearest to the encoded number among those not farther from zero:
/// the whole part of the number where that is a byte, 255 above, and 0 below
/// zero and for what encodes no number.
pub open spec fn channel(bits: u32) -> u8 {
    if is_nan(bits) || negative(bits) {
        0
    } else if whole_part(bits) > 255 {
        255
    } else {
        whole_part(bits) as u8
    }
}

/// Powers of two do not fall as the exponent rises.
proof fn lemma_pow2_le(lower: nat, upper: nat)
    requires
        lower <= upper,
    ensures
        pow2(lower) <= pow2(upper),
{
    if lower < upper {
        lemma_pow2_strictly_increases(lower, upper);
    }
}

/// The byte of a channel whose light is the encoded number: the conversion of
/// binary32 to an 8-bit unsigned integer that cuts off the fraction and
/// saturates at both ends.
pub fn to_channel(bits: u32) -> (r: u8)
    ensures
        r == channel(bits),
{
    if bits >= SIGN || bits > INFINITY {
        return 0;
    }
    let exponent: u32 = bits / SMALLEST_NORMAL;
    let fraction: u32 = bits % SMALLEST_NORMAL;
    let ghost m = (SMALLEST_NORMAL + fraction) as int;
    if exponent < 127 {
        proof {
            if exponent >= 1 {
                let p = pow2((exponent - 1) as nat);
                lemma_pow2_pos((exponent - 1) as nat);
                lemma_pow2_le((exponent - 1) as nat, 125);
                lemma_pow2_adds(24, 125);
                vstd::arithmetic::power2::lemma2_to64();
                assert(m * p < pow2(24) * pow2(125)) by (nonlinear_arith)
                    requires
                        0 <= m < pow2(24),
                        0 < p <= pow2(125),
                ;
            } else {
                lemma_pow2_le(23, 149);
                vstd::arithmetic::power2::lemma2_to64();
            }
            vstd::arithmetic::div_mod::lemma_basic_div(
                scaled(bits as nat) as int,
                pow2(149) as int,
            );
        }
        0
    } else if exponent >= 135 {
        proof {
            let p = pow2((exponent - 1) as nat);
            lemma_pow2_le(134, (exponent - 1) as nat);
            lemma_pow2_adds(23, 134);
            lemma_pow2_adds(8, 149);
            lemma_pow2_pos(149);
            vstd::arithmetic::power2::lemma2_to64();
            assert(m * p >= pow2(23) * pow2(134)) by (nonlinear_arith)
                requires
                    m >= pow2(23),
                    p >= pow2(134),
            ;
            assert((m * p) / (pow2(149) as int) >= 256) by (nonlinear_arith)
                requires
                    m * p >= 256 * pow2(149),
                    pow2(149) > 0,
            ;
        }
        255
    } else {
        let shift: u32 = 150 - exponent;
        let whole: u32 = (SMALLEST_NORMAL + fraction) >> shift;
        proof {
            let p = pow2((exponent - 1) as nat);
            let q = pow2(shift as nat);
            lemma_u32_shr_is_div((SMALLEST_NORMAL + fraction) as u32, shift);
            lemma_pow2_adds((exponent - 1) as nat, shift as nat);
            lemma_pow2_pos((exponent - 1) as nat);
            lemma_pow2_pos(shift as nat);
            lemma_div_multiples_vanish_quotient(p as int, m, q as int);
            lemma_pow2_le(16, shift as nat);
            vstd::arithmetic::power2::lemma2_to64();
            assert(m / (q as int) < 256) by (nonlinear_arith)
                requires
                    0 <= m < 0x100_0000,
                    q >= 0x1_0000,
            ;
            assert(m * p == p * m) by (nonlinear_arith);
        }
        whole as u8
    }
}

} // verus!
