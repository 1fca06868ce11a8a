//! Floating-point numbers as bit patterns.
//!
//! The harness orders latencies, picks percentiles out of them and stores
//! vectors, but computes nothing with them. So the library holds each number
//! as its IEEE 754 bit pattern, and says what the pattern is worth with an
//! exact integer: every finite binary64 number is a whole multiple of 2^-1074.
use vstd::arithmetic::mul::{lemma_mul_inequality, lemma_mul_is_commutative, lemma_mul_strict_inequality};
use vstd::arithmetic::power2::{lemma_pow2_pos, lemma_pow2_strictly_increases, lemma_pow2_unfold, pow2};
use vstd::prelude::*;

verus! {

/// The sign bit of a binary64 pattern.
pub const SIGN_BIT: u64 = 0x8000_0000_0000_0000;

/// The pattern of positive infinity: the largest magnitude that is not a NaN.
pub const INFINITY_BITS: u64 = 0x7ff0_0000_0000_0000;

/// Two to the number of stored fraction bits.
pub const FRACTION_UNIT: u64 = 0x0010_0000_0000_0000;

/// A binary64 number, held as its bit pattern.
#[derive(Debug, Clone, Copy, PartialEq, Eq, Structural)]
pub struct Double {
    pub bits: u64,
}

/// A binary32 number, held as its bit pattern.
#[derive(Debug, Clone, Copy, PartialEq, Eq, Structural)]
pub struct Single {
    pub bits: u32,
}

/// What the pattern `magnitude`, with the sign bit clear, is worth in units of
/// 2^-1074. The pattern of infinity is worth 2^2098, more than any finite one.
pub open spec fn scaled_magnitude(magnitude: int) -> int {
    let exponent = magnitude / FRACTION_UNIT as int;
    let fraction = magnitude % FRACTION_UNIT as int;
    if exponent == 0 {
        fraction
    } else {
        (FRACTION_UNIT + fraction) * pow2((exponent - 1) as nat)
    }
}

impl Double {
    /// Whether the sign bit is set.
    pub open spec fn negative(self) -> bool {
        self.bits >= SIGN_BIT
    }

    /// The pattern without its sign bit.
    pub open spec fn magnitude(self) -> int {
        if self.negative() {
            self.bits - SIGN_BIT
        } else {
            self.bits as int
        }
    }

    /// Whether the pattern is one of the NaNs.
    pub open spec fn spec_is_nan(self) -> bool {
        self.magnitude() > INFINITY_BITS
    }

    /// The number's exact value in units of 2^-1074. Both zeros have value 0.
    /// A NaN has no value of its own; the formula gives it some number.
    pub open spec fn scaled(self) -> int {
        if self.negative() {
            -scaled_magnitude(self.magnitude())
        } else {
            scaled_magnitude(self.magnitude())
        }
    }

    /// Positive zero.
    pub fn zero() -> (d: Self)
        ensures
            d.bits == 0,
            d.scaled() == 0,
    {
        Double { bits: 0 }
    }

    /// Whether the pattern is a NaN.
    pub fn is_nan(self) -> (nan: bool)
        ensures
            nan == self.spec_is_nan(),
    {
        if self.bits >= SIGN_BIT {
            self.bits - SIGN_BIT > INFINITY_BITS
        } else {
            self.bits > INFINITY_BITS
        }
    }

    /// The integer by which the number is ordered.
    pub open spec fn spec_order_key(self) -> int {
        if self.negative() {
            -self.magnitude()
        } else {
            self.magnitude()
        }
    }

    /// The integer by which the number is ordered: comparing keys compares
    /// values, and the two zeros share the key 0.
    pub fn order_key(self) -> (key: i64)
        ensures
            key == self.spec_order_key(),
    {
        if self.bits >= SIGN_BIT {
            -((self.bits - SIGN_BIT) as i64)
        } else {
            self.bits as i64
        }
    }
}

/// Whether any of `samples` is a NaN.
pub open spec fn some_nan(samples: Seq<Double>) -> bool {
    exists|i: int| 0 <= i < samples.len() && (#[trigger] samples[i]).spec_is_nan()
}

/// Whether any of `samples` is a NaN.
pub fn has_nan(samples: &[Double]) -> (found: bool)
    ensures
        found == some_nan(samples@),
{
    let mut i: usize = 0;
    while i < samples.len()
        invariant
            i <= samples.len(),
            forall|j: int| 0 <= j < i ==> !(#[trigger] samples@[j]).spec_is_nan(),
        decreases samples.len() - i,
    {
        if samples[i].is_nan() {
            assert(samples@[i as int].spec_is_nan());
            return true;
        }
        i += 1;
    }
    false
}

/// A larger magnitude pattern is worth strictly more.
proof fn lemma_scaled_magnitude_increases(a: int, b: int)
    requires
        0 <= a < b,
    ensures
        0 <= scaled_magnitude(a) < scaled_magnitude(b),
{
    let unit = FRACTION_UNIT as int;
    let ea = a / unit;
    let eb = b / unit;
    let fa = a % unit;
    let fb = b % unit;
    assert(a == ea * unit + fa && b == eb * unit + fb);
    assert(0 <= ea <= eb);
    if ea == eb {
        assert(fa < fb);
        if ea > 0 {
            let p = pow2((ea - 1) as nat);
            lemma_pow2_pos((ea - 1) as nat);
            lemma_mul_strict_inequality(unit + fa, unit + fb, p as int);
            lemma_mul_inequality(0, unit + fa, p as int);
        }
    } else {
        let q = pow2((eb - 1) as nat) as int;
        lemma_pow2_pos((eb - 1) as nat);
        lemma_mul_inequality(unit, unit + fb, q);
        if ea == 0 {
            lemma_mul_inequality(1, q, unit);
            lemma_mul_is_commutative(unit, q);
        } else {
            let p = pow2((ea - 1) as nat) as int;
            lemma_pow2_pos((ea - 1) as nat);
            lemma_mul_strict_inequality(unit + fa, 2 * unit, p);
            lemma_mul_inequality(0, unit + fa, p);
            lemma_pow2_unfold(ea as nat);
            assert(2 * unit * p == unit * (2 * p)) by (nonlinear_arith);
            if ea < eb - 1 {
                lemma_pow2_strictly_increases(ea as nat, (eb - 1) as nat);
            }
            lemma_mul_inequality(2 * p, q, unit);
            lemma_mul_is_commutative(unit, q);
            lemma_mul_is_commutative(unit, 2 * p);
        }
    }
}

/// Ordering two numbers by their keys is ordering them by their exact values.
pub proof fn law_order_key_orders_by_value(a: Double, b: Double)
    ensures
        a.spec_order_key() < b.spec_order_key() <==> a.scaled() < b.scaled(),
        a.spec_order_key() == b.spec_order_key() <==> a.scaled() == b.scaled(),
{
    let x = a.magnitude();
    let y = b.magnitude();
    assert(scaled_magnitude(0) == 0);
    if 0 < x {
        lemma_scaled_magnitude_increases(0, x);
    }
    if 0 < y {
        lemma_scaled_magnitude_increases(0, y);
    }
    if x < y {
        lemma_scaled_magnitude_increases(x, y);
    }
    if y < x {
        lemma_scaled_magnitude_increases(y, x);
    }
}

/// What a pattern of sign, eleven exponent bits and 52 fraction bits is worth,
/// in units of 2^-1074: the fraction, with the leading 1 that every exponent
/// but 0 implies, times two to the power of the exponent less 1. It is a NaN
/// if the exponent is all ones and the fraction is not 0.
pub proof fn law_patterns_are_binary64(negative: bool, exponent: int, fraction: int, d: Double, nan: bool)
    requires
        0 <= exponent < 2048,
        0 <= fraction < 0x10_0000_0000_0000,
        d.bits == (if negative {
            0x8000_0000_0000_0000int
        } else {
            0
        }) + exponent * 0x10_0000_0000_0000 + fraction,
        call_ensures(Double::is_nan, (d,), nan),
    ensures
        exponent == 0 ==> d.scaled() == (if negative {
            -fraction
        } else {
            fraction
        }),
        exponent > 0 ==> d.scaled() == (if negative {
            -((0x10_0000_0000_0000 + fraction) * pow2((exponent - 1) as nat))
        } else {
            (0x10_0000_0000_0000 + fraction) * pow2((exponent - 1) as nat)
        }),
        nan <==> exponent == 2047 && fraction != 0,
{
    let unit: int = 0x10_0000_0000_0000;
    let magnitude = exponent * unit + fraction;
    assert(d.negative() == negative);
    assert(d.magnitude() == magnitude);
    vstd::arithmetic::div_mod::lemma_fundamental_div_mod_converse(magnitude, unit, exponent, fraction);
}

/// The keys of two numbers compare as what the numbers are worth.
pub proof fn law_keys_compare_like_numbers(a: Double, b: Double, key_a: i64, key_b: i64)
    requires
        call_ensures(Double::order_key, (a,), key_a),
        call_ensures(Double::order_key, (b,), key_b),
    ensures
        key_a < key_b <==> a.scaled() < b.scaled(),
        key_a == key_b <==> a.scaled() == b.scaled(),
{
    law_order_key_orders_by_value(a, b);
}

/// A NaN is found among the samples exactly if there is one: a pattern whose
/// exponent bits are all ones and whose fraction is not 0.
pub proof fn law_every_nan_is_found(samples: &[Double], found: bool)
    requires
        call_ensures(has_nan, (samples,), found),
    ensures
        found <==> exists|i: int|
            0 <= i < samples@.len() && (#[trigger] samples@[i]).bits / 0x10_0000_0000_0000 % 2048 == 2047
                && samples@[i].bits % 0x10_0000_0000_0000 != 0,
{
    assert forall|i: int| 0 <= i < samples@.len() implies (#[trigger] samples@[i]).spec_is_nan() == (samples@[i].bits
        / 0x10_0000_0000_0000 % 2048 == 2047 && samples@[i].bits % 0x10_0000_0000_0000 != 0) by {
        let bits = samples@[i].bits as int;
        assert(bits == 0x10_0000_0000_0000 * (bits / 0x10_0000_0000_0000) + bits % 0x10_0000_0000_0000);
    }
}

/// Zero is the pattern of all zero bits.
pub proof fn law_zero_is_no_bits(d: Double)
    requires
        call_ensures(Double::zero, (), d),
    ensures
        d.bits == 0,
{
}

} // verus!
