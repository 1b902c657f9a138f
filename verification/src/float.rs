//! Floating-point numbers as the value tree holds them.
//!
//! A float is carried by the bit pattern of its IEEE-754 binary64 encoding
//! together with the text it is written as. Whoever builds a [`Float`] from a
//! machine float supplies both; the library reads the sign, exponent and
//! fraction from the bits and never computes in floating point itself.

use vstd::arithmetic::power2::lemma2_to64;
use vstd::arithmetic::power2::lemma_pow2_pos;
use vstd::arithmetic::power2::lemma_pow2_strictly_increases;
use vstd::arithmetic::power2::lemma_pow2_unfold;
use vstd::arithmetic::power2::pow2;
use vstd::prelude::*;

verus! {

/// A 64-bit float: its IEEE-754 bits and its textual form.
#[derive(Debug)]
pub struct Float {
    pub bits: u64,
    pub text: String,
}

/// What a [`Float`] stands for in specifications.
pub ghost struct FloatModel {
    pub bits: u64,
    pub text: Seq<char>,
}

impl View for Float {
    type V = FloatModel;

    open spec fn view(&self) -> FloatModel {
        FloatModel { bits: self.bits, text: self.text@ }
    }
}

/// The bits of positive zero are all clear; negative zero has only the sign
/// bit set. Every other pattern is a number different from zero, an infinity
/// or a NaN.
pub open spec fn bits_are_zero(bits: u64) -> bool {
    bits == 0 || bits == 0x8000_0000_0000_0000
}

/// Whether the sign bit is set.
pub open spec fn is_negative(bits: u64) -> bool {
    bits >= 0x8000_0000_0000_0000
}

/// The eleven bits of the exponent field.
pub open spec fn exponent_field(bits: u64) -> int {
    ((bits / 0x10_0000_0000_0000) % 2048) as int
}

/// The fifty-two bits of the fraction field.
pub open spec fn fraction_field(bits: u64) -> int {
    (bits % 0x10_0000_0000_0000) as int
}

/// Whether the bits are those of a NaN.
pub open spec fn is_nan(bits: u64) -> bool {
    exponent_field(bits) == 2047 && fraction_field(bits) != 0
}

/// Whether the bits are those of an infinity.
pub open spec fn is_infinite(bits: u64) -> bool {
    exponent_field(bits) == 2047 && fraction_field(bits) == 0
}

/// The significand of a finite float: its magnitude is the significand times
/// two to the power of its `scale`.
pub open spec fn significand(bits: u64) -> int {
    if exponent_field(bits) == 0 {
        fraction_field(bits)
    } else {
        fraction_field(bits) + 0x10_0000_0000_0000
    }
}

/// The power of two by which the significand of a finite float is scaled.
pub open spec fn scale(bits: u64) -> int {
    if exponent_field(bits) == 0 {
        -1074
    } else {
        exponent_field(bits) - 1075
    }
}

/// The magnitude of a finite float, rounded to the nearest integer, halves
/// away from zero.
pub open spec fn rounded_magnitude(bits: u64) -> int {
    let m = significand(bits);
    let e = scale(bits);
    if e >= 0 {
        m * pow2(e as nat)
    } else {
        (2 * m + pow2((-e) as nat)) / (2 * pow2((-e) as nat) as int)
    }
}

/// The integer within `min..=max` that a float is taken as: a NaN as zero,
/// every other float rounded to the nearest integer, halves away from zero,
/// and then brought into the range.
pub open spec fn integer_of_float(bits: u64, min: int, max: int) -> int {
    if is_nan(bits) {
        0
    } else if is_infinite(bits) {
        if is_negative(bits) {
            min
        } else {
            max
        }
    } else {
        let rounded = if is_negative(bits) {
            -rounded_magnitude(bits)
        } else {
            rounded_magnitude(bits)
        };
        if rounded < min {
            min
        } else if rounded > max {
            max
        } else {
            rounded
        }
    }
}

/// Whether two floats are equal as floats: neither is a NaN, and they have
/// the same bits or are both zero.
pub open spec fn floats_equal(a: u64, b: u64) -> bool {
    !is_nan(a) && !is_nan(b) && (a == b || (bits_are_zero(a) && bits_are_zero(b)))
}

/// Two to the power of `k`.
fn power_of_two(k: u32) -> (p: u128)
    requires
        k <= 64,
    ensures
        p == pow2(k as nat),
        p <= 0x1_0000_0000_0000_0000,
{
    let mut p: u128 = 1;
    let mut i: u32 = 0;
    proof {
        lemma2_to64();
    }
    while i < k
        invariant
            i <= k <= 64,
            p == pow2(i as nat),
            p <= pow2(64),
            pow2(64) == 0x1_0000_0000_0000_0000,
        decreases k - i,
    {
        proof {
            lemma_pow2_unfold((i + 1) as nat);
            if i + 1 < 64 {
                lemma_pow2_strictly_increases((i + 1) as nat, 64);
            }
        }
        p = p * 2;
        i += 1;
    }
    p
}

impl Float {
    /// A float from its bits and its text.
    pub fn new(bits: u64, text: String) -> (f: Float)
        ensures
            f@ == (FloatModel { bits, text: text@ }),
    {
        Float { bits, text }
    }

    /// Whether the float is a NaN.
    pub fn is_nan(&self) -> (r: bool)
        ensures
            r == is_nan(self.bits),
    {
        (self.bits / 0x10_0000_0000_0000) % 2048 == 2047 && self.bits % 0x10_0000_0000_0000 != 0
    }

    /// Whether the float compares equal to zero.
    pub fn is_zero(&self) -> (r: bool)
        ensures
            r == bits_are_zero(self.bits),
    {
        self.bits == 0 || self.bits == 0x8000_0000_0000_0000
    }

    /// The integer within `min..=max` that the float is taken as.
    pub(crate) fn to_integer(&self, min: i128, max: i128) -> (r: i128)
        requires
            -0x8000_0000_0000_0000 <= min <= 0,
            0 <= max <= 0xffff_ffff_ffff_ffff,
        ensures
            r == integer_of_float(self.bits, min as int, max as int),
            min <= r <= max,
    {
        let bits = self.bits;
        let negative = bits >= 0x8000_0000_0000_0000;
        let exponent = (bits / 0x10_0000_0000_0000) % 2048;
        let fraction = bits % 0x10_0000_0000_0000;
        if exponent == 2047 {
            return if fraction != 0 {
                0
            } else if negative {
                min
            } else {
                max
            };
        }
        let m: u128 = if exponent == 0 {
            fraction as u128
        } else {
            (fraction + 0x10_0000_0000_0000) as u128
        };
        let magnitude: u128 = if exponent >= 1075 {
            let shift = exponent - 1075;
            if shift >= 12 {
                proof {
                    lemma2_to64();
                    if shift > 12 {
                        lemma_pow2_strictly_increases(12, shift as nat);
                    }
                    assert(m * pow2(shift as nat) >= 0x1_0000_0000_0000_0000) by (nonlinear_arith)
                        requires
                            m >= 0x10_0000_0000_0000,
                            pow2(shift as nat) >= 0x1000,
                    ;
                }
                return if negative {
                    min
                } else {
                    max
                };
            }
            let p = power_of_two(shift as u32);
            proof {
                lemma2_to64();
                if shift < 11 {
                    lemma_pow2_strictly_increases(shift as nat, 11);
                }
                assert(m * p < 0x1_0000_0000_0000_0000) by (nonlinear_arith)
                    requires
                        m < 0x20_0000_0000_0000,
                        p <= 0x800,
                ;
            }
            m * p
        } else {
            let back = if exponent == 0 {
                1074
            } else {
                1075 - exponent
            };
            if back >= 54 {
                proof {
                    lemma2_to64();
                    vstd::arithmetic::power2::lemma2_to64_rest();
                    if back > 54 {
                        lemma_pow2_strictly_increases(54, back as nat);
                    }
                    let q = pow2(back as nat) as int;
                    assert((2 * m + q) / (2 * q) == 0) by (nonlinear_arith)
                        requires
                            0 <= m < 0x20_0000_0000_0000,
                            q >= 0x40_0000_0000_0000,
                    ;
                }
                0
            } else {
                let p = power_of_two(back as u32);
                proof {
                    lemma_pow2_pos(back as nat);
                    assert((2 * m + p) / (2 * p) <= 2 * m + p) by (nonlinear_arith)
                        requires
                            0 <= m,
                            p >= 1,
                    ;
                }
                (2 * m + p) / (2 * p)
            }
        };
        proof {
            assert(magnitude == rounded_magnitude(bits));
            assert(magnitude < 0x2_0000_0000_0000_0000);
        }
        let rounded: i128 = if negative {
            -(magnitude as i128)
        } else {
            magnitude as i128
        };
        if rounded < min {
            min
        } else if rounded > max {
            max
        } else {
            rounded
        }
    }
}

impl Clone for Float {
    /// A copy that stands for the same float.
    fn clone(&self) -> (copy: Float)
        ensures
            copy@ == self@,
    {
        Float { bits: self.bits, text: self.text.clone() }
    }
}

} // verus!
