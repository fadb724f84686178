//! IEEE 754 doubles held by their bits, and what can be read off them in integers.
use vstd::arithmetic::power2::{lemma_pow2_pos, lemma_pow2_strictly_increases, lemma_pow2_unfold, pow2};
use vstd::prelude::*;

verus! {

/// The 64 bits of an IEEE 754 double.
#[derive(Clone, Copy, Debug, PartialEq, Eq, Structural)]
pub struct Double {
    pub bits: u64,
}

/// `2^52`: one more than the largest fraction field.
pub const FRACTIONS: u64 = 0x10_0000_0000_0000;

/// `2^63`: the sign bit.
pub const SIGN: u64 = 0x8000_0000_0000_0000;

impl Double {
    pub open spec fn is_negative(self) -> bool {
        self.bits >= SIGN
    }

    /// The exponent field, 0 to 2047.
    pub open spec fn exponent(self) -> int {
        ((self.bits / FRACTIONS) % 2048) as int
    }

    /// The fraction field.
    pub open spec fn fraction(self) -> int {
        (self.bits % FRACTIONS) as int
    }

    pub open spec fn is_nan(self) -> bool {
        self.exponent() == 2047 && self.fraction() != 0
    }

    pub open spec fn is_finite(self) -> bool {
        self.exponent() != 2047
    }

    pub open spec fn is_zero(self) -> bool {
        self.exponent() == 0 && self.fraction() == 0
    }

    /// The absolute value of the double without its fractional digits. (Of an infinity:
    /// a number beyond every 64-bit integer.)
    pub open spec fn magnitude(self) -> int {
        let significand = FRACTIONS + self.fraction();
        if self.exponent() < 1023 {
            0
        } else if self.exponent() <= 1075 {
            significand / (pow2((1075 - self.exponent()) as nat) as int)
        } else {
            significand * pow2((self.exponent() - 1075) as nat)
        }
    }

    /// The double rounded toward zero; zero for a NaN.
    pub open spec fn truncated(self) -> int {
        if self.is_nan() {
            0
        } else if self.is_negative() {
            -self.magnitude()
        } else {
            self.magnitude()
        }
    }

    /// The conversion to `i64`: rounds toward zero and keeps to the bounds of `i64`.
    pub open spec fn signed(self) -> i64 {
        if self.truncated() < i64::MIN {
            i64::MIN
        } else if self.truncated() > i64::MAX {
            i64::MAX
        } else {
            self.truncated() as i64
        }
    }

    /// The conversion to `u64`: rounds toward zero and keeps to the bounds of `u64`.
    pub open spec fn unsigned(self) -> u64 {
        if self.truncated() < 0 {
            0
        } else if self.truncated() > u64::MAX {
            u64::MAX
        } else {
            self.truncated() as u64
        }
    }

    /// Neither NaN nor below zero; a negative zero is not below zero.
    pub open spec fn at_least_zero(self) -> bool {
        !self.is_nan() && (!self.is_negative() || self.is_zero())
    }

    /// Equality of doubles: a NaN equals nothing, and the two zeros are equal.
    pub open spec fn equals(self, other: Double) -> bool {
        &&& !self.is_nan()
        &&& !other.is_nan()
        &&& self.bits == other.bits || (self.is_zero() && other.is_zero())
    }

    /// The magnitude where it fits in 64 bits.
    fn whole(self) -> (result: Option<u64>)
        ensures
            match result {
                Some(whole) => whole == self.magnitude(),
                None => self.magnitude() > u64::MAX,
            },
    {
        let exponent: u64 = (self.bits / FRACTIONS) % 2048;
        let significand: u64 = FRACTIONS + self.bits % FRACTIONS;
        if exponent < 1023 {
            Some(0)
        } else if exponent <= 1075 {
            let divisor: u64 = power_of_two(1075 - exponent);
            Some(significand / divisor)
        } else if exponent <= 1086 {
            let factor: u64 = power_of_two(exponent - 1075);
            proof {
                let shift = (exponent - 1075) as nat;
                if shift < 11 {
                    lemma_pow2_strictly_increases(shift, 11);
                }
                vstd::arithmetic::power2::lemma2_to64();
                assert(significand * factor <= 0x1F_FFFF_FFFF_FFFF * 0x800) by (nonlinear_arith)
                    requires
                        significand <= 0x1F_FFFF_FFFF_FFFF,
                        factor <= 0x800,
                ;
            }
            Some(significand * factor)
        } else {
            proof {
                let shift = (exponent - 1075) as nat;
                if shift > 12 {
                    lemma_pow2_strictly_increases(12, shift);
                }
                vstd::arithmetic::power2::lemma2_to64();
                let factor = pow2(shift);
                assert(significand * factor >= 0x10_0000_0000_0000 * 0x1000) by (nonlinear_arith)
                    requires
                        significand >= 0x10_0000_0000_0000,
                        factor >= 0x1000,
                ;
            }
            None
        }
    }

    fn nan(self) -> (result: bool)
        ensures
            result == self.is_nan(),
    {
        (self.bits / FRACTIONS) % 2048 == 2047 && self.bits % FRACTIONS != 0
    }

    pub fn to_i64(self) -> (result: i64)
        ensures
            result == self.signed(),
    {
        if self.nan() {
            return 0;
        }
        proof {
            self.lemma_magnitude_is_nonnegative();
        }
        match self.whole() {
            Some(whole) => {
                if self.bits >= SIGN {
                    if whole >= SIGN {
                        i64::MIN
                    } else {
                        -(whole as i64)
                    }
                } else if whole >= SIGN {
                    i64::MAX
                } else {
                    whole as i64
                }
            },
            None => {
                if self.bits >= SIGN {
                    i64::MIN
                } else {
                    i64::MAX
                }
            },
        }
    }

    pub fn to_u64(self) -> (result: u64)
        ensures
            result == self.unsigned(),
    {
        if self.nan() {
            return 0;
        }
        proof {
            self.lemma_magnitude_is_nonnegative();
        }
        match self.whole() {
            Some(whole) => {
                if self.bits >= SIGN {
                    0
                } else {
                    whole
                }
            },
            None => {
                if self.bits >= SIGN {
                    0
                } else {
                    u64::MAX
                }
            },
        }
    }

    /// Whether the double is finite and not below zero.
    pub fn is_finite_and_at_least_zero(self) -> (result: bool)
        ensures
            result == (self.is_finite() && self.at_least_zero()),
    {
        let exponent: u64 = (self.bits / FRACTIONS) % 2048;
        let fraction: u64 = self.bits % FRACTIONS;
        exponent != 2047 && (self.bits < SIGN || (exponent == 0 && fraction == 0))
    }

    pub fn equal(self, other: Double) -> (result: bool)
        ensures
            result == self.equals(other),
    {
        let self_zero = (self.bits / FRACTIONS) % 2048 == 0 && self.bits % FRACTIONS == 0;
        let other_zero = (other.bits / FRACTIONS) % 2048 == 0 && other.bits % FRACTIONS == 0;
        !self.nan() && !other.nan() && (self.bits == other.bits || (self_zero && other_zero))
    }

    proof fn lemma_magnitude_is_nonnegative(self)
        ensures
            self.magnitude() >= 0,
    {
        let significand = FRACTIONS + self.fraction();
        if 1023 <= self.exponent() <= 1075 {
            let divisor = pow2((1075 - self.exponent()) as nat) as int;
            lemma_pow2_pos((1075 - self.exponent()) as nat);
            assert(significand / divisor >= 0) by (nonlinear_arith)
                requires
                    significand >= 0,
                    divisor > 0,
            ;
        } else if self.exponent() > 1075 {
            let factor = pow2((self.exponent() - 1075) as nat);
            assert(significand * factor >= 0) by (nonlinear_arith)
                requires
                    significand >= 0,
                    factor >= 0,
            ;
        }
    }
}

fn power_of_two(exponent: u64) -> (result: u64)
    requires
        exponent <= 63,
    ensures
        result == pow2(exponent as nat),
        result > 0,
{
    let mut result: u64 = 1;
    let mut i: u64 = 0;
    proof {
        vstd::arithmetic::power2::lemma2_to64();
    }
    while i < exponent
        invariant
            i <= exponent <= 63,
            result == pow2(i as nat),
            result > 0,
        decreases exponent - i,
    {
        proof {
            lemma_pow2_unfold((i + 1) as nat);
            if i < 62 {
                lemma_pow2_strictly_increases((i + 1) as nat, 63);
            }
            vstd::arithmetic::power2::lemma2_to64();
            vstd::arithmetic::power2::lemma2_to64_rest();
        }
        result = result * 2;
        i = i + 1;
    }
    result
}

} // verus!
