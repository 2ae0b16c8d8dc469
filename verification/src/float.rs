//! Double-precision numbers, carried as bit patterns.
//!
//! The library stores prices, thresholds and health factors without computing
//! with them. What it decides about such a number (whether two are equal,
//! whether one is below one, which integer it truncates to) is decided on the
//! bits of its IEEE 754 encoding.
use vstd::arithmetic::power2::{
    lemma_pow2_adds, lemma_pow2_pos, lemma_pow2_strictly_increases, lemma_pow2_unfold, pow2,
};
use vstd::prelude::*;

verus! {

/// A double-precision number: the bits that `f64::to_bits` gives.
#[derive(Clone, Copy, Debug, PartialEq, Eq, Structural)]
pub struct F64 {
    pub bits: u64,
}

/// 2^63, the weight of the sign bit.
pub const SIGN: u64 = 0x8000_0000_0000_0000;

/// 2^52, the weight of the lowest exponent bit.
pub const HIDDEN: u64 = 0x0010_0000_0000_0000;

/// The bits of positive infinity.
pub const INFINITY: u64 = 0x7ff0_0000_0000_0000;

/// The bits of 1.0.
pub const ONE: u64 = 0x3ff0_0000_0000_0000;

impl F64 {
    /// The bits without the sign.
    pub open spec fn magnitude(self) -> int {
        (self.bits % SIGN) as int
    }

    /// Whether the sign bit is set.
    pub open spec fn negative(self) -> bool {
        self.bits >= SIGN
    }

    /// Whether the pattern encodes no number.
    pub open spec fn nan(self) -> bool {
        self.magnitude() > INFINITY
    }

    /// The biased exponent.
    pub open spec fn exponent(self) -> int {
        self.magnitude() / HIDDEN as int
    }

    /// The significand of a number of at least 2^-1022, as an integer of 53
    /// bits: the number is this times 2^(exponent - 1075).
    pub open spec fn significand(self) -> int {
        HIDDEN + self.magnitude() % HIDDEN as int
    }

    /// The value of the Rust cast `as u128`: truncation toward zero, with
    /// numbers out of range held at the nearest end and no number taken as zero.
    pub open spec fn truncated(self) -> nat {
        if self.nan() || self.negative() || self.exponent() < 1023 {
            0
        } else if self.exponent() < 1075 {
            (self.significand() / pow2((1075 - self.exponent()) as nat) as int) as nat
        } else if self.exponent() < 1151 {
            (self.significand() * pow2((self.exponent() - 1075) as nat)) as nat
        } else {
            u128::MAX as nat
        }
    }

    /// What `==` says of two doubles: no number equals nothing, and the two
    /// zeros are equal.
    pub open spec fn ieee_equal(self, other: F64) -> bool {
        &&& !self.nan()
        &&& !other.nan()
        &&& self.bits == other.bits || (self.magnitude() == 0 && other.magnitude() == 0)
    }

    /// Whether the number is below 1.0.
    pub open spec fn under_one(self) -> bool {
        !self.nan() && (self.negative() || self.bits < ONE)
    }

    /// The number 0.0.
    pub fn zero() -> (r: F64)
        ensures
            r.bits == 0,
    {
        F64 { bits: 0 }
    }

    /// Whether two doubles are equal.
    pub fn equals(self, other: F64) -> (r: bool)
        ensures
            r == self.ieee_equal(other),
    {
        let a: u64 = self.bits % SIGN;
        let b: u64 = other.bits % SIGN;
        a <= INFINITY && b <= INFINITY && (self.bits == other.bits || (a == 0 && b == 0))
    }

    /// Whether the number is below 1.0.
    pub fn below_one(self) -> (r: bool)
        ensures
            r == self.under_one(),
    {
        self.bits % SIGN <= INFINITY && (self.bits >= SIGN || self.bits < ONE)
    }

    /// The number as an integer, as the cast `as u128` gives it.
    pub fn truncate(self) -> (r: u128)
        ensures
            r == self.truncated(),
    {
        let magnitude: u64 = self.bits % SIGN;
        if magnitude > INFINITY || self.bits >= SIGN {
            return 0;
        }
        let exponent: u64 = magnitude / HIDDEN;
        let significand: u64 = HIDDEN + magnitude % HIDDEN;
        if exponent < 1023 {
            0
        } else if exponent < 1075 {
            let divisor: u128 = power_of_two(1075 - exponent);
            significand as u128 / divisor
        } else if exponent < 1151 {
            let factor: u128 = power_of_two(exponent - 1075);
            proof {
                lemma_pow2_bound((exponent - 1075) as nat);
                assert(significand * factor <= 0x1f_ffff_ffff_ffff * 0x800_0000_0000_0000_0000)
                    by (nonlinear_arith)
                    requires
                        significand <= 0x1f_ffff_ffff_ffff,
                        factor <= 0x800_0000_0000_0000_0000,
                ;
            }
            significand as u128 * factor
        } else {
            u128::MAX
        }
    }
}

/// Powers of two up to the 75th, by value.
proof fn lemma_pow2_bound(k: nat)
    requires
        k <= 75,
    ensures
        0 < pow2(k) <= 0x800_0000_0000_0000_0000,
{
    lemma_pow2_pos(k);
    vstd::arithmetic::power2::lemma2_to64();
    vstd::arithmetic::power2::lemma2_to64_rest();
    lemma_pow2_adds(64, 11);
    assert(pow2(64) * pow2(11) == 0x800_0000_0000_0000_0000) by (nonlinear_arith)
        requires
            pow2(64) == 0x1_0000_0000_0000_0000,
            pow2(11) == 2048,
    ;
    if k < 75 {
        lemma_pow2_strictly_increases(k, 75);
    }
}

/// 2^k, for a `k` of at most 75.
fn power_of_two(k: u64) -> (r: u128)
    requires
        k <= 75,
    ensures
        r == pow2(k as nat),
        r > 0,
{
    let mut r: u128 = 1;
    let mut i: u64 = 0;
    proof {
        vstd::arithmetic::power2::lemma2_to64();
    }
    while i < k
        invariant
            i <= k <= 75,
            r == pow2(i as nat),
        decreases k - i,
    {
        proof {
            lemma_pow2_bound((i + 1) as nat);
            lemma_pow2_unfold((i + 1) as nat);
        }
        r = r * 2;
        i = i + 1;
    }
    proof {
        lemma_pow2_pos(k as nat);
    }
    r
}

} // verus!
