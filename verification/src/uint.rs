//! Fixed-width unsigned integers.
//!
//! [`U256`] is the amount type of the whole library: an array of four 64-bit
//! limbs, least significant first, whose view is the natural number it stands
//! for. [`U512`] holds intermediate products. The arithmetic itself is done by
//! `alloy_primitives`; the items marked `external_body` state what those calls
//! return.
use vstd::prelude::*;

verus! {

/// One more than the largest 64-bit limb.
pub const LIMB: u128 = 0x1_0000_0000_0000_0000;

/// 2^256, the number of values of a [`U256`].
pub open spec fn u256_modulus() -> nat {
    0x1_0000000000000000_0000000000000000_0000000000000000_0000000000000000nat
}

/// 2^512, the number of values of a [`U512`].
pub open spec fn u512_modulus() -> nat {
    u256_modulus() * u256_modulus()
}

/// A 256-bit unsigned integer, as four limbs with the least significant first.
#[derive(Clone, Copy, Debug, PartialEq, Eq)]
pub struct U256 {
    pub limbs: [u64; 4],
}

/// A 512-bit unsigned integer, as eight limbs with the least significant first.
#[derive(Clone, Copy, Debug, PartialEq, Eq)]
pub struct U512 {
    pub limbs: [u64; 8],
}

/// The number that four limbs stand for.
pub open spec fn limbs_value(l0: u64, l1: u64, l2: u64, l3: u64) -> nat {
    (l0 + l1 * 0x1_0000000000000000 + l2 * 0x1_0000000000000000_0000000000000000 + l3
        * 0x1_0000000000000000_0000000000000000_0000000000000000) as nat
}

/// The decimal digit `d`, for `d` below ten.
pub open spec fn digit(d: nat) -> char {
    (48 + d) as char
}

/// `n` in decimal digits, without leading zeros.
pub open spec fn decimal_digits(n: nat) -> Seq<char>
    decreases n,
{
    if n < 10 {
        seq![digit(n)]
    } else {
        decimal_digits(n / 10).push(digit(n % 10))
    }
}

impl View for U256 {
    type V = nat;

    open spec fn view(&self) -> nat {
        limbs_value(self.limbs[0], self.limbs[1], self.limbs[2], self.limbs[3])
    }
}

impl View for U512 {
    type V = nat;

    open spec fn view(&self) -> nat {
        limbs_value(self.limbs[0], self.limbs[1], self.limbs[2], self.limbs[3]) + limbs_value(
            self.limbs[4],
            self.limbs[5],
            self.limbs[6],
            self.limbs[7],
        ) * u256_modulus()
    }
}

/// A [`U256`] stands for a number below 2^256.
pub broadcast proof fn lemma_u256_bound(a: U256)
    ensures
        #[trigger] a@ < u256_modulus(),
{
}

/// A [`U512`] is below 2^256 if its four highest limbs are zero, and only then.
proof fn lemma_high_limbs(a: U512)
    ensures
        a@ < u256_modulus() <==> limbs_value(a.limbs[4], a.limbs[5], a.limbs[6], a.limbs[7]) == 0,
{
    let low = limbs_value(a.limbs[0], a.limbs[1], a.limbs[2], a.limbs[3]);
    let high = limbs_value(a.limbs[4], a.limbs[5], a.limbs[6], a.limbs[7]);
    assert(low + high * u256_modulus() < u256_modulus() <==> high == 0);
}

impl Default for U256 {
    fn default() -> (r: U256)
        ensures
            r@ == 0,
    {
        U256::zero()
    }
}

impl U256 {
    /// The number zero.
    pub fn zero() -> (r: U256)
        ensures
            r@ == 0,
    {
        U256 { limbs: [0, 0, 0, 0] }
    }

    /// The number `value`.
    pub fn from_u128(value: u128) -> (r: U256)
        ensures
            r@ == value,
    {
        U256 { limbs: [(value % LIMB) as u64, (value / LIMB) as u64, 0, 0] }
    }

    /// Whether the number is zero.
    pub fn is_zero(&self) -> (r: bool)
        ensures
            r == (self@ == 0),
    {
        self.limbs[0] == 0 && self.limbs[1] == 0 && self.limbs[2] == 0 && self.limbs[3] == 0
    }

    /// The same number in 512 bits.
    pub fn widen(self) -> (r: U512)
        ensures
            r@ == self@,
    {
        U512 {
            limbs: [self.limbs[0], self.limbs[1], self.limbs[2], self.limbs[3], 0, 0, 0, 0],
        }
    }
}

impl U512 {
    /// The number `value`.
    pub fn from_u128(value: u128) -> (r: U512)
        ensures
            r@ == value,
    {
        U256::from_u128(value).widen()
    }

    /// Whether the number is below 2^256.
    pub fn fits_u256(&self) -> (r: bool)
        ensures
            r == (self@ < u256_modulus()),
    {
        proof {
            lemma_high_limbs(*self);
        }
        self.limbs[4] == 0 && self.limbs[5] == 0 && self.limbs[6] == 0 && self.limbs[7] == 0
    }

    /// The same number in 256 bits.
    pub fn narrow(self) -> (r: U256)
        requires
            self@ < u256_modulus(),
        ensures
            r@ == self@,
    {
        proof {
            lemma_high_limbs(self);
        }
        U256 { limbs: [self.limbs[0], self.limbs[1], self.limbs[2], self.limbs[3]] }
    }
}

// ---- arithmetic done by `alloy_primitives` ----
impl U256 {
    /// `alloy_primitives::U256`'s `+`, which wraps at 2^256.
    #[verifier::external_body]
    pub(crate) fn wrapping_add(self, rhs: U256) -> (r: U256)
        ensures
            r@ == (self@ + rhs@) % u256_modulus(),
    {
        let sum = alloy_primitives::U256::from_limbs(self.limbs)
            + alloy_primitives::U256::from_limbs(rhs.limbs);
        U256 { limbs: sum.into_limbs() }
    }

    /// `alloy_primitives::U256`'s `-`, which wraps at 2^256.
    #[verifier::external_body]
    pub(crate) fn wrapping_sub(self, rhs: U256) -> (r: U256)
        ensures
            r@ == (self@ - rhs@) % (u256_modulus() as int),
    {
        let difference = alloy_primitives::U256::from_limbs(self.limbs)
            - alloy_primitives::U256::from_limbs(rhs.limbs);
        U256 { limbs: difference.into_limbs() }
    }

    /// `alloy_primitives::U256`'s `*`, which wraps at 2^256.
    #[verifier::external_body]
    pub(crate) fn wrapping_mul(self, rhs: U256) -> (r: U256)
        ensures
            r@ == (self@ * rhs@) % u256_modulus(),
    {
        let product = alloy_primitives::U256::from_limbs(self.limbs)
            * alloy_primitives::U256::from_limbs(rhs.limbs);
        U256 { limbs: product.into_limbs() }
    }

    /// `alloy_primitives::U256::abs_diff`: the distance of two numbers.
    #[verifier::external_body]
    pub(crate) fn abs_diff(self, rhs: U256) -> (r: U256)
        ensures
            r@ == (if self@ < rhs@ { rhs@ - self@ } else { self@ - rhs@ }),
    {
        let distance = alloy_primitives::U256::from_limbs(self.limbs).abs_diff(
            alloy_primitives::U256::from_limbs(rhs.limbs),
        );
        U256 { limbs: distance.into_limbs() }
    }

    /// `alloy_primitives::U256`'s `to_string`: the number in decimal digits,
    /// the most significant first, without leading zeros.
    #[verifier::external_body]
    pub(crate) fn to_decimal(&self) -> (r: String)
        ensures
            r@ == decimal_digits(self@),
    {
        alloy_primitives::U256::from_limbs(self.limbs).to_string()
    }
}

impl U512 {
    /// `alloy_primitives::U512`'s `+`, which wraps at 2^512.
    #[verifier::external_body]
    pub(crate) fn wrapping_add(self, rhs: U512) -> (r: U512)
        ensures
            r@ == (self@ + rhs@) % u512_modulus(),
    {
        let sum = alloy_primitives::U512::from_limbs(self.limbs)
            + alloy_primitives::U512::from_limbs(rhs.limbs);
        U512 { limbs: sum.into_limbs() }
    }

    /// `alloy_primitives::U512`'s `*`, which wraps at 2^512.
    #[verifier::external_body]
    pub(crate) fn wrapping_mul(self, rhs: U512) -> (r: U512)
        ensures
            r@ == (self@ * rhs@) % u512_modulus(),
    {
        let product = alloy_primitives::U512::from_limbs(self.limbs)
            * alloy_primitives::U512::from_limbs(rhs.limbs);
        U512 { limbs: product.into_limbs() }
    }

    /// `alloy_primitives::U512`'s `/`, which panics on a zero divisor and
    /// rounds down.
    #[verifier::external_body]
    pub(crate) fn divide(self, rhs: U512) -> (r: U512)
        requires
            rhs@ != 0,
        ensures
            r@ == self@ / rhs@,
    {
        let quotient = alloy_primitives::U512::from_limbs(self.limbs)
            / alloy_primitives::U512::from_limbs(rhs.limbs);
        U512 { limbs: quotient.into_limbs() }
    }
}

} // verus!
