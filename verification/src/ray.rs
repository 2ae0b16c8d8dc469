//! Fixed-point arithmetic with 27 decimals.
//!
//! A *ray* is a [`U256`] that stands for itself divided by 10^27. Balances are
//! kept *scaled*: divided by an index that grows with the interest, so that a
//! balance at rest need not change. [`U256::to_scaled`] divides by an index and
//! [`U256::to_current`] multiplies by it; both round half up.
use vstd::prelude::*;
use crate::float::F64;
use crate::uint::{u256_modulus, u512_modulus, U256, U512};

verus! {

/// 1.0 as a ray.
pub const RAY: u128 = 1_000_000_000_000_000_000_000_000_000;

/// Half of [`RAY`].
const HALF_RAY: u128 = 500_000_000_000_000_000_000_000_000;

/// The product of two rays, rounded half up.
pub open spec fn ray_product(a: nat, b: nat) -> nat {
    ((a * b + RAY as nat / 2) / RAY as nat) as nat
}

/// The quotient of two rays, rounded half up; `b` is not zero.
pub open spec fn ray_quotient(a: nat, b: nat) -> nat {
    ((a * RAY as nat + b / 2) / b) as nat
}

/// An amount in a token's smallest unit, as a ray. `decimals` is the number of
/// units in one token; the product wraps at 2^256.
pub open spec fn ray_of_units(amount: nat, decimals: F64) -> nat {
    (amount * (RAY as nat / decimals.truncated())) % u256_modulus()
}

/// The scaled ray of an amount in a token's smallest unit, at an index.
pub open spec fn scaled_units(amount: nat, decimals: F64, index: nat) -> nat {
    ray_quotient(ray_of_units(amount, decimals), index)
}

/// Whether an amount in a token's smallest unit has a scaled ray of 256 bits:
/// the number of units per token and the index are not zero, and the quotient
/// is not too large.
pub open spec fn scalable(amount: nat, decimals: F64, index: nat) -> bool {
    &&& decimals.truncated() != 0
    &&& index != 0
    &&& scaled_units(amount, decimals, index) < u256_modulus()
}

proof fn lemma_product_bound(a: nat, b: nat)
    requires
        a < u256_modulus(),
        b < u256_modulus(),
    ensures
        a * b + u256_modulus() < u512_modulus(),
        a * b < u512_modulus(),
{
    let m = u256_modulus() as int;
    assert(a * b <= (m - 1) * (m - 1)) by (nonlinear_arith)
        requires
            0 <= a <= m - 1,
            0 <= b <= m - 1,
    ;
    assert((m - 1) * (m - 1) + m < m * m) by (nonlinear_arith)
        requires
            m >= 2,
    ;
}

/// The product of two rays before it is cut to 256 bits.
fn wide_ray_product(a: U256, b: U256) -> (r: U512)
    ensures
        r@ == ray_product(a@, b@),
{
    let product: U512 = a.widen().wrapping_mul(b.widen());
    proof {
        lemma_product_bound(a@, b@);
        vstd::arithmetic::div_mod::lemma_small_mod(a@ * b@, u512_modulus());
        vstd::arithmetic::div_mod::lemma_small_mod(a@ * b@ + HALF_RAY as nat, u512_modulus());
    }
    product.wrapping_add(U512::from_u128(HALF_RAY)).divide(U512::from_u128(RAY))
}

/// The quotient of two rays before it is cut to 256 bits.
fn wide_ray_quotient(a: U256, b: U256) -> (r: U512)
    requires
        b@ != 0,
    ensures
        r@ == ray_quotient(a@, b@),
{
    let divisor: U512 = b.widen();
    let half: U512 = divisor.divide(U512::from_u128(2));
    let product: U512 = a.widen().wrapping_mul(U512::from_u128(RAY));
    proof {
        lemma_product_bound(a@, RAY as nat);
        vstd::arithmetic::div_mod::lemma_small_mod(a@ * RAY as nat, u512_modulus());
        vstd::arithmetic::div_mod::lemma_small_mod(a@ * RAY as nat + b@ / 2, u512_modulus());
    }
    product.wrapping_add(half).divide(divisor)
}

impl U256 {
    /// The product of two rays, rounded half up.
    pub fn ray_mul(self, b: U256) -> (r: U256)
        requires
            ray_product(self@, b@) < u256_modulus(),
        ensures
            r@ == ray_product(self@, b@),
    {
        wide_ray_product(self, b).narrow()
    }

    /// Whether [`U256::ray_mul`] has a result of 256 bits.
    pub fn ray_mul_fits(self, b: U256) -> (r: bool)
        ensures
            r == (ray_product(self@, b@) < u256_modulus()),
    {
        wide_ray_product(self, b).fits_u256()
    }

    /// The quotient of two rays, rounded half up.
    pub fn ray_div(self, b: U256) -> (r: U256)
        requires
            b@ != 0,
            ray_quotient(self@, b@) < u256_modulus(),
        ensures
            r@ == ray_quotient(self@, b@),
    {
        wide_ray_quotient(self, b).narrow()
    }

    /// Whether [`U256::ray_div`] is defined and has a result of 256 bits.
    pub fn ray_div_fits(self, b: U256) -> (r: bool)
        ensures
            r == (b@ != 0 && ray_quotient(self@, b@) < u256_modulus()),
    {
        !b.is_zero() && wide_ray_quotient(self, b).fits_u256()
    }

    /// An amount in a token's smallest unit, as a ray. `decimals` is the
    /// number of units in one token.
    pub fn to_ray(self, decimals: F64) -> (r: U256)
        requires
            decimals.truncated() != 0,
        ensures
            r@ == ray_of_units(self@, decimals),
    {
        self.wrapping_mul(U256::from_u128(RAY / decimals.truncate()))
    }

    /// A current amount at an index, as a scaled amount.
    pub fn to_scaled(self, index: U256) -> (r: U256)
        requires
            index@ != 0,
            ray_quotient(self@, index@) < u256_modulus(),
        ensures
            r@ == ray_quotient(self@, index@),
    {
        self.ray_div(index)
    }

    /// A scaled amount at an index, as a current amount.
    pub fn to_current(self, index: U256) -> (r: U256)
        requires
            ray_product(self@, index@) < u256_modulus(),
        ensures
            r@ == ray_product(self@, index@),
    {
        self.ray_mul(index)
    }

    /// Whether an amount in a token's smallest unit can be turned into a
    /// scaled ray.
    pub fn scales(self, decimals: F64, index: U256) -> (r: bool)
        ensures
            r == scalable(self@, decimals, index@),
    {
        decimals.truncate() != 0 && self.to_ray(decimals).ray_div_fits(index)
    }

    /// The scaled ray of an amount in a token's smallest unit.
    pub fn units_to_scaled(self, decimals: F64, index: U256) -> (r: U256)
        requires
            scalable(self@, decimals, index@),
        ensures
            r@ == scaled_units(self@, decimals, index@),
    {
        self.to_ray(decimals).to_scaled(index)
    }
}

} // verus!
