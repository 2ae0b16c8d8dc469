//! Health factors: what they are computed from and where they are kept.
//!
//! The health factor of a user is a quotient of doubles and is computed by the
//! caller. The library gives the amounts it is computed from, stores the
//! result and finds the users whose factor is below one.
use vstd::prelude::*;
use crate::address::Address;
use crate::cache::{zero_doubles, Array, Cache, CacheState};
use crate::float::F64;
use crate::matrix::values;
use crate::ray::ray_product;
use crate::types::{Error, Index, IndexState, Side, TimeStamp};
use crate::uint::{u256_modulus, U256};
use crate::users::users_get;

verus! {

/// A user's row and current amounts, one per token.
#[derive(Debug)]
pub struct HfAmounts {
    pub row_num: usize,
    pub collateral: Vec<U256>,
    pub borrowed: Vec<U256>,
}

/// The current amounts of scaled balances at the given indexes.
pub open spec fn current_amounts(balances: Seq<nat>, indexes: Seq<IndexState>) -> Seq<nat> {
    Seq::new(balances.len(), |i: int| ray_product(balances[i], indexes[i].index))
}

/// Whether an amount is a balance times an index, to within half a unit.
pub open spec fn times_index(amount: nat, balance: nat, index: nat) -> bool {
    let one: nat = 1_000_000_000_000_000_000_000_000_000;
    &&& 2 * (amount * one - balance * index) <= one
    &&& 2 * (balance * index - amount * one) < one
}

/// Whether every balance has an index and a current amount of 256 bits.
pub open spec fn currentable(balances: Seq<nat>, indexes: Seq<IndexState>) -> bool {
    &&& balances.len() <= indexes.len()
    &&& forall|i: int|
        0 <= i < balances.len() ==> ray_product(#[trigger] balances[i], indexes[i].index)
            < u256_modulus()
}

/// The error that stands in the way of a user's amounts, if there is one.
pub open spec fn hf_error(s: CacheState, user: Address) -> Option<Error> {
    let key = user.spec_key();
    if !s.users.contains_key(key) {
        Some(Error::UserNotFound(user))
    } else if s.users[key].0 >= s.collateral.len() {
        Some(Error::RowNotFound(Side::Collateral, s.users[key].0))
    } else if s.users[key].0 >= s.borrowed.len() {
        Some(Error::RowNotFound(Side::Borrowed, s.users[key].0))
    } else {
        None
    }
}

/// Whether a user's amounts can be computed, as far as the rows are there.
pub open spec fn hf_computable(s: CacheState, user: Address) -> bool {
    let key = user.spec_key();
    s.users.contains_key(key) && s.users[key].0 < s.collateral.len() ==> {
        &&& currentable(s.collateral[s.users[key].0 as int].balances, s.liquidity.0)
        &&& s.users[key].0 < s.borrowed.len() ==> currentable(
            s.borrowed[s.users[key].0 as int].balances,
            s.variable_borrow.0,
        )
    }
}

/// The health factors after one of them was stored: those that are missing
/// before it become 0.0.
pub open spec fn hf_stored(factors: Seq<F64>, row: int, hf: F64) -> Seq<F64> {
    if row < factors.len() {
        factors.update(row, hf)
    } else {
        (factors + zero_doubles((row + 1 - factors.len()) as nat)).update(row, hf)
    }
}

/// The rows whose health factor is below one, among the first `k`, in order.
pub open spec fn unhealthy(factors: Seq<F64>, k: nat) -> Seq<usize>
    decreases k,
{
    if k == 0 {
        Seq::empty()
    } else if factors[k - 1].under_one() {
        unhealthy(factors, (k - 1) as nat).push((k - 1) as usize)
    } else {
        unhealthy(factors, (k - 1) as nat)
    }
}

/// The current amounts of scaled balances.
fn amounts(balances: &Vec<U256>, indexes: &Vec<Index>) -> (r: Vec<U256>)
    requires
        currentable(values(balances@), crate::cache::index_states(indexes@)),
    ensures
        values(r@) == current_amounts(values(balances@), crate::cache::index_states(indexes@)),
{
    let mut r: Vec<U256> = Vec::new();
    let ghost b = values(balances@);
    let ghost x = crate::cache::index_states(indexes@);
    let mut i: usize = 0;
    while i < balances.len()
        invariant
            i <= balances@.len(),
            b == values(balances@),
            x == crate::cache::index_states(indexes@),
            currentable(b, x),
            r@.len() == i,
            forall|j: int| 0 <= j < i ==> #[trigger] r@[j]@ == ray_product(b[j], x[j].index),
        decreases balances@.len() - i,
    {
        assert(ray_product(b[i as int], x[i as int].index) < u256_modulus());
        r.push(balances[i].to_current(indexes[i].index));
        i = i + 1;
    }
    assert(values(r@) =~= current_amounts(b, x));
    r
}

/// Whether every balance has an index and a current amount.
fn has_amounts(balances: &Vec<U256>, indexes: &Vec<Index>) -> (r: bool)
    ensures
        r == currentable(values(balances@), crate::cache::index_states(indexes@)),
{
    if balances.len() > indexes.len() {
        return false;
    }
    let ghost b = values(balances@);
    let ghost x = crate::cache::index_states(indexes@);
    let mut i: usize = 0;
    while i < balances.len()
        invariant
            i <= balances@.len() <= indexes@.len(),
            b == values(balances@),
            x == crate::cache::index_states(indexes@),
            forall|j: int|
                0 <= j < i ==> ray_product(#[trigger] b[j], x[j].index) < u256_modulus(),
        decreases balances@.len() - i,
    {
        if !balances[i].ray_mul_fits(indexes[i].index) {
            assert(!(ray_product(b[i as int], x[i as int].index) < u256_modulus()));
            return false;
        }
        i = i + 1;
    }
    true
}

impl Cache {
    /// The current amounts that a user's health factor is computed from.
    pub fn hf_amounts(&self, user: &Address) -> (r: Result<HfAmounts, Error>)
        requires
            hf_computable(self@, *user),
        ensures
            match r {
                Ok(a) => {
                    &&& hf_error(self@, *user) is None
                    &&& a.row_num == self@.users[user.spec_key()].0
                    &&& values(a.collateral@) == current_amounts(
                        self@.collateral[a.row_num as int].balances,
                        self@.liquidity.0,
                    )
                    &&& values(a.borrowed@) == current_amounts(
                        self@.borrowed[a.row_num as int].balances,
                        self@.variable_borrow.0,
                    )
                    &&& forall|c: int|
                        0 <= c < a.collateral@.len() ==> times_index(
                            (#[trigger] a.collateral@[c])@,
                            self@.collateral[a.row_num as int].balances[c],
                            self@.liquidity.0[c].index,
                        )
                    &&& forall|c: int|
                        0 <= c < a.borrowed@.len() ==> times_index(
                            (#[trigger] a.borrowed@[c])@,
                            self@.borrowed[a.row_num as int].balances[c],
                            self@.variable_borrow.0[c].index,
                        )
                },
                Err(e) => hf_error(self@, *user) == Some(e),
            },
    {
        let row_num: usize = match users_get(&self.users, user.key()) {
            Some(settings) => settings.row_num,
            None => return Err(Error::UserNotFound(*user)),
        };
        if row_num >= self.collateral.len() {
            return Err(Error::RowNotFound(Side::Collateral, row_num));
        }
        assert(self@.collateral[row_num as int] == self.collateral@[row_num as int]@);
        let collateral: Vec<U256> = amounts(
            &self.collateral[row_num].balances,
            &self.liquidity.values,
        );
        if row_num >= self.borrowed.len() {
            return Err(Error::RowNotFound(Side::Borrowed, row_num));
        }
        assert(self@.borrowed[row_num as int] == self.borrowed@[row_num as int]@);
        let borrowed: Vec<U256> = amounts(
            &self.borrowed[row_num].balances,
            &self.variable_borrow.values,
        );
        proof {
            assert forall|c: int| 0 <= c < collateral@.len() implies times_index(
                (#[trigger] collateral@[c])@,
                self@.collateral[row_num as int].balances[c],
                self@.liquidity.0[c].index,
            ) by {
                assert(values(collateral@).len() == collateral@.len());
                assert(values(collateral@)[c] == collateral@[c]@);
                crate::laws::law_ray_product_rounds(
                    self@.collateral[row_num as int].balances[c],
                    self@.liquidity.0[c].index,
                );
            }
            assert forall|c: int| 0 <= c < borrowed@.len() implies times_index(
                (#[trigger] borrowed@[c])@,
                self@.borrowed[row_num as int].balances[c],
                self@.variable_borrow.0[c].index,
            ) by {
                assert(values(borrowed@).len() == borrowed@.len());
                assert(values(borrowed@)[c] == borrowed@[c]@);
                crate::laws::law_ray_product_rounds(
                    self@.borrowed[row_num as int].balances[c],
                    self@.variable_borrow.0[c].index,
                );
            }
        }
        Ok(HfAmounts { row_num, collateral, borrowed })
    }

    /// Whether [`Cache::hf_amounts`] can compute a user's amounts.
    pub fn admits_hf_amounts(&self, user: &Address) -> (r: bool)
        ensures
            r == hf_computable(self@, *user),
    {
        let row_num: usize = match users_get(&self.users, user.key()) {
            Some(settings) => settings.row_num,
            None => return true,
        };
        if row_num >= self.collateral.len() {
            return true;
        }
        assert(self@.collateral[row_num as int] == self.collateral@[row_num as int]@);
        if !has_amounts(&self.collateral[row_num].balances, &self.liquidity.values) {
            return false;
        }
        if row_num >= self.borrowed.len() {
            return true;
        }
        assert(self@.borrowed[row_num as int] == self.borrowed@[row_num as int]@);
        has_amounts(&self.borrowed[row_num].balances, &self.variable_borrow.values)
    }

    /// Stores the health factor of one row.
    pub fn store_hf(&mut self, row_num: usize, hf: F64, now: TimeStamp)
        requires
            old(self)@.health_factors.0.len() > 0,
            row_num < usize::MAX,
        ensures
            final(self)@ == (CacheState {
                health_factors: (hf_stored(old(self)@.health_factors.0, row_num as int, hf), now),
                ..old(self)@
            }),
    {
        let ghost before = self.health_factors.values@;
        while self.health_factors.values.len() <= row_num
            invariant
                row_num < usize::MAX,
                self.health_factors.values@.len() >= before.len(),
                self.health_factors.values@ == before + zero_doubles(
                    (self.health_factors.values@.len() - before.len()) as nat,
                ),
                self.health_factors.values@.len() == before.len()
                    || self.health_factors.values@.len() <= row_num + 1,
                self@ == (CacheState { health_factors: self.health_factors@, ..old(self)@ }),
            decreases row_num + 1 - self.health_factors.values@.len(),
        {
            let ghost earlier = self.health_factors.values@;
            self.health_factors.values.push(F64::zero());
            assert(self.health_factors.values@ =~= before + zero_doubles(
                (earlier.len() + 1 - before.len()) as nat,
            ));
        }
        self.health_factors.values.set(row_num, hf);
        self.health_factors.last_modified = now;
        assert(self.health_factors.values@ =~= hf_stored(before, row_num as int, hf));
    }

    /// Stores the health factors of all rows.
    pub fn store_all_hf(&mut self, factors: Vec<F64>, now: TimeStamp)
        ensures
            final(self)@ == (CacheState { health_factors: (factors@, now), ..old(self)@ }),
    {
        self.health_factors = Array { values: factors, last_modified: now };
    }

    /// The rows whose health factor is below one, from the first to the last.
    pub fn liquidation_lookup(&self) -> (r: Vec<usize>)
        ensures
            r@ == unhealthy(self@.health_factors.0, self@.health_factors.0.len()),
    {
        let mut r: Vec<usize> = Vec::new();
        let mut i: usize = 0;
        while i < self.health_factors.values.len()
            invariant
                i <= self.health_factors.values@.len(),
                r@ == unhealthy(self.health_factors.values@, i as nat),
            decreases self.health_factors.values@.len() - i,
        {
            if self.health_factors.values[i].below_one() {
                r.push(i);
            }
            i = i + 1;
        }
        r
    }
}

} // verus!
