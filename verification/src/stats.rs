//! What the bot tells about its state.
//!
//! Amounts are told in decimal digits. Doubles are told as they are stored;
//! the cells of the matrices and the repeated indexes are told as rays, which
//! the caller divides by 10^27.
use vstd::prelude::*;
use crate::address::Address;
use crate::cache::{row_states, Cache, CacheState};
use crate::events::rows_of;
use crate::float::F64;
use crate::matrix::{values, Matrix};
use crate::types::{Index, IndexState, Side};
use crate::uint::{decimal_digits, U256};
use crate::users::{users_entries, CollateralFlags};

verus! {

/// A user as told to the outside.
#[derive(Debug)]
pub struct User {
    pub name: Address,
    pub row: usize,
    pub use_as_collateral: Vec<bool>,
}

impl User {
    pub fn new(name: Address, row: usize, use_as_collateral: &CollateralFlags) -> (r: User)
        ensures
            r.name == name,
            r.row == row,
            r.use_as_collateral@ == use_as_collateral@,
    {
        User { name, row, use_as_collateral: use_as_collateral.values() }
    }

    /// Whether this tells of an entry of the cache.
    pub open spec fn tells(self, s: CacheState) -> bool {
        &&& s.users.contains_key(self.name.spec_key())
        &&& s.users[self.name.spec_key()] == (self.row, self.use_as_collateral@)
    }
}

/// All users as told to the outside.
#[derive(Debug)]
pub struct UserState {
    pub users: Vec<User>,
    pub users_num: usize,
}

/// An index and its rate in decimal digits.
#[derive(Debug)]
pub struct IndexRate {
    pub index: String,
    pub rate: String,
}

impl IndexRate {
    pub fn new(index: String, rate: String) -> (r: IndexRate)
        ensures
            r.index == index,
            r.rate == rate,
    {
        IndexRate { index, rate }
    }
}

/// The whole state as told to the outside.
#[derive(Debug)]
pub struct FullState {
    pub users: Vec<User>,
    pub users_num: usize,
    pub decimals: Vec<F64>,
    pub tokens: Vec<Address>,
    pub price_decimals: Vec<F64>,
    pub reserve: Vec<Vec<String>>,
    pub collateral: Vec<Vec<String>>,
    pub collateral_matrix: Vec<Vec<U256>>,
    pub borrowed: Vec<Vec<String>>,
    pub borrowed_matrix: Vec<Vec<U256>>,
    pub liquidity: Vec<IndexRate>,
    pub liquidity_index: Vec<U256>,
    pub variable_borrow: Vec<IndexRate>,
    pub variable_borrow_index: Vec<U256>,
    pub liquidation_threshold: Vec<F64>,
    pub prices: Vec<F64>,
    pub health_factors: Vec<F64>,
}

/// Whether strings tell numbers, each in decimal digits.
pub open spec fn tell_numbers(strings: Seq<String>, numbers: Seq<nat>) -> bool {
    &&& strings.len() == numbers.len()
    &&& forall|i: int|
        0 <= i < numbers.len() ==> (#[trigger] strings[i])@ == decimal_digits(numbers[i])
}

/// Whether lists of strings tell the balances of rows.
pub open spec fn tell_rows(strings: Seq<Vec<String>>, rows: Seq<crate::cache::RowState>) -> bool {
    &&& strings.len() == rows.len()
    &&& forall|i: int|
        0 <= i < rows.len() ==> tell_numbers((#[trigger] strings[i])@, rows[i].balances)
}

/// Whether indexes and rates in decimal digits tell indexes.
pub open spec fn tell_indexes(told: Seq<IndexRate>, indexes: Seq<IndexState>) -> bool {
    &&& told.len() == indexes.len()
    &&& forall|i: int|
        0 <= i < indexes.len() ==> (#[trigger] told[i]).index@ == decimal_digits(indexes[i].index)
            && told[i].rate@ == decimal_digits(indexes[i].rate)
}

/// Whether a list of users tells all users of the cache, each once.
pub open spec fn tell_users(told: Seq<User>, s: CacheState) -> bool {
    &&& forall|i: int| 0 <= i < told.len() ==> (#[trigger] told[i]).tells(s)
    &&& forall|i: int, j: int|
        0 <= i < j < told.len() ==> #[trigger] told[i].name != #[trigger] told[j].name
    &&& forall|key: (u32, u128)| #[trigger]
        s.users.contains_key(key) ==> exists|i: int|
            0 <= i < told.len() && #[trigger] told[i].name.spec_key() == key
}

/// Whether lists of rays are the rows of a matrix.
pub open spec fn tell_matrix(told: Seq<Vec<U256>>, rows: Seq<Seq<nat>>) -> bool {
    &&& told.len() == rows.len()
    &&& forall|i: int| 0 <= i < rows.len() ==> values((#[trigger] told[i])@) == rows[i]
}

/// Numbers in decimal digits.
pub fn u256_vec_to_string(vals: &Vec<U256>) -> (r: Vec<String>)
    ensures
        tell_numbers(r@, values(vals@)),
{
    let mut r: Vec<String> = Vec::new();
    let mut i: usize = 0;
    while i < vals.len()
        invariant
            i <= vals@.len(),
            r@.len() == i,
            forall|j: int| 0 <= j < i ==> (#[trigger] r@[j])@ == decimal_digits(vals@[j]@),
        decreases vals@.len() - i,
    {
        r.push(vals[i].to_decimal());
        i = i + 1;
    }
    r
}

/// Rows of numbers in decimal digits.
pub fn u256_2d_to_string(matrix: &Vec<Vec<U256>>) -> (r: Vec<Vec<String>>)
    ensures
        r@.len() == matrix@.len(),
        forall|i: int|
            0 <= i < matrix@.len() ==> tell_numbers((#[trigger] r@[i])@, values(matrix@[i]@)),
{
    let mut r: Vec<Vec<String>> = Vec::new();
    let mut i: usize = 0;
    while i < matrix.len()
        invariant
            i <= matrix@.len(),
            r@.len() == i,
            forall|j: int|
                0 <= j < i ==> tell_numbers((#[trigger] r@[j])@, values(matrix@[j]@)),
        decreases matrix@.len() - i,
    {
        r.push(u256_vec_to_string(&matrix[i]));
        i = i + 1;
    }
    r
}

/// A copy of an array of doubles.
fn copy_doubles(v: &Vec<F64>) -> (r: Vec<F64>)
    ensures
        r@ == v@,
{
    let mut r: Vec<F64> = Vec::new();
    let mut i: usize = 0;
    while i < v.len()
        invariant
            i <= v@.len(),
            r@ == v@.take(i as int),
        decreases v@.len() - i,
    {
        r.push(v[i]);
        i = i + 1;
        assert(r@ =~= v@.take(i as int));
    }
    assert(r@ =~= v@);
    r
}

/// A copy of an array of rays.
pub(crate) fn copy_rays(v: &Vec<U256>) -> (r: Vec<U256>)
    ensures
        r@ == v@,
{
    let mut r: Vec<U256> = Vec::new();
    let mut i: usize = 0;
    while i < v.len()
        invariant
            i <= v@.len(),
            r@ == v@.take(i as int),
        decreases v@.len() - i,
    {
        r.push(v[i]);
        i = i + 1;
        assert(r@ =~= v@.take(i as int));
    }
    assert(r@ =~= v@);
    r
}

/// Indexes and rates in decimal digits.
fn tell(indexes: &Vec<Index>) -> (r: Vec<IndexRate>)
    ensures
        tell_indexes(r@, crate::cache::index_states(indexes@)),
{
    let mut r: Vec<IndexRate> = Vec::new();
    let mut i: usize = 0;
    while i < indexes.len()
        invariant
            i <= indexes@.len(),
            r@.len() == i,
            forall|j: int|
                0 <= j < i ==> (#[trigger] r@[j]).index@ == decimal_digits(indexes@[j].index@)
                    && r@[j].rate@ == decimal_digits(indexes@[j].rate@),
        decreases indexes@.len() - i,
    {
        r.push(IndexRate::new(indexes[i].index.to_decimal(), indexes[i].rate.to_decimal()));
        i = i + 1;
    }
    r
}

/// The rows of a matrix.
fn all_rows(matrix: &Matrix) -> (r: Vec<Vec<U256>>)
    ensures
        tell_matrix(r@, matrix@.rows),
{
    let n: usize = matrix.nrows();
    let mut r: Vec<Vec<U256>> = Vec::new();
    let mut i: usize = 0;
    while i < n
        invariant
            i <= n == matrix@.rows.len(),
            r@.len() == i,
            forall|j: int| 0 <= j < i ==> values((#[trigger] r@[j])@) == matrix@.rows[j],
        decreases n - i,
    {
        r.push(matrix.row(i));
        i = i + 1;
    }
    r
}

impl Cache {
    /// A user of a row, if there is one.
    pub fn get_user(&self, row_num: usize) -> (r: Option<User>)
        ensures
            match r {
                Some(user) => user.tells(self@) && user.row == row_num,
                None => forall|key: (u32, u128)| #[trigger]
                    self@.users.contains_key(key) ==> self@.users[key].0 != row_num,
            },
    {
        let entries = users_entries(&self.users);
        let mut i: usize = 0;
        while i < entries.len()
            invariant
                i <= entries@.len(),
                forall|j: int|
                    0 <= j < entries@.len() ==> self@.users.contains_key(#[trigger] entries@[j].0)
                        && entries@[j].1@ == self@.users[entries@[j].0],
                forall|key: (u32, u128)| #[trigger]
                    self@.users.contains_key(key) ==> exists|j: int|
                        0 <= j < entries@.len() && #[trigger] entries@[j].0 == key,
                forall|j: int| 0 <= j < i ==> (#[trigger] entries@[j]).1.row_num != row_num,
            decreases entries@.len() - i,
        {
            if entries[i].1.row_num == row_num {
                return Some(
                    User::new(
                        Address::of_key(entries[i].0),
                        entries[i].1.row_num,
                        &entries[i].1.use_as_collateral,
                    ),
                );
            }
            i = i + 1;
        }
        assert forall|key: (u32, u128)| #[trigger] self@.users.contains_key(
            key,
        ) implies self@.users[key].0 != row_num by {
            let j = choose|j: int| 0 <= j < entries@.len() && #[trigger] entries@[j].0 == key;
            assert(entries@[j].1@ == self@.users[entries@[j].0]);
        }
        None
    }

    /// All users, in an order that is left open, and the number of rows that
    /// were given out.
    pub fn get_users(&self) -> (r: UserState)
        ensures
            tell_users(r.users@, self@),
            r.users_num == self@.users_num,
    {
        let entries = users_entries(&self.users);
        let mut users: Vec<User> = Vec::new();
        let mut i: usize = 0;
        while i < entries.len()
            invariant
                i <= entries@.len(),
                users@.len() == i,
                forall|j: int|
                    0 <= j < entries@.len() ==> self@.users.contains_key(#[trigger] entries@[j].0)
                        && entries@[j].1@ == self@.users[entries@[j].0],
                forall|j: int|
                    0 <= j < i ==> (#[trigger] users@[j]).tells(self@) && users@[j].name.spec_key()
                        == entries@[j].0,
            decreases entries@.len() - i,
        {
            users.push(
                User::new(
                    Address::of_key(entries[i].0),
                    entries[i].1.row_num,
                    &entries[i].1.use_as_collateral,
                ),
            );
            i = i + 1;
        }
        assert forall|a: int, b: int| 0 <= a < b < users@.len() implies #[trigger] users@[a].name
            != #[trigger] users@[b].name by {
            assert(entries@[a].0 != entries@[b].0);
        }
        assert forall|key: (u32, u128)| #[trigger] self@.users.contains_key(key) implies exists|
            i: int,
        | 0 <= i < users@.len() && #[trigger] users@[i].name.spec_key() == key by {
            let j = choose|j: int| 0 <= j < entries@.len() && #[trigger] entries@[j].0 == key;
            assert(users@[j].name.spec_key() == key);
        }
        UserState { users, users_num: self.users_num }
    }

    /// The decimals of the tokens.
    pub fn get_decimals(&self) -> (r: Vec<F64>)
        ensures
            r@ == self@.decimals.0,
    {
        copy_doubles(&self.decimals.values)
    }

    /// The addresses of the tokens.
    pub fn get_tokens(&self) -> (r: Vec<Address>)
        ensures
            r@ == self@.tokens.0,
    {
        let mut r: Vec<Address> = Vec::new();
        let mut i: usize = 0;
        while i < self.tokens.values.len()
            invariant
                i <= self.tokens.values@.len(),
                r@ == self.tokens.values@.take(i as int),
            decreases self.tokens.values@.len() - i,
        {
            r.push(self.tokens.values[i]);
            i = i + 1;
            assert(r@ =~= self.tokens.values@.take(i as int));
        }
        assert(r@ =~= self.tokens.values@);
        r
    }

    /// The price decimals of the tokens.
    pub fn get_price_decimals(&self) -> (r: Vec<F64>)
        ensures
            r@ == self@.price_decimals.0,
    {
        copy_doubles(&self.price_decimals.values)
    }

    /// The balances of a row of a side in decimal digits, if there is such a
    /// row.
    pub fn get_row(&self, side: Side, row_num: usize) -> (r: Option<Vec<String>>)
        ensures
            match r {
                Some(strings) => row_num < rows_of(self@, side).len() && tell_numbers(
                    strings@,
                    rows_of(self@, side)[row_num as int].balances,
                ),
                None => row_num >= rows_of(self@, side).len(),
            },
    {
        let rows = self.side_rows(side);
        if row_num >= rows.len() {
            return None;
        }
        assert(row_states(rows@)[row_num as int] == rows@[row_num as int]@);
        Some(u256_vec_to_string(&rows[row_num].balances))
    }

    /// The balances of all rows of a side in decimal digits.
    pub fn get_all_rows(&self, side: Side) -> (r: Vec<Vec<String>>)
        ensures
            tell_rows(r@, rows_of(self@, side)),
    {
        let rows = self.side_rows(side);
        let mut r: Vec<Vec<String>> = Vec::new();
        let mut i: usize = 0;
        while i < rows.len()
            invariant
                i <= rows@.len(),
                row_states(rows@) == rows_of(self@, side),
                r@.len() == i,
                forall|j: int|
                    0 <= j < i ==> tell_numbers((#[trigger] r@[j])@, rows@[j]@.balances),
            decreases rows@.len() - i,
        {
            r.push(u256_vec_to_string(&rows[i].balances));
            i = i + 1;
        }
        assert forall|j: int| 0 <= j < rows_of(self@, side).len() implies tell_numbers(
            (#[trigger] r@[j])@,
            rows_of(self@, side)[j].balances,
        ) by {
            assert(row_states(rows@)[j] == rows@[j]@);
        }
        r
    }

    /// The reserve of a row.
    pub fn get_reserve(&self, row_num: usize) -> (r: Option<Vec<String>>)
        ensures
            match r {
                Some(strings) => row_num < self@.reserve.len() && tell_numbers(
                    strings@,
                    self@.reserve[row_num as int].balances,
                ),
                None => row_num >= self@.reserve.len(),
            },
    {
        self.get_row(Side::Reserve, row_num)
    }

    /// The reserves of all rows.
    pub fn get_reserve_all(&self) -> (r: Vec<Vec<String>>)
        ensures
            tell_rows(r@, self@.reserve),
    {
        self.get_all_rows(Side::Reserve)
    }

    /// The collateral of a row.
    pub fn get_collateral(&self, row_num: usize) -> (r: Option<Vec<String>>)
        ensures
            match r {
                Some(strings) => row_num < self@.collateral.len() && tell_numbers(
                    strings@,
                    self@.collateral[row_num as int].balances,
                ),
                None => row_num >= self@.collateral.len(),
            },
    {
        self.get_row(Side::Collateral, row_num)
    }

    /// The collateral of all rows.
    pub fn get_collateral_all(&self) -> (r: Vec<Vec<String>>)
        ensures
            tell_rows(r@, self@.collateral),
    {
        self.get_all_rows(Side::Collateral)
    }

    /// The debts of a row.
    pub fn get_borrowed(&self, row_num: usize) -> (r: Option<Vec<String>>)
        ensures
            match r {
                Some(strings) => row_num < self@.borrowed.len() && tell_numbers(
                    strings@,
                    self@.borrowed[row_num as int].balances,
                ),
                None => row_num >= self@.borrowed.len(),
            },
    {
        self.get_row(Side::Borrowed, row_num)
    }

    /// The debts of all rows.
    pub fn get_borrowed_all(&self) -> (r: Vec<Vec<String>>)
        ensures
            tell_rows(r@, self@.borrowed),
    {
        self.get_all_rows(Side::Borrowed)
    }

    /// A row of the collateral matrix, if there is such a row.
    pub fn get_collateral_matrix_row(&self, row_num: usize) -> (r: Option<Vec<U256>>)
        ensures
            match r {
                Some(row) => row_num < self@.collateral_matrix.rows.len() && values(row@)
                    == self@.collateral_matrix.rows[row_num as int],
                None => row_num >= self@.collateral_matrix.rows.len(),
            },
    {
        if row_num < self.collateral_matrix.nrows() {
            Some(self.collateral_matrix.row(row_num))
        } else {
            None
        }
    }

    /// The collateral matrix.
    pub fn get_collateral_matrix(&self) -> (r: Vec<Vec<U256>>)
        ensures
            tell_matrix(r@, self@.collateral_matrix.rows),
    {
        all_rows(&self.collateral_matrix)
    }

    /// A row of the borrowed matrix, if there is such a row.
    pub fn get_borrowed_matrix_row(&self, row_num: usize) -> (r: Option<Vec<U256>>)
        ensures
            match r {
                Some(row) => row_num < self@.borrowed_matrix.rows.len() && values(row@)
                    == self@.borrowed_matrix.rows[row_num as int],
                None => row_num >= self@.borrowed_matrix.rows.len(),
            },
    {
        if row_num < self.borrowed_matrix.nrows() {
            Some(self.borrowed_matrix.row(row_num))
        } else {
            None
        }
    }

    /// The borrowed matrix.
    pub fn get_borrowed_matrix(&self) -> (r: Vec<Vec<U256>>)
        ensures
            tell_matrix(r@, self@.borrowed_matrix.rows),
    {
        all_rows(&self.borrowed_matrix)
    }

    /// The liquidity indexes and rates.
    pub fn get_liquidity(&self) -> (r: Vec<IndexRate>)
        ensures
            tell_indexes(r@, self@.liquidity.0),
    {
        tell(&self.liquidity.values)
    }

    /// The repeated liquidity indexes.
    pub fn get_liquidity_index(&self) -> (r: Vec<U256>)
        ensures
            values(r@) == self@.liquidity_index.0,
    {
        copy_rays(&self.liquidity_index.values)
    }

    /// The variable borrow indexes and rates.
    pub fn get_variable_borrow(&self) -> (r: Vec<IndexRate>)
        ensures
            tell_indexes(r@, self@.variable_borrow.0),
    {
        tell(&self.variable_borrow.values)
    }

    /// The repeated variable borrow indexes.
    pub fn get_variable_borrow_index(&self) -> (r: Vec<U256>)
        ensures
            values(r@) == self@.variable_borrow_index.0,
    {
        copy_rays(&self.variable_borrow_index.values)
    }

    /// The liquidation thresholds.
    pub fn get_liquidation_threshold(&self) -> (r: Vec<F64>)
        ensures
            r@ == self@.liquidation_threshold.0,
    {
        copy_doubles(&self.liquidation_threshold.values)
    }

    /// The prices.
    pub fn get_prices(&self) -> (r: Vec<F64>)
        ensures
            r@ == self@.prices.0,
    {
        copy_doubles(&self.prices.values)
    }

    /// The health factor of a row.
    pub fn get_health_factor(&self, row_num: usize) -> (r: F64)
        requires
            row_num < self@.health_factors.0.len(),
        ensures
            r == self@.health_factors.0[row_num as int],
    {
        self.health_factors.values[row_num]
    }

    /// The health factors of all rows.
    pub fn get_health_factors(&self) -> (r: Vec<F64>)
        ensures
            r@ == self@.health_factors.0,
    {
        copy_doubles(&self.health_factors.values)
    }

    /// The whole state.
    pub fn get_full_state(&self) -> (r: FullState)
        ensures
            tell_users(r.users@, self@),
            r.users_num == self@.users_num,
            r.decimals@ == self@.decimals.0,
            r.tokens@ == self@.tokens.0,
            r.price_decimals@ == self@.price_decimals.0,
            tell_rows(r.reserve@, self@.reserve),
            tell_rows(r.collateral@, self@.collateral),
            tell_matrix(r.collateral_matrix@, self@.collateral_matrix.rows),
            tell_rows(r.borrowed@, self@.borrowed),
            tell_matrix(r.borrowed_matrix@, self@.borrowed_matrix.rows),
            tell_indexes(r.liquidity@, self@.liquidity.0),
            values(r.liquidity_index@) == self@.liquidity_index.0,
            tell_indexes(r.variable_borrow@, self@.variable_borrow.0),
            values(r.variable_borrow_index@) == self@.variable_borrow_index.0,
            r.liquidation_threshold@ == self@.liquidation_threshold.0,
            r.prices@ == self@.prices.0,
            r.health_factors@ == self@.health_factors.0,
    {
        let UserState { users, users_num } = self.get_users();
        FullState {
            users,
            users_num,
            decimals: self.get_decimals(),
            tokens: self.get_tokens(),
            price_decimals: self.get_price_decimals(),
            reserve: self.get_reserve_all(),
            collateral: self.get_collateral_all(),
            collateral_matrix: self.get_collateral_matrix(),
            borrowed: self.get_borrowed_all(),
            borrowed_matrix: self.get_borrowed_matrix(),
            liquidity: self.get_liquidity(),
            liquidity_index: self.get_liquidity_index(),
            variable_borrow: self.get_variable_borrow(),
            variable_borrow_index: self.get_variable_borrow_index(),
            liquidation_threshold: self.get_liquidation_threshold(),
            prices: self.get_prices(),
            health_factors: self.get_health_factors(),
        }
    }
}

} // verus!
