//! Probes: a window of the cache next to what the pool itself reports.
//!
//! A probe takes the rows of a window of users, at a place chosen at random,
//! and the differences between them and the balances and indexes that the pool
//! reports for the same users and tokens.
use itertools::Itertools;
use rand::Rng;
use vstd::prelude::*;
use crate::address::Address;
use crate::cache::{
    index_states, row_states, zero_balances, zeros, Cache, CacheState, Row, RowState,
};
use crate::float::F64;
use crate::matrix::{lemma_values_update, values, Matrix};
use crate::ray::{scalable, scaled_units};
use crate::stats::copy_rays;
use crate::types::{Index, IndexState, ReserveData, UserReserveData};
use crate::uint::U256;
use crate::users::users_entries;

verus! {

broadcast use lemma_values_update;

/// `Rng::random_range` of the thread's generator: some number below `bound`.
/// It panics if there is none.
#[verifier::external_body]
fn random_below(bound: usize) -> (r: usize)
    requires
        bound > 0,
    ensures
        r < bound,
{
    rand::rng().random_range(0..bound)
}

/// `Itertools::sorted_by_key` on the row: the same pairs, with the rows in
/// ascending order and pairs of one row in the order they had.
#[verifier::external_body]
fn sorted_by_row(users: Vec<(usize, Address)>) -> (r: Vec<(usize, Address)>)
    ensures
        r@.to_multiset() == users@.to_multiset(),
        forall|i: int, j: int| 0 <= i < j < r@.len() ==> (#[trigger] r@[i]).0 <= (#[trigger] r@[j]).0,
        forall|row: usize|
            #![trigger of_row(r@, row)]
            of_row(r@, row) == of_row(users@, row),
{
    users.into_iter().sorted_by_key(|user| user.0).collect()
}

/// The pairs of one row, in their order.
pub open spec fn of_row(users: Seq<(usize, Address)>, row: usize) -> Seq<(usize, Address)> {
    users.filter(|user: (usize, Address)| user.0 == row)
}

/// The start and the size of a window over `len` rows, given the start that
/// was picked: the window covers all rows if there are no more than it asks
/// for.
pub open spec fn window(len: usize, size: usize, pick: usize) -> (usize, usize) {
    if len > size {
        (pick, size)
    } else {
        (0, len)
    }
}

/// The start and the size of a window over `len` rows, given the start that
/// was picked.
pub fn probe_window(len: usize, size: usize, pick: usize) -> (r: (usize, usize))
    ensures
        r == window(len, size, pick),
{
    if len > size {
        (pick, size)
    } else {
        (0, len)
    }
}

/// The distance of two numbers.
pub open spec fn distance(a: nat, b: nat) -> nat {
    if a < b {
        (b - a) as nat
    } else {
        (a - b) as nat
    }
}

/// The distances of two lists of numbers, as far as both go.
pub open spec fn distances(a: Seq<nat>, b: Seq<nat>) -> Seq<nat> {
    Seq::new(
        if a.len() < b.len() {
            a.len()
        } else {
            b.len()
        },
        |i: int| distance(a[i], b[i]),
    )
}

/// The numbers of lists of rays.
pub open spec fn values_2d(rows: Seq<Vec<U256>>) -> Seq<Seq<nat>> {
    Seq::new(rows.len(), |i: int| values(rows[i]@))
}

/// The distances of two lists of rows, as far as both go.
pub open spec fn distances_2d(a: Seq<Seq<nat>>, b: Seq<Seq<nat>>) -> Seq<Seq<nat>> {
    Seq::new(
        if a.len() < b.len() {
            a.len()
        } else {
            b.len()
        },
        |i: int| distances(a[i], b[i]),
    )
}

/// The distances of two lists of rays, as far as both go.
pub fn difference(a: &Vec<U256>, b: &Vec<U256>) -> (r: Vec<U256>)
    ensures
        values(r@) == distances(values(a@), values(b@)),
{
    let mut r: Vec<U256> = Vec::new();
    let mut i: usize = 0;
    while i < a.len() && i < b.len()
        invariant
            i <= a@.len(),
            i <= b@.len(),
            r@.len() == i,
            forall|j: int| 0 <= j < i ==> #[trigger] r@[j]@ == distance(a@[j]@, b@[j]@),
        decreases a@.len() - i,
    {
        r.push(a[i].abs_diff(b[i]));
        i = i + 1;
    }
    assert(values(r@) =~= distances(values(a@), values(b@)));
    r
}

/// The distances of two lists of rows, as far as both go.
pub fn difference_2d(a: &Vec<Vec<U256>>, b: &Vec<Vec<U256>>) -> (r: Vec<Vec<U256>>)
    ensures
        values_2d(r@) == distances_2d(values_2d(a@), values_2d(b@)),
{
    let mut r: Vec<Vec<U256>> = Vec::new();
    let mut i: usize = 0;
    while i < a.len() && i < b.len()
        invariant
            i <= a@.len(),
            i <= b@.len(),
            r@.len() == i,
            forall|j: int|
                0 <= j < i ==> values((#[trigger] r@[j])@) == distances(
                    values(a@[j]@),
                    values(b@[j]@),
                ),
        decreases a@.len() - i,
    {
        r.push(difference(&a[i], &b[i]));
        i = i + 1;
    }
    assert(values_2d(r@) =~= distances_2d(values_2d(a@), values_2d(b@)));
    r
}

/// A window of the cache.
#[derive(Debug)]
pub struct Probe {
    pub hf: Vec<F64>,
    pub users: Vec<Address>,
    pub tokens: Vec<Address>,
    pub decimals: Vec<F64>,
    pub price_decimals: Vec<F64>,
    pub liquidation_threshold: Vec<F64>,
    pub liquidity: Vec<U256>,
    pub liquidity_index: Vec<U256>,
    pub variable_borrow: Vec<U256>,
    pub variable_borrow_index: Vec<U256>,
    pub prices: Vec<F64>,
    pub reserve_scaled: Vec<Vec<U256>>,
    pub collateral_scaled: Vec<Vec<U256>>,
    pub collateral: Vec<Vec<U256>>,
    pub borrowed_scaled: Vec<Vec<U256>>,
    pub borrowed: Vec<Vec<U256>>,
}

/// Whether a user has one of the rows of a window.
pub open spec fn in_window(s: CacheState, key: (u32, u128), start: usize, size: usize) -> bool {
    s.users.contains_key(key) && start <= s.users[key].0 < start + size
}

/// Whether a list names the users of a window, each once, in the order of
/// their rows.
pub open spec fn names_window(
    users: Seq<Address>,
    s: CacheState,
    start: usize,
    size: usize,
) -> bool {
    &&& forall|i: int|
        0 <= i < users.len() ==> in_window(s, (#[trigger] users[i]).spec_key(), start, size)
    &&& forall|i: int, j: int| 0 <= i < j < users.len() ==> #[trigger] users[i] != #[trigger] users[j]
    &&& forall|key: (u32, u128)| #[trigger]
        in_window(s, key, start, size) ==> exists|i: int|
            0 <= i < users.len() && #[trigger] users[i].spec_key() == key
    &&& forall|i: int, j: int|
        0 <= i < j < users.len() ==> s.users[(#[trigger] users[i]).spec_key()].0
            <= s.users[(#[trigger] users[j]).spec_key()].0
}

/// Whether all rows of a window exist: health factors, balances and matrices.
pub open spec fn window_held(s: CacheState, start: usize, size: usize) -> bool {
    &&& start + size <= s.health_factors.0.len()
    &&& start + size <= s.reserve.len()
    &&& start + size <= s.collateral.len()
    &&& start + size <= s.borrowed.len()
    &&& start + size <= s.collateral_matrix.rows.len()
    &&& start + size <= s.borrowed_matrix.rows.len()
}

/// The indexes alone.
pub open spec fn bare_indexes(indexes: Seq<IndexState>) -> Seq<nat> {
    Seq::new(indexes.len(), |i: int| indexes[i].index)
}

/// The balances alone, of the rows of a window.
pub open spec fn window_balances(rows: Seq<RowState>, start: usize, size: usize) -> Seq<Seq<nat>> {
    Seq::new(size as nat, |i: int| rows[start + i].balances)
}

/// The indexes alone.
fn indexes_alone(indexes: &Vec<Index>) -> (r: Vec<U256>)
    ensures
        values(r@) == bare_indexes(index_states(indexes@)),
{
    let mut r: Vec<U256> = Vec::new();
    let mut i: usize = 0;
    while i < indexes.len()
        invariant
            i <= indexes@.len(),
            r@.len() == i,
            forall|j: int| 0 <= j < i ==> #[trigger] r@[j] == indexes@[j].index,
        decreases indexes@.len() - i,
    {
        r.push(indexes[i].index);
        i = i + 1;
    }
    assert(values(r@) =~= bare_indexes(index_states(indexes@)));
    r
}

/// The balances alone, of the rows of a window.
fn balances_alone(rows: &Vec<Row>, start: usize, size: usize) -> (r: Vec<Vec<U256>>)
    requires
        start + size <= rows@.len(),
    ensures
        values_2d(r@) == window_balances(row_states(rows@), start, size),
{
    let count: usize = rows.len();
    let mut r: Vec<Vec<U256>> = Vec::new();
    let mut i: usize = 0;
    while i < size
        invariant
            i <= size,
            start + size <= rows@.len() == count,
            r@.len() == i,
            forall|j: int|
                0 <= j < i ==> (#[trigger] r@[j])@ == rows@[start + j].balances@,
        decreases size - i,
    {
        r.push(copy_rays(&rows[start + i].balances));
        i = i + 1;
    }
    assert(values_2d(r@) =~= window_balances(row_states(rows@), start, size)) by {
        assert forall|j: int| 0 <= j < size implies values_2d(r@)[j] == window_balances(
            row_states(rows@),
            start,
            size,
        )[j] by {
            assert(r@[j]@ == rows@[start + j].balances@);
        }
    }
    r
}

/// The rows of a window of a matrix.
fn matrix_window(matrix: &Matrix, start: usize, size: usize) -> (r: Vec<Vec<U256>>)
    requires
        start + size <= matrix@.rows.len(),
    ensures
        values_2d(r@) == matrix@.rows.subrange(start as int, start + size),
{
    let count: usize = matrix.nrows();
    let mut r: Vec<Vec<U256>> = Vec::new();
    let mut i: usize = 0;
    while i < size
        invariant
            i <= size,
            start + size <= matrix@.rows.len() == count,
            r@.len() == i,
            forall|j: int|
                0 <= j < i ==> values((#[trigger] r@[j])@) == matrix@.rows[start + j],
        decreases size - i,
    {
        r.push(matrix.row(start + i));
        i = i + 1;
    }
    assert(values_2d(r@) =~= matrix@.rows.subrange(start as int, start + size));
    r
}

/// A part of a list of doubles.
fn doubles_window(v: &Vec<F64>, start: usize, size: usize) -> (r: Vec<F64>)
    requires
        start + size <= v@.len(),
    ensures
        r@ == v@.subrange(start as int, start + size),
{
    let count: usize = v.len();
    let mut r: Vec<F64> = Vec::new();
    let mut i: usize = 0;
    while i < size
        invariant
            i <= size,
            start + size <= v@.len() == count,
            r@.len() == i,
            forall|j: int| 0 <= j < i ==> #[trigger] r@[j] == v@[start + j],
        decreases size - i,
    {
        r.push(v[start + i]);
        i = i + 1;
    }
    assert(r@ =~= v@.subrange(start as int, start + size));
    r
}

impl Cache {
    /// The start and the size of a window of the wanted size over all health
    /// factors, at a place chosen at random.
    pub fn random_window(&self, size: usize) -> (r: (usize, usize))
        ensures
            self@.health_factors.0.len() > size ==> r.1 == size && r.0 + size
                < self@.health_factors.0.len(),
            self@.health_factors.0.len() <= size ==> r == (0usize, self@.health_factors.0.len() as usize),
    {
        let len: usize = self.health_factors.values.len();
        let pick: usize = if len > size {
            random_below(len - size)
        } else {
            0
        };
        probe_window(len, size, pick)
    }

    /// The users of a window, in the order of their rows.
    pub fn window_users(&self, start: usize, size: usize) -> (r: Vec<Address>)
        requires
            start + size <= usize::MAX,
        ensures
            names_window(r@, self@, start, size),
    {
        let entries = users_entries(&self.users);
        let mut picked: Vec<(usize, Address)> = Vec::new();
        let ghost mut origin: Seq<int> = Seq::empty();
        let mut i: usize = 0;
        while i < entries.len()
            invariant
                i <= entries@.len(),
                start + size <= usize::MAX,
                forall|j: int|
                    0 <= j < entries@.len() ==> self@.users.contains_key(#[trigger] entries@[j].0)
                        && entries@[j].1@ == self@.users[entries@[j].0],
                forall|a: int, b: int|
                    0 <= a < b < entries@.len() ==> #[trigger] entries@[a].0 != #[trigger] entries@[b].0,
                origin.len() == picked@.len(),
                forall|j: int|
                    0 <= j < picked@.len() ==> 0 <= #[trigger] origin[j] < i
                        && picked@[j].1.spec_key() == entries@[origin[j]].0 && picked@[j].0
                        == self@.users[picked@[j].1.spec_key()].0 && in_window(
                        self@,
                        picked@[j].1.spec_key(),
                        start,
                        size,
                    ),
                forall|a: int, b: int|
                    0 <= a < b < picked@.len() ==> #[trigger] origin[a] < #[trigger] origin[b],
                forall|j: int|
                    0 <= j < i && in_window(self@, #[trigger] entries@[j].0, start, size)
                        ==> origin.contains(j),
            decreases entries@.len() - i,
        {
            let row: usize = entries[i].1.row_num;
            if row >= start && row < start + size {
                let ghost before = origin;
                picked.push((row, Address::of_key(entries[i].0)));
                proof {
                    origin = origin.push(i as int);
                    assert(origin[before.len() as int] == i);
                    assert forall|j: int|
                        0 <= j < i + 1 && in_window(
                            self@,
                            #[trigger] entries@[j].0,
                            start,
                            size,
                        ) implies origin.contains(j) by {
                        if j < i {
                            let w = choose|w: int| 0 <= w < before.len() && before[w] == j;
                            assert(origin[w] == j);
                        }
                    }
                }
            }
            i = i + 1;
        }
        let ghost unsorted = picked@;
        let sorted = sorted_by_row(picked);
        proof {
            broadcast use vstd::seq_lib::group_to_multiset_ensures;

            assert(unsorted.no_duplicates()) by {
                assert forall|a: int, b: int|
                    0 <= a < unsorted.len() && 0 <= b < unsorted.len() && a
                        != b implies unsorted[a] != unsorted[b] by {
                    let lo = if a < b {
                        a
                    } else {
                        b
                    };
                    let hi = if a < b {
                        b
                    } else {
                        a
                    };
                    assert(origin[lo] < origin[hi]);
                    assert(entries@[origin[lo]].0 != entries@[origin[hi]].0);
                }
            }
            unsorted.lemma_multiset_has_no_duplicates();
            sorted@.lemma_multiset_has_no_duplicates_conv();
            assert forall|x: (usize, Address)| sorted@.contains(x) == unsorted.contains(x) by {
                assert(sorted@.to_multiset().count(x) == unsorted.to_multiset().count(x));
            }
        }
        let mut r: Vec<Address> = Vec::new();
        let mut k: usize = 0;
        while k < sorted.len()
            invariant
                k <= sorted@.len(),
                r@.len() == k,
                forall|j: int| 0 <= j < k ==> #[trigger] r@[j] == sorted@[j].1,
            decreases sorted@.len() - k,
        {
            r.push(sorted[k].1);
            k = k + 1;
        }
        proof {
            assert forall|j: int| 0 <= j < sorted@.len() implies in_window(
                self@,
                (#[trigger] sorted@[j]).1.spec_key(),
                start,
                size,
            ) && sorted@[j].0 == self@.users[sorted@[j].1.spec_key()].0 by {
                assert(sorted@.contains(sorted@[j]));
                assert(unsorted.contains(sorted@[j]));
                let w = choose|w: int| 0 <= w < unsorted.len() && unsorted[w] == sorted@[j];
                assert(0 <= origin[w]);
            }
            assert forall|a: int, b: int| 0 <= a < b < r@.len() implies #[trigger] r@[a]
                != #[trigger] r@[b] by {
                assert(sorted@[a] != sorted@[b]);
                assert(sorted@[a].0 == self@.users[sorted@[a].1.spec_key()].0);
                assert(sorted@[b].0 == self@.users[sorted@[b].1.spec_key()].0);
            }
            assert forall|key: (u32, u128)| #[trigger] in_window(
                self@,
                key,
                start,
                size,
            ) implies exists|i: int| 0 <= i < r@.len() && #[trigger] r@[i].spec_key() == key by {
                let e = choose|e: int| 0 <= e < entries@.len() && #[trigger] entries@[e].0 == key;
                assert(in_window(self@, entries@[e].0, start, size));
                assert(origin.contains(e));
                let w = choose|w: int| 0 <= w < origin.len() && origin[w] == e;
                assert(unsorted[w].1.spec_key() == key);
                assert(unsorted.contains(unsorted[w]));
                assert(sorted@.contains(unsorted[w]));
                let q = choose|q: int| 0 <= q < sorted@.len() && sorted@[q] == unsorted[w];
                assert(r@[q].spec_key() == key);
            }
            assert forall|a: int, b: int| 0 <= a < b < r@.len() implies self@.users[(
            #[trigger] r@[a]).spec_key()].0 <= self@.users[(#[trigger] r@[b]).spec_key()].0 by {
                assert(sorted@[a].0 <= sorted@[b].0);
            }
        }
        r
    }

    /// Whether all rows of a window exist.
    pub fn holds_window(&self, start: usize, size: usize) -> (r: bool)
        ensures
            r == window_held(self@, start, size),
    {
        let len: usize = self.health_factors.values.len();
        if size > len || start > len - size {
            return false;
        }
        let end: usize = start + size;
        end <= self.reserve.len() && end <= self.collateral.len() && end <= self.borrowed.len() && end
            <= self.collateral_matrix.nrows() && end <= self.borrowed_matrix.nrows()
    }

    /// A window of the cache.
    pub fn probe(&self, start: usize, size: usize) -> (r: Probe)
        requires
            window_held(self@, start, size),
        ensures
            r.hf@ == self@.health_factors.0.subrange(start as int, start + size),
            names_window(r.users@, self@, start, size),
            r.tokens@ == self@.tokens.0,
            r.decimals@ == self@.decimals.0,
            r.price_decimals@ == self@.price_decimals.0,
            r.liquidation_threshold@ == self@.liquidation_threshold.0,
            values(r.liquidity@) == bare_indexes(self@.liquidity.0),
            values(r.liquidity_index@) == self@.liquidity_index.0,
            values(r.variable_borrow@) == bare_indexes(self@.variable_borrow.0),
            values(r.variable_borrow_index@) == self@.variable_borrow_index.0,
            r.prices@ == self@.prices.0,
            values_2d(r.reserve_scaled@) == window_balances(self@.reserve, start, size),
            values_2d(r.collateral_scaled@) == window_balances(self@.collateral, start, size),
            values_2d(r.collateral@) == self@.collateral_matrix.rows.subrange(
                start as int,
                start + size,
            ),
            values_2d(r.borrowed_scaled@) == window_balances(self@.borrowed, start, size),
            values_2d(r.borrowed@) == self@.borrowed_matrix.rows.subrange(
                start as int,
                start + size,
            ),
    {
        assert(start + size <= self.health_factors.values.len());
        Probe {
            hf: doubles_window(&self.health_factors.values, start, size),
            users: self.window_users(start, size),
            tokens: self.get_tokens(),
            decimals: self.get_decimals(),
            price_decimals: self.get_price_decimals(),
            liquidation_threshold: self.get_liquidation_threshold(),
            liquidity: indexes_alone(&self.liquidity.values),
            liquidity_index: self.get_liquidity_index(),
            variable_borrow: indexes_alone(&self.variable_borrow.values),
            variable_borrow_index: self.get_variable_borrow_index(),
            prices: self.get_prices(),
            reserve_scaled: balances_alone(&self.reserve, start, size),
            collateral_scaled: balances_alone(&self.collateral, start, size),
            collateral: matrix_window(&self.collateral_matrix, start, size),
            borrowed_scaled: balances_alone(&self.borrowed, start, size),
            borrowed: matrix_window(&self.borrowed_matrix, start, size),
        }
    }
}

/// The last of the first `k` reports on a column.
pub open spec fn last_reserve(found: Seq<(usize, ReserveData)>, k: nat, column: int) -> Option<int>
    decreases k,
{
    if k == 0 {
        None
    } else if found[k - 1].0 == column {
        Some(k - 1)
    } else {
        last_reserve(found, (k - 1) as nat, column)
    }
}

/// The indexes that the pool reports, by column: those of loans (`debt`) or
/// those of deposits.
pub open spec fn pool_indexes(
    found: Seq<(usize, ReserveData)>,
    k: nat,
    n: nat,
    debt: bool,
) -> Seq<nat> {
    Seq::new(
        n,
        |column: int|
            match last_reserve(found, k, column) {
                Some(i) => if debt {
                    found[i].1.variable_borrow_index@
                } else {
                    found[i].1.liquidity_index@
                },
                None => 0,
            },
    )
}

/// The last of the first `k` reports on a cell; where `usage` says so, of those
/// with that use as collateral.
pub open spec fn last_cell(
    found: Seq<(usize, usize, UserReserveData)>,
    k: nat,
    row: int,
    column: int,
    usage: Option<bool>,
) -> Option<int>
    decreases k,
{
    if k == 0 {
        None
    } else if found[k - 1].0 == row && found[k - 1].1 == column && (usage is Some ==> found[k
        - 1].2.usage_as_collateral_enabled == usage->0) {
        Some(k - 1)
    } else {
        last_cell(found, (k - 1) as nat, row, column, usage)
    }
}

/// The scaled deposit that the pool reports for a cell, of the reports with
/// that use as collateral.
pub open spec fn pool_deposit(
    found: Seq<(usize, usize, UserReserveData)>,
    k: nat,
    row: int,
    column: int,
    decimals: Seq<F64>,
    indexes: Seq<nat>,
    usage: bool,
) -> nat {
    match last_cell(found, k, row, column, Some(usage)) {
        Some(i) => scaled_units(
            found[i].2.current_atoken_balance@,
            decimals[column],
            indexes[column],
        ),
        None => 0,
    }
}

/// The scaled debt that the pool reports for a cell.
pub open spec fn pool_debt(
    found: Seq<(usize, usize, UserReserveData)>,
    k: nat,
    row: int,
    column: int,
    decimals: Seq<F64>,
    indexes: Seq<nat>,
) -> nat {
    match last_cell(found, k, row, column, None) {
        Some(i) => scaled_units(
            found[i].2.current_variable_debt@,
            decimals[column],
            indexes[column],
        ),
        None => 0,
    }
}

/// The scaled deposits that the pool reports for a window.
pub open spec fn pool_deposits(
    found: Seq<(usize, usize, UserReserveData)>,
    k: nat,
    size: nat,
    n: nat,
    decimals: Seq<F64>,
    indexes: Seq<nat>,
    usage: bool,
) -> Seq<Seq<nat>> {
    Seq::new(
        size,
        |row: int|
            Seq::new(
                n,
                |column: int| pool_deposit(found, k, row, column, decimals, indexes, usage),
            ),
    )
}

/// The scaled debts that the pool reports for a window.
pub open spec fn pool_debts(
    found: Seq<(usize, usize, UserReserveData)>,
    k: nat,
    size: nat,
    n: nat,
    decimals: Seq<F64>,
    indexes: Seq<nat>,
) -> Seq<Seq<nat>> {
    Seq::new(
        size,
        |row: int|
            Seq::new(n, |column: int| pool_debt(found, k, row, column, decimals, indexes)),
    )
}

/// What the pool reports for a window, and its distance from the cache.
#[derive(Debug)]
pub struct Comparison {
    pub liquidity_aave: Vec<U256>,
    pub variable_borrow_aave: Vec<U256>,
    pub reserve_scaled_aave: Vec<Vec<U256>>,
    pub collateral_scaled_aave: Vec<Vec<U256>>,
    pub borrowed_scaled_aave: Vec<Vec<U256>>,
    pub liquidity_diff: Vec<U256>,
    pub variable_borrow_diff: Vec<U256>,
    pub reserve_scaled_diff: Vec<Vec<U256>>,
    pub collateral_scaled_diff: Vec<Vec<U256>>,
    pub borrowed_scaled_diff: Vec<Vec<U256>>,
}

/// Whether a report on a cell can be taken over.
pub open spec fn cell_usable(
    cell: (usize, usize, UserReserveData),
    size: nat,
    n: nat,
    decimals: Seq<F64>,
    liquidity: Seq<nat>,
    borrow: Seq<nat>,
) -> bool {
    &&& cell.0 < size
    &&& cell.1 < n
    &&& cell.1 < decimals.len()
    &&& scalable(
        cell.2.current_atoken_balance@,
        decimals[cell.1 as int],
        liquidity[cell.1 as int],
    )
    &&& scalable(cell.2.current_variable_debt@, decimals[cell.1 as int], borrow[cell.1 as int])
}

/// Whether the reports on a window can be taken over.
pub open spec fn comparable(
    probe: Probe,
    reserves: Seq<(usize, ReserveData)>,
    cells: Seq<(usize, usize, UserReserveData)>,
) -> bool {
    let n = probe.tokens@.len();
    &&& forall|i: int| 0 <= i < reserves.len() ==> (#[trigger] reserves[i]).0 < n
    &&& forall|i: int|
        0 <= i < cells.len() ==> cell_usable(
            #[trigger] cells[i],
            probe.hf@.len(),
            n,
            probe.decimals@,
            pool_indexes(reserves, reserves.len(), n, false),
            pool_indexes(reserves, reserves.len(), n, true),
        )
}

/// Writes one cell of a list of rows.
fn set_cell(rows: &mut Vec<Vec<U256>>, row: usize, column: usize, value: U256)
    requires
        row < old(rows)@.len(),
        column < old(rows)@[row as int]@.len(),
    ensures
        values_2d(final(rows)@) == values_2d(old(rows)@).update(
            row as int,
            values_2d(old(rows)@)[row as int].update(column as int, value@),
        ),
        final(rows)@.len() == old(rows)@.len(),
        forall|i: int|
            0 <= i < old(rows)@.len() ==> (#[trigger] final(rows)@[i])@.len() == old(
                rows,
            )@[i]@.len(),
{
    let target: &mut Vec<U256> = &mut rows[row];
    target.set(column, value);
    assert(values_2d(rows@) =~= values_2d(old(rows)@).update(
        row as int,
        values_2d(old(rows)@)[row as int].update(column as int, value@),
    ));
}

/// `rows` rows of `n` zeros.
fn zero_rows(rows: usize, n: usize) -> (r: Vec<Vec<U256>>)
    ensures
        r@.len() == rows,
        forall|i: int| 0 <= i < rows ==> (#[trigger] r@[i])@.len() == n && values(r@[i]@) == zeros(
            n as nat,
        ),
{
    let mut r: Vec<Vec<U256>> = Vec::new();
    let mut i: usize = 0;
    while i < rows
        invariant
            i <= rows,
            r@.len() == i,
            forall|j: int|
                0 <= j < i ==> (#[trigger] r@[j])@.len() == n && values(r@[j]@) == zeros(
                    n as nat,
                ),
        decreases rows - i,
    {
        r.push(zero_balances(n));
        i = i + 1;
    }
    r
}

/// The indexes that the pool reports, by column: first those of deposits, then
/// those of loans.
fn reported_indexes(n: usize, reserves: &Vec<(usize, ReserveData)>) -> (r: (Vec<U256>, Vec<U256>))
    requires
        forall|i: int| 0 <= i < reserves@.len() ==> (#[trigger] reserves@[i]).0 < n,
    ensures
        values(r.0@) == pool_indexes(reserves@, reserves@.len(), n as nat, false),
        values(r.1@) == pool_indexes(reserves@, reserves@.len(), n as nat, true),
        r.0@.len() == n,
        r.1@.len() == n,
{
    let mut liquidity: Vec<U256> = zero_balances(n);
    let mut borrow: Vec<U256> = zero_balances(n);
    assert(values(liquidity@) =~= pool_indexes(reserves@, 0, n as nat, false));
    assert(values(borrow@) =~= pool_indexes(reserves@, 0, n as nat, true));
    let mut k: usize = 0;
    while k < reserves.len()
        invariant
            k <= reserves@.len(),
            forall|i: int| 0 <= i < reserves@.len() ==> (#[trigger] reserves@[i]).0 < n,
            liquidity@.len() == n,
            borrow@.len() == n,
            values(liquidity@) == pool_indexes(reserves@, k as nat, n as nat, false),
            values(borrow@) == pool_indexes(reserves@, k as nat, n as nat, true),
        decreases reserves@.len() - k,
    {
        let (column, data) = reserves[k];
        liquidity.set(column, data.liquidity_index);
        borrow.set(column, data.variable_borrow_index);
        k = k + 1;
        assert(values(liquidity@) =~= pool_indexes(reserves@, k as nat, n as nat, false));
        assert(values(borrow@) =~= pool_indexes(reserves@, k as nat, n as nat, true));
    }
    (liquidity, borrow)
}

/// The probe of a window next to what the pool reports: the indexes by column,
/// the balances by row of the window and column.
pub fn compare_probe(
    probe: &Probe,
    reserves: &Vec<(usize, ReserveData)>,
    cells: &Vec<(usize, usize, UserReserveData)>,
) -> (r: Comparison)
    requires
        comparable(*probe, reserves@, cells@),
    ensures
        ({
            let n = probe.tokens@.len();
            let size = probe.hf@.len();
            let li = pool_indexes(reserves@, reserves@.len(), n, false);
            let vb = pool_indexes(reserves@, reserves@.len(), n, true);
            let d = probe.decimals@;
            &&& values(r.liquidity_aave@) == li
            &&& values(r.variable_borrow_aave@) == vb
            &&& values_2d(r.reserve_scaled_aave@) == pool_deposits(
                cells@,
                cells@.len(),
                size,
                n,
                d,
                li,
                false,
            )
            &&& values_2d(r.collateral_scaled_aave@) == pool_deposits(
                cells@,
                cells@.len(),
                size,
                n,
                d,
                li,
                true,
            )
            &&& values_2d(r.borrowed_scaled_aave@) == pool_debts(
                cells@,
                cells@.len(),
                size,
                n,
                d,
                vb,
            )
            &&& values(r.liquidity_diff@) == distances(li, values(probe.liquidity@))
            &&& values(r.variable_borrow_diff@) == distances(vb, values(probe.variable_borrow@))
            &&& values_2d(r.reserve_scaled_diff@) == distances_2d(
                values_2d(r.reserve_scaled_aave@),
                values_2d(probe.reserve_scaled@),
            )
            &&& values_2d(r.collateral_scaled_diff@) == distances_2d(
                values_2d(r.collateral_scaled_aave@),
                values_2d(probe.collateral_scaled@),
            )
            &&& values_2d(r.borrowed_scaled_diff@) == distances_2d(
                values_2d(r.borrowed_scaled_aave@),
                values_2d(probe.borrowed_scaled@),
            )
        }),
{
    let n: usize = probe.tokens.len();
    let size: usize = probe.hf.len();
    let (liquidity, borrow) = reported_indexes(n, reserves);
    let ghost li = pool_indexes(reserves@, reserves@.len(), n as nat, false);
    let ghost vb = pool_indexes(reserves@, reserves@.len(), n as nat, true);
    let ghost d = probe.decimals@;
    let mut reserve: Vec<Vec<U256>> = zero_rows(size, n);
    let mut collateral: Vec<Vec<U256>> = zero_rows(size, n);
    let mut borrowed: Vec<Vec<U256>> = zero_rows(size, n);
    proof {
        assert(values_2d(reserve@) =~~= pool_deposits(
            cells@,
            0,
            size as nat,
            n as nat,
            d,
            li,
            false,
        ));
        assert(values_2d(collateral@) =~~= pool_deposits(
            cells@,
            0,
            size as nat,
            n as nat,
            d,
            li,
            true,
        ));
        assert(values_2d(borrowed@) =~~= pool_debts(cells@, 0, size as nat, n as nat, d, vb));
    }
    let mut k: usize = 0;
    while k < cells.len()
        invariant
            k <= cells@.len(),
            n == probe.tokens@.len(),
            size == probe.hf@.len(),
            d == probe.decimals@,
            li == pool_indexes(reserves@, reserves@.len(), n as nat, false),
            vb == pool_indexes(reserves@, reserves@.len(), n as nat, true),
            liquidity@.len() == n,
            borrow@.len() == n,
            values(liquidity@) == li,
            values(borrow@) == vb,
            forall|i: int|
                0 <= i < cells@.len() ==> cell_usable(
                    #[trigger] cells@[i],
                    size as nat,
                    n as nat,
                    d,
                    li,
                    vb,
                ),
            reserve@.len() == size,
            collateral@.len() == size,
            borrowed@.len() == size,
            forall|i: int| 0 <= i < size ==> (#[trigger] reserve@[i])@.len() == n,
            forall|i: int| 0 <= i < size ==> (#[trigger] collateral@[i])@.len() == n,
            forall|i: int| 0 <= i < size ==> (#[trigger] borrowed@[i])@.len() == n,
            values_2d(reserve@) == pool_deposits(
                cells@,
                k as nat,
                size as nat,
                n as nat,
                d,
                li,
                false,
            ),
            values_2d(collateral@) == pool_deposits(
                cells@,
                k as nat,
                size as nat,
                n as nat,
                d,
                li,
                true,
            ),
            values_2d(borrowed@) == pool_debts(cells@, k as nat, size as nat, n as nat, d, vb),
        decreases cells@.len() - k,
    {
        let (row, column, data) = cells[k];
        proof {
            assert(cell_usable(cells@[k as int], size as nat, n as nat, d, li, vb));
            assert(values(liquidity@)[column as int] == liquidity@[column as int]@);
            assert(values(borrow@)[column as int] == borrow@[column as int]@);
        }
        let deposit: U256 = data.current_atoken_balance.units_to_scaled(
            probe.decimals[column],
            liquidity[column],
        );
        if data.usage_as_collateral_enabled {
            set_cell(&mut collateral, row, column, deposit);
        } else {
            set_cell(&mut reserve, row, column, deposit);
        }
        let debt: U256 = data.current_variable_debt.units_to_scaled(
            probe.decimals[column],
            borrow[column],
        );
        set_cell(&mut borrowed, row, column, debt);
        k = k + 1;
        proof {
            assert(values_2d(reserve@) =~~= pool_deposits(
                cells@,
                k as nat,
                size as nat,
                n as nat,
                d,
                li,
                false,
            ));
            assert(values_2d(collateral@) =~~= pool_deposits(
                cells@,
                k as nat,
                size as nat,
                n as nat,
                d,
                li,
                true,
            ));
            assert(values_2d(borrowed@) =~~= pool_debts(
                cells@,
                k as nat,
                size as nat,
                n as nat,
                d,
                vb,
            ));
        }
    }
    let liquidity_diff: Vec<U256> = difference(&liquidity, &probe.liquidity);
    let variable_borrow_diff: Vec<U256> = difference(&borrow, &probe.variable_borrow);
    let reserve_scaled_diff: Vec<Vec<U256>> = difference_2d(&reserve, &probe.reserve_scaled);
    let collateral_scaled_diff: Vec<Vec<U256>> = difference_2d(
        &collateral,
        &probe.collateral_scaled,
    );
    let borrowed_scaled_diff: Vec<Vec<U256>> = difference_2d(&borrowed, &probe.borrowed_scaled);
    Comparison {
        liquidity_aave: liquidity,
        variable_borrow_aave: borrow,
        reserve_scaled_aave: reserve,
        collateral_scaled_aave: collateral,
        borrowed_scaled_aave: borrowed,
        liquidity_diff,
        variable_borrow_diff,
        reserve_scaled_diff,
        collateral_scaled_diff,
        borrowed_scaled_diff,
    }
}

/// Whether [`compare_probe`] can take over what the pool reports.
pub fn admits_comparison(
    probe: &Probe,
    reserves: &Vec<(usize, ReserveData)>,
    cells: &Vec<(usize, usize, UserReserveData)>,
) -> (r: bool)
    ensures
        r == comparable(*probe, reserves@, cells@),
{
    let n: usize = probe.tokens.len();
    let size: usize = probe.hf.len();
    let mut i: usize = 0;
    while i < reserves.len()
        invariant
            i <= reserves@.len(),
            n == probe.tokens@.len(),
            forall|j: int| 0 <= j < i ==> (#[trigger] reserves@[j]).0 < n,
        decreases reserves@.len() - i,
    {
        if reserves[i].0 >= n {
            assert(!(reserves@[i as int].0 < n));
            return false;
        }
        i = i + 1;
    }
    let (liquidity, borrow) = reported_indexes(n, reserves);
    let ghost li = pool_indexes(reserves@, reserves@.len(), n as nat, false);
    let ghost vb = pool_indexes(reserves@, reserves@.len(), n as nat, true);
    let mut k: usize = 0;
    while k < cells.len()
        invariant
            k <= cells@.len(),
            n == probe.tokens@.len(),
            size == probe.hf@.len(),
            liquidity@.len() == n,
            borrow@.len() == n,
            values(liquidity@) == li,
            values(borrow@) == vb,
            forall|j: int|
                0 <= j < k ==> cell_usable(
                    #[trigger] cells@[j],
                    size as nat,
                    n as nat,
                    probe.decimals@,
                    li,
                    vb,
                ),
            li == pool_indexes(reserves@, reserves@.len(), n as nat, false),
            vb == pool_indexes(reserves@, reserves@.len(), n as nat, true),
        decreases cells@.len() - k,
    {
        let (row, column, data) = cells[k];
        let usable: bool = row < size && column < n && column < probe.decimals.len()
            && data.current_atoken_balance.scales(probe.decimals[column], liquidity[column])
            && data.current_variable_debt.scales(probe.decimals[column], borrow[column]);
        proof {
            if column < n {
                assert(values(liquidity@)[column as int] == liquidity@[column as int]@);
                assert(values(borrow@)[column as int] == borrow@[column as int]@);
            }
            assert(usable == cell_usable(
                cells@[k as int],
                size as nat,
                n as nat,
                probe.decimals@,
                li,
                vb,
            ));
        }
        if !usable {
            return false;
        }
        k = k + 1;
    }
    true
}

} // verus!
