//! The cache: everything the bot knows of the pool and of its users.
//!
//! [`Cache`] holds the data and [`CacheState`] is its view: the same fields as
//! mathematical values. The contracts in this library give the state after an
//! operation as a function of the state before it.
use vstd::prelude::*;
use crate::address::Address;
use crate::float::F64;
use crate::matrix::{values, Matrix};
use crate::tokens::{TokenDetails, Tokens};
use crate::types::{Index, IndexState, TimeStamp};
use crate::uint::U256;
use crate::users::{
    no_users, users_contain, users_contents, users_insert, users_new, users_remove, CollateralFlags,
    UserDetails, UserSettings,
};

verus! {

/// One user's scaled balances, one per token, with the moment they were last
/// read from the pool and the moment they last changed.
pub struct Row {
    pub balances: Vec<U256>,
    pub last_sync: TimeStamp,
    pub last_modified: TimeStamp,
}

/// The numbers of a [`Row`].
#[verifier::ext_equal]
pub struct RowState {
    pub balances: Seq<nat>,
    pub last_sync: TimeStamp,
    pub last_modified: TimeStamp,
}

impl View for Row {
    type V = RowState;

    open spec fn view(&self) -> RowState {
        RowState {
            balances: values(self.balances@),
            last_sync: self.last_sync,
            last_modified: self.last_modified,
        }
    }
}

/// The numbers of a list of rows.
pub open spec fn row_states(rows: Seq<Row>) -> Seq<RowState> {
    Seq::new(rows.len(), |i: int| rows[i]@)
}

/// The numbers of a list of indexes.
pub open spec fn index_states(indexes: Seq<Index>) -> Seq<IndexState> {
    Seq::new(indexes.len(), |i: int| indexes[i]@)
}

/// One double per token or per user, with the moment of the last change.
pub struct Array {
    pub values: Vec<F64>,
    pub last_modified: TimeStamp,
}

/// One ray per token, with the moment of the last change.
pub struct RayArray {
    pub values: Vec<U256>,
    pub last_modified: TimeStamp,
}

/// One index per token, with the moment of the last change.
pub struct Indexes {
    pub values: Vec<Index>,
    pub last_modified: TimeStamp,
}

/// One address per token, with the moment of the last change.
pub struct Addresses {
    pub values: Vec<Address>,
    pub last_modified: TimeStamp,
}

impl View for Array {
    type V = (Seq<F64>, TimeStamp);

    open spec fn view(&self) -> (Seq<F64>, TimeStamp) {
        (self.values@, self.last_modified)
    }
}

impl View for RayArray {
    type V = (Seq<nat>, TimeStamp);

    open spec fn view(&self) -> (Seq<nat>, TimeStamp) {
        (values(self.values@), self.last_modified)
    }
}

impl View for Indexes {
    type V = (Seq<IndexState>, TimeStamp);

    open spec fn view(&self) -> (Seq<IndexState>, TimeStamp) {
        (index_states(self.values@), self.last_modified)
    }
}

impl View for Addresses {
    type V = (Seq<Address>, TimeStamp);

    open spec fn view(&self) -> (Seq<Address>, TimeStamp) {
        (self.values@, self.last_modified)
    }
}

/// The rows and the width of a [`Matrix`].
#[verifier::ext_equal]
pub struct MatrixState {
    pub rows: Seq<Seq<nat>>,
    pub width: nat,
}

impl View for Matrix {
    type V = MatrixState;

    open spec fn view(&self) -> MatrixState {
        MatrixState { rows: self.rows(), width: self.width() }
    }
}

/// What the bot knows of the pool and of its users.
///
/// `liquidity_index` and `variable_borrow_index` repeat the indexes of
/// `liquidity` and `variable_borrow`, and the two matrices repeat the rows of
/// `collateral` and `borrowed`, for the computation over all users at once.
pub struct Cache {
    pub users: UserDetails,
    pub users_num: usize,
    pub decimals: Array,
    pub tokens: Addresses,
    pub price_decimals: Array,
    pub reserve: Vec<Row>,
    pub collateral: Vec<Row>,
    pub collateral_matrix: Matrix,
    pub borrowed: Vec<Row>,
    pub borrowed_matrix: Matrix,
    pub liquidity: Indexes,
    pub liquidity_index: RayArray,
    pub variable_borrow: Indexes,
    pub variable_borrow_index: RayArray,
    pub liquidation_threshold: Array,
    pub prices: Array,
    pub health_factors: Array,
}

/// The values of a [`Cache`].
#[verifier::ext_equal]
pub struct CacheState {
    pub users: Map<(u32, u128), (usize, Seq<bool>)>,
    pub users_num: usize,
    pub decimals: (Seq<F64>, TimeStamp),
    pub tokens: (Seq<Address>, TimeStamp),
    pub price_decimals: (Seq<F64>, TimeStamp),
    pub reserve: Seq<RowState>,
    pub collateral: Seq<RowState>,
    pub collateral_matrix: MatrixState,
    pub borrowed: Seq<RowState>,
    pub borrowed_matrix: MatrixState,
    pub liquidity: (Seq<IndexState>, TimeStamp),
    pub liquidity_index: (Seq<nat>, TimeStamp),
    pub variable_borrow: (Seq<IndexState>, TimeStamp),
    pub variable_borrow_index: (Seq<nat>, TimeStamp),
    pub liquidation_threshold: (Seq<F64>, TimeStamp),
    pub prices: (Seq<F64>, TimeStamp),
    pub health_factors: (Seq<F64>, TimeStamp),
}

impl View for Cache {
    type V = CacheState;

    open spec fn view(&self) -> CacheState {
        CacheState {
            users: users_contents(self.users),
            users_num: self.users_num,
            decimals: self.decimals@,
            tokens: self.tokens@,
            price_decimals: self.price_decimals@,
            reserve: row_states(self.reserve@),
            collateral: row_states(self.collateral@),
            collateral_matrix: self.collateral_matrix@,
            borrowed: row_states(self.borrowed@),
            borrowed_matrix: self.borrowed_matrix@,
            liquidity: self.liquidity@,
            liquidity_index: self.liquidity_index@,
            variable_borrow: self.variable_borrow@,
            variable_borrow_index: self.variable_borrow_index@,
            liquidation_threshold: self.liquidation_threshold@,
            prices: self.prices@,
            health_factors: self.health_factors@,
        }
    }
}

/// A sequence of `n` zeros.
pub open spec fn zeros(n: nat) -> Seq<nat> {
    Seq::new(n, |i: int| 0nat)
}

/// A sequence of `n` doubles of the value 0.0.
pub open spec fn zero_doubles(n: nat) -> Seq<F64> {
    Seq::new(n, |i: int| F64 { bits: 0 })
}

/// A row of `n` zeros that was never read and never changed.
pub open spec fn blank_row(n: nat) -> RowState {
    RowState { balances: zeros(n), last_sync: 0, last_modified: 0 }
}

/// A matrix without rows.
pub open spec fn no_rows(width: nat) -> MatrixState {
    MatrixState { rows: Seq::empty(), width }
}

/// The state of a cache that knows nothing.
pub open spec fn blank_state() -> CacheState {
    CacheState {
        users: no_users(),
        users_num: 0,
        decimals: (Seq::empty(), 0),
        tokens: (Seq::empty(), 0),
        price_decimals: (Seq::empty(), 0),
        reserve: Seq::empty(),
        collateral: Seq::empty(),
        collateral_matrix: no_rows(0),
        borrowed: Seq::empty(),
        borrowed_matrix: no_rows(0),
        liquidity: (Seq::empty(), 0),
        liquidity_index: (Seq::empty(), 0),
        variable_borrow: (Seq::empty(), 0),
        variable_borrow_index: (Seq::empty(), 0),
        liquidation_threshold: (Seq::empty(), 0),
        prices: (Seq::empty(), 0),
        health_factors: (Seq::empty(), 0),
    }
}

/// The last of the first `k` entries that is filed at a column.
pub open spec fn last_at_column(
    entries: Seq<(Address, TokenDetails)>,
    k: nat,
    column: int,
) -> Option<int>
    decreases k,
{
    if k == 0 {
        None
    } else if entries[k - 1].1.order == column {
        Some(k - 1)
    } else {
        last_at_column(entries, (k - 1) as nat, column)
    }
}

/// For each of `n` columns, the address of the token filed there, or zero.
pub open spec fn addresses_by_column(
    entries: Seq<(Address, TokenDetails)>,
    k: nat,
    n: nat,
) -> Seq<Address> {
    Seq::new(
        n,
        |column: int|
            match last_at_column(entries, k, column) {
                Some(i) => entries[i].0,
                None => Address { high: 0, low: 0 },
            },
    )
}

/// For each of `n` columns, the decimals of the token filed there, or 0.0.
pub open spec fn decimals_by_column(
    entries: Seq<(Address, TokenDetails)>,
    k: nat,
    n: nat,
) -> Seq<F64> {
    Seq::new(
        n,
        |column: int|
            match last_at_column(entries, k, column) {
                Some(i) => entries[i].1.decimals,
                None => F64 { bits: 0 },
            },
    )
}

/// For each of `n` columns, the price decimals of the token filed there, or
/// 0.0.
pub open spec fn price_decimals_by_column(
    entries: Seq<(Address, TokenDetails)>,
    k: nat,
    n: nat,
) -> Seq<F64> {
    Seq::new(
        n,
        |column: int|
            match last_at_column(entries, k, column) {
                Some(i) => entries[i].1.price_decimals,
                None => F64 { bits: 0 },
            },
    )
}

/// Whether every token has one of the first columns, as many as there are
/// tokens.
pub open spec fn columns_in_range(entries: Seq<(Address, TokenDetails)>) -> bool {
    forall|i: int| 0 <= i < entries.len() ==> #[trigger] entries[i].1.order < entries.len()
}

/// The state once the tokens are known: every array has one element per token,
/// no health factors and no rows in the matrices.
pub open spec fn initialised(
    s: CacheState,
    entries: Seq<(Address, TokenDetails)>,
    now: TimeStamp,
) -> CacheState {
    let n = entries.len();
    let blank = Seq::new(n, |i: int| IndexState { index: 0, rate: 0, last_update: 0 });
    CacheState {
        collateral_matrix: no_rows(n),
        borrowed_matrix: no_rows(n),
        decimals: (decimals_by_column(entries, n, n), now),
        tokens: (addresses_by_column(entries, n, n), now),
        price_decimals: (price_decimals_by_column(entries, n, n), now),
        liquidity: (blank, now),
        liquidity_index: (zeros(n), now),
        variable_borrow: (blank, now),
        variable_borrow_index: (zeros(n), now),
        liquidation_threshold: (zero_doubles(n), now),
        health_factors: (Seq::empty(), now),
        ..s
    }
}

/// The state after a user was filed under the next row: no flag is set, the
/// rows are blank and the health factor is 0.0.
pub open spec fn registered(s: CacheState, key: (u32, u128), tokens_num: nat) -> CacheState {
    CacheState {
        users: s.users.insert(
            key,
            (s.users_num, Seq::new(tokens_num, |i: int| false)),
        ),
        users_num: (s.users_num + 1) as usize,
        collateral: s.collateral.push(blank_row(tokens_num)),
        reserve: s.reserve.push(blank_row(tokens_num)),
        borrowed: s.borrowed.push(blank_row(tokens_num)),
        health_factors: (s.health_factors.0.push(F64 { bits: 0 }), 0),
        ..s
    }
}

/// `n` zeros.
pub(crate) fn zero_balances(n: usize) -> (r: Vec<U256>)
    ensures
        values(r@) == zeros(n as nat),
        r@.len() == n,
{
    let mut r: Vec<U256> = Vec::new();
    let mut i: usize = 0;
    while i < n
        invariant
            i <= n,
            r@.len() == i,
            forall|j: int| 0 <= j < i ==> #[trigger] r@[j]@ == 0,
        decreases n - i,
    {
        r.push(U256::zero());
        i = i + 1;
    }
    assert(values(r@) =~= zeros(n as nat));
    r
}

/// `n` doubles of the value 0.0.
pub(crate) fn zero_array(n: usize) -> (r: Vec<F64>)
    ensures
        r@ == zero_doubles(n as nat),
{
    let mut r: Vec<F64> = Vec::new();
    let mut i: usize = 0;
    while i < n
        invariant
            i <= n,
            r@.len() == i,
            forall|j: int| 0 <= j < i ==> #[trigger] r@[j] == (F64 { bits: 0 }),
        decreases n - i,
    {
        r.push(F64::zero());
        i = i + 1;
    }
    assert(r@ =~= zero_doubles(n as nat));
    r
}

fn blank_indexes(n: usize) -> (r: Vec<Index>)
    ensures
        index_states(r@) == Seq::new(
            n as nat,
            |i: int| IndexState { index: 0, rate: 0, last_update: 0 },
        ),
{
    let mut r: Vec<Index> = Vec::new();
    let mut i: usize = 0;
    while i < n
        invariant
            i <= n,
            r@.len() == i,
            forall|j: int|
                0 <= j < i ==> #[trigger] r@[j]@ == (IndexState {
                    index: 0,
                    rate: 0,
                    last_update: 0,
                }),
        decreases n - i,
    {
        r.push(Index::default());
        i = i + 1;
    }
    assert(index_states(r@) =~= Seq::new(
        n as nat,
        |i: int| IndexState { index: 0, rate: 0, last_update: 0 },
    ));
    r
}

impl Default for Cache {
    /// A cache that knows nothing.
    fn default() -> (r: Cache)
        ensures
            r@ == blank_state(),
    {
        let r: Cache = Cache {
            users: users_new(),
            users_num: 0,
            decimals: Array { values: Vec::new(), last_modified: 0 },
            tokens: Addresses { values: Vec::new(), last_modified: 0 },
            price_decimals: Array { values: Vec::new(), last_modified: 0 },
            reserve: Vec::new(),
            collateral: Vec::new(),
            collateral_matrix: Matrix::empty(0),
            borrowed: Vec::new(),
            borrowed_matrix: Matrix::empty(0),
            liquidity: Indexes { values: Vec::new(), last_modified: 0 },
            liquidity_index: RayArray { values: Vec::new(), last_modified: 0 },
            variable_borrow: Indexes { values: Vec::new(), last_modified: 0 },
            variable_borrow_index: RayArray { values: Vec::new(), last_modified: 0 },
            liquidation_threshold: Array { values: Vec::new(), last_modified: 0 },
            prices: Array { values: Vec::new(), last_modified: 0 },
            health_factors: Array { values: Vec::new(), last_modified: 0 },
        };
        assert(r@ =~= blank_state());
        r
    }
}

impl Cache {
    /// Takes over the tokens of the pool, before any user is known. The result
    /// is the list of tokens whose prices are to be asked for.
    pub fn init(&mut self, tokens: &Tokens, now: TimeStamp) -> (r: Vec<Address>)
        requires
            columns_in_range(tokens@),
            tokens@.len() <= isize::MAX,
        ensures
            final(self)@ == initialised(old(self)@, tokens@, now),
            r@ == final(self)@.tokens.0,
    {
        let n: usize = tokens.len();
        let mut decimals: Vec<F64> = zero_array(n);
        let mut price_decimals: Vec<F64> = zero_array(n);
        let mut addresses: Vec<Address> = Vec::new();
        let mut asked: Vec<Address> = Vec::new();
        let mut i: usize = 0;
        while i < n
            invariant
                i <= n,
                addresses@.len() == i,
                asked@.len() == i,
                forall|j: int| 0 <= j < i ==> #[trigger] addresses@[j] == (Address { high: 0, low: 0 }),
                forall|j: int| 0 <= j < i ==> #[trigger] asked@[j] == (Address { high: 0, low: 0 }),
            decreases n - i,
        {
            addresses.push(Address::zero());
            asked.push(Address::zero());
            i = i + 1;
        }
        assert(addresses@ =~= addresses_by_column(tokens@, 0, n as nat));
        assert(asked@ =~= addresses@);
        assert(decimals@ =~= decimals_by_column(tokens@, 0, n as nat));
        assert(price_decimals@ =~= price_decimals_by_column(tokens@, 0, n as nat));
        let mut k: usize = 0;
        while k < n
            invariant
                k <= n == tokens@.len(),
                columns_in_range(tokens@),
                addresses@ == addresses_by_column(tokens@, k as nat, n as nat),
                asked@ == addresses@,
                decimals@ == decimals_by_column(tokens@, k as nat, n as nat),
                price_decimals@ == price_decimals_by_column(tokens@, k as nat, n as nat),
            decreases n - k,
        {
            let entry = tokens.entry(k);
            let order: usize = entry.1.order;
            decimals.set(order, entry.1.decimals);
            price_decimals.set(order, entry.1.price_decimals);
            addresses.set(order, entry.0);
            asked.set(order, entry.0);
            k = k + 1;
            assert(decimals@ =~= decimals_by_column(tokens@, k as nat, n as nat));
            assert(price_decimals@ =~= price_decimals_by_column(tokens@, k as nat, n as nat));
            assert(addresses@ =~= addresses_by_column(tokens@, k as nat, n as nat));
        }
        self.collateral_matrix = Matrix::empty(n);
        self.borrowed_matrix = Matrix::empty(n);
        self.decimals = Array { values: decimals, last_modified: now };
        self.tokens = Addresses { values: addresses, last_modified: now };
        self.price_decimals = Array { values: price_decimals, last_modified: now };
        self.liquidity = Indexes { values: blank_indexes(n), last_modified: now };
        self.liquidity_index = RayArray { values: zero_balances(n), last_modified: now };
        self.variable_borrow = Indexes { values: blank_indexes(n), last_modified: now };
        self.variable_borrow_index = RayArray { values: zero_balances(n), last_modified: now };
        self.liquidation_threshold = Array { values: zero_array(n), last_modified: now };
        self.health_factors = Array { values: Vec::new(), last_modified: now };
        assert(self@ =~= initialised(old(self)@, tokens@, now));
        asked
    }

    /// Whether [`Cache::init`] can take over tokens.
    pub fn admits_tokens(tokens: &Tokens) -> (r: bool)
        ensures
            r == (columns_in_range(tokens@) && tokens@.len() <= isize::MAX),
    {
        let n: usize = tokens.len();
        if n > isize::MAX as usize {
            return false;
        }
        let mut i: usize = 0;
        while i < n
            invariant
                i <= n == tokens@.len(),
                forall|j: int| 0 <= j < i ==> #[trigger] tokens@[j].1.order < n,
            decreases n - i,
        {
            if tokens.entry(i).1.order >= n {
                assert(!(tokens@[i as int].1.order < n));
                return false;
            }
            i = i + 1;
        }
        true
    }

    /// Takes over the first prices.
    pub fn init_prices(&mut self, prices: Vec<F64>, now: TimeStamp)
        ensures
            final(self)@ == (CacheState { prices: (prices@, now), ..old(self)@ }),
    {
        self.prices = Array { values: prices, last_modified: now };
    }

    /// Whether a user is known.
    pub fn contains(&self, addr: &Address) -> (r: bool)
        ensures
            r == self@.users.contains_key(addr.spec_key()),
    {
        users_contain(&self.users, addr.key())
    }

    /// Forgets a user; the rows stay.
    pub fn remove_user(&mut self, addr: &Address)
        ensures
            final(self)@ == (CacheState {
                users: old(self)@.users.remove(addr.spec_key()),
                ..old(self)@
            }),
    {
        users_remove(&mut self.users, addr.key());
    }

    /// Files a user under the next row, if the user is new. The result says
    /// whether the user was known.
    pub fn init_user(&mut self, user: &Address, tokens: &Tokens) -> (r: bool)
        requires
            !old(self)@.users.contains_key(user.spec_key()) ==> old(self)@.users_num < usize::MAX
                && tokens@.len() <= usize::MAX / 8,
        ensures
            r == old(self)@.users.contains_key(user.spec_key()),
            final(self)@ == if r {
                old(self)@
            } else {
                registered(old(self)@, user.spec_key(), tokens@.len())
            },
    {
        if self.contains(user) {
            return true;
        }
        let n: usize = tokens.len();
        let ghost before = self@;
        users_insert(
            &mut self.users,
            user.key(),
            UserSettings::new(self.users_num, CollateralFlags::zeros(n)),
        );
        self.users_num = self.users_num + 1;
        self.collateral.push(Row { balances: zero_balances(n), last_sync: 0, last_modified: 0 });
        assert(row_states(self.collateral@) =~= before.collateral.push(blank_row(n as nat)));
        self.reserve.push(Row { balances: zero_balances(n), last_sync: 0, last_modified: 0 });
        assert(row_states(self.reserve@) =~= before.reserve.push(blank_row(n as nat)));
        self.borrowed.push(Row { balances: zero_balances(n), last_sync: 0, last_modified: 0 });
        assert(row_states(self.borrowed@) =~= before.borrowed.push(blank_row(n as nat)));
        self.health_factors.values.push(F64::zero());
        self.health_factors.last_modified = 0;
        assert(self@ =~= registered(before, user.spec_key(), tokens@.len()));
        false
    }
}

} // verus!
