//! The values that pass between the chain, the cache and its workers.
use vstd::prelude::*;
use crate::address::Address;
use crate::matrix::values;
use crate::uint::U256;
use crate::users::UserSettings;

verus! {

/// A moment, in microseconds since the epoch.
pub type TimeStamp = i64;

/// A 40-bit number of seconds since the epoch, as its upper eight bits and its
/// lower thirty-two.
#[derive(Clone, Copy, Debug, PartialEq, Eq, Structural)]
pub struct U40 {
    pub high: u8,
    pub low: u32,
}

impl U40 {
    /// The number of seconds.
    pub open spec fn spec_seconds(self) -> int {
        self.high * 0x1_0000_0000 + self.low
    }

    /// The moment, in microseconds.
    pub open spec fn spec_micros(self) -> int {
        self.spec_seconds() * 1_000_000
    }

    /// The moment of zero seconds.
    pub fn zero() -> (r: U40)
        ensures
            r.spec_seconds() == 0,
    {
        U40 { high: 0, low: 0 }
    }

    /// The lowest forty bits of a number of seconds.
    pub fn from_seconds(seconds: u64) -> (r: U40)
        ensures
            r.spec_seconds() == seconds % 0x100_0000_0000,
    {
        let kept: u64 = seconds % 0x100_0000_0000;
        U40 { high: (kept / 0x1_0000_0000) as u8, low: (kept % 0x1_0000_0000) as u32 }
    }

    /// The moment, in microseconds.
    pub fn micros(self) -> (r: TimeStamp)
        ensures
            r == self.spec_micros(),
    {
        (self.high as i64 * 0x1_0000_0000 + self.low as i64) * 1_000_000
    }
}

/// A user's position as the pool itself reports it.
#[derive(Clone, Copy, Debug)]
pub struct UserAccountData {
    pub total_collateral_base: U256,
    pub total_debt_base: U256,
    pub available_borrows_base: U256,
    pub current_liquidation_threshold: U256,
    pub ltv: U256,
    pub health_factor: U256,
}

impl UserAccountData {
    pub fn new(
        total_collateral_base: U256,
        total_debt_base: U256,
        available_borrows_base: U256,
        current_liquidation_threshold: U256,
        ltv: U256,
        health_factor: U256,
    ) -> (r: UserAccountData)
        ensures
            r.total_collateral_base == total_collateral_base,
            r.total_debt_base == total_debt_base,
            r.available_borrows_base == available_borrows_base,
            r.current_liquidation_threshold == current_liquidation_threshold,
            r.ltv == ltv,
            r.health_factor == health_factor,
    {
        UserAccountData {
            total_collateral_base,
            total_debt_base,
            available_borrows_base,
            current_liquidation_threshold,
            ltv,
            health_factor,
        }
    }
}

/// The indexes and rates of a reserve, as the pool reports them.
#[derive(Clone, Copy, Debug)]
pub struct ReserveData {
    pub liquidity_rate: U256,
    pub variable_borrow_rate: U256,
    pub liquidity_index: U256,
    pub variable_borrow_index: U256,
    pub last_update_timestamp: U40,
}

impl ReserveData {
    pub fn new(
        liquidity_rate: U256,
        variable_borrow_rate: U256,
        liquidity_index: U256,
        variable_borrow_index: U256,
        last_update_timestamp: U40,
    ) -> (r: ReserveData)
        ensures
            r.liquidity_rate == liquidity_rate,
            r.variable_borrow_rate == variable_borrow_rate,
            r.liquidity_index == liquidity_index,
            r.variable_borrow_index == variable_borrow_index,
            r.last_update_timestamp == last_update_timestamp,
    {
        ReserveData {
            liquidity_rate,
            variable_borrow_rate,
            liquidity_index,
            variable_borrow_index,
            last_update_timestamp,
        }
    }
}

/// A user's balances in a reserve, as the pool reports them.
#[derive(Clone, Copy, Debug)]
pub struct UserReserveData {
    pub usage_as_collateral_enabled: bool,
    pub current_atoken_balance: U256,
    pub current_variable_debt: U256,
}

impl UserReserveData {
    pub fn new(
        current_atoken_balance: U256,
        current_variable_debt: U256,
        usage_as_collateral_enabled: bool,
    ) -> (r: UserReserveData)
        ensures
            r.current_atoken_balance == current_atoken_balance,
            r.current_variable_debt == current_variable_debt,
            r.usage_as_collateral_enabled == usage_as_collateral_enabled,
    {
        UserReserveData {
            usage_as_collateral_enabled,
            current_atoken_balance,
            current_variable_debt,
        }
    }
}

/// What the pool reported of one token for one user.
#[derive(Clone, Copy, Debug)]
pub struct Fetched {
    pub reserve: ReserveData,
    pub user_reserve: UserReserveData,
    pub token: Address,
}

/// An index, the yearly rate at which it grows, and the moment it stands for.
#[derive(Clone, Copy, Debug, PartialEq, Eq)]
pub struct Index {
    pub index: U256,
    pub rate: U256,
    pub last_update: TimeStamp,
}

/// The numbers of an [`Index`].
pub struct IndexState {
    pub index: nat,
    pub rate: nat,
    pub last_update: TimeStamp,
}

impl View for Index {
    type V = IndexState;

    open spec fn view(&self) -> IndexState {
        IndexState { index: self.index@, rate: self.rate@, last_update: self.last_update }
    }
}

impl Default for Index {
    fn default() -> (r: Index)
        ensures
            r@ == (IndexState { index: 0, rate: 0, last_update: 0 }),
    {
        Index { index: U256::zero(), rate: U256::zero(), last_update: 0 }
    }
}

impl Index {
    pub fn new(index: U256, rate: U256, last_update: TimeStamp) -> (r: Index)
        ensures
            r.index == index,
            r.rate == rate,
            r.last_update == last_update,
    {
        Index { index, rate, last_update }
    }
}

/// A user's balances, computed from what the pool reported, with the indexes
/// they were computed from. Every vector has one element per token.
pub struct UserData {
    pub reserve_scaled: Vec<U256>,
    pub collateral_scaled: Vec<U256>,
    pub borrowed_scaled: Vec<U256>,
    pub liquidity_indexes: Vec<U256>,
    pub liquidity_rates: Vec<U256>,
    pub variable_borrow_indexes: Vec<U256>,
    pub variable_borrow_rates: Vec<U256>,
    pub last_update_timestamps: Vec<U40>,
    pub user_settings: UserSettings,
}

/// The numbers of a [`UserData`].
#[verifier::ext_equal]
pub struct UserDataState {
    pub reserve_scaled: Seq<nat>,
    pub collateral_scaled: Seq<nat>,
    pub borrowed_scaled: Seq<nat>,
    pub liquidity_indexes: Seq<nat>,
    pub liquidity_rates: Seq<nat>,
    pub variable_borrow_indexes: Seq<nat>,
    pub variable_borrow_rates: Seq<nat>,
    pub last_update_timestamps: Seq<U40>,
    pub user_settings: (usize, Seq<bool>),
}

impl View for UserData {
    type V = UserDataState;

    open spec fn view(&self) -> UserDataState {
        UserDataState {
            reserve_scaled: values(self.reserve_scaled@),
            collateral_scaled: values(self.collateral_scaled@),
            borrowed_scaled: values(self.borrowed_scaled@),
            liquidity_indexes: values(self.liquidity_indexes@),
            liquidity_rates: values(self.liquidity_rates@),
            variable_borrow_indexes: values(self.variable_borrow_indexes@),
            variable_borrow_rates: values(self.variable_borrow_rates@),
            last_update_timestamps: self.last_update_timestamps@,
            user_settings: self.user_settings@,
        }
    }
}

impl UserData {
    pub fn new(
        reserve_scaled: Vec<U256>,
        collateral_scaled: Vec<U256>,
        borrowed_scaled: Vec<U256>,
        liquidity_indexes: Vec<U256>,
        liquidity_rates: Vec<U256>,
        variable_borrow_indexes: Vec<U256>,
        variable_borrow_rates: Vec<U256>,
        last_update_timestamps: Vec<U40>,
        user_settings: UserSettings,
    ) -> (r: UserData)
        ensures
            r.reserve_scaled == reserve_scaled,
            r.collateral_scaled == collateral_scaled,
            r.borrowed_scaled == borrowed_scaled,
            r.liquidity_indexes == liquidity_indexes,
            r.liquidity_rates == liquidity_rates,
            r.variable_borrow_indexes == variable_borrow_indexes,
            r.variable_borrow_rates == variable_borrow_rates,
            r.last_update_timestamps == last_update_timestamps,
            r.user_settings == user_settings,
    {
        UserData {
            reserve_scaled,
            collateral_scaled,
            borrowed_scaled,
            liquidity_indexes,
            liquidity_rates,
            variable_borrow_indexes,
            variable_borrow_rates,
            last_update_timestamps,
            user_settings,
        }
    }
}

/// The three kinds of balance rows.
#[derive(Clone, Copy, Debug, PartialEq, Eq, Structural)]
pub enum Side {
    Collateral,
    Reserve,
    Borrowed,
}

/// Which part of a matrix is to be brought up to date.
#[derive(Clone, Copy, Debug, PartialEq, Eq, Structural)]
pub enum SyncTarget {
    Row(usize),
    Cell(usize, usize),
}

/// A request to bring a matrix up to date, with the moment of the event behind
/// it.
#[derive(Clone, Copy, Debug, PartialEq, Eq, Structural)]
pub enum SyncRequest {
    Collateral(SyncTarget, TimeStamp),
    Borrowed(SyncTarget, TimeStamp),
    Both(SyncTarget, TimeStamp),
}

/// A request to compute health factors, with the moment of the event behind it.
#[derive(Clone, Copy, Debug, PartialEq, Eq, Structural)]
pub enum HFRequest {
    User(Address, TimeStamp),
    Full(TimeStamp),
}

/// Why an operation on the cache failed.
#[derive(Clone, Copy, Debug, PartialEq, Eq, Structural)]
pub enum Error {
    /// The user is not in the cache.
    UserNotFound(Address),
    /// The token is not among the reserves.
    TokenNotFound(Address),
    /// There is no such row of balances.
    RowNotFound(Side, usize),
    /// The row of balances has no such column.
    ColumnNotFound(Side, usize),
    /// A row of balances does not fit the matrix.
    Shape(Side),
    /// The pool could not be asked.
    Provider(Address),
}

/// A possible error as a result.
pub open spec fn outcome(e: Option<Error>) -> Result<(), Error> {
    match e {
        Some(e) => Err(e),
        None => Ok(()),
    }
}

} // verus!
