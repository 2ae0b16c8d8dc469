//! Stand-ins for the pool, with fixed answers, for trying the library without
//! a chain.
use vstd::prelude::*;
use crate::address::Address;
use crate::types::{ReserveData, UserReserveData, U40};
use crate::uint::U256;

verus! {

/// The token in the first column of the stand-in pool.
#[verifier::allow_in_spec]
pub fn aave() -> Address
    returns
        (Address { high: 0x1Ac54C11, low: 0x3cefD1792CbFcF41B711824d657eb61D }),
{
    Address { high: 0x1Ac54C11, low: 0x3cefD1792CbFcF41B711824d657eb61D }
}

/// The token in the second column of the stand-in pool.
#[verifier::allow_in_spec]
pub fn usdc() -> Address
    returns
        (Address { high: 0x1Af54C11, low: 0x3cefD1792CbFcF41B711834d657ea61D }),
{
    Address { high: 0x1Af54C11, low: 0x3cefD1792CbFcF41B711834d657ea61D }
}

/// The token in the third column of the stand-in pool.
#[verifier::allow_in_spec]
pub fn dai() -> Address
    returns
        (Address { high: 0x1Af54C11, low: 0x3cefD1792CbFcF41B711824d657eb61D }),
{
    Address { high: 0x1Af54C11, low: 0x3cefD1792CbFcF41B711824d657eb61D }
}

/// 10^6, the smallest units of [`usdc`].
pub const UNITS_6: u128 = 1_000_000;

/// 10^12, the smallest units of [`dai`].
pub const UNITS_12: u128 = 1_000_000_000_000;

/// 10^18, the smallest units of [`aave`] and of any other token.
pub const UNITS_18: u128 = 1_000_000_000_000_000_000;

/// 10^24, a thousandth as a ray.
pub const THOUSANDTH: u128 = 1_000_000_000_000_000_000_000_000;

/// The deposit and the debt of every user, and its use as collateral.
pub open spec fn dummy_user_reserve(token: Address) -> (int, bool) {
    if token == aave() {
        (10 * UNITS_18, false)
    } else if token == usdc() {
        (20 * UNITS_6, true)
    } else if token == dai() {
        (30 * UNITS_12, false)
    } else {
        (40 * UNITS_18, true)
    }
}

/// The liquidity rate and the variable borrow rate of a token, in thousandths;
/// the indexes are one more.
pub open spec fn dummy_rates(token: Address) -> (int, int) {
    if token == aave() {
        (45, 50)
    } else if token == usdc() {
        (35, 40)
    } else if token == dai() {
        (25, 30)
    } else {
        (55, 60)
    }
}

/// A pool of three tokens in which every user has the same balances.
#[derive(Clone, Copy, Debug)]
pub struct DummyDataProvider {}

impl DummyDataProvider {
    pub fn new() -> (r: DummyDataProvider)
        ensures
            r == (DummyDataProvider {  }),
    {
        DummyDataProvider {  }
    }

    /// The balances of a user in a reserve.
    pub fn get_user_reserve_data(&self, token: &Address) -> (r: UserReserveData)
        ensures
            r.current_atoken_balance@ == dummy_user_reserve(*token).0,
            r.current_variable_debt@ == dummy_user_reserve(*token).0,
            r.usage_as_collateral_enabled == dummy_user_reserve(*token).1,
    {
        let amount: u128;
        let usage: bool;
        if *token == aave() {
            amount = 10 * UNITS_18;
            usage = false;
        } else if *token == usdc() {
            amount = 20 * UNITS_6;
            usage = true;
        } else if *token == dai() {
            amount = 30 * UNITS_12;
            usage = false;
        } else {
            amount = 40 * UNITS_18;
            usage = true;
        }
        UserReserveData::new(U256::from_u128(amount), U256::from_u128(amount), usage)
    }

    /// The indexes and rates of a reserve, as of a number of seconds.
    pub fn get_reserve_data(&self, token: &Address, now: u64) -> (r: ReserveData)
        ensures
            r.liquidity_rate@ == dummy_rates(*token).0 * THOUSANDTH,
            r.liquidity_index@ == (1000 + dummy_rates(*token).0) * THOUSANDTH,
            r.variable_borrow_rate@ == dummy_rates(*token).1 * THOUSANDTH,
            r.variable_borrow_index@ == (1000 + dummy_rates(*token).1) * THOUSANDTH,
            r.last_update_timestamp.spec_seconds() == now % 0x100_0000_0000,
    {
        let liquidity: u128;
        let borrow: u128;
        if *token == aave() {
            liquidity = 45;
            borrow = 50;
        } else if *token == usdc() {
            liquidity = 35;
            borrow = 40;
        } else if *token == dai() {
            liquidity = 25;
            borrow = 30;
        } else {
            liquidity = 55;
            borrow = 60;
        }
        ReserveData::new(
            U256::from_u128(liquidity * THOUSANDTH),
            U256::from_u128(borrow * THOUSANDTH),
            U256::from_u128((1000 + liquidity) * THOUSANDTH),
            U256::from_u128((1000 + borrow) * THOUSANDTH),
            U40::from_seconds(now),
        )
    }
}

/// A pool that answers no question.
#[derive(Clone, Copy, Debug)]
pub struct CreateUserDataProvider {}

impl CreateUserDataProvider {
    pub fn new() -> (r: CreateUserDataProvider)
        ensures
            r == (CreateUserDataProvider {  }),
    {
        CreateUserDataProvider {  }
    }

    /// The refusal that takes the place of a user's balances.
    pub fn get_user_reserve_data(&self) -> (r: Result<UserReserveData, String>)
        ensures
            r is Err,
            r->Err_0@ == "mock error"@,
    {
        Err("mock error".to_owned())
    }

    /// The refusal that takes the place of a reserve's indexes.
    pub fn get_reserve_data(&self) -> (r: Result<ReserveData, String>)
        ensures
            r is Err,
            r->Err_0@ == "mock error"@,
    {
        Err("mock error".to_owned())
    }
}

} // verus!
