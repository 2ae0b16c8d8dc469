use liquidation_bot::address::Address;
use liquidation_bot::cache::{Array, Cache, Indexes, RayArray, Row};
use liquidation_bot::events::{
    admits_event, borrow, create_user, liquidation_call, repay,
    reserve_used_as_collateral_disabled, reserve_used_as_collateral_enabled, resync_user, supply,
    withdraw, Borrow, LiquidationCall, Repay, ReserveUsedAsCollateralDisabled,
    ReserveUsedAsCollateralEnabled, Step, Supply, Timing, UserEvent, Withdraw,
};
use liquidation_bot::float::F64;
use liquidation_bot::market::{answer_updated, liquidation_thresholds};
use liquidation_bot::provider::{aave, dai, usdc, CreateUserDataProvider, DummyDataProvider};
use liquidation_bot::reserves::{
    admits_reserve_update, reserve_data_updated, ReserveDataUpdated,
};
use liquidation_bot::stats::User;
use liquidation_bot::tokens::{setup, FoundToken, TokenDetails, Tokens};
use liquidation_bot::types::{
    Error, Fetched, HFRequest, Index, SyncRequest, SyncTarget, TimeStamp, U40,
};
use liquidation_bot::uint::U256;
use liquidation_bot::users::{CollateralFlags, UserSettings};

// ---- amounts ----

/// `n` times ten to the power of `decimals`.
fn amount(n: u128, decimals: u64) -> U256 {
    let value = alloy_primitives::U256::from(n)
        * alloy_primitives::U256::from(10).pow(alloy_primitives::U256::from(decimals));
    U256 { limbs: value.into_limbs() }
}

fn wide(v: U256) -> alloy_primitives::U256 {
    alloy_primitives::U256::from_limbs(v.limbs)
}

fn as_f64_ray(v: U256) -> f64 {
    const POW64: [f64; 4] = [
        1.0,
        18446744073709551616.0,
        340282366920938463463374607431768211456.0,
        6277101735386680763835789423207666416102355444464034512896.0,
    ];
    let mut result = 0.0;
    for i in 0..4 {
        result += v.limbs[i] as f64 * POW64[i];
    }
    result / 1e27
}

fn double(v: f64) -> F64 {
    F64 { bits: v.to_bits() }
}

fn doubles(v: &[f64]) -> Vec<F64> {
    v.iter().map(|x| double(*x)).collect()
}

fn floats(v: &[F64]) -> Vec<f64> {
    v.iter().map(|x| f64::from_bits(x.bits)).collect()
}

// ---- fixtures ----

/// A moment, in microseconds.
const NOW: TimeStamp = 1_750_000_000_000_000;

fn user_address() -> Address {
    Address { high: 0x1Af54C55, low: 0x3cefD1792CbFcF41B711834d657ea61D }
}

fn aave_source() -> Address {
    Address { high: 0xba5DdD1f, low: 0x9d7F570dc94a51479a000E3BCE967196 }
}

fn usdc_source() -> Address {
    Address { high: 0xaf88d065, low: 0xe77c8cC2239327C5EDb3A432268e5831 }
}

fn dai_source() -> Address {
    Address { high: 0xDA10009c, low: 0xBd5D07dd0CeCc66161FC93D7c9000da1 }
}

fn generate_tokens() -> Tokens {
    let mut tokens = Tokens::new();
    tokens.insert(
        aave(),
        TokenDetails::new(String::from("AAVE"), aave_source(), 0, double(1e18), double(1e18)),
    );
    tokens.insert(
        usdc(),
        TokenDetails::new(String::from("USDC"), usdc_source(), 1, double(1e6), double(1e6)),
    );
    tokens.insert(
        dai(),
        TokenDetails::new(String::from("DAI"), dai_source(), 2, double(1e12), double(1e12)),
    );
    tokens
}

/// A cache of three tokens with so many users. All rows are read and changed at
/// `NOW`, and the token of the first column is each user's collateral.
fn generate_cache_and_tokens(user_num: usize) -> (Cache, Tokens) {
    let tokens = generate_tokens();
    let mut cache = Cache::default();
    let _ = cache.init(&tokens, NOW);

    let mut address = user_address();
    for i in 0..user_num {
        cache.users.insert(
            address.key(),
            UserSettings::new(i, CollateralFlags::from_values(&vec![true, false, false])),
        );
        address = Address { high: address.high, low: address.low + 1 };
        cache.collateral.push(blank_row());
        cache.reserve.push(blank_row());
        cache.borrowed.push(blank_row());
        cache.health_factors.values.push(double(0.0));
    }

    cache.prices = Array { values: doubles(&[0.0; 3]), last_modified: NOW };
    cache.liquidation_threshold = Array { values: doubles(&[0.0; 3]), last_modified: NOW };
    cache.liquidity = Indexes {
        values: vec![
            Index::new(amount(1045, 24), amount(45, 25), NOW),
            Index::new(amount(1035, 24), amount(35, 25), NOW),
            Index::new(amount(1025, 24), amount(25, 25), NOW),
        ],
        last_modified: NOW,
    };
    cache.liquidity_index = RayArray {
        values: vec![amount(1045, 24), amount(1035, 24), amount(1025, 24)],
        last_modified: NOW,
    };
    cache.variable_borrow = Indexes {
        values: vec![
            Index::new(amount(105, 25), amount(5, 26), NOW),
            Index::new(amount(104, 25), amount(4, 26), NOW),
            Index::new(amount(103, 25), amount(3, 26), NOW),
        ],
        last_modified: NOW,
    };
    cache.variable_borrow_index = RayArray {
        values: vec![amount(105, 25), amount(104, 25), amount(103, 25)],
        last_modified: NOW,
    };

    (cache, tokens)
}

fn blank_row() -> Row {
    Row { balances: vec![U256::default(); 3], last_sync: NOW, last_modified: NOW }
}

/// The reply of the stand-in pool on every token.
fn fetch(tokens: &Tokens, now: TimeStamp) -> Vec<Fetched> {
    let provider = DummyDataProvider::new();
    let mut fetched = vec![];
    for i in 0..tokens.len() {
        let token = tokens.entry(i).0;
        fetched.push(Fetched {
            reserve: provider.get_reserve_data(&token, (now / 1_000_000) as u64),
            user_reserve: provider.get_user_reserve_data(&token),
            token,
        });
    }
    fetched
}

/// An event that is received, handled and measured at given moments.
fn received(rq_date: TimeStamp) -> Timing {
    Timing { rq_date, now: NOW + 1_000_000, clock: NOW + 1_000_001 }
}

/// Does what a step leaves to the caller; the result is the requests to be
/// sent.
fn finish(
    cache: &mut Cache,
    tokens: &Tokens,
    user: &Address,
    step: Result<Step, Error>,
    at: &Timing,
) -> Vec<SyncRequest> {
    match step.unwrap() {
        Step::Create => {
            let reply = fetch(tokens, at.now);
            assert!(cache.admits_reports(tokens, user, &reply));
            vec![create_user(cache, tokens, user, Some(reply), at).unwrap()]
        }
        Step::Applied(requests) => requests,
        Step::Skipped => vec![],
        Step::Resync => {
            let reply = fetch(tokens, at.now);
            assert!(cache.admits_reports(tokens, user, &reply));
            vec![resync_user(cache, tokens, user, Some(reply), at).unwrap()]
        }
    }
}

fn liquidity_scaled(cache: &Cache, column: usize, units: U256) -> U256 {
    units.to_ray(cache.decimals.values[column]).to_scaled(cache.liquidity.values[column].index)
}

fn borrow_scaled(cache: &Cache, column: usize, units: U256) -> U256 {
    units
        .to_ray(cache.decimals.values[column])
        .to_scaled(cache.variable_borrow.values[column].index)
}

fn zero() -> U256 {
    U256::default()
}

/// The rows of a user that was read from the stand-in pool.
fn assert_read_from_pool(cache: &Cache, row: usize) {
    assert_eq!(
        cache.collateral[row].balances,
        vec![zero(), liquidity_scaled(cache, 1, amount(20, 6)), zero()]
    );
    assert_eq!(
        cache.reserve[row].balances,
        vec![
            liquidity_scaled(cache, 0, amount(10, 18)),
            zero(),
            liquidity_scaled(cache, 2, amount(30, 12)),
        ]
    );
    assert_eq!(
        cache.borrowed[row].balances,
        vec![
            borrow_scaled(cache, 0, amount(10, 18)),
            borrow_scaled(cache, 1, amount(20, 6)),
            borrow_scaled(cache, 2, amount(30, 12)),
        ]
    );
}

fn assert_untouched(cache: &Cache) {
    assert_eq!(cache.collateral[0].balances, vec![zero(); 3]);
    assert_eq!(cache.reserve[0].balances, vec![zero(); 3]);
    assert_eq!(cache.borrowed[0].balances, vec![zero(); 3]);
}

// ---- matrices ----

#[test]
fn test_sync_collateral() {
    let (mut cache, _) = generate_cache_and_tokens(0);
    let row = vec![
        liquidity_scaled(&cache, 0, amount(10, 18)),
        liquidity_scaled(&cache, 1, amount(20, 6)),
        liquidity_scaled(&cache, 2, amount(30, 12)),
    ];
    // a matrix of one row of zeros
    cache.collateral = vec![blank_row()];
    assert_eq!(cache.sync_collateral(&SyncTarget::Row(0)), Ok(()));
    assert_eq!(cache.get_collateral_matrix(), vec![vec![zero(); 3]]);

    cache.collateral[0].balances = row.clone();
    assert_eq!(cache.sync_collateral(&SyncTarget::Row(0)), Ok(()));
    let mut expected = vec![row];
    assert_eq!(cache.get_collateral_matrix(), expected);

    let row = vec![
        liquidity_scaled(&cache, 0, amount(40, 18)),
        liquidity_scaled(&cache, 1, amount(50, 6)),
        liquidity_scaled(&cache, 2, amount(60, 12)),
    ];
    cache.collateral.push(Row { balances: row.clone(), last_sync: 0, last_modified: 0 });
    assert_eq!(cache.sync_collateral(&SyncTarget::Row(1)), Ok(()));
    expected.push(row);
    assert_eq!(cache.get_collateral_matrix(), expected);

    let row = vec![
        liquidity_scaled(&cache, 0, amount(70, 18)),
        liquidity_scaled(&cache, 1, amount(80, 6)),
        liquidity_scaled(&cache, 2, amount(90, 12)),
    ];
    cache.collateral.push(Row { balances: row.clone(), last_sync: 0, last_modified: 0 });
    assert_eq!(cache.sync_collateral(&SyncTarget::Row(2)), Ok(()));
    expected.push(row);
    assert_eq!(cache.get_collateral_matrix(), expected);

    let row = vec![
        liquidity_scaled(&cache, 0, amount(400, 18)),
        liquidity_scaled(&cache, 1, amount(500, 6)),
        liquidity_scaled(&cache, 2, amount(600, 12)),
    ];
    cache.collateral[1].balances = row.clone();
    assert_eq!(cache.sync_collateral(&SyncTarget::Row(1)), Ok(()));
    expected[1] = row;
    assert_eq!(cache.get_collateral_matrix(), expected);
    assert_eq!(
        as_f64_ray(cache.get_collateral_matrix()[1][0]),
        as_f64_ray(liquidity_scaled(&cache, 0, amount(400, 18)))
    );
}

#[test]
fn test_sync_borrowed() {
    let (mut cache, _) = generate_cache_and_tokens(0);
    let row = vec![
        borrow_scaled(&cache, 0, amount(10, 18)),
        borrow_scaled(&cache, 1, amount(20, 6)),
        borrow_scaled(&cache, 2, amount(30, 12)),
    ];
    cache.borrowed = vec![blank_row()];
    assert_eq!(cache.sync_borrowed(&SyncTarget::Row(0)), Ok(()));
    assert_eq!(cache.get_borrowed_matrix(), vec![vec![zero(); 3]]);

    cache.borrowed[0].balances = row.clone();
    assert_eq!(cache.sync_borrowed(&SyncTarget::Row(0)), Ok(()));
    let mut expected = vec![row];
    assert_eq!(cache.get_borrowed_matrix(), expected);

    let row = vec![
        borrow_scaled(&cache, 0, amount(40, 18)),
        borrow_scaled(&cache, 1, amount(50, 6)),
        borrow_scaled(&cache, 2, amount(60, 12)),
    ];
    cache.borrowed.push(Row { balances: row.clone(), last_sync: 0, last_modified: 0 });
    assert_eq!(cache.sync_borrowed(&SyncTarget::Row(1)), Ok(()));
    expected.push(row);
    assert_eq!(cache.get_borrowed_matrix(), expected);

    let row = vec![
        borrow_scaled(&cache, 0, amount(70, 18)),
        borrow_scaled(&cache, 1, amount(80, 6)),
        borrow_scaled(&cache, 2, amount(90, 12)),
    ];
    cache.borrowed.push(Row { balances: row.clone(), last_sync: 0, last_modified: 0 });
    assert_eq!(cache.sync_borrowed(&SyncTarget::Row(2)), Ok(()));
    expected.push(row);
    assert_eq!(cache.get_borrowed_matrix(), expected);

    let row = vec![
        borrow_scaled(&cache, 0, amount(400, 18)),
        borrow_scaled(&cache, 1, amount(500, 6)),
        borrow_scaled(&cache, 2, amount(600, 12)),
    ];
    cache.borrowed[1].balances = row.clone();
    assert_eq!(cache.sync_borrowed(&SyncTarget::Row(1)), Ok(()));
    expected[1] = row;
    assert_eq!(cache.get_borrowed_matrix(), expected);
}

#[test]
fn test_listen_sync() {
    let (mut cache, _) = generate_cache_and_tokens(1);
    let col = vec![
        liquidity_scaled(&cache, 0, amount(1, 18)),
        liquidity_scaled(&cache, 1, amount(2, 6)),
        liquidity_scaled(&cache, 2, amount(3, 12)),
    ];
    let bor = vec![
        borrow_scaled(&cache, 0, amount(4, 18)),
        borrow_scaled(&cache, 1, amount(5, 6)),
        borrow_scaled(&cache, 2, amount(6, 12)),
    ];
    cache.collateral[0].balances = col.clone();
    cache.borrowed[0].balances = bor.clone();

    let request = SyncRequest::Both(SyncTarget::Row(0), NOW);
    assert!(cache.admits_request(&request));
    assert_eq!(cache.serve(&request), Ok(()));

    assert_eq!(cache.get_collateral_matrix(), vec![col]);
    assert_eq!(cache.get_borrowed_matrix(), vec![bor]);
}

// ---- users ----

#[test]
fn test_sync_user() {
    let (mut cache, tokens) = generate_cache_and_tokens(1);
    let user = user_address();
    let fetched = fetch(&tokens, NOW);

    assert!(cache.admits_reports(&tokens, &user, &fetched));
    assert_eq!(cache.sync_user(&user, &tokens, &fetched, NOW), Ok(()));

    assert_eq!(cache.contains(&user), true);
    assert_read_from_pool(&cache, 0);
}

#[test]
fn test_init_user() {
    // the cache has this user

    let (mut cache, tokens) = generate_cache_and_tokens(1);
    let user = user_address();

    assert_eq!(cache.init_user(&user, &tokens), true);
    assert_eq!(cache.contains(&user), true);
    assert_eq!(cache.users.len(), 1);

    // new user

    let (mut cache, tokens) = generate_cache_and_tokens(0);

    assert_eq!(cache.init_user(&user, &tokens), false);
    let fetched = fetch(&tokens, NOW);
    assert_eq!(cache.sync_user(&user, &tokens, &fetched, NOW), Ok(()));

    assert_eq!(cache.contains(&user), true);
    assert_eq!(cache.users.len(), 1);
    assert_read_from_pool(&cache, 0);
}

fn assert_user_data(cache: &Cache, tokens: &Tokens, user: &Address) {
    let data = cache.get_user_data(tokens, user, &fetch(tokens, NOW)).unwrap();

    assert_eq!(cache.contains(user), true);
    assert_eq!(cache.users.len(), 1);
    assert_eq!(
        data.collateral_scaled,
        vec![zero(), liquidity_scaled(cache, 1, amount(20, 6)), zero()]
    );
    assert_eq!(
        data.reserve_scaled,
        vec![
            liquidity_scaled(cache, 0, amount(10, 18)),
            zero(),
            liquidity_scaled(cache, 2, amount(30, 12)),
        ]
    );
    assert_eq!(
        data.borrowed_scaled,
        vec![
            borrow_scaled(cache, 0, amount(10, 18)),
            borrow_scaled(cache, 1, amount(20, 6)),
            borrow_scaled(cache, 2, amount(30, 12)),
        ]
    );
    assert_eq!(
        data.liquidity_indexes,
        vec![amount(1045, 24), amount(1035, 24), amount(1025, 24)]
    );
    assert_eq!(data.liquidity_rates, vec![amount(45, 24), amount(35, 24), amount(25, 24)]);
    assert_eq!(
        data.variable_borrow_indexes,
        vec![amount(105, 25), amount(104, 25), amount(103, 25)]
    );
    assert_eq!(data.variable_borrow_rates, vec![amount(5, 25), amount(4, 25), amount(3, 25)]);
    assert_eq!(
        data.last_update_timestamps,
        vec![U40::from_seconds((NOW / 1_000_000) as u64); 3]
    );
    assert_eq!(data.user_settings.row_num, 0);
    let told = User::new(*user, 0, &data.user_settings.use_as_collateral);
    assert_eq!(told.use_as_collateral, vec![false, true, false]);
}

#[test]
fn test_get_user_data() {
    let (cache, tokens) = generate_cache_and_tokens(1);
    assert_user_data(&cache, &tokens, &user_address());
}

#[test]
fn test_contains() {
    let (cache, _) = generate_cache_and_tokens(1);
    assert_eq!(cache.contains(&user_address()), true);
}

#[test]
fn test_remove_user() {
    let (mut cache, _) = generate_cache_and_tokens(1);
    cache.remove_user(&user_address());
    assert_eq!(cache.contains(&user_address()), false);
}

#[test]
fn test_create_user() {
    // user exists

    let (mut cache, tokens) = generate_cache_and_tokens(1);
    let user = user_address();

    assert_eq!(cache.contains(&user), true);
    let exist = cache.init_user(&user, &tokens);
    assert_eq!(cache.contains(&user), true);
    assert_eq!(exist, true);

    // create new user

    let (mut cache, tokens) = generate_cache_and_tokens(0);
    let at = received(NOW + 1);

    assert_eq!(cache.init_user(&user, &tokens), false);
    let request = create_user(&mut cache, &tokens, &user, Some(fetch(&tokens, NOW)), &at);
    assert_eq!(request, Ok(SyncRequest::Both(SyncTarget::Row(0), at.rq_date)));
    assert_user_data(&cache, &tokens, &user);

    // error

    let provider = CreateUserDataProvider::new();
    let (mut cache, tokens) = generate_cache_and_tokens(0);

    assert_eq!(cache.init_user(&user, &tokens), false);
    let refusal = provider.get_reserve_data().err();
    assert_eq!(provider.get_user_reserve_data().err(), refusal);
    assert_eq!(refusal, Some(String::from("mock error")));
    let err = create_user(&mut cache, &tokens, &user, None, &at);
    assert_eq!(err, Err(Error::Provider(user)));
    assert_eq!(cache.contains(&user), false);
}

// ---- events ----

#[test]
fn tests_test_supply() {
    // create new user

    let (mut cache, tokens) = generate_cache_and_tokens(0);
    let user = user_address();
    let at = received(NOW + 1);
    let event = Supply { reserve: aave(), on_behalf_of: user, amount: amount(10, 18) };

    assert_eq!(cache.users.len(), 0);
    assert!(admits_event(&cache, &tokens, &UserEvent::Supply(event), &at));
    let step = supply(&mut cache, &tokens, &event, &at);
    assert_eq!(
        finish(&mut cache, &tokens, &user, step, &at),
        vec![SyncRequest::Both(SyncTarget::Row(0), at.rq_date)]
    );
    assert_eq!(cache.users.len(), 1);
    assert_eq!(cache.contains(&user), true);
    assert_read_from_pool(&cache, 0);

    // collateral new event

    let (mut cache, tokens) = generate_cache_and_tokens(1);
    let event = Supply { reserve: aave(), on_behalf_of: user, amount: amount(20, 18) };

    let step = supply(&mut cache, &tokens, &event, &at);
    assert_eq!(
        finish(&mut cache, &tokens, &user, step, &at),
        vec![SyncRequest::Collateral(SyncTarget::Cell(0, 0), at.rq_date)]
    );
    assert_eq!(cache.users.len(), 1);
    assert_eq!(
        cache.collateral[0].balances,
        vec![liquidity_scaled(&cache, 0, amount(20, 18)), zero(), zero()]
    );
    assert_eq!(cache.reserve[0].balances, vec![zero(); 3]);
    assert_eq!(cache.borrowed[0].balances, vec![zero(); 3]);

    // reserve new event

    let (mut cache, tokens) = generate_cache_and_tokens(1);
    let event = Supply { reserve: usdc(), on_behalf_of: user, amount: amount(30, 6) };

    let step = supply(&mut cache, &tokens, &event, &at);
    assert_eq!(finish(&mut cache, &tokens, &user, step, &at), vec![]);
    assert_eq!(cache.users.len(), 1);
    assert_eq!(cache.collateral[0].balances, vec![zero(); 3]);
    assert_eq!(
        cache.reserve[0].balances,
        vec![zero(), liquidity_scaled(&cache, 1, amount(30, 6)), zero()]
    );
    assert_eq!(cache.borrowed[0].balances, vec![zero(); 3]);

    // collateral skip event

    let early = received(NOW - 1);
    let (mut cache, tokens) = generate_cache_and_tokens(1);
    let event = Supply { reserve: aave(), on_behalf_of: user, amount: amount(40, 18) };

    assert_eq!(supply(&mut cache, &tokens, &event, &early), Ok(Step::Skipped));
    assert_eq!(cache.users.len(), 1);
    assert_untouched(&cache);

    // reserve skip event

    let (mut cache, tokens) = generate_cache_and_tokens(1);
    let event = Supply { reserve: usdc(), on_behalf_of: user, amount: amount(50, 18) };

    assert_eq!(supply(&mut cache, &tokens, &event, &early), Ok(Step::Skipped));
    assert_eq!(cache.users.len(), 1);
    assert_untouched(&cache);

    // sync event

    let (mut cache, tokens) = generate_cache_and_tokens(10);
    let event = Supply { reserve: aave(), on_behalf_of: user, amount: amount(40, 18) };
    cache.collateral[0].last_modified = NOW + 2;
    cache.collateral[0].last_sync = NOW + 2 - 1 - 24 * 60 * 60 * 1000_000;

    assert_eq!(cache.users.len(), 10);
    let step = supply(&mut cache, &tokens, &event, &at);
    assert_eq!(step, Ok(Step::Resync));
    assert_eq!(
        finish(&mut cache, &tokens, &user, step, &at),
        vec![SyncRequest::Both(SyncTarget::Row(0), at.rq_date)]
    );
    assert_eq!(cache.users.len(), 10);
    assert_read_from_pool(&cache, 0);
}

#[test]
fn test_withdraw() {
    // create new user

    let (mut cache, tokens) = generate_cache_and_tokens(0);
    let user = user_address();
    let at = received(NOW + 1);
    let event = Withdraw { reserve: aave(), user, amount: amount(10, 18) };

    assert_eq!(cache.users.len(), 0);
    let step = withdraw(&mut cache, &tokens, &event, &at);
    assert_eq!(
        finish(&mut cache, &tokens, &user, step, &at),
        vec![SyncRequest::Both(SyncTarget::Row(0), at.rq_date)]
    );
    assert_eq!(cache.users.len(), 1);
    assert_eq!(cache.contains(&user), true);
    assert_read_from_pool(&cache, 0);

    // collateral new event

    let (mut cache, tokens) = generate_cache_and_tokens(1);
    cache.collateral[0].balances =
        vec![liquidity_scaled(&cache, 0, amount(100, 18)), zero(), zero()];
    let event = Withdraw { reserve: aave(), user, amount: amount(20, 18) };

    let step = withdraw(&mut cache, &tokens, &event, &at);
    assert_eq!(
        finish(&mut cache, &tokens, &user, step, &at),
        vec![SyncRequest::Collateral(SyncTarget::Cell(0, 0), at.rq_date)]
    );
    assert_eq!(cache.users.len(), 1);
    assert_eq!(
        cache.collateral[0].balances,
        vec![liquidity_scaled(&cache, 0, amount(80, 18)), zero(), zero()]
    );
    assert_eq!(cache.reserve[0].balances, vec![zero(); 3]);
    assert_eq!(cache.borrowed[0].balances, vec![zero(); 3]);

    // reserve new event

    let (mut cache, tokens) = generate_cache_and_tokens(1);
    cache.reserve[0].balances =
        vec![zero(), liquidity_scaled(&cache, 1, amount(100, 6)), zero()];
    let event = Withdraw { reserve: usdc(), user, amount: amount(30, 6) };

    let step = withdraw(&mut cache, &tokens, &event, &at);
    assert_eq!(finish(&mut cache, &tokens, &user, step, &at), vec![]);
    assert_eq!(cache.users.len(), 1);
    assert_eq!(cache.collateral[0].balances, vec![zero(); 3]);
    assert_eq!(
        cache.reserve[0].balances,
        vec![zero(), liquidity_scaled(&cache, 1, amount(70, 6)), zero()]
    );
    assert_eq!(cache.borrowed[0].balances, vec![zero(); 3]);

    // collateral skip event

    let early = received(NOW - 1);
    let (mut cache, tokens) = generate_cache_and_tokens(1);
    let event = Withdraw { reserve: aave(), user, amount: amount(40, 18) };

    assert_eq!(withdraw(&mut cache, &tokens, &event, &early), Ok(Step::Skipped));
    assert_eq!(cache.users.len(), 1);
    assert_untouched(&cache);

    // reserve skip event

    let (mut cache, tokens) = generate_cache_and_tokens(1);
    let event = Withdraw { reserve: usdc(), user, amount: amount(50, 18) };

    assert_eq!(withdraw(&mut cache, &tokens, &event, &early), Ok(Step::Skipped));
    assert_eq!(cache.users.len(), 1);
    assert_untouched(&cache);

    // sync event

    let (mut cache, tokens) = generate_cache_and_tokens(10);
    let event = Withdraw { reserve: aave(), user, amount: amount(40, 18) };
    cache.collateral[0].last_modified = NOW + 2;

    assert_eq!(cache.users.len(), 10);
    let step = withdraw(&mut cache, &tokens, &event, &at);
    assert_eq!(step, Ok(Step::Resync));
    assert_eq!(
        finish(&mut cache, &tokens, &user, step, &at),
        vec![SyncRequest::Both(SyncTarget::Row(0), at.rq_date)]
    );
    assert_eq!(cache.users.len(), 10);
    assert_read_from_pool(&cache, 0);
}

#[test]
fn test_borrow() {
    // create new user

    let (mut cache, tokens) = generate_cache_and_tokens(0);
    let user = user_address();
    let at = received(NOW + 1);
    let event = Borrow { reserve: aave(), on_behalf_of: user, amount: amount(10, 18) };

    assert_eq!(cache.users.len(), 0);
    let step = borrow(&mut cache, &tokens, &event, &at);
    assert_eq!(
        finish(&mut cache, &tokens, &user, step, &at),
        vec![SyncRequest::Both(SyncTarget::Row(0), at.rq_date)]
    );
    assert_eq!(cache.users.len(), 1);
    assert_eq!(cache.contains(&user), true);
    assert_read_from_pool(&cache, 0);

    // borrowed new event

    let (mut cache, tokens) = generate_cache_and_tokens(1);
    cache.borrowed[0].balances =
        vec![borrow_scaled(&cache, 0, amount(100, 18)), zero(), zero()];
    let event = Borrow { reserve: aave(), on_behalf_of: user, amount: amount(20, 18) };

    let step = borrow(&mut cache, &tokens, &event, &at);
    assert_eq!(
        finish(&mut cache, &tokens, &user, step, &at),
        vec![SyncRequest::Borrowed(SyncTarget::Cell(0, 0), at.rq_date)]
    );
    assert_eq!(cache.users.len(), 1);
    assert_eq!(cache.collateral[0].balances, vec![zero(); 3]);
    assert_eq!(cache.reserve[0].balances, vec![zero(); 3]);
    assert_eq!(
        cache.borrowed[0].balances,
        vec![borrow_scaled(&cache, 0, amount(120, 18)), zero(), zero()]
    );

    // borrowed skip event

    let (mut cache, tokens) = generate_cache_and_tokens(1);
    let units = borrow_scaled(&cache, 0, amount(30, 18));
    let event = Borrow { reserve: aave(), on_behalf_of: user, amount: units };

    assert_eq!(borrow(&mut cache, &tokens, &event, &received(NOW - 1)), Ok(Step::Skipped));
    assert_eq!(cache.users.len(), 1);
    assert_untouched(&cache);

    // sync event

    let (mut cache, tokens) = generate_cache_and_tokens(10);
    let units = borrow_scaled(&cache, 0, amount(40, 18));
    let event = Borrow { reserve: aave(), on_behalf_of: user, amount: units };
    cache.borrowed[0].last_modified = NOW + 2;

    assert_eq!(cache.users.len(), 10);
    let step = borrow(&mut cache, &tokens, &event, &at);
    assert_eq!(step, Ok(Step::Resync));
    assert_eq!(
        finish(&mut cache, &tokens, &user, step, &at),
        vec![SyncRequest::Both(SyncTarget::Row(0), at.rq_date)]
    );
    assert_eq!(cache.users.len(), 10);
    assert_read_from_pool(&cache, 0);
}

#[test]
fn test_repay() {
    // create new user

    let (mut cache, tokens) = generate_cache_and_tokens(0);
    let user = user_address();
    let at = received(NOW + 1);
    let event = Repay { reserve: aave(), user, amount: amount(10, 18) };

    assert_eq!(cache.users.len(), 0);
    let step = repay(&mut cache, &tokens, &event, &at);
    assert_eq!(
        finish(&mut cache, &tokens, &user, step, &at),
        vec![SyncRequest::Both(SyncTarget::Row(0), at.rq_date)]
    );
    assert_eq!(cache.users.len(), 1);
    assert_eq!(cache.contains(&user), true);
    assert_read_from_pool(&cache, 0);

    // repay new event

    let (mut cache, tokens) = generate_cache_and_tokens(1);
    cache.borrowed[0].balances =
        vec![borrow_scaled(&cache, 0, amount(100, 18)), zero(), zero()];

    let step = repay(&mut cache, &tokens, &event, &at);
    assert_eq!(
        finish(&mut cache, &tokens, &user, step, &at),
        vec![SyncRequest::Borrowed(SyncTarget::Cell(0, 0), at.rq_date)]
    );
    assert_eq!(cache.users.len(), 1);
    assert_eq!(cache.collateral[0].balances, vec![zero(); 3]);
    assert_eq!(cache.reserve[0].balances, vec![zero(); 3]);
    assert_eq!(
        cache.borrowed[0].balances,
        vec![borrow_scaled(&cache, 0, amount(90, 18)), zero(), zero()]
    );

    // borrowed skip event

    let (mut cache, tokens) = generate_cache_and_tokens(1);
    let event = Repay { reserve: aave(), user, amount: amount(30, 18) };

    assert_eq!(repay(&mut cache, &tokens, &event, &received(NOW - 1)), Ok(Step::Skipped));
    assert_eq!(cache.users.len(), 1);
    assert_untouched(&cache);

    // sync event

    let (mut cache, tokens) = generate_cache_and_tokens(10);
    let event = Repay { reserve: aave(), user, amount: amount(40, 18) };
    cache.borrowed[0].last_modified = NOW + 2;

    assert_eq!(cache.users.len(), 10);
    let step = repay(&mut cache, &tokens, &event, &at);
    assert_eq!(step, Ok(Step::Resync));
    assert_eq!(
        finish(&mut cache, &tokens, &user, step, &at),
        vec![SyncRequest::Both(SyncTarget::Row(0), at.rq_date)]
    );
    assert_eq!(cache.users.len(), 10);
    assert_read_from_pool(&cache, 0);
}

#[test]
fn test_reserve_used_as_collateral_enabled() {
    // create new user

    let (mut cache, tokens) = generate_cache_and_tokens(0);
    let user = user_address();
    let at = received(NOW + 1);
    let event = ReserveUsedAsCollateralEnabled { reserve: aave(), user };

    assert_eq!(cache.users.len(), 0);
    let step = reserve_used_as_collateral_enabled(&mut cache, &tokens, &event, &at);
    assert_eq!(
        finish(&mut cache, &tokens, &user, step, &at),
        vec![SyncRequest::Both(SyncTarget::Row(0), at.rq_date)]
    );
    assert_eq!(cache.users.len(), 1);
    assert_eq!(cache.contains(&user), true);
    assert_read_from_pool(&cache, 0);

    // new event

    let (mut cache, tokens) = generate_cache_and_tokens(1);
    cache.reserve[0].balances =
        vec![zero(), zero(), liquidity_scaled(&cache, 2, amount(30, 12))];
    let event = ReserveUsedAsCollateralEnabled { reserve: dai(), user };

    let step = reserve_used_as_collateral_enabled(&mut cache, &tokens, &event, &at);
    assert_eq!(
        finish(&mut cache, &tokens, &user, step, &at),
        vec![SyncRequest::Collateral(SyncTarget::Cell(0, 2), at.rq_date)]
    );
    assert_eq!(cache.users.len(), 1);
    assert_eq!(
        cache.collateral[0].balances,
        vec![zero(), zero(), liquidity_scaled(&cache, 2, amount(30, 12))]
    );
    assert_eq!(cache.reserve[0].balances, vec![zero(); 3]);
    assert_eq!(cache.borrowed[0].balances, vec![zero(); 3]);
    assert_eq!(cache.get_user(0).unwrap().use_as_collateral, vec![true, false, true]);

    // skip event

    let (mut cache, tokens) = generate_cache_and_tokens(1);
    let event = ReserveUsedAsCollateralEnabled { reserve: aave(), user };

    assert_eq!(
        reserve_used_as_collateral_enabled(&mut cache, &tokens, &event, &received(NOW - 1)),
        Ok(Step::Skipped)
    );
    assert_eq!(cache.users.len(), 1);
    assert_untouched(&cache);

    // sync event

    let (mut cache, tokens) = generate_cache_and_tokens(10);
    cache.reserve[0].last_modified = NOW + 2;

    assert_eq!(cache.users.len(), 10);
    let step = reserve_used_as_collateral_enabled(&mut cache, &tokens, &event, &at);
    assert_eq!(step, Ok(Step::Resync));
    assert_eq!(
        finish(&mut cache, &tokens, &user, step, &at),
        vec![SyncRequest::Both(SyncTarget::Row(0), at.rq_date)]
    );
    assert_eq!(cache.users.len(), 10);
    assert_read_from_pool(&cache, 0);
}

#[test]
fn test_reserve_used_as_collateral_disabled() {
    // create new user

    let (mut cache, tokens) = generate_cache_and_tokens(0);
    let user = user_address();
    let at = received(NOW + 1);
    let event = ReserveUsedAsCollateralDisabled { reserve: aave(), user };

    assert_eq!(cache.users.len(), 0);
    let step = reserve_used_as_collateral_disabled(&mut cache, &tokens, &event, &at);
    assert_eq!(
        finish(&mut cache, &tokens, &user, step, &at),
        vec![SyncRequest::Both(SyncTarget::Row(0), at.rq_date)]
    );
    assert_eq!(cache.users.len(), 1);
    assert_eq!(cache.contains(&user), true);
    assert_read_from_pool(&cache, 0);

    // new event

    let (mut cache, tokens) = generate_cache_and_tokens(1);
    cache.collateral[0].balances =
        vec![zero(), zero(), liquidity_scaled(&cache, 2, amount(30, 12))];
    let event = ReserveUsedAsCollateralDisabled { reserve: dai(), user };

    let step = reserve_used_as_collateral_disabled(&mut cache, &tokens, &event, &at);
    assert_eq!(
        finish(&mut cache, &tokens, &user, step, &at),
        vec![SyncRequest::Collateral(SyncTarget::Cell(0, 2), at.rq_date)]
    );
    assert_eq!(cache.users.len(), 1);
    assert_eq!(
        cache.reserve[0].balances,
        vec![zero(), zero(), liquidity_scaled(&cache, 2, amount(30, 12))]
    );
    assert_eq!(cache.collateral[0].balances, vec![zero(); 3]);
    assert_eq!(cache.borrowed[0].balances, vec![zero(); 3]);

    // skip event

    let (mut cache, tokens) = generate_cache_and_tokens(1);
    let event = ReserveUsedAsCollateralDisabled { reserve: aave(), user };

    assert_eq!(
        reserve_used_as_collateral_disabled(&mut cache, &tokens, &event, &received(NOW - 1)),
        Ok(Step::Skipped)
    );
    assert_eq!(cache.users.len(), 1);
    assert_untouched(&cache);

    // sync event

    let (mut cache, tokens) = generate_cache_and_tokens(10);
    cache.reserve[0].last_modified = NOW + 2;

    assert_eq!(cache.users.len(), 10);
    let step = reserve_used_as_collateral_disabled(&mut cache, &tokens, &event, &at);
    assert_eq!(step, Ok(Step::Resync));
    assert_eq!(
        finish(&mut cache, &tokens, &user, step, &at),
        vec![SyncRequest::Both(SyncTarget::Row(0), at.rq_date)]
    );
    assert_eq!(cache.users.len(), 10);
    assert_read_from_pool(&cache, 0);
}

#[test]
fn test_liquidation_call() {
    // create new user

    let (mut cache, tokens) = generate_cache_and_tokens(0);
    let user = user_address();
    let at = received(NOW + 1);
    let event = LiquidationCall {
        collateral_asset: aave(),
        debt_asset: usdc(),
        user,
        debt_to_cover: amount(10, 6),
        liquidated_collateral_amount: amount(10, 18),
    };

    assert_eq!(cache.users.len(), 0);
    let step = liquidation_call(&mut cache, &tokens, &event, &at);
    assert_eq!(
        finish(&mut cache, &tokens, &user, step, &at),
        vec![SyncRequest::Both(SyncTarget::Row(0), at.rq_date)]
    );
    assert_eq!(cache.users.len(), 1);
    assert_eq!(cache.contains(&user), true);
    assert_read_from_pool(&cache, 0);

    // new event

    let (mut cache, tokens) = generate_cache_and_tokens(1);
    cache.collateral[0].balances =
        vec![liquidity_scaled(&cache, 0, amount(30, 18)), zero(), zero()];
    cache.borrowed[0].balances =
        vec![zero(), borrow_scaled(&cache, 1, amount(100_000, 6)), zero()];
    let event = LiquidationCall {
        collateral_asset: aave(),
        debt_asset: usdc(),
        user,
        debt_to_cover: amount(50_000, 6),
        liquidated_collateral_amount: amount(10, 18),
    };

    assert!(admits_event(&cache, &tokens, &UserEvent::LiquidationCall(event), &at));
    let step = liquidation_call(&mut cache, &tokens, &event, &at);
    assert_eq!(
        finish(&mut cache, &tokens, &user, step, &at),
        vec![
            SyncRequest::Collateral(SyncTarget::Cell(0, 0), at.rq_date),
            SyncRequest::Borrowed(SyncTarget::Cell(0, 1), at.rq_date),
        ]
    );
    assert_eq!(cache.users.len(), 1);
    assert_eq!(cache.reserve[0].balances, vec![zero(); 3]);
    assert_eq!(
        cache.collateral[0].balances,
        vec![liquidity_scaled(&cache, 0, amount(20, 18)), zero(), zero()]
    );
    assert_eq!(
        cache.borrowed[0].balances,
        vec![zero(), borrow_scaled(&cache, 1, amount(50_000, 6)), zero()]
    );

    // skip event

    let (mut cache, tokens) = generate_cache_and_tokens(1);

    assert_eq!(
        liquidation_call(&mut cache, &tokens, &event, &received(NOW - 1)),
        Ok(Step::Skipped)
    );
    assert_eq!(cache.users.len(), 1);
    assert_untouched(&cache);

    // sync event

    let (mut cache, tokens) = generate_cache_and_tokens(10);
    cache.borrowed[0].last_modified = NOW + 2;

    assert_eq!(cache.users.len(), 10);
    let step = liquidation_call(&mut cache, &tokens, &event, &at);
    assert_eq!(step, Ok(Step::Resync));
    assert_eq!(
        finish(&mut cache, &tokens, &user, step, &at),
        vec![SyncRequest::Both(SyncTarget::Row(0), at.rq_date)]
    );
    assert_eq!(cache.users.len(), 10);
    assert_read_from_pool(&cache, 0);
}

#[test]
fn test_reserve_data_updated() {
    let (mut cache, tokens) = generate_cache_and_tokens(1);
    let event = ReserveDataUpdated {
        reserve: aave(),
        liquidity_rate: amount(1045, 24),
        variable_borrow_rate: amount(105, 25),
        liquidity_index: amount(1045, 24),
        variable_borrow_index: amount(105, 25),
    };
    let rq_date = NOW + 1;
    let now = NOW + 5_000_123;

    assert!(admits_reserve_update(&cache, &tokens, &event, now));
    let request = reserve_data_updated(&mut cache, &tokens, &event, rq_date, now);
    assert_eq!(request, Ok(HFRequest::Full(rq_date)));

    let (li1, li2, li3) = (
        amount(1045, 24),
        U256::from_u128(1035000057434360730593607306),
        U256::from_u128(1025000040628170979198376459),
    );
    let liquidity = &cache.liquidity.values;
    assert_eq!(liquidity[0].index, li1);
    assert_eq!(liquidity[0].rate, amount(1045, 24));
    assert_ne!(liquidity[0].last_update, rq_date);
    assert_eq!(liquidity[1].index, li2);
    assert_eq!(liquidity[1].rate, amount(35, 25));
    assert_ne!(liquidity[1].last_update, rq_date);
    assert_eq!(liquidity[2].index, li3);
    assert_eq!(liquidity[2].rate, amount(25, 25));
    assert_ne!(liquidity[2].last_update, rq_date);
    assert_eq!(cache.get_liquidity_index(), vec![li1, li2, li3]);

    let (vbi1, vbi2, vbi3) = (
        amount(105, 25),
        U256::from_u128(1040000065956367326230339929),
        U256::from_u128(1030000048991628614916286150),
    );
    let vb = &cache.variable_borrow.values;
    assert_eq!(vb[0].index, vbi1);
    assert_eq!(vb[0].rate, amount(105, 25));
    assert_ne!(vb[0].last_update, rq_date);
    assert_eq!(vb[1].index, vbi2);
    assert_eq!(vb[1].rate, amount(4, 26));
    assert_ne!(vb[1].last_update, rq_date);
    assert_eq!(vb[2].index, vbi3);
    assert_eq!(vb[2].rate, amount(3, 26));
    assert_ne!(vb[2].last_update, rq_date);
    assert_eq!(cache.get_variable_borrow_index(), vec![vbi1, vbi2, vbi3]);
}

// ---- tokens, prices and thresholds ----

#[test]
fn test_setup() {
    let known = generate_tokens();
    let found = vec![
        FoundToken {
            symbol: String::from("AAVE"),
            address: aave(),
            price_source: aave_source(),
            decimals: double(1e18),
            price_decimals: double(1e18),
        },
        FoundToken {
            symbol: String::from("USDC"),
            address: usdc(),
            price_source: usdc_source(),
            decimals: double(1e6),
            price_decimals: double(1e6),
        },
        FoundToken {
            symbol: String::from("DAI"),
            address: dai(),
            price_source: dai_source(),
            decimals: double(1e12),
            price_decimals: double(1e12),
        },
    ];

    let tokens = setup(found);

    assert_eq!(tokens.len(), 3);
    for i in 0..tokens.len() {
        let (address, details) = tokens.entry(i);
        let expected = known.get(address).unwrap();
        assert_eq!(details.name, expected.name);
        assert_eq!(details.price_source, expected.price_source);
        assert_eq!(details.order, i);
    }
}

#[test]
fn test_liquidation_threshold_update() {
    let (mut cache, tokens) = generate_cache_and_tokens(1);
    cache.liquidation_threshold.values = doubles(&[0.9, 0.9, 0.9]);
    let found = vec![(double(0.75), 2), (double(0.78), 0), (double(0.8), 1)];

    let thresholds = liquidation_thresholds(&tokens, &found);
    assert_eq!(floats(&thresholds), vec![0.78, 0.8, 0.75]);
    let modified = !floats(&thresholds)
        .iter()
        .zip(floats(&cache.get_liquidation_threshold()))
        .all(|(a, b)| (a - b).abs() < 1e-8);
    let request = cache.update_liquidation_threshold(thresholds, modified, NOW + 7);

    assert_eq!(request, Some(HFRequest::Full(NOW + 7)));
    assert_eq!(floats(&cache.get_liquidation_threshold()), vec![0.78, 0.8, 0.75]);
    assert!(cache.liquidation_threshold.last_modified > NOW);
}

#[test]
fn test_answer_updated() {
    let (mut cache, tokens) = generate_cache_and_tokens(1);
    let rq_date = NOW + 1;
    let price = 999_001_612_300_000_000_000_000_000_f64
        / f64::from_bits(tokens.get(&aave()).unwrap().price_decimals.bits);

    let request = answer_updated(&mut cache, &tokens, &aave(), double(price), rq_date);

    assert_eq!(request, Ok(HFRequest::Full(rq_date)));
    let idx = tokens.order(&aave()).unwrap();
    assert_eq!(floats(&cache.get_prices())[idx] as f32, 999_001_612.30);
    assert_eq!(cache.prices.last_modified, rq_date);
}

// ---- health factors ----

fn dot(a: &[f64], b: &[f64]) -> f64 {
    a.iter().zip(b).map(|(x, y)| x * y).sum()
}

/// The health factor of one user, from the amounts that the cache gives.
fn user_hf(cache: &Cache, user: &Address) -> (usize, f64) {
    assert!(cache.admits_hf_amounts(user));
    let amounts = cache.hf_amounts(user).unwrap();
    let prices = floats(&cache.get_prices());
    let ltp: Vec<f64> = floats(&cache.get_liquidation_threshold())
        .iter()
        .zip(&prices)
        .map(|(l, p)| l * p)
        .collect();
    let collateral: Vec<f64> = amounts.collateral.iter().map(|v| as_f64_ray(*v)).collect();
    let borrowed: Vec<f64> = amounts.borrowed.iter().map(|v| as_f64_ray(*v)).collect();
    (amounts.row_num, dot(&collateral, &ltp) / dot(&borrowed, &prices))
}

/// The health factors of all rows, from the matrices.
fn all_hf(cache: &Cache) -> Vec<f64> {
    let prices = floats(&cache.get_prices());
    let ltp: Vec<f64> = floats(&cache.get_liquidation_threshold())
        .iter()
        .zip(&prices)
        .map(|(l, p)| l * p)
        .collect();
    let current = |row: &Vec<U256>, indexes: &Vec<U256>| -> Vec<f64> {
        row.iter().zip(indexes).map(|(v, i)| as_f64_ray(*v) * as_f64_ray(*i)).collect()
    };
    let li = cache.get_liquidity_index();
    let vbi = cache.get_variable_borrow_index();
    cache
        .get_collateral_matrix()
        .iter()
        .zip(cache.get_borrowed_matrix().iter())
        .map(|(c, b)| dot(&current(c, &li), &ltp) / dot(&current(b, &vbi), &prices))
        .collect()
}

#[test]
fn test_calc_hf() {
    // one user

    let (mut cache, _) = generate_cache_and_tokens(1);
    let user = user_address();
    cache.liquidation_threshold.values = doubles(&[0.0, 0.75, 0.8]);
    cache.prices.values = doubles(&[120_000.0, 4000.0, 200.0]);
    let col = vec![
        liquidity_scaled(&cache, 0, amount(2, 18)),
        liquidity_scaled(&cache, 1, amount(10, 6)),
        liquidity_scaled(&cache, 2, amount(200, 12)),
    ];
    let bor = vec![
        borrow_scaled(&cache, 0, amount(1, 18)),
        borrow_scaled(&cache, 1, amount(15, 6)),
        zero(),
    ];
    cache.collateral[0].balances = col.clone();
    cache.borrowed[0].balances = bor.clone();

    let (row, hf) = user_hf(&cache, &user);
    cache.store_hf(row, double(hf), NOW);

    assert_eq!(floats(&cache.get_health_factors()), vec![0.34444444444444444]);

    // all users

    let (mut cache, _) = generate_cache_and_tokens(3);
    cache.liquidation_threshold.values = doubles(&[0.0, 0.75, 0.8]);
    cache.prices.values = doubles(&[120_000.0, 4000.0, 200.0]);
    for row in 0..3 {
        cache.collateral[row].balances = col.clone();
        cache.borrowed[row].balances = bor.clone();
    }
    assert_eq!(cache.sync_data(&SyncTarget::Row(0)), Ok(()));

    let factors = doubles(&all_hf(&cache));
    cache.store_all_hf(factors, NOW);

    assert_eq!(
        floats(&cache.get_health_factors()),
        vec![0.34444444444444444, 0.34444444444444444, 0.34444444444444444]
    );
}

#[test]
fn test_hf_calc() {
    let (mut cache, _) = generate_cache_and_tokens(2);
    let user = user_address();
    cache.prices.values = doubles(&[120_000.0, 4000.0, 200.0]);
    cache.liquidation_threshold.values = doubles(&[0.78, 0.8, 0.75]);
    cache.collateral[0].balances = vec![
        liquidity_scaled(&cache, 0, amount(1, 18)),
        liquidity_scaled(&cache, 1, amount(2, 6)),
        liquidity_scaled(&cache, 2, amount(3, 12)),
    ];
    cache.collateral[1].balances = vec![
        liquidity_scaled(&cache, 0, amount(4, 18)),
        liquidity_scaled(&cache, 1, amount(5, 6)),
        liquidity_scaled(&cache, 2, amount(6, 12)),
    ];
    cache.borrowed[0].balances = vec![
        borrow_scaled(&cache, 0, amount(4, 18)),
        borrow_scaled(&cache, 1, amount(5, 6)),
        borrow_scaled(&cache, 2, amount(6, 12)),
    ];
    cache.borrowed[1].balances = vec![
        borrow_scaled(&cache, 0, amount(1, 18)),
        borrow_scaled(&cache, 1, amount(2, 6)),
        borrow_scaled(&cache, 2, amount(3, 12)),
    ];

    let (row, hf) = user_hf(&cache, &user);
    cache.store_hf(row, double(hf), NOW);
    assert_eq!(floats(&cache.get_health_factors()), vec![0.20041899441340782, 0.0]);

    assert_eq!(cache.sync_data(&SyncTarget::Row(0)), Ok(()));
    let factors = doubles(&all_hf(&cache));
    cache.store_all_hf(factors, NOW);
    assert_eq!(
        floats(&cache.get_health_factors()),
        vec![0.20041899441340782, 3.042768273716952]
    );
}

#[test]
fn test_hf_lookup() {
    let (mut cache, _) = generate_cache_and_tokens(0);
    cache.store_all_hf(doubles(&[4.1, 0.9, 0.0, 2.1, 0.99, 1.1, 1.0]), NOW);
    assert_eq!(cache.liquidation_lookup(), vec![1, 2, 4]);
}

// ---- arithmetic ----

#[test]
fn test_ray_ops() {
    let decimals = double(1_000_000.0);
    let value = amount(20, 6);
    let liquidity_index = amount(104, 25);
    let amount_scaled = value.to_ray(decimals).to_scaled(liquidity_index);
    let expected = U256::from_u128(19_230_769_230_000_000_000_000_000_000);

    assert_eq!(as_f64_ray(amount_scaled) as f32, as_f64_ray(expected) as f32);
    assert_eq!(amount_scaled, U256::from_u128(19_230_769_230_769_230_769_230_769_231));
}

#[test]
fn test_some_numbers() {
    let scaled = |n: u128, units: u64, decimals: f64, index: U256| {
        wide(amount(n, units).to_ray(double(decimals)).to_scaled(index))
    };

    let total = scaled(1, 18, 1e18, amount(1045, 24)) - scaled(1, 18, 1e18, amount(1051, 24))
        + scaled(10, 18, 1e18, amount(1054, 24));
    assert_eq!(total, alloy_primitives::U256::from(9493129047280486755506052494_u128));

    let part = U256::from_u128(1).ray_div(U256::from_u128(31_536_000));
    let interest = amount(6, 26).ray_mul(part);
    let factor = wide(U256::from_u128(1_000_000_000_000_000_000_000_000_000)) + wide(interest);
    let vbi_new = amount(106, 25).ray_mul(U256 { limbs: factor.into_limbs() });
    let total = scaled(1, 18, 1e18, amount(105, 25)) + scaled(10, 18, 1e18, amount(1057, 24))
        - scaled(10, 18, 1e18, amount(1058, 24))
        - scaled(1, 18, 1e18, vbi_new);
    assert_eq!(total, alloy_primitives::U256::from(17926840264096303005033358_u128));

    let total = scaled(2, 6, 1e6, amount(1035, 24)) + scaled(2, 6, 1e6, amount(1035, 24))
        - scaled(1, 6, 1e6, amount(1036, 24));
    assert_eq!(total, alloy_primitives::U256::from(2899483334265942961595135509_u128));

    let total = scaled(1, 6, 1e6, amount(104, 25)) + scaled(20, 6, 1e6, amount(1042, 24))
        - scaled(20, 6, 1e6, amount(1043, 24));
    assert_eq!(total, alloy_primitives::U256::from(979941009923361879460760034_u128));

    let total = scaled(3, 12, 1e12, amount(1025, 24)) + scaled(30, 12, 1e12, amount(1025, 24))
        - scaled(13, 12, 1e12, amount(1026, 24))
        - scaled(10, 12, 1e12, amount(1029, 24));
    assert_eq!(total, alloy_primitives::U256::from(9806383665596156754365865996_u128));

    let total = scaled(1, 12, 1e12, amount(103, 25)) + scaled(30, 12, 1e12, amount(1032, 24))
        - scaled(30, 12, 1e12, amount(1033, 24));
    assert_eq!(total, alloy_primitives::U256::from(999014897193691932320573917_u128));
}
