use liquidation_bot::address::Address;
use liquidation_bot::cache::{Cache, Indexes, RayArray, Row};
use liquidation_bot::dispatch::assign_rows;
use liquidation_bot::float::F64;
use liquidation_bot::probe::{
    admits_comparison, compare_probe, difference, difference_2d, probe_window,
};
use liquidation_bot::stats::{IndexRate, User};
use liquidation_bot::tokens::{setup, FoundToken, TokenDetails, Tokens};
use liquidation_bot::types::{
    HFRequest, Index, ReserveData, Side, SyncTarget, UserAccountData, UserReserveData, U40,
};
use liquidation_bot::uint::U256;
use liquidation_bot::users::{CollateralFlags, UserSettings};

const RAY: u128 = 1_000_000_000_000_000_000_000_000_000;

fn u(value: u128) -> U256 {
    U256::from_u128(value)
}

fn double(v: f64) -> F64 {
    F64 { bits: v.to_bits() }
}

fn token(i: u128) -> Address {
    Address { high: 7, low: i }
}

fn account(i: u128) -> Address {
    Address { high: 9, low: i }
}

fn tokens() -> Tokens {
    let found = |i: u128, decimals: f64| FoundToken {
        symbol: format!("T{}", i),
        address: token(i),
        price_source: Address { high: 8, low: i },
        decimals: double(decimals),
        price_decimals: double(1e8),
    };
    setup(vec![found(1, 1e6), found(2, 1e18)])
}

/// A cache of two tokens and `n` users, the `i`-th with the row `n - 1 - i`.
fn filled(n: usize) -> Cache {
    let tokens = tokens();
    let mut cache = Cache::default();
    let _ = cache.init(&tokens, 5);
    cache.init_prices(vec![double(2.0), double(3.0)], 6);
    for i in 0..n {
        let flags = CollateralFlags::from_values(&vec![i % 2 == 0, true]);
        cache.users.insert(account(i as u128).key(), UserSettings::new(n - 1 - i, flags));
        let row = |side: u128| Row {
            balances: vec![u(100 * side + i as u128), u(200 * side + i as u128)],
            last_sync: 1,
            last_modified: 1,
        };
        cache.collateral.push(row(1));
        cache.reserve.push(row(2));
        cache.borrowed.push(row(3));
        cache.health_factors.values.push(double(i as f64));
    }
    cache.users_num = n;
    cache.liquidity = Indexes {
        values: vec![Index::new(u(RAY), u(11), 0), Index::new(u(2 * RAY), u(12), 0)],
        last_modified: 0,
    };
    cache.liquidity_index = RayArray { values: vec![u(RAY), u(2 * RAY)], last_modified: 0 };
    cache.variable_borrow = Indexes {
        values: vec![Index::new(u(3 * RAY), u(13), 0), Index::new(u(4 * RAY), u(14), 0)],
        last_modified: 0,
    };
    cache.variable_borrow_index =
        RayArray { values: vec![u(3 * RAY), u(4 * RAY)], last_modified: 0 };
    if n > 0 {
        assert_eq!(cache.sync_data(&SyncTarget::Row(0)), Ok(()));
    }
    cache
}

fn strings(values: &[u128]) -> Vec<String> {
    values.iter().map(|v| format!("{}", v)).collect()
}

#[test]
fn users_are_told_by_row() {
    let cache = filled(3);
    let user = cache.get_user(0).unwrap();
    assert_eq!(user.name, account(2));
    assert_eq!(user.row, 0);
    assert_eq!(user.use_as_collateral, vec![true, true]);
    assert_eq!(cache.get_user(1).unwrap().use_as_collateral, vec![false, true]);
    assert!(cache.get_user(3).is_none());

    let state = cache.get_users();
    assert_eq!(state.users_num, 3);
    let mut named: Vec<(usize, Address)> = state.users.iter().map(|u| (u.row, u.name)).collect();
    named.sort_by_key(|pair| pair.0);
    assert_eq!(named, vec![(0, account(2)), (1, account(1)), (2, account(0))]);
}

#[test]
fn flags_keep_their_order() {
    let mut values = vec![];
    for i in 0..130 {
        values.push(i % 3 == 0);
    }
    let flags = CollateralFlags::from_values(&values);
    assert_eq!(User::new(account(1), 4, &flags).use_as_collateral, values);
    let copy = UserSettings::new(4, flags).duplicate();
    assert_eq!(copy.row_num, 4);
    assert_eq!(User::new(account(1), 4, &copy.use_as_collateral).use_as_collateral, values);
    let none = CollateralFlags::from_values(&vec![]);
    assert_eq!(User::new(account(1), 4, &none).use_as_collateral, Vec::<bool>::new());
}

#[test]
fn rows_and_matrices_are_told() {
    let cache = filled(2);
    assert_eq!(cache.get_collateral(1), Some(strings(&[101, 201])));
    assert_eq!(cache.get_reserve(0), Some(strings(&[200, 400])));
    assert_eq!(cache.get_borrowed(1), Some(strings(&[301, 601])));
    assert_eq!(cache.get_collateral(2), None);
    assert_eq!(cache.get_reserve(2), None);
    assert_eq!(cache.get_borrowed(2), None);
    assert_eq!(cache.get_row(Side::Borrowed, 0), Some(strings(&[300, 600])));
    assert_eq!(cache.get_collateral_all(), vec![strings(&[100, 200]), strings(&[101, 201])]);
    assert_eq!(cache.get_reserve_all(), vec![strings(&[200, 400]), strings(&[201, 401])]);
    assert_eq!(cache.get_borrowed_all(), cache.get_all_rows(Side::Borrowed));
    assert_eq!(cache.get_collateral_matrix_row(1), Some(vec![u(101), u(201)]));
    assert_eq!(cache.get_collateral_matrix_row(2), None);
    assert_eq!(cache.get_borrowed_matrix_row(0), Some(vec![u(300), u(600)]));
    assert_eq!(cache.get_borrowed_matrix_row(2), None);
    assert_eq!(cache.get_borrowed_matrix(), vec![vec![u(300), u(600)], vec![u(301), u(601)]]);
}

#[test]
fn arrays_are_told() {
    let cache = filled(2);
    assert_eq!(cache.get_tokens(), vec![token(1), token(2)]);
    assert_eq!(cache.get_decimals(), vec![double(1e6), double(1e18)]);
    assert_eq!(cache.get_price_decimals(), vec![double(1e8), double(1e8)]);
    assert_eq!(cache.get_prices(), vec![double(2.0), double(3.0)]);
    assert_eq!(cache.get_liquidation_threshold(), vec![double(0.0), double(0.0)]);
    assert_eq!(cache.get_health_factors(), vec![double(0.0), double(1.0)]);
    assert_eq!(cache.get_health_factor(1), double(1.0));
    let told = cache.get_liquidity();
    assert_eq!(told[1].index, format!("{}", 2 * RAY));
    assert_eq!(told[1].rate, "12");
    let told = cache.get_variable_borrow();
    assert_eq!(told[0].index, format!("{}", 3 * RAY));
    assert_eq!(told[0].rate, "13");
    assert_eq!(cache.get_liquidity_index(), vec![u(RAY), u(2 * RAY)]);
    assert_eq!(cache.get_variable_borrow_index(), vec![u(3 * RAY), u(4 * RAY)]);
    let pair = IndexRate::new(String::from("1"), String::from("2"));
    assert_eq!((pair.index.as_str(), pair.rate.as_str()), ("1", "2"));
}

#[test]
fn the_whole_state_is_told() {
    let cache = filled(2);
    let state = cache.get_full_state();
    assert_eq!(state.users.len(), 2);
    assert_eq!(state.users_num, 2);
    assert_eq!(state.decimals, cache.get_decimals());
    assert_eq!(state.tokens, cache.get_tokens());
    assert_eq!(state.price_decimals, cache.get_price_decimals());
    assert_eq!(state.reserve, cache.get_reserve_all());
    assert_eq!(state.collateral, cache.get_collateral_all());
    assert_eq!(state.collateral_matrix, cache.get_collateral_matrix());
    assert_eq!(state.borrowed, cache.get_borrowed_all());
    assert_eq!(state.borrowed_matrix, cache.get_borrowed_matrix());
    assert_eq!(state.liquidity[0].rate, "11");
    assert_eq!(state.liquidity_index, cache.get_liquidity_index());
    assert_eq!(state.variable_borrow[1].rate, "14");
    assert_eq!(state.variable_borrow_index, cache.get_variable_borrow_index());
    assert_eq!(state.liquidation_threshold, cache.get_liquidation_threshold());
    assert_eq!(state.prices, cache.get_prices());
    assert_eq!(state.health_factors, cache.get_health_factors());
}

// ---- probes ----

#[test]
fn windows_cover_what_there_is() {
    assert_eq!(probe_window(10, 3, 6), (6, 3));
    assert_eq!(probe_window(3, 3, 6), (0, 3));
    assert_eq!(probe_window(2, 3, 6), (0, 2));
    let cache = filled(10);
    let mut seen = vec![false; 10];
    for _ in 0..2000 {
        let (start, size) = cache.random_window(3);
        assert_eq!(size, 3);
        assert!(start < 7);
        seen[start] = true;
    }
    assert_eq!(seen[..7], [true; 7]);
    assert_eq!(cache.random_window(10), (0, 10));
    assert_eq!(cache.random_window(50), (0, 10));
    assert_eq!(filled(0).random_window(0), (0, 0));
}

#[test]
fn users_of_a_window_come_in_the_order_of_their_rows() {
    let cache = filled(20);
    let users = cache.window_users(4, 5);
    let expected: Vec<Address> = (4..9).map(|row| account(19 - row)).collect();
    assert_eq!(users, expected);
    assert_eq!(cache.window_users(19, 5), vec![account(0)]);
    assert_eq!(cache.window_users(20, 5), vec![]);
    assert_eq!(cache.window_users(3, 0), vec![]);
}

#[test]
fn a_probe_shows_a_window() {
    let cache = filled(4);
    assert!(cache.holds_window(1, 3));
    assert!(!cache.holds_window(2, 3));
    assert!(!cache.holds_window(usize::MAX, 2));
    let probe = cache.probe(1, 2);
    assert_eq!(probe.hf, vec![double(1.0), double(2.0)]);
    assert_eq!(probe.users, vec![account(2), account(1)]);
    assert_eq!(probe.tokens, vec![token(1), token(2)]);
    assert_eq!(probe.decimals, cache.get_decimals());
    assert_eq!(probe.price_decimals, cache.get_price_decimals());
    assert_eq!(probe.liquidation_threshold, cache.get_liquidation_threshold());
    assert_eq!(probe.liquidity, vec![u(RAY), u(2 * RAY)]);
    assert_eq!(probe.liquidity_index, vec![u(RAY), u(2 * RAY)]);
    assert_eq!(probe.variable_borrow, vec![u(3 * RAY), u(4 * RAY)]);
    assert_eq!(probe.variable_borrow_index, vec![u(3 * RAY), u(4 * RAY)]);
    assert_eq!(probe.prices, cache.get_prices());
    assert_eq!(probe.reserve_scaled, vec![vec![u(201), u(401)], vec![u(202), u(402)]]);
    assert_eq!(probe.collateral_scaled, vec![vec![u(101), u(201)], vec![u(102), u(202)]]);
    assert_eq!(probe.collateral, probe.collateral_scaled);
    assert_eq!(probe.borrowed_scaled, vec![vec![u(301), u(601)], vec![u(302), u(602)]]);
    assert_eq!(probe.borrowed, probe.borrowed_scaled);
}

#[test]
fn distances_know_no_direction() {
    assert_eq!(difference(&vec![u(5), u(2)], &vec![u(2), u(5)]), vec![u(3), u(3)]);
    assert_eq!(difference(&vec![u(5), u(2)], &vec![u(5)]), vec![u(0)]);
    assert_eq!(difference(&vec![], &vec![u(5)]), vec![]);
    assert_eq!(
        difference_2d(&vec![vec![u(1)], vec![u(9)]], &vec![vec![u(4)]]),
        vec![vec![u(3)]]
    );
    let large = U256 { limbs: [0, 0, 0, 1] };
    assert_eq!(
        difference(&vec![u(1)], &vec![large]),
        vec![U256 { limbs: [u64::MAX, u64::MAX, u64::MAX, 0] }]
    );
}

fn reserve(li: u128, bi: u128) -> ReserveData {
    ReserveData::new(u(0), u(0), u(li), u(bi), U40::zero())
}

#[test]
fn a_probe_is_compared_with_the_pool() {
    let mut cache = filled(2);
    // one whole token of the first kind, as collateral in the second row
    cache.collateral[1].balances[0] = u(RAY);
    let probe = cache.probe(0, 2);
    let reserves = vec![(1, reserve(2 * RAY, 4 * RAY)), (0, reserve(2 * RAY, 3 * RAY))];
    let cells = vec![
        (1, 0, UserReserveData::new(u(2_000_000), u(3_000_000), true)),
        (0, 1, UserReserveData::new(u(0), u(0), false)),
    ];
    assert!(admits_comparison(&probe, &reserves, &cells));
    let c = compare_probe(&probe, &reserves, &cells);
    assert_eq!(c.liquidity_aave, vec![u(2 * RAY), u(2 * RAY)]);
    assert_eq!(c.variable_borrow_aave, vec![u(3 * RAY), u(4 * RAY)]);
    assert_eq!(c.liquidity_diff, vec![u(RAY), u(0)]);
    assert_eq!(c.variable_borrow_diff, vec![u(0), u(0)]);
    assert_eq!(c.collateral_scaled_aave, vec![vec![u(0), u(0)], vec![u(RAY), u(0)]]);
    assert_eq!(c.reserve_scaled_aave, vec![vec![u(0); 2], vec![u(0); 2]]);
    assert_eq!(c.borrowed_scaled_aave, vec![vec![u(0), u(0)], vec![u(RAY), u(0)]]);
    assert_eq!(c.collateral_scaled_diff, vec![vec![u(100), u(200)], vec![u(0), u(201)]]);
    assert_eq!(c.reserve_scaled_diff, vec![vec![u(200), u(400)], vec![u(201), u(401)]]);
    assert_eq!(
        c.borrowed_scaled_diff,
        vec![vec![u(300), u(600)], vec![u(RAY - 301), u(601)]]
    );

    // a column, a row or an index that is not there
    assert!(!admits_comparison(&probe, &vec![(2, reserve(RAY, RAY))], &vec![]));
    let balance = UserReserveData::new(u(1), u(1), true);
    assert!(!admits_comparison(&probe, &reserves, &vec![(2, 0, balance)]));
    assert!(!admits_comparison(&probe, &vec![], &vec![(0, 0, balance)]));
    assert!(admits_comparison(&probe, &vec![], &vec![]));
}

// ---- tokens, prices, health factors ----

#[test]
fn tokens_get_their_columns_in_order() {
    let tokens = tokens();
    assert_eq!(tokens.len(), 2);
    assert_eq!(tokens.order(&token(1)), Some(0));
    assert_eq!(tokens.order(&token(2)), Some(1));
    assert_eq!(tokens.order(&token(3)), None);
    assert!(tokens.get(&token(3)).is_none());
    assert_eq!(tokens.get(&token(2)).unwrap().name, "T2");
    assert_eq!(tokens.entry(1).0, token(2));
}

#[test]
fn a_token_that_is_reported_twice_keeps_the_later_column() {
    let found = |i: u128| FoundToken {
        symbol: String::from("T"),
        address: token(i),
        price_source: Address::zero(),
        decimals: double(1e6),
        price_decimals: double(1e8),
    };
    let tokens = setup(vec![found(1), found(2), found(1)]);
    assert_eq!(tokens.len(), 2);
    assert_eq!(tokens.order(&token(1)), Some(2));
    assert_eq!(tokens.order(&token(2)), Some(1));
}

#[test]
fn a_token_is_replaced() {
    let mut tokens = tokens();
    tokens.insert(
        token(1),
        TokenDetails::new(String::from("new"), Address::zero(), 5, double(1.0), double(2.0)),
    );
    assert_eq!(tokens.len(), 2);
    assert_eq!(tokens.get(&token(1)).unwrap().name, "new");
    assert_eq!(tokens.order(&token(1)), Some(5));
    assert_eq!(Tokens::new().len(), 0);
}

#[test]
fn prices_call_for_health_factors_only_where_they_differ() {
    let mut cache = filled(1);
    assert_eq!(cache.update_prices(vec![double(2.0), double(3.0)], 9), None);
    assert_eq!(
        cache.update_prices(vec![double(2.0), double(3.5)], 10),
        Some(HFRequest::Full(10))
    );
    assert_eq!(cache.get_prices(), vec![double(2.0), double(3.5)]);
    assert_eq!(cache.prices.last_modified, 6);
    assert_eq!(cache.update_prices(vec![double(2.0)], 11), Some(HFRequest::Full(11)));
    // no number differs from everything
    assert_eq!(cache.update_prices(vec![double(f64::NAN)], 12), Some(HFRequest::Full(12)));
    assert_eq!(cache.update_prices(vec![double(f64::NAN)], 13), Some(HFRequest::Full(13)));
}

#[test]
fn thresholds_stay_where_they_are_not_modified() {
    let mut cache = filled(1);
    assert_eq!(cache.update_liquidation_threshold(vec![double(0.5); 2], false, 9), None);
    assert_eq!(cache.get_liquidation_threshold(), vec![double(0.0), double(0.0)]);
    assert_eq!(cache.liquidation_threshold.last_modified, 5);
}

#[test]
fn a_health_factor_is_stored_beyond_the_end() {
    let mut cache = filled(1);
    cache.store_hf(3, double(0.5), 77);
    assert_eq!(
        cache.get_health_factors(),
        vec![double(0.0), double(0.0), double(0.0), double(0.5)]
    );
    assert_eq!(cache.health_factors.last_modified, 77);
    cache.store_hf(1, double(1.5), 78);
    assert_eq!(cache.liquidation_lookup(), vec![0, 2, 3]);
    cache.store_all_hf(vec![double(f64::NAN), double(-1.0), double(1.0)], 79);
    assert_eq!(cache.liquidation_lookup(), vec![1]);
}

#[test]
fn rows_to_be_liquidated_go_round() {
    let mut counter = 2;
    assert_eq!(
        assign_rows(&vec![10, 11, 12, 13], 3, &mut counter),
        vec![(2, 10), (0, 11), (1, 12), (2, 13)]
    );
    assert_eq!(counter, 6);
    assert_eq!(assign_rows(&vec![], 0, &mut counter), vec![]);
    let mut counter = usize::MAX;
    assert_eq!(assign_rows(&vec![5, 6], 4, &mut counter), vec![(3, 5), (0, 6)]);
    assert_eq!(counter, 1);
}

#[test]
fn account_data_holds_what_was_reported() {
    let data = UserAccountData::new(u(1), u(2), u(3), u(4), u(5), u(6));
    assert_eq!(data.total_collateral_base, u(1));
    assert_eq!(data.total_debt_base, u(2));
    assert_eq!(data.available_borrows_base, u(3));
    assert_eq!(data.current_liquidation_threshold, u(4));
    assert_eq!(data.ltv, u(5));
    assert_eq!(data.health_factor, u(6));
}
