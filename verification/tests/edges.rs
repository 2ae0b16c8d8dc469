use liquidation_bot::address::Address;
use liquidation_bot::cache::{Cache, Row};
use liquidation_bot::events::{
    admits_event, borrow, create_user, event_user, handle_event, handle_user_event,
    liquidation_call, repay, reserve_used_as_collateral_disabled,
    reserve_used_as_collateral_enabled, resync_user, supply, withdraw, Borrow, Decision,
    LiquidationCall, Repay, ReserveUsedAsCollateralDisabled, ReserveUsedAsCollateralEnabled, Step,
    Supply, Timing, UserEvent, Withdraw,
};
use liquidation_bot::float::F64;
use liquidation_bot::market::answer_updated;
use liquidation_bot::probe::{admits_comparison, compare_probe};
use liquidation_bot::provider::{aave, dai, usdc, DummyDataProvider};
use liquidation_bot::reserves::{
    admits_reserve_update, reserve_data_updated, ReserveDataUpdated,
};
use liquidation_bot::tokens::{setup, FoundToken, Tokens};
use liquidation_bot::types::{Error, Fetched, Side, SyncRequest, SyncTarget, TimeStamp};
use liquidation_bot::uint::U256;

const NOW: TimeStamp = 1_750_000_000_000_000;
const DAY: TimeStamp = 86_400_000_000;

fn u(value: u128) -> U256 {
    U256::from_u128(value)
}

fn user() -> Address {
    Address { high: 1, low: 2 }
}

fn other() -> Address {
    Address { high: 3, low: 4 }
}

fn nobody() -> Address {
    Address { high: 5, low: 6 }
}

fn tokens() -> Tokens {
    let found = |symbol: &str, address: Address, decimals: f64| FoundToken {
        symbol: String::from(symbol),
        address,
        price_source: Address::zero(),
        decimals: F64 { bits: decimals.to_bits() },
        price_decimals: F64 { bits: decimals.to_bits() },
    };
    setup(vec![found("AAVE", aave(), 1e18), found("USDC", usdc(), 1e6), found("DAI", dai(), 1e12)])
}

fn fetch(tokens: &Tokens) -> Vec<Fetched> {
    let pool = DummyDataProvider::new();
    (0..tokens.len())
        .map(|i| tokens.entry(i).0)
        .map(|token| Fetched {
            reserve: pool.get_reserve_data(&token, (NOW / 1_000_000) as u64),
            user_reserve: pool.get_user_reserve_data(&token),
            token,
        })
        .collect()
}

fn at(rq_date: TimeStamp) -> Timing {
    Timing { rq_date, now: rq_date + 5, clock: rq_date + 6 }
}

fn deposit(user: Address, token: Address, amount: u128) -> UserEvent {
    UserEvent::Supply(Supply { reserve: token, on_behalf_of: user, amount: u(amount) })
}

/// A cache that has read two users from the stand-in pool.
fn running() -> (Cache, Tokens) {
    let tokens = tokens();
    let mut cache = Cache::default();
    let _ = cache.init(&tokens, NOW);
    for who in [user(), other()] {
        let event = deposit(who, aave(), 1);
        assert!(admits_event(&cache, &tokens, &event, &at(NOW)));
        assert_eq!(handle_user_event(&mut cache, &tokens, &event, &at(NOW)), Ok(Step::Create));
        let reply = fetch(&tokens);
        assert!(cache.admits_reports(&tokens, &who, &reply));
        let request = create_user(&mut cache, &tokens, &who, Some(reply), &at(NOW)).unwrap();
        assert!(cache.admits_request(&request));
        assert_eq!(cache.serve(&request), Ok(()));
    }
    (cache, tokens)
}

fn balances(cache: &Cache) -> Vec<Vec<U256>> {
    let mut all = vec![];
    for side in [Side::Collateral, Side::Reserve, Side::Borrowed] {
        for row in cache.side_rows(side) {
            all.push(row.balances.clone());
        }
    }
    all
}

fn assert_mirrored(cache: &Cache) {
    let collateral: Vec<Vec<U256>> = cache.collateral.iter().map(|r| r.balances.clone()).collect();
    let borrowed: Vec<Vec<U256>> = cache.borrowed.iter().map(|r| r.balances.clone()).collect();
    assert_eq!(cache.get_collateral_matrix(), collateral);
    assert_eq!(cache.get_borrowed_matrix(), borrowed);
}

// ---- decisions ----

#[test]
fn the_moments_of_a_row_decide() {
    let row = Row { balances: vec![], last_sync: 1000, last_modified: 2000 };
    let decide = |rq_date: TimeStamp, clock: TimeStamp| {
        handle_event(&row, &Timing { rq_date, now: 0, clock })
    };
    assert_eq!(decide(2001, 1000), Decision::New);
    assert_eq!(decide(2000, 1000), Decision::Sync);
    assert_eq!(decide(1001, 1000), Decision::Sync);
    assert_eq!(decide(1000, 1000), Decision::Skip);
    // a row is good for a day, and a day only
    assert_eq!(decide(2001, 1000 + DAY), Decision::New);
    assert_eq!(decide(2001, 1001 + DAY), Decision::Sync);
    assert_eq!(decide(1000, 1001 + DAY), Decision::Sync);
    // moments at the ends of their range
    let row = Row { balances: vec![], last_sync: TimeStamp::MIN, last_modified: 0 };
    let end = Timing { rq_date: 1, now: 0, clock: TimeStamp::MAX };
    assert_eq!(handle_event(&row, &end), Decision::Sync);
}

// ---- errors ----

#[test]
fn events_on_unknown_tokens_change_nothing() {
    let (mut cache, tokens) = running();
    let before = balances(&cache);
    let later = at(NOW + 100);
    let refused = Err(Error::TokenNotFound(nobody()));
    let event = Supply { reserve: nobody(), on_behalf_of: user(), amount: u(1) };
    assert_eq!(supply(&mut cache, &tokens, &event, &later), refused);
    let event = Withdraw { reserve: nobody(), user: user(), amount: u(1) };
    assert_eq!(withdraw(&mut cache, &tokens, &event, &later), refused);
    let event = Borrow { reserve: nobody(), on_behalf_of: user(), amount: u(1) };
    assert_eq!(borrow(&mut cache, &tokens, &event, &later), refused);
    let event = Repay { reserve: nobody(), user: user(), amount: u(1) };
    assert_eq!(repay(&mut cache, &tokens, &event, &later), refused);
    let event = ReserveUsedAsCollateralEnabled { reserve: nobody(), user: user() };
    assert_eq!(reserve_used_as_collateral_enabled(&mut cache, &tokens, &event, &later), refused);
    let event = ReserveUsedAsCollateralDisabled { reserve: nobody(), user: user() };
    assert_eq!(reserve_used_as_collateral_disabled(&mut cache, &tokens, &event, &later), refused);
    let mut event = LiquidationCall {
        collateral_asset: nobody(),
        debt_asset: aave(),
        user: user(),
        debt_to_cover: u(1),
        liquidated_collateral_amount: u(1),
    };
    assert_eq!(liquidation_call(&mut cache, &tokens, &event, &later), refused);
    // the debt is looked up first
    event.debt_asset = other();
    assert_eq!(
        liquidation_call(&mut cache, &tokens, &event, &later),
        Err(Error::TokenNotFound(other()))
    );
    assert_eq!(balances(&cache), before);
    let update = ReserveDataUpdated {
        reserve: nobody(),
        liquidity_rate: u(1),
        variable_borrow_rate: u(1),
        liquidity_index: u(1),
        variable_borrow_index: u(1),
    };
    assert!(admits_reserve_update(&cache, &tokens, &update, NOW));
    assert_eq!(
        reserve_data_updated(&mut cache, &tokens, &update, NOW, NOW),
        Err(Error::TokenNotFound(nobody()))
    );
    let price = F64::zero();
    assert_eq!(
        answer_updated(&mut cache, &tokens, &nobody(), price, NOW),
        Err(Error::TokenNotFound(nobody()))
    );
}

#[test]
fn a_reply_on_an_unknown_token_is_refused() {
    let (mut cache, tokens) = running();
    let mut reply = fetch(&tokens);
    reply[1].token = nobody();
    let before = balances(&cache);
    assert!(cache.admits_reports(&tokens, &user(), &reply));
    assert_eq!(
        cache.sync_user(&user(), &tokens, &reply, NOW),
        Err(Error::TokenNotFound(nobody()))
    );
    assert_eq!(balances(&cache), before);
    // a user that is known stays known
    assert_eq!(
        resync_user(&mut cache, &tokens, &user(), Some(reply.clone()), &at(NOW)),
        Err(Error::TokenNotFound(nobody()))
    );
    assert!(cache.contains(&user()));
    assert_eq!(
        resync_user(&mut cache, &tokens, &user(), None, &at(NOW)),
        Err(Error::Provider(user()))
    );
    assert!(cache.contains(&user()));
    // one that was just filed is forgotten
    assert!(!cache.init_user(&nobody(), &tokens));
    assert_eq!(
        create_user(&mut cache, &tokens, &nobody(), Some(reply), &at(NOW)),
        Err(Error::TokenNotFound(nobody()))
    );
    assert!(!cache.contains(&nobody()));
}

#[test]
fn users_that_are_not_known_have_no_data() {
    let (mut cache, tokens) = running();
    let reply = fetch(&tokens);
    assert!(cache.admits_reports(&tokens, &nobody(), &reply));
    assert_eq!(
        cache.get_user_data(&tokens, &nobody(), &reply).err(),
        Some(Error::UserNotFound(nobody()))
    );
    assert_eq!(
        cache.sync_user(&nobody(), &tokens, &reply, NOW),
        Err(Error::UserNotFound(nobody()))
    );
    assert!(cache.admits_hf_amounts(&nobody()));
    assert_eq!(cache.hf_amounts(&nobody()).err(), Some(Error::UserNotFound(nobody())));
}

#[test]
fn rows_that_are_missing_are_named() {
    let later = at(NOW + 100);
    let amount = u(1_000_000);

    let (mut cache, tokens) = running();
    cache.collateral.clear();
    let enabled = ReserveUsedAsCollateralEnabled { reserve: aave(), user: user() };
    assert_eq!(
        reserve_used_as_collateral_enabled(&mut cache, &tokens, &enabled, &later),
        Err(Error::RowNotFound(Side::Collateral, 0))
    );
    // the flag was written all the same
    assert_eq!(cache.get_user(0).unwrap().use_as_collateral, vec![true, true, false]);
    let call = LiquidationCall {
        collateral_asset: aave(),
        debt_asset: usdc(),
        user: user(),
        debt_to_cover: amount,
        liquidated_collateral_amount: amount,
    };
    assert_eq!(
        liquidation_call(&mut cache, &tokens, &call, &later),
        Err(Error::RowNotFound(Side::Collateral, 0))
    );
    assert_eq!(
        cache.sync_user(&other(), &tokens, &fetch(&tokens), NOW),
        Err(Error::RowNotFound(Side::Collateral, 1))
    );
    assert_eq!(cache.hf_amounts(&user()).err(), Some(Error::RowNotFound(Side::Collateral, 0)));
    let event = Supply { reserve: usdc(), on_behalf_of: user(), amount };
    assert_eq!(
        supply(&mut cache, &tokens, &event, &later),
        Err(Error::RowNotFound(Side::Collateral, 0))
    );

    let (mut cache, tokens) = running();
    cache.reserve.clear();
    assert_eq!(
        reserve_used_as_collateral_enabled(&mut cache, &tokens, &enabled, &later),
        Err(Error::RowNotFound(Side::Reserve, 0))
    );
    assert_eq!(
        cache.sync_user(&user(), &tokens, &fetch(&tokens), NOW),
        Err(Error::RowNotFound(Side::Reserve, 0))
    );

    let (mut cache, tokens) = running();
    cache.borrowed.clear();
    assert_eq!(
        liquidation_call(&mut cache, &tokens, &call, &later),
        Err(Error::RowNotFound(Side::Borrowed, 0))
    );
    assert_eq!(
        cache.sync_user(&user(), &tokens, &fetch(&tokens), NOW),
        Err(Error::RowNotFound(Side::Borrowed, 0))
    );
    assert_eq!(cache.hf_amounts(&user()).err(), Some(Error::RowNotFound(Side::Borrowed, 0)));
}

#[test]
fn requests_that_cannot_be_served_are_refused() {
    let (mut cache, _) = running();
    let served = |cache: &mut Cache, request: SyncRequest| {
        assert!(cache.admits_request(&request));
        cache.serve(&request)
    };
    // beyond the last row there is nothing to do
    assert_eq!(served(&mut cache, SyncRequest::Both(SyncTarget::Row(2), NOW)), Ok(()));
    assert_mirrored(&cache);
    assert_eq!(
        served(&mut cache, SyncRequest::Borrowed(SyncTarget::Cell(0, 3), NOW)),
        Err(Error::ColumnNotFound(Side::Borrowed, 3))
    );
    cache.collateral.pop();
    assert_eq!(
        served(&mut cache, SyncRequest::Collateral(SyncTarget::Row(1), NOW)),
        Err(Error::RowNotFound(Side::Collateral, 1))
    );
    // a new row that is too short does not fit the matrix
    for _ in 0..2 {
        cache.collateral.push(Row { balances: vec![u(1); 2], last_sync: 0, last_modified: 0 });
    }
    assert_eq!(
        served(&mut cache, SyncRequest::Both(SyncTarget::Row(0), NOW)),
        Err(Error::Shape(Side::Collateral))
    );
    // and an old row of the wrong length cannot be written
    cache.collateral[0].balances = vec![u(1); 2];
    cache.collateral.truncate(2);
    assert!(!cache.admits_request(&SyncRequest::Collateral(SyncTarget::Row(0), NOW)));
    // a row of one balance is repeated
    cache.collateral[0].balances = vec![u(9)];
    assert_eq!(served(&mut cache, SyncRequest::Collateral(SyncTarget::Row(0), NOW)), Ok(()));
    assert_eq!(cache.get_collateral_matrix()[0], vec![u(9); 3]);
}

#[test]
fn events_that_cannot_be_handled_are_found_out() {
    let (mut cache, tokens) = running();
    let later = at(NOW + 100);
    // an amount too large for its scale
    let event = UserEvent::Supply(Supply {
        reserve: usdc(),
        on_behalf_of: user(),
        amount: U256 { limbs: [u64::MAX; 4] },
    });
    cache.liquidity.values[1].index = u(1);
    assert!(!admits_event(&cache, &tokens, &event, &later));
    // an index of zero
    cache.variable_borrow.values[0].index = u(0);
    let event =
        UserEvent::Borrow(Borrow { reserve: aave(), on_behalf_of: user(), amount: u(5) });
    assert!(!admits_event(&cache, &tokens, &event, &later));
    // which is no hindrance to an event that is skipped
    assert!(admits_event(&cache, &tokens, &event, &at(NOW - 10)));
    let mut reply = fetch(&tokens);
    reply[2].reserve.liquidity_index = u(0);
    assert!(!cache.admits_reports(&tokens, &user(), &reply));
    cache.liquidity.values.pop();
    assert!(!cache.admits_hf_amounts(&user()));
    let update = ReserveDataUpdated {
        reserve: aave(),
        liquidity_rate: u(1),
        variable_borrow_rate: u(1),
        liquidity_index: u(1),
        variable_borrow_index: u(1),
    };
    assert!(!admits_reserve_update(&cache, &tokens, &update, NOW));
}

// ---- what several calls keep ----

#[test]
fn deposits_and_withdrawals_cancel() {
    let (mut cache, tokens) = running();
    let before = balances(&cache);
    for token in [aave(), usdc(), dai()] {
        let event = Supply { reserve: token, on_behalf_of: user(), amount: u(123_456_789) };
        let step = supply(&mut cache, &tokens, &event, &at(NOW + 100)).unwrap();
        assert!(matches!(step, Step::Applied(_)));
        assert_ne!(balances(&cache), before);
        let event = Withdraw { reserve: token, user: user(), amount: u(123_456_789) };
        let step = withdraw(&mut cache, &tokens, &event, &at(NOW + 200)).unwrap();
        assert!(matches!(step, Step::Applied(_)));
        assert_eq!(balances(&cache), before);
        for row in [&mut cache.collateral, &mut cache.reserve] {
            row[0].last_modified = NOW;
        }
    }
    // more than there is wraps, and comes back
    let event = Repay { reserve: dai(), user: user(), amount: u(u128::MAX) };
    let _ = repay(&mut cache, &tokens, &event, &at(NOW + 100)).unwrap();
    assert_ne!(balances(&cache), before);
    let event = Borrow { reserve: dai(), on_behalf_of: user(), amount: u(u128::MAX) };
    let _ = borrow(&mut cache, &tokens, &event, &at(NOW + 200)).unwrap();
    assert_eq!(balances(&cache), before);
}

#[test]
fn collateral_goes_and_comes_back() {
    let (mut cache, tokens) = running();
    let before = balances(&cache);
    let deposit = cache.reserve[0].balances[0];
    assert!(!deposit.is_zero());
    let event = ReserveUsedAsCollateralEnabled { reserve: aave(), user: user() };
    let step = reserve_used_as_collateral_enabled(&mut cache, &tokens, &event, &at(NOW + 100));
    assert_eq!(
        step,
        Ok(Step::Applied(vec![SyncRequest::Collateral(SyncTarget::Cell(0, 0), NOW + 100)]))
    );
    // the whole balance is on the collateral side now
    assert_eq!(cache.collateral[0].balances[0], deposit);
    assert_eq!(cache.reserve[0].balances[0], u(0));
    assert_eq!(cache.get_user(0).unwrap().use_as_collateral, vec![true, true, false]);
    let event = ReserveUsedAsCollateralDisabled { reserve: aave(), user: user() };
    let step = reserve_used_as_collateral_disabled(&mut cache, &tokens, &event, &at(NOW + 200));
    assert!(matches!(step, Ok(Step::Applied(_))));
    assert_eq!(balances(&cache), before);
    assert_eq!(cache.get_user(0).unwrap().use_as_collateral, vec![false, true, false]);
}

#[test]
fn an_event_stays_in_its_row() {
    let (mut cache, tokens) = running();
    let rows: Vec<Vec<U256>> = [Side::Collateral, Side::Reserve, Side::Borrowed]
        .iter()
        .map(|side| cache.side_rows(*side)[1].balances.clone())
        .collect();
    let matrix = cache.get_collateral_matrix();
    let liquidity = cache.get_liquidity_index();
    let call = LiquidationCall {
        collateral_asset: usdc(),
        debt_asset: dai(),
        user: user(),
        debt_to_cover: u(1_000_000),
        liquidated_collateral_amount: u(1_000_000),
    };
    let event = UserEvent::LiquidationCall(call);
    assert_eq!(event_user(&event), user());
    let step = handle_user_event(&mut cache, &tokens, &event, &at(NOW + 100)).unwrap();
    let later: Vec<Vec<U256>> = [Side::Collateral, Side::Reserve, Side::Borrowed]
        .iter()
        .map(|side| cache.side_rows(*side)[1].balances.clone())
        .collect();
    assert_eq!(later, rows);
    assert_eq!(cache.get_collateral_matrix(), matrix);
    assert_eq!(cache.get_liquidity_index(), liquidity);
    // the matrices follow once the requests are served
    match step {
        Step::Applied(requests) => {
            assert_eq!(requests.len(), 2);
            for request in requests {
                assert_eq!(cache.serve(&request), Ok(()));
            }
        }
        _ => panic!("applied"),
    }
    assert_mirrored(&cache);
    assert_ne!(cache.get_collateral_matrix(), matrix);
    // serving what is met changes nothing
    let matrix = cache.get_collateral_matrix();
    assert_eq!(cache.serve(&SyncRequest::Both(SyncTarget::Row(1), NOW)), Ok(()));
    assert_eq!(cache.get_collateral_matrix(), matrix);
}

#[test]
fn every_user_has_a_row_of_its_own() {
    let (mut cache, tokens) = running();
    cache.remove_user(&user());
    assert!(!cache.contains(&user()));
    assert_eq!(cache.collateral.len(), 2);
    // a user who comes again gets a new row
    let event = deposit(user(), usdc(), 5);
    assert_eq!(
        handle_user_event(&mut cache, &tokens, &event, &at(NOW + 100)),
        Ok(Step::Create)
    );
    assert_eq!(cache.users_num, 3);
    assert_eq!(cache.get_user(2).unwrap().name, user());
    assert_eq!(cache.get_user(1).unwrap().name, other());
    assert!(cache.get_user(0).is_none());
    let reply = Some(fetch(&tokens));
    let request = create_user(&mut cache, &tokens, &user(), reply, &at(NOW + 100));
    assert_eq!(request, Ok(SyncRequest::Both(SyncTarget::Row(2), NOW + 100)));
    assert_eq!(cache.serve(&request.unwrap()), Ok(()));
    assert_mirrored(&cache);
    assert_eq!(cache.health_factors.values.len(), 3);
    for side in [Side::Collateral, Side::Reserve, Side::Borrowed] {
        assert_eq!(cache.side_rows(side).len(), 3);
        for row in cache.side_rows(side) {
            assert_eq!(row.balances.len(), 3);
        }
    }
}

#[test]
fn a_creation_that_fails_leaves_nobody() {
    let (mut cache, tokens) = running();
    let event = deposit(nobody(), usdc(), 5);
    let _ = handle_user_event(&mut cache, &tokens, &event, &at(NOW)).unwrap();
    assert!(cache.contains(&nobody()));
    assert_eq!(
        create_user(&mut cache, &tokens, &nobody(), None, &at(NOW)),
        Err(Error::Provider(nobody()))
    );
    assert!(!cache.contains(&nobody()));
    assert!(cache.contains(&user()));
    assert!(cache.contains(&other()));
    // the row stays behind and is not given out again
    let event = deposit(nobody(), usdc(), 5);
    let _ = handle_user_event(&mut cache, &tokens, &event, &at(NOW)).unwrap();
    assert_eq!(cache.get_user(3).unwrap().name, nobody());
}

#[test]
fn the_stand_in_pool_answers_for_every_token() {
    let pool = DummyDataProvider::new();
    let data = pool.get_user_reserve_data(&nobody());
    assert_eq!(data.current_atoken_balance, u(40_000_000_000_000_000_000));
    assert_eq!(data.current_variable_debt, u(40_000_000_000_000_000_000));
    assert!(data.usage_as_collateral_enabled);
    let data = pool.get_reserve_data(&nobody(), 17);
    assert_eq!(data.liquidity_rate, u(55_000_000_000_000_000_000_000_000));
    assert_eq!(data.variable_borrow_rate, u(60_000_000_000_000_000_000_000_000));
    assert_eq!(data.liquidity_index, u(1_055_000_000_000_000_000_000_000_000));
    assert_eq!(data.variable_borrow_index, u(1_060_000_000_000_000_000_000_000_000));
    assert_eq!(data.last_update_timestamp.micros(), 17_000_000);
    // the last report on a column stands
    let (mut cache, tokens) = running();
    let mut reply = fetch(&tokens);
    let mut again = reply[1];
    again.user_reserve.current_atoken_balance = u(7_000_000);
    reply.push(again);
    assert_eq!(cache.sync_user(&user(), &tokens, &reply, NOW), Ok(()));
    let expected = u(7_000_000)
        .to_ray(F64 { bits: 1e6_f64.to_bits() })
        .to_scaled(cache.liquidity.values[1].index);
    assert_eq!(cache.collateral[0].balances[1], expected);
}

#[test]
fn a_probe_of_a_user_who_was_just_read_shows_no_difference() {
    let (cache, tokens) = running();
    let probe = cache.probe(0, 2);
    assert_eq!(probe.users, vec![user(), other()]);
    let mut reserves = vec![];
    let mut cells = vec![];
    for report in fetch(&tokens) {
        let column = tokens.order(&report.token).unwrap();
        reserves.push((column, report.reserve));
        for row in 0..2 {
            cells.push((row, column, report.user_reserve));
        }
    }
    assert!(admits_comparison(&probe, &reserves, &cells));
    let compared = compare_probe(&probe, &reserves, &cells);
    assert_eq!(compared.liquidity_diff, vec![u(0); 3]);
    assert_eq!(compared.variable_borrow_diff, vec![u(0); 3]);
    assert_eq!(compared.collateral_scaled_diff, vec![vec![u(0); 3]; 2]);
    assert_eq!(compared.reserve_scaled_diff, vec![vec![u(0); 3]; 2]);
    assert_eq!(compared.borrowed_scaled_diff, vec![vec![u(0); 3]; 2]);
    assert_eq!(compared.collateral_scaled_aave[1], cache.collateral[1].balances);
    assert_ne!(compared.borrowed_scaled_aave[1], vec![u(0); 3]);
}

#[test]
fn tokens_without_a_column_of_their_own_are_found_out() {
    assert!(Cache::admits_tokens(&tokens()));
    assert!(Cache::admits_tokens(&Tokens::new()));
    let found = |address: Address| FoundToken {
        symbol: String::from("T"),
        address,
        price_source: Address::zero(),
        decimals: F64::zero(),
        price_decimals: F64::zero(),
    };
    assert!(!Cache::admits_tokens(&setup(vec![found(aave()), found(usdc()), found(aave())])));
}
