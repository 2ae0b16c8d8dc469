use liquidation_bot::address::Address;
use liquidation_bot::cache::Cache;
use liquidation_bot::dispatch::{Dispatcher, EventKind, Route};
use liquidation_bot::events::{
    admits_event, create_user, event_user, handle_user_event, resync_user, Borrow,
    LiquidationCall, Repay, ReserveUsedAsCollateralDisabled, ReserveUsedAsCollateralEnabled, Step,
    Supply, Timing, UserEvent, Withdraw,
};
use liquidation_bot::float::F64;
use liquidation_bot::market::{answer_updated, liquidation_thresholds};
use liquidation_bot::reserves::{
    admits_reserve_update, reserve_data_updated, ReserveDataUpdated,
};
use liquidation_bot::tokens::{setup, FoundToken, Tokens};
use liquidation_bot::types::{
    Fetched, HFRequest, ReserveData, SyncRequest, TimeStamp, UserReserveData, U40,
};
use liquidation_bot::uint::U256;

const START: TimeStamp = 1_750_000_000_250_000;

fn amount(n: u128, decimals: u64) -> U256 {
    let value = alloy_primitives::U256::from(n)
        * alloy_primitives::U256::from(10).pow(alloy_primitives::U256::from(decimals));
    U256 { limbs: value.into_limbs() }
}

fn double(v: f64) -> F64 {
    F64 { bits: v.to_bits() }
}

fn float(v: F64) -> f64 {
    f64::from_bits(v.bits)
}

fn as_f64_ray(v: U256) -> f64 {
    const POW64: [f64; 4] = [
        1.0,
        18446744073709551616.0,
        340282366920938463463374607431768211456.0,
        6277101735386680763835789423207666416102355444464034512896.0,
    ];
    let mut result = 0.0;
    for i in 0..4 {
        result += v.limbs[i] as f64 * POW64[i];
    }
    result / 1e27
}

fn aave() -> Address {
    Address { high: 0x1Ac54C11, low: 0x3cefD1792CbFcF41B711824d657eb61D }
}

fn usdc() -> Address {
    Address { high: 0x1Af54C11, low: 0x3cefD1792CbFcF41B711834d657ea61D }
}

fn dai() -> Address {
    Address { high: 0xDA10009c, low: 0xBd5D07dd0CeCc66161FC93D7c9000da1 }
}

fn user() -> Address {
    Address { high: 0x1Af54C55, low: 0x3cefD1792CbFcF41B711834d657ea61D }
}

fn tokens() -> Tokens {
    let found = |symbol: &str, address: Address, low: u128, decimals: f64| FoundToken {
        symbol: String::from(symbol),
        address,
        price_source: Address { high: 0, low },
        decimals: double(decimals),
        price_decimals: double(decimals),
    };
    setup(vec![
        found("AAVE", aave(), 1, 1e18),
        found("USDC", usdc(), 2, 1e6),
        found("DAI", dai(), 3, 1e12),
    ])
}

/// What the pool reports of the user.
fn fetch(now: TimeStamp) -> Vec<Fetched> {
    let seconds = U40::from_seconds((now / 1_000_000) as u64);
    let reserve = |lr: u128, br: u128, li: u128, bi: u128| {
        ReserveData::new(amount(lr, 25), amount(br, 26), amount(li, 24), amount(bi, 25), seconds)
    };
    vec![
        Fetched {
            reserve: reserve(45, 5, 1045, 105),
            user_reserve: UserReserveData::new(amount(1, 18), amount(1, 18), false),
            token: aave(),
        },
        Fetched {
            reserve: reserve(35, 4, 1035, 104),
            user_reserve: UserReserveData::new(amount(2, 6), amount(1, 6), true),
            token: usdc(),
        },
        Fetched {
            reserve: reserve(25, 3, 1025, 103),
            user_reserve: UserReserveData::new(amount(3, 12), amount(1, 12), true),
            token: dai(),
        },
    ]
}

/// Either kind of event.
enum Event {
    Pool(ReserveDataUpdated),
    User(UserEvent),
}

fn update(reserve: Address, lr: u128, br: u128, li: u128, bi: u128) -> Event {
    Event::Pool(ReserveDataUpdated {
        reserve,
        liquidity_rate: amount(lr, 25),
        variable_borrow_rate: amount(br, 26),
        liquidity_index: amount(li, 24),
        variable_borrow_index: amount(bi, 24),
    })
}

fn supplied(reserve: Address, amount: U256) -> Event {
    Event::User(UserEvent::Supply(Supply { reserve, on_behalf_of: user(), amount }))
}

fn withdrawn(reserve: Address, amount: U256) -> Event {
    Event::User(UserEvent::Withdraw(Withdraw { reserve, user: user(), amount }))
}

fn borrowed(reserve: Address, amount: U256) -> Event {
    Event::User(UserEvent::Borrow(Borrow { reserve, on_behalf_of: user(), amount }))
}

fn repaid(reserve: Address, amount: U256) -> Event {
    Event::User(UserEvent::Repay(Repay { reserve, user: user(), amount }))
}

/// Events as they come in, one a second.
fn events() -> Vec<Event> {
    vec![
        update(aave(), 55, 6, 1050, 1055),
        supplied(aave(), amount(1, 18)),
        update(usdc(), 35, 4, 1035, 1040),
        supplied(usdc(), amount(2, 6)),
        update(dai(), 25, 3, 1025, 1030),
        supplied(dai(), amount(30, 12)),
        update(aave(), 55, 6, 1051, 1056),
        withdrawn(aave(), amount(1, 18)),
        update(usdc(), 35, 4, 1036, 1041),
        withdrawn(usdc(), amount(1, 6)),
        update(dai(), 25, 3, 1026, 1031),
        withdrawn(dai(), amount(13, 12)),
        update(aave(), 55, 6, 1052, 1057),
        borrowed(aave(), amount(10, 18)),
        update(usdc(), 35, 4, 1037, 1042),
        borrowed(usdc(), amount(20, 6)),
        update(dai(), 25, 3, 1027, 1032),
        borrowed(dai(), amount(30, 12)),
        update(aave(), 55, 6, 1053, 1058),
        repaid(aave(), amount(10, 18)),
        update(usdc(), 35, 4, 1038, 1043),
        repaid(usdc(), amount(20, 6)),
        update(dai(), 25, 3, 1028, 1033),
        repaid(dai(), amount(30, 12)),
        update(aave(), 55, 6, 1054, 1059),
        supplied(aave(), amount(10, 18)),
        Event::User(UserEvent::ReserveUsedAsCollateralEnabled(ReserveUsedAsCollateralEnabled {
            reserve: aave(),
            user: user(),
        })),
        Event::User(UserEvent::ReserveUsedAsCollateralDisabled(
            ReserveUsedAsCollateralDisabled { reserve: aave(), user: user() },
        )),
        update(aave(), 55, 6, 1055, 1060),
        update(dai(), 25, 3, 1029, 1034),
        Event::User(UserEvent::LiquidationCall(LiquidationCall {
            collateral_asset: dai(),
            debt_asset: aave(),
            user: user(),
            debt_to_cover: amount(1, 18),
            liquidated_collateral_amount: amount(10, 12),
        })),
    ]
}

fn handle(cache: &mut Cache, tokens: &Tokens, event: &Event, now: TimeStamp) {
    match event {
        Event::Pool(ev) => {
            assert!(admits_reserve_update(cache, tokens, ev, now));
            assert_eq!(
                reserve_data_updated(cache, tokens, ev, now, now),
                Ok(HFRequest::Full(now))
            );
        }
        Event::User(ev) => {
            let at = Timing { rq_date: now, now: now + 10, clock: now + 20 };
            assert!(admits_event(cache, tokens, ev, &at));
            let step = handle_user_event(cache, tokens, ev, &at).unwrap();
            let requests: Vec<SyncRequest> = match step {
                Step::Create => {
                    let reply = Some(fetch(now));
                    vec![create_user(cache, tokens, &event_user(ev), reply, &at).unwrap()]
                }
                Step::Resync => {
                    let reply = Some(fetch(now));
                    vec![resync_user(cache, tokens, &event_user(ev), reply, &at).unwrap()]
                }
                Step::Applied(requests) => requests,
                Step::Skipped => vec![],
            };
            for request in requests {
                assert!(cache.admits_request(&request));
                assert_eq!(cache.serve(&request), Ok(()));
            }
        }
    }
}

#[test]
fn pool_events_in_sequence() {
    let tokens = tokens();
    let mut cache = Cache::default();
    assert_eq!(cache.init(&tokens, START), vec![aave(), usdc(), dai()]);
    cache.init_prices(vec![double(0.0); 3], START);
    let found = vec![(double(0.78), 0), (double(0.8), 1), (double(0.75), 2)];
    let thresholds = liquidation_thresholds(&tokens, &found);
    assert_eq!(
        cache.update_liquidation_threshold(thresholds, true, START),
        Some(HFRequest::Full(START))
    );

    let mut now = START;
    for event in events() {
        now += 1_000_700;
        handle(&mut cache, &tokens, &event, now);
        // the matrices repeat the rows at any time
        assert_eq!(cache.get_collateral_matrix().len(), cache.collateral.len());
        for row in 0..cache.collateral.len() {
            assert_eq!(cache.get_collateral_matrix()[row], cache.collateral[row].balances);
            assert_eq!(cache.get_borrowed_matrix()[row], cache.borrowed[row].balances);
        }
    }
    let prices = [
        (aave(), 1712_300_000_000_000_000_000.0, 1e18),
        (usdc(), 2812_300_000.0, 1e6),
        (dai(), 4012_300_000_000_000.0, 1e12),
    ];
    for (token, current, decimals) in prices {
        let price = double(current / decimals);
        assert_eq!(
            answer_updated(&mut cache, &tokens, &token, price, now),
            Ok(HFRequest::Full(now))
        );
    }

    assert_eq!(cache.users_num, 1);
    let told = cache.get_user(0).unwrap();
    assert_eq!(told.name, user());
    assert_eq!(told.use_as_collateral, vec![false, true, true]);

    let zero = U256::default();
    let res1 = U256::from_u128(9493129047280486755506052494);
    let col2 = U256::from_u128(2899483334265942961595135509);
    let col3 = U256::from_u128(9806383665596156754365865996);
    let bor1 = U256::from_u128(17926840264096303005033358);
    let bor2 = U256::from_u128(979941009923361879460760034);
    let bor3 = U256::from_u128(999014897193691932320573917);
    assert_eq!(cache.reserve[0].balances, vec![res1, zero, zero]);
    assert_eq!(cache.collateral[0].balances, vec![zero, col2, col3]);
    assert_eq!(cache.borrowed[0].balances, vec![bor1, bor2, bor3]);
    assert_eq!(cache.get_collateral_matrix(), vec![vec![zero, col2, col3]]);
    assert_eq!(cache.get_borrowed_matrix(), vec![vec![bor1, bor2, bor3]]);

    let thresholds: Vec<f64> =
        cache.get_liquidation_threshold().iter().map(|v| float(*v)).collect();
    assert_eq!(thresholds, vec![0.78, 0.8, 0.75]);
    let prices: Vec<f64> = cache.get_prices().iter().map(|v| float(*v)).collect();
    let rounded: Vec<f32> = prices.iter().map(|p| *p as f32).collect();
    assert_eq!(rounded, vec![1712.30, 2812.30, 4012.30]);

    let collateral = &cache.get_collateral_matrix()[0];
    let debts = &cache.get_borrowed_matrix()[0];
    let li = cache.get_liquidity_index();
    let vbi = cache.get_variable_borrow_index();
    let mut above = 0.0;
    let mut below = 0.0;
    for i in 0..3 {
        above += as_f64_ray(collateral[i]) * as_f64_ray(li[i]) * (thresholds[i] * prices[i]);
        below += as_f64_ray(debts[i]) * as_f64_ray(vbi[i]) * prices[i];
    }
    let hf = above / below;
    assert!((hf - 5.266444865107627).abs() < 1e-9);
    cache.store_all_hf(vec![double(hf)], now);
    assert_eq!(cache.liquidation_lookup(), vec![]);
}

#[test]
fn an_event_that_comes_twice_is_not_applied_twice() {
    let tokens = tokens();
    let mut cache = Cache::default();
    let _ = cache.init(&tokens, START);
    handle(&mut cache, &tokens, &supplied(usdc(), amount(2, 6)), START);
    let event = UserEvent::Supply(Supply {
        reserve: usdc(),
        on_behalf_of: user(),
        amount: amount(5, 6),
    });
    let at = Timing { rq_date: START + 100, now: START + 110, clock: START + 120 };
    let first = handle_user_event(&mut cache, &tokens, &event, &at).unwrap();
    assert!(matches!(first, Step::Applied(_)));
    let balances = cache.collateral[0].balances.clone();
    // it lies between the last reading and the last change now
    let again = Timing { rq_date: START + 110, now: START + 130, clock: START + 140 };
    assert_eq!(handle_user_event(&mut cache, &tokens, &event, &again), Ok(Step::Resync));
    assert_eq!(cache.collateral[0].balances, balances);
    // once the row is read again, an event from before that is skipped
    let request =
        resync_user(&mut cache, &tokens, &user(), Some(fetch(START)), &again).unwrap();
    assert!(matches!(request, SyncRequest::Both(_, _)));
    assert_eq!(handle_user_event(&mut cache, &tokens, &event, &again), Ok(Step::Skipped));
}

#[test]
fn work_goes_round() {
    let mut dispatcher = Dispatcher::new();
    let mut workers = vec![];
    let mut syncs = vec![];
    let mut hfs = vec![];
    for _ in 0..5 {
        let Route { worker, sync, hf } = dispatcher.route(EventKind::Supply);
        workers.push(worker);
        syncs.push(sync);
        hfs.push(hf);
    }
    assert_eq!(workers, vec![0, 1, 2, 3, 0]);
    assert_eq!(syncs, vec![Some(0), Some(1), Some(2), Some(3), Some(0)]);
    assert_eq!(hfs, vec![0, 1, 2, 3, 0]);
    // each kind of event has its own turn, the other workers are shared
    assert_eq!(
        dispatcher.route(EventKind::Borrow),
        Route { worker: 0, sync: Some(1), hf: 1 }
    );
    assert_eq!(
        dispatcher.route(EventKind::ReserveDataUpdated),
        Route { worker: 0, sync: None, hf: 2 }
    );
    assert_eq!(dispatcher.next_hf(), 3);
    assert_eq!(
        dispatcher.route(EventKind::LiquidationCall),
        Route { worker: 0, sync: Some(2), hf: 0 }
    );
    // the turn does not skip where a counter starts again
    dispatcher.repay = usize::MAX;
    assert_eq!(dispatcher.route(EventKind::Repay).worker, 3);
    assert_eq!(dispatcher.route(EventKind::Repay).worker, 0);
}
