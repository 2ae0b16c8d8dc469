use liquidation_bot::float::F64;
use liquidation_bot::ray::RAY;
use liquidation_bot::reserves::{accrue, accrues};
use liquidation_bot::stats::{u256_2d_to_string, u256_vec_to_string};
use liquidation_bot::types::{Index, U40};
use liquidation_bot::uint::{U256, U512};

fn u(value: u128) -> U256 {
    U256::from_u128(value)
}

fn double(v: f64) -> F64 {
    F64 { bits: v.to_bits() }
}

const MAX: U256 = U256 { limbs: [u64::MAX; 4] };

#[test]
fn products_and_quotients_round_half_up() {
    // half a unit rounds up, less than half rounds down
    assert_eq!(u(1).ray_mul(u(RAY / 2)), u(1));
    assert_eq!(u(1).ray_mul(u(RAY / 2 - 1)), u(0));
    assert_eq!(u(3).ray_mul(u(RAY / 2)), u(2));
    assert_eq!(u(1).ray_div(u(2 * RAY)), u(1));
    assert_eq!(u(1).ray_div(u(2 * RAY + 2)), u(0));
    assert_eq!(u(2 * RAY).ray_mul(u(3 * RAY)), u(6 * RAY));
    assert_eq!(u(6 * RAY).ray_div(u(3 * RAY)), u(2 * RAY));
}

#[test]
fn products_above_256_bits_are_found_out() {
    assert!(MAX.ray_mul_fits(u(RAY)));
    assert_eq!(MAX.ray_mul(u(RAY)), MAX);
    assert!(!MAX.ray_mul_fits(u(RAY + 1)));
    assert!(MAX.ray_div_fits(u(RAY)));
    assert_eq!(MAX.ray_div(u(RAY)), MAX);
    assert!(!MAX.ray_div_fits(u(RAY - 1)));
    assert!(!u(1).ray_div_fits(u(0)));
}

#[test]
fn scaling_at_an_index_of_one_changes_nothing() {
    let amount = u(123_456_789);
    assert_eq!(amount.to_scaled(u(RAY)), amount);
    assert_eq!(amount.to_current(u(RAY)), amount);
}

#[test]
fn scaling_below_one_loses_nothing() {
    let index = u(RAY / 3);
    for amount in [0, 1, 2, 17, 1_000_003, RAY + 7] {
        assert_eq!(u(amount).to_scaled(index).to_current(index), u(amount));
    }
}

#[test]
fn scaling_errs_by_at_most_half_the_index() {
    // at an index of 5.0 the error is at most three units
    let index = u(5 * RAY);
    for amount in [0_u128, 1, 2, 3, 4, 6, 11, 1_000_003] {
        let back = u(amount).to_scaled(index).to_current(index).limbs[0] as i128;
        assert!((back - amount as i128).abs() <= 3);
    }
    assert_eq!(u(2).to_scaled(index).to_current(index), u(0));
    assert_eq!(u(3).to_scaled(index).to_current(index), u(5));
}

#[test]
fn larger_amounts_scale_to_no_less() {
    let index = u(1_045_000_000_000_000_000_000_000_000);
    let mut scaled = u(0);
    let mut current = u(0);
    for amount in 0..200 {
        let next = u(amount).to_scaled(index);
        assert!(next.limbs[0] >= scaled.limbs[0]);
        scaled = next;
        let next = u(amount).to_current(index);
        assert!(next.limbs[0] >= current.limbs[0]);
        current = next;
    }
}

#[test]
fn smallest_units_become_rays() {
    assert_eq!(u(20_000_000).to_ray(double(1e6)), u(20 * RAY));
    assert_eq!(u(1).to_ray(double(1e18)), u(1_000_000_000));
    // the part of a unit below 1e-27 is cut off
    assert_eq!(u(1).to_ray(double(1e28)), u(0));
    // the product wraps
    assert_eq!(
        MAX.to_ray(double(4.9e26)),
        U256 { limbs: [u64::MAX - 1, u64::MAX, u64::MAX, u64::MAX] }
    );
    assert!(!u(1).scales(double(0.5), u(RAY)));
    assert!(!u(1).scales(double(1e6), u(0)));
    assert!(!MAX.scales(double(4.9e26), u(1)));
    assert!(u(1).scales(double(1e6), u(RAY)));
    assert_eq!(u(1).units_to_scaled(double(1e6), u(RAY)), u(RAY / 1_000_000));
}

#[test]
fn doubles_truncate_as_the_cast_does() {
    let samples = [
        0.0,
        -0.0,
        0.999,
        1.0,
        1.5,
        2.0,
        1e6,
        1e12,
        1e18,
        123456789.75,
        4503599627370496.0,
        9007199254740993.0,
        1e27,
        3.4e38,
        3.5e38,
        1e300,
        5e-324,
        -1.0,
        -1e20,
        f64::INFINITY,
        f64::NEG_INFINITY,
        f64::NAN,
        f64::MAX,
        f64::MIN_POSITIVE,
    ];
    for v in samples {
        assert_eq!(double(v).truncate(), v as u128);
    }
}

#[test]
fn doubles_compare_as_the_operators_do() {
    let samples = [
        0.0,
        -0.0,
        0.5,
        0.99,
        1.0 - f64::EPSILON / 2.0,
        1.0,
        1.0 + f64::EPSILON,
        2.5,
        -3.0,
        f64::INFINITY,
        f64::NEG_INFINITY,
        f64::NAN,
        5e-324,
    ];
    for a in samples {
        assert_eq!(double(a).below_one(), a < 1.0);
        for b in samples {
            assert_eq!(double(a).equals(double(b)), a == b);
        }
    }
    assert_eq!(F64::zero(), double(0.0));
}

#[test]
fn numbers_are_told_in_decimal_digits() {
    assert_eq!(
        u256_vec_to_string(&vec![u(0), u(7), u(10), u(1_234_567_890), MAX]),
        vec![
            String::from("0"),
            String::from("7"),
            String::from("10"),
            String::from("1234567890"),
            String::from(
                "115792089237316195423570985008687907853269984665640564039457584007913129639935"
            ),
        ]
    );
    assert_eq!(
        u256_2d_to_string(&vec![vec![u(1), u(2)], vec![]]),
        vec![vec![String::from("1"), String::from("2")], vec![]]
    );
}

#[test]
fn wide_numbers_narrow_where_they_fit() {
    assert_eq!(u(5).widen().narrow(), u(5));
    assert!(MAX.widen().fits_u256());
    assert!(!U512 { limbs: [0, 0, 0, 0, 1, 0, 0, 0] }.fits_u256());
    assert_eq!(U512::from_u128(u128::MAX).narrow(), u(u128::MAX));
    assert!(U256::zero().is_zero());
    assert!(!U256 { limbs: [0, 0, 0, 1] }.is_zero());
    assert_eq!(U256::default(), U256::zero());
}

#[test]
fn moments_of_forty_bits() {
    assert_eq!(U40::from_seconds(1_750_000_000).micros(), 1_750_000_000_000_000);
    assert_eq!(U40::from_seconds(0x100_0000_0005), U40 { high: 0, low: 5 });
    assert_eq!(U40::from_seconds(0xff_ffff_ffff), U40 { high: 0xff, low: 0xffff_ffff });
    assert_eq!(U40::zero().micros(), 0);
}

fn index(rate: u128) -> Index {
    Index::new(u(1_035 * RAY / 1000), u(rate), 1_000_000_000)
}

#[test]
fn interest_over_five_seconds() {
    let later = 1_000_000_000 + 5_999_999;
    let i = index(350_000_000_000_000_000_000_000_000);
    assert!(accrues(&i, later));
    let grown = accrue(&i, later);
    assert_eq!(grown.index, u(1035000057434360730593607306));
    assert_eq!(grown.rate, i.rate);
    assert_eq!(grown.last_update, later);
    // a year at 35 percent
    let year = 1_000_000_000 + 31_536_000 * 1_000_000;
    assert_eq!(accrue(&i, year).index, u(1_035 * 1_350 * RAY / 1_000_000));
}

#[test]
fn no_interest_without_time() {
    let i = index(350_000_000_000_000_000_000_000_000);
    assert_eq!(accrue(&i, i.last_update), i);
    // less than a second is none, also backwards
    assert_eq!(accrue(&i, i.last_update + 999_999).index, i.index);
    assert!(accrues(&i, i.last_update - 999_999));
    assert_eq!(accrue(&i, i.last_update - 999_999).index, i.index);
    assert!(!accrues(&i, i.last_update - 1_000_000));
}

#[test]
fn interest_is_computed_once() {
    let i = index(350_000_000_000_000_000_000_000_000);
    let later = i.last_update + 86_400_000_000;
    let once = accrue(&i, later);
    assert_eq!(accrue(&once, later), once);
}

#[test]
fn indexes_never_fall_and_grow_with_time() {
    let i = index(40_000_000_000_000_000_000_000_000);
    let mut before = i.index.limbs;
    for days in 1..30 {
        let grown = accrue(&i, i.last_update + days * 86_400_000_000).index.limbs;
        assert!((grown[1], grown[0]) >= (before[1], before[0]));
        before = grown;
    }
}

#[test]
fn interest_that_cannot_be_computed_is_found_out() {
    let mut i = index(0);
    i.rate = MAX;
    assert!(!accrues(&i, i.last_update + 31_536_000 * 1_000_000 * 2));
    i.rate = u(RAY);
    i.index = MAX;
    assert!(!accrues(&i, i.last_update + 31_536_000 * 1_000_000));
    assert!(accrues(&i, i.last_update));
}
