//! What the numbers of the library stand for.
//!
//! These statements tie the arithmetic to plain integers: limbs and bits, units
//! of a token, seconds and years. Every bound holds for all inputs that the
//! statement names, however small or large.
use vstd::arithmetic::div_mod::{
    lemma_div_is_ordered, lemma_fundamental_div_mod, lemma_fundamental_div_mod_converse,
    lemma_mod_pos_bound, lemma_small_mod,
};
use vstd::arithmetic::power2::{
    lemma_pow2_adds, lemma_pow2_pos, lemma_pow2_strictly_increases, lemma_pow2_unfold, pow2,
};
use vstd::prelude::*;
use crate::float::F64;
use crate::health::{current_amounts, currentable, hf_stored, unhealthy};
use crate::laws::{
    law_ray_product_rounds, law_ray_quotient_rounds, law_unhealthy_rows, law_unit_index,
};
use crate::market::arrays_differ;
use crate::probe::{distance, distances, distances_2d};
use crate::ray::{ray_of_units, ray_product, ray_quotient, scalable, scaled_units};
use crate::reserves::{accruable, accrued, growth};
use crate::types::{IndexState, TimeStamp, U40};
use crate::uint::{decimal_digits, digit, u256_modulus, u512_modulus, U256, U512};

verus! {

/// 10^27: 1.0 as a ray.
pub open spec fn one() -> nat {
    1_000_000_000_000_000_000_000_000_000
}

/// The seconds of a year of 365 days.
pub open spec fn year() -> nat {
    365 * 24 * 60 * 60
}

// ---- whole numbers ----
/// A number of 256 bits is its four limbs, the least significant first; there
/// are 2^256 of them, and the square of that many of 512 bits.
pub proof fn law_limbs(a: U256, b: U512)
    ensures
        a@ == a.limbs[0] + 0x1_0000_0000_0000_0000 * (a.limbs[1] + 0x1_0000_0000_0000_0000 * (
        a.limbs[2] + 0x1_0000_0000_0000_0000 * a.limbs[3])),
        a@ < u256_modulus(),
        u256_modulus() == 0x1_0000_0000_0000_0000 * 0x1_0000_0000_0000_0000
            * 0x1_0000_0000_0000_0000 * 0x1_0000_0000_0000_0000,
        u512_modulus() == u256_modulus() * u256_modulus(),
        b@ % u256_modulus() == a@ <==> b.limbs[0] == a.limbs[0] && b.limbs[1] == a.limbs[1]
            && b.limbs[2] == a.limbs[2] && b.limbs[3] == a.limbs[3],
{
    let low = crate::uint::limbs_value(b.limbs[0], b.limbs[1], b.limbs[2], b.limbs[3]);
    let high = crate::uint::limbs_value(b.limbs[4], b.limbs[5], b.limbs[6], b.limbs[7]);
    let m = u256_modulus() as int;
    assert(b@ == high * m + low) by (nonlinear_arith)
        requires
            b@ == low + high * u256_modulus(),
            m == u256_modulus(),
    ;
    lemma_fundamental_div_mod_converse(b@ as int, m, high as int, low as int);
}

/// The number that decimal digits stand for, the most significant first.
pub open spec fn digits_value(digits: Seq<char>) -> int
    decreases digits.len(),
{
    if digits.len() == 0 {
        0
    } else {
        10 * digits_value(digits.drop_last()) + (digits.last() as u32 - '0' as u32)
    }
}

/// A number in decimal digits is read back as the same number; every character
/// is a digit, and only zero begins with one that is zero.
pub proof fn law_digits(n: nat)
    ensures
        digits_value(decimal_digits(n)) == n,
        decimal_digits(n).len() > 0,
        forall|i: int|
            0 <= i < decimal_digits(n).len() ==> '0' <= #[trigger] decimal_digits(n)[i] <= '9',
        n > 0 ==> decimal_digits(n)[0] != '0',
    decreases n,
{
    let d = decimal_digits(n);
    if n < 10 {
        assert(d.drop_last() =~= Seq::<char>::empty());
        reveal_with_fuel(digits_value, 2);
    } else {
        law_digits(n / 10);
        assert(d.drop_last() =~= decimal_digits(n / 10));
        assert(d.last() == digit(n % 10));
        assert forall|i: int| 0 <= i < d.len() implies '0' <= #[trigger] d[i] <= '9' by {
            if i < d.len() - 1 {
                assert(d[i] == decimal_digits(n / 10)[i]);
            }
        }
    }
}

/// The distance of two numbers leads from the smaller to the larger.
pub proof fn law_distance_leads(a: nat, b: nat)
    ensures
        a <= b ==> a + distance(a, b) == b,
        b <= a ==> b + distance(a, b) == a,
{
}

/// The distances of two lists are those of their elements, place by place, as
/// far as both go.
pub proof fn law_distances_by_place(a: Seq<nat>, b: Seq<nat>)
    ensures
        distances(a, b).len() <= a.len(),
        distances(a, b).len() <= b.len(),
        distances(a, b).len() == a.len() || distances(a, b).len() == b.len(),
        forall|i: int|
            0 <= i < distances(a, b).len() ==> a[i] + #[trigger] distances(a, b)[i] == b[i] || b[i]
                + distances(a, b)[i] == a[i],
{
}

/// The distances of two lists of rows are those of their rows.
pub proof fn law_distances_by_row(a: Seq<Seq<nat>>, b: Seq<Seq<nat>>)
    ensures
        distances_2d(a, b).len() <= a.len(),
        distances_2d(a, b).len() <= b.len(),
        distances_2d(a, b).len() == a.len() || distances_2d(a, b).len() == b.len(),
        forall|i: int|
            0 <= i < distances_2d(a, b).len() ==> #[trigger] distances_2d(a, b)[i] == distances(
                a[i],
                b[i],
            ),
{
}

/// A moment of forty bits, in microseconds.
pub proof fn law_moment(m: U40)
    ensures
        m.spec_seconds() == m.high * 4_294_967_296 + m.low,
        m.spec_micros() == 1_000_000 * (m.high * 4_294_967_296 + m.low),
        0 <= m.spec_micros() <= i64::MAX,
{
}

// ---- rays ----
/// A current amount is the balance times the index, in every column and for
/// every balance: times 1.0 it is within half of 1.0 of that product.
pub proof fn law_current_amounts(balances: Seq<nat>, indexes: Seq<IndexState>, column: int)
    requires
        balances.len() <= indexes.len(),
        0 <= column < balances.len(),
    ensures
        current_amounts(balances, indexes).len() == balances.len(),
        ({
            let amount = current_amounts(balances, indexes)[column];
            let exact = balances[column] * indexes[column].index;
            &&& 2 * (amount * one() - exact) <= one()
            &&& 2 * (exact - amount * one()) < one()
        }),
{
    law_ray_product_rounds(balances[column], indexes[column].index);
}

/// Current amounts can be computed exactly where every balance has an index and
/// every product, rounded half up, is below 2^256.
pub proof fn law_amounts_fit(balances: Seq<nat>, indexes: Seq<IndexState>)
    ensures
        currentable(balances, indexes) <==> balances.len() <= indexes.len() && forall|i: int|
            0 <= i < balances.len() ==> 2 * (#[trigger] balances[i] * indexes[i].index) + one() < 2
                * u256_modulus() * one(),
{
    assert forall|i: int| 0 <= i < balances.len() implies (ray_product(
        #[trigger] balances[i],
        indexes[i].index,
    ) < u256_modulus() <==> 2 * (balances[i] * indexes[i].index) + one() < 2 * u256_modulus()
        * one()) by {
        lemma_product_below(balances[i], indexes[i].index);
    }
}

/// A product of rays is below 2^256 exactly where the exact product, rounded
/// half up, is.
proof fn lemma_product_below(a: nat, b: nat)
    ensures
        ray_product(a, b) < u256_modulus() <==> 2 * (a * b) + one() < 2 * u256_modulus() * one(),
{
    let x = (a * b + one() / 2) as int;
    let o = one() as int;
    let m = u256_modulus() as int;
    lemma_fundamental_div_mod(x, o);
    lemma_mod_pos_bound(x, o);
    assert(ray_product(a, b) == x / o);
    assert(x / o < m <==> x < m * o) by (nonlinear_arith)
        requires
            x == o * (x / o) + x % o,
            0 <= x % o < o,
            o > 0,
    ;
    assert(2 * m * o == 2 * (m * o)) by (nonlinear_arith);
}

/// Current amounts can be computed of all balances and indexes of 128 bits, if
/// every balance has an index.
pub proof fn law_amounts_computable(balances: Seq<nat>, indexes: Seq<IndexState>)
    requires
        balances.len() <= indexes.len(),
        forall|i: int|
            0 <= i < balances.len() ==> #[trigger] balances[i] <= u128::MAX && indexes[i].index
                <= u128::MAX,
    ensures
        currentable(balances, indexes),
{
    assert forall|i: int| 0 <= i < balances.len() implies ray_product(
        #[trigger] balances[i],
        indexes[i].index,
    ) < u256_modulus() by {
        lemma_product_fits(balances[i], indexes[i].index, u128::MAX as nat, u128::MAX as nat);
    }
}

/// A product of rays is below 2^256 if the product of two bounds is.
proof fn lemma_product_fits(a: nat, b: nat, x: nat, y: nat)
    requires
        a <= x,
        b <= y,
        x * y < u256_modulus() * one() - one(),
    ensures
        ray_product(a, b) < u256_modulus(),
{
    assert(a * b <= x * y) by (nonlinear_arith)
        requires
            a <= x,
            b <= y,
    ;
    law_ray_product_rounds(a, b);
    let p = ray_product(a, b);
    if p >= u256_modulus() {
        assert(p * one() >= u256_modulus() * one()) by (nonlinear_arith)
            requires
                p >= u256_modulus(),
        ;
    }
}

/// Units of a token as a ray, for any number of units per token: below the
/// wrap, the ray falls short of the exact value by less than the amount itself
/// times 10^-27.
pub proof fn law_units_as_ray(amount: nat, decimals: F64)
    requires
        decimals.truncated() > 0,
        amount * one() < decimals.truncated() * u256_modulus(),
    ensures
        ray_of_units(amount, decimals) * decimals.truncated() <= amount * one(),
        amount > 0 ==> amount * one() - amount * decimals.truncated() < ray_of_units(
            amount,
            decimals,
        ) * decimals.truncated(),
{
    let d = decimals.truncated() as int;
    let q = one() as int / d;
    lemma_fundamental_div_mod(one() as int, d);
    lemma_mod_pos_bound(one() as int, d);
    let r = one() as int % d;
    assert(q >= 0) by {
        lemma_div_is_ordered(0, one() as int, d);
    }
    assert(amount * one() == (amount * q) * d + amount * r) by (nonlinear_arith)
        requires
            one() == d * q + r,
    ;
    assert(amount * r >= 0 && amount * q >= 0) by (nonlinear_arith)
        requires
            amount >= 0,
            r >= 0,
            q >= 0,
    ;
    if amount * q >= u256_modulus() {
        assert((amount * q) * d >= u256_modulus() * d) by (nonlinear_arith)
            requires
                amount * q >= u256_modulus(),
                d > 0,
        ;
        assert(u256_modulus() * d == d * u256_modulus()) by (nonlinear_arith);
    }
    lemma_small_mod((amount * q) as nat, u256_modulus());
    assert(ray_of_units(amount, decimals) == amount * q);
    if amount > 0 {
        assert(amount * r < amount * d) by (nonlinear_arith)
            requires
                amount > 0,
                r < d,
        ;
    }
}

/// One token is 1.0: where the units per token divide 10^27, the ray of whole
/// tokens is exactly their number times 1.0, below the wrap.
pub proof fn law_whole_tokens(tokens: nat, decimals: F64)
    requires
        decimals.truncated() > 0,
        one() % decimals.truncated() == 0,
        tokens * one() < u256_modulus(),
    ensures
        ray_of_units(tokens * decimals.truncated(), decimals) == tokens * one(),
{
    let d = decimals.truncated() as int;
    let q = one() as int / d;
    lemma_fundamental_div_mod(one() as int, d);
    assert((tokens * d) * q == tokens * one()) by (nonlinear_arith)
        requires
            one() == d * q,
    ;
    lemma_small_mod(tokens * one(), u256_modulus());
}

/// Rays of units add up, even where they wrap.
pub proof fn law_units_add_up(a: nat, b: nat, decimals: F64)
    requires
        decimals.truncated() > 0,
    ensures
        ray_of_units(a + b, decimals) == (ray_of_units(a, decimals) + ray_of_units(b, decimals))
            % u256_modulus(),
        ray_of_units(a, decimals) < u256_modulus(),
{
    let q = one() / decimals.truncated();
    assert((a + b) * q == a * q + b * q) by (nonlinear_arith);
    vstd::arithmetic::div_mod::lemma_add_mod_noop(
        (a * q) as int,
        (b * q) as int,
        u256_modulus() as int,
    );
    lemma_mod_pos_bound((a * q) as int, u256_modulus() as int);
}

/// A scaled amount times the index is the amount: within half of the index, in
/// units of 10^-27 of a ray.
pub proof fn law_scaled_units(amount: nat, decimals: F64, index: nat)
    requires
        index > 0,
    ensures
        ({
            let exact = ray_of_units(amount, decimals) * one();
            let got = scaled_units(amount, decimals, index) * index;
            &&& 2 * (got - exact) <= index
            &&& 2 * (exact - got) <= index
        }),
{
    law_ray_quotient_rounds(ray_of_units(amount, decimals), index);
}

/// An amount can be scaled exactly where there are units and an index to
/// divide by and the quotient is below 2^256. Any amount of 128 bits can be, at
/// an index of at least 1.0.
pub proof fn law_scalable(amount: nat, decimals: F64, index: nat)
    ensures
        scalable(amount, decimals, index) <==> decimals.truncated() > 0 && index > 0
            && ray_of_units(amount, decimals) * one() + index / 2 < u256_modulus() * index,
        amount <= u128::MAX && decimals.truncated() > 0 && index >= one() ==> scalable(
            amount,
            decimals,
            index,
        ),
{
    if decimals.truncated() > 0 && index > 0 {
        let r = ray_of_units(amount, decimals);
        let x = (r * one() + index / 2) as int;
        let m = u256_modulus() as int;
        let k = index as int;
        lemma_fundamental_div_mod(x, k);
        lemma_mod_pos_bound(x, k);
        assert(scaled_units(amount, decimals, index) == x / k);
        assert(x / k < m <==> x < m * k) by (nonlinear_arith)
            requires
                x == k * (x / k) + x % k,
                0 <= x % k < k,
                k > 0,
        ;
        if amount <= u128::MAX && index >= one() {
            let q = one() as int / decimals.truncated() as int;
            lemma_fundamental_div_mod(one() as int, decimals.truncated() as int);
            lemma_mod_pos_bound(one() as int, decimals.truncated() as int);
            assert(0 <= q <= one()) by (nonlinear_arith)
                requires
                    one() == decimals.truncated() * q + one() as int % decimals.truncated() as int,
                    0 <= one() as int % decimals.truncated() as int,
                    (one() as int % decimals.truncated() as int) < decimals.truncated(),
                    decimals.truncated() >= 1,
            ;
            assert(0 <= amount * q <= u128::MAX * one()) by (nonlinear_arith)
                requires
                    amount <= u128::MAX,
                    0 <= q <= one(),
            ;
            lemma_small_mod((amount * q) as nat, u256_modulus());
            assert(r <= u128::MAX * one());
            assert(r * one() + k <= u128::MAX * one() * k + k) by (nonlinear_arith)
                requires
                    0 <= r <= u128::MAX * one(),
                    k >= one(),
            ;
            assert(u128::MAX * one() * k + k < m * k) by (nonlinear_arith)
                requires
                    u128::MAX * one() + 1 < m,
                    k > 0,
            ;
        }
    }
}

// ---- interest ----
/// Interest is linear in rate and time, for every rate: the interest on 1.0
/// times a year is the rate times the seconds that have passed, to within the
/// rounding of two operations on rays.
pub proof fn law_interest_linear(i: IndexState, now: TimeStamp, seconds: nat)
    requires
        i.last_update <= now,
        now - i.last_update <= i64::MAX,
        1_000_000 * seconds <= now - i.last_update < 1_000_000 * seconds + 1_000_000,
    ensures
        2 * one() * (growth(i, now) * year() - i.rate * seconds) <= year() * (one() + i.rate),
        2 * one() * (i.rate * seconds - growth(i, now) * year()) <= year() * (one() + i.rate),
{
    let span = now - i.last_update;
    assert(span / 1_000_000 == seconds) by {
        lemma_fundamental_div_mod_converse(
            span,
            1_000_000,
            seconds as int,
            span - 1_000_000 * seconds,
        );
    }
    if now == i.last_update {
        assert(seconds == 0);
    }
    let y = year();
    let q = ray_quotient(seconds, y);
    let g = growth(i, now);
    assert(g == ray_product(i.rate, q));
    law_ray_quotient_rounds(seconds, y);
    law_ray_product_rounds(i.rate, q);
    let a = q * y - seconds * one();
    let b = g * one() - i.rate * q;
    assert(2 * one() * (g * y - i.rate * seconds) == y * (2 * b) + i.rate * (2 * a))
        by (nonlinear_arith)
        requires
            a == q * y - seconds * one(),
            b == g * one() - i.rate * q,
    ;
    assert(y * (2 * b) <= y * one() && -(y * (2 * b)) <= y * one()) by (nonlinear_arith)
        requires
            2 * b <= one(),
            -2 * b <= one(),
            y > 0,
    ;
    assert(i.rate * (2 * a) <= i.rate * y && -(i.rate * (2 * a)) <= i.rate * y)
        by (nonlinear_arith)
        requires
            2 * a <= y,
            -2 * a <= y,
            i.rate >= 0,
    ;
    assert(y * (one() + i.rate) == y * one() + i.rate * y) by (nonlinear_arith);
    assert(2 * one() * (i.rate * seconds - g * y) == -(2 * one() * (g * y - i.rate * seconds)))
        by (nonlinear_arith);
}

/// Over exactly a year the interest on 1.0 is the rate.
pub proof fn law_interest_of_a_year(i: IndexState, now: TimeStamp)
    requires
        now - i.last_update == 1_000_000 * year(),
    ensures
        growth(i, now) == i.rate,
{
    let y = year() as int;
    vstd::arithmetic::div_mod::lemma_div_multiples_vanish_fancy(one() as int, y / 2, y);
    assert(y * one() == one() * y) by (nonlinear_arith);
    assert(ray_quotient(year(), year()) == one());
    law_unit_index(i.rate);
}

/// There is no interest within the same second, nor backwards.
pub proof fn law_no_interest_within_a_second(i: IndexState, now: TimeStamp)
    requires
        now - i.last_update < 1_000_000,
    ensures
        growth(i, now) == 0,
{
    assert(year() == 31_536_000);
    assert(ray_quotient(0, year()) == 0);
    assert(i.rate * 0 == 0) by (nonlinear_arith);
}

/// An index accrues by its interest: the new index times 1.0 is the old one
/// times 1.0 plus interest, to within half of 1.0. The rate stays, and the
/// index stands for the new moment.
pub proof fn law_index_accrues(i: IndexState, now: TimeStamp)
    requires
        one() + growth(i, now) < u256_modulus(),
    ensures
        2 * (accrued(i, now).index * one() - i.index * (one() + growth(i, now))) <= one(),
        2 * (i.index * (one() + growth(i, now)) - accrued(i, now).index * one()) <= one(),
        accrued(i, now).rate == i.rate,
        accrued(i, now).last_update == now,
{
    lemma_small_mod(one() + growth(i, now), u256_modulus());
    law_ray_product_rounds(i.index, one() + growth(i, now));
}

/// A positive rate makes an index grow: as soon as the rate times the seconds
/// that have passed comes to two seconds-per-year, an index of at least 1.0 is
/// strictly larger.
pub proof fn law_index_grows(i: IndexState, now: TimeStamp, seconds: nat)
    requires
        i.last_update <= now,
        now - i.last_update <= i64::MAX,
        1_000_000 * seconds <= now - i.last_update < 1_000_000 * seconds + 1_000_000,
        i.rate * seconds >= 2 * year(),
        i.index >= one(),
        one() + growth(i, now) < u256_modulus(),
    ensures
        accrued(i, now).index > i.index,
{
    law_interest_linear(i, now, seconds);
    law_index_accrues(i, now);
    let g = growth(i, now);
    let y = year();
    if g == 0 {
        assert(2 * one() * (i.rate * seconds - g * y) == 2 * one() * (i.rate * seconds))
            by (nonlinear_arith)
            requires
                g == 0,
        ;
        if i.rate <= one() {
            assert(2 * one() * (i.rate * seconds) >= 4 * one() * y) by (nonlinear_arith)
                requires
                    i.rate * seconds >= 2 * y,
            ;
            assert(y * (one() + i.rate) <= 2 * one() * y) by (nonlinear_arith)
                requires
                    i.rate <= one(),
                    y > 0,
            ;
        } else {
            assert(seconds >= 1) by (nonlinear_arith)
                requires
                    i.rate * seconds > 0,
                    seconds >= 0,
            ;
            assert(i.rate * seconds >= i.rate) by (nonlinear_arith)
                requires
                    seconds >= 1,
            ;
            assert(y * (one() + i.rate) <= 2 * y * i.rate) by (nonlinear_arith)
                requires
                    i.rate > one(),
                    y > 0,
            ;
            assert(2 * y * i.rate < 2 * one() * i.rate) by (nonlinear_arith)
                requires
                    y < one(),
                    i.rate > 0,
            ;
        }
        assert(false);
    }
    let t = accrued(i, now).index;
    assert(i.index * (one() + g) >= i.index * one() + one()) by (nonlinear_arith)
        requires
            g >= 1,
            i.index >= one(),
    ;
    if t <= i.index {
        assert(t * one() <= i.index * one()) by (nonlinear_arith)
            requires
                t <= i.index,
        ;
    }
}

/// Whether an index has the interest of the time since its last update: it is
/// the old index times 1.0 plus the rate times the seconds that have passed, per
/// year, to within the rounding of three operations on rays.
pub open spec fn interest_added(before: IndexState, after: IndexState, now: TimeStamp) -> bool {
    let seconds = (now - before.last_update) / 1_000_000;
    let exact = before.index * (one() * one() * year() + before.rate * seconds * one());
    let got = after.index * one() * one() * year();
    let error = one() * one() * year() + before.index * year() * (one() + before.rate);
    &&& after.rate == before.rate
    &&& after.last_update == now
    &&& before.last_update <= now && now - before.last_update <= i64::MAX && before.index
        <= u128::MAX && before.rate <= u128::MAX ==> 2 * (got - exact) <= error && 2 * (exact - got)
        <= error
}

proof fn lemma_error_parts(a: int, x: int, g: int, r: int, e: int, o: int, y: int)
    ensures
        2 * (a * o * o * y - x * (o * o * y + r * e * o)) == o * y * (2 * (a * o - x * (o + g))) + x
            * (2 * o * (g * y - r * e)),
{
    let u = a * o;
    let v = x * (o + g);
    let w = g * y - r * e;
    let k = o * y;
    assert(k * (2 * (u - v)) == 2 * (k * u) - 2 * (k * v)) by (nonlinear_arith);
    assert(x * (2 * o * w) == 2 * (x * o * w)) by (nonlinear_arith);
    assert(k * u == a * o * o * y) by (nonlinear_arith)
        requires
            k == o * y,
            u == a * o,
    ;
    let z = x * o * y;
    assert(k * v == z * (o + g)) by (nonlinear_arith)
        requires
            k == o * y,
            v == x * (o + g),
            z == x * o * y,
    ;
    assert(z * (o + g) == z * o + z * g) by (nonlinear_arith);
    let c = x * o;
    assert(c * w == c * (g * y) - c * (r * e)) by (nonlinear_arith)
        requires
            w == g * y - r * e,
    ;
    assert(c * (g * y) == z * g) by (nonlinear_arith)
        requires
            c == x * o,
            z == x * o * y,
    ;
    assert(x * (o * o * y + r * e * o) == x * (o * o * y) + x * (r * e * o)) by (nonlinear_arith);
    assert(x * (o * o * y) == z * o) by (nonlinear_arith)
        requires
            z == x * o * y,
    ;
    assert(x * (r * e * o) == c * (r * e)) by (nonlinear_arith)
        requires
            c == x * o,
    ;
}

/// An index that accrues has the interest of the time since its last update.
pub proof fn law_interest_added(i: IndexState, now: TimeStamp)
    ensures
        interest_added(i, accrued(i, now), now),
{
    if i.last_update <= now && now - i.last_update <= i64::MAX && i.index <= u128::MAX && i.rate
        <= u128::MAX {
        let e = (now - i.last_update) / 1_000_000;
        law_interest_computable(i, now);
        law_index_accrues(i, now);
        law_interest_linear(i, now, e as nat);
        let a = accrued(i, now).index as int;
        let x = i.index as int;
        let g = growth(i, now) as int;
        let r = i.rate as int;
        let o = one() as int;
        let y = year() as int;
        let p = 2 * (a * o - x * (o + g));
        let q = 2 * o * (g * y - r * e);
        assert(2 * o * (r * e - g * y) == -q) by (nonlinear_arith)
            requires
                q == 2 * o * (g * y - r * e),
        ;
        let got = a * o * o * y;
        let exact = x * (o * o * y + r * e * o);
        lemma_error_parts(a, x, g, r, e, o, y);
        assert(o * y * p <= o * o * y && -(o * y * p) <= o * o * y) by (nonlinear_arith)
            requires
                -o <= p <= o,
                o > 0,
                y > 0,
        ;
        assert(x * q <= x * y * (o + r) && -(x * q) <= x * y * (o + r)) by (nonlinear_arith)
            requires
                q <= y * (o + r),
                -q <= y * (o + r),
                x >= 0,
        ;
    }
}

/// Spans of time beyond the range of a moment count as the longest within it.
pub proof fn law_interest_capped(i: IndexState, now: TimeStamp)
    requires
        now - i.last_update > i64::MAX,
    ensures
        growth(i, now) == growth(
            IndexState { last_update: (now - i64::MAX) as i64, ..i },
            now,
        ),
{
}

/// Interest can be computed exactly where the last update is less than a second
/// ahead, the interest on 1.0 is below 2^256, and so is the index times 1.0
/// plus interest, rounded half up.
pub proof fn law_interest_fits(i: IndexState, now: TimeStamp)
    requires
        one() + growth(i, now) < u256_modulus(),
    ensures
        accruable(i, now) <==> now - i.last_update > -1_000_000 && 2 * (i.index * (one() + growth(
            i,
            now,
        ))) + one() < 2 * u256_modulus() * one(),
{
    lemma_small_mod(one() + growth(i, now), u256_modulus());
    lemma_product_below(i.index, one() + growth(i, now));
}

/// Interest can be computed of all indexes and rates of 128 bits whose last
/// update is not ahead.
pub proof fn law_interest_computable(i: IndexState, now: TimeStamp)
    requires
        i.index <= u128::MAX,
        i.rate <= u128::MAX,
        i.last_update <= now,
    ensures
        accruable(i, now),
        one() + growth(i, now) < u256_modulus(),
{
    let seconds = crate::reserves::elapsed_seconds(i.last_update, now) as nat;
    assert(seconds <= 9_223_372_036_855);
    let q = ray_quotient(seconds, year());
    law_ray_quotient_rounds(seconds, year());
    let bound: nat = 300_000_000_000_000_000_000_000_000_000_000;
    assert(q <= bound) by {
        if q > bound {
            assert(q * year() > bound * year()) by (nonlinear_arith)
                requires
                    q > bound,
                    year() > 0,
            ;
        }
    }
    let g = growth(i, now);
    lemma_product_fits(i.rate, q, u128::MAX as nat, bound);
    law_ray_product_rounds(i.rate, q);
    let most: nat = 0x1_0000_0000_0000_0000_0000_0000_0000_0000_0000_0000nat;
    assert(i.rate * q <= u128::MAX * bound) by (nonlinear_arith)
        requires
            i.rate <= u128::MAX,
            q <= bound,
    ;
    assert(g <= most) by {
        if g > most {
            assert(g * one() > most * one()) by (nonlinear_arith)
                requires
                    g > most,
            ;
        }
    }
    lemma_small_mod(one() + g, u256_modulus());
    lemma_product_fits(i.index, one() + g, u128::MAX as nat, one() + most);
}

// ---- doubles ----
/// Whether bits encode a number, infinity included.
pub open spec fn number(bits: u64) -> bool {
    bits % 0x8000_0000_0000_0000 <= 0x7ff0_0000_0000_0000
}

/// The magnitude that the bits of a double encode, in units of 2^-1074;
/// infinity counts as 2^1024.
pub open spec fn magnitude_of(bits: u64) -> nat {
    let m = (bits % 0x8000_0000_0000_0000) as nat;
    let exponent = m / 0x10_0000_0000_0000;
    let fraction = m % 0x10_0000_0000_0000;
    if exponent == 0 {
        fraction
    } else {
        (0x10_0000_0000_0000 + fraction) * pow2((exponent - 1) as nat)
    }
}

/// The value that the bits of a double encode, in units of 2^-1074.
pub open spec fn value_of(bits: u64) -> int {
    if bits >= 0x8000_0000_0000_0000 {
        -magnitude_of(bits)
    } else {
        magnitude_of(bits) as int
    }
}

/// Whether two doubles are numbers of one value.
pub open spec fn same_value(a: F64, b: F64) -> bool {
    number(a.bits) && number(b.bits) && value_of(a.bits) == value_of(b.bits)
}

/// Larger bits encode a larger magnitude.
proof fn lemma_magnitude_ordered(a: u64, b: u64)
    requires
        a % 0x8000_0000_0000_0000 < b % 0x8000_0000_0000_0000,
    ensures
        magnitude_of(a) < magnitude_of(b),
{
    let h: nat = 0x10_0000_0000_0000;
    let ma = (a % 0x8000_0000_0000_0000) as nat;
    let mb = (b % 0x8000_0000_0000_0000) as nat;
    let ea = ma / h;
    let eb = mb / h;
    let fa = ma % h;
    let fb = mb % h;
    assert(ea <= eb);
    if ea == eb {
        if ea > 0 {
            let p = pow2((ea - 1) as nat);
            lemma_pow2_pos((ea - 1) as nat);
            assert((h + fa) * p < (h + fb) * p) by (nonlinear_arith)
                requires
                    fa < fb,
                    p > 0,
            ;
        }
    } else {
        let pb = pow2((eb - 1) as nat);
        lemma_pow2_pos((eb - 1) as nat);
        assert((h + fb) * pb >= h * pb) by (nonlinear_arith)
            requires
                fb >= 0,
                pb > 0,
        ;
        if ea == 0 {
            assert(h * pb >= h) by (nonlinear_arith)
                requires
                    pb >= 1,
            ;
        } else {
            let pa = pow2((ea - 1) as nat);
            lemma_pow2_pos((ea - 1) as nat);
            lemma_pow2_unfold(ea);
            if ea < eb - 1 {
                lemma_pow2_strictly_increases(ea, (eb - 1) as nat);
            }
            assert((h + fa) * pa < 2 * h * pa) by (nonlinear_arith)
                requires
                    fa < h,
                    pa > 0,
            ;
            assert(2 * h * pa <= h * pb) by (nonlinear_arith)
                requires
                    2 * pa <= pb,
            ;
        }
    }
}

/// Two doubles are equal exactly where both are numbers and have one value.
pub proof fn law_doubles_equal(a: F64, b: F64)
    ensures
        a.ieee_equal(b) <==> same_value(a, b),
{
    let ma = a.bits % 0x8000_0000_0000_0000;
    let mb = b.bits % 0x8000_0000_0000_0000;
    let zero = 0u64;
    if ma < mb {
        lemma_magnitude_ordered(a.bits, b.bits);
    }
    if mb < ma {
        lemma_magnitude_ordered(b.bits, a.bits);
    }
    if zero < ma {
        lemma_magnitude_ordered(zero, a.bits);
    }
    if zero < mb {
        lemma_magnitude_ordered(zero, b.bits);
    }
}

/// 1.0, in units of 2^-1074.
proof fn lemma_one_double()
    ensures
        magnitude_of(0x3ff0_0000_0000_0000) == pow2(1074),
{
    vstd::arithmetic::power2::lemma2_to64();
    vstd::arithmetic::power2::lemma2_to64_rest();
    lemma_pow2_adds(52, 1022);
}

/// A double is below 1.0 exactly where it is a number and its value is.
pub proof fn law_below_one(a: F64)
    ensures
        a.under_one() <==> number(a.bits) && value_of(a.bits) < pow2(1074),
{
    let one_bits = 0x3ff0_0000_0000_0000u64;
    lemma_one_double();
    lemma_pow2_pos(1074);
    if a.bits < one_bits {
        lemma_magnitude_ordered(a.bits, one_bits);
    } else if a.bits < 0x8000_0000_0000_0000 && a.bits > one_bits {
        lemma_magnitude_ordered(one_bits, a.bits);
    }
}

/// A double truncates to the whole part of its value: no number and negative
/// values to zero, and values of 2^128 and more to the largest number.
pub proof fn law_truncation(a: F64)
    ensures
        !number(a.bits) || value_of(a.bits) < 0 ==> a.truncated() == 0,
        number(a.bits) && 0 <= value_of(a.bits) < pow2(1202) ==> a.truncated() * pow2(1074)
            <= value_of(a.bits) < (a.truncated() + 1) * pow2(1074),
        number(a.bits) && value_of(a.bits) >= pow2(1202) ==> a.truncated() == u128::MAX,
{
    let h: nat = 0x10_0000_0000_0000;
    let m = (a.bits % 0x8000_0000_0000_0000) as nat;
    let e = m / h;
    let f = m % h;
    let s = h + f;
    vstd::arithmetic::power2::lemma2_to64();
    vstd::arithmetic::power2::lemma2_to64_rest();
    lemma_pow2_pos(1074);
    lemma_pow2_pos(1202);
    lemma_pow2_adds(1074, 128);
    lemma_pow2_adds(64, 64);
    let cut = a.truncated();
    let unit = pow2(1074);
    assert((cut + 1) * unit == cut * unit + unit) by (nonlinear_arith);
    assert(cut == 0 ==> cut * unit == 0) by (nonlinear_arith);
    if a.bits >= 0x8000_0000_0000_0000 {
        assert(a.truncated() == 0);
        if value_of(a.bits) >= 0 {
            assert(magnitude_of(a.bits) == 0);
        }
    } else if !number(a.bits) {
    } else if e < 1023 {
        law_below_one(a);
        assert(a.truncated() == 0);
        lemma_pow2_strictly_increases(1074, 1202);
    } else if e < 1075 {
        let k = (1075 - e) as nat;
        let p = pow2((e - 1) as nat);
        let d = pow2(k);
        let t = a.truncated();
        lemma_pow2_pos((e - 1) as nat);
        lemma_pow2_pos(k);
        lemma_pow2_adds((e - 1) as nat, k);
        lemma_fundamental_div_mod(s as int, d as int);
        lemma_mod_pos_bound(s as int, d as int);
        assert(a.significand() == s);
        assert(t == s as int / d as int);
        assert(t * (p * d) <= s * p && s * p < (t + 1) * (p * d)) by (nonlinear_arith)
            requires
                s == d * t + (s as int) % (d as int),
                0 <= (s as int) % (d as int),
                ((s as int) % (d as int)) < d,
                p > 0,
        ;
        assert(s * p < pow2(1202)) by {
            lemma_pow2_adds(53, (e - 1) as nat);
            assert(s * p < pow2(53) * p) by (nonlinear_arith)
                requires
                    s < pow2(53),
                    p > 0,
            ;
            lemma_pow2_strictly_increases((52 + e) as nat, 1202);
        }
    } else if e < 1151 {
        let k = (e - 1075) as nat;
        let p = pow2((e - 1) as nat);
        lemma_pow2_adds(1074, k);
        lemma_pow2_pos(k);
        let t = a.truncated();
        assert(a.significand() == s);
        assert(t == s * pow2(k));
        assert(t * pow2(1074) == s * p) by (nonlinear_arith)
            requires
                t == s * pow2(k),
                p == pow2(1074) * pow2(k),
        ;
        assert(s * p < pow2(1202)) by {
            lemma_pow2_adds(53, (e - 1) as nat);
            lemma_pow2_pos((e - 1) as nat);
            assert(s * p < pow2(53) * p) by (nonlinear_arith)
                requires
                    s < pow2(53),
                    p > 0,
            ;
            if e < 1150 {
                lemma_pow2_strictly_increases((52 + e) as nat, 1202);
            }
        }
    } else {
        let p = pow2((e - 1) as nat);
        lemma_pow2_adds(52, (e - 1) as nat);
        lemma_pow2_pos((e - 1) as nat);
        assert(s * p >= pow2(52) * p) by (nonlinear_arith)
            requires
                s >= pow2(52),
                p > 0,
        ;
        if e > 1151 {
            lemma_pow2_strictly_increases(1202, (51 + e) as nat);
        }
    }
}

/// Prices differ exactly where some of them is no number or has another value,
/// larger or smaller, or where there are more of them or fewer.
pub proof fn law_price_changes_seen(a: Seq<F64>, b: Seq<F64>)
    ensures
        !arrays_differ(a, b) <==> a.len() == b.len() && forall|i: int|
            0 <= i < a.len() ==> #[trigger] same_value(a[i], b[i]),
{
    assert forall|i: int| 0 <= i < a.len() && a.len() == b.len() implies a[i].ieee_equal(b[i])
        == #[trigger] same_value(a[i], b[i]) by {
        law_doubles_equal(a[i], b[i]);
    }
    if a.len() == b.len() {
        if arrays_differ(a, b) {
            let i = choose|i: int| 0 <= i < a.len() && !(#[trigger] a[i]).ieee_equal(b[i]);
            assert(!same_value(a[i], b[i]));
        } else {
            assert forall|i: int| 0 <= i < a.len() implies #[trigger] same_value(a[i], b[i]) by {
                assert(a[i].ieee_equal(b[i]));
            }
        }
    }
}

/// The rows to be liquidated are exactly those whose health factor is a number
/// below 1.0, in order and each once.
pub proof fn law_liquidated_rows(factors: Seq<F64>, row: usize)
    requires
        row < factors.len() <= usize::MAX,
    ensures
        unhealthy(factors, factors.len()).contains(row) <==> number(factors[row as int].bits)
            && value_of(factors[row as int].bits) < pow2(1074),
        forall|i: int, j: int|
            0 <= i < j < unhealthy(factors, factors.len()).len() ==> #[trigger] unhealthy(
                factors,
                factors.len(),
            )[i] < #[trigger] unhealthy(factors, factors.len())[j],
        forall|i: int|
            0 <= i < unhealthy(factors, factors.len()).len() ==> #[trigger] unhealthy(
                factors,
                factors.len(),
            )[i] < factors.len(),
{
    law_unhealthy_rows(factors, factors.len());
    law_below_one(factors[row as int]);
    let u = unhealthy(factors, factors.len());
    if u.contains(row) {
        let i = choose|i: int| 0 <= i < u.len() && u[i] == row;
        assert(factors[u[i] as int].under_one());
    }
}

/// A health factor that was stored is there, and the other rows have what they
/// had.
pub proof fn law_stored_factor_is_there(factors: Seq<F64>, row: int, other: int, hf: F64)
    requires
        0 <= row,
        0 <= other,
        other != row,
    ensures
        0 <= row < hf_stored(factors, row, hf).len(),
        hf_stored(factors, row, hf)[row] == hf,
        other < factors.len() ==> hf_stored(factors, row, hf)[other] == factors[other],
        factors.len() <= other < row ==> hf_stored(factors, row, hf)[other].bits == 0,
        hf_stored(factors, row, hf).len() >= factors.len(),
        hf_stored(factors, row, hf).len() == factors.len() || hf_stored(factors, row, hf).len() == row
            + 1,
{
}

} // verus!
