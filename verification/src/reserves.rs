//! Interest: how the indexes of the reserves grow, and what the cache makes of
//! an update of one of them.
use vstd::prelude::*;
use crate::address::Address;
use crate::cache::{index_states, Cache, CacheState};
use crate::matrix::{lemma_values_update, values};
use crate::ray::{ray_product, ray_quotient, RAY};
use crate::tokens::{order_of, TokenDetails, Tokens};
use crate::types::{Error, HFRequest, Index, IndexState, TimeStamp};
use crate::uint::{u256_modulus, U256};

verus! {

broadcast use lemma_values_update;

/// New rates and indexes of a reserve.
#[derive(Clone, Copy, Debug)]
pub struct ReserveDataUpdated {
    pub reserve: Address,
    pub liquidity_rate: U256,
    pub variable_borrow_rate: U256,
    pub liquidity_index: U256,
    pub variable_borrow_index: U256,
}

/// The seconds of a year.
pub const SECONDS_PER_YEAR: u128 = 31_536_000;

/// The whole seconds from one moment to another; none if the second is not
/// later. Spans that exceed the range of a moment are held at its end.
pub open spec fn elapsed_seconds(from: TimeStamp, to: TimeStamp) -> int {
    if to <= from {
        0
    } else if to - from > i64::MAX {
        i64::MAX / 1_000_000
    } else {
        (to - from) / 1_000_000
    }
}

/// The interest on 1.0, as a ray, over the time since the last update: the
/// yearly rate times the part of a year that has passed.
pub open spec fn growth(i: IndexState, now: TimeStamp) -> nat {
    ray_product(
        i.rate,
        ray_quotient(elapsed_seconds(i.last_update, now) as nat, SECONDS_PER_YEAR as nat),
    )
}

/// The factor by which an index grows, modulo 2^256.
pub open spec fn growth_factor(i: IndexState, now: TimeStamp) -> nat {
    (RAY as nat + growth(i, now)) % u256_modulus()
}

/// An index with the linear interest since its last update.
pub open spec fn accrued(i: IndexState, now: TimeStamp) -> IndexState {
    IndexState {
        index: ray_product(i.index, growth_factor(i, now)),
        last_update: now,
        ..i
    }
}

/// Whether the interest of an index can be computed: its last update is not a
/// second or more ahead, and the products have 256 bits.
pub open spec fn accruable(i: IndexState, now: TimeStamp) -> bool {
    &&& now - i.last_update > -1_000_000
    &&& growth(i, now) < u256_modulus()
    &&& ray_product(i.index, growth_factor(i, now)) < u256_modulus()
}

/// Whether some token has a column.
pub open spec fn has_column(entries: Seq<(Address, TokenDetails)>, column: int) -> bool {
    exists|i: int| 0 <= i < entries.len() && #[trigger] entries[i].1.order == column
}

/// The indexes after an update of one of them: that one is replaced, those of
/// the other tokens accrue interest.
pub open spec fn updated_indexes(
    indexes: Seq<IndexState>,
    entries: Seq<(Address, TokenDetails)>,
    column: int,
    index: nat,
    rate: nat,
    now: TimeStamp,
) -> Seq<IndexState> {
    Seq::new(
        indexes.len(),
        |k: int|
            if k == column {
                IndexState { index, rate, last_update: now }
            } else if has_column(entries, k) {
                accrued(indexes[k], now)
            } else {
                indexes[k]
            },
    )
}

/// The repeated indexes after an update of one of them.
pub open spec fn updated_rays(
    rays: Seq<nat>,
    indexes: Seq<IndexState>,
    entries: Seq<(Address, TokenDetails)>,
    column: int,
    index: nat,
    now: TimeStamp,
) -> Seq<nat> {
    Seq::new(
        rays.len(),
        |k: int|
            if k == column {
                index
            } else if has_column(entries, k) {
                accrued(indexes[k], now).index
            } else {
                rays[k]
            },
    )
}

/// What comes of an update of a reserve: the state after it, and the request
/// that follows or the error.
pub open spec fn reserve_update(
    s: CacheState,
    entries: Seq<(Address, TokenDetails)>,
    event: ReserveDataUpdated,
    rq_date: TimeStamp,
    now: TimeStamp,
) -> (CacheState, Result<HFRequest, Error>) {
    match order_of(entries, event.reserve) {
        None => (s, Err(Error::TokenNotFound(event.reserve))),
        Some(idx) => {
            let li = event.liquidity_index@;
            let vbi = event.variable_borrow_index@;
            (
                CacheState {
                    liquidity: (
                        updated_indexes(
                            s.liquidity.0,
                            entries,
                            idx as int,
                            li,
                            event.liquidity_rate@,
                            now,
                        ),
                        now,
                    ),
                    liquidity_index: (
                        updated_rays(
                            s.liquidity_index.0,
                            s.liquidity.0,
                            entries,
                            idx as int,
                            li,
                            now,
                        ),
                        now,
                    ),
                    variable_borrow: (
                        updated_indexes(
                            s.variable_borrow.0,
                            entries,
                            idx as int,
                            vbi,
                            event.variable_borrow_rate@,
                            now,
                        ),
                        now,
                    ),
                    variable_borrow_index: (
                        updated_rays(
                            s.variable_borrow_index.0,
                            s.variable_borrow.0,
                            entries,
                            idx as int,
                            vbi,
                            now,
                        ),
                        now,
                    ),
                    ..s
                },
                Ok(HFRequest::Full(rq_date)),
            )
        },
    }
}

/// Whether all four arrays of indexes have a column.
pub open spec fn column_held(s: CacheState, column: int) -> bool {
    &&& column < s.liquidity.0.len()
    &&& column < s.liquidity_index.0.len()
    &&& column < s.variable_borrow.0.len()
    &&& column < s.variable_borrow_index.0.len()
}

/// Whether the interest of a token's two indexes can be computed.
pub open spec fn column_accruable(s: CacheState, column: int, now: TimeStamp) -> bool {
    &&& column_held(s, column)
    &&& accruable(s.liquidity.0[column], now)
    &&& accruable(s.variable_borrow.0[column], now)
}

/// Whether an update of a reserve can be handled.
pub open spec fn reserve_update_ok(
    s: CacheState,
    entries: Seq<(Address, TokenDetails)>,
    event: ReserveDataUpdated,
    now: TimeStamp,
) -> bool {
    match order_of(entries, event.reserve) {
        None => true,
        Some(idx) => {
            &&& column_held(s, idx as int)
            &&& forall|i: int|
                0 <= i < entries.len() && #[trigger] entries[i].1.order != idx ==> column_accruable(
                    s,
                    entries[i].1.order as int,
                    now,
                )
        },
    }
}

/// An index that stands for this moment accrues nothing.
pub proof fn lemma_accrued_now(i: IndexState, now: TimeStamp)
    requires
        i.last_update == now,
        i.index < u256_modulus(),
    ensures
        accrued(i, now) == i,
        accruable(i, now),
{
    let y = SECONDS_PER_YEAR as nat;
    assert(ray_quotient(0, y) == 0);
    assert(i.rate * 0 == 0) by (nonlinear_arith);
    assert(growth(i, now) == 0);
    vstd::arithmetic::div_mod::lemma_small_mod(RAY as nat, u256_modulus());
    let r = RAY as int;
    vstd::arithmetic::div_mod::lemma_div_multiples_vanish_fancy(i.index as int, r / 2, r);
    assert(r * i.index == i.index * r) by (nonlinear_arith);
}

/// The whole seconds from one moment to another that is not a second or more
/// earlier.
fn seconds_between(from: TimeStamp, to: TimeStamp) -> (r: u128)
    ensures
        r == elapsed_seconds(from, to),
        r <= i64::MAX / 1_000_000,
{
    if to <= from {
        return 0;
    }
    let span: i128 = to as i128 - from as i128;
    let held: i128 = if span > i64::MAX as i128 {
        i64::MAX as i128
    } else {
        span
    };
    (held / 1_000_000) as u128
}

/// A span of seconds as a part of a year, as a ray.
fn part_of_year(seconds: u128) -> (r: U256)
    requires
        seconds <= i64::MAX / 1_000_000,
    ensures
        r@ == ray_quotient(seconds as nat, SECONDS_PER_YEAR as nat),
{
    U256::from_u128(seconds).ray_div(U256::from_u128(SECONDS_PER_YEAR))
}

/// The interest on 1.0 since an index was last updated.
fn interest(i: &Index, now: TimeStamp) -> (r: U256)
    requires
        growth(i@, now) < u256_modulus(),
    ensures
        r@ == growth(i@, now),
{
    i.rate.ray_mul(part_of_year(seconds_between(i.last_update, now)))
}

/// An index with the interest since its last update.
pub fn accrue(i: &Index, now: TimeStamp) -> (r: Index)
    requires
        accruable(i@, now),
    ensures
        r@ == accrued(i@, now),
{
    let factor: U256 = U256::from_u128(RAY).wrapping_add(interest(i, now));
    Index::new(i.index.ray_mul(factor), i.rate, now)
}

/// Whether the interest of an index can be computed.
pub fn accrues(i: &Index, now: TimeStamp) -> (r: bool)
    ensures
        r == accruable(i@, now),
{
    if now as i128 - i.last_update as i128 <= -1_000_000 {
        return false;
    }
    let part: U256 = part_of_year(seconds_between(i.last_update, now));
    i.rate.ray_mul_fits(part) && i.index.ray_mul_fits(
        U256::from_u128(RAY).wrapping_add(interest(i, now)),
    )
}

/// Takes one more token into account: its column accrues, once.
proof fn lemma_next_column(
    indexes: Seq<IndexState>,
    rays: Seq<nat>,
    entries: Seq<(Address, TokenDetails)>,
    j: int,
    column: int,
    index: nat,
    rate: nat,
    now: TimeStamp,
)
    requires
        0 <= j < entries.len(),
    ensures
        ({
            let k = entries[j].1.order as int;
            let before = updated_indexes(indexes, entries.take(j), column, index, rate, now);
            let after = updated_indexes(indexes, entries.take(j + 1), column, index, rate, now);
            let rays_before = updated_rays(rays, indexes, entries.take(j), column, index, now);
            let rays_after = updated_rays(rays, indexes, entries.take(j + 1), column, index, now);
            &&& k == column ==> after == before && rays_after == rays_before
            &&& k != column && k < indexes.len() ==> after == before.update(
                k,
                accrued(indexes[k], now),
            )
            &&& k != column && k < rays.len() ==> rays_after == rays_before.update(
                k,
                accrued(indexes[k], now).index,
            )
        }),
{
    let k = entries[j].1.order as int;
    let fewer = entries.take(j);
    let more = entries.take(j + 1);
    assert forall|c: int| has_column(more, c) == (has_column(fewer, c) || c == k) by {
        if has_column(fewer, c) {
            let i = choose|i: int| 0 <= i < fewer.len() && #[trigger] fewer[i].1.order == c;
            assert(more[i].1.order == c);
        }
        if c == k {
            assert(more[j].1.order == c);
        }
        if has_column(more, c) {
            let i = choose|i: int| 0 <= i < more.len() && #[trigger] more[i].1.order == c;
            if i < j {
                assert(fewer[i].1.order == c);
            }
        }
    }
    let before = updated_indexes(indexes, fewer, column, index, rate, now);
    let after = updated_indexes(indexes, more, column, index, rate, now);
    let rays_before = updated_rays(rays, indexes, fewer, column, index, now);
    let rays_after = updated_rays(rays, indexes, more, column, index, now);
    if k == column {
        assert(after =~= before);
        assert(rays_after =~= rays_before);
    } else {
        if k < indexes.len() {
            assert(after =~= before.update(k, accrued(indexes[k], now)));
        }
        if k < rays.len() {
            assert(rays_after =~= rays_before.update(k, accrued(indexes[k], now).index));
        }
    }
}

/// Replaces the index of one column and lets those of the other tokens accrue.
fn update_indexes(
    indexes: &mut Vec<Index>,
    rays: &mut Vec<U256>,
    tokens: &Tokens,
    column: usize,
    index: U256,
    rate: U256,
    now: TimeStamp,
)
    requires
        column < old(indexes)@.len(),
        column < old(rays)@.len(),
        forall|i: int|
            0 <= i < tokens@.len() && #[trigger] tokens@[i].1.order != column
                ==> tokens@[i].1.order < old(indexes)@.len() && tokens@[i].1.order < old(
                rays,
            )@.len() && accruable(index_states(old(indexes)@)[tokens@[i].1.order as int], now),
    ensures
        index_states(final(indexes)@) == updated_indexes(
            index_states(old(indexes)@),
            tokens@,
            column as int,
            index@,
            rate@,
            now,
        ),
        values(final(rays)@) == updated_rays(
            values(old(rays)@),
            index_states(old(indexes)@),
            tokens@,
            column as int,
            index@,
            now,
        ),
{
    let ghost first = index_states(indexes@);
    let ghost first_rays = values(rays@);
    let n: usize = tokens.len();
    indexes.set(column, Index::new(index, rate, now));
    rays.set(column, index);
    proof {
        assert(index_states(indexes@) =~= updated_indexes(
            first,
            tokens@.take(0),
            column as int,
            index@,
            rate@,
            now,
        ));
        assert(values(rays@) =~= updated_rays(
            first_rays,
            first,
            tokens@.take(0),
            column as int,
            index@,
            now,
        ));
    }
    let mut j: usize = 0;
    while j < n
        invariant
            j <= n == tokens@.len(),
            column < first.len(),
            column < first_rays.len(),
            indexes@.len() == first.len(),
            rays@.len() == first_rays.len(),
            forall|i: int|
                0 <= i < tokens@.len() && #[trigger] tokens@[i].1.order != column
                    ==> tokens@[i].1.order < first.len() && tokens@[i].1.order < first_rays.len()
                    && accruable(first[tokens@[i].1.order as int], now),
            index_states(indexes@) == updated_indexes(
                first,
                tokens@.take(j as int),
                column as int,
                index@,
                rate@,
                now,
            ),
            values(rays@) == updated_rays(
                first_rays,
                first,
                tokens@.take(j as int),
                column as int,
                index@,
                now,
            ),
        decreases n - j,
    {
        let k: usize = tokens.entry(j).1.order;
        proof {
            lemma_next_column(
                first,
                first_rays,
                tokens@,
                j as int,
                column as int,
                index@,
                rate@,
                now,
            );
        }
        if k != column {
            let ghost current = indexes@[k as int]@;
            proof {
                assert(current == index_states(indexes@)[k as int]);
                crate::uint::lemma_u256_bound(indexes@[k as int].index);
                if current.last_update == now {
                    lemma_accrued_now(current, now);
                }
                assert(accruable(current, now));
                assert(accrued(current, now) == accrued(first[k as int], now));
            }
            let next: Index = accrue(&indexes[k], now);
            let ghost earlier = indexes@;
            indexes.set(k, next);
            rays.set(k, next.index);
            assert(index_states(indexes@) =~= index_states(earlier).update(k as int, next@));
        }
        j = j + 1;
    }
    assert(tokens@.take(j as int) =~= tokens@);
}

/// Handles an update of a reserve. Its rates and indexes are replaced, the
/// indexes of the other tokens accrue interest up to now, and all health
/// factors are to be computed again.
pub fn reserve_data_updated(
    cache: &mut Cache,
    tokens: &Tokens,
    event: &ReserveDataUpdated,
    rq_date: TimeStamp,
    now: TimeStamp,
) -> (r: Result<HFRequest, Error>)
    requires
        reserve_update_ok(old(cache)@, tokens@, *event, now),
    ensures
        (final(cache)@, r) == reserve_update(old(cache)@, tokens@, *event, rq_date, now),
{
    let idx: usize = match tokens.order(&event.reserve) {
        Some(idx) => idx,
        None => return Err(Error::TokenNotFound(event.reserve)),
    };
    update_indexes(
        &mut cache.liquidity.values,
        &mut cache.liquidity_index.values,
        tokens,
        idx,
        event.liquidity_index,
        event.liquidity_rate,
        now,
    );
    update_indexes(
        &mut cache.variable_borrow.values,
        &mut cache.variable_borrow_index.values,
        tokens,
        idx,
        event.variable_borrow_index,
        event.variable_borrow_rate,
        now,
    );
    cache.liquidity.last_modified = now;
    cache.liquidity_index.last_modified = now;
    cache.variable_borrow.last_modified = now;
    cache.variable_borrow_index.last_modified = now;
    Ok(HFRequest::Full(rq_date))
}

/// Whether [`reserve_data_updated`] can handle an update.
pub fn admits_reserve_update(
    cache: &Cache,
    tokens: &Tokens,
    event: &ReserveDataUpdated,
    now: TimeStamp,
) -> (r: bool)
    ensures
        r == reserve_update_ok(cache@, tokens@, *event, now),
{
    let idx: usize = match tokens.order(&event.reserve) {
        Some(idx) => idx,
        None => return true,
    };
    let li: usize = cache.liquidity.values.len();
    let lii: usize = cache.liquidity_index.values.len();
    let vb: usize = cache.variable_borrow.values.len();
    let vbi: usize = cache.variable_borrow_index.values.len();
    if idx >= li || idx >= lii || idx >= vb || idx >= vbi {
        return false;
    }
    let n: usize = tokens.len();
    let mut j: usize = 0;
    while j < n
        invariant
            j <= n == tokens@.len(),
            order_of(tokens@, event.reserve) == Some(idx),
            column_held(cache@, idx as int),
            li == cache@.liquidity.0.len(),
            lii == cache@.liquidity_index.0.len(),
            vb == cache@.variable_borrow.0.len(),
            vbi == cache@.variable_borrow_index.0.len(),
            forall|i: int|
                0 <= i < j && #[trigger] tokens@[i].1.order != idx ==> column_accruable(
                    cache@,
                    tokens@[i].1.order as int,
                    now,
                ),
        decreases n - j,
    {
        let k: usize = tokens.entry(j).1.order;
        if k != idx {
            let ok: bool = k < li && k < lii && k < vb && k < vbi && accrues(
                &cache.liquidity.values[k],
                now,
            ) && accrues(&cache.variable_borrow.values[k], now);
            assert(ok == column_accruable(cache@, tokens@[j as int].1.order as int, now));
            if !ok {
                return false;
            }
        }
        j = j + 1;
    }
    true
}

} // verus!
