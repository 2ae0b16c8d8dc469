//! What holds of the library as a whole.
//!
//! Every function here is a statement about the functions of the other
//! modules, over the same specifications that their contracts use, with its
//! proof. None of them is ever executed.
use vstd::prelude::*;
use crate::address::Address;
use crate::cache::{
    blank_state, columns_in_range, initialised, registered, CacheState, MatrixState, RowState,
};
use crate::dispatch::{next, next_times, Dispatcher, EventKind, WORKERS};
use crate::events::{
    amount_event, amount_event_ok, collateral_event, collateral_event_ok, creation, decision,
    forgotten, liquidation_event, moved, resync, rows_of, side_of, stale, user_event, user_event_ok,
    user_of, Decision, LiquidationCall, StepState, Timing, UserEvent,
};
use crate::float::F64;
use crate::health::{hf_stored, unhealthy};
use crate::market::arrays_differ;
use crate::matrix::shape_encodable;
use crate::probe::{
    bare_indexes, distance, last_cell, last_reserve, pool_debt, pool_deposit, pool_indexes,
};
use crate::ray::{ray_product, ray_quotient, scaled_units, RAY};
use crate::reserves::{
    accruable, accrued, elapsed_seconds, growth, reserve_update, ReserveDataUpdated,
};
use crate::sync::{grown, served, synced};
use crate::tokens::{details_of, listing, lists, order_of, place_of, FoundToken, TokenDetails};
use crate::types::{
    Error, Fetched, IndexState, ReserveData, Side, SyncRequest, SyncTarget, TimeStamp,
    UserReserveData,
};
use crate::uint::u256_modulus;
use crate::userdata::{last_report, reported, reports, resynced, user_data};

verus! {

// ---- arithmetic ----
/// A product of rays is the exact product to within half a unit: the rounded
/// value times 1.0 is at most half of 1.0 away from the product.
pub proof fn law_ray_product_rounds(a: nat, b: nat)
    ensures
        ray_product(a, b) * RAY - a * b <= RAY / 2,
        a * b - ray_product(a, b) * RAY < RAY - RAY / 2,
{
    let x = (a * b + RAY as nat / 2) as int;
    let r = RAY as int;
    vstd::arithmetic::div_mod::lemma_fundamental_div_mod(x, r);
    vstd::arithmetic::div_mod::lemma_mod_pos_bound(x, r);
    assert(r * (x / r) == (x / r) * r) by (nonlinear_arith);
}

/// A quotient of rays is the exact quotient to within half a unit: the rounded
/// value times the divisor is at most half the divisor away from the dividend.
pub proof fn law_ray_quotient_rounds(a: nat, b: nat)
    requires
        b > 0,
    ensures
        ray_quotient(a, b) * b - a * RAY <= b / 2,
        a * RAY - ray_quotient(a, b) * b < b - b / 2,
{
    let x = (a * RAY as nat + b / 2) as int;
    vstd::arithmetic::div_mod::lemma_fundamental_div_mod(x, b as int);
    vstd::arithmetic::div_mod::lemma_mod_pos_bound(x, b as int);
    assert((b as int) * (x / b as int) == (x / b as int) * b) by (nonlinear_arith);
}

/// An amount that is scaled and made current again at one index comes back to
/// within half a unit plus half the index: twice the error, in units of 10^-27,
/// is at most the index plus 1.0.
pub proof fn law_scaling_error(amount: nat, index: nat)
    requires
        index > 0,
    ensures
        ({
            let back = ray_product(ray_quotient(amount, index), index);
            &&& 2 * RAY * (back - amount) <= index + RAY
            &&& 2 * RAY * (amount - back) <= index + RAY
        }),
{
    let scaled = ray_quotient(amount, index);
    let back = ray_product(scaled, index);
    law_ray_quotient_rounds(amount, index);
    law_ray_product_rounds(scaled, index);
    assert(2 * RAY * (back - amount) == 2 * (back * RAY - amount * RAY)) by (nonlinear_arith);
    assert(2 * RAY * (amount - back) == 2 * (amount * RAY - back * RAY)) by (nonlinear_arith);
}

/// At an index below 1.0 scaling loses nothing: the current amount comes back.
pub proof fn law_scaling_exact(amount: nat, index: nat)
    requires
        0 < index < RAY,
    ensures
        ray_product(ray_quotient(amount, index), index) == amount,
{
    law_scaling_error(amount, index);
    let back = ray_product(ray_quotient(amount, index), index);
    if back > amount {
        assert(2 * RAY * (back - amount) >= 2 * RAY) by (nonlinear_arith)
            requires
                back - amount >= 1,
        ;
    }
    if back < amount {
        assert(2 * RAY * (amount - back) >= 2 * RAY) by (nonlinear_arith)
            requires
                amount - back >= 1,
        ;
    }
}

/// At an index of 1.0 a scaled amount is the current amount, both ways.
pub proof fn law_unit_index(amount: nat)
    ensures
        ray_quotient(amount, RAY as nat) == amount,
        ray_product(amount, RAY as nat) == amount,
{
    let r = RAY as int;
    vstd::arithmetic::div_mod::lemma_div_multiples_vanish_fancy(amount as int, r / 2, r);
    assert(r * amount == amount * r) by (nonlinear_arith);
}

/// A larger amount never has a smaller scaled or current amount.
pub proof fn law_scaling_monotone(a: nat, b: nat, index: nat)
    requires
        a <= b,
        index > 0,
    ensures
        ray_quotient(a, index) <= ray_quotient(b, index),
        ray_product(a, index) <= ray_product(b, index),
{
    assert(a * RAY <= b * RAY) by (nonlinear_arith)
        requires
            a <= b,
    ;
    assert(a * index <= b * index) by (nonlinear_arith)
        requires
            a <= b,
    ;
    vstd::arithmetic::div_mod::lemma_div_is_ordered(
        (a * RAY as nat + index / 2) as int,
        (b * RAY as nat + index / 2) as int,
        index as int,
    );
    vstd::arithmetic::div_mod::lemma_div_is_ordered(
        (a * index + RAY as nat / 2) as int,
        (b * index + RAY as nat / 2) as int,
        RAY as int,
    );
}

/// Adding an amount to a balance and taking it away again, or the other way
/// round, gives the balance back, even where it wraps.
pub proof fn law_moves_cancel(balance: nat, scaled: nat, add: bool)
    requires
        balance < u256_modulus(),
        scaled < u256_modulus(),
    ensures
        moved(moved(balance, scaled, add), scaled, !add) == balance,
{
}

// ---- interest ----
/// No time, no interest: an index that stands for this moment stays as it is.
pub proof fn law_no_time_no_interest(i: IndexState, now: TimeStamp)
    requires
        i.last_update == now,
        i.index < u256_modulus(),
    ensures
        accrued(i, now) == i,
{
    crate::reserves::lemma_accrued_now(i, now);
}

/// Interest is computed once: an index that has accrued up to a moment does not
/// accrue again at that moment.
pub proof fn law_interest_once(i: IndexState, now: TimeStamp)
    requires
        accruable(i, now),
    ensures
        accrued(accrued(i, now), now) == accrued(i, now),
{
    crate::reserves::lemma_accrued_now(accrued(i, now), now);
}

/// Indexes never fall: as long as the growth factor does not wrap, an index is
/// at least what it was.
pub proof fn law_indexes_never_fall(i: IndexState, now: TimeStamp)
    requires
        RAY + growth(i, now) < u256_modulus(),
    ensures
        accrued(i, now).index >= i.index,
{
    let f = (RAY as nat + growth(i, now)) as nat;
    vstd::arithmetic::div_mod::lemma_small_mod(f, u256_modulus());
    law_unit_index(i.index);
    assert(i.index * RAY <= i.index * f) by (nonlinear_arith)
        requires
            RAY <= f,
    ;
    vstd::arithmetic::div_mod::lemma_div_is_ordered(
        (i.index * RAY as nat + RAY as nat / 2) as int,
        (i.index * f + RAY as nat / 2) as int,
        RAY as int,
    );
}

/// Later, not less: of two moments the later one never has the smaller
/// interest.
pub proof fn law_interest_grows_with_time(i: IndexState, earlier: TimeStamp, later: TimeStamp)
    requires
        earlier <= later,
    ensures
        growth(i, earlier) <= growth(i, later),
{
    let y = crate::reserves::SECONDS_PER_YEAR as nat;
    let a = elapsed_seconds(i.last_update, earlier) as nat;
    let b = elapsed_seconds(i.last_update, later) as nat;
    assert(a <= b);
    law_scaling_monotone(a, b, y);
    let p = ray_quotient(a, y);
    let q = ray_quotient(b, y);
    assert(i.rate * p <= i.rate * q) by (nonlinear_arith)
        requires
            p <= q,
    ;
    vstd::arithmetic::div_mod::lemma_div_is_ordered(
        (i.rate * p + RAY as nat / 2) as int,
        (i.rate * q + RAY as nat / 2) as int,
        RAY as int,
    );
}

// ---- events ----
/// Every event on a known row is applied, skipped or answered by reading the
/// row again, and which of the three is settled by its moment: it is read again
/// if the row is more than a day old or the event lies between the last reading
/// and the last change.
pub proof fn law_decision(row: RowState, at: Timing)
    ensures
        decision(row, at) == Decision::New <==> !stale(row.last_sync, at.clock) && at.rq_date
            > row.last_modified,
        decision(row, at) == Decision::Sync <==> stale(row.last_sync, at.clock) || (at.rq_date
            > row.last_sync && at.rq_date <= row.last_modified),
        row.last_sync <= row.last_modified ==> (decision(row, at) == Decision::Skip <==> !stale(
            row.last_sync,
            at.clock,
        ) && at.rq_date <= row.last_sync),
{
}

/// The row whose moments decide over an event on a known user: its side and
/// its number, if the event's tokens are known.
pub open spec fn deciding_row(
    s: CacheState,
    entries: Seq<(Address, TokenDetails)>,
    event: UserEvent,
) -> Option<(Side, usize)> {
    let (row, flags) = s.users[user_of(event).spec_key()];
    let deposit_side = |token: Address|
        match order_of(entries, token) {
            Some(idx) => Some((side_of(flags, idx as int, false), row)),
            None => None,
        };
    let known = |token: Address, side: Side|
        if order_of(entries, token) is Some {
            Some((side, row))
        } else {
            None
        };
    match event {
        UserEvent::Supply(ev) => deposit_side(ev.reserve),
        UserEvent::Withdraw(ev) => deposit_side(ev.reserve),
        UserEvent::Borrow(ev) => known(ev.reserve, Side::Borrowed),
        UserEvent::Repay(ev) => known(ev.reserve, Side::Borrowed),
        UserEvent::ReserveUsedAsCollateralEnabled(ev) => known(ev.reserve, Side::Reserve),
        UserEvent::ReserveUsedAsCollateralDisabled(ev) => known(ev.reserve, Side::Reserve),
        UserEvent::LiquidationCall(ev) => if order_of(entries, ev.collateral_asset) is Some {
            known(ev.debt_asset, Side::Borrowed)
        } else {
            None
        },
    }
}

/// An event that is applied is new to the row that decides over it, and leaves
/// its own moment as that row's last change.
pub proof fn law_applied_is_new(
    s: CacheState,
    entries: Seq<(Address, TokenDetails)>,
    event: UserEvent,
    at: Timing,
)
    requires
        s.users.contains_key(user_of(event).spec_key()),
        user_event(s, entries, event, at).1 matches Ok(StepState::Applied(_)),
    ensures
        ({
            let t = user_event(s, entries, event, at).0;
            let (side, row) = deciding_row(s, entries, event)->0;
            &&& deciding_row(s, entries, event) is Some
            &&& row < rows_of(s, side).len()
            &&& decision(rows_of(s, side)[row as int], at) == Decision::New
            &&& rows_of(t, side).len() == rows_of(s, side).len()
            &&& rows_of(t, side)[row as int].last_modified == at.now
            &&& rows_of(t, side)[row as int].last_sync == rows_of(s, side)[row as int].last_sync
        }),
{
}

/// No event is applied twice: once an event was applied, the row that decided
/// over it calls for no event to be applied that was received by the moment
/// noted as that of the change.
pub proof fn law_not_applied_again(
    s: CacheState,
    entries: Seq<(Address, TokenDetails)>,
    event: UserEvent,
    at: Timing,
    again: Timing,
)
    requires
        s.users.contains_key(user_of(event).spec_key()),
        user_event(s, entries, event, at).1 matches Ok(StepState::Applied(_)),
        again.rq_date <= at.now,
    ensures
        ({
            let t = user_event(s, entries, event, at).0;
            let (side, row) = deciding_row(s, entries, event)->0;
            decision(rows_of(t, side)[row as int], again) != Decision::New
        }),
{
    law_applied_is_new(s, entries, event, at);
}

/// An event that is not applied changes nothing: one that is skipped, that
/// asks for a reading, or whose token is not known.
pub proof fn law_unapplied_changes_nothing(
    s: CacheState,
    entries: Seq<(Address, TokenDetails)>,
    event: UserEvent,
    at: Timing,
)
    requires
        s.users.contains_key(user_of(event).spec_key()),
        match user_event(s, entries, event, at).1 {
            Ok(StepState::Skipped) => true,
            Ok(StepState::Resync) => true,
            Err(Error::TokenNotFound(_)) => true,
            _ => false,
        },
    ensures
        user_event(s, entries, event, at).0 == s,
{
}

/// Whether two states differ at most in one user's flags and in one row of
/// balances.
pub open spec fn confined(s: CacheState, t: CacheState, key: (u32, u128)) -> bool {
    let row = s.users[key].0 as int;
    &&& t.users.dom() == s.users.dom()
    &&& forall|other: (u32, u128)| other != key ==> #[trigger] t.users[other] == s.users[other]
    &&& t.users[key].0 == row
    &&& t.users[key].1.len() == s.users[key].1.len()
    &&& rows_confined(s.reserve, t.reserve, row)
    &&& rows_confined(s.collateral, t.collateral, row)
    &&& rows_confined(s.borrowed, t.borrowed, row)
    &&& t == CacheState {
        users: t.users,
        reserve: t.reserve,
        collateral: t.collateral,
        borrowed: t.borrowed,
        ..s
    }
}

/// Whether two lists of rows differ at most in the balances and the last change
/// of one row.
pub open spec fn rows_confined(a: Seq<RowState>, b: Seq<RowState>, row: int) -> bool {
    &&& b.len() == a.len()
    &&& forall|i: int| 0 <= i < a.len() && i != row ==> #[trigger] b[i] == a[i]
    &&& 0 <= row < a.len() ==> b[row].balances.len() == a[row].balances.len() && b[row].last_sync
        == a[row].last_sync
}

/// An event on a known user leaves alone what is not that user's: the other
/// users, the other rows, the matrices, the indexes and everything else.
pub proof fn law_event_stays_in_its_row(
    s: CacheState,
    entries: Seq<(Address, TokenDetails)>,
    event: UserEvent,
    at: Timing,
)
    requires
        s.users.contains_key(user_of(event).spec_key()),
        user_event_ok(s, entries, event, at),
    ensures
        confined(s, user_event(s, entries, event, at).0, user_of(event).spec_key()),
{
    match event {
        UserEvent::Supply(ev) => lemma_amount_confined(
            s,
            entries,
            ev.on_behalf_of,
            ev.reserve,
            ev.amount@,
            false,
            true,
            at,
        ),
        UserEvent::Withdraw(ev) => lemma_amount_confined(
            s,
            entries,
            ev.user,
            ev.reserve,
            ev.amount@,
            false,
            false,
            at,
        ),
        UserEvent::Borrow(ev) => lemma_amount_confined(
            s,
            entries,
            ev.on_behalf_of,
            ev.reserve,
            ev.amount@,
            true,
            true,
            at,
        ),
        UserEvent::Repay(ev) => lemma_amount_confined(
            s,
            entries,
            ev.user,
            ev.reserve,
            ev.amount@,
            true,
            false,
            at,
        ),
        UserEvent::ReserveUsedAsCollateralEnabled(ev) => lemma_collateral_confined(
            s,
            entries,
            ev.user,
            ev.reserve,
            true,
            at,
        ),
        UserEvent::ReserveUsedAsCollateralDisabled(ev) => lemma_collateral_confined(
            s,
            entries,
            ev.user,
            ev.reserve,
            false,
            at,
        ),
        UserEvent::LiquidationCall(ev) => lemma_liquidation_confined(s, entries, ev, at),
    }
}

proof fn lemma_amount_confined(
    s: CacheState,
    entries: Seq<(Address, TokenDetails)>,
    user: Address,
    token: Address,
    amount: nat,
    debt: bool,
    add: bool,
    at: Timing,
)
    requires
        s.users.contains_key(user.spec_key()),
        amount_event_ok(s, entries, user, token, amount, debt, at),
    ensures
        confined(
            s,
            amount_event(s, entries, user, token, amount, debt, add, at).0,
            user.spec_key(),
        ),
{
}

proof fn lemma_collateral_confined(
    s: CacheState,
    entries: Seq<(Address, TokenDetails)>,
    user: Address,
    token: Address,
    enable: bool,
    at: Timing,
)
    requires
        s.users.contains_key(user.spec_key()),
        collateral_event_ok(s, entries, user, token, at),
    ensures
        confined(
            s,
            collateral_event(s, entries, user, token, enable, at).0,
            user.spec_key(),
        ),
{
    let t = collateral_event(s, entries, user, token, enable, at).0;
    assert(t.users.dom() =~= s.users.dom());
}

proof fn lemma_liquidation_confined(
    s: CacheState,
    entries: Seq<(Address, TokenDetails)>,
    event: LiquidationCall,
    at: Timing,
)
    requires
        s.users.contains_key(event.user.spec_key()),
        crate::events::liquidation_event_ok(s, entries, event, at),
    ensures
        confined(s, liquidation_event(s, entries, event, at).0, event.user.spec_key()),
{
}

/// What is deposited and withdrawn again, or borrowed and repaid, is gone: if
/// two events move the same amount of the same token of the same user, one up
/// and one down, and both are applied, all balances are as before.
pub proof fn law_amounts_cancel(
    s: CacheState,
    entries: Seq<(Address, TokenDetails)>,
    user: Address,
    token: Address,
    amount: nat,
    debt: bool,
    add: bool,
    at: Timing,
    later: Timing,
)
    requires
        s.users.contains_key(user.spec_key()),
        amount_event_ok(s, entries, user, token, amount, debt, at),
        balances_valid(s),
        amount_event(s, entries, user, token, amount, debt, add, at).1 matches Ok(
            StepState::Applied(_),
        ),
        amount_event(
            amount_event(s, entries, user, token, amount, debt, add, at).0,
            entries,
            user,
            token,
            amount,
            debt,
            !add,
            later,
        ).1 matches Ok(StepState::Applied(_)),
    ensures
        ({
            let t = amount_event(s, entries, user, token, amount, debt, add, at).0;
            let u = amount_event(t, entries, user, token, amount, debt, !add, later).0;
            forall|side: Side, i: int|
                #![trigger rows_of(u, side)[i]]
                0 <= i < rows_of(s, side).len() ==> rows_of(u, side)[i].balances == rows_of(
                    s,
                    side,
                )[i].balances
        }),
{
    let idx = order_of(entries, token)->0;
    let (row, flags) = s.users[user.spec_key()];
    let side = side_of(flags, idx as int, debt);
    let old_row = rows_of(s, side)[row as int];
    let scaled = crate::ray::scaled_units(
        amount,
        s.decimals.0[idx as int],
        crate::events::index_at(s, side, idx as int),
    );
    let t = amount_event(s, entries, user, token, amount, debt, add, at).0;
    let u = amount_event(t, entries, user, token, amount, debt, !add, later).0;
    assert(old_row.balances[idx as int] < u256_modulus());
    law_moves_cancel(old_row.balances[idx as int], scaled, add);
    assert(rows_of(u, side)[row as int].balances =~= old_row.balances);
}

/// Whether every balance is a number of 256 bits.
pub open spec fn balances_valid(s: CacheState) -> bool {
    forall|side: Side, row: int, column: int|
        #![trigger rows_of(s, side)[row].balances[column]]
        0 <= row < rows_of(s, side).len() && 0 <= column < rows_of(s, side)[row].balances.len()
            ==> rows_of(s, side)[row].balances[column] < u256_modulus()
}

/// A deposit that begins and ceases to count as collateral is where it was: if
/// both events are applied to a token whose collateral balance was zero and
/// whose flag was not set, the balances and the flags are as before.
pub proof fn law_collateral_round_trip(
    s: CacheState,
    entries: Seq<(Address, TokenDetails)>,
    user: Address,
    token: Address,
    at: Timing,
    later: Timing,
)
    requires
        s.users.contains_key(user.spec_key()),
        collateral_event_ok(s, entries, user, token, at),
        collateral_event(s, entries, user, token, true, at).1 matches Ok(StepState::Applied(_)),
        collateral_event(
            collateral_event(s, entries, user, token, true, at).0,
            entries,
            user,
            token,
            false,
            later,
        ).1 matches Ok(StepState::Applied(_)),
        s.collateral[s.users[user.spec_key()].0 as int].balances[order_of(
            entries,
            token,
        )->0 as int] == 0,
        !s.users[user.spec_key()].1[order_of(entries, token)->0 as int],
    ensures
        ({
            let t = collateral_event(s, entries, user, token, true, at).0;
            let u = collateral_event(t, entries, user, token, false, later).0;
            &&& u.users == s.users
            &&& forall|side: Side, i: int|
                #![trigger rows_of(u, side)[i]]
                0 <= i < rows_of(s, side).len() ==> rows_of(u, side)[i].balances == rows_of(
                    s,
                    side,
                )[i].balances
        }),
{
    let key = user.spec_key();
    let idx = order_of(entries, token)->0 as int;
    let row = s.users[key].0 as int;
    let t = collateral_event(s, entries, user, token, true, at).0;
    let u = collateral_event(t, entries, user, token, false, later).0;
    assert(u.users[key].1 =~= s.users[key].1);
    assert(u.users =~= s.users);
    assert(u.reserve[row].balances =~= s.reserve[row].balances);
    assert(u.collateral[row].balances =~= s.collateral[row].balances);
}

/// While a deposit counts as collateral it is nowhere else: the event that
/// makes it count moves the whole balance to the collateral side and sets the
/// flag, so that the next deposit of the token is added there.
pub proof fn law_collateral_moves_whole(
    s: CacheState,
    entries: Seq<(Address, TokenDetails)>,
    user: Address,
    token: Address,
    at: Timing,
)
    requires
        s.users.contains_key(user.spec_key()),
        collateral_event_ok(s, entries, user, token, at),
        collateral_event(s, entries, user, token, true, at).1 matches Ok(StepState::Applied(_)),
    ensures
        ({
            let idx = order_of(entries, token)->0 as int;
            let row = s.users[user.spec_key()].0 as int;
            let t = collateral_event(s, entries, user, token, true, at).0;
            &&& t.collateral[row].balances[idx] == s.reserve[row].balances[idx]
            &&& t.reserve[row].balances[idx] == 0
            &&& side_of(t.users[user.spec_key()].1, idx, false) == Side::Collateral
        }),
{
}

// ---- the state as a whole ----
/// Whether rows have one balance per token.
pub open spec fn rows_sound(rows: Seq<RowState>, users_num: usize, n: nat) -> bool {
    &&& rows.len() == users_num
    &&& forall|i: int| 0 <= i < rows.len() ==> (#[trigger] rows[i]).balances.len() == n
}

/// Whether the state of a cache over `n` tokens hangs together:
/// - no two users have one row, and every user has one of the rows that were
///   given out;
/// - all three sides have a row for each row number that was given out;
/// - every row, every user's flags and every array has one element per token;
/// - the repeated indexes are the indexes.
pub open spec fn sound(s: CacheState, n: nat) -> bool {
    &&& forall|key: (u32, u128)| #[trigger]
        s.users.contains_key(key) ==> s.users[key].0 < s.users_num && s.users[key].1.len() == n
    &&& forall|a: (u32, u128), b: (u32, u128)|
        #![trigger s.users.contains_key(a), s.users.contains_key(b)]
        s.users.contains_key(a) && s.users.contains_key(b) && a != b ==> s.users[a].0
            != s.users[b].0
    &&& rows_sound(s.reserve, s.users_num, n)
    &&& rows_sound(s.collateral, s.users_num, n)
    &&& rows_sound(s.borrowed, s.users_num, n)
    &&& s.collateral_matrix.width == n
    &&& s.borrowed_matrix.width == n
    &&& s.decimals.0.len() == n
    &&& s.tokens.0.len() == n
    &&& s.price_decimals.0.len() == n
    &&& s.liquidity.0.len() == n
    &&& s.liquidity_index.0 == bare_indexes(s.liquidity.0)
    &&& s.variable_borrow.0.len() == n
    &&& s.variable_borrow_index.0 == bare_indexes(s.variable_borrow.0)
    &&& s.liquidation_threshold.0.len() == n
}

/// A new cache hangs together once it has taken over the tokens.
pub proof fn law_start_sound(entries: Seq<(Address, TokenDetails)>, now: TimeStamp)
    ensures
        sound(initialised(blank_state(), entries, now), entries.len()),
{
    let s = initialised(blank_state(), entries, now);
    assert(s.liquidity_index.0 =~= bare_indexes(s.liquidity.0));
    assert(s.variable_borrow_index.0 =~= bare_indexes(s.variable_borrow.0));
}

/// Filing a new user keeps the state together: the user gets a row that no
/// other user has.
pub proof fn law_registration_keeps_sound(s: CacheState, key: (u32, u128), n: nat)
    requires
        sound(s, n),
        !s.users.contains_key(key),
        s.users_num < usize::MAX,
    ensures
        sound(registered(s, key, n), n),
{
}

/// Forgetting a user keeps the state together.
pub proof fn law_removal_keeps_sound(s: CacheState, key: (u32, u128), n: nat)
    requires
        sound(s, n),
    ensures
        sound(forgotten(s, key), n),
{
}

/// Handling an event keeps the state together.
pub proof fn law_event_keeps_sound(
    s: CacheState,
    entries: Seq<(Address, TokenDetails)>,
    event: UserEvent,
    at: Timing,
)
    requires
        sound(s, entries.len()),
        user_event_ok(s, entries, event, at),
    ensures
        sound(user_event(s, entries, event, at).0, entries.len()),
{
    let key = user_of(event).spec_key();
    if s.users.contains_key(key) {
        law_event_stays_in_its_row(s, entries, event, at);
        lemma_confined_keeps_sound(s, user_event(s, entries, event, at).0, key, entries.len());
    } else {
        law_registration_keeps_sound(s, key, entries.len());
    }
}

proof fn lemma_confined_keeps_sound(s: CacheState, t: CacheState, key: (u32, u128), n: nat)
    requires
        sound(s, n),
        s.users.contains_key(key),
        confined(s, t, key),
    ensures
        sound(t, n),
{
    assert forall|a: (u32, u128)| #[trigger] t.users.contains_key(a) implies t.users[a].0
        < t.users_num && t.users[a].1.len() == n by {
        assert(s.users.contains_key(a));
        if a != key {
            assert(t.users[a] == s.users[a]);
        }
    }
    assert forall|a: (u32, u128), b: (u32, u128)|
        #![trigger t.users.contains_key(a), t.users.contains_key(b)]
        t.users.contains_key(a) && t.users.contains_key(b) && a != b implies t.users[a].0
        != t.users[b].0 by {
        assert(s.users.contains_key(a));
        assert(s.users.contains_key(b));
        if a != key {
            assert(t.users[a] == s.users[a]);
        }
        if b != key {
            assert(t.users[b] == s.users[b]);
        }
    }
    lemma_rows_keep_sound(s.reserve, t.reserve, s.users[key].0 as int, s.users_num, n);
    lemma_rows_keep_sound(s.collateral, t.collateral, s.users[key].0 as int, s.users_num, n);
    lemma_rows_keep_sound(s.borrowed, t.borrowed, s.users[key].0 as int, s.users_num, n);
}

proof fn lemma_rows_keep_sound(
    a: Seq<RowState>,
    b: Seq<RowState>,
    row: int,
    users_num: usize,
    n: nat,
)
    requires
        rows_sound(a, users_num, n),
        rows_confined(a, b, row),
    ensures
        rows_sound(b, users_num, n),
{
    assert forall|i: int| 0 <= i < b.len() implies (#[trigger] b[i]).balances.len() == n by {
        assert(a[i].balances.len() == n);
    }
}

/// Reading a user from the pool keeps the state together, whether it succeeds
/// or fails.
pub proof fn law_resync_keeps_sound(
    s: CacheState,
    entries: Seq<(Address, TokenDetails)>,
    user: Address,
    fetched: Seq<Fetched>,
    now: TimeStamp,
)
    requires
        sound(s, entries.len()),
    ensures
        sound(resynced(s, entries, user, fetched, now).0, entries.len()),
{
    let t = resynced(s, entries, user, fetched, now).0;
    if user_data(s, entries, user, fetched) is Ok {
        let data = user_data(s, entries, user, fetched)->Ok_0;
        let key = user.spec_key();
        assert(data.user_settings.0 == s.users[key].0);
        assert(data.user_settings.1.len() == s.users[key].1.len());
        assert forall|a: (u32, u128), b: (u32, u128)|
            #![trigger t.users.contains_key(a), t.users.contains_key(b)]
            t.users.contains_key(a) && t.users.contains_key(b) && a != b implies t.users[a].0
            != t.users[b].0 by {
            assert(s.users.contains_key(a));
            assert(s.users.contains_key(b));
        }
        assert(s.users[key].0 < s.users_num);
        assert(t.liquidity_index.0 =~= bare_indexes(t.liquidity.0));
        assert(t.variable_borrow_index.0 =~= bare_indexes(t.variable_borrow.0));
    }
}

/// Reading a known user never fails for want of a row: in a state that hangs
/// together the only errors are an unknown user and an unknown token.
pub proof fn law_resync_finds_rows(
    s: CacheState,
    entries: Seq<(Address, TokenDetails)>,
    user: Address,
    fetched: Seq<Fetched>,
    now: TimeStamp,
)
    requires
        sound(s, entries.len()),
    ensures
        resynced(s, entries, user, fetched, now).1 is None <==> user_data(
            s,
            entries,
            user,
            fetched,
        ) is Ok,
{
    assert(s.users.contains_key(user.spec_key()) ==> s.users[user.spec_key()].0 < s.users_num);
}

/// Handling an event on a known user never fails for want of a row: in a state
/// that hangs together the only error is an unknown token.
pub proof fn law_event_finds_rows(
    s: CacheState,
    entries: Seq<(Address, TokenDetails)>,
    event: UserEvent,
    at: Timing,
)
    requires
        sound(s, entries.len()),
        s.users.contains_key(user_of(event).spec_key()),
    ensures
        user_event(s, entries, event, at).1 matches Err(e) ==> e is TokenNotFound,
{
    assert(s.users[user_of(event).spec_key()].0 < s.users_num);
}

/// Creating a user keeps the state together, whether it succeeds or fails.
pub proof fn law_creation_keeps_sound(
    s: CacheState,
    entries: Seq<(Address, TokenDetails)>,
    user: Address,
    reply: Option<Seq<Fetched>>,
    at: Timing,
)
    requires
        sound(s, entries.len()),
    ensures
        sound(creation(s, entries, user, reply, at).0, entries.len()),
        sound(resync(s, entries, user, reply, at).0, entries.len()),
{
    if reply is Some {
        law_resync_keeps_sound(s, entries, user, reply->0, at.now);
    }
    law_removal_keeps_sound(
        resync(s, entries, user, reply, at).0,
        user.spec_key(),
        entries.len(),
    );
}

/// A user that could not be created is not known: after a failed creation the
/// users are those from before the event that filed the user.
pub proof fn law_failed_creation_forgets(
    s: CacheState,
    entries: Seq<(Address, TokenDetails)>,
    user: Address,
    reply: Option<Seq<Fetched>>,
    at: Timing,
)
    requires
        !s.users.contains_key(user.spec_key()),
        creation(registered(s, user.spec_key(), entries.len()), entries, user, reply, at).1 is Err,
    ensures
        creation(
            registered(s, user.spec_key(), entries.len()),
            entries,
            user,
            reply,
            at,
        ).0.users == s.users,
{
    let t = creation(registered(s, user.spec_key(), entries.len()), entries, user, reply, at).0;
    assert(t.users =~= s.users);
}

/// A user that was created has the next row, and that row is to be added to
/// both matrices.
pub proof fn law_creation_requests_new_row(
    s: CacheState,
    entries: Seq<(Address, TokenDetails)>,
    user: Address,
    fetched: Seq<Fetched>,
    at: Timing,
)
    requires
        sound(s, entries.len()),
        !s.users.contains_key(user.spec_key()),
        s.users_num < usize::MAX,
        crate::userdata::first_unknown(entries, fetched, 0) is None,
    ensures
        ({
            let (t, r) = creation(
                registered(s, user.spec_key(), entries.len()),
                entries,
                user,
                Some(fetched),
                at,
            );
            &&& t.users.contains_key(user.spec_key())
            &&& t.users[user.spec_key()].0 == s.users_num
            &&& r == Ok::<SyncRequest, Error>(
                SyncRequest::Both(SyncTarget::Row(s.users_num), at.rq_date),
            )
        }),
{
    let f = registered(s, user.spec_key(), entries.len());
    law_registration_keeps_sound(s, user.spec_key(), entries.len());
    law_resync_finds_rows(f, entries, user, fetched, at.now);
}

/// Updating a reserve keeps the state together.
pub proof fn law_reserve_update_keeps_sound(
    s: CacheState,
    entries: Seq<(Address, TokenDetails)>,
    event: ReserveDataUpdated,
    rq_date: TimeStamp,
    now: TimeStamp,
)
    requires
        sound(s, entries.len()),
    ensures
        sound(reserve_update(s, entries, event, rq_date, now).0, entries.len()),
{
    let t = reserve_update(s, entries, event, rq_date, now).0;
    assert(t.liquidity_index.0 =~= bare_indexes(t.liquidity.0));
    assert(t.variable_borrow_index.0 =~= bare_indexes(t.variable_borrow.0));
}

/// Serving a request keeps the state together.
pub proof fn law_serving_keeps_sound(s: CacheState, request: SyncRequest, n: nat)
    requires
        sound(s, n),
    ensures
        sound(served(s, request).0, n),
{
    crate::sync::lemma_grown(s.collateral, s.collateral_matrix);
    crate::sync::lemma_grown(s.borrowed, s.borrowed_matrix);
}

// ---- the matrices ----
/// Whether a matrix repeats rows.
pub open spec fn mirrored(rows: Seq<RowState>, m: MatrixState) -> bool {
    &&& m.rows.len() == rows.len()
    &&& forall|i: int| 0 <= i < rows.len() ==> #[trigger] m.rows[i] == rows[i].balances
}

/// Whether both matrices repeat their rows.
pub open spec fn mirrors(s: CacheState) -> bool {
    mirrored(s.collateral, s.collateral_matrix) && mirrored(s.borrowed, s.borrowed_matrix)
}

/// The state after requests were served in order.
pub open spec fn served_all(s: CacheState, requests: Seq<SyncRequest>) -> CacheState
    decreases requests.len(),
{
    if requests.len() == 0 {
        s
    } else {
        served(served_all(s, requests.drop_last()), requests.last()).0
    }
}

/// A matrix that lacks no rows grows no further.
proof fn lemma_grown_full(rows: Seq<RowState>, m: MatrixState)
    requires
        m.rows.len() >= rows.len(),
    ensures
        grown(rows, m) == (m, true),
{
}

/// A matrix that repeats the rows before a balance was written repeats them
/// again once the cell is brought up to date.
proof fn lemma_cell_sync(
    before: Seq<RowState>,
    after: Seq<RowState>,
    m: MatrixState,
    row: usize,
    column: usize,
    side: Side,
)
    requires
        mirrored(before, m),
        row < before.len(),
        column < before[row as int].balances.len(),
        after.len() == before.len(),
        forall|i: int| 0 <= i < before.len() && i != row ==> #[trigger] after[i] == before[i],
        after[row as int].balances == before[row as int].balances.update(
            column as int,
            after[row as int].balances[column as int],
        ),
    ensures
        synced(after, m, SyncTarget::Cell(row, column), side).1 is None,
        mirrored(after, synced(after, m, SyncTarget::Cell(row, column), side).0),
        synced(after, m, SyncTarget::Cell(row, column), side).0.width == m.width,
{
    lemma_grown_full(after, m);
    let t = synced(after, m, SyncTarget::Cell(row, column), side).0;
    assert(before[row as int].balances.update(
        column as int,
        after[row as int].balances[column as int],
    ).len() == before[row as int].balances.len());
    assert forall|i: int| 0 <= i < after.len() implies #[trigger] t.rows[i]
        == after[i].balances by {
        assert(m.rows[i] == before[i].balances);
        if i != row {
            assert(after[i] == before[i]);
        }
    }
}

/// A matrix that repeats the rows before one of them was replaced repeats them
/// again once the row is brought up to date.
proof fn lemma_row_sync(
    before: Seq<RowState>,
    after: Seq<RowState>,
    m: MatrixState,
    row: usize,
    side: Side,
)
    requires
        mirrored(before, m),
        row < before.len(),
        after.len() == before.len(),
        forall|i: int| 0 <= i < before.len() && i != row ==> #[trigger] after[i] == before[i],
        after[row as int].balances.len() == m.width,
    ensures
        synced(after, m, SyncTarget::Row(row), side).1 is None,
        mirrored(after, synced(after, m, SyncTarget::Row(row), side).0),
        synced(after, m, SyncTarget::Row(row), side).0.width == m.width,
{
    lemma_grown_full(after, m);
    let t = synced(after, m, SyncTarget::Row(row), side).0;
    assert forall|i: int| 0 <= i < after.len() implies #[trigger] t.rows[i]
        == after[i].balances by {
        assert(m.rows[i] == before[i].balances);
        if i != row {
            assert(after[i] == before[i]);
        }
    }
}

/// A matrix that repeats all rows but a new last one repeats them all once that
/// row is brought up to date.
proof fn lemma_new_row_sync(before: Seq<RowState>, after: Seq<RowState>, m: MatrixState, side: Side)
    requires
        mirrored(before, m),
        after.len() == before.len() + 1,
        after.len() <= usize::MAX,
        forall|i: int| 0 <= i < before.len() ==> #[trigger] after[i] == before[i],
        after[before.len() as int].balances.len() == m.width,
        shape_encodable(before.len() + 1, m.width),
    ensures
        synced(after, m, SyncTarget::Row(before.len() as usize), side).1 is None,
        mirrored(after, synced(after, m, SyncTarget::Row(before.len() as usize), side).0),
        synced(after, m, SyncTarget::Row(before.len() as usize), side).0.width == m.width,
{
    let last = before.len() as int;
    let larger = MatrixState { rows: m.rows.push(after[last].balances), ..m };
    lemma_grown_full(after, larger);
    assert(grown(after, m) == (larger, true));
    let t = synced(after, m, SyncTarget::Row(before.len() as usize), side).0;
    assert forall|i: int| 0 <= i < after.len() implies #[trigger] t.rows[i]
        == after[i].balances by {
        if i < last {
            assert(m.rows[i] == before[i].balances);
            assert(after[i] == before[i]);
        }
    }
}

/// The matrices follow the events: if they repeat the rows before an event that
/// is applied, they repeat them again once the requests that follow from it are
/// served.
pub proof fn law_matrices_follow_events(
    s: CacheState,
    entries: Seq<(Address, TokenDetails)>,
    event: UserEvent,
    at: Timing,
)
    requires
        sound(s, entries.len()),
        mirrors(s),
        s.users.contains_key(user_of(event).spec_key()),
        user_event_ok(s, entries, event, at),
        user_event(s, entries, event, at).1 matches Ok(StepState::Applied(_)),
    ensures
        ({
            let (t, r) = user_event(s, entries, event, at);
            mirrors(served_all(t, r->Ok_0->Applied_0))
        }),
{
    match event {
        UserEvent::Supply(ev) => lemma_matrices_follow_amount(
            s,
            entries,
            ev.on_behalf_of,
            ev.reserve,
            ev.amount@,
            false,
            true,
            at,
        ),
        UserEvent::Withdraw(ev) => lemma_matrices_follow_amount(
            s,
            entries,
            ev.user,
            ev.reserve,
            ev.amount@,
            false,
            false,
            at,
        ),
        UserEvent::Borrow(ev) => lemma_matrices_follow_amount(
            s,
            entries,
            ev.on_behalf_of,
            ev.reserve,
            ev.amount@,
            true,
            true,
            at,
        ),
        UserEvent::Repay(ev) => lemma_matrices_follow_amount(
            s,
            entries,
            ev.user,
            ev.reserve,
            ev.amount@,
            true,
            false,
            at,
        ),
        UserEvent::ReserveUsedAsCollateralEnabled(ev) => lemma_matrices_follow_collateral(
            s,
            entries,
            ev.user,
            ev.reserve,
            true,
            at,
        ),
        UserEvent::ReserveUsedAsCollateralDisabled(ev) => lemma_matrices_follow_collateral(
            s,
            entries,
            ev.user,
            ev.reserve,
            false,
            at,
        ),
        UserEvent::LiquidationCall(ev) => lemma_matrices_follow_liquidation(s, entries, ev, at),
    }
}

proof fn lemma_served_one(s: CacheState, request: SyncRequest)
    ensures
        served_all(s, seq![request]) == served(s, request).0,
{
    reveal_with_fuel(served_all, 2);
    assert(seq![request].drop_last() =~= Seq::<SyncRequest>::empty());
}

proof fn lemma_matrices_follow_amount(
    s: CacheState,
    entries: Seq<(Address, TokenDetails)>,
    user: Address,
    token: Address,
    amount: nat,
    debt: bool,
    add: bool,
    at: Timing,
)
    requires
        sound(s, entries.len()),
        mirrors(s),
        s.users.contains_key(user.spec_key()),
        amount_event_ok(s, entries, user, token, amount, debt, at),
        amount_event(s, entries, user, token, amount, debt, add, at).1 matches Ok(
            StepState::Applied(_),
        ),
    ensures
        ({
            let (t, r) = amount_event(s, entries, user, token, amount, debt, add, at);
            mirrors(served_all(t, r->Ok_0->Applied_0))
        }),
{
    let (t, r) = amount_event(s, entries, user, token, amount, debt, add, at);
    let idx = order_of(entries, token)->0;
    let (row, flags) = s.users[user.spec_key()];
    let side = side_of(flags, idx as int, debt);
    match side {
        Side::Collateral => {
            lemma_served_one(t, SyncRequest::Collateral(SyncTarget::Cell(row, idx), at.rq_date));
            lemma_cell_sync(
                s.collateral,
                t.collateral,
                s.collateral_matrix,
                row,
                idx,
                Side::Collateral,
            );
        },
        Side::Borrowed => {
            lemma_served_one(t, SyncRequest::Borrowed(SyncTarget::Cell(row, idx), at.rq_date));
            lemma_cell_sync(
                s.borrowed,
                t.borrowed,
                s.borrowed_matrix,
                row,
                idx,
                Side::Borrowed,
            );
        },
        Side::Reserve => {},
    }
}

proof fn lemma_matrices_follow_collateral(
    s: CacheState,
    entries: Seq<(Address, TokenDetails)>,
    user: Address,
    token: Address,
    enable: bool,
    at: Timing,
)
    requires
        sound(s, entries.len()),
        mirrors(s),
        s.users.contains_key(user.spec_key()),
        collateral_event_ok(s, entries, user, token, at),
        collateral_event(s, entries, user, token, enable, at).1 matches Ok(StepState::Applied(_)),
    ensures
        ({
            let (t, r) = collateral_event(s, entries, user, token, enable, at);
            mirrors(served_all(t, r->Ok_0->Applied_0))
        }),
{
    let (t, r) = collateral_event(s, entries, user, token, enable, at);
    let idx = order_of(entries, token)->0;
    let row = s.users[user.spec_key()].0;
    lemma_served_one(t, SyncRequest::Collateral(SyncTarget::Cell(row, idx), at.rq_date));
    lemma_cell_sync(s.collateral, t.collateral, s.collateral_matrix, row, idx, Side::Collateral);
}

proof fn lemma_matrices_follow_liquidation(
    s: CacheState,
    entries: Seq<(Address, TokenDetails)>,
    event: LiquidationCall,
    at: Timing,
)
    requires
        sound(s, entries.len()),
        mirrors(s),
        s.users.contains_key(event.user.spec_key()),
        crate::events::liquidation_event_ok(s, entries, event, at),
        liquidation_event(s, entries, event, at).1 matches Ok(StepState::Applied(_)),
    ensures
        ({
            let (t, r) = liquidation_event(s, entries, event, at);
            mirrors(served_all(t, r->Ok_0->Applied_0))
        }),
{
    let (t, r) = liquidation_event(s, entries, event, at);
    let bor_idx = order_of(entries, event.debt_asset)->0;
    let col_idx = order_of(entries, event.collateral_asset)->0;
    let row = s.users[event.user.spec_key()].0;
    let first = SyncRequest::Collateral(SyncTarget::Cell(row, col_idx), at.rq_date);
    let second = SyncRequest::Borrowed(SyncTarget::Cell(row, bor_idx), at.rq_date);
    let requests = r->Ok_0->Applied_0;
    assert(requests =~= seq![first, second]);
    assert(requests.drop_last() =~= seq![first]);
    lemma_served_one(t, first);
    lemma_cell_sync(
        s.collateral,
        t.collateral,
        s.collateral_matrix,
        row,
        col_idx,
        Side::Collateral,
    );
    lemma_cell_sync(s.borrowed, t.borrowed, s.borrowed_matrix, row, bor_idx, Side::Borrowed);
}

/// The matrices follow the readings: if they repeat the rows before a known
/// user is read from the pool, they repeat them again once the request that
/// follows is served.
pub proof fn law_matrices_follow_resync(
    s: CacheState,
    entries: Seq<(Address, TokenDetails)>,
    user: Address,
    reply: Option<Seq<Fetched>>,
    at: Timing,
)
    requires
        sound(s, entries.len()),
        mirrors(s),
        resync(s, entries, user, reply, at).1 is Ok,
    ensures
        ({
            let (t, r) = resync(s, entries, user, reply, at);
            mirrors(served(t, r->Ok_0).0) && served(t, r->Ok_0).1 is None
        }),
{
    let (t, r) = resync(s, entries, user, reply, at);
    let row = s.users[user.spec_key()].0;
    assert(row < s.users_num);
    lemma_row_sync(s.collateral, t.collateral, s.collateral_matrix, row, Side::Collateral);
    lemma_row_sync(s.borrowed, t.borrowed, s.borrowed_matrix, row, Side::Borrowed);
}

/// The matrices follow the creations: if they repeat the rows before a user is
/// filed, they repeat them again once the user was read from the pool and the
/// request that follows was served, as long as the larger matrices can be
/// indexed.
pub proof fn law_matrices_follow_creation(
    s: CacheState,
    entries: Seq<(Address, TokenDetails)>,
    user: Address,
    fetched: Seq<Fetched>,
    at: Timing,
)
    requires
        sound(s, entries.len()),
        mirrors(s),
        !s.users.contains_key(user.spec_key()),
        s.users_num < usize::MAX,
        shape_encodable(s.users_num as nat + 1, entries.len()),
        crate::userdata::first_unknown(entries, fetched, 0) is None,
    ensures
        ({
            let (t, r) = creation(
                registered(s, user.spec_key(), entries.len()),
                entries,
                user,
                Some(fetched),
                at,
            );
            mirrors(served(t, r->Ok_0).0) && served(t, r->Ok_0).1 is None
        }),
{
    let f = registered(s, user.spec_key(), entries.len());
    let (t, r) = creation(f, entries, user, Some(fetched), at);
    law_creation_requests_new_row(s, entries, user, fetched, at);
    law_registration_keeps_sound(s, user.spec_key(), entries.len());
    law_resync_finds_rows(f, entries, user, fetched, at.now);
    lemma_new_row_sync(s.collateral, t.collateral, s.collateral_matrix, Side::Collateral);
    lemma_new_row_sync(s.borrowed, t.borrowed, s.borrowed_matrix, Side::Borrowed);
}

/// Serving a request that is already met changes nothing: a matrix that repeats
/// its rows stays as it is.
pub proof fn law_serving_settles(s: CacheState, request: SyncRequest, n: nat)
    requires
        sound(s, n),
        mirrors(s),
        served(s, request).1 is None,
    ensures
        served(s, request).0 == s,
{
    lemma_grown_full(s.collateral, s.collateral_matrix);
    lemma_grown_full(s.borrowed, s.borrowed_matrix);
    let t = served(s, request).0;
    assert forall|i: int| 0 <= i < s.collateral.len() implies #[trigger] t.collateral_matrix.rows[i]
        == s.collateral_matrix.rows[i] by {
        assert(s.collateral_matrix.rows[i] == s.collateral[i].balances);
        assert(t.collateral_matrix.rows[i] =~= s.collateral_matrix.rows[i]);
    }
    assert forall|i: int| 0 <= i < s.borrowed.len() implies #[trigger] t.borrowed_matrix.rows[i]
        == s.borrowed_matrix.rows[i] by {
        assert(s.borrowed_matrix.rows[i] == s.borrowed[i].balances);
        assert(t.borrowed_matrix.rows[i] =~= s.borrowed_matrix.rows[i]);
    }
    assert(t.collateral_matrix.rows =~= s.collateral_matrix.rows);
    assert(t.borrowed_matrix.rows =~= s.borrowed_matrix.rows);
}

// ---- tokens ----
/// Reported tokens with distinct addresses get the columns from zero on, in the
/// order of the report.
pub proof fn law_columns_in_order(found: Seq<FoundToken>)
    requires
        found.len() <= usize::MAX,
        forall|i: int, j: int|
            0 <= i < j < found.len() ==> #[trigger] found[i].address != #[trigger] found[j].address,
    ensures
        listing(found) == Seq::new(
            found.len(),
            |i: int| (found[i].address, details_of(found[i], i as usize)),
        ),
        columns_in_range(listing(found)),
    decreases found.len(),
{
    if found.len() > 0 {
        let fewer = found.drop_last();
        law_columns_in_order(fewer);
        assert(!lists(listing(fewer), found.last().address)) by {
            if lists(listing(fewer), found.last().address) {
                let i = choose|i: int|
                    0 <= i < listing(fewer).len() && #[trigger] listing(fewer)[i].0
                        == found.last().address;
                assert(found[i].address == found[found.len() - 1].address);
            }
        }
    }
    assert(listing(found) =~= Seq::new(
        found.len(),
        |i: int| (found[i].address, details_of(found[i], i as usize)),
    ));
}

/// Each token that is known has the column that its entry says, and no address
/// has two.
pub proof fn law_columns_by_address(entries: Seq<(Address, TokenDetails)>, i: int)
    requires
        crate::tokens::addresses_distinct(entries),
        0 <= i < entries.len(),
    ensures
        order_of(entries, entries[i].0) == Some(entries[i].1.order),
{
    assert(lists(entries, entries[i].0));
    assert(place_of(entries, entries[i].0) == i);
}

// ---- work ----
/// Work goes round: each kind of event goes to the next worker in turn, and the
/// turn does not skip where the counter starts again.
pub proof fn law_round_robin(before: Dispatcher, after: Dispatcher, kind: EventKind)
    requires
        before.after(after, kind),
    ensures
        after.route_of(kind).worker == (before.route_of(kind).worker + 1) % WORKERS as int,
        after.route_of(kind).hf == (before.route_of(kind).hf + 1) % WORKERS as int,
        kind != EventKind::ReserveDataUpdated ==> after.route_of(kind).sync == Some(
            ((before.sync_counter % WORKERS + 1) % WORKERS as int) as usize,
        ),
        before.route_of(kind).worker < WORKERS,
        before.route_of(kind).hf < WORKERS,
        before.route_of(kind).sync is Some ==> before.route_of(kind).sync->0 < WORKERS,
{
    lemma_next_mod(before.count(kind));
    lemma_next_mod(before.sync_counter);
    lemma_next_mod(before.hf_counter);
}

proof fn lemma_next_mod(n: usize)
    ensures
        next(n) % WORKERS == (n % WORKERS + 1) % WORKERS as int,
{
    assert(usize::MAX == 0xffff_ffff || usize::MAX == 0xffff_ffff_ffff_ffff);
}

/// Four events of one kind in a row go to four different workers.
pub proof fn law_work_is_spread(n: usize)
    ensures
        next_times(n, 1) % WORKERS != n % WORKERS,
        next_times(n, 2) % WORKERS != n % WORKERS,
        next_times(n, 3) % WORKERS != n % WORKERS,
        next_times(n, 4) % WORKERS == n % WORKERS,
{
    reveal_with_fuel(next_times, 5);
    lemma_next_mod(n);
    lemma_next_mod(next_times(n, 1));
    lemma_next_mod(next_times(n, 2));
    lemma_next_mod(next_times(n, 3));
}

// ---- health factors and prices ----
/// The rows to be liquidated are those with a health factor below one, each
/// once and in order.
pub proof fn law_unhealthy_rows(factors: Seq<F64>, k: nat)
    requires
        k <= factors.len() <= usize::MAX,
    ensures
        forall|i: int|
            0 <= i < unhealthy(factors, k).len() ==> (#[trigger] unhealthy(factors, k)[i]) < k
                && factors[unhealthy(factors, k)[i] as int].under_one(),
        forall|row: usize|
            row < k && factors[row as int].under_one() ==> #[trigger] unhealthy(
                factors,
                k,
            ).contains(row),
        forall|i: int, j: int|
            0 <= i < j < unhealthy(factors, k).len() ==> #[trigger] unhealthy(factors, k)[i]
                < #[trigger] unhealthy(factors, k)[j],
    decreases k,
{
    if k > 0 {
        let fewer = unhealthy(factors, (k - 1) as nat);
        law_unhealthy_rows(factors, (k - 1) as nat);
        assert forall|row: usize|
            row < k && factors[row as int].under_one() implies #[trigger] unhealthy(
            factors,
            k,
        ).contains(row) by {
            if row < k - 1 {
                assert(fewer.contains(row));
                let i = choose|i: int| 0 <= i < fewer.len() && fewer[i] == row;
                assert(unhealthy(factors, k)[i] == row);
            } else {
                assert(unhealthy(factors, k)[fewer.len() as int] == row);
            }
        }
    }
}

/// Storing one health factor changes no other, and a row that had none before
/// gets 0.0.
pub proof fn law_hf_stored(factors: Seq<F64>, row: int, hf: F64)
    requires
        row >= 0,
    ensures
        hf_stored(factors, row, hf)[row] == hf,
        forall|i: int|
            0 <= i < factors.len() && i != row ==> #[trigger] hf_stored(factors, row, hf)[i]
                == factors[i],
        forall|i: int|
            factors.len() <= i < row ==> #[trigger] hf_stored(factors, row, hf)[i] == (F64 {
                bits: 0,
            }),
        hf_stored(factors, row, hf).len() == if row < factors.len() {
            factors.len() as int
        } else {
            row + 1
        },
{
}

/// Prices that are reported again call for nothing: an array of numbers does
/// not differ from itself.
pub proof fn law_same_prices(prices: Seq<F64>)
    requires
        forall|i: int| 0 <= i < prices.len() ==> !(#[trigger] prices[i]).nan(),
    ensures
        !arrays_differ(prices, prices),
{
}

/// An index and a balance that agree with the pool have no distance from it,
/// and no others.
pub proof fn law_distance(a: nat, b: nat)
    ensures
        distance(a, b) == distance(b, a),
        distance(a, b) == 0 <==> a == b,
{
}

// ---- reading the pool ----
/// Whether every report is on a known token and no two are on one column.
pub open spec fn one_report_each(
    entries: Seq<(Address, TokenDetails)>,
    fetched: Seq<Fetched>,
) -> bool {
    &&& forall|i: int| 0 <= i < fetched.len() ==> order_of(entries, (#[trigger] fetched[i]).token) is Some
    &&& forall|i: int, j: int|
        0 <= i < j < fetched.len() ==> order_of(entries, (#[trigger] fetched[i]).token) != order_of(
            entries,
            (#[trigger] fetched[j]).token,
        )
}

/// The column that a report is on.
pub open spec fn column_of(entries: Seq<(Address, TokenDetails)>, report: Fetched) -> usize {
    order_of(entries, report.token)->0
}

proof fn lemma_last_report(
    entries: Seq<(Address, TokenDetails)>,
    fetched: Seq<Fetched>,
    k: nat,
    column: int,
    usage: Option<bool>,
)
    requires
        k <= fetched.len(),
        one_report_each(entries, fetched),
    ensures
        match last_report(entries, fetched, k, column, usage) {
            Some(i) => 0 <= i < k && reports(entries, fetched[i], column, usage),
            None => true,
        },
        forall|i: int|
            0 <= i < k && reports(entries, #[trigger] fetched[i], column, usage) ==> last_report(
                entries,
                fetched,
                k,
                column,
                usage,
            ) == Some(i),
    decreases k,
{
    if k > 0 {
        lemma_last_report(entries, fetched, (k - 1) as nat, column, usage);
        assert forall|i: int|
            0 <= i < k && reports(entries, #[trigger] fetched[i], column, usage) implies last_report(
            entries,
            fetched,
            k,
            column,
            usage,
        ) == Some(i) by {
            if i < k - 1 {
                assert(order_of(entries, fetched[i].token) != order_of(
                    entries,
                    fetched[k - 1].token,
                ));
            }
        }
    }
}

/// Reading a user takes over what is reported, token by token: the deposit is
/// on the collateral side or on the reserve side as the report says, and zero
/// on the other; the debt, the flag, the indexes and the rates are those of the
/// report.
pub proof fn law_reading_takes_over_reports(
    entries: Seq<(Address, TokenDetails)>,
    decimals: Seq<F64>,
    fetched: Seq<Fetched>,
    settings: (usize, Seq<bool>),
    i: int,
)
    requires
        one_report_each(entries, fetched),
        0 <= i < fetched.len(),
        column_of(entries, fetched[i]) < entries.len(),
        column_of(entries, fetched[i]) < settings.1.len(),
    ensures
        ({
            let c = column_of(entries, fetched[i]) as int;
            let data = reported(entries, decimals, fetched, fetched.len(), settings);
            let balance = fetched[i].user_reserve;
            let deposit = scaled_units(
                balance.current_atoken_balance@,
                decimals[c],
                fetched[i].reserve.liquidity_index@,
            );
            &&& data.collateral_scaled[c] == if balance.usage_as_collateral_enabled {
                deposit
            } else {
                0
            }
            &&& data.reserve_scaled[c] == if balance.usage_as_collateral_enabled {
                0
            } else {
                deposit
            }
            &&& data.borrowed_scaled[c] == scaled_units(
                balance.current_variable_debt@,
                decimals[c],
                fetched[i].reserve.variable_borrow_index@,
            )
            &&& data.user_settings.1[c] == balance.usage_as_collateral_enabled
            &&& data.liquidity_indexes[c] == fetched[i].reserve.liquidity_index@
            &&& data.liquidity_rates[c] == fetched[i].reserve.liquidity_rate@
            &&& data.variable_borrow_indexes[c] == fetched[i].reserve.variable_borrow_index@
            &&& data.variable_borrow_rates[c] == fetched[i].reserve.variable_borrow_rate@
            &&& data.last_update_timestamps[c] == fetched[i].reserve.last_update_timestamp
        }),
{
    let c = column_of(entries, fetched[i]) as int;
    let usage = fetched[i].user_reserve.usage_as_collateral_enabled;
    lemma_last_report(entries, fetched, fetched.len(), c, None);
    lemma_last_report(entries, fetched, fetched.len(), c, Some(usage));
    lemma_last_report(entries, fetched, fetched.len(), c, Some(!usage));
    assert(reports(entries, fetched[i], c, None));
    assert(reports(entries, fetched[i], c, Some(usage)));
    match last_report(entries, fetched, fetched.len(), c, Some(!usage)) {
        Some(j) => {
            assert(j != i);
            assert(order_of(entries, fetched[i].token) == order_of(entries, fetched[j].token));
        },
        None => {},
    }
}

/// The reports on a user's reserves, by column, as a probe takes them.
pub open spec fn reserve_reports(
    entries: Seq<(Address, TokenDetails)>,
    fetched: Seq<Fetched>,
) -> Seq<(usize, ReserveData)> {
    Seq::new(fetched.len(), |i: int| (column_of(entries, fetched[i]), fetched[i].reserve))
}

/// The reports on a user's balances, by row and column, as a probe takes them.
pub open spec fn cell_reports(
    entries: Seq<(Address, TokenDetails)>,
    fetched: Seq<Fetched>,
    row: usize,
) -> Seq<(usize, usize, UserReserveData)> {
    Seq::new(
        fetched.len(),
        |i: int| (row, column_of(entries, fetched[i]), fetched[i].user_reserve),
    )
}

proof fn lemma_same_reports(
    entries: Seq<(Address, TokenDetails)>,
    fetched: Seq<Fetched>,
    k: nat,
    row: usize,
    column: int,
    usage: Option<bool>,
)
    requires
        k <= fetched.len(),
        one_report_each(entries, fetched),
    ensures
        last_cell(cell_reports(entries, fetched, row), k, row as int, column, usage) == last_report(
            entries,
            fetched,
            k,
            column,
            usage,
        ),
        last_reserve(reserve_reports(entries, fetched), k, column) == last_report(
            entries,
            fetched,
            k,
            column,
            None,
        ),
    decreases k,
{
    if k > 0 {
        lemma_same_reports(entries, fetched, (k - 1) as nat, row, column, usage);
        assert(order_of(entries, fetched[k - 1].token) is Some);
    }
}

/// A probe of a user who was just read shows no difference: from the reports
/// that the user's rows were read from, it computes the same indexes, the same
/// deposits on either side and the same debts.
pub proof fn law_probe_agrees_with_reading(
    entries: Seq<(Address, TokenDetails)>,
    decimals: Seq<F64>,
    fetched: Seq<Fetched>,
    settings: (usize, Seq<bool>),
    row: usize,
    column: int,
)
    requires
        one_report_each(entries, fetched),
        0 <= column < entries.len(),
    ensures
        ({
            let n = entries.len();
            let k = fetched.len();
            let data = reported(entries, decimals, fetched, k, settings);
            let cells = cell_reports(entries, fetched, row);
            let li = pool_indexes(reserve_reports(entries, fetched), k, n, false);
            let vb = pool_indexes(reserve_reports(entries, fetched), k, n, true);
            &&& li == data.liquidity_indexes
            &&& vb == data.variable_borrow_indexes
            &&& distance(
                pool_deposit(cells, k, row as int, column, decimals, li, true),
                data.collateral_scaled[column],
            ) == 0
            &&& distance(
                pool_deposit(cells, k, row as int, column, decimals, li, false),
                data.reserve_scaled[column],
            ) == 0
            &&& distance(
                pool_debt(cells, k, row as int, column, decimals, vb),
                data.borrowed_scaled[column],
            ) == 0
        }),
{
    let n = entries.len();
    let k = fetched.len();
    let data = reported(entries, decimals, fetched, k, settings);
    let li = pool_indexes(reserve_reports(entries, fetched), k, n, false);
    let vb = pool_indexes(reserve_reports(entries, fetched), k, n, true);
    assert forall|c: int| 0 <= c < n implies li[c] == data.liquidity_indexes[c] && vb[c]
        == data.variable_borrow_indexes[c] by {
        lemma_same_reports(entries, fetched, k, row, c, None);
        lemma_last_report(entries, fetched, k, c, None);
    }
    assert(li =~= data.liquidity_indexes);
    assert(vb =~= data.variable_borrow_indexes);
    lemma_same_reports(entries, fetched, k, row, column, None);
    lemma_same_reports(entries, fetched, k, row, column, Some(true));
    lemma_same_reports(entries, fetched, k, row, column, Some(false));
    lemma_last_report(entries, fetched, k, column, None);
    lemma_last_report(entries, fetched, k, column, Some(true));
    lemma_last_report(entries, fetched, k, column, Some(false));
    match last_report(entries, fetched, k, column, Some(true)) {
        Some(i) => assert(reports(entries, fetched[i], column, None)),
        None => {},
    }
    match last_report(entries, fetched, k, column, Some(false)) {
        Some(i) => assert(reports(entries, fetched[i], column, None)),
        None => {},
    }
}

} // verus!
