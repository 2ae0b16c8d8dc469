//! What is told to the outside, and what is taken from it.
//!
//! The statements speak of the numbers, addresses and counters themselves: what
//! a report becomes, what a told string reads as, which worker gets what.
use vstd::prelude::*;
use crate::address::Address;
use crate::cache::{CacheState, MatrixState, RowState};
use crate::dispatch::{next_times, Dispatcher, EventKind};
use crate::events::{reply_contents, rows_of, step_result, with_rows, Step, StepState};
use crate::float::F64;
use crate::laws::column_of;
use crate::matrix::{shape_encodable, spread, values};
use crate::number_laws::{digits_value, law_digits, law_scalable, one};
use crate::probe::{
    bare_indexes, comparable, last_cell, last_reserve, names_window, pool_debts, pool_deposits,
    pool_indexes, values_2d, window, window_balances, window_held, Probe,
};
use crate::provider::{aave, dai, dummy_rates, dummy_user_reserve, usdc};
use crate::ray::scaled_units;
use crate::stats::{
    tell_indexes, tell_matrix, tell_numbers, tell_rows, tell_users, IndexRate, User,
};
use crate::sync::{borrowed_synced, collateral_synced, data_synced, grown, row_fits, synced};
use crate::tokens::{addresses_distinct, lists, order_of, place_of, TokenDetails};
use crate::types::{
    outcome, Error, Fetched, IndexState, ReserveData, Side, SyncTarget, TimeStamp, UserData,
    UserReserveData,
};
use crate::uint::U256;
use crate::userdata::{last_report, resynced};

verus! {

// ---- results ----
/// A possible error is the error, or success if there is none.
pub proof fn law_outcome(e: Error)
    ensures
        outcome(Some(e)) == Err::<(), Error>(e),
        outcome(None) == Ok::<(), Error>(()),
{
}

/// What an event handler returned is what the contracts speak of.
pub proof fn law_step_results(r: Result<Step, Error>, reply: Option<Vec<Fetched>>)
    ensures
        match r {
            Ok(Step::Create) => step_result(r) == Ok::<StepState, Error>(StepState::Create),
            Ok(Step::Applied(requests)) => step_result(r) == Ok::<StepState, Error>(
                StepState::Applied(requests@),
            ),
            Ok(Step::Skipped) => step_result(r) == Ok::<StepState, Error>(StepState::Skipped),
            Ok(Step::Resync) => step_result(r) == Ok::<StepState, Error>(StepState::Resync),
            Err(e) => step_result(r) == Err::<StepState, Error>(e),
        },
        match reply {
            Some(fetched) => reply_contents(reply) == Some(fetched@),
            None => reply_contents(reply) is None,
        },
{
}

/// The rows of a side are the rows of that name.
pub proof fn law_sides(s: CacheState, rows: Seq<RowState>)
    ensures
        rows_of(s, Side::Collateral) == s.collateral,
        rows_of(s, Side::Reserve) == s.reserve,
        rows_of(s, Side::Borrowed) == s.borrowed,
        with_rows(s, Side::Collateral, rows) == (CacheState { collateral: rows, ..s }),
        with_rows(s, Side::Reserve, rows) == (CacheState { reserve: rows, ..s }),
        with_rows(s, Side::Borrowed, rows) == (CacheState { borrowed: rows, ..s }),
{
}

// ---- known tokens ----
/// A token has a column exactly where it has an entry, and then that of the
/// entry.
pub proof fn law_columns_are_filed(entries: Seq<(Address, TokenDetails)>, token: Address)
    requires
        addresses_distinct(entries),
    ensures
        order_of(entries, token) is None <==> forall|i: int|
            0 <= i < entries.len() ==> (#[trigger] entries[i]).0 != token,
        lists(entries, token) <==> order_of(entries, token) is Some,
        forall|i: int|
            0 <= i < entries.len() && (#[trigger] entries[i]).0 == token ==> order_of(entries, token)
                == Some(entries[i].1.order) && place_of(entries, token) == i,
{
    if lists(entries, token) {
        let p = place_of(entries, token);
        assert(entries[p].0 == token);
        assert forall|i: int| 0 <= i < entries.len() && (#[trigger] entries[i]).0 == token implies i
            == p by {
            if i < p {
                assert(entries[i].0 != entries[p].0);
            } else if p < i {
                assert(entries[p].0 != entries[i].0);
            }
        }
    }
}

// ---- reading the pool ----
/// The data of a user are its numbers.
pub proof fn law_user_data_shown(data: UserData)
    ensures
        data@.reserve_scaled == values(data.reserve_scaled@),
        data@.collateral_scaled == values(data.collateral_scaled@),
        data@.borrowed_scaled == values(data.borrowed_scaled@),
        data@.liquidity_indexes == values(data.liquidity_indexes@),
        data@.liquidity_rates == values(data.liquidity_rates@),
        data@.variable_borrow_indexes == values(data.variable_borrow_indexes@),
        data@.variable_borrow_rates == values(data.variable_borrow_rates@),
        data@.last_update_timestamps == data.last_update_timestamps@,
        data@.user_settings == (
            data.user_settings.row_num,
            data.user_settings.use_as_collateral@,
        ),
{
}

/// The values of rays are those of each.
pub proof fn law_values(rays: Seq<U256>, rows: Seq<Vec<U256>>)
    ensures
        values(rays).len() == rays.len(),
        forall|i: int| 0 <= i < rays.len() ==> #[trigger] values(rays)[i] == rays[i]@,
        values_2d(rows).len() == rows.len(),
        forall|i: int, j: int|
            #![trigger values_2d(rows)[i][j]]
            0 <= i < rows.len() && 0 <= j < rows[i]@.len() ==> values_2d(rows)[i][j] == rows[i]@[j]@,
        forall|i: int|
            0 <= i < rows.len() ==> (#[trigger] values_2d(rows)[i]).len() == rows[i]@.len(),
{
}

proof fn lemma_report_stands(
    entries: Seq<(Address, TokenDetails)>,
    fetched: Seq<Fetched>,
    k: nat,
    i: int,
    usage: Option<bool>,
)
    requires
        0 <= i < k <= fetched.len(),
        order_of(entries, fetched[i].token) is Some,
        usage is Some ==> usage->0 == fetched[i].user_reserve.usage_as_collateral_enabled,
        forall|j: int|
            i < j < fetched.len() ==> order_of(entries, (#[trigger] fetched[j]).token) != order_of(
                entries,
                fetched[i].token,
            ),
    ensures
        last_report(entries, fetched, k, column_of(entries, fetched[i]) as int, usage) == Some(i),
    decreases k,
{
    if i < k - 1 {
        assert(order_of(entries, fetched[k - 1].token) != order_of(entries, fetched[i].token));
        lemma_report_stands(entries, fetched, (k - 1) as nat, i, usage);
    }
}

proof fn lemma_no_report(
    entries: Seq<(Address, TokenDetails)>,
    fetched: Seq<Fetched>,
    k: nat,
    column: usize,
    usage: Option<bool>,
)
    requires
        k <= fetched.len(),
        forall|j: int|
            0 <= j < fetched.len() ==> order_of(entries, (#[trigger] fetched[j]).token) != Some(column)
                || (usage is Some && fetched[j].user_reserve.usage_as_collateral_enabled
                != usage->0),
    ensures
        last_report(entries, fetched, k, column as int, usage) is None,
    decreases k,
{
    if k > 0 {
        assert(order_of(entries, fetched[k - 1].token) != Some(column) || (usage is Some && fetched[k
            - 1].user_reserve.usage_as_collateral_enabled != usage->0));
        lemma_no_report(entries, fetched, (k - 1) as nat, column, usage);
    }
}

/// Where a token was reported more than once in one reading, the last report
/// stands: for the indexes, rates and moment of the token, and for the user's
/// deposit, debt and flag.
pub proof fn law_last_report_is_read(
    s: CacheState,
    entries: Seq<(Address, TokenDetails)>,
    user: Address,
    fetched: Seq<Fetched>,
    now: TimeStamp,
    i: int,
)
    requires
        resynced(s, entries, user, fetched, now).1 is None,
        0 <= i < fetched.len(),
        order_of(entries, fetched[i].token) is Some,
        column_of(entries, fetched[i]) < entries.len(),
        column_of(entries, fetched[i]) < s.users[user.spec_key()].1.len(),
        forall|j: int|
            i < j < fetched.len() ==> order_of(entries, (#[trigger] fetched[j]).token) != order_of(
                entries,
                fetched[i].token,
            ),
    ensures
        ({
            let t = resynced(s, entries, user, fetched, now).0;
            let row = s.users[user.spec_key()].0 as int;
            let c = column_of(entries, fetched[i]) as int;
            let reserve = fetched[i].reserve;
            let balance = fetched[i].user_reserve;
            let moment = 1_000_000 * (reserve.last_update_timestamp.high * 4_294_967_296
                + reserve.last_update_timestamp.low);
            let deposit = scaled_units(
                balance.current_atoken_balance@,
                s.decimals.0[c],
                reserve.liquidity_index@,
            );
            &&& t.liquidity.0[c].index == reserve.liquidity_index@
            &&& t.liquidity.0[c].rate == reserve.liquidity_rate@
            &&& t.liquidity.0[c].last_update == moment
            &&& t.liquidity_index.0[c] == reserve.liquidity_index@
            &&& t.variable_borrow.0[c].index == reserve.variable_borrow_index@
            &&& t.variable_borrow.0[c].rate == reserve.variable_borrow_rate@
            &&& t.variable_borrow.0[c].last_update == moment
            &&& t.variable_borrow_index.0[c] == reserve.variable_borrow_index@
            &&& balance.usage_as_collateral_enabled ==> t.collateral[row].balances[c] == deposit
            &&& !balance.usage_as_collateral_enabled ==> t.reserve[row].balances[c] == deposit
            &&& t.borrowed[row].balances[c] == scaled_units(
                balance.current_variable_debt@,
                s.decimals.0[c],
                reserve.variable_borrow_index@,
            )
            &&& t.users[user.spec_key()].1[c] == balance.usage_as_collateral_enabled
        }),
{
    let used = fetched[i].user_reserve.usage_as_collateral_enabled;
    lemma_report_stands(entries, fetched, fetched.len(), i, None);
    lemma_report_stands(entries, fetched, fetched.len(), i, Some(used));
    crate::number_laws::law_moment(fetched[i].reserve.last_update_timestamp);
}

proof fn lemma_report_of_side_stands(
    entries: Seq<(Address, TokenDetails)>,
    fetched: Seq<Fetched>,
    k: nat,
    i: int,
)
    requires
        0 <= i < k <= fetched.len(),
        order_of(entries, fetched[i].token) is Some,
        forall|j: int|
            i < j < fetched.len() ==> order_of(entries, (#[trigger] fetched[j]).token) != order_of(
                entries,
                fetched[i].token,
            ) || fetched[j].user_reserve.usage_as_collateral_enabled
                != fetched[i].user_reserve.usage_as_collateral_enabled,
    ensures
        last_report(
            entries,
            fetched,
            k,
            column_of(entries, fetched[i]) as int,
            Some(fetched[i].user_reserve.usage_as_collateral_enabled),
        ) == Some(i),
    decreases k,
{
    if i < k - 1 {
        assert(order_of(entries, fetched[k - 1].token) != order_of(entries, fetched[i].token)
            || fetched[k - 1].user_reserve.usage_as_collateral_enabled
            != fetched[i].user_reserve.usage_as_collateral_enabled);
        lemma_report_of_side_stands(entries, fetched, (k - 1) as nat, i);
    }
}

/// On each of the two sides of deposits a reading leaves the last report on the
/// token that names that side.
pub proof fn law_last_report_of_side_is_read(
    s: CacheState,
    entries: Seq<(Address, TokenDetails)>,
    user: Address,
    fetched: Seq<Fetched>,
    now: TimeStamp,
    i: int,
)
    requires
        resynced(s, entries, user, fetched, now).1 is None,
        0 <= i < fetched.len(),
        order_of(entries, fetched[i].token) is Some,
        column_of(entries, fetched[i]) < entries.len(),
        forall|j: int|
            i < j < fetched.len() ==> order_of(entries, (#[trigger] fetched[j]).token) != order_of(
                entries,
                fetched[i].token,
            ) || fetched[j].user_reserve.usage_as_collateral_enabled
                != fetched[i].user_reserve.usage_as_collateral_enabled,
    ensures
        ({
            let t = resynced(s, entries, user, fetched, now).0;
            let row = s.users[user.spec_key()].0 as int;
            let c = column_of(entries, fetched[i]) as int;
            let side = if fetched[i].user_reserve.usage_as_collateral_enabled {
                t.collateral
            } else {
                t.reserve
            };
            side[row].balances[c] == scaled_units(
                fetched[i].user_reserve.current_atoken_balance@,
                s.decimals.0[c],
                fetched[i].reserve.liquidity_index@,
            )
        }),
{
    lemma_report_of_side_stands(entries, fetched, fetched.len(), i);
}

/// A reading leaves zero on a side that no report on the token names.
pub proof fn law_unreported_side(
    s: CacheState,
    entries: Seq<(Address, TokenDetails)>,
    user: Address,
    fetched: Seq<Fetched>,
    now: TimeStamp,
    column: usize,
    used: bool,
)
    requires
        resynced(s, entries, user, fetched, now).1 is None,
        column < entries.len(),
        forall|j: int|
            0 <= j < fetched.len() ==> order_of(entries, (#[trigger] fetched[j]).token) != Some(column)
                || fetched[j].user_reserve.usage_as_collateral_enabled != used,
    ensures
        ({
            let t = resynced(s, entries, user, fetched, now).0;
            let row = s.users[user.spec_key()].0 as int;
            let side = if used { t.collateral } else { t.reserve };
            side[row].balances[column as int] == 0
        }),
{
    lemma_no_report(entries, fetched, fetched.len(), column, Some(used));
}

/// What a reading leaves of a token that it has no report on: indexes, rates,
/// moments and balances are zero, and the flag stays.
pub proof fn law_unreported_token(
    s: CacheState,
    entries: Seq<(Address, TokenDetails)>,
    user: Address,
    fetched: Seq<Fetched>,
    now: TimeStamp,
    column: usize,
)
    requires
        resynced(s, entries, user, fetched, now).1 is None,
        column < entries.len(),
        forall|j: int|
            0 <= j < fetched.len() ==> order_of(entries, (#[trigger] fetched[j]).token) != Some(column),
    ensures
        ({
            let t = resynced(s, entries, user, fetched, now).0;
            let row = s.users[user.spec_key()].0 as int;
            let c = column as int;
            &&& t.liquidity.0[c].index == 0 && t.liquidity.0[c].rate == 0
                && t.liquidity.0[c].last_update == 0 && t.liquidity_index.0[c] == 0
            &&& t.variable_borrow.0[c].index == 0 && t.variable_borrow.0[c].rate == 0
                && t.variable_borrow.0[c].last_update == 0 && t.variable_borrow_index.0[c] == 0
            &&& t.collateral[row].balances[c] == 0
            &&& t.reserve[row].balances[c] == 0
            &&& t.borrowed[row].balances[c] == 0
            &&& column < s.users[user.spec_key()].1.len() ==> t.users[user.spec_key()].1[c]
                == s.users[user.spec_key()].1[c]
        }),
{
    lemma_no_report(entries, fetched, fetched.len(), column, None);
    lemma_no_report(entries, fetched, fetched.len(), column, Some(true));
    lemma_no_report(entries, fetched, fetched.len(), column, Some(false));
}

// ---- the matrices ----
/// Bringing up to date by name is what a request of that name is served by.
pub proof fn law_synced_by_name(s: CacheState, target: SyncTarget)
    ensures
        ({
            let (m, x) = synced(s.collateral, s.collateral_matrix, target, Side::Collateral);
            let (b, y) = synced(s.borrowed, s.borrowed_matrix, target, Side::Borrowed);
            &&& collateral_synced(s, target) == (CacheState { collateral_matrix: m, ..s }, x)
            &&& borrowed_synced(s, target) == (CacheState { borrowed_matrix: b, ..s }, y)
            &&& x is Some ==> data_synced(s, target) == (CacheState { collateral_matrix: m, ..s }, x)
            &&& x is None ==> data_synced(s, target) == (
                CacheState { collateral_matrix: m, borrowed_matrix: b, ..s },
                y,
            )
        }),
{
}

/// A matrix can have as many rows as its cells can be counted, up to
/// `isize::MAX`; where it has no columns, each row counts as one cell.
pub proof fn law_shape(rows: nat, width: nat)
    ensures
        rows > 0 && width > 0 ==> (shape_encodable(rows, width) <==> rows * width <= isize::MAX),
        width == 0 ==> (shape_encodable(rows, width) <==> rows <= isize::MAX),
        rows == 0 ==> (shape_encodable(rows, width) <==> width <= isize::MAX),
{
}

/// A row fits in its own place where it has the matrix's width and the matrix
/// can have that many rows.
pub proof fn law_fitting_rows(rows: Seq<RowState>, width: nat, i: int)
    ensures
        row_fits(rows, width, i) <==> rows[i].balances.len() == width && shape_encodable(
            (i + 1) as nat,
            width,
        ),
{
}

/// A row has a place in a matrix of its width; a single balance is spread over
/// all columns.
pub proof fn law_spread(row: Seq<nat>, width: nat)
    ensures
        row.len() == width ==> spread(row, width) == row,
        row.len() == 1 ==> spread(row, width).len() == width && forall|c: int|
            0 <= c < width ==> #[trigger] spread(row, width)[c] == row[0],
{
    if row.len() == width {
        assert(spread(row, width) =~= row);
    }
}

/// A row that does not fit is where a matrix stops growing: the rows before it
/// are added, and the error names the side.
pub proof fn law_growth_stops(
    rows: Seq<RowState>,
    m: MatrixState,
    target: SyncTarget,
    side: Side,
    misfit: int,
)
    requires
        m.rows.len() <= misfit < rows.len(),
        rows[misfit].balances.len() != m.width,
        forall|k: int| m.rows.len() <= k < misfit ==> #[trigger] row_fits(rows, m.width, k),
    ensures
        ({
            let (t, e) = synced(rows, m, target, side);
            &&& e == Some(Error::Shape(side))
            &&& t.width == m.width
            &&& t.rows.len() == misfit
            &&& forall|k: int| 0 <= k < m.rows.len() ==> t.rows[k] == #[trigger] m.rows[k]
            &&& forall|k: int|
                m.rows.len() <= k < misfit ==> t.rows[k] == (#[trigger] rows[k]).balances
        }),
{
    lemma_growth_stops(rows, m, misfit);
}

proof fn lemma_growth_stops(rows: Seq<RowState>, m: MatrixState, misfit: int)
    requires
        m.rows.len() <= misfit < rows.len(),
        rows[misfit].balances.len() != m.width,
        forall|k: int| m.rows.len() <= k < misfit ==> #[trigger] row_fits(rows, m.width, k),
    ensures
        !grown(rows, m).1,
        grown(rows, m).0.width == m.width,
        grown(rows, m).0.rows.len() == misfit,
        forall|k: int| 0 <= k < m.rows.len() ==> grown(rows, m).0.rows[k] == #[trigger] m.rows[k],
        forall|k: int|
            m.rows.len() <= k < misfit ==> grown(rows, m).0.rows[k] == (#[trigger] rows[k]).balances,
    decreases misfit - m.rows.len(),
{
    if m.rows.len() < misfit {
        let at = m.rows.len() as int;
        assert(row_fits(rows, m.width, at));
        let larger = MatrixState { rows: m.rows.push(rows[at].balances), ..m };
        lemma_growth_stops(rows, larger, misfit);
        assert(grown(rows, m) == grown(rows, larger));
        assert forall|k: int| 0 <= k < m.rows.len() implies grown(rows, m).0.rows[k]
            == #[trigger] m.rows[k] by {
            assert(larger.rows[k] == m.rows[k]);
        }
        assert(larger.rows[at] == rows[at].balances);
    }
}

// ---- work ----
/// Whether a counter was raised by one, with zero after the largest number.
pub open spec fn raised(before: usize, after: usize) -> bool {
    if before == usize::MAX {
        after == 0
    } else {
        after == before + 1
    }
}

/// An event goes to the worker whose turn it is among four for events of its
/// kind; so does its synchronisation, which only an update of a reserve does
/// not have, and so does its computation of health factors.
pub proof fn law_route(d: Dispatcher)
    ensures
        d.route_of(EventKind::Supply).worker == d.supply % 4,
        d.route_of(EventKind::Withdraw).worker == d.withdraw % 4,
        d.route_of(EventKind::Borrow).worker == d.borrow % 4,
        d.route_of(EventKind::Repay).worker == d.repay % 4,
        d.route_of(EventKind::ReserveUsedAsCollateralEnabled).worker
            == d.reserve_used_as_collateral_enabled % 4,
        d.route_of(EventKind::ReserveUsedAsCollateralDisabled).worker
            == d.reserve_used_as_collateral_disabled % 4,
        d.route_of(EventKind::LiquidationCall).worker == d.liquidation_call % 4,
        d.route_of(EventKind::ReserveDataUpdated).worker == d.reserve_data_updated % 4,
        d.route_of(EventKind::ReserveDataUpdated).sync is None,
        forall|kind: EventKind|
            kind != EventKind::ReserveDataUpdated ==> (#[trigger] d.route_of(kind)).sync == Some(
                (d.sync_counter % 4) as usize,
            ),
        forall|kind: EventKind| (#[trigger] d.route_of(kind)).hf == d.hf_counter % 4,
{
}

/// Handing out an event raises the counter of its kind and no other of the
/// kinds, that of the computations, and that of the synchronisations unless the
/// event is an update of a reserve.
pub proof fn law_counters(before: Dispatcher, after: Dispatcher, kind: EventKind)
    requires
        before.after(after, kind),
    ensures
        raised(before.hf_counter, after.hf_counter),
        kind == EventKind::ReserveDataUpdated ==> after.sync_counter == before.sync_counter,
        kind != EventKind::ReserveDataUpdated ==> raised(before.sync_counter, after.sync_counter),
        if kind == EventKind::Supply {
            raised(before.supply, after.supply)
        } else {
            after.supply == before.supply
        },
        if kind == EventKind::Withdraw {
            raised(before.withdraw, after.withdraw)
        } else {
            after.withdraw == before.withdraw
        },
        if kind == EventKind::Borrow {
            raised(before.borrow, after.borrow)
        } else {
            after.borrow == before.borrow
        },
        if kind == EventKind::Repay {
            raised(before.repay, after.repay)
        } else {
            after.repay == before.repay
        },
        if kind == EventKind::ReserveUsedAsCollateralEnabled {
            raised(
                before.reserve_used_as_collateral_enabled,
                after.reserve_used_as_collateral_enabled,
            )
        } else {
            after.reserve_used_as_collateral_enabled == before.reserve_used_as_collateral_enabled
        },
        if kind == EventKind::ReserveUsedAsCollateralDisabled {
            raised(
                before.reserve_used_as_collateral_disabled,
                after.reserve_used_as_collateral_disabled,
            )
        } else {
            after.reserve_used_as_collateral_disabled == before.reserve_used_as_collateral_disabled
        },
        if kind == EventKind::LiquidationCall {
            raised(before.liquidation_call, after.liquidation_call)
        } else {
            after.liquidation_call == before.liquidation_call
        },
        if kind == EventKind::ReserveDataUpdated {
            raised(before.reserve_data_updated, after.reserve_data_updated)
        } else {
            after.reserve_data_updated == before.reserve_data_updated
        },
{
    assert(after.count(EventKind::Supply) == after.supply);
    assert(after.count(EventKind::Withdraw) == after.withdraw);
    assert(after.count(EventKind::Borrow) == after.borrow);
    assert(after.count(EventKind::Repay) == after.repay);
    assert(after.count(EventKind::ReserveUsedAsCollateralEnabled)
        == after.reserve_used_as_collateral_enabled);
    assert(after.count(EventKind::ReserveUsedAsCollateralDisabled)
        == after.reserve_used_as_collateral_disabled);
    assert(after.count(EventKind::LiquidationCall) == after.liquidation_call);
    assert(after.count(EventKind::ReserveDataUpdated) == after.reserve_data_updated);
}

/// Counting is addition, with zero after the largest number.
pub proof fn law_turns(n: usize, k: nat)
    ensures
        next_times(n, k) == (n + k) % (usize::MAX + 1),
    decreases k,
{
    let m = usize::MAX + 1;
    if k == 0 {
        vstd::arithmetic::div_mod::lemma_small_mod(n as nat, m as nat);
    } else {
        law_turns(n, (k - 1) as nat);
        let x = n + k - 1;
        vstd::arithmetic::div_mod::lemma_fundamental_div_mod(x, m);
        vstd::arithmetic::div_mod::lemma_mod_pos_bound(x, m);
        let q = x / m;
        let r = x % m;
        if r == usize::MAX {
            assert(x + 1 == (q + 1) * m + 0) by (nonlinear_arith)
                requires
                    x == m * q + r,
                    r + 1 == m,
            ;
            vstd::arithmetic::div_mod::lemma_fundamental_div_mod_converse(x + 1, m, q + 1, 0);
        } else {
            assert(x + 1 == q * m + (r + 1)) by (nonlinear_arith)
                requires
                    x == m * q + r,
            ;
            vstd::arithmetic::div_mod::lemma_fundamental_div_mod_converse(x + 1, m, q, r + 1);
        }
    }
}

// ---- what is told ----
/// Whether a string is a number in decimal digits, without leading zeros.
pub open spec fn reads_as(string: Seq<char>, number: nat) -> bool {
    &&& string.len() > 0
    &&& forall|i: int| 0 <= i < string.len() ==> '0' <= #[trigger] string[i] <= '9'
    &&& number > 0 ==> string[0] != '0'
    &&& digits_value(string) == number
}

/// Numbers are told one by one, as what they read as.
pub proof fn law_numbers_told(strings: Seq<String>, numbers: Seq<nat>)
    requires
        tell_numbers(strings, numbers),
    ensures
        strings.len() == numbers.len(),
        forall|i: int| 0 <= i < numbers.len() ==> reads_as((#[trigger] strings[i])@, numbers[i]),
{
    assert forall|i: int| 0 <= i < numbers.len() implies reads_as(
        (#[trigger] strings[i])@,
        numbers[i],
    ) by {
        law_digits(numbers[i]);
    }
}

/// The balances of rows are told row by row and column by column.
pub proof fn law_rows_told(strings: Seq<Vec<String>>, rows: Seq<RowState>, i: int, c: int)
    requires
        tell_rows(strings, rows),
        0 <= i < rows.len(),
        0 <= c < rows[i].balances.len(),
    ensures
        strings.len() == rows.len(),
        strings[i]@.len() == rows[i].balances.len(),
        reads_as(strings[i]@[c]@, rows[i].balances[c]),
{
    law_numbers_told(strings[i]@, rows[i].balances);
    assert(reads_as(strings[i]@[c]@, rows[i].balances[c]));
}

/// Indexes are told as indexes and rates as rates.
pub proof fn law_indexes_told(told: Seq<IndexRate>, indexes: Seq<IndexState>)
    requires
        tell_indexes(told, indexes),
    ensures
        told.len() == indexes.len(),
        forall|i: int|
            0 <= i < indexes.len() ==> reads_as((#[trigger] told[i]).index@, indexes[i].index)
                && reads_as(told[i].rate@, indexes[i].rate),
{
    assert forall|i: int| 0 <= i < indexes.len() implies reads_as(
        (#[trigger] told[i]).index@,
        indexes[i].index,
    ) && reads_as(told[i].rate@, indexes[i].rate) by {
        law_digits(indexes[i].index);
        law_digits(indexes[i].rate);
    }
}

/// Users are told by their address, with their row and their flags; everybody
/// once.
pub proof fn law_users_told(told: Seq<User>, s: CacheState)
    requires
        tell_users(told, s),
    ensures
        forall|i: int|
            0 <= i < told.len() ==> s.users.contains_key(
                ((#[trigger] told[i]).name.high, told[i].name.low),
            ) && s.users[(told[i].name.high, told[i].name.low)].0 == told[i].row
                && s.users[(told[i].name.high, told[i].name.low)].1 == told[i].use_as_collateral@,
        forall|i: int, j: int|
            0 <= i < j < told.len() ==> (#[trigger] told[i]).name != (#[trigger] told[j]).name,
        forall|high: u32, low: u128| #[trigger]
            s.users.contains_key((high, low)) ==> exists|i: int|
                0 <= i < told.len() && (#[trigger] told[i]).name.high == high && told[i].name.low
                    == low,
{
    assert forall|high: u32, low: u128| #[trigger] s.users.contains_key((high, low)) implies exists|
        i: int,
    |
        0 <= i < told.len() && (#[trigger] told[i]).name.high == high && told[i].name.low == low by {
        let i = choose|i: int|
            0 <= i < told.len() && #[trigger] told[i].name.spec_key() == (high, low);
        assert(told[i].name.high == high);
    }
}

/// Whoever is told of is filed under their address, with their row and flags.
pub proof fn law_user_told(user: User, s: CacheState)
    requires
        user.tells(s),
    ensures
        s.users.contains_key((user.name.high, user.name.low)),
        s.users[(user.name.high, user.name.low)].0 == user.row,
        s.users[(user.name.high, user.name.low)].1 == user.use_as_collateral@,
{
}

/// The cells of a matrix are told row by row and column by column.
pub proof fn law_matrix_told(told: Seq<Vec<U256>>, rows: Seq<Seq<nat>>, i: int, c: int)
    requires
        tell_matrix(told, rows),
        0 <= i < rows.len(),
        0 <= c < rows[i].len(),
    ensures
        told.len() == rows.len(),
        told[i]@.len() == rows[i].len(),
        told[i]@[c]@ == rows[i][c],
{
    assert(values(told[i]@) == rows[i]);
    assert(values(told[i]@).len() == told[i]@.len());
}

// ---- probes ----
/// A window has the wanted size at the place that was picked, or covers all
/// rows if there are no more than wanted; it is always within the rows.
pub proof fn law_window(len: usize, size: usize, pick: usize)
    ensures
        len > size ==> window(len, size, pick) == (pick, size),
        len <= size ==> window(len, size, pick) == (0usize, len),
        len > size && pick < len - size ==> window(len, size, pick).0 + window(len, size, pick).1
            < len,
{
}

/// A window is there exactly where all its rows are.
pub proof fn law_window_held(s: CacheState, start: usize, size: usize)
    ensures
        window_held(s, start, size) <==> {
            &&& start + size <= s.health_factors.0.len()
            &&& start + size <= s.reserve.len()
            &&& start + size <= s.collateral.len()
            &&& start + size <= s.borrowed.len()
            &&& start + size <= s.collateral_matrix.rows.len()
            &&& start + size <= s.borrowed_matrix.rows.len()
        },
{
}

/// The users of a window are all who have one of its rows, each once, in the
/// order of their rows.
pub proof fn law_window_users(users: Seq<Address>, s: CacheState, start: usize, size: usize)
    requires
        names_window(users, s, start, size),
    ensures
        forall|i: int|
            0 <= i < users.len() ==> s.users.contains_key(((#[trigger] users[i]).high, users[i].low))
                && start <= s.users[(users[i].high, users[i].low)].0 < start + size,
        forall|i: int, j: int|
            0 <= i < j < users.len() ==> #[trigger] users[i] != #[trigger] users[j],
        forall|i: int, j: int|
            0 <= i < j < users.len() ==> s.users[((#[trigger] users[i]).high, users[i].low)].0
                <= s.users[((#[trigger] users[j]).high, users[j].low)].0,
        forall|high: u32, low: u128| #[trigger]
            s.users.contains_key((high, low)) && start <= s.users[(high, low)].0 < start + size
                ==> exists|i: int|
                0 <= i < users.len() && (#[trigger] users[i]).high == high && users[i].low == low,
{
    assert forall|high: u32, low: u128| #[trigger]
        s.users.contains_key((high, low)) && start <= s.users[(high, low)].0 < start
            + size implies exists|i: int|
        0 <= i < users.len() && (#[trigger] users[i]).high == high && users[i].low == low by {
        assert(crate::probe::in_window(s, (high, low), start, size));
        let i = choose|i: int|
            0 <= i < users.len() && #[trigger] users[i].spec_key() == (high, low);
        assert(users[i].high == high);
    }
}

/// A window shows the balances of its rows, and the indexes without their
/// rates.
pub proof fn law_window_contents(
    rows: Seq<RowState>,
    indexes: Seq<IndexState>,
    start: usize,
    size: usize,
)
    ensures
        window_balances(rows, start, size).len() == size,
        forall|i: int|
            0 <= i < size ==> #[trigger] window_balances(rows, start, size)[i] == rows[start
                + i].balances,
        bare_indexes(indexes).len() == indexes.len(),
        forall|i: int|
            0 <= i < indexes.len() ==> #[trigger] bare_indexes(indexes)[i] == indexes[i].index,
{
}

proof fn lemma_last_reserve(found: Seq<(usize, ReserveData)>, k: nat, i: int)
    requires
        0 <= i < k <= found.len(),
        forall|j: int| i < j < found.len() ==> (#[trigger] found[j]).0 != found[i].0,
    ensures
        last_reserve(found, k, found[i].0 as int) == Some(i),
    decreases k,
{
    if i < k - 1 {
        assert(found[k - 1].0 != found[i].0);
        lemma_last_reserve(found, (k - 1) as nat, i);
    }
}

proof fn lemma_no_reserve(found: Seq<(usize, ReserveData)>, k: nat, column: usize)
    requires
        k <= found.len(),
        forall|j: int| 0 <= j < found.len() ==> (#[trigger] found[j]).0 != column,
    ensures
        last_reserve(found, k, column as int) is None,
    decreases k,
{
    if k > 0 {
        assert(found[k - 1].0 != column);
        lemma_no_reserve(found, (k - 1) as nat, column);
    }
}

/// The indexes that the pool reports are, in each column, those of the last
/// report on it: the liquidity index for deposits, the variable borrow index
/// for loans.
pub proof fn law_reported_indexes(found: Seq<(usize, ReserveData)>, n: nat, i: int)
    requires
        0 <= i < found.len(),
        found[i].0 < n,
        forall|j: int| i < j < found.len() ==> (#[trigger] found[j]).0 != found[i].0,
    ensures
        pool_indexes(found, found.len(), n, false).len() == n,
        pool_indexes(found, found.len(), n, true).len() == n,
        pool_indexes(found, found.len(), n, false)[found[i].0 as int] == found[i].1.liquidity_index@,
        pool_indexes(found, found.len(), n, true)[found[i].0 as int]
            == found[i].1.variable_borrow_index@,
{
    lemma_last_reserve(found, found.len(), i);
}

/// A column that the pool reports no indexes for has zero.
pub proof fn law_unreported_indexes(found: Seq<(usize, ReserveData)>, n: nat, column: usize)
    requires
        column < n,
        forall|j: int| 0 <= j < found.len() ==> (#[trigger] found[j]).0 != column,
    ensures
        pool_indexes(found, found.len(), n, false)[column as int] == 0,
        pool_indexes(found, found.len(), n, true)[column as int] == 0,
{
    lemma_no_reserve(found, found.len(), column);
}

/// Whether two reports are on one cell.
pub open spec fn same_cell(
    a: (usize, usize, UserReserveData),
    b: (usize, usize, UserReserveData),
) -> bool {
    a.0 == b.0 && a.1 == b.1
}

proof fn lemma_last_cell(
    found: Seq<(usize, usize, UserReserveData)>,
    k: nat,
    i: int,
    usage: Option<bool>,
)
    requires
        0 <= i < k <= found.len(),
        usage is Some ==> usage->0 == found[i].2.usage_as_collateral_enabled,
        forall|j: int| i < j < found.len() ==> !same_cell(#[trigger] found[j], found[i]),
    ensures
        last_cell(found, k, found[i].0 as int, found[i].1 as int, usage) == Some(i),
    decreases k,
{
    if i < k - 1 {
        assert(!same_cell(found[k - 1], found[i]));
        lemma_last_cell(found, (k - 1) as nat, i, usage);
    }
}

proof fn lemma_no_cell(
    found: Seq<(usize, usize, UserReserveData)>,
    k: nat,
    row: int,
    column: int,
    usage: Option<bool>,
)
    requires
        k <= found.len(),
        forall|j: int|
            0 <= j < found.len() ==> (#[trigger] found[j]).0 != row || found[j].1 != column || (usage
                is Some && usage->0 != found[j].2.usage_as_collateral_enabled),
    ensures
        last_cell(found, k, row, column, usage) is None,
    decreases k,
{
    if k > 0 {
        assert(found[k - 1].0 != row || found[k - 1].1 != column || (usage is Some && usage->0
            != found[k - 1].2.usage_as_collateral_enabled));
        lemma_no_cell(found, (k - 1) as nat, row, column, usage);
    }
}

/// The balances that the pool reports for a cell are those of the last report
/// on it, scaled at the indexes: the deposit on the side that the report says,
/// and the debt.
pub proof fn law_reported_balances(
    found: Seq<(usize, usize, UserReserveData)>,
    size: nat,
    n: nat,
    decimals: Seq<F64>,
    liquidity: Seq<nat>,
    borrow: Seq<nat>,
    i: int,
)
    requires
        0 <= i < found.len(),
        found[i].0 < size,
        found[i].1 < n,
        forall|j: int| i < j < found.len() ==> !same_cell(#[trigger] found[j], found[i]),
    ensures
        ({
            let row = found[i].0 as int;
            let c = found[i].1 as int;
            let k = found.len();
            let used = found[i].2.usage_as_collateral_enabled;
            &&& pool_deposits(found, k, size, n, decimals, liquidity, used).len() == size
            &&& pool_deposits(found, k, size, n, decimals, liquidity, used)[row].len() == n
            &&& pool_deposits(found, k, size, n, decimals, liquidity, used)[row][c] == scaled_units(
                found[i].2.current_atoken_balance@,
                decimals[c],
                liquidity[c],
            )
            &&& pool_debts(found, k, size, n, decimals, borrow).len() == size
            &&& pool_debts(found, k, size, n, decimals, borrow)[row].len() == n
            &&& pool_debts(found, k, size, n, decimals, borrow)[row][c] == scaled_units(
                found[i].2.current_variable_debt@,
                decimals[c],
                borrow[c],
            )
        }),
{
    let used = found[i].2.usage_as_collateral_enabled;
    lemma_last_cell(found, found.len(), i, None);
    lemma_last_cell(found, found.len(), i, Some(used));
}

proof fn lemma_last_cell_of_side(found: Seq<(usize, usize, UserReserveData)>, k: nat, i: int)
    requires
        0 <= i < k <= found.len(),
        forall|j: int|
            i < j < found.len() ==> !same_cell(#[trigger] found[j], found[i])
                || found[j].2.usage_as_collateral_enabled != found[i].2.usage_as_collateral_enabled,
    ensures
        last_cell(
            found,
            k,
            found[i].0 as int,
            found[i].1 as int,
            Some(found[i].2.usage_as_collateral_enabled),
        ) == Some(i),
    decreases k,
{
    if i < k - 1 {
        assert(!same_cell(found[k - 1], found[i]) || found[k - 1].2.usage_as_collateral_enabled
            != found[i].2.usage_as_collateral_enabled);
        lemma_last_cell_of_side(found, (k - 1) as nat, i);
    }
}

/// On each of the two sides of deposits the last report on a cell that names
/// that side stands.
pub proof fn law_reported_deposits(
    found: Seq<(usize, usize, UserReserveData)>,
    size: nat,
    n: nat,
    decimals: Seq<F64>,
    indexes: Seq<nat>,
    i: int,
)
    requires
        0 <= i < found.len(),
        found[i].0 < size,
        found[i].1 < n,
        forall|j: int|
            i < j < found.len() ==> !same_cell(#[trigger] found[j], found[i])
                || found[j].2.usage_as_collateral_enabled != found[i].2.usage_as_collateral_enabled,
    ensures
        pool_deposits(
            found,
            found.len(),
            size,
            n,
            decimals,
            indexes,
            found[i].2.usage_as_collateral_enabled,
        )[found[i].0 as int][found[i].1 as int] == scaled_units(
            found[i].2.current_atoken_balance@,
            decimals[found[i].1 as int],
            indexes[found[i].1 as int],
        ),
{
    lemma_last_cell_of_side(found, found.len(), i);
}

/// A cell has no deposit on a side that no report on it names, and no debt if
/// there is no report on it.
pub proof fn law_unreported_balances(
    found: Seq<(usize, usize, UserReserveData)>,
    size: nat,
    n: nat,
    decimals: Seq<F64>,
    indexes: Seq<nat>,
    used: bool,
    row: int,
    column: int,
)
    requires
        0 <= row < size,
        0 <= column < n,
    ensures
        (forall|j: int|
            0 <= j < found.len() ==> (#[trigger] found[j]).0 != row || found[j].1 != column
                || found[j].2.usage_as_collateral_enabled != used) ==> pool_deposits(
            found,
            found.len(),
            size,
            n,
            decimals,
            indexes,
            used,
        )[row][column] == 0,
        (forall|j: int|
            0 <= j < found.len() ==> (#[trigger] found[j]).0 != row || found[j].1 != column)
            ==> pool_debts(found, found.len(), size, n, decimals, indexes)[row][column] == 0,
{
    if forall|j: int|
        0 <= j < found.len() ==> (#[trigger] found[j]).0 != row || found[j].1 != column
            || found[j].2.usage_as_collateral_enabled != used {
        lemma_no_cell(found, found.len(), row, column, Some(used));
    }
    if forall|j: int|
        0 <= j < found.len() ==> (#[trigger] found[j]).0 != row || found[j].1 != column {
        lemma_no_cell(found, found.len(), row, column, None);
    }
}

/// Whether there is a report on a column.
pub open spec fn on_column(reserves: Seq<(usize, ReserveData)>, column: int) -> bool {
    exists|i: int| 0 <= i < reserves.len() && (#[trigger] reserves[i]).0 == column
}

/// Reports of ordinary numbers on the cells of a window can be compared with
/// it: amounts of 128 bits, indexes of at least 1.0, tokens that have units.
pub proof fn law_reports_comparable(
    probe: Probe,
    reserves: Seq<(usize, ReserveData)>,
    cells: Seq<(usize, usize, UserReserveData)>,
)
    requires
        probe.decimals@.len() == probe.tokens@.len(),
        forall|c: int| 0 <= c < probe.decimals@.len() ==> (#[trigger] probe.decimals@[c]).truncated() > 0,
        forall|i: int| 0 <= i < reserves.len() ==> (#[trigger] reserves[i]).0 < probe.tokens@.len(),
        forall|i: int|
            0 <= i < reserves.len() ==> (#[trigger] reserves[i]).1.liquidity_index@ >= one()
                && reserves[i].1.variable_borrow_index@ >= one(),
        forall|c: int| 0 <= c < probe.tokens@.len() ==> #[trigger] on_column(reserves, c),
        forall|i: int|
            0 <= i < cells.len() ==> (#[trigger] cells[i]).0 < probe.hf@.len() && cells[i].1
                < probe.tokens@.len() && cells[i].2.current_atoken_balance@ <= u128::MAX
                && cells[i].2.current_variable_debt@ <= u128::MAX,
    ensures
        comparable(probe, reserves, cells),
{
    let n = probe.tokens@.len();
    let li = pool_indexes(reserves, reserves.len(), n, false);
    let vb = pool_indexes(reserves, reserves.len(), n, true);
    assert forall|i: int| 0 <= i < cells.len() implies crate::probe::cell_usable(
        #[trigger] cells[i],
        probe.hf@.len(),
        n,
        probe.decimals@,
        li,
        vb,
    ) by {
        let c = cells[i].1 as int;
        assert(on_column(reserves, c));
        let w = choose|w: int| 0 <= w < reserves.len() && (#[trigger] reserves[w]).0 == c;
        lemma_some_reserve(reserves, reserves.len(), w);
        law_scalable(cells[i].2.current_atoken_balance@, probe.decimals@[c], li[c]);
        law_scalable(cells[i].2.current_variable_debt@, probe.decimals@[c], vb[c]);
    }
}

proof fn lemma_some_reserve(found: Seq<(usize, ReserveData)>, k: nat, w: int)
    requires
        0 <= w < k <= found.len(),
    ensures
        last_reserve(found, k, found[w].0 as int) matches Some(i) && 0 <= i < k,
    decreases k,
{
    if found[k - 1].0 != found[w].0 {
        lemma_some_reserve(found, (k - 1) as nat, w);
    }
}

/// Reports on cells outside a window cannot be compared with it.
pub proof fn law_reports_within_window(
    probe: Probe,
    reserves: Seq<(usize, ReserveData)>,
    cells: Seq<(usize, usize, UserReserveData)>,
)
    requires
        comparable(probe, reserves, cells),
    ensures
        forall|i: int| 0 <= i < reserves.len() ==> (#[trigger] reserves[i]).0 < probe.tokens@.len(),
        forall|i: int|
            0 <= i < cells.len() ==> (#[trigger] cells[i]).0 < probe.hf@.len() && cells[i].1
                < probe.tokens@.len(),
{
}

// ---- the stand-in pool ----
/// The tokens of the stand-in pool are three.
pub proof fn law_stand_in_tokens()
    ensures
        aave().high == 0x1Ac54C11 && aave().low == 0x3cefD1792CbFcF41B711824d657eb61D,
        usdc().high == 0x1Af54C11 && usdc().low == 0x3cefD1792CbFcF41B711834d657ea61D,
        dai().high == 0x1Af54C11 && dai().low == 0x3cefD1792CbFcF41B711824d657eb61D,
        aave() != usdc() && usdc() != dai() && dai() != aave(),
{
}

/// Every user of the stand-in pool has ten tokens of eighteen decimals, twenty
/// of six, thirty of twelve, or forty of eighteen of any other token; the
/// second and the others count as collateral.
pub proof fn law_stand_in_balances(token: Address)
    ensures
        ({
            let first = token.high == 0x1Ac54C11 && token.low == 0x3cefD1792CbFcF41B711824d657eb61D;
            let second = token.high == 0x1Af54C11 && token.low == 0x3cefD1792CbFcF41B711834d657ea61D;
            let third = token.high == 0x1Af54C11 && token.low == 0x3cefD1792CbFcF41B711824d657eb61D;
            let (amount, used) = dummy_user_reserve(token);
            &&& first ==> amount == 10_000_000_000_000_000_000 && !used
            &&& second ==> amount == 20_000_000 && used
            &&& third ==> amount == 30_000_000_000_000 && !used
            &&& !first && !second && !third ==> amount == 40_000_000_000_000_000_000 && used
        }),
{
}

/// The yearly rates of the stand-in pool, in thousandths: loans cost five more
/// than deposits earn.
pub proof fn law_stand_in_rates(token: Address)
    ensures
        ({
            let first = token.high == 0x1Ac54C11 && token.low == 0x3cefD1792CbFcF41B711824d657eb61D;
            let second = token.high == 0x1Af54C11 && token.low == 0x3cefD1792CbFcF41B711834d657ea61D;
            let third = token.high == 0x1Af54C11 && token.low == 0x3cefD1792CbFcF41B711824d657eb61D;
            let (earned, paid) = dummy_rates(token);
            &&& first ==> earned == 45
            &&& second ==> earned == 35
            &&& third ==> earned == 25
            &&& !first && !second && !third ==> earned == 55
            &&& paid == earned + 5
        }),
{
}

} // verus!
