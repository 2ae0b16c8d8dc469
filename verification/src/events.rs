//! What the cache makes of an event of the pool.
//!
//! An event on a user that is not known files the user and asks the caller to
//! read the user's balances from the pool ([`Step::Create`]). An event on a
//! known user is applied, skipped or answered by reading the user again,
//! depending on the moments at which the user's row was last read and last
//! changed. Reading the pool is the caller's part; [`create_user`] and
//! [`resync_user`] take its reply.
use vstd::prelude::*;
use crate::address::Address;
use crate::cache::{registered, row_states, Cache, CacheState, Row, RowState};
use crate::matrix::{lemma_values_update, values};
use crate::ray::{scalable, scaled_units};
use crate::tokens::{order_of, TokenDetails, Tokens};
use crate::types::{Error, Fetched, Side, SyncRequest, SyncTarget, TimeStamp};
use crate::uint::{u256_modulus, U256};
use crate::userdata::{resynced, user_usable};
use crate::users::{users_get, users_insert, UserSettings};

verus! {

broadcast use lemma_values_update;

/// A deposit on behalf of a user.
#[derive(Clone, Copy, Debug)]
pub struct Supply {
    pub reserve: Address,
    pub on_behalf_of: Address,
    pub amount: U256,
}

/// A withdrawal by a user.
#[derive(Clone, Copy, Debug)]
pub struct Withdraw {
    pub reserve: Address,
    pub user: Address,
    pub amount: U256,
}

/// A loan taken on behalf of a user.
#[derive(Clone, Copy, Debug)]
pub struct Borrow {
    pub reserve: Address,
    pub on_behalf_of: Address,
    pub amount: U256,
}

/// A repayment of a user's loan.
#[derive(Clone, Copy, Debug)]
pub struct Repay {
    pub reserve: Address,
    pub user: Address,
    pub amount: U256,
}

/// A user's deposit begins to count as collateral.
#[derive(Clone, Copy, Debug)]
pub struct ReserveUsedAsCollateralEnabled {
    pub reserve: Address,
    pub user: Address,
}

/// A user's deposit ceases to count as collateral.
#[derive(Clone, Copy, Debug)]
pub struct ReserveUsedAsCollateralDisabled {
    pub reserve: Address,
    pub user: Address,
}

/// A part of a user's debt was paid off against a part of the collateral.
#[derive(Clone, Copy, Debug)]
pub struct LiquidationCall {
    pub collateral_asset: Address,
    pub debt_asset: Address,
    pub user: Address,
    pub debt_to_cover: U256,
    pub liquidated_collateral_amount: U256,
}

/// The moments that bear on an event, in microseconds.
#[derive(Clone, Copy, Debug)]
pub struct Timing {
    /// When the event was received.
    pub rq_date: TimeStamp,
    /// The moment that is noted as that of a change.
    pub now: TimeStamp,
    /// The moment against which the age of a row is measured.
    pub clock: TimeStamp,
}

/// A row that was read from the pool longer ago than this, in microseconds, is
/// read again: one day.
pub const STALE_AFTER: i64 = 86_400_000_000;

/// What is to be done with an event on a known user.
#[derive(Clone, Copy, Debug, PartialEq, Eq, Structural)]
pub enum Decision {
    /// It is newer than the row: apply it.
    New,
    /// The row was read from the pool after it: there is nothing to do.
    Skip,
    /// It came in between, or the row is too old: read the row again.
    Sync,
}

/// Whether a row was read from the pool too long ago.
pub open spec fn stale(last_sync: TimeStamp, clock: TimeStamp) -> bool {
    clock - last_sync > STALE_AFTER
}

/// What is to be done with an event on a row.
pub open spec fn decision(row: RowState, at: Timing) -> Decision {
    if stale(row.last_sync, at.clock) {
        Decision::Sync
    } else if at.rq_date > row.last_modified {
        Decision::New
    } else if at.rq_date <= row.last_sync {
        Decision::Skip
    } else {
        Decision::Sync
    }
}

/// What is to be done with an event on a row.
pub fn handle_event(row: &Row, at: &Timing) -> (r: Decision)
    ensures
        r == decision(row@, *at),
{
    let sync_requested: bool = at.clock as i128 - row.last_sync as i128 > STALE_AFTER as i128;
    if !sync_requested && at.rq_date > row.last_modified {
        Decision::New
    } else if !sync_requested && at.rq_date <= row.last_sync {
        Decision::Skip
    } else {
        Decision::Sync
    }
}

/// What came of an event.
#[derive(Debug, PartialEq, Eq)]
pub enum Step {
    /// The user was filed; the caller reads the user's balances and calls
    /// [`create_user`].
    Create,
    /// The event was applied; the requests are to be sent.
    Applied(Vec<SyncRequest>),
    /// The event was skipped.
    Skipped,
    /// The caller reads the user's balances and calls [`resync_user`].
    Resync,
}

/// The value of a [`Step`].
pub enum StepState {
    Create,
    Applied(Seq<SyncRequest>),
    Skipped,
    Resync,
}

impl View for Step {
    type V = StepState;

    open spec fn view(&self) -> StepState {
        match self {
            Step::Create => StepState::Create,
            Step::Applied(requests) => StepState::Applied(requests@),
            Step::Skipped => StepState::Skipped,
            Step::Resync => StepState::Resync,
        }
    }
}

/// The value of what an event handler returned.
pub open spec fn step_result(r: Result<Step, Error>) -> Result<StepState, Error> {
    match r {
        Ok(step) => Ok(step@),
        Err(e) => Err(e),
    }
}

/// The rows of a side.
pub open spec fn rows_of(s: CacheState, side: Side) -> Seq<RowState> {
    match side {
        Side::Collateral => s.collateral,
        Side::Reserve => s.reserve,
        Side::Borrowed => s.borrowed,
    }
}

/// The state with other rows on a side.
pub open spec fn with_rows(s: CacheState, side: Side, rows: Seq<RowState>) -> CacheState {
    match side {
        Side::Collateral => CacheState { collateral: rows, ..s },
        Side::Reserve => CacheState { reserve: rows, ..s },
        Side::Borrowed => CacheState { borrowed: rows, ..s },
    }
}

/// The number of indexes that scale the amounts of a side.
pub open spec fn indexes_len(s: CacheState, side: Side) -> nat {
    match side {
        Side::Borrowed => s.variable_borrow.0.len(),
        _ => s.liquidity.0.len(),
    }
}

/// The index that scales the amounts of a side in a column.
pub open spec fn index_at(s: CacheState, side: Side, idx: int) -> nat {
    match side {
        Side::Borrowed => s.variable_borrow.0[idx].index,
        _ => s.liquidity.0[idx].index,
    }
}

/// A balance after a scaled amount was added to it or taken from it, modulo
/// 2^256.
pub open spec fn moved(balance: nat, scaled: nat, add: bool) -> nat {
    if add {
        (balance + scaled) % u256_modulus()
    } else {
        ((balance - scaled) % (u256_modulus() as int)) as nat
    }
}

/// A row after one of its balances was moved.
pub open spec fn moved_row(
    row: RowState,
    idx: int,
    scaled: nat,
    add: bool,
    now: TimeStamp,
) -> RowState {
    RowState {
        balances: row.balances.update(idx, moved(row.balances[idx], scaled, add)),
        last_modified: now,
        ..row
    }
}

/// The requests that follow from a change of one balance: a side with a matrix
/// is brought up to date.
pub open spec fn requests_for(side: Side, row: usize, idx: usize, rq_date: TimeStamp) -> Seq<
    SyncRequest,
> {
    match side {
        Side::Collateral => seq![SyncRequest::Collateral(SyncTarget::Cell(row, idx), rq_date)],
        Side::Borrowed => seq![SyncRequest::Borrowed(SyncTarget::Cell(row, idx), rq_date)],
        Side::Reserve => Seq::empty(),
    }
}

/// The side on which a user's amount of a token is kept: debts on the borrowed
/// side, deposits on the collateral side if the flag of the token is set and on
/// the reserve side if not.
pub open spec fn side_of(flags: Seq<bool>, idx: int, debt: bool) -> Side {
    if debt {
        Side::Borrowed
    } else if flags[idx] {
        Side::Collateral
    } else {
        Side::Reserve
    }
}

/// What comes of an event that moves an amount of a token: the state after it
/// and what its handler returns. `debt` tells loans from deposits and `add`
/// tells whether the amount grows.
pub open spec fn amount_event(
    s: CacheState,
    entries: Seq<(Address, TokenDetails)>,
    user: Address,
    token: Address,
    amount: nat,
    debt: bool,
    add: bool,
    at: Timing,
) -> (CacheState, Result<StepState, Error>) {
    let key = user.spec_key();
    if !s.users.contains_key(key) {
        (registered(s, key, entries.len()), Ok(StepState::Create))
    } else {
        match order_of(entries, token) {
            None => (s, Err(Error::TokenNotFound(token))),
            Some(idx) => {
                let (row, flags) = s.users[key];
                let side = side_of(flags, idx as int, debt);
                if row >= rows_of(s, side).len() {
                    (s, Err(Error::RowNotFound(side, row)))
                } else {
                    let state = rows_of(s, side)[row as int];
                    match decision(state, at) {
                        Decision::New => {
                            let scaled = scaled_units(
                                amount,
                                s.decimals.0[idx as int],
                                index_at(s, side, idx as int),
                            );
                            (
                                with_rows(
                                    s,
                                    side,
                                    rows_of(s, side).update(
                                        row as int,
                                        moved_row(state, idx as int, scaled, add, at.now),
                                    ),
                                ),
                                Ok(StepState::Applied(requests_for(side, row, idx, at.rq_date))),
                            )
                        },
                        Decision::Skip => (s, Ok(StepState::Skipped)),
                        Decision::Sync => (s, Ok(StepState::Resync)),
                    }
                }
            },
        }
    }
}

/// Whether a user can be filed: there is a next row number, and the flags of
/// all tokens can be held.
pub open spec fn fileable(s: CacheState, entries: Seq<(Address, TokenDetails)>) -> bool {
    s.users_num < usize::MAX && entries.len() <= usize::MAX / 8
}

/// Whether an amount can be moved in a column of a row: the column exists
/// everywhere, and the amount can be scaled.
pub open spec fn movable(s: CacheState, side: Side, row: int, idx: int, amount: nat) -> bool {
    &&& idx < s.decimals.0.len()
    &&& idx < indexes_len(s, side)
    &&& idx < rows_of(s, side)[row].balances.len()
    &&& scalable(amount, s.decimals.0[idx], index_at(s, side, idx))
}

/// Whether an event that moves an amount can be handled.
pub open spec fn amount_event_ok(
    s: CacheState,
    entries: Seq<(Address, TokenDetails)>,
    user: Address,
    token: Address,
    amount: nat,
    debt: bool,
    at: Timing,
) -> bool {
    let key = user.spec_key();
    if !s.users.contains_key(key) {
        fileable(s, entries)
    } else {
        match order_of(entries, token) {
            None => true,
            Some(idx) => {
                let (row, flags) = s.users[key];
                let side = side_of(flags, idx as int, debt);
                &&& debt || idx < flags.len()
                &&& row < rows_of(s, side).len() && decision(rows_of(s, side)[row as int], at)
                    == Decision::New ==> movable(s, side, row as int, idx as int, amount)
            },
        }
    }
}

/// Moves one balance of a row.
fn change_balance(
    rows: &mut Vec<Row>,
    row: usize,
    idx: usize,
    scaled: U256,
    add: bool,
    now: TimeStamp,
)
    requires
        row < old(rows)@.len(),
        idx < old(rows)@[row as int].balances@.len(),
    ensures
        row_states(final(rows)@) == row_states(old(rows)@).update(
            row as int,
            moved_row(row_states(old(rows)@)[row as int], idx as int, scaled@, add, now),
        ),
{
    let balance: U256 = rows[row].balances[idx];
    let changed: U256 = if add {
        balance.wrapping_add(scaled)
    } else {
        balance.wrapping_sub(scaled)
    };
    let target: &mut Row = &mut rows[row];
    target.balances.set(idx, changed);
    target.last_modified = now;
    assert(row_states(rows@) =~= row_states(old(rows)@).update(
        row as int,
        moved_row(row_states(old(rows)@)[row as int], idx as int, scaled@, add, now),
    ));
}

/// The requests that follow from a change of one balance.
fn requests_after(side: Side, row: usize, idx: usize, rq_date: TimeStamp) -> (r: Vec<SyncRequest>)
    ensures
        r@ == requests_for(side, row, idx, rq_date),
{
    let mut r: Vec<SyncRequest> = Vec::new();
    match side {
        Side::Collateral => {
            r.push(SyncRequest::Collateral(SyncTarget::Cell(row, idx), rq_date));
        },
        Side::Borrowed => {
            r.push(SyncRequest::Borrowed(SyncTarget::Cell(row, idx), rq_date));
        },
        Side::Reserve => {},
    }
    assert(r@ =~= requests_for(side, row, idx, rq_date));
    r
}

impl Cache {
    /// The rows of a side.
    pub fn side_rows(&self, side: Side) -> (r: &Vec<Row>)
        ensures
            row_states(r@) == rows_of(self@, side),
    {
        match side {
            Side::Collateral => &self.collateral,
            Side::Reserve => &self.reserve,
            Side::Borrowed => &self.borrowed,
        }
    }

    /// The index that scales the amounts of a side in a column.
    fn scaling_index(&self, side: Side, idx: usize) -> (r: U256)
        requires
            idx < indexes_len(self@, side),
        ensures
            r@ == index_at(self@, side, idx as int),
    {
        match side {
            Side::Borrowed => self.variable_borrow.values[idx].index,
            _ => self.liquidity.values[idx].index,
        }
    }

    /// Whether an amount can be moved in a column of a row.
    fn can_move(&self, side: Side, row: usize, idx: usize, amount: U256) -> (r: bool)
        requires
            row < rows_of(self@, side).len(),
        ensures
            r == movable(self@, side, row as int, idx as int, amount@),
    {
        let indexes: usize = match side {
            Side::Borrowed => self.variable_borrow.values.len(),
            _ => self.liquidity.values.len(),
        };
        let rows = self.side_rows(side);
        assert(row_states(rows@)[row as int] == rows@[row as int]@);
        idx < self.decimals.values.len() && idx < indexes && idx < rows[row].balances.len()
            && amount.scales(self.decimals.values[idx], self.scaling_index(side, idx))
    }

    /// Whether an event that moves an amount can be handled.
    fn admits_amount(
        &self,
        tokens: &Tokens,
        user: &Address,
        token: &Address,
        amount: U256,
        debt: bool,
        at: &Timing,
    ) -> (r: bool)
        ensures
            r == amount_event_ok(self@, tokens@, *user, *token, amount@, debt, *at),
    {
        let settings: UserSettings = match users_get(&self.users, user.key()) {
            Some(settings) => settings,
            None => {
                return self.users_num < usize::MAX && tokens.len() <= usize::MAX / 8;
            },
        };
        let idx: usize = match tokens.order(token) {
            Some(idx) => idx,
            None => return true,
        };
        if !debt && idx >= settings.use_as_collateral.len() {
            return false;
        }
        let side: Side = if debt {
            Side::Borrowed
        } else if settings.use_as_collateral.get(idx) {
            Side::Collateral
        } else {
            Side::Reserve
        };
        let row: usize = settings.row_num;
        let rows = self.side_rows(side);
        if row >= rows.len() {
            return true;
        }
        assert(row_states(rows@)[row as int] == rows@[row as int]@);
        match handle_event(&rows[row], at) {
            Decision::New => self.can_move(side, row, idx, amount),
            _ => true,
        }
    }

    /// Handles an event that moves an amount.
    fn move_amount(
        &mut self,
        tokens: &Tokens,
        user: &Address,
        token: &Address,
        amount: U256,
        debt: bool,
        add: bool,
        at: &Timing,
    ) -> (r: Result<Step, Error>)
        requires
            amount_event_ok(old(self)@, tokens@, *user, *token, amount@, debt, *at),
        ensures
            final(self)@ == amount_event(
                old(self)@,
                tokens@,
                *user,
                *token,
                amount@,
                debt,
                add,
                *at,
            ).0,
            step_result(r) == amount_event(
                old(self)@,
                tokens@,
                *user,
                *token,
                amount@,
                debt,
                add,
                *at,
            ).1,
    {
        if !self.init_user(user, tokens) {
            return Ok(Step::Create);
        }
        let settings: UserSettings = match users_get(&self.users, user.key()) {
            Some(settings) => settings,
            None => return Err(Error::UserNotFound(*user)),
        };
        let idx: usize = match tokens.order(token) {
            Some(idx) => idx,
            None => return Err(Error::TokenNotFound(*token)),
        };
        let side: Side = if debt {
            Side::Borrowed
        } else if settings.use_as_collateral.get(idx) {
            Side::Collateral
        } else {
            Side::Reserve
        };
        let row: usize = settings.row_num;
        let rows = self.side_rows(side);
        if row >= rows.len() {
            return Err(Error::RowNotFound(side, row));
        }
        assert(row_states(rows@)[row as int] == rows@[row as int]@);
        match handle_event(&rows[row], at) {
            Decision::New => {
                let scaled: U256 = amount.units_to_scaled(
                    self.decimals.values[idx],
                    self.scaling_index(side, idx),
                );
                match side {
                    Side::Collateral => change_balance(
                        &mut self.collateral,
                        row,
                        idx,
                        scaled,
                        add,
                        at.now,
                    ),
                    Side::Reserve => change_balance(
                        &mut self.reserve,
                        row,
                        idx,
                        scaled,
                        add,
                        at.now,
                    ),
                    Side::Borrowed => change_balance(
                        &mut self.borrowed,
                        row,
                        idx,
                        scaled,
                        add,
                        at.now,
                    ),
                }
                Ok(Step::Applied(requests_after(side, row, idx, at.rq_date)))
            },
            Decision::Skip => Ok(Step::Skipped),
            Decision::Sync => Ok(Step::Resync),
        }
    }
}

/// A user's settings with one flag written.
pub open spec fn flagged(settings: (usize, Seq<bool>), idx: int, value: bool) -> (
    usize,
    Seq<bool>,
) {
    (settings.0, settings.1.update(idx, value))
}

/// A row with one balance written.
pub open spec fn written_row(row: RowState, idx: int, value: nat, now: TimeStamp) -> RowState {
    RowState { balances: row.balances.update(idx, value), last_modified: now, ..row }
}

/// A row of which only the moment of change is written.
pub open spec fn touched_row(row: RowState, now: TimeStamp) -> RowState {
    RowState { last_modified: now, ..row }
}

/// What comes of a deposit beginning (`enable`) or ceasing to count as
/// collateral: the flag is written and the balance changes sides. The moments
/// of the reserve row decide. Without a collateral row the flag and the moment
/// of the reserve row are written all the same.
pub open spec fn collateral_event(
    s: CacheState,
    entries: Seq<(Address, TokenDetails)>,
    user: Address,
    token: Address,
    enable: bool,
    at: Timing,
) -> (CacheState, Result<StepState, Error>) {
    let key = user.spec_key();
    if !s.users.contains_key(key) {
        (registered(s, key, entries.len()), Ok(StepState::Create))
    } else {
        match order_of(entries, token) {
            None => (s, Err(Error::TokenNotFound(token))),
            Some(idx) => {
                let row = s.users[key].0;
                if row >= s.reserve.len() {
                    (s, Err(Error::RowNotFound(Side::Reserve, row)))
                } else {
                    let res = s.reserve[row as int];
                    match decision(res, at) {
                        Decision::New => {
                            let users = s.users.insert(
                                key,
                                flagged(s.users[key], idx as int, enable),
                            );
                            if row >= s.collateral.len() {
                                (
                                    CacheState {
                                        users,
                                        reserve: s.reserve.update(
                                            row as int,
                                            touched_row(res, at.now),
                                        ),
                                        ..s
                                    },
                                    Err(Error::RowNotFound(Side::Collateral, row)),
                                )
                            } else {
                                let col = s.collateral[row as int];
                                let (res_value, col_value) = if enable {
                                    (0, res.balances[idx as int])
                                } else {
                                    (col.balances[idx as int], 0)
                                };
                                (
                                    CacheState {
                                        users,
                                        reserve: s.reserve.update(
                                            row as int,
                                            written_row(res, idx as int, res_value, at.now),
                                        ),
                                        collateral: s.collateral.update(
                                            row as int,
                                            written_row(col, idx as int, col_value, at.now),
                                        ),
                                        ..s
                                    },
                                    Ok(
                                        StepState::Applied(
                                            requests_for(Side::Collateral, row, idx, at.rq_date),
                                        ),
                                    ),
                                )
                            }
                        },
                        Decision::Skip => (s, Ok(StepState::Skipped)),
                        Decision::Sync => (s, Ok(StepState::Resync)),
                    }
                }
            },
        }
    }
}

/// Whether an event that moves a balance between the reserve and the
/// collateral side can be handled.
pub open spec fn collateral_event_ok(
    s: CacheState,
    entries: Seq<(Address, TokenDetails)>,
    user: Address,
    token: Address,
    at: Timing,
) -> bool {
    let key = user.spec_key();
    if !s.users.contains_key(key) {
        fileable(s, entries)
    } else {
        match order_of(entries, token) {
            None => true,
            Some(idx) => {
                let (row, flags) = s.users[key];
                row < s.reserve.len() && decision(s.reserve[row as int], at) == Decision::New ==> {
                    &&& idx < flags.len()
                    &&& row < s.collateral.len() ==> idx < s.reserve[row as int].balances.len()
                        && idx < s.collateral[row as int].balances.len()
                }
            },
        }
    }
}

/// What comes of a liquidation: the covered debt and the liquidated collateral
/// are taken from the user's rows. The moments of the borrowed row decide.
pub open spec fn liquidation_event(
    s: CacheState,
    entries: Seq<(Address, TokenDetails)>,
    event: LiquidationCall,
    at: Timing,
) -> (CacheState, Result<StepState, Error>) {
    let key = event.user.spec_key();
    if !s.users.contains_key(key) {
        (registered(s, key, entries.len()), Ok(StepState::Create))
    } else {
        match (order_of(entries, event.debt_asset), order_of(entries, event.collateral_asset)) {
            (None, _) => (s, Err(Error::TokenNotFound(event.debt_asset))),
            (Some(_), None) => (s, Err(Error::TokenNotFound(event.collateral_asset))),
            (Some(bor_idx), Some(col_idx)) => {
                let row = s.users[key].0;
                if row >= s.borrowed.len() {
                    (s, Err(Error::RowNotFound(Side::Borrowed, row)))
                } else {
                    let bor = s.borrowed[row as int];
                    match decision(bor, at) {
                        Decision::New => if row >= s.collateral.len() {
                            (s, Err(Error::RowNotFound(Side::Collateral, row)))
                        } else {
                            let col = s.collateral[row as int];
                            let covered = scaled_units(
                                event.debt_to_cover@,
                                s.decimals.0[bor_idx as int],
                                s.variable_borrow.0[bor_idx as int].index,
                            );
                            let liquidated = scaled_units(
                                event.liquidated_collateral_amount@,
                                s.decimals.0[col_idx as int],
                                s.liquidity.0[col_idx as int].index,
                            );
                            (
                                CacheState {
                                    borrowed: s.borrowed.update(
                                        row as int,
                                        moved_row(bor, bor_idx as int, covered, false, at.now),
                                    ),
                                    collateral: s.collateral.update(
                                        row as int,
                                        moved_row(col, col_idx as int, liquidated, false, at.now),
                                    ),
                                    ..s
                                },
                                Ok(
                                    StepState::Applied(
                                        requests_for(Side::Collateral, row, col_idx, at.rq_date)
                                            + requests_for(
                                            Side::Borrowed,
                                            row,
                                            bor_idx,
                                            at.rq_date,
                                        ),
                                    ),
                                ),
                            )
                        },
                        Decision::Skip => (s, Ok(StepState::Skipped)),
                        Decision::Sync => (s, Ok(StepState::Resync)),
                    }
                }
            },
        }
    }
}

/// Whether a liquidation can be handled.
pub open spec fn liquidation_event_ok(
    s: CacheState,
    entries: Seq<(Address, TokenDetails)>,
    event: LiquidationCall,
    at: Timing,
) -> bool {
    let key = event.user.spec_key();
    if !s.users.contains_key(key) {
        fileable(s, entries)
    } else {
        match (order_of(entries, event.debt_asset), order_of(entries, event.collateral_asset)) {
            (Some(bor_idx), Some(col_idx)) => {
                let row = s.users[key].0;
                row < s.borrowed.len() && row < s.collateral.len() && decision(
                    s.borrowed[row as int],
                    at,
                ) == Decision::New ==> {
                    &&& movable(
                        s,
                        Side::Borrowed,
                        row as int,
                        bor_idx as int,
                        event.debt_to_cover@,
                    )
                    &&& movable(
                        s,
                        Side::Collateral,
                        row as int,
                        col_idx as int,
                        event.liquidated_collateral_amount@,
                    )
                }
            },
            _ => true,
        }
    }
}

/// Writes one balance of a row, or only the moment of change.
fn write_balance(
    rows: &mut Vec<Row>,
    row: usize,
    idx: usize,
    value: Option<U256>,
    now: TimeStamp,
)
    requires
        row < old(rows)@.len(),
        value is Some ==> idx < old(rows)@[row as int].balances@.len(),
    ensures
        row_states(final(rows)@) == row_states(old(rows)@).update(
            row as int,
            match value {
                Some(v) => written_row(row_states(old(rows)@)[row as int], idx as int, v@, now),
                None => touched_row(row_states(old(rows)@)[row as int], now),
            },
        ),
{
    let target: &mut Row = &mut rows[row];
    match value {
        Some(v) => {
            target.balances.set(idx, v);
        },
        None => {},
    }
    target.last_modified = now;
    assert(row_states(rows@) =~= row_states(old(rows)@).update(
        row as int,
        match value {
            Some(v) => written_row(row_states(old(rows)@)[row as int], idx as int, v@, now),
            None => touched_row(row_states(old(rows)@)[row as int], now),
        },
    ));
}

impl Cache {
    /// Whether an event that moves a balance between the reserve and the
    /// collateral side can be handled.
    fn admits_collateral(
        &self,
        tokens: &Tokens,
        user: &Address,
        token: &Address,
        at: &Timing,
    ) -> (r: bool)
        ensures
            r == collateral_event_ok(self@, tokens@, *user, *token, *at),
    {
        let settings: UserSettings = match users_get(&self.users, user.key()) {
            Some(settings) => settings,
            None => {
                return self.users_num < usize::MAX && tokens.len() <= usize::MAX / 8;
            },
        };
        let idx: usize = match tokens.order(token) {
            Some(idx) => idx,
            None => return true,
        };
        let row: usize = settings.row_num;
        if row >= self.reserve.len() {
            return true;
        }
        assert(self@.reserve[row as int] == self.reserve@[row as int]@);
        match handle_event(&self.reserve[row], at) {
            Decision::New => idx < settings.use_as_collateral.len() && (row
                >= self.collateral.len() || (idx < self.reserve[row].balances.len() && idx
                < self.collateral[row].balances.len())),
            _ => true,
        }
    }

    /// Handles a deposit beginning or ceasing to count as collateral.
    fn move_collateral(
        &mut self,
        tokens: &Tokens,
        user: &Address,
        token: &Address,
        enable: bool,
        at: &Timing,
    ) -> (r: Result<Step, Error>)
        requires
            collateral_event_ok(old(self)@, tokens@, *user, *token, *at),
        ensures
            (final(self)@, step_result(r)) == collateral_event(
                old(self)@,
                tokens@,
                *user,
                *token,
                enable,
                *at,
            ),
    {
        if !self.init_user(user, tokens) {
            return Ok(Step::Create);
        }
        let mut settings: UserSettings = match users_get(&self.users, user.key()) {
            Some(settings) => settings,
            None => return Err(Error::UserNotFound(*user)),
        };
        let idx: usize = match tokens.order(token) {
            Some(idx) => idx,
            None => return Err(Error::TokenNotFound(*token)),
        };
        let row: usize = settings.row_num;
        if row >= self.reserve.len() {
            return Err(Error::RowNotFound(Side::Reserve, row));
        }
        let ghost before = self@;
        assert(before.reserve[row as int] == self.reserve@[row as int]@);
        match handle_event(&self.reserve[row], at) {
            Decision::New => {
                settings.use_as_collateral.set(idx, enable);
                users_insert(&mut self.users, user.key(), settings);
                if row >= self.collateral.len() {
                    write_balance(&mut self.reserve, row, idx, None, at.now);
                    return Err(Error::RowNotFound(Side::Collateral, row));
                }
                assert(before.collateral[row as int] == self.collateral@[row as int]@);
                let res: U256 = if enable {
                    U256::zero()
                } else {
                    self.collateral[row].balances[idx]
                };
                let col: U256 = if enable {
                    self.reserve[row].balances[idx]
                } else {
                    U256::zero()
                };
                write_balance(&mut self.reserve, row, idx, Some(res), at.now);
                write_balance(&mut self.collateral, row, idx, Some(col), at.now);
                Ok(Step::Applied(requests_after(Side::Collateral, row, idx, at.rq_date)))
            },
            Decision::Skip => Ok(Step::Skipped),
            Decision::Sync => Ok(Step::Resync),
        }
    }

    /// Whether a liquidation can be handled.
    fn admits_liquidation(&self, tokens: &Tokens, event: &LiquidationCall, at: &Timing) -> (r: bool)
        ensures
            r == liquidation_event_ok(self@, tokens@, *event, *at),
    {
        let row: usize = match users_get(&self.users, event.user.key()) {
            Some(settings) => settings.row_num,
            None => {
                return self.users_num < usize::MAX && tokens.len() <= usize::MAX / 8;
            },
        };
        let bor_idx: usize = match tokens.order(&event.debt_asset) {
            Some(idx) => idx,
            None => return true,
        };
        let col_idx: usize = match tokens.order(&event.collateral_asset) {
            Some(idx) => idx,
            None => return true,
        };
        if row >= self.borrowed.len() || row >= self.collateral.len() {
            return true;
        }
        assert(self@.borrowed[row as int] == self.borrowed@[row as int]@);
        match handle_event(&self.borrowed[row], at) {
            Decision::New => self.can_move(Side::Borrowed, row, bor_idx, event.debt_to_cover)
                && self.can_move(
                Side::Collateral,
                row,
                col_idx,
                event.liquidated_collateral_amount,
            ),
            _ => true,
        }
    }
}

/// Handles a liquidation.
pub fn liquidation_call(
    cache: &mut Cache,
    tokens: &Tokens,
    event: &LiquidationCall,
    at: &Timing,
) -> (r: Result<Step, Error>)
    requires
        liquidation_event_ok(old(cache)@, tokens@, *event, *at),
    ensures
        (final(cache)@, step_result(r)) == liquidation_event(old(cache)@, tokens@, *event, *at),
{
    if !cache.init_user(&event.user, tokens) {
        return Ok(Step::Create);
    }
    let row: usize = match users_get(&cache.users, event.user.key()) {
        Some(settings) => settings.row_num,
        None => return Err(Error::UserNotFound(event.user)),
    };
    let bor_idx: usize = match tokens.order(&event.debt_asset) {
        Some(idx) => idx,
        None => return Err(Error::TokenNotFound(event.debt_asset)),
    };
    let col_idx: usize = match tokens.order(&event.collateral_asset) {
        Some(idx) => idx,
        None => return Err(Error::TokenNotFound(event.collateral_asset)),
    };
    if row >= cache.borrowed.len() {
        return Err(Error::RowNotFound(Side::Borrowed, row));
    }
    let ghost before = cache@;
    assert(before.borrowed[row as int] == cache.borrowed@[row as int]@);
    match handle_event(&cache.borrowed[row], at) {
        Decision::New => {
            if row >= cache.collateral.len() {
                return Err(Error::RowNotFound(Side::Collateral, row));
            }
            assert(before.collateral[row as int] == cache.collateral@[row as int]@);
            let covered: U256 = event.debt_to_cover.units_to_scaled(
                cache.decimals.values[bor_idx],
                cache.scaling_index(Side::Borrowed, bor_idx),
            );
            let liquidated: U256 = event.liquidated_collateral_amount.units_to_scaled(
                cache.decimals.values[col_idx],
                cache.scaling_index(Side::Collateral, col_idx),
            );
            change_balance(&mut cache.borrowed, row, bor_idx, covered, false, at.now);
            change_balance(&mut cache.collateral, row, col_idx, liquidated, false, at.now);
            let mut requests: Vec<SyncRequest> = requests_after(
                Side::Collateral,
                row,
                col_idx,
                at.rq_date,
            );
            requests.push(SyncRequest::Borrowed(SyncTarget::Cell(row, bor_idx), at.rq_date));
            assert(requests@ =~= requests_for(Side::Collateral, row, col_idx, at.rq_date)
                + requests_for(Side::Borrowed, row, bor_idx, at.rq_date));
            Ok(Step::Applied(requests))
        },
        Decision::Skip => Ok(Step::Skipped),
        Decision::Sync => Ok(Step::Resync),
    }
}

/// Handles a deposit beginning to count as collateral.
pub fn reserve_used_as_collateral_enabled(
    cache: &mut Cache,
    tokens: &Tokens,
    event: &ReserveUsedAsCollateralEnabled,
    at: &Timing,
) -> (r: Result<Step, Error>)
    requires
        collateral_event_ok(old(cache)@, tokens@, event.user, event.reserve, *at),
    ensures
        (final(cache)@, step_result(r)) == collateral_event(
            old(cache)@,
            tokens@,
            event.user,
            event.reserve,
            true,
            *at,
        ),
{
    cache.move_collateral(tokens, &event.user, &event.reserve, true, at)
}

/// Handles a deposit ceasing to count as collateral.
pub fn reserve_used_as_collateral_disabled(
    cache: &mut Cache,
    tokens: &Tokens,
    event: &ReserveUsedAsCollateralDisabled,
    at: &Timing,
) -> (r: Result<Step, Error>)
    requires
        collateral_event_ok(old(cache)@, tokens@, event.user, event.reserve, *at),
    ensures
        (final(cache)@, step_result(r)) == collateral_event(
            old(cache)@,
            tokens@,
            event.user,
            event.reserve,
            false,
            *at,
        ),
{
    cache.move_collateral(tokens, &event.user, &event.reserve, false, at)
}

/// Handles a deposit.
pub fn supply(cache: &mut Cache, tokens: &Tokens, event: &Supply, at: &Timing) -> (r: Result<
    Step,
    Error,
>)
    requires
        amount_event_ok(
            old(cache)@,
            tokens@,
            event.on_behalf_of,
            event.reserve,
            event.amount@,
            false,
            *at,
        ),
    ensures
        (final(cache)@, step_result(r)) == amount_event(
            old(cache)@,
            tokens@,
            event.on_behalf_of,
            event.reserve,
            event.amount@,
            false,
            true,
            *at,
        ),
{
    cache.move_amount(
        tokens,
        &event.on_behalf_of,
        &event.reserve,
        event.amount,
        false,
        true,
        at,
    )
}

/// Handles a withdrawal.
pub fn withdraw(cache: &mut Cache, tokens: &Tokens, event: &Withdraw, at: &Timing) -> (r: Result<
    Step,
    Error,
>)
    requires
        amount_event_ok(
            old(cache)@,
            tokens@,
            event.user,
            event.reserve,
            event.amount@,
            false,
            *at,
        ),
    ensures
        (final(cache)@, step_result(r)) == amount_event(
            old(cache)@,
            tokens@,
            event.user,
            event.reserve,
            event.amount@,
            false,
            false,
            *at,
        ),
{
    cache.move_amount(tokens, &event.user, &event.reserve, event.amount, false, false, at)
}

/// Handles a loan.
pub fn borrow(cache: &mut Cache, tokens: &Tokens, event: &Borrow, at: &Timing) -> (r: Result<
    Step,
    Error,
>)
    requires
        amount_event_ok(
            old(cache)@,
            tokens@,
            event.on_behalf_of,
            event.reserve,
            event.amount@,
            true,
            *at,
        ),
    ensures
        (final(cache)@, step_result(r)) == amount_event(
            old(cache)@,
            tokens@,
            event.on_behalf_of,
            event.reserve,
            event.amount@,
            true,
            true,
            *at,
        ),
{
    cache.move_amount(tokens, &event.on_behalf_of, &event.reserve, event.amount, true, true, at)
}

/// Handles a repayment.
pub fn repay(cache: &mut Cache, tokens: &Tokens, event: &Repay, at: &Timing) -> (r: Result<
    Step,
    Error,
>)
    requires
        amount_event_ok(
            old(cache)@,
            tokens@,
            event.user,
            event.reserve,
            event.amount@,
            true,
            *at,
        ),
    ensures
        (final(cache)@, step_result(r)) == amount_event(
            old(cache)@,
            tokens@,
            event.user,
            event.reserve,
            event.amount@,
            true,
            false,
            *at,
        ),
{
    cache.move_amount(tokens, &event.user, &event.reserve, event.amount, true, false, at)
}

/// The state without a user.
pub open spec fn forgotten(s: CacheState, key: (u32, u128)) -> CacheState {
    CacheState { users: s.users.remove(key), ..s }
}

/// What comes of reading a user from the pool: the state after it, and the
/// request that follows or the error. No reply is an error of the pool.
pub open spec fn resync(
    s: CacheState,
    entries: Seq<(Address, TokenDetails)>,
    user: Address,
    reply: Option<Seq<Fetched>>,
    at: Timing,
) -> (CacheState, Result<SyncRequest, Error>) {
    match reply {
        None => (s, Err(Error::Provider(user))),
        Some(fetched) => {
            let (t, e) = resynced(s, entries, user, fetched, at.now);
            match e {
                Some(e) => (t, Err(e)),
                None => (
                    t,
                    Ok(
                        SyncRequest::Both(
                            SyncTarget::Row(t.users[user.spec_key()].0),
                            at.rq_date,
                        ),
                    ),
                ),
            }
        },
    }
}

/// What comes of reading a user that was just filed: as for any user, but where
/// it fails the user is forgotten.
pub open spec fn creation(
    s: CacheState,
    entries: Seq<(Address, TokenDetails)>,
    user: Address,
    reply: Option<Seq<Fetched>>,
    at: Timing,
) -> (CacheState, Result<SyncRequest, Error>) {
    let (t, r) = resync(s, entries, user, reply, at);
    match r {
        Ok(request) => (t, Ok(request)),
        Err(e) => (forgotten(t, user.spec_key()), Err(e)),
    }
}

/// The contents of a reply.
pub open spec fn reply_contents(reply: Option<Vec<Fetched>>) -> Option<Seq<Fetched>> {
    match reply {
        Some(fetched) => Some(fetched@),
        None => None,
    }
}

/// Takes the pool's reply on a user whose row is to be read again; `None` if
/// the pool could not be asked.
pub fn resync_user(
    cache: &mut Cache,
    tokens: &Tokens,
    user: &Address,
    reply: Option<Vec<Fetched>>,
    at: &Timing,
) -> (r: Result<SyncRequest, Error>)
    requires
        reply is Some ==> user_usable(old(cache)@, tokens@, *user, reply->0@),
    ensures
        (final(cache)@, r) == resync(old(cache)@, tokens@, *user, reply_contents(reply), *at),
{
    let fetched: Vec<Fetched> = match reply {
        Some(fetched) => fetched,
        None => return Err(Error::Provider(*user)),
    };
    match cache.sync_user(user, tokens, &fetched, at.now) {
        Ok(_) => {},
        Err(e) => return Err(e),
    }
    match users_get(&cache.users, user.key()) {
        Some(settings) => Ok(SyncRequest::Both(SyncTarget::Row(settings.row_num), at.rq_date)),
        None => Err(Error::UserNotFound(*user)),
    }
}

/// Takes the pool's reply on a user that was just filed; `None` if the pool
/// could not be asked.
pub fn create_user(
    cache: &mut Cache,
    tokens: &Tokens,
    user: &Address,
    reply: Option<Vec<Fetched>>,
    at: &Timing,
) -> (r: Result<SyncRequest, Error>)
    requires
        reply is Some ==> user_usable(old(cache)@, tokens@, *user, reply->0@),
    ensures
        (final(cache)@, r) == creation(old(cache)@, tokens@, *user, reply_contents(reply), *at),
{
    match resync_user(cache, tokens, user, reply, at) {
        Ok(request) => Ok(request),
        Err(e) => {
            cache.remove_user(user);
            Err(e)
        },
    }
}

/// An event of the pool that bears on one user.
#[derive(Clone, Copy, Debug)]
pub enum UserEvent {
    Supply(Supply),
    Withdraw(Withdraw),
    Borrow(Borrow),
    Repay(Repay),
    ReserveUsedAsCollateralEnabled(ReserveUsedAsCollateralEnabled),
    ReserveUsedAsCollateralDisabled(ReserveUsedAsCollateralDisabled),
    LiquidationCall(LiquidationCall),
}

/// The user that an event bears on.
pub open spec fn user_of(event: UserEvent) -> Address {
    match event {
        UserEvent::Supply(ev) => ev.on_behalf_of,
        UserEvent::Withdraw(ev) => ev.user,
        UserEvent::Borrow(ev) => ev.on_behalf_of,
        UserEvent::Repay(ev) => ev.user,
        UserEvent::ReserveUsedAsCollateralEnabled(ev) => ev.user,
        UserEvent::ReserveUsedAsCollateralDisabled(ev) => ev.user,
        UserEvent::LiquidationCall(ev) => ev.user,
    }
}

/// What comes of an event.
pub open spec fn user_event(
    s: CacheState,
    entries: Seq<(Address, TokenDetails)>,
    event: UserEvent,
    at: Timing,
) -> (CacheState, Result<StepState, Error>) {
    match event {
        UserEvent::Supply(ev) => amount_event(
            s,
            entries,
            ev.on_behalf_of,
            ev.reserve,
            ev.amount@,
            false,
            true,
            at,
        ),
        UserEvent::Withdraw(ev) => amount_event(
            s,
            entries,
            ev.user,
            ev.reserve,
            ev.amount@,
            false,
            false,
            at,
        ),
        UserEvent::Borrow(ev) => amount_event(
            s,
            entries,
            ev.on_behalf_of,
            ev.reserve,
            ev.amount@,
            true,
            true,
            at,
        ),
        UserEvent::Repay(ev) => amount_event(
            s,
            entries,
            ev.user,
            ev.reserve,
            ev.amount@,
            true,
            false,
            at,
        ),
        UserEvent::ReserveUsedAsCollateralEnabled(ev) => collateral_event(
            s,
            entries,
            ev.user,
            ev.reserve,
            true,
            at,
        ),
        UserEvent::ReserveUsedAsCollateralDisabled(ev) => collateral_event(
            s,
            entries,
            ev.user,
            ev.reserve,
            false,
            at,
        ),
        UserEvent::LiquidationCall(ev) => liquidation_event(s, entries, ev, at),
    }
}

/// Whether an event can be handled.
pub open spec fn user_event_ok(
    s: CacheState,
    entries: Seq<(Address, TokenDetails)>,
    event: UserEvent,
    at: Timing,
) -> bool {
    match event {
        UserEvent::Supply(ev) => amount_event_ok(
            s,
            entries,
            ev.on_behalf_of,
            ev.reserve,
            ev.amount@,
            false,
            at,
        ),
        UserEvent::Withdraw(ev) => amount_event_ok(
            s,
            entries,
            ev.user,
            ev.reserve,
            ev.amount@,
            false,
            at,
        ),
        UserEvent::Borrow(ev) => amount_event_ok(
            s,
            entries,
            ev.on_behalf_of,
            ev.reserve,
            ev.amount@,
            true,
            at,
        ),
        UserEvent::Repay(ev) => amount_event_ok(
            s,
            entries,
            ev.user,
            ev.reserve,
            ev.amount@,
            true,
            at,
        ),
        UserEvent::ReserveUsedAsCollateralEnabled(ev) => collateral_event_ok(
            s,
            entries,
            ev.user,
            ev.reserve,
            at,
        ),
        UserEvent::ReserveUsedAsCollateralDisabled(ev) => collateral_event_ok(
            s,
            entries,
            ev.user,
            ev.reserve,
            at,
        ),
        UserEvent::LiquidationCall(ev) => liquidation_event_ok(s, entries, ev, at),
    }
}

/// Handles an event.
pub fn handle_user_event(cache: &mut Cache, tokens: &Tokens, event: &UserEvent, at: &Timing) -> (r:
    Result<Step, Error>)
    requires
        user_event_ok(old(cache)@, tokens@, *event, *at),
    ensures
        (final(cache)@, step_result(r)) == user_event(old(cache)@, tokens@, *event, *at),
{
    match event {
        UserEvent::Supply(ev) => supply(cache, tokens, ev, at),
        UserEvent::Withdraw(ev) => withdraw(cache, tokens, ev, at),
        UserEvent::Borrow(ev) => borrow(cache, tokens, ev, at),
        UserEvent::Repay(ev) => repay(cache, tokens, ev, at),
        UserEvent::ReserveUsedAsCollateralEnabled(ev) => reserve_used_as_collateral_enabled(
            cache,
            tokens,
            ev,
            at,
        ),
        UserEvent::ReserveUsedAsCollateralDisabled(ev) => reserve_used_as_collateral_disabled(
            cache,
            tokens,
            ev,
            at,
        ),
        UserEvent::LiquidationCall(ev) => liquidation_call(cache, tokens, ev, at),
    }
}

/// Whether the handler of an event can handle it.
pub fn admits_event(cache: &Cache, tokens: &Tokens, event: &UserEvent, at: &Timing) -> (r: bool)
    ensures
        r == user_event_ok(cache@, tokens@, *event, *at),
{
    match event {
        UserEvent::Supply(ev) => cache.admits_amount(
            tokens,
            &ev.on_behalf_of,
            &ev.reserve,
            ev.amount,
            false,
            at,
        ),
        UserEvent::Withdraw(ev) => cache.admits_amount(
            tokens,
            &ev.user,
            &ev.reserve,
            ev.amount,
            false,
            at,
        ),
        UserEvent::Borrow(ev) => cache.admits_amount(
            tokens,
            &ev.on_behalf_of,
            &ev.reserve,
            ev.amount,
            true,
            at,
        ),
        UserEvent::Repay(ev) => cache.admits_amount(
            tokens,
            &ev.user,
            &ev.reserve,
            ev.amount,
            true,
            at,
        ),
        UserEvent::ReserveUsedAsCollateralEnabled(ev) => cache.admits_collateral(
            tokens,
            &ev.user,
            &ev.reserve,
            at,
        ),
        UserEvent::ReserveUsedAsCollateralDisabled(ev) => cache.admits_collateral(
            tokens,
            &ev.user,
            &ev.reserve,
            at,
        ),
        UserEvent::LiquidationCall(ev) => cache.admits_liquidation(tokens, ev, at),
    }
}

/// The user that an event bears on.
pub fn event_user(event: &UserEvent) -> (r: Address)
    ensures
        r == user_of(*event),
{
    match event {
        UserEvent::Supply(ev) => ev.on_behalf_of,
        UserEvent::Withdraw(ev) => ev.user,
        UserEvent::Borrow(ev) => ev.on_behalf_of,
        UserEvent::Repay(ev) => ev.user,
        UserEvent::ReserveUsedAsCollateralEnabled(ev) => ev.user,
        UserEvent::ReserveUsedAsCollateralDisabled(ev) => ev.user,
        UserEvent::LiquidationCall(ev) => ev.user,
    }
}

} // verus!
