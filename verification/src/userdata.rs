//! Reading a user's balances from what the pool reported.
use vstd::prelude::*;
use crate::address::Address;
use crate::cache::{
    index_states, row_states, zero_balances, Cache, CacheState, Indexes, RayArray, Row, RowState,
};
use crate::float::F64;
use crate::matrix::{lemma_values_update, values};
use crate::ray::{scalable, scaled_units};
use crate::tokens::{lists, order_of, TokenDetails, Tokens};
use crate::types::{
    outcome, Error, Fetched, Index, IndexState, Side, TimeStamp, UserData, UserDataState, U40,
};
use crate::uint::U256;
use crate::users::{users_get, users_insert, UserSettings};

verus! {

broadcast use lemma_values_update;

/// The place, from `from` on, of the first report on a token that is not known.
pub open spec fn first_unknown(
    entries: Seq<(Address, TokenDetails)>,
    fetched: Seq<Fetched>,
    from: int,
) -> Option<int>
    decreases fetched.len() - from,
{
    if from >= fetched.len() {
        None
    } else if !lists(entries, fetched[from].token) {
        Some(from)
    } else {
        first_unknown(entries, fetched, from + 1)
    }
}

/// Whether a report is on the token at a column and, where `usage` says so,
/// has that use as collateral.
pub open spec fn reports(
    entries: Seq<(Address, TokenDetails)>,
    report: Fetched,
    column: int,
    usage: Option<bool>,
) -> bool {
    &&& order_of(entries, report.token) is Some
    &&& order_of(entries, report.token)->0 == column
    &&& usage is Some ==> report.user_reserve.usage_as_collateral_enabled == usage->0
}

/// The last of the first `k` reports on the token at a column with that use.
pub open spec fn last_report(
    entries: Seq<(Address, TokenDetails)>,
    fetched: Seq<Fetched>,
    k: nat,
    column: int,
    usage: Option<bool>,
) -> Option<int>
    decreases k,
{
    if k == 0 {
        None
    } else if reports(entries, fetched[k - 1], column, usage) {
        Some(k - 1)
    } else {
        last_report(entries, fetched, (k - 1) as nat, column, usage)
    }
}

/// The scaled deposit at a column, of the reports with that use.
pub open spec fn deposit_cell(
    entries: Seq<(Address, TokenDetails)>,
    decimals: Seq<F64>,
    fetched: Seq<Fetched>,
    k: nat,
    column: int,
    usage: bool,
) -> nat {
    match last_report(entries, fetched, k, column, Some(usage)) {
        Some(i) => scaled_units(
            fetched[i].user_reserve.current_atoken_balance@,
            decimals[column],
            fetched[i].reserve.liquidity_index@,
        ),
        None => 0,
    }
}

/// The scaled debt at a column.
pub open spec fn debt_cell(
    entries: Seq<(Address, TokenDetails)>,
    decimals: Seq<F64>,
    fetched: Seq<Fetched>,
    k: nat,
    column: int,
) -> nat {
    match last_report(entries, fetched, k, column, None) {
        Some(i) => scaled_units(
            fetched[i].user_reserve.current_variable_debt@,
            decimals[column],
            fetched[i].reserve.variable_borrow_index@,
        ),
        None => 0,
    }
}

/// The use as collateral at a column: the last reported one, or else the flag
/// as it was.
pub open spec fn flag_cell(
    entries: Seq<(Address, TokenDetails)>,
    fetched: Seq<Fetched>,
    k: nat,
    column: int,
    before: bool,
) -> bool {
    match last_report(entries, fetched, k, column, None) {
        Some(i) => fetched[i].user_reserve.usage_as_collateral_enabled,
        None => before,
    }
}

/// The numbers that a report gives of a reserve.
pub enum ReserveField {
    LiquidityIndex,
    LiquidityRate,
    VariableBorrowIndex,
    VariableBorrowRate,
}

/// One of the numbers that a report gives of a reserve.
pub open spec fn reserve_field(report: Fetched, field: ReserveField) -> nat {
    match field {
        ReserveField::LiquidityIndex => report.reserve.liquidity_index@,
        ReserveField::LiquidityRate => report.reserve.liquidity_rate@,
        ReserveField::VariableBorrowIndex => report.reserve.variable_borrow_index@,
        ReserveField::VariableBorrowRate => report.reserve.variable_borrow_rate@,
    }
}

/// One of the numbers of the last report on the token at a column, or zero.
pub open spec fn reserve_cell(
    entries: Seq<(Address, TokenDetails)>,
    fetched: Seq<Fetched>,
    k: nat,
    column: int,
    field: ReserveField,
) -> nat {
    match last_report(entries, fetched, k, column, None) {
        Some(i) => reserve_field(fetched[i], field),
        None => 0,
    }
}

/// The moment of the last report on the token at a column, or zero.
pub open spec fn moment_cell(
    entries: Seq<(Address, TokenDetails)>,
    fetched: Seq<Fetched>,
    k: nat,
    column: int,
) -> U40 {
    match last_report(entries, fetched, k, column, None) {
        Some(i) => fetched[i].reserve.last_update_timestamp,
        None => U40 { high: 0, low: 0 },
    }
}

/// What the first `k` reports say of a user with the given settings, when
/// there are `entries.len()` tokens.
pub open spec fn reported(
    entries: Seq<(Address, TokenDetails)>,
    decimals: Seq<F64>,
    fetched: Seq<Fetched>,
    k: nat,
    settings: (usize, Seq<bool>),
) -> UserDataState {
    let n = entries.len();
    UserDataState {
        reserve_scaled: Seq::new(
            n,
            |c: int| deposit_cell(entries, decimals, fetched, k, c, false),
        ),
        collateral_scaled: Seq::new(
            n,
            |c: int| deposit_cell(entries, decimals, fetched, k, c, true),
        ),
        borrowed_scaled: Seq::new(n, |c: int| debt_cell(entries, decimals, fetched, k, c)),
        liquidity_indexes: Seq::new(
            n,
            |c: int| reserve_cell(entries, fetched, k, c, ReserveField::LiquidityIndex),
        ),
        liquidity_rates: Seq::new(
            n,
            |c: int| reserve_cell(entries, fetched, k, c, ReserveField::LiquidityRate),
        ),
        variable_borrow_indexes: Seq::new(
            n,
            |c: int|
                reserve_cell(
                    entries,
                    fetched,
                    k,
                    c,
                    ReserveField::VariableBorrowIndex,
                ),
        ),
        variable_borrow_rates: Seq::new(
            n,
            |c: int|
                reserve_cell(entries, fetched, k, c, ReserveField::VariableBorrowRate),
        ),
        last_update_timestamps: Seq::new(n, |c: int| moment_cell(entries, fetched, k, c)),
        user_settings: (
            settings.0,
            Seq::new(
                settings.1.len(),
                |c: int| flag_cell(entries, fetched, k, c, settings.1[c]),
            ),
        ),
    }
}

/// Whether a report on a known token can be taken over: its column exists
/// everywhere, and its amounts can be scaled.
pub open spec fn report_usable(
    entries: Seq<(Address, TokenDetails)>,
    decimals: Seq<F64>,
    flags: nat,
    report: Fetched,
) -> bool {
    let column = order_of(entries, report.token)->0;
    &&& column < entries.len()
    &&& column < decimals.len()
    &&& column < flags
    &&& scalable(
        report.user_reserve.current_atoken_balance@,
        decimals[column as int],
        report.reserve.liquidity_index@,
    )
    &&& scalable(
        report.user_reserve.current_variable_debt@,
        decimals[column as int],
        report.reserve.variable_borrow_index@,
    )
}

/// Whether every report before the first on an unknown token can be taken over.
pub open spec fn reports_usable(
    entries: Seq<(Address, TokenDetails)>,
    decimals: Seq<F64>,
    flags: nat,
    fetched: Seq<Fetched>,
) -> bool {
    forall|i: int|
        0 <= i < fetched.len() && (first_unknown(entries, fetched, 0) is Some ==> i < first_unknown(
            entries,
            fetched,
            0,
        )->0) ==> report_usable(entries, decimals, flags, #[trigger] fetched[i])
}

/// Whether the reports on a user can be taken over.
pub open spec fn user_usable(
    s: CacheState,
    entries: Seq<(Address, TokenDetails)>,
    user: Address,
    fetched: Seq<Fetched>,
) -> bool {
    s.users.contains_key(user.spec_key()) ==> reports_usable(
        entries,
        s.decimals.0,
        s.users[user.spec_key()].1.len(),
        fetched,
    )
}

/// The data of a user, or the reason why there is none.
pub open spec fn user_data(
    s: CacheState,
    entries: Seq<(Address, TokenDetails)>,
    user: Address,
    fetched: Seq<Fetched>,
) -> Result<UserDataState, Error> {
    if !s.users.contains_key(user.spec_key()) {
        Err(Error::UserNotFound(user))
    } else if first_unknown(entries, fetched, 0) is Some {
        Err(Error::TokenNotFound(fetched[first_unknown(entries, fetched, 0)->0].token))
    } else {
        Ok(
            reported(
                entries,
                s.decimals.0,
                fetched,
                fetched.len(),
                s.users[user.spec_key()],
            ),
        )
    }
}

/// The indexes of a list of numbers: index, rate and the moment in
/// microseconds of each column.
pub open spec fn dated_indexes(indexes: Seq<nat>, rates: Seq<nat>, moments: Seq<U40>) -> Seq<
    IndexState,
> {
    Seq::new(
        indexes.len(),
        |i: int|
            IndexState {
                index: indexes[i],
                rate: rates[i],
                last_update: moments[i].spec_micros() as i64,
            },
    )
}

/// A row that was just read from the pool.
pub open spec fn fresh_row(balances: Seq<nat>, now: TimeStamp) -> RowState {
    RowState { balances, last_sync: now, last_modified: now }
}

/// The state after a user's data was taken over into the user's row, and the
/// error if there is one. The settings are filed first; then the three rows are
/// replaced in turn, up to the first that does not exist; then the indexes.
pub open spec fn taken_over(
    s: CacheState,
    key: (u32, u128),
    data: UserDataState,
    now: TimeStamp,
) -> (CacheState, Option<Error>) {
    let row = s.users[key].0;
    let filed = CacheState { users: s.users.insert(key, data.user_settings), ..s };
    if row >= s.collateral.len() {
        (filed, Some(Error::RowNotFound(Side::Collateral, row)))
    } else {
        let with_collateral = CacheState {
            collateral: s.collateral.update(row as int, fresh_row(data.collateral_scaled, now)),
            ..filed
        };
        if row >= s.reserve.len() {
            (with_collateral, Some(Error::RowNotFound(Side::Reserve, row)))
        } else {
            let with_reserve = CacheState {
                reserve: s.reserve.update(row as int, fresh_row(data.reserve_scaled, now)),
                ..with_collateral
            };
            if row >= s.borrowed.len() {
                (with_reserve, Some(Error::RowNotFound(Side::Borrowed, row)))
            } else {
                (
                    CacheState {
                        borrowed: s.borrowed.update(
                            row as int,
                            fresh_row(data.borrowed_scaled, now),
                        ),
                        liquidity: (
                            dated_indexes(
                                data.liquidity_indexes,
                                data.liquidity_rates,
                                data.last_update_timestamps,
                            ),
                            now,
                        ),
                        liquidity_index: (data.liquidity_indexes, now),
                        variable_borrow: (
                            dated_indexes(
                                data.variable_borrow_indexes,
                                data.variable_borrow_rates,
                                data.last_update_timestamps,
                            ),
                            now,
                        ),
                        variable_borrow_index: (data.variable_borrow_indexes, now),
                        ..with_reserve
                    },
                    None,
                )
            }
        }
    }
}

/// The state after a user was read from the pool, and the error if there is
/// one.
pub open spec fn resynced(
    s: CacheState,
    entries: Seq<(Address, TokenDetails)>,
    user: Address,
    fetched: Seq<Fetched>,
    now: TimeStamp,
) -> (CacheState, Option<Error>) {
    match user_data(s, entries, user, fetched) {
        Ok(data) => taken_over(s, user.spec_key(), data, now),
        Err(e) => (s, Some(e)),
    }
}

proof fn lemma_first_unknown(
    entries: Seq<(Address, TokenDetails)>,
    fetched: Seq<Fetched>,
    from: int,
)
    requires
        0 <= from,
    ensures
        match first_unknown(entries, fetched, from) {
            Some(i) => from <= i < fetched.len() && !lists(entries, fetched[i].token),
            None => true,
        },
        forall|i: int|
            from <= i < fetched.len() && (first_unknown(entries, fetched, from) is Some ==> i
                < first_unknown(entries, fetched, from)->0) ==> lists(
                entries,
                #[trigger] fetched[i].token,
            ),
    decreases fetched.len() - from,
{
    if from < fetched.len() && lists(entries, fetched[from].token) {
        lemma_first_unknown(entries, fetched, from + 1);
    }
}

impl Cache {
    /// A user's balances, from what the pool reported of the user.
    pub fn get_user_data(&self, tokens: &Tokens, user: &Address, fetched: &Vec<Fetched>) -> (r:
        Result<UserData, Error>)
        requires
            user_usable(self@, tokens@, *user, fetched@),
        ensures
            match r {
                Ok(data) => user_data(self@, tokens@, *user, fetched@) == Ok::<_, Error>(data@),
                Err(e) => user_data(self@, tokens@, *user, fetched@) == Err::<
                    UserDataState,
                    Error,
                >(e),
            },
    {
        let mut user_settings: UserSettings = match users_get(&self.users, user.key()) {
            Some(settings) => settings,
            None => return Err(Error::UserNotFound(*user)),
        };
        let n: usize = tokens.len();
        let mut reserve_scaled: Vec<U256> = zero_balances(n);
        let mut collateral_scaled: Vec<U256> = zero_balances(n);
        let mut borrowed_scaled: Vec<U256> = zero_balances(n);
        let mut liquidity_indexes: Vec<U256> = zero_balances(n);
        let mut liquidity_rates: Vec<U256> = zero_balances(n);
        let mut variable_borrow_indexes: Vec<U256> = zero_balances(n);
        let mut variable_borrow_rates: Vec<U256> = zero_balances(n);
        let mut last_update_timestamps: Vec<U40> = zero_moments(n);
        let ghost settings = self@.users[user.spec_key()];
        let ghost decimals = self@.decimals.0;
        proof {
            let d = reported(tokens@, decimals, fetched@, 0, settings);
            assert(values(reserve_scaled@) =~= d.reserve_scaled);
            assert(values(collateral_scaled@) =~= d.collateral_scaled);
            assert(values(borrowed_scaled@) =~= d.borrowed_scaled);
            assert(values(liquidity_indexes@) =~= d.liquidity_indexes);
            assert(values(liquidity_rates@) =~= d.liquidity_rates);
            assert(values(variable_borrow_indexes@) =~= d.variable_borrow_indexes);
            assert(values(variable_borrow_rates@) =~= d.variable_borrow_rates);
            assert(last_update_timestamps@ =~= d.last_update_timestamps);
            assert(user_settings@.1 =~= d.user_settings.1);
            lemma_first_unknown(tokens@, fetched@, 0);
        }
        let mut k: usize = 0;
        while k < fetched.len()
            invariant
                k <= fetched@.len(),
                n == tokens@.len(),
                settings == self@.users[user.spec_key()],
                decimals == self@.decimals.0,
                self@.users.contains_key(user.spec_key()),
                first_unknown(tokens@, fetched@, 0) == first_unknown(tokens@, fetched@, k as int),
                reports_usable(tokens@, decimals, settings.1.len(), fetched@),
                reserve_scaled@.len() == n,
                collateral_scaled@.len() == n,
                borrowed_scaled@.len() == n,
                liquidity_indexes@.len() == n,
                liquidity_rates@.len() == n,
                variable_borrow_indexes@.len() == n,
                variable_borrow_rates@.len() == n,
                last_update_timestamps@.len() == n,
                user_settings@.1.len() == settings.1.len(),
                ({
                    let d = reported(tokens@, decimals, fetched@, k as nat, settings);
                    &&& values(reserve_scaled@) == d.reserve_scaled
                    &&& values(collateral_scaled@) == d.collateral_scaled
                    &&& values(borrowed_scaled@) == d.borrowed_scaled
                    &&& values(liquidity_indexes@) == d.liquidity_indexes
                    &&& values(liquidity_rates@) == d.liquidity_rates
                    &&& values(variable_borrow_indexes@) == d.variable_borrow_indexes
                    &&& values(variable_borrow_rates@) == d.variable_borrow_rates
                    &&& last_update_timestamps@ == d.last_update_timestamps
                    &&& user_settings@ == d.user_settings
                }),
            decreases fetched@.len() - k,
        {
            let report: Fetched = fetched[k];
            let idx: usize = match tokens.order(&report.token) {
                Some(order) => order,
                None => return Err(Error::TokenNotFound(report.token)),
            };
            proof {
                lemma_first_unknown(tokens@, fetched@, k as int);
                assert(report_usable(tokens@, decimals, settings.1.len(), fetched@[k as int]));
            }
            let ghost before = reported(tokens@, decimals, fetched@, k as nat, settings);
            let ghost after = reported(tokens@, decimals, fetched@, (k + 1) as nat, settings);
            liquidity_indexes.set(idx, report.reserve.liquidity_index);
            liquidity_rates.set(idx, report.reserve.liquidity_rate);
            variable_borrow_indexes.set(idx, report.reserve.variable_borrow_index);
            variable_borrow_rates.set(idx, report.reserve.variable_borrow_rate);
            last_update_timestamps.set(idx, report.reserve.last_update_timestamp);
            let deposit: U256 = report.user_reserve.current_atoken_balance.units_to_scaled(
                self.decimals.values[idx],
                report.reserve.liquidity_index,
            );
            let usage: bool = report.user_reserve.usage_as_collateral_enabled;
            if usage {
                collateral_scaled.set(idx, deposit);
            } else {
                reserve_scaled.set(idx, deposit);
            }
            user_settings.use_as_collateral.set(idx, usage);
            let debt: U256 = report.user_reserve.current_variable_debt.units_to_scaled(
                self.decimals.values[idx],
                report.reserve.variable_borrow_index,
            );
            borrowed_scaled.set(idx, debt);
            proof {
                assert(values(liquidity_indexes@) =~= after.liquidity_indexes);
                assert(values(liquidity_rates@) =~= after.liquidity_rates);
                assert(values(variable_borrow_indexes@) =~= after.variable_borrow_indexes);
                assert(values(variable_borrow_rates@) =~= after.variable_borrow_rates);
                assert(last_update_timestamps@ =~= after.last_update_timestamps);
                assert(values(collateral_scaled@) =~= after.collateral_scaled);
                assert(values(reserve_scaled@) =~= after.reserve_scaled);
                assert(values(borrowed_scaled@) =~= after.borrowed_scaled);
                assert(user_settings@.1 =~= after.user_settings.1);
            }
            k = k + 1;
        }
        Ok(
            UserData::new(
                reserve_scaled,
                collateral_scaled,
                borrowed_scaled,
                liquidity_indexes,
                liquidity_rates,
                variable_borrow_indexes,
                variable_borrow_rates,
                last_update_timestamps,
                user_settings,
            ),
        )
    }
}

/// The indexes of three vectors of one length.
fn date_indexes(indexes: &Vec<U256>, rates: &Vec<U256>, moments: &Vec<U40>) -> (r: Vec<Index>)
    requires
        indexes@.len() == rates@.len() == moments@.len(),
    ensures
        index_states(r@) == dated_indexes(values(indexes@), values(rates@), moments@),
{
    let mut r: Vec<Index> = Vec::new();
    let mut i: usize = 0;
    while i < indexes.len()
        invariant
            i <= indexes@.len() == rates@.len() == moments@.len(),
            r@.len() == i,
            forall|j: int|
                0 <= j < i ==> #[trigger] r@[j]@ == dated_indexes(
                    values(indexes@),
                    values(rates@),
                    moments@,
                )[j],
        decreases indexes@.len() - i,
    {
        r.push(Index::new(indexes[i], rates[i], moments[i].micros()));
        i = i + 1;
    }
    assert(index_states(r@) =~= dated_indexes(values(indexes@), values(rates@), moments@));
    r
}

/// Replaces a row by balances that were just read from the pool.
fn refresh_row(rows: &mut Vec<Row>, row: usize, balances: Vec<U256>, now: TimeStamp)
    requires
        row < old(rows)@.len(),
    ensures
        row_states(final(rows)@) == row_states(old(rows)@).update(
            row as int,
            fresh_row(values(balances@), now),
        ),
{
    rows.set(row, Row { balances, last_sync: now, last_modified: now });
    assert(row_states(rows@) =~= row_states(old(rows)@).update(
        row as int,
        fresh_row(values(balances@), now),
    ));
}

impl Cache {
    /// Replaces a user's rows and the indexes of all tokens by what the pool
    /// reported.
    pub fn sync_user(
        &mut self,
        user: &Address,
        tokens: &Tokens,
        fetched: &Vec<Fetched>,
        now: TimeStamp,
    ) -> (r: Result<(), Error>)
        requires
            user_usable(old(self)@, tokens@, *user, fetched@),
        ensures
            final(self)@ == resynced(old(self)@, tokens@, *user, fetched@, now).0,
            r == outcome(resynced(old(self)@, tokens@, *user, fetched@, now).1),
    {
        let data: UserData = match self.get_user_data(tokens, user, fetched) {
            Ok(data) => data,
            Err(e) => return Err(e),
        };
        let ghost d = data@;
        let row_num: usize = data.user_settings.row_num;
        users_insert(&mut self.users, user.key(), data.user_settings);
        if row_num >= self.collateral.len() {
            return Err(Error::RowNotFound(Side::Collateral, row_num));
        }
        refresh_row(&mut self.collateral, row_num, data.collateral_scaled, now);
        if row_num >= self.reserve.len() {
            return Err(Error::RowNotFound(Side::Reserve, row_num));
        }
        refresh_row(&mut self.reserve, row_num, data.reserve_scaled, now);
        if row_num >= self.borrowed.len() {
            return Err(Error::RowNotFound(Side::Borrowed, row_num));
        }
        refresh_row(&mut self.borrowed, row_num, data.borrowed_scaled, now);
        proof {
            assert(data.liquidity_indexes@.len() == d.liquidity_indexes.len());
            assert(data.liquidity_rates@.len() == d.liquidity_rates.len());
            assert(data.variable_borrow_indexes@.len() == d.variable_borrow_indexes.len());
            assert(data.variable_borrow_rates@.len() == d.variable_borrow_rates.len());
            assert(data.last_update_timestamps@.len() == d.last_update_timestamps.len());
        }
        self.liquidity = Indexes {
            values: date_indexes(
                &data.liquidity_indexes,
                &data.liquidity_rates,
                &data.last_update_timestamps,
            ),
            last_modified: now,
        };
        self.liquidity_index = RayArray { values: data.liquidity_indexes, last_modified: now };
        self.variable_borrow = Indexes {
            values: date_indexes(
                &data.variable_borrow_indexes,
                &data.variable_borrow_rates,
                &data.last_update_timestamps,
            ),
            last_modified: now,
        };
        self.variable_borrow_index = RayArray {
            values: data.variable_borrow_indexes,
            last_modified: now,
        };
        Ok(())
    }

    /// Whether [`Cache::get_user_data`] and [`Cache::sync_user`] can take over
    /// what the pool reported of a user.
    pub fn admits_reports(&self, tokens: &Tokens, user: &Address, fetched: &Vec<Fetched>) -> (r:
        bool)
        ensures
            r == user_usable(self@, tokens@, *user, fetched@),
    {
        let flags: usize = match users_get(&self.users, user.key()) {
            Some(settings) => settings.use_as_collateral.len(),
            None => return true,
        };
        let n: usize = tokens.len();
        proof {
            lemma_first_unknown(tokens@, fetched@, 0);
        }
        let mut k: usize = 0;
        while k < fetched.len()
            invariant
                k <= fetched@.len(),
                n == tokens@.len(),
                self@.users.contains_key(user.spec_key()),
                flags == self@.users[user.spec_key()].1.len(),
                first_unknown(tokens@, fetched@, 0) == first_unknown(tokens@, fetched@, k as int),
                forall|i: int|
                    0 <= i < k ==> report_usable(
                        tokens@,
                        self@.decimals.0,
                        flags as nat,
                        #[trigger] fetched@[i],
                    ),
            decreases fetched@.len() - k,
        {
            let report: Fetched = fetched[k];
            proof {
                lemma_first_unknown(tokens@, fetched@, k as int);
            }
            match tokens.order(&report.token) {
                Some(idx) => {
                    let usable: bool = idx < n && idx < self.decimals.values.len() && idx < flags
                        && report.user_reserve.current_atoken_balance.scales(
                        self.decimals.values[idx],
                        report.reserve.liquidity_index,
                    ) && report.user_reserve.current_variable_debt.scales(
                        self.decimals.values[idx],
                        report.reserve.variable_borrow_index,
                    );
                    if !usable {
                        assert(!report_usable(
                            tokens@,
                            self@.decimals.0,
                            flags as nat,
                            fetched@[k as int],
                        ));
                        return false;
                    }
                },
                None => {
                    return true;
                },
            }
            k = k + 1;
        }
        true
    }
}

fn zero_moments(n: usize) -> (r: Vec<U40>)
    ensures
        r@ == Seq::new(n as nat, |i: int| U40 { high: 0, low: 0 }),
{
    let mut r: Vec<U40> = Vec::new();
    let mut i: usize = 0;
    while i < n
        invariant
            i <= n,
            r@.len() == i,
            forall|j: int| 0 <= j < i ==> #[trigger] r@[j] == (U40 { high: 0, low: 0 }),
        decreases n - i,
    {
        r.push(U40 { high: 0, low: 0 });
        i = i + 1;
    }
    assert(r@ =~= Seq::new(n as nat, |i: int| U40 { high: 0, low: 0 }));
    r
}

} // verus!
