//! What the operations do to the state, field by field.
//!
//! Each statement names the balances, flags, indexes and moments that an
//! operation changes and what they become, and says of the rest that it stays.
use vstd::prelude::*;
use crate::address::Address;
use crate::cache::{
    blank_state, columns_in_range, initialised, last_at_column, registered, Cache, CacheState,
    MatrixState, Row, RowState,
};
use crate::events::{
    amount_event, amount_event_ok, collateral_event, collateral_event_ok, creation, forgotten,
    liquidation_event, liquidation_event_ok, resync, user_event, user_event_ok, user_of,
    LiquidationCall, StepState, Timing, UserEvent,
};
use crate::float::F64;
use crate::health::{currentable, hf_computable, hf_error};
use crate::laws::{column_of, law_reading_takes_over_reports, one_report_each, sound};
use crate::market::{last_threshold, price_update, thresholds_by_column};
use crate::matrix::{matrix_rows, matrix_width, shape_encodable};
use crate::number_laws::{
    interest_added, law_amounts_computable, law_interest_added, law_interest_computable,
    law_scalable, one,
};
use crate::ray::{scalable, scaled_units};
use crate::reserves::{
    accruable, accrued, column_accruable, has_column, reserve_update, reserve_update_ok,
    ReserveDataUpdated,
};
use crate::sync::{
    grown, lemma_grown, lemma_grown_complete, row_fits, servable, served, synced, syncable,
};
use crate::tokens::{
    addresses_distinct, details_of, filed, listing, lists, order_of, place_of, FoundToken,
    TokenDetails,
};
use crate::types::{
    Error, Fetched, HFRequest, Index, IndexState, Side, SyncRequest, SyncTarget, TimeStamp,
};
use crate::uint::u256_modulus;
use crate::userdata::{first_unknown, report_usable, resynced, user_usable};
use crate::users::users_contents;

verus! {

// ---- what the state is ----
/// Whether a row's value is the row.
pub open spec fn row_shown(shown: RowState, row: Row) -> bool {
    &&& shown.last_sync == row.last_sync
    &&& shown.last_modified == row.last_modified
    &&& shown.balances.len() == row.balances@.len()
    &&& forall|i: int|
        0 <= i < row.balances@.len() ==> #[trigger] shown.balances[i] == row.balances@[i]@
}

/// Whether the values of rows are the rows.
pub open spec fn rows_shown(shown: Seq<RowState>, rows: Seq<Row>) -> bool {
    &&& shown.len() == rows.len()
    &&& forall|i: int| 0 <= i < rows.len() ==> #[trigger] row_shown(shown[i], rows[i])
}

/// Whether the values of indexes are the indexes.
pub open spec fn indexes_shown(shown: Seq<IndexState>, indexes: Seq<Index>) -> bool {
    &&& shown.len() == indexes.len()
    &&& forall|i: int|
        0 <= i < indexes.len() ==> (#[trigger] shown[i]).index == indexes[i].index@ && shown[i].rate
            == indexes[i].rate@ && shown[i].last_update == indexes[i].last_update
}

/// Whether the values of rays are the rays.
pub open spec fn rays_shown(shown: Seq<nat>, rays: Seq<crate::uint::U256>) -> bool {
    &&& shown.len() == rays.len()
    &&& forall|i: int| 0 <= i < rays.len() ==> #[trigger] shown[i] == rays[i]@
}

/// The state that the contracts speak of is what the cache holds, in every
/// field.
pub proof fn law_state_shows_cache(c: Cache)
    ensures
        c@.users == users_contents(c.users),
        c@.users_num == c.users_num,
        c@.decimals == (c.decimals.values@, c.decimals.last_modified),
        c@.tokens == (c.tokens.values@, c.tokens.last_modified),
        c@.price_decimals == (c.price_decimals.values@, c.price_decimals.last_modified),
        c@.liquidation_threshold == (
            c.liquidation_threshold.values@,
            c.liquidation_threshold.last_modified,
        ),
        c@.prices == (c.prices.values@, c.prices.last_modified),
        c@.health_factors == (c.health_factors.values@, c.health_factors.last_modified),
        rows_shown(c@.reserve, c.reserve@),
        rows_shown(c@.collateral, c.collateral@),
        rows_shown(c@.borrowed, c.borrowed@),
        c@.collateral_matrix.rows == matrix_rows(c.collateral_matrix),
        c@.collateral_matrix.width == matrix_width(c.collateral_matrix),
        c@.borrowed_matrix.rows == matrix_rows(c.borrowed_matrix),
        c@.borrowed_matrix.width == matrix_width(c.borrowed_matrix),
        indexes_shown(c@.liquidity.0, c.liquidity.values@),
        c@.liquidity.1 == c.liquidity.last_modified,
        indexes_shown(c@.variable_borrow.0, c.variable_borrow.values@),
        c@.variable_borrow.1 == c.variable_borrow.last_modified,
        rays_shown(c@.liquidity_index.0, c.liquidity_index.values@),
        c@.liquidity_index.1 == c.liquidity_index.last_modified,
        rays_shown(c@.variable_borrow_index.0, c.variable_borrow_index.values@),
        c@.variable_borrow_index.1 == c.variable_borrow_index.last_modified,
{
}

/// No two addresses are filed under one key.
pub proof fn law_keys_tell_addresses(a: Address, b: Address)
    ensures
        a.spec_key() == b.spec_key() <==> a == b,
        a.spec_key() == (a.high, a.low),
{
}

// ---- tokens ----
/// A token that was filed is found with its details, and every other token as
/// before.
pub proof fn law_filed_token_is_found(
    entries: Seq<(Address, TokenDetails)>,
    token: Address,
    details: TokenDetails,
    other: Address,
)
    requires
        addresses_distinct(entries),
        other != token,
    ensures
        addresses_distinct(filed(entries, token, details)),
        order_of(filed(entries, token, details), token) == Some(details.order),
        order_of(filed(entries, token, details), other) == order_of(entries, other),
        lists(filed(entries, token, details), token),
        ({
            let i = place_of(filed(entries, token, details), token);
            filed(entries, token, details)[i] == (token, details)
        }),
{
    let after = filed(entries, token, details);
    if lists(entries, token) {
        let p = place_of(entries, token);
        assert(entries[p].0 == token);
        assert(after[p].0 == token);
        assert forall|a: int, b: int| 0 <= a < b < after.len() implies #[trigger] after[a].0
            != #[trigger] after[b].0 by {
            assert(entries[a].0 != entries[b].0);
        }
        let i = place_of(after, token);
        assert(after[i].0 == token);
        assert(i == p);
        if lists(entries, other) {
            let q = place_of(entries, other);
            assert(entries[q].0 == other);
            assert(after[q].0 == other);
            let j = place_of(after, other);
            assert(after[j].0 == other);
            assert(j == q);
        } else if lists(after, other) {
            let j = place_of(after, other);
            assert(after[j].0 == other);
            assert(entries[j].0 == other);
        }
    } else {
        let p = entries.len() as int;
        assert(after[p].0 == token);
        assert forall|a: int, b: int| 0 <= a < b < after.len() implies #[trigger] after[a].0
            != #[trigger] after[b].0 by {
            if b < p {
                assert(entries[a].0 != entries[b].0);
            } else {
                assert(entries[a].0 != token);
            }
        }
        let i = place_of(after, token);
        assert(after[i].0 == token);
        assert(i == p);
        if lists(entries, other) {
            let q = place_of(entries, other);
            assert(entries[q].0 == other);
            assert(after[q].0 == other);
            let j = place_of(after, other);
            assert(after[j].0 == other);
            assert(j == q);
        } else if lists(after, other) {
            let j = place_of(after, other);
            assert(after[j].0 == other);
            assert(entries[j].0 == other);
        }
    }
}

/// Of the reports on a token the last one stands: its column is its place in
/// the report, and its symbol, price source and decimals are those reported.
pub proof fn law_last_report_stands(found: Seq<FoundToken>, j: int)
    requires
        0 <= j < found.len() <= usize::MAX,
        forall|k: int| j < k < found.len() ==> (#[trigger] found[k]).address != found[j].address,
    ensures
        addresses_distinct(listing(found)),
        lists(listing(found), found[j].address),
        order_of(listing(found), found[j].address) == Some(j as usize),
        ({
            let details = listing(found)[place_of(listing(found), found[j].address)].1;
            &&& details.name == found[j].symbol
            &&& details.price_source == found[j].price_source
            &&& details.order == j
            &&& details.decimals == found[j].decimals
            &&& details.price_decimals == found[j].price_decimals
        }),
    decreases found.len(),
{
    let fewer = found.drop_last();
    let last = found.last();
    let details = details_of(last, (found.len() - 1) as usize);
    lemma_listing_distinct(fewer);
    if j == found.len() - 1 {
        let low = if last.address.low == 0 { 1 } else { 0 };
        let other = Address { high: last.address.high, low };
        law_filed_token_is_found(listing(fewer), last.address, details, other);
    } else {
        assert(fewer[j] == found[j]);
        assert forall|k: int| j < k < fewer.len() implies (#[trigger] fewer[k]).address
            != fewer[j].address by {
            assert(fewer[k] == found[k]);
        }
        law_last_report_stands(fewer, j);
        assert(found[found.len() - 1].address != found[j].address);
        lemma_filed_keeps(listing(fewer), last.address, details, found[j].address);
    }
}

proof fn lemma_filed_keeps(
    entries: Seq<(Address, TokenDetails)>,
    token: Address,
    details: TokenDetails,
    other: Address,
)
    requires
        addresses_distinct(entries),
        other != token,
        lists(entries, other),
    ensures
        addresses_distinct(filed(entries, token, details)),
        lists(filed(entries, token, details), other),
        filed(entries, token, details)[place_of(filed(entries, token, details), other)]
            == entries[place_of(entries, other)],
        order_of(filed(entries, token, details), other) == order_of(entries, other),
{
    law_filed_token_is_found(entries, token, details, other);
    let after = filed(entries, token, details);
    let q = place_of(entries, other);
    assert(entries[q].0 == other);
    if lists(entries, token) {
        assert(entries[place_of(entries, token)].0 == token);
    }
    assert(after[q] == entries[q]);
    let j = place_of(after, other);
    assert(after[j].0 == other);
    assert(j == q);
}

proof fn lemma_listing_distinct(found: Seq<FoundToken>)
    ensures
        addresses_distinct(listing(found)),
    decreases found.len(),
{
    if found.len() > 0 {
        let fewer = found.drop_last();
        let last = found.last();
        lemma_listing_distinct(fewer);
        let low = if last.address.low == 0 { 1 } else { 0 };
        let other = Address { high: last.address.high, low };
        law_filed_token_is_found(
            listing(fewer),
            last.address,
            details_of(last, (found.len() - 1) as usize),
            other,
        );
    }
}

/// Only reported tokens are known.
pub proof fn law_known_tokens_were_reported(found: Seq<FoundToken>, token: Address)
    ensures
        lists(listing(found), token) ==> exists|j: int|
            0 <= j < found.len() && (#[trigger] found[j]).address == token,
    decreases found.len(),
{
    if found.len() > 0 {
        let fewer = found.drop_last();
        let last = found.last();
        law_known_tokens_were_reported(fewer, token);
        lemma_listing_distinct(fewer);
        if lists(listing(found), token) {
            if last.address == token {
                assert(found[found.len() - 1].address == token);
            } else {
                law_filed_token_is_found(
                    listing(fewer),
                    last.address,
                    details_of(last, (found.len() - 1) as usize),
                    token,
                );
                let j = choose|j: int| 0 <= j < fewer.len() && (#[trigger] fewer[j]).address == token;
                assert(found[j].address == token);
            }
        }
    }
}

proof fn lemma_last_at_column(entries: Seq<(Address, TokenDetails)>, k: nat, i: int)
    requires
        0 <= i < k <= entries.len(),
        forall|j: int|
            i < j < entries.len() ==> (#[trigger] entries[j]).1.order != entries[i].1.order,
    ensures
        last_at_column(entries, k, entries[i].1.order as int) == Some(i),
    decreases k,
{
    if i < k - 1 {
        assert(entries[k - 1].1.order != entries[i].1.order);
        lemma_last_at_column(entries, (k - 1) as nat, i);
    }
}

/// Once the tokens are taken over, the column of each has its address and its
/// decimals, those of the last entry if there are more for one column; all
/// indexes, rates and thresholds are zero, there are no health factors and no
/// rows in the matrices, and users, rows and prices are as before.
pub proof fn law_tokens_taken_over(
    s: CacheState,
    entries: Seq<(Address, TokenDetails)>,
    now: TimeStamp,
    i: int,
)
    requires
        columns_in_range(entries),
        0 <= i < entries.len(),
        forall|j: int|
            i < j < entries.len() ==> (#[trigger] entries[j]).1.order != entries[i].1.order,
    ensures
        ({
            let t = initialised(s, entries, now);
            let n = entries.len();
            let c = entries[i].1.order as int;
            &&& t.tokens.0.len() == n && t.tokens.0[c] == entries[i].0 && t.tokens.1 == now
            &&& t.decimals.0.len() == n && t.decimals.0[c] == entries[i].1.decimals
                && t.decimals.1 == now
            &&& t.price_decimals.0.len() == n && t.price_decimals.0[c]
                == entries[i].1.price_decimals && t.price_decimals.1 == now
            &&& t.liquidity.0.len() == n && t.liquidity.0[c].index == 0 && t.liquidity.0[c].rate == 0
                && t.liquidity.0[c].last_update == 0 && t.liquidity.1 == now
            &&& t.variable_borrow.0.len() == n && t.variable_borrow.0[c].index == 0
                && t.variable_borrow.0[c].rate == 0 && t.variable_borrow.0[c].last_update == 0
                && t.variable_borrow.1 == now
            &&& t.liquidity_index.0.len() == n && t.liquidity_index.0[c] == 0
                && t.liquidity_index.1 == now
            &&& t.variable_borrow_index.0.len() == n && t.variable_borrow_index.0[c] == 0
                && t.variable_borrow_index.1 == now
            &&& t.liquidation_threshold.0.len() == n && t.liquidation_threshold.0[c].bits == 0
                && t.liquidation_threshold.1 == now
            &&& t.health_factors.0.len() == 0 && t.health_factors.1 == now
            &&& t.collateral_matrix.rows.len() == 0 && t.collateral_matrix.width == n
            &&& t.borrowed_matrix.rows.len() == 0 && t.borrowed_matrix.width == n
            &&& t.users == s.users && t.users_num == s.users_num && t.reserve == s.reserve
                && t.collateral == s.collateral && t.borrowed == s.borrowed && t.prices == s.prices
        }),
{
    lemma_last_at_column(entries, entries.len(), i);
}

proof fn lemma_none_at_column(entries: Seq<(Address, TokenDetails)>, k: nat, column: int)
    requires
        k <= entries.len(),
        forall|j: int| 0 <= j < entries.len() ==> (#[trigger] entries[j]).1.order != column,
    ensures
        last_at_column(entries, k, column) is None,
    decreases k,
{
    if k > 0 {
        assert(entries[k - 1].1.order != column);
        lemma_none_at_column(entries, (k - 1) as nat, column);
    }
}

/// A column that no token has is the zero address with zero decimals.
pub proof fn law_column_without_token(
    s: CacheState,
    entries: Seq<(Address, TokenDetails)>,
    now: TimeStamp,
    column: int,
)
    requires
        0 <= column < entries.len(),
        forall|j: int| 0 <= j < entries.len() ==> (#[trigger] entries[j]).1.order != column,
    ensures
        initialised(s, entries, now).tokens.0[column].high == 0,
        initialised(s, entries, now).tokens.0[column].low == 0,
        initialised(s, entries, now).decimals.0[column].bits == 0,
        initialised(s, entries, now).price_decimals.0[column].bits == 0,
{
    lemma_none_at_column(entries, entries.len(), column);
}

/// A cache that knows nothing has no users, no rows and no tokens.
pub proof fn law_blank_state_is_empty()
    ensures
        forall|key: (u32, u128)| !(#[trigger] blank_state().users.contains_key(key)),
        blank_state().users_num == 0,
        blank_state().reserve.len() == 0,
        blank_state().collateral.len() == 0,
        blank_state().borrowed.len() == 0,
        blank_state().tokens.0.len() == 0,
        blank_state().health_factors.0.len() == 0,
        blank_state().collateral_matrix.rows.len() == 0,
        blank_state().borrowed_matrix.rows.len() == 0,
{
}

// ---- users ----
/// Whether rows are those from before and one new row of zeros, never read and
/// never changed.
pub open spec fn zero_row_added(before: Seq<RowState>, after: Seq<RowState>, n: nat) -> bool {
    let last = after[before.len() as int];
    &&& after.len() == before.len() + 1
    &&& forall|i: int| 0 <= i < before.len() ==> #[trigger] after[i] == before[i]
    &&& last.last_sync == 0
    &&& last.last_modified == 0
    &&& last.balances.len() == n
    &&& forall|c: int| 0 <= c < n ==> #[trigger] last.balances[c] == 0
}

/// A user who is filed gets the next row, of zeros, with no token enabled as
/// collateral and a health factor of 0.0; everybody else keeps what they had.
pub proof fn law_filed_user(s: CacheState, key: (u32, u128), n: nat)
    requires
        s.users_num < usize::MAX,
    ensures
        ({
            let t = registered(s, key, n);
            &&& t.users.contains_key(key)
            &&& t.users[key].0 == s.users_num
            &&& t.users[key].1.len() == n
            &&& forall|c: int| 0 <= c < n ==> !(#[trigger] t.users[key].1[c])
            &&& forall|other: (u32, u128)|
                other != key ==> (#[trigger] t.users.contains_key(other) == s.users.contains_key(
                    other,
                ))
            &&& forall|other: (u32, u128)|
                other != key && s.users.contains_key(other) ==> #[trigger] t.users[other]
                    == s.users[other]
            &&& t.users_num == s.users_num + 1
            &&& zero_row_added(s.collateral, t.collateral, n)
            &&& zero_row_added(s.reserve, t.reserve, n)
            &&& zero_row_added(s.borrowed, t.borrowed, n)
            &&& t.health_factors.0.len() == s.health_factors.0.len() + 1
            &&& t.health_factors.0[s.health_factors.0.len() as int].bits == 0
            &&& forall|i: int|
                0 <= i < s.health_factors.0.len() ==> #[trigger] t.health_factors.0[i]
                    == s.health_factors.0[i]
            &&& t == CacheState {
                users: t.users,
                users_num: t.users_num,
                collateral: t.collateral,
                reserve: t.reserve,
                borrowed: t.borrowed,
                health_factors: t.health_factors,
                ..s
            }
        }),
{
}

/// A user who is forgotten is not known, and nothing else changes.
pub proof fn law_forgotten_user(s: CacheState, key: (u32, u128), other: (u32, u128))
    requires
        other != key,
    ensures
        !forgotten(s, key).users.contains_key(key),
        forgotten(s, key).users.contains_key(other) == s.users.contains_key(other),
        s.users.contains_key(other) ==> forgotten(s, key).users[other] == s.users[other],
        forgotten(s, key) == (CacheState { users: forgotten(s, key).users, ..s }),
{
}

// ---- reading the pool ----
/// Whether a row was replaced by balances that were read just now.
pub open spec fn row_reread(
    before: Seq<RowState>,
    after: Seq<RowState>,
    row: int,
    now: TimeStamp,
) -> bool {
    &&& after.len() == before.len()
    &&& forall|i: int| 0 <= i < before.len() && i != row ==> #[trigger] after[i] == before[i]
    &&& after[row].last_sync == now
    &&& after[row].last_modified == now
}

/// After a user was read without error, the cache has what the pool reported:
/// of every token the liquidity rate as liquidity rate, the variable borrow rate
/// as variable borrow rate, each index as that index, and the reported moment in
/// microseconds; of the user the deposit on the side that the report says, zero
/// on the other, the debt, and the flag. Nobody else's rows change.
pub proof fn law_state_after_reading(
    s: CacheState,
    entries: Seq<(Address, TokenDetails)>,
    user: Address,
    fetched: Seq<Fetched>,
    now: TimeStamp,
    i: int,
)
    requires
        resynced(s, entries, user, fetched, now).1 is None,
        one_report_each(entries, fetched),
        0 <= i < fetched.len(),
        column_of(entries, fetched[i]) < entries.len(),
        column_of(entries, fetched[i]) < s.users[user.spec_key()].1.len(),
    ensures
        ({
            let t = resynced(s, entries, user, fetched, now).0;
            let key = user.spec_key();
            let row = s.users[key].0 as int;
            let c = column_of(entries, fetched[i]) as int;
            let reserve = fetched[i].reserve;
            let balance = fetched[i].user_reserve;
            let moment = 1_000_000 * (reserve.last_update_timestamp.high * 4_294_967_296
                + reserve.last_update_timestamp.low);
            let deposit = scaled_units(
                balance.current_atoken_balance@,
                s.decimals.0[c],
                reserve.liquidity_index@,
            );
            let debt = scaled_units(
                balance.current_variable_debt@,
                s.decimals.0[c],
                reserve.variable_borrow_index@,
            );
            let used = balance.usage_as_collateral_enabled;
            &&& t.liquidity.0[c].index == reserve.liquidity_index@
            &&& t.liquidity.0[c].rate == reserve.liquidity_rate@
            &&& t.liquidity.0[c].last_update == moment
            &&& t.liquidity_index.0[c] == reserve.liquidity_index@
            &&& t.variable_borrow.0[c].index == reserve.variable_borrow_index@
            &&& t.variable_borrow.0[c].rate == reserve.variable_borrow_rate@
            &&& t.variable_borrow.0[c].last_update == moment
            &&& t.variable_borrow_index.0[c] == reserve.variable_borrow_index@
            &&& t.liquidity.0.len() == entries.len() && t.liquidity.1 == now
            &&& t.variable_borrow.0.len() == entries.len() && t.variable_borrow.1 == now
            &&& t.liquidity_index.0.len() == entries.len() && t.liquidity_index.1 == now
            &&& t.variable_borrow_index.0.len() == entries.len() && t.variable_borrow_index.1 == now
            &&& row < s.collateral.len() && row_reread(s.collateral, t.collateral, row, now)
            &&& row < s.reserve.len() && row_reread(s.reserve, t.reserve, row, now)
            &&& row < s.borrowed.len() && row_reread(s.borrowed, t.borrowed, row, now)
            &&& t.collateral[row].balances.len() == entries.len()
            &&& t.reserve[row].balances.len() == entries.len()
            &&& t.borrowed[row].balances.len() == entries.len()
            &&& used ==> t.collateral[row].balances[c] == deposit && t.reserve[row].balances[c] == 0
            &&& !used ==> t.reserve[row].balances[c] == deposit && t.collateral[row].balances[c] == 0
            &&& t.borrowed[row].balances[c] == debt
            &&& t.users.contains_key(key) && t.users[key].0 == row
            &&& t.users[key].1.len() == s.users[key].1.len()
            &&& t.users[key].1[c] == used
            &&& forall|other: (u32, u128)|
                other != key ==> (#[trigger] t.users.contains_key(other) == s.users.contains_key(
                    other,
                ))
            &&& forall|other: (u32, u128)|
                other != key && s.users.contains_key(other) ==> #[trigger] t.users[other]
                    == s.users[other]
            &&& t == CacheState {
                users: t.users,
                collateral: t.collateral,
                reserve: t.reserve,
                borrowed: t.borrowed,
                liquidity: t.liquidity,
                liquidity_index: t.liquidity_index,
                variable_borrow: t.variable_borrow,
                variable_borrow_index: t.variable_borrow_index,
                ..s
            }
        }),
{
    law_reading_takes_over_reports(entries, s.decimals.0, fetched, s.users[user.spec_key()], i);
    crate::number_laws::law_moment(fetched[i].reserve.last_update_timestamp);
}

/// What stands in the way of reading a user is named: an unknown user, or else
/// the first report on an unknown token; the state then stays as it is. With
/// all known and the rows there, nothing does.
pub proof fn law_reading_refused(
    s: CacheState,
    entries: Seq<(Address, TokenDetails)>,
    user: Address,
    fetched: Seq<Fetched>,
    now: TimeStamp,
    i: int,
)
    requires
        0 <= i <= fetched.len(),
        forall|j: int| 0 <= j < i ==> lists(entries, (#[trigger] fetched[j]).token),
        i < fetched.len() ==> !lists(entries, fetched[i].token),
    ensures
        ({
            let (t, e) = resynced(s, entries, user, fetched, now);
            let key = user.spec_key();
            &&& !s.users.contains_key(key) ==> t == s && e == Some(Error::UserNotFound(user))
            &&& s.users.contains_key(key) && i < fetched.len() ==> t == s && e == Some(
                Error::TokenNotFound(fetched[i].token),
            )
            &&& s.users.contains_key(key) && i == fetched.len() && s.users[key].0
                < s.collateral.len() && s.users[key].0 < s.reserve.len() && s.users[key].0
                < s.borrowed.len() ==> e is None
        }),
{
    lemma_unknown_at(entries, fetched, 0, i);
}

proof fn lemma_unknown_at(
    entries: Seq<(Address, TokenDetails)>,
    fetched: Seq<Fetched>,
    from: int,
    i: int,
)
    requires
        0 <= from <= i <= fetched.len(),
        forall|j: int| 0 <= j < i ==> lists(entries, (#[trigger] fetched[j]).token),
        i < fetched.len() ==> !lists(entries, fetched[i].token),
    ensures
        first_unknown(entries, fetched, from) == if i < fetched.len() {
            Some(i)
        } else {
            None
        },
    decreases i - from,
{
    if from < i {
        assert(lists(entries, fetched[from].token));
        lemma_unknown_at(entries, fetched, from + 1, i);
    }
}

/// How far a reading gets where rows are missing: the settings are filed; the
/// collateral, reserve and borrowed rows are replaced in this order, up to the
/// first that is missing, which the error names; the indexes are taken over
/// only if none is.
pub proof fn law_reading_stops(
    s: CacheState,
    entries: Seq<(Address, TokenDetails)>,
    user: Address,
    fetched: Seq<Fetched>,
    now: TimeStamp,
)
    requires
        s.users.contains_key(user.spec_key()),
        forall|j: int| 0 <= j < fetched.len() ==> lists(entries, (#[trigger] fetched[j]).token),
    ensures
        ({
            let (t, e) = resynced(s, entries, user, fetched, now);
            let row = s.users[user.spec_key()].0;
            let k = row as int;
            &&& row >= s.collateral.len() ==> {
                &&& e == Some(Error::RowNotFound(Side::Collateral, row))
                &&& t == CacheState { users: t.users, ..s }
            }
            &&& row < s.collateral.len() && row >= s.reserve.len() ==> {
                &&& e == Some(Error::RowNotFound(Side::Reserve, row))
                &&& t == CacheState { users: t.users, collateral: t.collateral, ..s }
                &&& row_reread(s.collateral, t.collateral, k, now)
            }
            &&& row < s.collateral.len() && row < s.reserve.len() && row >= s.borrowed.len() ==> {
                &&& e == Some(Error::RowNotFound(Side::Borrowed, row))
                &&& t == CacheState {
                    users: t.users,
                    collateral: t.collateral,
                    reserve: t.reserve,
                    ..s
                }
                &&& row_reread(s.collateral, t.collateral, k, now)
                &&& row_reread(s.reserve, t.reserve, k, now)
            }
            &&& row < s.collateral.len() && row < s.reserve.len() && row < s.borrowed.len()
                ==> e is None
        }),
{
    lemma_unknown_at(entries, fetched, 0, fetched.len() as int);
}

/// What a reading writes of one side does not depend on the rows of the sides
/// that come later, missing or not.
pub proof fn law_reading_by_side(
    s: CacheState,
    entries: Seq<(Address, TokenDetails)>,
    user: Address,
    fetched: Seq<Fetched>,
    now: TimeStamp,
    reserve: Seq<RowState>,
    borrowed: Seq<RowState>,
)
    requires
        s.users.contains_key(user.spec_key()),
    ensures
        ({
            let t = resynced(s, entries, user, fetched, now).0;
            let u = resynced(CacheState { borrowed, ..s }, entries, user, fetched, now).0;
            let v = resynced(CacheState { reserve, borrowed, ..s }, entries, user, fetched, now).0;
            &&& u.users == t.users && v.users == t.users
            &&& u.collateral == t.collateral && v.collateral == t.collateral
            &&& u.reserve == t.reserve
        }),
{
}

/// Every reading of ordinary numbers can be taken over: amounts of 128 bits,
/// indexes of at least 1.0, tokens that have units.
pub proof fn law_readings_admitted(
    s: CacheState,
    entries: Seq<(Address, TokenDetails)>,
    user: Address,
    fetched: Seq<Fetched>,
)
    requires
        sound(s, entries.len()),
        columns_in_range(entries),
        forall|c: int| 0 <= c < s.decimals.0.len() ==> (#[trigger] s.decimals.0[c]).truncated() > 0,
        forall|i: int|
            0 <= i < fetched.len() ==> (#[trigger] fetched[i]).reserve.liquidity_index@ >= one()
                && fetched[i].reserve.variable_borrow_index@ >= one()
                && fetched[i].user_reserve.current_atoken_balance@ <= u128::MAX
                && fetched[i].user_reserve.current_variable_debt@ <= u128::MAX,
    ensures
        user_usable(s, entries, user, fetched),
{
    let key = user.spec_key();
    if s.users.contains_key(key) {
        lemma_before_unknown(entries, fetched, 0);
        assert forall|i: int|
            0 <= i < fetched.len() && (first_unknown(entries, fetched, 0) is Some ==> i
                < first_unknown(entries, fetched, 0)->0) implies report_usable(
            entries,
            s.decimals.0,
            s.users[key].1.len(),
            #[trigger] fetched[i],
        ) by {
            lemma_column_in_range(entries, fetched[i].token);
            let c = order_of(entries, fetched[i].token)->0 as int;
            law_scalable(
                fetched[i].user_reserve.current_atoken_balance@,
                s.decimals.0[c],
                fetched[i].reserve.liquidity_index@,
            );
            law_scalable(
                fetched[i].user_reserve.current_variable_debt@,
                s.decimals.0[c],
                fetched[i].reserve.variable_borrow_index@,
            );
        }
    }
}

proof fn lemma_before_unknown(
    entries: Seq<(Address, TokenDetails)>,
    fetched: Seq<Fetched>,
    from: int,
)
    requires
        0 <= from,
    ensures
        forall|i: int|
            from <= i < fetched.len() && (first_unknown(entries, fetched, from) is Some ==> i
                < first_unknown(entries, fetched, from)->0) ==> lists(
                entries,
                (#[trigger] fetched[i]).token,
            ),
        first_unknown(entries, fetched, from) matches Some(k) ==> from <= k,
    decreases fetched.len() - from,
{
    if from < fetched.len() && lists(entries, fetched[from].token) {
        lemma_before_unknown(entries, fetched, from + 1);
    }
}

proof fn lemma_column_in_range(entries: Seq<(Address, TokenDetails)>, token: Address)
    requires
        columns_in_range(entries),
    ensures
        order_of(entries, token) matches Some(c) ==> c < entries.len(),
{
    if lists(entries, token) {
        let p = place_of(entries, token);
        assert(entries[p].0 == token);
        assert(entries[p].1.order < entries.len());
    }
}

/// What comes of a reply on a user: no reply is an error and changes nothing; a
/// reply that is taken over asks for the user's row to be brought up to date in
/// both matrices; any other error is that of the reading. After a failure at
/// creation the user is forgotten.
pub proof fn law_replies(
    s: CacheState,
    entries: Seq<(Address, TokenDetails)>,
    user: Address,
    reply: Option<Seq<Fetched>>,
    at: Timing,
)
    ensures
        ({
            let key = user.spec_key();
            let (t, r) = resync(s, entries, user, reply, at);
            let (u, q) = creation(s, entries, user, reply, at);
            &&& reply is None ==> t == s && r == Err::<SyncRequest, Error>(Error::Provider(user))
            &&& reply matches Some(fetched) ==> {
                let (after, e) = resynced(s, entries, user, fetched, at.now);
                &&& t == after
                &&& e matches Some(e) ==> r == Err::<SyncRequest, Error>(e)
                &&& e is None ==> r == Ok::<SyncRequest, Error>(
                    SyncRequest::Both(SyncTarget::Row(s.users[key].0), at.rq_date),
                )
            }
            &&& q == r
            &&& r is Ok ==> u == t
            &&& r is Err ==> u == (CacheState { users: t.users.remove(key), ..t })
        }),
{
}

// ---- events ----
/// Whether a balance was raised (`add`) or lowered by a scaled amount, modulo
/// 2^256.
pub open spec fn balance_moved(before: nat, after: nat, scaled: nat, add: bool) -> bool {
    &&& after < u256_modulus()
    &&& add ==> after == before + scaled || after == before + scaled - u256_modulus()
    &&& !add ==> after == before - scaled || after == before - scaled + u256_modulus()
}

/// Whether rows differ in one balance of one row at most, and in that row's
/// last change, which is now.
pub open spec fn only_cell_changed(
    before: Seq<RowState>,
    after: Seq<RowState>,
    row: int,
    column: int,
    now: TimeStamp,
) -> bool {
    &&& after.len() == before.len()
    &&& forall|i: int| 0 <= i < before.len() && i != row ==> #[trigger] after[i] == before[i]
    &&& after[row].balances.len() == before[row].balances.len()
    &&& forall|c: int|
        0 <= c < before[row].balances.len() && c != column ==> #[trigger] after[row].balances[c]
            == before[row].balances[c]
    &&& after[row].last_sync == before[row].last_sync
    &&& after[row].last_modified == now
}

/// What the moments of a row say of an event: nothing if it is to be applied,
/// or else what is done instead. A row that was read more than a day ago is
/// read again, and so is one that changed after the event but was read before
/// it.
pub open spec fn turned_down(was: RowState, at: Timing) -> Option<StepState> {
    if at.clock - was.last_sync > 24 * 60 * 60 * 1_000_000 {
        Some(StepState::Resync)
    } else if at.rq_date > was.last_modified {
        None
    } else if at.rq_date > was.last_sync {
        Some(StepState::Resync)
    } else {
        Some(StepState::Skipped)
    }
}

/// What a deposit, withdrawal, loan or repayment does for a known user and a
/// known token. Loans are on the borrowed side, deposits on the collateral side
/// if the token counts as collateral for the user and on the reserve side if
/// not. An event that is newer than the row moves exactly one balance, by the
/// amount scaled at the side's index, and asks for that cell of the side's
/// matrix, if the side has one.
pub proof fn law_amount_event(
    s: CacheState,
    entries: Seq<(Address, TokenDetails)>,
    user: Address,
    token: Address,
    amount: nat,
    debt: bool,
    add: bool,
    at: Timing,
    idx: usize,
)
    requires
        s.users.contains_key(user.spec_key()),
        order_of(entries, token) == Some(idx),
        amount_event_ok(s, entries, user, token, amount, debt, at),
    ensures
        ({
            let (t, r) = amount_event(s, entries, user, token, amount, debt, add, at);
            let row = s.users[user.spec_key()].0;
            let used = s.users[user.spec_key()].1[idx as int];
            let deposit = scaled_units(amount, s.decimals.0[idx as int], s.liquidity.0[idx as int].index);
            let loan = scaled_units(
                amount,
                s.decimals.0[idx as int],
                s.variable_borrow.0[idx as int].index,
            );
            let cell = SyncTarget::Cell(row, idx);
            &&& debt ==> {
                &&& row >= s.borrowed.len() ==> t == s && r == Err::<StepState, Error>(
                    Error::RowNotFound(Side::Borrowed, row),
                )
                &&& row < s.borrowed.len() ==> match turned_down(s.borrowed[row as int], at) {
                    Some(step) => t == s && r == Ok::<StepState, Error>(step),
                    None => {
                        &&& only_cell_changed(
                            s.borrowed,
                            t.borrowed,
                            row as int,
                            idx as int,
                            at.now,
                        )
                        &&& s.borrowed[row as int].balances[idx as int] < u256_modulus()
                            ==> balance_moved(
                            s.borrowed[row as int].balances[idx as int],
                            t.borrowed[row as int].balances[idx as int],
                            loan,
                            add,
                        )
                        &&& t == CacheState { borrowed: t.borrowed, ..s }
                        &&& r matches Ok(StepState::Applied(requests)) && requests.len() == 1
                            && requests[0] == SyncRequest::Borrowed(cell, at.rq_date)
                    },
                }
            }
            &&& !debt && used ==> {
                &&& row >= s.collateral.len() ==> t == s && r == Err::<StepState, Error>(
                    Error::RowNotFound(Side::Collateral, row),
                )
                &&& row < s.collateral.len() ==> match turned_down(s.collateral[row as int], at) {
                    Some(step) => t == s && r == Ok::<StepState, Error>(step),
                    None => {
                        &&& only_cell_changed(
                            s.collateral,
                            t.collateral,
                            row as int,
                            idx as int,
                            at.now,
                        )
                        &&& s.collateral[row as int].balances[idx as int] < u256_modulus()
                            ==> balance_moved(
                            s.collateral[row as int].balances[idx as int],
                            t.collateral[row as int].balances[idx as int],
                            deposit,
                            add,
                        )
                        &&& t == CacheState { collateral: t.collateral, ..s }
                        &&& r matches Ok(StepState::Applied(requests)) && requests.len() == 1
                            && requests[0] == SyncRequest::Collateral(cell, at.rq_date)
                    },
                }
            }
            &&& !debt && !used ==> {
                &&& row >= s.reserve.len() ==> t == s && r == Err::<StepState, Error>(
                    Error::RowNotFound(Side::Reserve, row),
                )
                &&& row < s.reserve.len() ==> match turned_down(s.reserve[row as int], at) {
                    Some(step) => t == s && r == Ok::<StepState, Error>(step),
                    None => {
                        &&& only_cell_changed(
                            s.reserve,
                            t.reserve,
                            row as int,
                            idx as int,
                            at.now,
                        )
                        &&& s.reserve[row as int].balances[idx as int] < u256_modulus()
                            ==> balance_moved(
                            s.reserve[row as int].balances[idx as int],
                            t.reserve[row as int].balances[idx as int],
                            deposit,
                            add,
                        )
                        &&& t == CacheState { reserve: t.reserve, ..s }
                        &&& r matches Ok(StepState::Applied(requests)) && requests.len() == 0
                    },
                }
            }
        }),
{
    let row = s.users[user.spec_key()].0 as int;
    let deposit = scaled_units(amount, s.decimals.0[idx as int], s.liquidity.0[idx as int].index);
    let loan = scaled_units(amount, s.decimals.0[idx as int], s.variable_borrow.0[idx as int].index);
    lemma_moved(s.borrowed[row].balances[idx as int], loan, add);
    lemma_moved(s.collateral[row].balances[idx as int], deposit, add);
    lemma_moved(s.reserve[row].balances[idx as int], deposit, add);
}

proof fn lemma_moved(before: nat, scaled: nat, add: bool)
    ensures
        before < u256_modulus() && scaled < u256_modulus() ==> balance_moved(
            before,
            crate::events::moved(before, scaled, add),
            scaled,
            add,
        ),
{
}

/// Supplies and withdrawals raise and lower a deposit, loans and repayments a
/// debt, each of the user, the token and the amount that the event names; the
/// other events are those of their names.
pub proof fn law_event_kinds(
    s: CacheState,
    e: Seq<(Address, TokenDetails)>,
    event: UserEvent,
    at: Timing,
)
    ensures
        match event {
            UserEvent::Supply(ev) => user_of(event) == ev.on_behalf_of && user_event(
                s,
                e,
                event,
                at,
            ) == amount_event(s, e, ev.on_behalf_of, ev.reserve, ev.amount@, false, true, at),
            UserEvent::Withdraw(ev) => user_of(event) == ev.user && user_event(s, e, event, at)
                == amount_event(s, e, ev.user, ev.reserve, ev.amount@, false, false, at),
            UserEvent::Borrow(ev) => user_of(event) == ev.on_behalf_of && user_event(
                s,
                e,
                event,
                at,
            ) == amount_event(s, e, ev.on_behalf_of, ev.reserve, ev.amount@, true, true, at),
            UserEvent::Repay(ev) => user_of(event) == ev.user && user_event(s, e, event, at)
                == amount_event(s, e, ev.user, ev.reserve, ev.amount@, true, false, at),
            UserEvent::ReserveUsedAsCollateralEnabled(ev) => user_of(event) == ev.user
                && user_event(s, e, event, at) == collateral_event(
                s,
                e,
                ev.user,
                ev.reserve,
                true,
                at,
            ),
            UserEvent::ReserveUsedAsCollateralDisabled(ev) => user_of(event) == ev.user
                && user_event(s, e, event, at) == collateral_event(
                s,
                e,
                ev.user,
                ev.reserve,
                false,
                at,
            ),
            UserEvent::LiquidationCall(ev) => user_of(event) == ev.user && user_event(
                s,
                e,
                event,
                at,
            ) == liquidation_event(s, e, ev, at),
        },
{
}

/// An event on a user who is not known files the user and asks for the user to
/// be read, whatever the event is.
pub proof fn law_event_on_new_user(
    s: CacheState,
    entries: Seq<(Address, TokenDetails)>,
    event: UserEvent,
    at: Timing,
)
    requires
        !s.users.contains_key(user_of(event).spec_key()),
    ensures
        user_event(s, entries, event, at).0 == registered(
            s,
            user_of(event).spec_key(),
            entries.len(),
        ),
        user_event(s, entries, event, at).1 == Ok::<StepState, Error>(StepState::Create),
{
}

/// An event on an unknown token is refused by the name of the token and changes
/// nothing; of a liquidation the debt is looked at first.
pub proof fn law_event_on_unknown_token(
    s: CacheState,
    entries: Seq<(Address, TokenDetails)>,
    event: UserEvent,
    at: Timing,
)
    requires
        s.users.contains_key(user_of(event).spec_key()),
    ensures
        ({
            let (t, r) = user_event(s, entries, event, at);
            let refused = |token: Address|
                t == s && r == Err::<StepState, Error>(Error::TokenNotFound(token));
            match event {
                UserEvent::Supply(ev) => order_of(entries, ev.reserve) is None ==> refused(
                    ev.reserve,
                ),
                UserEvent::Withdraw(ev) => order_of(entries, ev.reserve) is None ==> refused(
                    ev.reserve,
                ),
                UserEvent::Borrow(ev) => order_of(entries, ev.reserve) is None ==> refused(
                    ev.reserve,
                ),
                UserEvent::Repay(ev) => order_of(entries, ev.reserve) is None ==> refused(
                    ev.reserve,
                ),
                UserEvent::ReserveUsedAsCollateralEnabled(ev) => order_of(entries, ev.reserve)
                    is None ==> refused(ev.reserve),
                UserEvent::ReserveUsedAsCollateralDisabled(ev) => order_of(entries, ev.reserve)
                    is None ==> refused(ev.reserve),
                UserEvent::LiquidationCall(ev) => {
                    &&& order_of(entries, ev.debt_asset) is None ==> refused(ev.debt_asset)
                    &&& order_of(entries, ev.debt_asset) is Some && order_of(
                        entries,
                        ev.collateral_asset,
                    ) is None ==> refused(ev.collateral_asset)
                },
            }
        }),
{
}

/// What a deposit's beginning (`enable`) or ceasing to count as collateral does
/// for a known user and a known token: the moments of the reserve row decide; a
/// new event moves the whole balance of the token from one side to the other,
/// leaves zero behind, writes the flag of that token alone and asks for the cell
/// of the collateral matrix.
pub proof fn law_collateral_event(
    s: CacheState,
    entries: Seq<(Address, TokenDetails)>,
    user: Address,
    token: Address,
    enable: bool,
    at: Timing,
    idx: usize,
)
    requires
        s.users.contains_key(user.spec_key()),
        order_of(entries, token) == Some(idx),
        collateral_event_ok(s, entries, user, token, at),
    ensures
        ({
            let (t, r) = collateral_event(s, entries, user, token, enable, at);
            let key = user.spec_key();
            let row = s.users[key].0;
            let k = row as int;
            let c = idx as int;
            &&& row >= s.reserve.len() ==> t == s && r == Err::<StepState, Error>(
                Error::RowNotFound(Side::Reserve, row),
            )
            &&& row < s.reserve.len() ==> match turned_down(s.reserve[k], at) {
                Some(step) => t == s && r == Ok::<StepState, Error>(step),
                None => {
                    &&& t.users.contains_key(key) && t.users[key].0 == row
                    &&& t.users[key].1.len() == s.users[key].1.len() && t.users[key].1[c] == enable
                    &&& forall|o: int|
                        0 <= o < s.users[key].1.len() && o != c ==> #[trigger] t.users[key].1[o]
                            == s.users[key].1[o]
                    &&& forall|other: (u32, u128)|
                        other != key ==> (#[trigger] t.users.contains_key(other)
                            == s.users.contains_key(other))
                    &&& forall|other: (u32, u128)|
                        other != key && s.users.contains_key(other) ==> #[trigger] t.users[other]
                            == s.users[other]
                    &&& t == CacheState {
                        users: t.users,
                        reserve: t.reserve,
                        collateral: t.collateral,
                        ..s
                    }
                    &&& only_cell_changed(s.reserve, t.reserve, k, c, at.now)
                    &&& row < s.collateral.len() ==> {
                        &&& only_cell_changed(s.collateral, t.collateral, k, c, at.now)
                        &&& enable ==> t.collateral[k].balances[c] == s.reserve[k].balances[c]
                            && t.reserve[k].balances[c] == 0
                        &&& !enable ==> t.reserve[k].balances[c] == s.collateral[k].balances[c]
                            && t.collateral[k].balances[c] == 0
                        &&& r matches Ok(StepState::Applied(requests)) && requests.len() == 1
                            && requests[0] == SyncRequest::Collateral(
                            SyncTarget::Cell(row, idx),
                            at.rq_date,
                        )
                    }
                    &&& row >= s.collateral.len() ==> t.collateral == s.collateral
                        && t.reserve[k].balances == s.reserve[k].balances && r == Err::<
                        StepState,
                        Error,
                    >(Error::RowNotFound(Side::Collateral, row))
                },
            }
        }),
{
}

/// What a liquidation does for a known user and known tokens: the moments of
/// the borrowed row decide; a new one takes the covered debt from the debt and
/// the liquidated collateral from the collateral, each scaled at its own index,
/// and asks for both cells.
pub proof fn law_liquidation_event(
    s: CacheState,
    entries: Seq<(Address, TokenDetails)>,
    ev: LiquidationCall,
    at: Timing,
    bor: usize,
    col: usize,
)
    requires
        s.users.contains_key(ev.user.spec_key()),
        order_of(entries, ev.debt_asset) == Some(bor),
        order_of(entries, ev.collateral_asset) == Some(col),
        liquidation_event_ok(s, entries, ev, at),
    ensures
        ({
            let (t, r) = liquidation_event(s, entries, ev, at);
            let row = s.users[ev.user.spec_key()].0;
            let k = row as int;
            let covered = scaled_units(
                ev.debt_to_cover@,
                s.decimals.0[bor as int],
                s.variable_borrow.0[bor as int].index,
            );
            let taken = scaled_units(
                ev.liquidated_collateral_amount@,
                s.decimals.0[col as int],
                s.liquidity.0[col as int].index,
            );
            &&& row >= s.borrowed.len() ==> t == s && r == Err::<StepState, Error>(
                Error::RowNotFound(Side::Borrowed, row),
            )
            &&& row < s.borrowed.len() ==> match turned_down(s.borrowed[k], at) {
                Some(step) => t == s && r == Ok::<StepState, Error>(step),
                None => {
                    &&& row >= s.collateral.len() ==> t == s && r == Err::<StepState, Error>(
                        Error::RowNotFound(Side::Collateral, row),
                    )
                    &&& row < s.collateral.len() ==> {
                        &&& only_cell_changed(s.borrowed, t.borrowed, k, bor as int, at.now)
                        &&& only_cell_changed(s.collateral, t.collateral, k, col as int, at.now)
                        &&& s.borrowed[k].balances[bor as int] < u256_modulus() ==> balance_moved(
                            s.borrowed[k].balances[bor as int],
                            t.borrowed[k].balances[bor as int],
                            covered,
                            false,
                        )
                        &&& s.collateral[k].balances[col as int] < u256_modulus() ==> balance_moved(
                            s.collateral[k].balances[col as int],
                            t.collateral[k].balances[col as int],
                            taken,
                            false,
                        )
                        &&& t == CacheState { borrowed: t.borrowed, collateral: t.collateral, ..s }
                        &&& r matches Ok(StepState::Applied(requests)) && requests.len() == 2
                            && requests[0] == SyncRequest::Collateral(
                            SyncTarget::Cell(row, col),
                            at.rq_date,
                        ) && requests[1] == SyncRequest::Borrowed(
                            SyncTarget::Cell(row, bor),
                            at.rq_date,
                        )
                    }
                },
            }
        }),
{
    let k = s.users[ev.user.spec_key()].0 as int;
    lemma_moved(
        s.borrowed[k].balances[bor as int],
        scaled_units(
            ev.debt_to_cover@,
            s.decimals.0[bor as int],
            s.variable_borrow.0[bor as int].index,
        ),
        false,
    );
    lemma_moved(
        s.collateral[k].balances[col as int],
        scaled_units(
            ev.liquidated_collateral_amount@,
            s.decimals.0[col as int],
            s.liquidity.0[col as int].index,
        ),
        false,
    );
}

/// Whether the amounts of an event have 128 bits.
pub open spec fn ordinary_amounts(event: UserEvent) -> bool {
    match event {
        UserEvent::Supply(ev) => ev.amount@ <= u128::MAX,
        UserEvent::Withdraw(ev) => ev.amount@ <= u128::MAX,
        UserEvent::Borrow(ev) => ev.amount@ <= u128::MAX,
        UserEvent::Repay(ev) => ev.amount@ <= u128::MAX,
        UserEvent::LiquidationCall(ev) => ev.debt_to_cover@ <= u128::MAX
            && ev.liquidated_collateral_amount@ <= u128::MAX,
        _ => true,
    }
}

/// Every event of ordinary amounts can be handled in a state that hangs
/// together, with indexes of at least 1.0 and tokens that have units.
pub proof fn law_events_admitted(
    s: CacheState,
    entries: Seq<(Address, TokenDetails)>,
    event: UserEvent,
    at: Timing,
)
    requires
        sound(s, entries.len()),
        columns_in_range(entries),
        entries.len() <= usize::MAX / 8,
        s.users_num < usize::MAX,
        forall|c: int| 0 <= c < s.decimals.0.len() ==> (#[trigger] s.decimals.0[c]).truncated() > 0,
        forall|c: int|
            0 <= c < s.liquidity.0.len() ==> (#[trigger] s.liquidity.0[c]).index >= one(),
        forall|c: int|
            0 <= c < s.variable_borrow.0.len() ==> (#[trigger] s.variable_borrow.0[c]).index
                >= one(),
        ordinary_amounts(event),
    ensures
        user_event_ok(s, entries, event, at),
{
    let key = user_of(event).spec_key();
    let row = s.users[key].0 as int;
    if s.users.contains_key(key) {
        assert(row < s.users_num);
        match event {
            UserEvent::Supply(ev) => lemma_scalable_in_column(s, entries, ev.reserve, ev.amount@),
            UserEvent::Withdraw(ev) => lemma_scalable_in_column(s, entries, ev.reserve, ev.amount@),
            UserEvent::Borrow(ev) => lemma_scalable_in_column(s, entries, ev.reserve, ev.amount@),
            UserEvent::Repay(ev) => lemma_scalable_in_column(s, entries, ev.reserve, ev.amount@),
            UserEvent::ReserveUsedAsCollateralEnabled(ev) => lemma_column_in_range(
                entries,
                ev.reserve,
            ),
            UserEvent::ReserveUsedAsCollateralDisabled(ev) => lemma_column_in_range(
                entries,
                ev.reserve,
            ),
            UserEvent::LiquidationCall(ev) => {
                lemma_scalable_in_column(s, entries, ev.debt_asset, ev.debt_to_cover@);
                lemma_scalable_in_column(
                    s,
                    entries,
                    ev.collateral_asset,
                    ev.liquidated_collateral_amount@,
                );
            },
        }
    }
}

proof fn lemma_scalable_in_column(
    s: CacheState,
    entries: Seq<(Address, TokenDetails)>,
    token: Address,
    amount: nat,
)
    requires
        sound(s, entries.len()),
        columns_in_range(entries),
        forall|c: int| 0 <= c < s.decimals.0.len() ==> (#[trigger] s.decimals.0[c]).truncated() > 0,
        forall|c: int|
            0 <= c < s.liquidity.0.len() ==> (#[trigger] s.liquidity.0[c]).index >= one(),
        forall|c: int|
            0 <= c < s.variable_borrow.0.len() ==> (#[trigger] s.variable_borrow.0[c]).index
                >= one(),
        amount <= u128::MAX,
    ensures
        order_of(entries, token) matches Some(c) ==> {
            &&& c < entries.len()
            &&& scalable(amount, s.decimals.0[c as int], s.liquidity.0[c as int].index)
            &&& scalable(amount, s.decimals.0[c as int], s.variable_borrow.0[c as int].index)
        },
{
    lemma_column_in_range(entries, token);
    if order_of(entries, token) is Some {
        let c = order_of(entries, token)->0 as int;
        law_scalable(amount, s.decimals.0[c], s.liquidity.0[c].index);
        law_scalable(amount, s.decimals.0[c], s.variable_borrow.0[c].index);
    }
}

// ---- interest ----
/// What an update of a reserve does: the reserve's own indexes and rates are
/// those of the event, deposits from deposits and loans from loans; those of
/// every other token have the interest of the time since their last update, and
/// the repeated indexes follow; columns without a token and everything else
/// stay. All health factors are asked for.
pub proof fn law_reserve_update(
    s: CacheState,
    entries: Seq<(Address, TokenDetails)>,
    event: ReserveDataUpdated,
    rq_date: TimeStamp,
    now: TimeStamp,
    idx: usize,
)
    requires
        order_of(entries, event.reserve) == Some(idx),
        idx < s.liquidity.0.len(),
        s.liquidity.0.len() == s.liquidity_index.0.len(),
        s.liquidity.0.len() == s.variable_borrow.0.len(),
        s.liquidity.0.len() == s.variable_borrow_index.0.len(),
    ensures
        ({
            let (t, r) = reserve_update(s, entries, event, rq_date, now);
            let c = idx as int;
            &&& r == Ok::<HFRequest, Error>(HFRequest::Full(rq_date))
            &&& t.liquidity.0[c].index == event.liquidity_index@
            &&& t.liquidity.0[c].rate == event.liquidity_rate@
            &&& t.liquidity.0[c].last_update == now
            &&& t.liquidity_index.0[c] == event.liquidity_index@
            &&& t.variable_borrow.0[c].index == event.variable_borrow_index@
            &&& t.variable_borrow.0[c].rate == event.variable_borrow_rate@
            &&& t.variable_borrow.0[c].last_update == now
            &&& t.variable_borrow_index.0[c] == event.variable_borrow_index@
            &&& t.liquidity.0.len() == s.liquidity.0.len() && t.liquidity.1 == now
            &&& t.liquidity_index.0.len() == s.liquidity.0.len() && t.liquidity_index.1 == now
            &&& t.variable_borrow.0.len() == s.liquidity.0.len() && t.variable_borrow.1 == now
            &&& t.variable_borrow_index.0.len() == s.liquidity.0.len() && t.variable_borrow_index.1
                == now
            &&& forall|j: int|
                0 <= j < entries.len() && (#[trigger] entries[j]).1.order != idx
                    && entries[j].1.order < s.liquidity.0.len() ==> {
                    let k = entries[j].1.order as int;
                    &&& t.liquidity.0[k] == accrued(s.liquidity.0[k], now)
                    &&& t.variable_borrow.0[k] == accrued(s.variable_borrow.0[k], now)
                    &&& interest_added(s.liquidity.0[k], t.liquidity.0[k], now)
                    &&& t.liquidity_index.0[k] == t.liquidity.0[k].index
                    &&& interest_added(s.variable_borrow.0[k], t.variable_borrow.0[k], now)
                    &&& t.variable_borrow_index.0[k] == t.variable_borrow.0[k].index
                }
            &&& forall|k: int|
                0 <= k < s.liquidity.0.len() && k != c && (forall|j: int|
                    0 <= j < entries.len() ==> (#[trigger] entries[j]).1.order != k) ==> (
                #[trigger] t.liquidity.0[k]) == s.liquidity.0[k] && t.liquidity_index.0[k]
                    == s.liquidity_index.0[k] && t.variable_borrow.0[k] == s.variable_borrow.0[k]
                    && t.variable_borrow_index.0[k] == s.variable_borrow_index.0[k]
            &&& t == CacheState {
                liquidity: t.liquidity,
                liquidity_index: t.liquidity_index,
                variable_borrow: t.variable_borrow,
                variable_borrow_index: t.variable_borrow_index,
                ..s
            }
        }),
{
    let t = reserve_update(s, entries, event, rq_date, now).0;
    assert forall|j: int|
        0 <= j < entries.len() && (#[trigger] entries[j]).1.order != idx && entries[j].1.order
            < s.liquidity.0.len() implies {
        let k = entries[j].1.order as int;
        &&& t.liquidity.0[k] == accrued(s.liquidity.0[k], now)
        &&& t.variable_borrow.0[k] == accrued(s.variable_borrow.0[k], now)
        &&& interest_added(s.liquidity.0[k], t.liquidity.0[k], now)
        &&& t.liquidity_index.0[k] == t.liquidity.0[k].index
        &&& interest_added(s.variable_borrow.0[k], t.variable_borrow.0[k], now)
        &&& t.variable_borrow_index.0[k] == t.variable_borrow.0[k].index
    } by {
        let k = entries[j].1.order as int;
        assert(has_column(entries, k));
        law_interest_added(s.liquidity.0[k], now);
        law_interest_added(s.variable_borrow.0[k], now);
    }
}

/// An update of an unknown reserve is refused by its name and changes nothing.
pub proof fn law_unknown_reserve(
    s: CacheState,
    entries: Seq<(Address, TokenDetails)>,
    event: ReserveDataUpdated,
    rq_date: TimeStamp,
    now: TimeStamp,
)
    requires
        order_of(entries, event.reserve) is None,
    ensures
        reserve_update(s, entries, event, rq_date, now).0 == s,
        reserve_update(s, entries, event, rq_date, now).1 == Err::<HFRequest, Error>(
            Error::TokenNotFound(event.reserve),
        ),
{
}

/// Whether an index and its rate have 128 bits and its last update is not
/// ahead.
pub open spec fn ordinary_index(i: IndexState, now: TimeStamp) -> bool {
    i.index <= u128::MAX && i.rate <= u128::MAX && i.last_update <= now
}

/// Every update of a reserve can be handled in a state that hangs together, if
/// the indexes are ordinary.
pub proof fn law_reserve_updates_admitted(
    s: CacheState,
    entries: Seq<(Address, TokenDetails)>,
    event: ReserveDataUpdated,
    now: TimeStamp,
)
    requires
        sound(s, entries.len()),
        columns_in_range(entries),
        forall|c: int|
            0 <= c < s.liquidity.0.len() ==> #[trigger] ordinary_index(s.liquidity.0[c], now),
        forall|c: int|
            0 <= c < s.variable_borrow.0.len() ==> #[trigger] ordinary_index(
                s.variable_borrow.0[c],
                now,
            ),
    ensures
        reserve_update_ok(s, entries, event, now),
{
    lemma_column_in_range(entries, event.reserve);
    assert forall|c: int| 0 <= c < entries.len() implies #[trigger] column_accruable(
        s,
        c,
        now,
    ) by {
        assert(ordinary_index(s.liquidity.0[c], now));
        assert(ordinary_index(s.variable_borrow.0[c], now));
        law_interest_computable(s.liquidity.0[c], now);
        law_interest_computable(s.variable_borrow.0[c], now);
    }
}

// ---- prices and thresholds ----
/// A new price of a known token is stored in its column alone, and all health
/// factors are asked for; an unknown token is refused.
pub proof fn law_price_update(
    s: CacheState,
    entries: Seq<(Address, TokenDetails)>,
    token: Address,
    price: F64,
    rq_date: TimeStamp,
)
    ensures
        ({
            let (t, r) = price_update(s, entries, token, price, rq_date);
            &&& order_of(entries, token) is None ==> t == s && r == Err::<HFRequest, Error>(
                Error::TokenNotFound(token),
            )
            &&& order_of(entries, token) matches Some(c) ==> c < s.prices.0.len() ==> {
                &&& r == Ok::<HFRequest, Error>(HFRequest::Full(rq_date))
                &&& t.prices.0.len() == s.prices.0.len()
                &&& t.prices.0[c as int] == price
                &&& forall|i: int|
                    0 <= i < s.prices.0.len() && i != c ==> #[trigger] t.prices.0[i] == s.prices.0[i]
                &&& t.prices.1 == rq_date
                &&& t == CacheState { prices: t.prices, ..s }
            }
        }),
{
}

/// A column that no threshold was reported for has 0.0.
pub proof fn law_no_threshold(found: Seq<(F64, usize)>, n: nat, column: int)
    requires
        0 <= column < n,
        forall|j: int| 0 <= j < found.len() ==> (#[trigger] found[j]).1 != column,
    ensures
        thresholds_by_column(found, found.len(), n)[column].bits == 0,
{
    lemma_no_threshold(found, found.len(), column);
}

/// Thresholds are in the columns they were reported for, the last report on a
/// column standing.
pub proof fn law_threshold_in_its_column(found: Seq<(F64, usize)>, n: nat, i: int)
    requires
        0 <= i < found.len(),
        found[i].1 < n,
        forall|j: int| i < j < found.len() ==> (#[trigger] found[j]).1 != found[i].1,
    ensures
        thresholds_by_column(found, found.len(), n).len() == n,
        thresholds_by_column(found, found.len(), n)[found[i].1 as int] == found[i].0,
{
    lemma_last_threshold(found, found.len(), i);
}

proof fn lemma_last_threshold(found: Seq<(F64, usize)>, k: nat, i: int)
    requires
        0 <= i < k <= found.len(),
        forall|j: int| i < j < found.len() ==> (#[trigger] found[j]).1 != found[i].1,
    ensures
        last_threshold(found, k, found[i].1 as int) == Some(i),
    decreases k,
{
    if i < k - 1 {
        assert(found[k - 1].1 != found[i].1);
        lemma_last_threshold(found, (k - 1) as nat, i);
    }
}

proof fn lemma_no_threshold(found: Seq<(F64, usize)>, k: nat, column: int)
    requires
        k <= found.len(),
        forall|j: int| 0 <= j < found.len() ==> (#[trigger] found[j]).1 != column,
    ensures
        last_threshold(found, k, column) is None,
    decreases k,
{
    if k > 0 {
        assert(found[k - 1].1 != column);
        lemma_no_threshold(found, (k - 1) as nat, column);
    }
}

// ---- health factors ----
/// A user's amounts are refused only for want of the user or of a row, and
/// computable for ordinary numbers.
pub proof fn law_hf_inputs(s: CacheState, user: Address, n: nat)
    requires
        sound(s, n),
        s.users.contains_key(user.spec_key()),
        forall|i: int, c: int|
            #![trigger s.collateral[i].balances[c]]
            0 <= i < s.collateral.len() && 0 <= c < n ==> s.collateral[i].balances[c] <= u128::MAX,
        forall|i: int, c: int|
            #![trigger s.borrowed[i].balances[c]]
            0 <= i < s.borrowed.len() && 0 <= c < n ==> s.borrowed[i].balances[c] <= u128::MAX,
        forall|c: int| 0 <= c < n ==> (#[trigger] s.liquidity.0[c]).index <= u128::MAX,
        forall|c: int| 0 <= c < n ==> (#[trigger] s.variable_borrow.0[c]).index <= u128::MAX,
    ensures
        hf_error(s, user) is None,
        hf_computable(s, user),
{
    let row = s.users[user.spec_key()].0 as int;
    assert(row < s.users_num);
    assert(s.collateral[row].balances.len() == n);
    assert(s.borrowed[row].balances.len() == n);
    law_amounts_computable(s.collateral[row].balances, s.liquidity.0);
    law_amounts_computable(s.borrowed[row].balances, s.variable_borrow.0);
}

/// The reasons for which a user's amounts are refused.
pub proof fn law_hf_refused(s: CacheState, user: Address)
    ensures
        ({
            let key = user.spec_key();
            let row = s.users[key].0;
            &&& !s.users.contains_key(key) ==> hf_error(s, user) == Some(Error::UserNotFound(user))
            &&& s.users.contains_key(key) && row >= s.collateral.len() ==> hf_error(s, user) == Some(
                Error::RowNotFound(Side::Collateral, row),
            )
            &&& s.users.contains_key(key) && row < s.collateral.len() && row >= s.borrowed.len()
                ==> hf_error(s, user) == Some(Error::RowNotFound(Side::Borrowed, row))
            &&& s.users.contains_key(key) && row < s.collateral.len() && row < s.borrowed.len()
                ==> hf_error(s, user) is None
        }),
{
}

/// Whether a state has a column for everything of a row.
pub open spec fn has_cell(s: CacheState, row: int, column: int) -> bool {
    &&& column < s.decimals.0.len()
    &&& column < s.liquidity.0.len()
    &&& column < s.variable_borrow.0.len()
    &&& row < s.collateral.len() ==> column < s.collateral[row].balances.len()
    &&& row < s.reserve.len() ==> column < s.reserve[row].balances.len()
    &&& row < s.borrowed.len() ==> column < s.borrowed[row].balances.len()
}

/// An amount that can be scaled can be moved, wherever its column is there.
pub proof fn law_scalable_amounts_admitted(
    s: CacheState,
    entries: Seq<(Address, TokenDetails)>,
    user: Address,
    token: Address,
    amount: nat,
    debt: bool,
    at: Timing,
    idx: usize,
)
    requires
        s.users.contains_key(user.spec_key()),
        order_of(entries, token) == Some(idx),
        idx < s.users[user.spec_key()].1.len(),
        has_cell(s, s.users[user.spec_key()].0 as int, idx as int),
        debt ==> scalable(amount, s.decimals.0[idx as int], s.variable_borrow.0[idx as int].index),
        !debt ==> scalable(amount, s.decimals.0[idx as int], s.liquidity.0[idx as int].index),
    ensures
        amount_event_ok(s, entries, user, token, amount, debt, at),
        collateral_event_ok(s, entries, user, token, at),
{
}

/// A liquidation whose amounts can be scaled can be handled, wherever its
/// columns are there.
pub proof fn law_scalable_liquidations_admitted(
    s: CacheState,
    entries: Seq<(Address, TokenDetails)>,
    ev: LiquidationCall,
    at: Timing,
    bor: usize,
    col: usize,
)
    requires
        s.users.contains_key(ev.user.spec_key()),
        order_of(entries, ev.debt_asset) == Some(bor),
        order_of(entries, ev.collateral_asset) == Some(col),
        has_cell(s, s.users[ev.user.spec_key()].0 as int, bor as int),
        has_cell(s, s.users[ev.user.spec_key()].0 as int, col as int),
        scalable(
            ev.debt_to_cover@,
            s.decimals.0[bor as int],
            s.variable_borrow.0[bor as int].index,
        ),
        scalable(
            ev.liquidated_collateral_amount@,
            s.decimals.0[col as int],
            s.liquidity.0[col as int].index,
        ),
    ensures
        liquidation_event_ok(s, entries, ev, at),
{
}

/// Reports whose amounts can be scaled can be taken over, wherever their columns
/// are there.
pub proof fn law_scalable_reports_admitted(
    s: CacheState,
    entries: Seq<(Address, TokenDetails)>,
    user: Address,
    fetched: Seq<Fetched>,
)
    requires
        forall|i: int|
            0 <= i < fetched.len() ==> (#[trigger] order_of(entries, fetched[i].token) matches Some(c)
                ==> c < entries.len() && c < s.decimals.0.len() && c
                < s.users[user.spec_key()].1.len() && scalable(
                fetched[i].user_reserve.current_atoken_balance@,
                s.decimals.0[c as int],
                fetched[i].reserve.liquidity_index@,
            ) && scalable(
                fetched[i].user_reserve.current_variable_debt@,
                s.decimals.0[c as int],
                fetched[i].reserve.variable_borrow_index@,
            )),
    ensures
        user_usable(s, entries, user, fetched),
{
    lemma_before_unknown(entries, fetched, 0);
    assert forall|i: int|
        0 <= i < fetched.len() && (first_unknown(entries, fetched, 0) is Some ==> i < first_unknown(
            entries,
            fetched,
            0,
        )->0) implies report_usable(
        entries,
        s.decimals.0,
        s.users[user.spec_key()].1.len(),
        #[trigger] fetched[i],
    ) by {
        assert(order_of(entries, fetched[i].token) is Some);
    }
}

/// A user's amounts can be computed wherever those of the user's two rows can.
pub proof fn law_computable_rows_admitted(s: CacheState, user: Address)
    requires
        s.users.contains_key(user.spec_key()),
        s.users[user.spec_key()].0 < s.collateral.len(),
        s.users[user.spec_key()].0 < s.borrowed.len(),
    ensures
        hf_computable(s, user) <==> currentable(
            s.collateral[s.users[user.spec_key()].0 as int].balances,
            s.liquidity.0,
        ) && currentable(
            s.borrowed[s.users[user.spec_key()].0 as int].balances,
            s.variable_borrow.0,
        ),
{
}

/// An update of a reserve can be handled wherever the interest of every token
/// can be computed and all columns are there.
pub proof fn law_computable_updates_admitted(
    s: CacheState,
    entries: Seq<(Address, TokenDetails)>,
    event: ReserveDataUpdated,
    now: TimeStamp,
)
    requires
        columns_in_range(entries),
        s.liquidity.0.len() >= entries.len(),
        s.liquidity_index.0.len() >= entries.len(),
        s.variable_borrow.0.len() >= entries.len(),
        s.variable_borrow_index.0.len() >= entries.len(),
        forall|c: int|
            0 <= c < entries.len() ==> accruable(#[trigger] s.liquidity.0[c], now) && accruable(
                s.variable_borrow.0[c],
                now,
            ),
    ensures
        reserve_update_ok(s, entries, event, now),
{
    lemma_column_in_range(entries, event.reserve);
    assert forall|c: int| 0 <= c < entries.len() implies #[trigger] column_accruable(s, c, now) by {
        assert(accruable(s.liquidity.0[c], now));
    }
}

/// Nothing is asked of a state that an unknown user or token is refused in.
pub proof fn law_refusals_admitted(
    s: CacheState,
    entries: Seq<(Address, TokenDetails)>,
    user: Address,
    fetched: Seq<Fetched>,
    token: Address,
    amount: nat,
    debt: bool,
    event: ReserveDataUpdated,
    at: Timing,
)
    ensures
        !s.users.contains_key(user.spec_key()) ==> hf_computable(s, user) && user_usable(
            s,
            entries,
            user,
            fetched,
        ),
        s.users.contains_key(user.spec_key()) && order_of(entries, token) is None
            ==> amount_event_ok(s, entries, user, token, amount, debt, at) && collateral_event_ok(
            s,
            entries,
            user,
            token,
            at,
        ),
        order_of(entries, event.reserve) is None ==> reserve_update_ok(s, entries, event, at.now),
{
}

// ---- the matrices ----
/// What bringing a target up to date does to a matrix: rows that it lacks are
/// added as they are; of the rows it had, a targeted row becomes the row of
/// balances (a single balance in all columns), a targeted cell that balance,
/// and all others stay.
pub proof fn law_target_up_to_date(
    rows: Seq<RowState>,
    m: MatrixState,
    target: SyncTarget,
    side: Side,
    i: int,
)
    requires
        0 <= i < rows.len() || 0 <= i < m.rows.len(),
        forall|k: int|
            m.rows.len() <= k < rows.len() ==> (#[trigger] rows[k]).balances.len() == m.width,
        forall|k: int| 0 <= k < m.rows.len() ==> (#[trigger] m.rows[k]).len() == m.width,
        m.rows.len() < rows.len() ==> shape_encodable(rows.len(), m.width),
        match target {
            SyncTarget::Row(row) => row < rows.len() && (rows[row as int].balances.len() == m.width
                || rows[row as int].balances.len() == 1),
            SyncTarget::Cell(row, column) => row < rows.len() && column < m.width && column
                < rows[row as int].balances.len(),
        },
    ensures
        ({
            let (t, e) = synced(rows, m, target, side);
            &&& e is None
            &&& t.width == m.width
            &&& t.rows.len() >= m.rows.len() && t.rows.len() >= rows.len()
            &&& t.rows.len() == m.rows.len() || t.rows.len() == rows.len()
            &&& i >= m.rows.len() ==> t.rows[i] == rows[i].balances
            &&& i < m.rows.len() ==> match target {
                SyncTarget::Row(row) => {
                    &&& i != row ==> t.rows[i] == m.rows[i]
                    &&& i == row ==> t.rows[i].len() == m.width
                    &&& i == row && rows[i].balances.len() == m.width ==> t.rows[i]
                        == rows[i].balances
                    &&& i == row && rows[i].balances.len() == 1 ==> forall|c: int|
                        0 <= c < m.width ==> #[trigger] t.rows[i][c] == rows[i].balances[0]
                },
                SyncTarget::Cell(row, column) => {
                    &&& t.rows[i].len() == m.width
                    &&& i == row ==> t.rows[i][column as int] == rows[i].balances[column as int]
                    &&& forall|c: int|
                        0 <= c < m.width && (i != row || c != column) ==> #[trigger] t.rows[i][c]
                            == m.rows[i][c]
                },
            }
        }),
{
    lemma_grown(rows, m);
    lemma_grown_complete(rows, m);
    let w = if m.width == 0 { 1 } else { m.width as int };
    assert forall|k: int| m.rows.len() <= k < rows.len() implies #[trigger] row_fits(
        rows,
        m.width,
        k,
    ) by {
        assert((k + 1) * w <= rows.len() * w) by (nonlinear_arith)
            requires
                0 <= k < rows.len(),
                w >= 1,
        ;
    }
    let g = grown(rows, m).0;
    assert(i < m.rows.len() ==> g.rows[i] == m.rows[i]);
    match target {
        SyncTarget::Row(row) => {
            crate::report_laws::law_spread(rows[row as int].balances, m.width);
        },
        SyncTarget::Cell(_, _) => {},
    }
}

/// A request brings up to date the matrix that it names, or both, and leaves
/// everything else; where the collateral matrix fails, the borrowed matrix is
/// not touched.
pub proof fn law_requests_name_matrices(s: CacheState, target: SyncTarget, at: TimeStamp)
    ensures
        ({
            let col = synced(s.collateral, s.collateral_matrix, target, Side::Collateral);
            let bor = synced(s.borrowed, s.borrowed_matrix, target, Side::Borrowed);
            let (a, x) = served(s, SyncRequest::Collateral(target, at));
            let (b, y) = served(s, SyncRequest::Borrowed(target, at));
            let (c, z) = served(s, SyncRequest::Both(target, at));
            &&& x == col.1 && a == (CacheState { collateral_matrix: col.0, ..s })
            &&& y == bor.1 && b == (CacheState { borrowed_matrix: bor.0, ..s })
            &&& col.1 is Some ==> z == col.1 && c == a
            &&& col.1 is None ==> z == bor.1 && c == (CacheState {
                collateral_matrix: col.0,
                borrowed_matrix: bor.0,
                ..s
            })
        }),
{
}

/// Why a target cannot be brought up to date: a row that is missing, a column
/// that is missing, or a new row of the wrong length.
pub proof fn law_target_refused(
    rows: Seq<RowState>,
    m: MatrixState,
    row: usize,
    column: usize,
    side: Side,
)
    ensures
        m.rows.len() < rows.len() && rows[m.rows.len() as int].balances.len() != m.width ==> synced(
            rows,
            m,
            SyncTarget::Row(row),
            side,
        ) == (m, Some(Error::Shape(side))) && synced(rows, m, SyncTarget::Cell(row, column), side)
            == (m, Some(Error::Shape(side))),
        rows.len() <= row < m.rows.len() ==> synced(rows, m, SyncTarget::Row(row), side) == (
            m,
            Some(Error::RowNotFound(side, row)),
        ) && synced(rows, m, SyncTarget::Cell(row, column), side) == (
            m,
            Some(Error::RowNotFound(side, row)),
        ),
        rows.len() <= m.rows.len() <= row && row > 0 ==> synced(
            rows,
            m,
            SyncTarget::Row(row),
            side,
        ) == (m, None::<Error>),
        rows.len() == m.rows.len() && row < rows.len() && column >= rows[row as int].balances.len()
            ==> synced(rows, m, SyncTarget::Cell(row, column), side) == (
            m,
            Some(Error::ColumnNotFound(side, column)),
        ),
{
}

/// A target can be written unless its row is there, is to be written and does
/// not fit: a row of the matrix's width fits, a single balance does, and a cell
/// does in one of the columns.
pub proof fn law_target_writable(
    rows: Seq<RowState>,
    m: MatrixState,
    row: usize,
    column: usize,
)
    ensures
        row >= rows.len() || row > 0 && row >= m.rows.len() ==> syncable(
            rows,
            m,
            SyncTarget::Row(row),
        ) && syncable(rows, m, SyncTarget::Cell(row, column)),
        row < rows.len() && (rows[row as int].balances.len() == m.width
            || rows[row as int].balances.len() == 1) ==> syncable(rows, m, SyncTarget::Row(row)),
        row < rows.len() && (column < m.width || column >= rows[row as int].balances.len())
            ==> syncable(rows, m, SyncTarget::Cell(row, column)),
        rows.len() == m.rows.len() && row < rows.len() && rows[row as int].balances.len() != m.width
            && rows[row as int].balances.len() != 1 ==> !syncable(rows, m, SyncTarget::Row(row)),
        rows.len() == m.rows.len() && row < rows.len() && m.width <= column
            < rows[row as int].balances.len() ==> !syncable(rows, m, SyncTarget::Cell(row, column)),
{
}

/// Every request can be served in a state that hangs together.
pub proof fn law_requests_admitted(s: CacheState, request: SyncRequest, n: nat)
    requires
        sound(s, n),
    ensures
        servable(s, request),
{
    assert forall|i: int| 0 <= i < s.collateral.len() implies (#[trigger] s.collateral[i]).balances.len()
        == n by {}
    assert forall|i: int| 0 <= i < s.borrowed.len() implies (#[trigger] s.borrowed[i]).balances.len()
        == n by {}
}

} // verus!
