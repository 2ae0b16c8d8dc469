//! Prices and liquidation thresholds.
use vstd::prelude::*;
use crate::address::Address;
use crate::cache::{zero_array, Array, Cache, CacheState};
use crate::float::F64;
use crate::tokens::{order_of, TokenDetails, Tokens};
use crate::types::{Error, HFRequest, TimeStamp};

verus! {

/// Whether two arrays of doubles differ: in length, or in some element.
pub open spec fn arrays_differ(a: Seq<F64>, b: Seq<F64>) -> bool {
    a.len() != b.len() || exists|i: int| 0 <= i < a.len() && !(#[trigger] a[i]).ieee_equal(b[i])
}

/// Whether two arrays of doubles differ.
fn differ(a: &Vec<F64>, b: &Vec<F64>) -> (r: bool)
    ensures
        r == arrays_differ(a@, b@),
{
    if a.len() != b.len() {
        return true;
    }
    let mut i: usize = 0;
    while i < a.len()
        invariant
            i <= a@.len() == b@.len(),
            forall|j: int| 0 <= j < i ==> (#[trigger] a@[j]).ieee_equal(b@[j]),
        decreases a@.len() - i,
    {
        if !a[i].equals(b[i]) {
            assert(!(a@[i as int]).ieee_equal(b@[i as int]));
            return true;
        }
        i = i + 1;
    }
    false
}

/// The last of the first `k` thresholds that is meant for a column.
pub open spec fn last_threshold(found: Seq<(F64, usize)>, k: nat, column: int) -> Option<int>
    decreases k,
{
    if k == 0 {
        None
    } else if found[k - 1].1 == column {
        Some(k - 1)
    } else {
        last_threshold(found, (k - 1) as nat, column)
    }
}

/// The first `k` of the reported thresholds by column, with 0.0 where none was
/// reported.
pub open spec fn thresholds_by_column(found: Seq<(F64, usize)>, k: nat, n: nat) -> Seq<F64> {
    Seq::new(
        n,
        |column: int|
            match last_threshold(found, k, column) {
                Some(i) => found[i].0,
                None => F64 { bits: 0 },
            },
    )
}

/// The reported thresholds, each with its column, as one array with an element
/// per token.
pub fn liquidation_thresholds(tokens: &Tokens, found: &Vec<(F64, usize)>) -> (r: Vec<F64>)
    requires
        forall|i: int| 0 <= i < found@.len() ==> (#[trigger] found@[i]).1 < tokens@.len(),
    ensures
        r@ == thresholds_by_column(found@, found@.len(), tokens@.len()),
{
    let n: usize = tokens.len();
    let mut data: Vec<F64> = zero_array(n);
    assert(data@ =~= thresholds_by_column(found@, 0, n as nat));
    let mut k: usize = 0;
    while k < found.len()
        invariant
            k <= found@.len(),
            n == tokens@.len(),
            forall|i: int| 0 <= i < found@.len() ==> (#[trigger] found@[i]).1 < tokens@.len(),
            data@ == thresholds_by_column(found@, k as nat, n as nat),
        decreases found@.len() - k,
    {
        let (threshold, order) = found[k];
        data.set(order, threshold);
        k = k + 1;
        assert(data@ =~= thresholds_by_column(found@, k as nat, n as nat));
    }
    data
}

impl Cache {
    /// Takes over new prices. Where they differ from the ones before, all
    /// health factors are to be computed again. The moment of the last change
    /// stays as it was.
    pub fn update_prices(&mut self, prices: Vec<F64>, now: TimeStamp) -> (r: Option<HFRequest>)
        ensures
            r == (if arrays_differ(old(self)@.prices.0, prices@) {
                Some(HFRequest::Full(now))
            } else {
                None
            }),
            final(self)@ == (if arrays_differ(old(self)@.prices.0, prices@) {
                CacheState { prices: (prices@, old(self)@.prices.1), ..old(self)@ }
            } else {
                old(self)@
            }),
            final(self)@.prices.0.len() == prices@.len(),
            forall|i: int|
                0 <= i < prices@.len() ==> (#[trigger] final(self)@.prices.0[i]).bits
                    == prices@[i].bits || (final(self)@.prices.0[i].bits % 0x8000_0000_0000_0000
                    == 0 && prices@[i].bits % 0x8000_0000_0000_0000 == 0),
            r is None ==> old(self)@.prices.0.len() == prices@.len() && forall|i: int|
                0 <= i < prices@.len() ==> (#[trigger] old(self)@.prices.0[i]).bits
                    == prices@[i].bits || (old(self)@.prices.0[i].bits % 0x8000_0000_0000_0000 == 0
                    && prices@[i].bits % 0x8000_0000_0000_0000 == 0),
    {
        if differ(&self.prices.values, &prices) {
            self.prices.values = prices;
            Some(HFRequest::Full(now))
        } else {
            None
        }
    }

    /// Takes over new liquidation thresholds if they are `modified`, that is
    /// further from the ones before than rounding explains. All health factors
    /// are to be computed again then.
    pub fn update_liquidation_threshold(
        &mut self,
        thresholds: Vec<F64>,
        modified: bool,
        rq_date: TimeStamp,
    ) -> (r: Option<HFRequest>)
        ensures
            r == (if modified {
                Some(HFRequest::Full(rq_date))
            } else {
                None
            }),
            final(self)@ == (if modified {
                CacheState { liquidation_threshold: (thresholds@, rq_date), ..old(self)@ }
            } else {
                old(self)@
            }),
    {
        if modified {
            self.liquidation_threshold = Array { values: thresholds, last_modified: rq_date };
            Some(HFRequest::Full(rq_date))
        } else {
            None
        }
    }
}

/// What comes of a new price of one token: the state after it, and the request
/// that follows or the error.
pub open spec fn price_update(
    s: CacheState,
    entries: Seq<(Address, TokenDetails)>,
    token: Address,
    price: F64,
    rq_date: TimeStamp,
) -> (CacheState, Result<HFRequest, Error>) {
    match order_of(entries, token) {
        None => (s, Err(Error::TokenNotFound(token))),
        Some(idx) => (
            CacheState { prices: (s.prices.0.update(idx as int, price), rq_date), ..s },
            Ok(HFRequest::Full(rq_date)),
        ),
    }
}

/// Takes over a new price of one token; all health factors are to be computed
/// again.
pub fn answer_updated(
    cache: &mut Cache,
    tokens: &Tokens,
    token: &Address,
    price: F64,
    rq_date: TimeStamp,
) -> (r: Result<HFRequest, Error>)
    requires
        order_of(tokens@, *token) is Some ==> order_of(tokens@, *token)->0 < old(
            cache,
        )@.prices.0.len(),
    ensures
        (final(cache)@, r) == price_update(old(cache)@, tokens@, *token, price, rq_date),
{
    match tokens.order(token) {
        Some(idx) => {
            cache.prices.values.set(idx, price);
            cache.prices.last_modified = rq_date;
            Ok(HFRequest::Full(rq_date))
        },
        None => Err(Error::TokenNotFound(*token)),
    }
}

} // verus!
