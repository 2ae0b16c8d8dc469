//! Spreading the work: which worker gets an event, a synchronisation or a
//! computation of health factors.
//!
//! There are [`WORKERS`] workers for every kind of work, and each kind goes to
//! them in turn.
use vstd::prelude::*;

verus! {

/// The number of workers for every kind of work.
pub const WORKERS: usize = 4;

/// The kinds of events of the pool.
#[derive(Clone, Copy, Debug, PartialEq, Eq, Structural)]
pub enum EventKind {
    Supply,
    Withdraw,
    Borrow,
    Repay,
    ReserveUsedAsCollateralEnabled,
    ReserveUsedAsCollateralDisabled,
    LiquidationCall,
    ReserveDataUpdated,
}

/// The number after `n`, with zero after the largest.
pub open spec fn next(n: usize) -> usize {
    if n == usize::MAX {
        0
    } else {
        (n + 1) as usize
    }
}

/// How often each kind of work was handed out.
#[derive(Clone, Copy, Debug)]
pub struct Dispatcher {
    pub supply: usize,
    pub withdraw: usize,
    pub borrow: usize,
    pub repay: usize,
    pub reserve_used_as_collateral_enabled: usize,
    pub reserve_used_as_collateral_disabled: usize,
    pub liquidation_call: usize,
    pub reserve_data_updated: usize,
    pub sync_counter: usize,
    pub hf_counter: usize,
}

/// The workers that an event goes to: the one that handles it, the one that
/// serves its synchronisations, and the one that computes health factors for
/// it.
#[derive(Clone, Copy, Debug, PartialEq, Eq, Structural)]
pub struct Route {
    pub worker: usize,
    pub sync: Option<usize>,
    pub hf: usize,
}

impl Dispatcher {
    /// How often an event of a kind was handed out.
    pub open spec fn count(self, kind: EventKind) -> usize {
        match kind {
            EventKind::Supply => self.supply,
            EventKind::Withdraw => self.withdraw,
            EventKind::Borrow => self.borrow,
            EventKind::Repay => self.repay,
            EventKind::ReserveUsedAsCollateralEnabled => self.reserve_used_as_collateral_enabled,
            EventKind::ReserveUsedAsCollateralDisabled => self.reserve_used_as_collateral_disabled,
            EventKind::LiquidationCall => self.liquidation_call,
            EventKind::ReserveDataUpdated => self.reserve_data_updated,
        }
    }

    /// The route of an event: the events of its kind, the synchronisations and
    /// the computations go round each by itself. An update of a reserve asks
    /// for no synchronisation.
    pub open spec fn route_of(self, kind: EventKind) -> Route {
        Route {
            worker: self.count(kind) % WORKERS,
            sync: if kind == EventKind::ReserveDataUpdated {
                None
            } else {
                Some(self.sync_counter % WORKERS)
            },
            hf: self.hf_counter % WORKERS,
        }
    }

    /// The counters after an event was handed out.
    pub open spec fn after(self, later: Dispatcher, kind: EventKind) -> bool {
        &&& forall|k: EventKind|
            #![trigger later.count(k)]
            later.count(k) == if k == kind {
                next(self.count(k))
            } else {
                self.count(k)
            }
        &&& later.sync_counter == if kind == EventKind::ReserveDataUpdated {
            self.sync_counter
        } else {
            next(self.sync_counter)
        }
        &&& later.hf_counter == next(self.hf_counter)
    }

    /// Nothing was handed out yet.
    pub fn new() -> (r: Dispatcher)
        ensures
            forall|k: EventKind| #[trigger] r.count(k) == 0,
            r.sync_counter == 0,
            r.hf_counter == 0,
    {
        Dispatcher {
            supply: 0,
            withdraw: 0,
            borrow: 0,
            repay: 0,
            reserve_used_as_collateral_enabled: 0,
            reserve_used_as_collateral_disabled: 0,
            liquidation_call: 0,
            reserve_data_updated: 0,
            sync_counter: 0,
            hf_counter: 0,
        }
    }

    /// The worker that computes health factors for a source of requests that
    /// is not an event.
    pub fn next_hf(&mut self) -> (r: usize)
        ensures
            r == old(self).hf_counter % WORKERS,
            *final(self) == (Dispatcher { hf_counter: next(old(self).hf_counter), ..*old(self) }),
    {
        let r: usize = self.hf_counter % WORKERS;
        self.hf_counter = advance(self.hf_counter);
        r
    }

    /// The workers that an event goes to.
    pub fn route(&mut self, kind: EventKind) -> (r: Route)
        ensures
            r == old(self).route_of(kind),
            old(self).after(*final(self), kind),
    {
        let hf: usize = self.hf_counter % WORKERS;
        let turn: usize = match kind {
            EventKind::Supply => take_turn(&mut self.supply),
            EventKind::Withdraw => take_turn(&mut self.withdraw),
            EventKind::Borrow => take_turn(&mut self.borrow),
            EventKind::Repay => take_turn(&mut self.repay),
            EventKind::ReserveUsedAsCollateralEnabled => take_turn(
                &mut self.reserve_used_as_collateral_enabled,
            ),
            EventKind::ReserveUsedAsCollateralDisabled => take_turn(
                &mut self.reserve_used_as_collateral_disabled,
            ),
            EventKind::LiquidationCall => take_turn(&mut self.liquidation_call),
            EventKind::ReserveDataUpdated => take_turn(&mut self.reserve_data_updated),
        };
        let sync: Option<usize> = match kind {
            EventKind::ReserveDataUpdated => None,
            _ => {
                let s: usize = self.sync_counter % WORKERS;
                self.sync_counter = advance(self.sync_counter);
                Some(s)
            },
        };
        self.hf_counter = advance(self.hf_counter);
        Route { worker: turn % WORKERS, sync, hf }
    }
}

/// The number after `n`.
fn advance(n: usize) -> (r: usize)
    ensures
        r == next(n),
{
    n.wrapping_add(1)
}

/// Counts one turn; the result is the number of turns before it.
fn take_turn(counter: &mut usize) -> (r: usize)
    ensures
        r == *old(counter),
        *final(counter) == next(*old(counter)),
{
    let r: usize = *counter;
    *counter = advance(r);
    r
}

/// The `k`-th number after `n`.
pub open spec fn next_times(n: usize, k: nat) -> usize
    decreases k,
{
    if k == 0 {
        n
    } else {
        next(next_times(n, (k - 1) as nat))
    }
}

/// Hands rows to `workers` workers in turn. The result pairs each row with its
/// worker.
pub fn assign_rows(rows: &Vec<usize>, workers: usize, counter: &mut usize) -> (r: Vec<
    (usize, usize),
>)
    requires
        rows@.len() > 0 ==> workers > 0,
    ensures
        r@.len() == rows@.len(),
        forall|i: int|
            0 <= i < rows@.len() ==> #[trigger] r@[i] == (
                next_times(*old(counter), i as nat) % workers,
                rows@[i],
            ),
        *final(counter) == next_times(*old(counter), rows@.len()),
{
    let mut r: Vec<(usize, usize)> = Vec::new();
    let mut i: usize = 0;
    let ghost first = *counter;
    while i < rows.len()
        invariant
            i <= rows@.len(),
            rows@.len() > 0 ==> workers > 0,
            first == *old(counter),
            *counter == next_times(first, i as nat),
            r@.len() == i,
            forall|j: int|
                0 <= j < i ==> #[trigger] r@[j] == (
                    next_times(first, j as nat) % workers,
                    rows@[j],
                ),
        decreases rows@.len() - i,
    {
        let worker: usize = *counter % workers;
        r.push((worker, rows[i]));
        *counter = advance(*counter);
        i = i + 1;
    }
    r
}

} // verus!
