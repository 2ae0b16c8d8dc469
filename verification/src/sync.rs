//! Bringing the matrices up to date with the rows of balances.
use vstd::prelude::*;
use crate::cache::{row_states, Cache, CacheState, MatrixState, Row, RowState};
use crate::matrix::{shape_encodable, spread, values, Matrix};
use crate::types::{outcome, Error, Side, SyncRequest, SyncTarget};

verus! {

/// The matrix with the rows that it lacks, and whether all could be added: a
/// row that does not fit is where it stops.
pub open spec fn grown(rows: Seq<RowState>, m: MatrixState) -> (MatrixState, bool)
    decreases rows.len() - m.rows.len(),
{
    if m.rows.len() >= rows.len() {
        (m, true)
    } else {
        let next = rows[m.rows.len() as int].balances;
        if next.len() == m.width && shape_encodable(m.rows.len() + 1, m.width) {
            grown(rows, MatrixState { rows: m.rows.push(next), ..m })
        } else {
            (m, false)
        }
    }
}

/// The row that a target is in.
pub open spec fn target_row(target: SyncTarget) -> usize {
    match target {
        SyncTarget::Row(row) => row,
        SyncTarget::Cell(row, _) => row,
    }
}

/// The last row of a matrix, or zero.
pub open spec fn last_row(m: MatrixState) -> int {
    if m.rows.len() == 0 {
        0
    } else {
        m.rows.len() - 1
    }
}

/// The matrix after a target was brought up to date, and the error if there is
/// one. Rows that the matrix lacks are added first; a target among them is up
/// to date then.
pub open spec fn synced(
    rows: Seq<RowState>,
    m: MatrixState,
    target: SyncTarget,
    side: Side,
) -> (MatrixState, Option<Error>) {
    let (g, complete) = grown(rows, m);
    let row = target_row(target);
    if !complete {
        (g, Some(Error::Shape(side)))
    } else if row > last_row(m) {
        (g, None)
    } else if row >= rows.len() {
        (g, Some(Error::RowNotFound(side, row)))
    } else {
        match target {
            SyncTarget::Row(_) => (
                MatrixState {
                    rows: g.rows.update(row as int, spread(rows[row as int].balances, m.width)),
                    ..g
                },
                None,
            ),
            SyncTarget::Cell(_, column) => if column >= rows[row as int].balances.len() {
                (g, Some(Error::ColumnNotFound(side, column)))
            } else {
                (
                    MatrixState {
                        rows: g.rows.update(
                            row as int,
                            g.rows[row as int].update(
                                column as int,
                                rows[row as int].balances[column as int],
                            ),
                        ),
                        ..g
                    },
                    None,
                )
            },
        }
    }
}

/// Whether a target that is to be written has a place in the matrix: its row
/// has as many balances as there are columns (or just one), its cell is in one
/// of the columns.
pub open spec fn syncable(rows: Seq<RowState>, m: MatrixState, target: SyncTarget) -> bool {
    let row = target_row(target);
    grown(rows, m).1 && row <= last_row(m) && row < rows.len() ==> match target {
        SyncTarget::Row(_) => rows[row as int].balances.len() == m.width
            || rows[row as int].balances.len() == 1,
        SyncTarget::Cell(_, column) => column < rows[row as int].balances.len() ==> column
            < m.width,
    }
}

/// Growing keeps the width and the rows that were there.
pub proof fn lemma_grown(rows: Seq<RowState>, m: MatrixState)
    ensures
        grown(rows, m).0.width == m.width,
        grown(rows, m).0.rows.len() >= m.rows.len(),
        grown(rows, m).1 ==> grown(rows, m).0.rows.len() >= rows.len(),
        forall|i: int| 0 <= i < m.rows.len() ==> grown(rows, m).0.rows[i] == #[trigger] m.rows[i],
    decreases rows.len() - m.rows.len(),
{
    if m.rows.len() < rows.len() {
        let next = rows[m.rows.len() as int].balances;
        if next.len() == m.width && shape_encodable(m.rows.len() + 1, m.width) {
            let larger = MatrixState { rows: m.rows.push(next), ..m };
            lemma_grown(rows, larger);
            assert forall|i: int| 0 <= i < m.rows.len() implies grown(rows, m).0.rows[i]
                == #[trigger] m.rows[i] by {
                assert(larger.rows[i] == m.rows[i]);
            }
        }
    }
}

/// Whether a row can be added as the row at its own place.
pub open spec fn row_fits(rows: Seq<RowState>, width: nat, i: int) -> bool {
    rows[i].balances.len() == width && shape_encodable((i + 1) as nat, width)
}

/// All the rows that a matrix lacks can be added exactly where each of them
/// fits, and they then follow the rows that were there.
pub proof fn lemma_grown_complete(rows: Seq<RowState>, m: MatrixState)
    ensures
        grown(rows, m).1 <==> (forall|i: int|
            m.rows.len() <= i < rows.len() ==> #[trigger] row_fits(rows, m.width, i)),
        grown(rows, m).1 ==> (forall|i: int|
            m.rows.len() <= i < rows.len() ==> #[trigger] grown(rows, m).0.rows[i]
                == rows[i].balances),
        grown(rows, m).1 && m.rows.len() <= rows.len() ==> grown(rows, m).0.rows.len()
            == rows.len(),
    decreases rows.len() - m.rows.len(),
{
    if m.rows.len() < rows.len() {
        let at = m.rows.len() as int;
        if row_fits(rows, m.width, at) {
            let larger = MatrixState { rows: m.rows.push(rows[at].balances), ..m };
            lemma_grown_complete(rows, larger);
            lemma_grown(rows, larger);
            assert(larger.rows[at] == rows[at].balances);
            if grown(rows, m).1 {
                assert forall|i: int| at <= i < rows.len() implies #[trigger] grown(
                    rows,
                    m,
                ).0.rows[i] == rows[i].balances by {
                    if i > at {
                        assert(grown(rows, larger).0.rows[i] == rows[i].balances);
                    }
                }
            }
        }
    }
}

/// Whether all the rows that a matrix lacks can be added to it.
fn can_grow(rows: &Vec<Row>, matrix: &Matrix) -> (r: bool)
    ensures
        r == grown(row_states(rows@), matrix@).1,
{
    let ghost states = row_states(rows@);
    proof {
        lemma_grown_complete(states, matrix@);
    }
    let width: usize = matrix.ncols();
    let factor: usize = if width == 0 { 1 } else { width };
    let mut i: usize = matrix.nrows();
    while i < rows.len()
        invariant
            matrix@.rows.len() <= i,
            states == row_states(rows@),
            width == matrix@.width,
            factor == (if width == 0 { 1 } else { width as int }),
            forall|j: int|
                matrix@.rows.len() <= j < i && j < rows@.len() ==> #[trigger] row_fits(
                    states,
                    matrix@.width,
                    j,
                ),
            grown(states, matrix@).1 <==> (forall|j: int|
                matrix@.rows.len() <= j < rows@.len() ==> #[trigger] row_fits(
                    states,
                    matrix@.width,
                    j,
                )),
        decreases rows@.len() - i,
    {
        proof {
            assert((i + 1) * factor <= 0x1_0000_0000_0000_0000 * 0x1_0000_0000_0000_0000)
                by (nonlinear_arith)
                requires
                    0 <= i + 1 <= 0x1_0000_0000_0000_0000,
                    0 <= factor <= 0xffff_ffff_ffff_ffff,
            ;
            assert((i + 1) * factor < 0x1_0000_0000_0000_0000 * 0x1_0000_0000_0000_0000)
                by (nonlinear_arith)
                requires
                    0 <= i + 1 <= 0x1_0000_0000_0000_0000,
                    0 <= factor <= 0xffff_ffff_ffff_ffff,
            ;
        }
        let fits: bool = rows[i].balances.len() == width && (i as u128 + 1) * (factor as u128)
            <= isize::MAX as u128;
        assert(fits == row_fits(states, matrix@.width, i as int));
        if !fits {
            return false;
        }
        i = i + 1;
    }
    true
}

/// Whether a target can be brought up to date.
fn can_sync(rows: &Vec<Row>, matrix: &Matrix, target: &SyncTarget) -> (r: bool)
    ensures
        r == syncable(row_states(rows@), matrix@, *target),
{
    let low_bound: usize = matrix.nrows().saturating_sub(1);
    let width: usize = matrix.ncols();
    if !can_grow(rows, matrix) {
        return true;
    }
    match target {
        SyncTarget::Row(row) => {
            if *row > low_bound || *row >= rows.len() {
                return true;
            }
            let len: usize = rows[*row].balances.len();
            len == width || len == 1
        },
        SyncTarget::Cell(row, column) => {
            if *row > low_bound || *row >= rows.len() {
                return true;
            }
            *column >= rows[*row].balances.len() || *column < width
        },
    }
}

/// Whether bringing a target up to date ends in an error.
fn sync_fails(rows: &Vec<Row>, matrix: &Matrix, target: &SyncTarget) -> (r: bool)
    ensures
        r == (synced(row_states(rows@), matrix@, *target, Side::Collateral).1 is Some),
{
    let low_bound: usize = matrix.nrows().saturating_sub(1);
    if !can_grow(rows, matrix) {
        return true;
    }
    match target {
        SyncTarget::Row(row) => *row <= low_bound && *row >= rows.len(),
        SyncTarget::Cell(row, column) => *row <= low_bound && (*row >= rows.len() || *column
            >= rows[*row].balances.len()),
    }
}

/// Brings a target of a matrix up to date with its rows.
fn sync_matrix(rows: &Vec<Row>, matrix: &mut Matrix, target: &SyncTarget, side: Side) -> (r: Result<
    (),
    Error,
>)
    requires
        syncable(row_states(rows@), old(matrix)@, *target),
    ensures
        final(matrix)@ == synced(row_states(rows@), old(matrix)@, *target, side).0,
        r == outcome(synced(row_states(rows@), old(matrix)@, *target, side).1),
{
    let ghost states = row_states(rows@);
    let ghost before = matrix@;
    let low_bound: usize = matrix.nrows().saturating_sub(1);
    while matrix.nrows() < rows.len()
        invariant
            states == row_states(rows@),
            before == old(matrix)@,
            grown(states, matrix@) == grown(states, before),
            matrix@.width == before.width,
            matrix@.rows.len() >= before.rows.len(),
        decreases rows@.len() - matrix@.rows.len(),
    {
        let ghost earlier = matrix@;
        let next: usize = matrix.nrows();
        assert(states[next as int].balances =~= values(rows@[next as int].balances@));
        match matrix.push_row(&rows[next].balances) {
            Ok(_) => {
                assert(matrix@ =~= (MatrixState {
                    rows: earlier.rows.push(states[next as int].balances),
                    ..earlier
                }));
            },
            Err(_) => {
                assert(matrix@ =~= earlier);
                return Err(Error::Shape(side));
            },
        }
    }
    proof {
        lemma_grown(states, before);
    }
    let row_num: usize = match target {
        SyncTarget::Row(row) => *row,
        SyncTarget::Cell(row, _) => *row,
    };
    if row_num > low_bound {
        return Ok(());
    }
    if row_num >= rows.len() {
        return Err(Error::RowNotFound(side, row_num));
    }
    let ghost complete = matrix@;
    match target {
        SyncTarget::Row(_) => {
            matrix.assign_row(row_num, &rows[row_num].balances);
            assert(matrix@ =~= synced(states, before, *target, side).0);
        },
        SyncTarget::Cell(_, col_num) => {
            if *col_num >= rows[row_num].balances.len() {
                return Err(Error::ColumnNotFound(side, *col_num));
            }
            matrix.set_cell(row_num, *col_num, rows[row_num].balances[*col_num]);
            assert(matrix@ =~= synced(states, before, *target, side).0);
        },
    }
    Ok(())
}

/// The state after a target of the collateral matrix was brought up to date.
pub open spec fn collateral_synced(s: CacheState, target: SyncTarget) -> (
    CacheState,
    Option<Error>,
) {
    let (m, e) = synced(s.collateral, s.collateral_matrix, target, Side::Collateral);
    (CacheState { collateral_matrix: m, ..s }, e)
}

/// The state after a target of the borrowed matrix was brought up to date.
pub open spec fn borrowed_synced(s: CacheState, target: SyncTarget) -> (
    CacheState,
    Option<Error>,
) {
    let (m, e) = synced(s.borrowed, s.borrowed_matrix, target, Side::Borrowed);
    (CacheState { borrowed_matrix: m, ..s }, e)
}

/// The state after a target of both matrices was brought up to date. Where the
/// collateral matrix fails, the borrowed matrix is not touched.
pub open spec fn data_synced(s: CacheState, target: SyncTarget) -> (CacheState, Option<Error>) {
    let (t, e) = collateral_synced(s, target);
    if e is Some {
        (t, e)
    } else {
        borrowed_synced(t, target)
    }
}

/// The state after a request was served, and the error if there is one.
pub open spec fn served(s: CacheState, request: SyncRequest) -> (CacheState, Option<Error>) {
    match request {
        SyncRequest::Collateral(target, _) => collateral_synced(s, target),
        SyncRequest::Borrowed(target, _) => borrowed_synced(s, target),
        SyncRequest::Both(target, _) => data_synced(s, target),
    }
}

/// Whether a request can be served.
pub open spec fn servable(s: CacheState, request: SyncRequest) -> bool {
    match request {
        SyncRequest::Collateral(target, _) => syncable(s.collateral, s.collateral_matrix, target),
        SyncRequest::Borrowed(target, _) => syncable(s.borrowed, s.borrowed_matrix, target),
        SyncRequest::Both(target, _) => syncable(s.collateral, s.collateral_matrix, target) && (
        collateral_synced(s, target).1 is None ==> syncable(
            s.borrowed,
            s.borrowed_matrix,
            target,
        )),
    }
}

impl Cache {
    /// Brings a target of the collateral matrix up to date.
    pub fn sync_collateral(&mut self, target: &SyncTarget) -> (r: Result<(), Error>)
        requires
            servable(old(self)@, SyncRequest::Collateral(*target, 0)),
        ensures
            final(self)@ == collateral_synced(old(self)@, *target).0,
            r == outcome(collateral_synced(old(self)@, *target).1),
    {
        sync_matrix(&self.collateral, &mut self.collateral_matrix, target, Side::Collateral)
    }

    /// Brings a target of the borrowed matrix up to date.
    pub fn sync_borrowed(&mut self, target: &SyncTarget) -> (r: Result<(), Error>)
        requires
            servable(old(self)@, SyncRequest::Borrowed(*target, 0)),
        ensures
            final(self)@ == borrowed_synced(old(self)@, *target).0,
            r == outcome(borrowed_synced(old(self)@, *target).1),
    {
        sync_matrix(&self.borrowed, &mut self.borrowed_matrix, target, Side::Borrowed)
    }

    /// Brings a target of both matrices up to date, the collateral matrix
    /// first.
    pub fn sync_data(&mut self, target: &SyncTarget) -> (r: Result<(), Error>)
        requires
            servable(old(self)@, SyncRequest::Both(*target, 0)),
        ensures
            final(self)@ == data_synced(old(self)@, *target).0,
            r == outcome(data_synced(old(self)@, *target).1),
    {
        match self.sync_collateral(target) {
            Ok(_) => self.sync_borrowed(target),
            Err(e) => Err(e),
        }
    }

    /// Whether [`Cache::serve`] can serve a request.
    pub fn admits_request(&self, request: &SyncRequest) -> (r: bool)
        ensures
            r == servable(self@, *request),
    {
        match request {
            SyncRequest::Collateral(target, _) => can_sync(
                &self.collateral,
                &self.collateral_matrix,
                target,
            ),
            SyncRequest::Borrowed(target, _) => can_sync(
                &self.borrowed,
                &self.borrowed_matrix,
                target,
            ),
            SyncRequest::Both(target, _) => can_sync(
                &self.collateral,
                &self.collateral_matrix,
                target,
            ) && (sync_fails(&self.collateral, &self.collateral_matrix, target) || can_sync(
                &self.borrowed,
                &self.borrowed_matrix,
                target,
            )),
        }
    }

    /// Serves a request.
    pub fn serve(&mut self, request: &SyncRequest) -> (r: Result<(), Error>)
        requires
            servable(old(self)@, *request),
        ensures
            final(self)@ == served(old(self)@, *request).0,
            r == outcome(served(old(self)@, *request).1),
    {
        match request {
            SyncRequest::Collateral(target, _) => self.sync_collateral(target),
            SyncRequest::Borrowed(target, _) => self.sync_borrowed(target),
            SyncRequest::Both(target, _) => self.sync_data(target),
        }
    }
}

} // verus!
