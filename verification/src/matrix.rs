//! Matrices of balances, one row per user and one column per token.
//!
//! The rows are held in a two-dimensional array of the `ndarray` crate, which
//! is opaque to the verifier: its rows and its width are given by the two
//! names below and by the contracts of the functions that call it. A cell
//! holds the ray itself; as a double it is that number divided by 10^27.
use ndarray::{Array2, ArrayView1, ShapeError};
use vstd::prelude::*;
use crate::uint::U256;

verus! {

/// The numbers that a sequence of rays stands for.
pub open spec fn values(row: Seq<U256>) -> Seq<nat> {
    Seq::new(row.len(), |i: int| row[i]@)
}

/// Writing one ray writes one number.
pub broadcast proof fn lemma_values_update(row: Seq<U256>, i: int, value: U256)
    requires
        0 <= i < row.len(),
    ensures
        #[trigger] values(row.update(i, value)) == values(row).update(i, value@),
{
    assert(values(row.update(i, value)) =~= values(row).update(i, value@));
}

/// A matrix of rays.
#[verifier::external_body]
pub struct Matrix {
    cells: Array2<U256>,
}

/// The rows of a matrix, from the first to the last.
pub uninterp spec fn matrix_rows(matrix: Matrix) -> Seq<Seq<nat>>;

/// The number of columns of a matrix.
pub uninterp spec fn matrix_width(matrix: Matrix) -> nat;

/// The error type of the `ndarray` crate.
#[verifier::external_type_specification]
#[verifier::external_body]
pub struct ExShapeError(ndarray::ShapeError);

/// Whether an array of so many rows and columns can be indexed: the product of
/// the lengths that are not zero is at most `isize::MAX`.
pub open spec fn shape_encodable(rows: nat, width: nat) -> bool {
    (if rows == 0 { 1 } else { rows }) * (if width == 0 { 1 } else { width }) <= isize::MAX
}

/// A row spread over `width` columns: a row of one element is repeated.
pub open spec fn spread(row: Seq<nat>, width: nat) -> Seq<nat> {
    if row.len() == width {
        row
    } else {
        Seq::new(width, |i: int| row[0])
    }
}

impl Matrix {
    pub open spec fn rows(self) -> Seq<Seq<nat>> {
        matrix_rows(self)
    }

    pub open spec fn width(self) -> nat {
        matrix_width(self)
    }

    /// `Array2::from_elem((0, width), _)`: no rows of `width` columns. It
    /// panics on a width above `isize::MAX`.
    #[verifier::external_body]
    pub(crate) fn empty(width: usize) -> (r: Matrix)
        requires
            width <= isize::MAX,
        ensures
            matrix_rows(r) == Seq::<Seq<nat>>::empty(),
            matrix_width(r) == width,
    {
        Matrix { cells: Array2::from_elem((0, width), U256::zero()) }
    }

    /// `ArrayBase::nrows`: the number of rows.
    #[verifier::external_body]
    pub(crate) fn nrows(&self) -> (r: usize)
        ensures
            r == matrix_rows(*self).len(),
    {
        self.cells.nrows()
    }

    /// `ArrayBase::ncols`: the number of columns.
    #[verifier::external_body]
    pub(crate) fn ncols(&self) -> (r: usize)
        ensures
            r == matrix_width(*self),
    {
        self.cells.ncols()
    }

    /// `ArrayBase::push_row`: adds a last row. It fails, and changes nothing,
    /// exactly where the row has another length than the matrix has columns or
    /// the larger matrix could not be indexed.
    #[verifier::external_body]
    pub(crate) fn push_row(&mut self, row: &Vec<U256>) -> (r: Result<(), ShapeError>)
        ensures
            r is Ok <==> row@.len() == matrix_width(*old(self)) && shape_encodable(
                matrix_rows(*old(self)).len() + 1,
                matrix_width(*old(self)),
            ),
            matrix_width(*final(self)) == matrix_width(*old(self)),
            r is Ok ==> matrix_rows(*final(self)) == matrix_rows(*old(self)).push(values(row@)),
            r is Err ==> matrix_rows(*final(self)) == matrix_rows(*old(self)),
    {
        self.cells.push_row(ArrayView1::from(row.as_slice()))
    }

    /// Assignment to a cell of an `Array2` by index. It panics out of range.
    #[verifier::external_body]
    pub(crate) fn set_cell(&mut self, row: usize, column: usize, value: U256)
        requires
            row < matrix_rows(*old(self)).len(),
            column < matrix_width(*old(self)),
        ensures
            matrix_width(*final(self)) == matrix_width(*old(self)),
            matrix_rows(*final(self)) == matrix_rows(*old(self)).update(
                row as int,
                matrix_rows(*old(self))[row as int].update(column as int, value@),
            ),
    {
        self.cells[(row, column)] = value;
    }

    /// `ArrayBase::row_mut` and `assign`: writes a row, with a row of one
    /// element repeated over the columns. It panics where there is no such row
    /// and on a row of another length.
    #[verifier::external_body]
    pub(crate) fn assign_row(&mut self, row: usize, content: &Vec<U256>)
        requires
            row < matrix_rows(*old(self)).len(),
            content@.len() == matrix_width(*old(self)) || content@.len() == 1,
        ensures
            matrix_width(*final(self)) == matrix_width(*old(self)),
            matrix_rows(*final(self)) == matrix_rows(*old(self)).update(
                row as int,
                spread(values(content@), matrix_width(*old(self))),
            ),
    {
        self.cells.row_mut(row).assign(&ArrayView1::from(content.as_slice()));
    }

    /// `ArrayBase::row`, copied: the cells of a row. It panics out of range.
    #[verifier::external_body]
    pub(crate) fn row(&self, row: usize) -> (r: Vec<U256>)
        requires
            row < matrix_rows(*self).len(),
        ensures
            values(r@) == matrix_rows(*self)[row as int],
            r@.len() == matrix_width(*self),
    {
        self.cells.row(row).to_vec()
    }
}

} // verus!
