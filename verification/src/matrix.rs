use vstd::prelude::*;

use crate::scalar::{RandomSource, Scalar};
use crate::NetError;

verus! {

// ---------------------------------------------------------------------------
// Specification-level grids
//
// A matrix is abstracted as a rectangular `Seq<Seq<T>>` of its rows.  The
// spec functions below define every operation the executable code performs.
// ---------------------------------------------------------------------------

/// The grid with the given shape whose cell `(i, j)` holds `f(i, j)`.
pub open spec fn grid_of<T>(rows: int, cols: int, f: spec_fn(int, int) -> T) -> Seq<Seq<T>> {
    Seq::new(rows as nat, |i: int| Seq::new(cols as nat, |j: int| f(i, j)))
}

/// Whether `m` is a rectangular grid with the given shape.
pub open spec fn is_grid<T>(m: Seq<Seq<T>>, rows: int, cols: int) -> bool {
    &&& m.len() == rows
    &&& forall|i: int| 0 <= i < rows ==> (#[trigger] m[i]).len() == cols
}

/// The grid of the given shape with every cell zero.
pub open spec fn zero_grid<T: Scalar>(rows: int, cols: int) -> Seq<Seq<T>> {
    grid_of(rows, cols, |i: int, j: int| T::zero_spec())
}

/// Elementwise sum of two grids of identical shape.
pub open spec fn add_grid<T: Scalar>(a: Seq<Seq<T>>, b: Seq<Seq<T>>) -> Seq<Seq<T>> {
    grid_of(a.len() as int, a[0].len() as int, |i: int, j: int| a[i][j].add_spec(b[i][j]))
}

/// Elementwise difference of two grids of identical shape.
pub open spec fn sub_grid<T: Scalar>(a: Seq<Seq<T>>, b: Seq<Seq<T>>) -> Seq<Seq<T>> {
    grid_of(a.len() as int, a[0].len() as int, |i: int, j: int| a[i][j].sub_spec(b[i][j]))
}

/// Elementwise (Hadamard) product of two grids of identical shape.
pub open spec fn hadamard_grid<T: Scalar>(a: Seq<Seq<T>>, b: Seq<Seq<T>>) -> Seq<Seq<T>> {
    grid_of(a.len() as int, a[0].len() as int, |i: int, j: int| a[i][j].mul_spec(b[i][j]))
}

/// The grid with `f` applied to every cell of `a`.
pub open spec fn map_grid<T: Scalar>(a: Seq<Seq<T>>, f: spec_fn(T) -> T) -> Seq<Seq<T>> {
    grid_of(a.len() as int, a[0].len() as int, |i: int, j: int| f(a[i][j]))
}

/// The transpose of `a`: cell `(i, j)` of the result is cell `(j, i)` of `a`.
pub open spec fn transpose_grid<T>(a: Seq<Seq<T>>) -> Seq<Seq<T>> {
    grid_of(a[0].len() as int, a.len() as int, |i: int, j: int| a[j][i])
}

/// Column `j` of grid `b`, as a sequence.
pub open spec fn column_seq<T>(b: Seq<Seq<T>>, j: int) -> Seq<T> {
    Seq::new(b.len(), |k: int| b[k][j])
}

/// The dot product of two equally long sequences of scalars, folded from
/// the left: `a[0]*b[0] + a[1]*b[1] + ...`.
pub open spec fn dot_seq<T: Scalar>(a: Seq<T>, b: Seq<T>) -> T
    decreases a.len(),
{
    if a.len() == 0 {
        T::zero_spec()
    } else {
        dot_seq(a.drop_last(), b.drop_last()).add_spec(a.last().mul_spec(b.last()))
    }
}

/// The standard matrix product of `a` (r×n) and `b` (n×c): cell `(i, j)`
/// is the dot product of row `i` of `a` with column `j` of `b`.
pub open spec fn mul_grid<T: Scalar>(a: Seq<Seq<T>>, b: Seq<Seq<T>>) -> Seq<Seq<T>> {
    grid_of(a.len() as int, b[0].len() as int, |i: int, j: int| dot_seq(a[i], column_seq(b, j)))
}

/// The n×1 column grid holding the entries of `v`.
pub open spec fn column_grid<T>(v: Seq<T>) -> Seq<Seq<T>> {
    grid_of(v.len() as int, 1, |i: int, j: int| v[i])
}

/// The entries of a single-column grid, as a sequence.
pub open spec fn column_to_seq<T>(m: Seq<Seq<T>>) -> Seq<T> {
    Seq::new(m.len(), |i: int| m[i][0])
}

// ---------------------------------------------------------------------------
// The executable matrix
// ---------------------------------------------------------------------------

/// A dense 2D array of scalars, `rows × cols`, stored by rows.
///
/// Binary operations are functional: operands are never mutated, each
/// operation allocates its result.  Shape is fixed for the lifetime of a
/// value; operations that change shape produce a new instance.
#[derive(Debug, PartialEq)]
pub struct Matrix<T> {
    /// Number of rows; at least 1 for a well-formed matrix.
    pub rows: usize,
    /// Number of columns; at least 1 for a well-formed matrix.
    pub cols: usize,
    /// The cells, one inner vector per row, each of length `cols`.
    pub data: Vec<Vec<T>>,
}

impl<T> View for Matrix<T> {
    type V = Seq<Seq<T>>;

    open spec fn view(&self) -> Seq<Seq<T>> {
        self.data@.map_values(|r: Vec<T>| r@)
    }
}

impl<T> Matrix<T> {
    /// The shape invariant: both dimensions are positive and every row
    /// holds exactly `cols` cells.
    pub open spec fn wf(self) -> bool {
        &&& self.rows >= 1
        &&& self.cols >= 1
        &&& self.data@.len() == self.rows
        &&& forall|i: int| 0 <= i < self.rows ==> (#[trigger] self.data@[i])@.len() == self.cols
    }

    /// Runtime check of the shape invariant, for values that reach the
    /// engine from outside (for example a decoded snapshot).
    pub fn check_shape(&self) -> (r: bool)
        ensures
            r == self.wf(),
    {
        if self.rows < 1 || self.cols < 1 || self.data.len() != self.rows {
            return false;
        }
        let mut i: usize = 0;
        while i < self.rows
            invariant
                i <= self.rows,
                self.data@.len() == self.rows,
                forall|k: int| 0 <= k < i ==> (#[trigger] self.data@[k])@.len() == self.cols,
            decreases self.rows - i,
        {
            if self.data[i].len() != self.cols {
                return false;
            }
            i += 1;
        }
        true
    }

}

impl<T: Scalar> Matrix<T> {
    /// Reads the cell at row `i`, column `j`.
    pub fn get(&self, i: usize, j: usize) -> (r: T)
        requires
            self.wf(),
            i < self.rows,
            j < self.cols,
        ensures
            r == self@[i as int][j as int],
    {
        self.data[i][j]
    }

    /// Constructs the `rows × cols` matrix with every cell zero.
    pub fn zeros(rows: usize, cols: usize) -> (r: Matrix<T>)
        requires
            rows >= 1,
            cols >= 1,
        ensures
            r.wf(),
            r.rows == rows,
            r.cols == cols,
            r@ == zero_grid::<T>(rows as int, cols as int),
    {
        let mut data: Vec<Vec<T>> = Vec::new();
        let mut i: usize = 0;
        while i < rows
            invariant
                i <= rows,
                data@.len() == i,
                forall|k: int| 0 <= k < i ==> (#[trigger] data@[k])@ == zero_grid::<T>(
                    rows as int,
                    cols as int,
                )[k],
            decreases rows - i,
        {
            let mut row: Vec<T> = Vec::new();
            let mut j: usize = 0;
            while j < cols
                invariant
                    j <= cols,
                    row@.len() == j,
                    forall|k: int| 0 <= k < j ==> row@[k] == T::zero_spec(),
                decreases cols - j,
            {
                row.push(T::zero());
                j += 1;
            }
            proof {
                assert(row@ =~= zero_grid::<T>(rows as int, cols as int)[i as int]);
            }
            data.push(row);
            i += 1;
        }
        let m = Matrix { rows, cols, data };
        proof {
            assert(m@ =~= zero_grid::<T>(rows as int, cols as int));
        }
        m
    }

    /// Constructs a `rows × cols` matrix with every cell drawn from the
    /// given random source.  Only the shape is promised: the contract
    /// holds for every outcome of the source.
    pub fn random<R: RandomSource<T>>(rows: usize, cols: usize, rng: &mut R) -> (r: Matrix<T>)
        requires
            rows >= 1,
            cols >= 1,
        ensures
            r.wf(),
            r.rows == rows,
            r.cols == cols,
    {
        let mut data: Vec<Vec<T>> = Vec::new();
        let mut i: usize = 0;
        while i < rows
            invariant
                i <= rows,
                data@.len() == i,
                forall|k: int| 0 <= k < i ==> (#[trigger] data@[k])@.len() == cols,
            decreases rows - i,
        {
            let mut row: Vec<T> = Vec::new();
            let mut j: usize = 0;
            while j < cols
                invariant
                    j <= cols,
                    row@.len() == j,
                decreases cols - j,
            {
                row.push(rng.next_scalar());
                j += 1;
            }
            data.push(row);
            i += 1;
        }
        Matrix { rows, cols, data }
    }

    /// Wraps a sequence of scalars as a 1×N row matrix.
    pub fn from_row(values: &Vec<T>) -> (r: Matrix<T>)
        requires
            values@.len() >= 1,
        ensures
            r.wf(),
            r.rows == 1,
            r.cols == values@.len(),
            r@ == seq![values@],
    {
        let mut row: Vec<T> = Vec::new();
        let mut j: usize = 0;
        while j < values.len()
            invariant
                j <= values@.len(),
                row@.len() == j,
                forall|k: int| 0 <= k < j ==> row@[k] == values@[k],
            decreases values@.len() - j,
        {
            row.push(values[j]);
            j += 1;
        }
        proof {
            assert(row@ =~= values@);
        }
        let mut data: Vec<Vec<T>> = Vec::new();
        data.push(row);
        let m = Matrix { rows: 1, cols: values.len(), data };
        proof {
            assert(m@ =~= seq![values@]);
        }
        m
    }

    /// Wraps a sequence of scalars as an N×1 column matrix.
    pub fn from_column(values: &Vec<T>) -> (r: Matrix<T>)
        requires
            values@.len() >= 1,
        ensures
            r.wf(),
            r.rows == values@.len(),
            r.cols == 1,
            r@ == column_grid(values@),
    {
        let mut data: Vec<Vec<T>> = Vec::new();
        let mut i: usize = 0;
        while i < values.len()
            invariant
                i <= values@.len(),
                data@.len() == i,
                forall|k: int| 0 <= k < i ==> (#[trigger] data@[k])@ == column_grid(values@)[k],
            decreases values@.len() - i,
        {
            let mut row: Vec<T> = Vec::new();
            row.push(values[i]);
            proof {
                assert(row@ =~= column_grid(values@)[i as int]);
            }
            data.push(row);
            i += 1;
        }
        let m = Matrix { rows: values.len(), cols: 1, data };
        proof {
            assert(m@ =~= column_grid(values@));
        }
        m
    }

    /// Elementwise sum; the operands must have identical shape.
    pub fn add(&self, other: &Matrix<T>) -> (r: Result<Matrix<T>, NetError>)
        requires
            self.wf(),
            other.wf(),
        ensures
            r is Ok <==> (self.rows == other.rows && self.cols == other.cols),
            r is Err ==> r == Err::<Matrix<T>, NetError>(NetError::ShapeMismatch),
            r is Ok ==> ({
                let m = r.unwrap();
                &&& m.wf()
                &&& m.rows == self.rows
                &&& m.cols == self.cols
                &&& m@ == add_grid(self@, other@)
            }),
    {
        if self.rows != other.rows || self.cols != other.cols {
            return Err(NetError::ShapeMismatch);
        }
        let mut data: Vec<Vec<T>> = Vec::new();
        let mut i: usize = 0;
        while i < self.rows
            invariant
                self.wf(),
                other.wf(),
                self.rows == other.rows,
                self.cols == other.cols,
                i <= self.rows,
                data@.len() == i,
                forall|k: int| 0 <= k < i ==> (#[trigger] data@[k])@ == add_grid(self@, other@)[k],
            decreases self.rows - i,
        {
            let mut row: Vec<T> = Vec::new();
            let mut j: usize = 0;
            while j < self.cols
                invariant
                    self.wf(),
                    other.wf(),
                    self.rows == other.rows,
                    self.cols == other.cols,
                    i < self.rows,
                    j <= self.cols,
                    row@.len() == j,
                    forall|k: int| 0 <= k < j ==> row@[k] == self@[i as int][k].add_spec(
                        other@[i as int][k],
                    ),
                decreases self.cols - j,
            {
                row.push(self.data[i][j].add(other.data[i][j]));
                j += 1;
            }
            proof {
                assert(row@ =~= add_grid(self@, other@)[i as int]);
            }
            data.push(row);
            i += 1;
        }
        let m = Matrix { rows: self.rows, cols: self.cols, data };
        proof {
            assert(m@ =~= add_grid(self@, other@));
        }
        Ok(m)
    }

    /// Elementwise difference; the operands must have identical shape.
    pub fn sub(&self, other: &Matrix<T>) -> (r: Result<Matrix<T>, NetError>)
        requires
            self.wf(),
            other.wf(),
        ensures
            r is Ok <==> (self.rows == other.rows && self.cols == other.cols),
            r is Err ==> r == Err::<Matrix<T>, NetError>(NetError::ShapeMismatch),
            r is Ok ==> ({
                let m = r.unwrap();
                &&& m.wf()
                &&& m.rows == self.rows
                &&& m.cols == self.cols
                &&& m@ == sub_grid(self@, other@)
            }),
    {
        if self.rows != other.rows || self.cols != other.cols {
            return Err(NetError::ShapeMismatch);
        }
        let mut data: Vec<Vec<T>> = Vec::new();
        let mut i: usize = 0;
        while i < self.rows
            invariant
                self.wf(),
                other.wf(),
                self.rows == other.rows,
                self.cols == other.cols,
                i <= self.rows,
                data@.len() == i,
                forall|k: int| 0 <= k < i ==> (#[trigger] data@[k])@ == sub_grid(self@, other@)[k],
            decreases self.rows - i,
        {
            let mut row: Vec<T> = Vec::new();
            let mut j: usize = 0;
            while j < self.cols
                invariant
                    self.wf(),
                    other.wf(),
                    self.rows == other.rows,
                    self.cols == other.cols,
                    i < self.rows,
                    j <= self.cols,
                    row@.len() == j,
                    forall|k: int| 0 <= k < j ==> row@[k] == self@[i as int][k].sub_spec(
                        other@[i as int][k],
                    ),
                decreases self.cols - j,
            {
                row.push(self.data[i][j].sub(other.data[i][j]));
                j += 1;
            }
            proof {
                assert(row@ =~= sub_grid(self@, other@)[i as int]);
            }
            data.push(row);
            i += 1;
        }
        let m = Matrix { rows: self.rows, cols: self.cols, data };
        proof {
            assert(m@ =~= sub_grid(self@, other@));
        }
        Ok(m)
    }

    /// Elementwise (Hadamard) product; the operands must have identical
    /// shape.
    pub fn multiply(&self, other: &Matrix<T>) -> (r: Result<Matrix<T>, NetError>)
        requires
            self.wf(),
            other.wf(),
        ensures
            r is Ok <==> (self.rows == other.rows && self.cols == other.cols),
            r is Err ==> r == Err::<Matrix<T>, NetError>(NetError::ShapeMismatch),
            r is Ok ==> ({
                let m = r.unwrap();
                &&& m.wf()
                &&& m.rows == self.rows
                &&& m.cols == self.cols
                &&& m@ == hadamard_grid(self@, other@)
            }),
    {
        if self.rows != other.rows || self.cols != other.cols {
            return Err(NetError::ShapeMismatch);
        }
        let mut data: Vec<Vec<T>> = Vec::new();
        let mut i: usize = 0;
        while i < self.rows
            invariant
                self.wf(),
                other.wf(),
                self.rows == other.rows,
                self.cols == other.cols,
                i <= self.rows,
                data@.len() == i,
                forall|k: int| 0 <= k < i ==> (#[trigger] data@[k])@ == hadamard_grid(
                    self@,
                    other@,
                )[k],
            decreases self.rows - i,
        {
            let mut row: Vec<T> = Vec::new();
            let mut j: usize = 0;
            while j < self.cols
                invariant
                    self.wf(),
                    other.wf(),
                    self.rows == other.rows,
                    self.cols == other.cols,
                    i < self.rows,
                    j <= self.cols,
                    row@.len() == j,
                    forall|k: int| 0 <= k < j ==> row@[k] == self@[i as int][k].mul_spec(
                        other@[i as int][k],
                    ),
                decreases self.cols - j,
            {
                row.push(self.data[i][j].mul(other.data[i][j]));
                j += 1;
            }
            proof {
                assert(row@ =~= hadamard_grid(self@, other@)[i as int]);
            }
            data.push(row);
            i += 1;
        }
        let m = Matrix { rows: self.rows, cols: self.cols, data };
        proof {
            assert(m@ =~= hadamard_grid(self@, other@));
        }
        Ok(m)
    }

    /// Standard matrix product; the inner dimensions must agree.
    pub fn matmul(&self, other: &Matrix<T>) -> (r: Result<Matrix<T>, NetError>)
        requires
            self.wf(),
            other.wf(),
        ensures
            r is Ok <==> self.cols == other.rows,
            r is Err ==> r == Err::<Matrix<T>, NetError>(NetError::ShapeMismatch),
            r is Ok ==> ({
                let m = r.unwrap();
                &&& m.wf()
                &&& m.rows == self.rows
                &&& m.cols == other.cols
                &&& m@ == mul_grid(self@, other@)
            }),
    {
        if self.cols != other.rows {
            return Err(NetError::ShapeMismatch);
        }
        let mut data: Vec<Vec<T>> = Vec::new();
        let mut i: usize = 0;
        while i < self.rows
            invariant
                self.wf(),
                other.wf(),
                self.cols == other.rows,
                i <= self.rows,
                data@.len() == i,
                forall|k: int| 0 <= k < i ==> (#[trigger] data@[k])@ == mul_grid(self@, other@)[k],
            decreases self.rows - i,
        {
            let mut row: Vec<T> = Vec::new();
            let mut j: usize = 0;
            while j < other.cols
                invariant
                    self.wf(),
                    other.wf(),
                    self.cols == other.rows,
                    i < self.rows,
                    j <= other.cols,
                    row@.len() == j,
                    forall|k: int| 0 <= k < j ==> row@[k] == dot_seq(
                        self@[i as int],
                        column_seq(other@, k),
                    ),
                decreases other.cols - j,
            {
                let mut acc: T = T::zero();
                let mut k: usize = 0;
                while k < self.cols
                    invariant
                        self.wf(),
                        other.wf(),
                        self.cols == other.rows,
                        i < self.rows,
                        j < other.cols,
                        k <= self.cols,
                        acc == dot_seq(
                            self@[i as int].take(k as int),
                            column_seq(other@, j as int).take(k as int),
                        ),
                    decreases self.cols - k,
                {
                    acc = acc.add(self.data[i][k].mul(other.data[k][j]));
                    proof {
                        lemma_dot_seq_take_step(
                            self@[i as int],
                            column_seq(other@, j as int),
                            k as int,
                        );
                    }
                    k += 1;
                }
                proof {
                    assert(self@[i as int].take(self.cols as int) =~= self@[i as int]);
                    assert(column_seq(other@, j as int).take(self.cols as int) =~= column_seq(
                        other@,
                        j as int,
                    ));
                }
                row.push(acc);
                j += 1;
            }
            proof {
                assert(row@ =~= mul_grid(self@, other@)[i as int]);
            }
            data.push(row);
            i += 1;
        }
        let m = Matrix { rows: self.rows, cols: other.cols, data };
        proof {
            assert(m@ =~= mul_grid(self@, other@));
        }
        Ok(m)
    }

    /// The transpose: the result has shape `cols × rows` and holds cell
    /// `(j, i)` of `self` at `(i, j)`.
    pub fn transpose(&self) -> (r: Matrix<T>)
        requires
            self.wf(),
        ensures
            r.wf(),
            r.rows == self.cols,
            r.cols == self.rows,
            r@ == transpose_grid(self@),
    {
        let mut data: Vec<Vec<T>> = Vec::new();
        let mut i: usize = 0;
        while i < self.cols
            invariant
                self.wf(),
                i <= self.cols,
                data@.len() == i,
                forall|k: int| 0 <= k < i ==> (#[trigger] data@[k])@ == transpose_grid(self@)[k],
            decreases self.cols - i,
        {
            let mut row: Vec<T> = Vec::new();
            let mut j: usize = 0;
            while j < self.rows
                invariant
                    self.wf(),
                    i < self.cols,
                    j <= self.rows,
                    row@.len() == j,
                    forall|k: int| 0 <= k < j ==> row@[k] == self@[k][i as int],
                decreases self.rows - j,
            {
                row.push(self.data[j][i]);
                j += 1;
            }
            proof {
                assert(row@ =~= transpose_grid(self@)[i as int]);
            }
            data.push(row);
            i += 1;
        }
        let m = Matrix { rows: self.cols, cols: self.rows, data };
        proof {
            assert(m@ =~= transpose_grid(self@));
        }
        m
    }

    /// Applies a scalar function to every cell, preserving the shape.
    ///
    /// The contract is relational: each result cell is a possible output
    /// of `f` on the corresponding input cell.  A caller whose function
    /// has an exact postcondition recovers an exact grid pointwise.
    pub fn map<G: Fn(T) -> T>(&self, f: G) -> (r: Matrix<T>)
        requires
            self.wf(),
            forall|i: int, j: int|
                0 <= i < self.rows && 0 <= j < self.cols ==> #[trigger] call_requires(
                    f,
                    (self@[i][j],),
                ),
        ensures
            r.wf(),
            r.rows == self.rows,
            r.cols == self.cols,
            forall|i: int, j: int|
                0 <= i < self.rows && 0 <= j < self.cols ==> call_ensures(
                    f,
                    (self@[i][j],),
                    #[trigger] r@[i][j],
                ),
    {
        let mut data: Vec<Vec<T>> = Vec::new();
        let mut i: usize = 0;
        while i < self.rows
            invariant
                self.wf(),
                i <= self.rows,
                data@.len() == i,
                forall|k: int| 0 <= k < i ==> (#[trigger] data@[k])@.len() == self.cols,
                forall|k: int, l: int|
                    0 <= k < i && 0 <= l < self.cols ==> call_ensures(
                        f,
                        (self@[k][l],),
                        #[trigger] data@[k]@[l],
                    ),
                forall|i2: int, j2: int|
                    0 <= i2 < self.rows && 0 <= j2 < self.cols ==> #[trigger] call_requires(
                        f,
                        (self@[i2][j2],),
                    ),
            decreases self.rows - i,
        {
            let mut row: Vec<T> = Vec::new();
            let mut j: usize = 0;
            while j < self.cols
                invariant
                    self.wf(),
                    i < self.rows,
                    j <= self.cols,
                    row@.len() == j,
                    forall|l: int|
                        0 <= l < j ==> call_ensures(f, (self@[i as int][l],), #[trigger] row@[l]),
                    forall|i2: int, j2: int|
                        0 <= i2 < self.rows && 0 <= j2 < self.cols ==> #[trigger] call_requires(
                            f,
                            (self@[i2][j2],),
                        ),
                decreases self.cols - j,
            {
                let x = self.data[i][j];
                proof {
                    assert(call_requires(f, (self@[i as int][j as int],)));
                }
                row.push(f(x));
                j += 1;
            }
            data.push(row);
            i += 1;
        }
        let m = Matrix { rows: self.rows, cols: self.cols, data };
        m
    }
}

impl<T: Scalar> Clone for Matrix<T> {
    /// A deep copy with the same shape fields and the same cells.
    fn clone(&self) -> (r: Self)
        ensures
            r.rows == self.rows,
            r.cols == self.cols,
            r@ == self@,
    {
        let mut data: Vec<Vec<T>> = Vec::new();
        let mut i: usize = 0;
        while i < self.data.len()
            invariant
                i <= self.data@.len(),
                data@.len() == i,
                forall|k: int| 0 <= k < i ==> (#[trigger] data@[k])@ == self.data@[k]@,
            decreases self.data@.len() - i,
        {
            let mut row: Vec<T> = Vec::new();
            let mut j: usize = 0;
            while j < self.data[i].len()
                invariant
                    i < self.data@.len(),
                    j <= self.data@[i as int]@.len(),
                    row@.len() == j,
                    forall|k: int| 0 <= k < j ==> row@[k] == self.data@[i as int]@[k],
                decreases self.data@[i as int]@.len() - j,
            {
                row.push(self.data[i][j]);
                j += 1;
            }
            proof {
                assert(row@ =~= self.data@[i as int]@);
            }
            data.push(row);
            i += 1;
        }
        let r = Matrix { rows: self.rows, cols: self.cols, data };
        proof {
            assert(r@ =~= self@);
        }
        r
    }
}

// ---------------------------------------------------------------------------
// Lemmas
// ---------------------------------------------------------------------------

/// Peeling one term off a left fold of the dot product.
proof fn lemma_dot_seq_take_step<T: Scalar>(a: Seq<T>, b: Seq<T>, k: int)
    requires
        0 <= k < a.len(),
        k < b.len(),
    ensures
        dot_seq(a.take(k + 1), b.take(k + 1)) == dot_seq(a.take(k), b.take(k)).add_spec(
            a[k].mul_spec(b[k]),
        ),
{
    assert(a.take(k + 1).drop_last() =~= a.take(k));
    assert(b.take(k + 1).drop_last() =~= b.take(k));
}

/// Transposition is an involution: transposing any well-formed matrix
/// twice yields the original cells.
pub proof fn lemma_transpose_involution<T>(a: Matrix<T>)
    requires
        a.wf(),
    ensures
        transpose_grid(transpose_grid(a@)) == a@,
{
    assert(transpose_grid(transpose_grid(a@)) =~~= a@);
}

/// Elementwise subtraction undoes elementwise addition: for matrices of
/// identical shape, `sub(add(a, b), b)` holds the cells of `a` again,
/// whenever the scalar type's subtraction cancels its addition on the
/// cells involved.
pub proof fn lemma_add_sub_cancel<T: Scalar>(a: Matrix<T>, b: Matrix<T>)
    requires
        a.wf(),
        b.wf(),
        a.rows == b.rows,
        a.cols == b.cols,
        forall|x: T, y: T| (#[trigger] x.add_spec(y)).sub_spec(y) == x,
    ensures
        sub_grid(add_grid(a@, b@), b@) == a@,
{
    assert(sub_grid(add_grid(a@, b@), b@) =~~= a@);
}

} // verus!
