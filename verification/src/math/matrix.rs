//! Dense row-major matrices: construction, access, products and the row
//! and column operations that elimination is made of.

use vstd::prelude::*;
use crate::math::error::MathError;
use crate::math::scalar::Double;
use crate::math::vector::{
    added, close_seqs, combined, dot_of, dot_prefix, scaled, swapped, zero_seq, Vector,
};

verus! {

/// Whether every row of `m` has `cols` entries.
pub open spec fn rectangular(m: Seq<Seq<Double>>, cols: nat) -> bool {
    forall|i: int| 0 <= i < m.len() ==> (#[trigger] m[i]).len() == cols
}

/// The rows of a matrix as sequences.
pub open spec fn grid_of(rows: Seq<Vector>) -> Seq<Seq<Double>> {
    Seq::new(rows.len(), |i: int| rows[i]@)
}

/// A vector of vectors as sequences.
pub open spec fn nested_of(rows: Seq<Vec<Double>>) -> Seq<Seq<Double>> {
    Seq::new(rows.len(), |i: int| rows[i]@)
}

/// The number of columns that a list of rows fixes: the length of its first
/// row, or zero where there is none.
pub open spec fn first_width(m: Seq<Seq<Double>>) -> nat {
    if m.len() == 0 {
        0
    } else {
        m[0].len()
    }
}

/// The `rows` by `cols` matrix of zeros.
pub open spec fn zero_grid(rows: nat, cols: nat) -> Seq<Seq<Double>> {
    Seq::new(rows, |i: int| zero_seq(cols))
}

/// The identity matrix of order `n`.
pub open spec fn identity_grid(n: nat) -> Seq<Seq<Double>> {
    Seq::new(
        n,
        |i: int| Seq::new(n, |j: int| if i == j { Double::one() } else { Double::zero() }),
    )
}

/// Column `j` of `m`, from the first row to the last.
pub open spec fn column_of(m: Seq<Seq<Double>>, j: int) -> Seq<Double> {
    Seq::new(m.len(), |i: int| m[i][j])
}

/// The transpose of a matrix with `cols` columns.
pub open spec fn transposed(m: Seq<Seq<Double>>, cols: nat) -> Seq<Seq<Double>> {
    Seq::new(cols, |j: int| column_of(m, j))
}

/// `m` with the entry at (`i`, `j`) replaced.
pub open spec fn with_entry(m: Seq<Seq<Double>>, i: int, j: int, value: Double) -> Seq<
    Seq<Double>,
> {
    m.update(i, m[i].update(j, value))
}

/// `a + alpha * b`, entry by entry.
pub open spec fn grid_combined(a: Seq<Seq<Double>>, alpha: Double, b: Seq<Seq<Double>>) -> Seq<
    Seq<Double>,
> {
    Seq::new(a.len(), |i: int| combined(a[i], alpha, b[i]))
}

/// The entrywise sum of two matrices of one shape.
pub open spec fn grid_added(a: Seq<Seq<Double>>, b: Seq<Seq<Double>>) -> Seq<Seq<Double>> {
    Seq::new(a.len(), |i: int| added(a[i], b[i]))
}

/// Every entry multiplied by `k`.
pub open spec fn grid_scaled(m: Seq<Seq<Double>>, k: Double) -> Seq<Seq<Double>> {
    Seq::new(m.len(), |i: int| scaled(m[i], k))
}

/// The matrix-vector product: the dot product of each row with `x`.
pub open spec fn gemv_of(m: Seq<Seq<Double>>, x: Seq<Double>) -> Seq<Double> {
    Seq::new(m.len(), |i: int| dot_of(m[i], x))
}

/// The matrix product: entry (`i`, `j`) is the dot product of row `i` of `a`
/// with column `j` of `b`, summed from left to right over the shared
/// dimension. `cols` is the number of columns of `b`.
pub open spec fn gemm_of(a: Seq<Seq<Double>>, b: Seq<Seq<Double>>, cols: nat) -> Seq<
    Seq<Double>,
> {
    Seq::new(a.len(), |i: int| Seq::new(cols, |j: int| dot_of(a[i], column_of(b, j))))
}

/// The outer product: entry (`i`, `j`) is `a[i] * b[j]`.
pub open spec fn outer_of(a: Seq<Double>, b: Seq<Double>) -> Seq<Seq<Double>> {
    Seq::new(a.len(), |i: int| Seq::new(b.len(), |j: int| a[i].product(b[j])))
}

/// `m` with rows `i` and `j` exchanged.
pub open spec fn rows_swapped(m: Seq<Seq<Double>>, i: int, j: int) -> Seq<Seq<Double>> {
    m.update(i, m[j]).update(j, m[i])
}

/// `m` with row `row` multiplied by `k`.
pub open spec fn row_scaled(m: Seq<Seq<Double>>, row: int, k: Double) -> Seq<Seq<Double>> {
    m.update(row, scaled(m[row], k))
}

/// `m` with `factor` times row `source` added to row `target`.
pub open spec fn row_added(m: Seq<Seq<Double>>, target: int, source: int, factor: Double) -> Seq<
    Seq<Double>,
> {
    m.update(target, combined(m[target], factor, m[source]))
}

/// `m` with columns `c1` and `c2` exchanged.
pub open spec fn columns_swapped(m: Seq<Seq<Double>>, c1: int, c2: int) -> Seq<Seq<Double>> {
    Seq::new(m.len(), |i: int| swapped(m[i], c1, c2))
}

/// `m` with column `col` multiplied by `k`.
pub open spec fn column_scaled(m: Seq<Seq<Double>>, col: int, k: Double) -> Seq<Seq<Double>> {
    Seq::new(m.len(), |i: int| m[i].update(col, m[i][col].product(k)))
}

/// `m` with `factor` times column `source` added to column `target`.
pub open spec fn column_added(
    m: Seq<Seq<Double>>,
    target: int,
    source: int,
    factor: Double,
) -> Seq<Seq<Double>> {
    Seq::new(m.len(), |i: int| m[i].update(target, m[i][target].sum(factor.product(m[i][source]))))
}

/// The rows of `m` from the last to the first.
pub open spec fn rows_reversed(m: Seq<Seq<Double>>) -> Seq<Seq<Double>> {
    Seq::new(m.len(), |i: int| m[m.len() - 1 - i])
}

/// Two matrices of one shape whose entries all count as equal.
pub open spec fn close_grids(a: Seq<Seq<Double>>, b: Seq<Seq<Double>>) -> bool {
    a.len() == b.len() && forall|i: int| 0 <= i < a.len() ==> close_seqs(#[trigger] a[i], b[i])
}

/// Transposing twice gives the matrix back: the rows, and with them the
/// number of rows, are those of `m`.
pub proof fn lemma_transpose_involution(m: Seq<Seq<Double>>, cols: nat)
    requires
        rectangular(m, cols),
    ensures
        transposed(transposed(m, cols), m.len()) == m,
        transposed(m, cols).len() == cols,
        rectangular(transposed(m, cols), m.len()),
{
    let t = transposed(m, cols);
    let tt = transposed(t, m.len());
    assert forall|i: int| 0 <= i < m.len() implies tt[i] == m[i] by {
    }
}

/// A dense row-major matrix of doubles: its rows all have `cols` entries.
#[derive(Debug)]
pub struct Matrix {
    pub(crate) rows: Vec<Vector>,
    pub(crate) cols: usize,
}

impl View for Matrix {
    type V = Seq<Seq<Double>>;

    open(crate) spec fn view(&self) -> Seq<Seq<Double>> {
        grid_of(self.rows@)
    }
}

impl Clone for Matrix {
    fn clone(&self) -> (r: Self)
        ensures
            r@ == self@,
            r.spec_cols() == self.spec_cols(),
    {
        proof {
            use_type_invariant(self);
        }
        let rows = copy_rows(&self.rows);
        Matrix { rows, cols: self.cols }
    }
}

impl PartialEq for Matrix {
    /// Equality up to the machine epsilon, as `approx_eq` computes it.
    fn eq(&self, other: &Matrix) -> (r: bool) {
        self.approx_eq(other)
    }
}

impl vstd::std_specs::cmp::PartialEqSpecImpl for Matrix {
    open spec fn obeys_eq_spec() -> bool {
        true
    }

    open spec fn eq_spec(&self, other: &Matrix) -> bool {
        self.spec_cols() == other.spec_cols() && close_grids(self@, other@)
    }
}

/// A copy of a list of rows.
pub(crate) fn copy_rows(rows: &Vec<Vector>) -> (r: Vec<Vector>)
    ensures
        grid_of(r@) == grid_of(rows@),
        r@.len() == rows@.len(),
        forall|k: int| 0 <= k < r@.len() ==> (#[trigger] r@[k])@ == rows@[k]@,
{
    let n: usize = rows.len();
    let mut out: Vec<Vector> = Vec::new();
    let mut i: usize = 0;
    while i < n
        invariant
            n == rows@.len(),
            i <= n,
            out@.len() == i,
            forall|k: int| 0 <= k < i ==> (#[trigger] out@[k])@ == rows@[k]@,
        decreases n - i,
    {
        out.push(rows[i].clone());
        i += 1;
    }
    out
}

impl Matrix {
    /// The number of columns, also where there is no row.
    pub open(crate) spec fn spec_cols(&self) -> nat {
        self.cols as nat
    }

    /// Every row has as many entries as the matrix has columns.
    #[verifier::type_invariant]
    pub open(crate) spec fn wf(&self) -> bool {
        forall|i: int| 0 <= i < self.rows@.len() ==> (#[trigger] self.rows@[i])@.len() == self.cols
    }

    /// What the invariant says of the view.
    pub proof fn lemma_rectangular(&self)
        requires
            self.wf(),
        ensures
            rectangular(self@, self.spec_cols()),
    {
    }

    /// Builds a matrix from rows; the first row fixes the number of columns.
    pub fn new(input: Vec<Vec<Double>>) -> (r: Result<Matrix, MathError>)
        ensures
            match r {
                Ok(m) => rectangular(nested_of(input@), first_width(nested_of(input@))) && m@
                    == nested_of(input@) && m.spec_cols() == first_width(nested_of(input@)),
                Err(e) => e == MathError::DimensionMismatch && !rectangular(
                    nested_of(input@),
                    first_width(nested_of(input@)),
                ),
            },
    {
        let n: usize = input.len();
        let cols: usize = if n == 0 {
            0
        } else {
            input[0].len()
        };
        let mut rows: Vec<Vector> = Vec::new();
        let mut i: usize = 0;
        while i < n
            invariant
                n == input@.len(),
                cols == first_width(nested_of(input@)),
                i <= n,
                rows@.len() == i,
                forall|k: int| 0 <= k < i ==> (#[trigger] rows@[k])@ == input@[k]@,
                forall|k: int| 0 <= k < i ==> (#[trigger] input@[k])@.len() == cols,
            decreases n - i,
        {
            if input[i].len() != cols {
                assert(nested_of(input@)[i as int].len() != cols);
                return Err(MathError::DimensionMismatch);
            }
            let mut row: Vec<Double> = Vec::new();
            let mut j: usize = 0;
            while j < cols
                invariant
                    i < n,
                    n == input@.len(),
                    cols == input@[i as int]@.len(),
                    j <= cols,
                    row@ == input@[i as int]@.subrange(0, j as int),
                decreases cols - j,
            {
                row.push(input[i][j]);
                j += 1;
            }
            rows.push(Vector::new(row));
            i += 1;
        }
        let m = Matrix { rows, cols };
        Ok(m)
    }

    /// Builds a matrix from vectors; the first one fixes the number of
    /// columns.
    pub fn from_vector(input: Vec<Vector>) -> (r: Result<Matrix, MathError>)
        ensures
            match r {
                Ok(m) => rectangular(grid_of(input@), first_width(grid_of(input@))) && m@
                    == grid_of(input@) && m.spec_cols() == first_width(grid_of(input@)),
                Err(e) => e == MathError::DimensionMismatch && !rectangular(
                    grid_of(input@),
                    first_width(grid_of(input@)),
                ),
            },
    {
        let n: usize = input.len();
        let cols: usize = if n == 0 {
            0
        } else {
            input[0].len()
        };
        let mut i: usize = 0;
        while i < n
            invariant
                n == input@.len(),
                cols == first_width(grid_of(input@)),
                i <= n,
                forall|k: int| 0 <= k < i ==> (#[trigger] input@[k])@.len() == cols,
            decreases n - i,
        {
            if input[i].len() != cols {
                assert(grid_of(input@)[i as int].len() != cols);
                return Err(MathError::DimensionMismatch);
            }
            i += 1;
        }
        Ok(Matrix { rows: input, cols })
    }

    /// The matrix of `rows` by `cols` zeros.
    pub fn zeros(rows: usize, cols: usize) -> (m: Matrix)
        ensures
            m@ == zero_grid(rows as nat, cols as nat),
            m.spec_cols() == cols,
    {
        let mut data: Vec<Vector> = Vec::new();
        let mut i: usize = 0;
        while i < rows
            invariant
                i <= rows,
                data@.len() == i,
                forall|k: int| 0 <= k < i ==> (#[trigger] data@[k])@ == zero_seq(cols as nat),
            decreases rows - i,
        {
            data.push(Vector::zeros(cols));
            i += 1;
        }
        let m = Matrix { rows: data, cols };
        m
    }

    /// The identity matrix of order `size`.
    pub fn identity(size: usize) -> (m: Matrix)
        ensures
            m@ == identity_grid(size as nat),
            m.spec_cols() == size,
    {
        let mut data: Vec<Vector> = Vec::new();
        let mut i: usize = 0;
        while i < size
            invariant
                i <= size,
                data@.len() == i,
                forall|k: int| 0 <= k < i ==> (#[trigger] data@[k])@ == identity_grid(size as nat)[k],
            decreases size - i,
        {
            let mut row = Vector::zeros(size);
            row.data[i] = Double::one();
            data.push(row);
            i += 1;
        }
        let m = Matrix { rows: data, cols: size };
        m
    }

    /// A matrix of `rows` by `cols` values drawn from `draw`, row by row.
    pub fn random<F: Fn() -> Double>(rows: usize, cols: usize, draw: F) -> (m: Matrix)
        requires
            draw.requires(()),
        ensures
            m@.len() == rows,
            m.spec_cols() == cols,
            rectangular(m@, cols as nat),
            forall|i: int, j: int|
                0 <= i < rows && 0 <= j < cols ==> draw.ensures((), #[trigger] m@[i][j]),
    {
        let mut data: Vec<Vector> = Vec::new();
        let mut i: usize = 0;
        while i < rows
            invariant
                i <= rows,
                draw.requires(()),
                data@.len() == i,
                forall|k: int| 0 <= k < i ==> (#[trigger] data@[k])@.len() == cols,
                forall|k: int, j: int|
                    0 <= k < i && 0 <= j < cols ==> draw.ensures((), #[trigger] data@[k]@[j]),
            decreases rows - i,
        {
            let mut row: Vec<Double> = Vec::new();
            let mut j: usize = 0;
            while j < cols
                invariant
                    j <= cols,
                    draw.requires(()),
                    row@.len() == j,
                    forall|k: int| 0 <= k < j ==> draw.ensures((), #[trigger] row@[k]),
                decreases cols - j,
            {
                let x = draw();
                row.push(x);
                j += 1;
            }
            data.push(Vector::new(row));
            i += 1;
        }
        Matrix { rows: data, cols }
    }

    /// The number of rows.
    pub fn row_count(&self) -> (n: usize)
        ensures
            n == self@.len(),
    {
        self.rows.len()
    }

    /// The number of columns.
    pub fn col_count(&self) -> (n: usize)
        ensures
            n == self.spec_cols(),
    {
        self.cols
    }

    /// The row at `index`, where there is one.
    pub fn get_row(&self, index: usize) -> (r: Option<&Vector>)
        ensures
            match r {
                Some(row) => index < self@.len() && row@ == self@[index as int],
                None => index >= self@.len(),
            },
    {
        if index < self.rows.len() {
            Some(&self.rows[index])
        } else {
            None
        }
    }

    /// The entry in row `row` and column `col`.
    pub fn get(&self, row: usize, col: usize) -> (r: Result<Double, MathError>)
        ensures
            match r {
                Ok(x) => row < self@.len() && col < self.spec_cols() && x
                    == self@[row as int][col as int],
                Err(e) => e == MathError::IndexOutOfRange && (row >= self@.len() || col
                    >= self.spec_cols()),
            },
    {
        proof {
            use_type_invariant(self);
        }
        if row < self.rows.len() && col < self.cols {
            Ok(self.rows[row].data[col])
        } else {
            Err(MathError::IndexOutOfRange)
        }
    }

    /// Replaces the entry in row `row` and column `col`.
    pub fn set(&mut self, row: usize, col: usize, value: Double) -> (r: Result<(), MathError>)
        ensures
            final(self).spec_cols() == old(self).spec_cols(),
            match r {
                Ok(_) => row < old(self)@.len() && col < old(self).spec_cols() && final(self)@
                    == with_entry(old(self)@, row as int, col as int, value),
                Err(e) => e == MathError::IndexOutOfRange && (row >= old(self)@.len() || col
                    >= old(self).spec_cols()) && final(self)@ == old(self)@,
            },
    {
        proof {
            use_type_invariant(&*self);
        }
        if row < self.rows.len() && col < self.cols {
            let mut rows: Vec<Vector> = Vec::new();
            core::mem::swap(&mut self.rows, &mut rows);
            rows[row].data[col] = value;
            core::mem::swap(&mut self.rows, &mut rows);
            Ok(())
        } else {
            Err(MathError::IndexOutOfRange)
        }
    }

    /// The transpose, as a new matrix.
    pub fn transpose(&self) -> (m: Matrix)
        ensures
            m@ == transposed(self@, self.spec_cols()),
            m.spec_cols() == self@.len(),
    {
        proof {
            use_type_invariant(self);
        }
        let n: usize = self.rows.len();
        let c: usize = self.cols;
        let mut data: Vec<Vector> = Vec::new();
        let mut j: usize = 0;
        while j < c
            invariant
                n == self.rows@.len(),
                c == self.cols,
                self.wf(),
                j <= c,
                data@.len() == j,
                forall|k: int| 0 <= k < j ==> (#[trigger] data@[k])@ == column_of(self@, k),
            decreases c - j,
        {
            let mut column: Vec<Double> = Vec::new();
            let mut i: usize = 0;
            while i < n
                invariant
                    n == self.rows@.len(),
                    c == self.cols,
                    self.wf(),
                    j < c,
                    i <= n,
                    column@.len() == i,
                    forall|k: int| 0 <= k < i ==> #[trigger] column@[k] == self@[k][j as int],
                decreases n - i,
            {
                column.push(self.rows[i].data[j]);
                i += 1;
            }
            data.push(Vector::new(column));
            j += 1;
        }
        let m = Matrix { rows: data, cols: n };
        m
    }

    /// Adds `other` to `self` entry by entry, each entry of `other` taken
    /// once.
    pub fn add_assign(&mut self, other: &Matrix) -> (r: Result<(), MathError>)
        ensures
            final(self).spec_cols() == old(self).spec_cols(),
            match r {
                Ok(_) => old(self)@.len() == other@.len() && old(self).spec_cols()
                    == other.spec_cols() && final(self)@ == grid_combined(
                    old(self)@,
                    Double::one(),
                    other@,
                ),
                Err(e) => e == MathError::DimensionMismatch && !(old(self)@.len() == other@.len()
                    && old(self).spec_cols() == other.spec_cols()) && final(self)@ == old(self)@,
            },
    {
        proof {
            use_type_invariant(&*self);
            use_type_invariant(other);
        }
        let n: usize = self.rows.len();
        if other.rows.len() != n || other.cols != self.cols {
            return Err(MathError::DimensionMismatch);
        }
        let mut rows: Vec<Vector> = Vec::new();
        core::mem::swap(&mut self.rows, &mut rows);
        let mut i: usize = 0;
        while i < n
            invariant
                n == rows@.len(),
                n == other.rows@.len(),
                n == old(self).rows@.len(),
                old(self).wf(),
                other.wf(),
                other.cols == old(self).cols,
                i <= n,
                forall|k: int| 0 <= k < n ==> (#[trigger] rows@[k])@.len() == old(self).cols,
                forall|k: int|
                    0 <= k < i ==> (#[trigger] rows@[k])@ == combined(
                        old(self)@[k],
                        Double::one(),
                        other@[k],
                    ),
                forall|k: int| i <= k < n ==> (#[trigger] rows@[k])@ == old(self)@[k],
            decreases n - i,
        {
            let done = rows[i].add_assign(&other.rows[i], Double::one());
            i += 1;
        }
        core::mem::swap(&mut self.rows, &mut rows);
        Ok(())
    }

    /// The entrywise sum, as a new matrix.
    pub fn add(&self, other: &Matrix) -> (r: Result<Matrix, MathError>)
        ensures
            match r {
                Ok(m) => self@.len() == other@.len() && self.spec_cols() == other.spec_cols()
                    && m@ == grid_added(self@, other@) && m.spec_cols() == self.spec_cols(),
                Err(e) => e == MathError::DimensionMismatch && !(self@.len() == other@.len()
                    && self.spec_cols() == other.spec_cols()),
            },
    {
        proof {
            use_type_invariant(self);
            use_type_invariant(other);
        }
        let n: usize = self.rows.len();
        if other.rows.len() != n || other.cols != self.cols {
            return Err(MathError::DimensionMismatch);
        }
        let mut data: Vec<Vector> = Vec::new();
        let mut i: usize = 0;
        while i < n
            invariant
                n == self.rows@.len(),
                n == other.rows@.len(),
                self.wf(),
                other.wf(),
                other.cols == self.cols,
                i <= n,
                data@.len() == i,
                forall|k: int| 0 <= k < i ==> (#[trigger] data@[k])@ == added(self@[k], other@[k]),
            decreases n - i,
        {
            match self.rows[i].add(&other.rows[i]) {
                Ok(row) => {
                    data.push(row);
                },
                Err(_) => {
                    assert(false);
                },
            }
            i += 1;
        }
        let m = Matrix { rows: data, cols: self.cols };
        Ok(m)
    }

    /// The matrix-vector product.
    pub fn gemv(&self, x: &Vector) -> (r: Result<Vector, MathError>)
        ensures
            match r {
                Ok(v) => self.spec_cols() == x@.len() && v@ == gemv_of(self@, x@),
                Err(e) => e == MathError::DimensionMismatch && self.spec_cols() != x@.len(),
            },
    {
        proof {
            use_type_invariant(self);
        }
        if self.cols != x.len() {
            return Err(MathError::DimensionMismatch);
        }
        let n: usize = self.rows.len();
        let mut data: Vec<Double> = Vec::new();
        let mut i: usize = 0;
        while i < n
            invariant
                n == self.rows@.len(),
                self.wf(),
                self.cols == x@.len(),
                i <= n,
                data@.len() == i,
                forall|k: int| 0 <= k < i ==> #[trigger] data@[k] == dot_of(self@[k], x@),
            decreases n - i,
        {
            match self.rows[i].dot(x) {
                Ok(d) => {
                    data.push(d);
                },
                Err(_) => {
                    assert(false);
                },
            }
            i += 1;
        }
        Ok(Vector::new(data))
    }

    /// The matrix product. Each row of the result is accumulated over the
    /// shared dimension, one row of `other` at a time.
    pub fn gemm(&self, other: &Matrix) -> (r: Result<Matrix, MathError>)
        ensures
            match r {
                Ok(m) => self.spec_cols() == other@.len() && m@ == gemm_of(
                    self@,
                    other@,
                    other.spec_cols(),
                ) && m.spec_cols() == other.spec_cols(),
                Err(e) => e == MathError::DimensionMismatch && self.spec_cols() != other@.len(),
            },
    {
        proof {
            use_type_invariant(self);
            use_type_invariant(other);
        }
        if self.cols != other.rows.len() {
            return Err(MathError::DimensionMismatch);
        }
        let m: usize = self.rows.len();
        let n: usize = other.cols;
        let k: usize = self.cols;
        let mut data: Vec<Vector> = Vec::new();
        let mut i: usize = 0;
        while i < m
            invariant
                m == self.rows@.len(),
                n == other.cols,
                k == self.cols,
                k == other.rows@.len(),
                self.wf(),
                other.wf(),
                i <= m,
                data@.len() == i,
                forall|t: int|
                    0 <= t < i ==> (#[trigger] data@[t])@ == gemm_of(self@, other@, n as nat)[t],
            decreases m - i,
        {
            let mut row = Vector::zeros(n);
            let mut p: usize = 0;
            while p < k
                invariant
                    i < m,
                    m == self.rows@.len(),
                    n == other.cols,
                    k == self.cols,
                    k == other.rows@.len(),
                    self.wf(),
                    other.wf(),
                    p <= k,
                    row@.len() == n,
                    forall|j: int|
                        0 <= j < n ==> #[trigger] row@[j] == dot_prefix(
                            self@[i as int],
                            column_of(other@, j),
                            p as int,
                        ),
                decreases k - p,
            {
                let self_ip = self.rows[i].data[p];
                let mut j: usize = 0;
                while j < n
                    invariant
                        i < m,
                        m == self.rows@.len(),
                        n == other.cols,
                        k == self.cols,
                        k == other.rows@.len(),
                        self.wf(),
                        other.wf(),
                        p < k,
                        self_ip == self@[i as int][p as int],
                        j <= n,
                        row@.len() == n,
                        forall|t: int|
                            0 <= t < j ==> #[trigger] row@[t] == dot_prefix(
                                self@[i as int],
                                column_of(other@, t),
                                p + 1,
                            ),
                        forall|t: int|
                            j <= t < n ==> #[trigger] row@[t] == dot_prefix(
                                self@[i as int],
                                column_of(other@, t),
                                p as int,
                            ),
                    decreases n - j,
                {
                    let updated = row.data[j].plus(self_ip.times(other.rows[p].data[j]));
                    row.data[j] = updated;
                    j += 1;
                }
                p += 1;
            }
            data.push(row);
            i += 1;
        }
        let result = Matrix { rows: data, cols: n };
        Ok(result)
    }

    /// Multiplies every entry by `factor`, in place.
    pub fn scale(&mut self, factor: Double)
        ensures
            final(self).spec_cols() == old(self).spec_cols(),
            final(self)@ == grid_scaled(old(self)@, factor),
    {
        proof {
            use_type_invariant(&*self);
        }
        let n: usize = self.rows.len();
        let mut rows: Vec<Vector> = Vec::new();
        core::mem::swap(&mut self.rows, &mut rows);
        let mut i: usize = 0;
        while i < n
            invariant
                n == rows@.len(),
                n == old(self).rows@.len(),
                old(self).wf(),
                i <= n,
                forall|k: int| 0 <= k < n ==> (#[trigger] rows@[k])@.len() == old(self).cols,
                forall|k: int| 0 <= k < i ==> (#[trigger] rows@[k])@ == scaled(old(self)@[k], factor),
                forall|k: int| i <= k < n ==> (#[trigger] rows@[k])@ == old(self)@[k],
            decreases n - i,
        {
            rows[i].scale_assign(factor);
            i += 1;
        }
        core::mem::swap(&mut self.rows, &mut rows);
    }

    /// Exchanges two rows.
    pub fn swap_rows(&mut self, row1: usize, row2: usize) -> (r: Result<(), MathError>)
        ensures
            final(self).spec_cols() == old(self).spec_cols(),
            match r {
                Ok(_) => row1 < old(self)@.len() && row2 < old(self)@.len() && final(self)@
                    == rows_swapped(old(self)@, row1 as int, row2 as int),
                Err(e) => e == MathError::IndexOutOfRange && (row1 >= old(self)@.len() || row2
                    >= old(self)@.len()) && final(self)@ == old(self)@,
            },
    {
        proof {
            use_type_invariant(&*self);
        }
        let n: usize = self.rows.len();
        if row1 >= n || row2 >= n {
            return Err(MathError::IndexOutOfRange);
        }
        let mut rows: Vec<Vector> = Vec::new();
        core::mem::swap(&mut self.rows, &mut rows);
        exchange_rows(&mut rows, row1, row2);
        core::mem::swap(&mut self.rows, &mut rows);
        Ok(())
    }

    /// Multiplies one row by `factor`.
    pub fn scale_row(&mut self, row: usize, factor: Double) -> (r: Result<(), MathError>)
        ensures
            final(self).spec_cols() == old(self).spec_cols(),
            match r {
                Ok(_) => row < old(self)@.len() && final(self)@ == row_scaled(
                    old(self)@,
                    row as int,
                    factor,
                ),
                Err(e) => e == MathError::IndexOutOfRange && row >= old(self)@.len()
                    && final(self)@ == old(self)@,
            },
    {
        proof {
            use_type_invariant(&*self);
        }
        if row >= self.rows.len() {
            return Err(MathError::IndexOutOfRange);
        }
        let mut rows: Vec<Vector> = Vec::new();
        core::mem::swap(&mut self.rows, &mut rows);
        rows[row].scale_assign(factor);
        core::mem::swap(&mut self.rows, &mut rows);
        Ok(())
    }

    /// Adds `factor` times row `source` to row `target`. The two may be any
    /// valid rows, in either order.
    pub fn add_rows(&mut self, target: usize, source: usize, factor: Double) -> (r: Result<
        (),
        MathError,
    >)
        ensures
            final(self).spec_cols() == old(self).spec_cols(),
            match r {
                Ok(_) => target < old(self)@.len() && source < old(self)@.len() && final(self)@
                    == row_added(old(self)@, target as int, source as int, factor),
                Err(e) => e == MathError::IndexOutOfRange && (target >= old(self)@.len() || source
                    >= old(self)@.len()) && final(self)@ == old(self)@,
            },
    {
        proof {
            use_type_invariant(&*self);
        }
        let n: usize = self.rows.len();
        if target >= n || source >= n {
            return Err(MathError::IndexOutOfRange);
        }
        let from = self.rows[source].clone();
        let mut rows: Vec<Vector> = Vec::new();
        core::mem::swap(&mut self.rows, &mut rows);
        let done = rows[target].add_assign(&from, factor);
        core::mem::swap(&mut self.rows, &mut rows);
        Ok(())
    }

    /// Exchanges two columns.
    pub fn swap_columns(&mut self, c1: usize, c2: usize) -> (r: Result<(), MathError>)
        ensures
            final(self).spec_cols() == old(self).spec_cols(),
            match r {
                Ok(_) => c1 < old(self).spec_cols() && c2 < old(self).spec_cols() && final(self)@
                    == columns_swapped(old(self)@, c1 as int, c2 as int),
                Err(e) => e == MathError::IndexOutOfRange && (c1 >= old(self).spec_cols() || c2
                    >= old(self).spec_cols()) && final(self)@ == old(self)@,
            },
    {
        proof {
            use_type_invariant(&*self);
        }
        if c1 >= self.cols || c2 >= self.cols {
            return Err(MathError::IndexOutOfRange);
        }
        let n: usize = self.rows.len();
        let mut rows: Vec<Vector> = Vec::new();
        core::mem::swap(&mut self.rows, &mut rows);
        let mut i: usize = 0;
        while i < n
            invariant
                n == rows@.len(),
                n == old(self).rows@.len(),
                old(self).wf(),
                c1 < old(self).cols,
                c2 < old(self).cols,
                i <= n,
                forall|k: int| 0 <= k < n ==> (#[trigger] rows@[k])@.len() == old(self).cols,
                forall|k: int|
                    0 <= k < i ==> (#[trigger] rows@[k])@ == swapped(
                        old(self)@[k],
                        c1 as int,
                        c2 as int,
                    ),
                forall|k: int| i <= k < n ==> (#[trigger] rows@[k])@ == old(self)@[k],
            decreases n - i,
        {
            let done = rows[i].swap(c1, c2);
            i += 1;
        }
        core::mem::swap(&mut self.rows, &mut rows);
        Ok(())
    }

    /// Multiplies one column by `factor`.
    pub fn scale_column(&mut self, col: usize, factor: Double) -> (r: Result<(), MathError>)
        ensures
            final(self).spec_cols() == old(self).spec_cols(),
            match r {
                Ok(_) => col < old(self).spec_cols() && final(self)@ == column_scaled(
                    old(self)@,
                    col as int,
                    factor,
                ),
                Err(e) => e == MathError::IndexOutOfRange && col >= old(self).spec_cols()
                    && final(self)@ == old(self)@,
            },
    {
        proof {
            use_type_invariant(&*self);
        }
        if col >= self.cols {
            return Err(MathError::IndexOutOfRange);
        }
        let n: usize = self.rows.len();
        let mut rows: Vec<Vector> = Vec::new();
        core::mem::swap(&mut self.rows, &mut rows);
        let mut i: usize = 0;
        while i < n
            invariant
                n == rows@.len(),
                n == old(self).rows@.len(),
                old(self).wf(),
                col < old(self).cols,
                i <= n,
                forall|k: int| 0 <= k < n ==> (#[trigger] rows@[k])@.len() == old(self).cols,
                forall|k: int|
                    0 <= k < i ==> (#[trigger] rows@[k])@ == old(self)@[k].update(
                        col as int,
                        old(self)@[k][col as int].product(factor),
                    ),
                forall|k: int| i <= k < n ==> (#[trigger] rows@[k])@ == old(self)@[k],
            decreases n - i,
        {
            let updated = rows[i].data[col].times(factor);
            rows[i].data[col] = updated;
            i += 1;
        }
        core::mem::swap(&mut self.rows, &mut rows);
        Ok(())
    }

    /// Adds `factor` times column `source` to column `target`.
    pub fn add_columns(&mut self, target: usize, source: usize, factor: Double) -> (r: Result<
        (),
        MathError,
    >)
        ensures
            final(self).spec_cols() == old(self).spec_cols(),
            match r {
                Ok(_) => target < old(self).spec_cols() && source < old(self).spec_cols()
                    && final(self)@ == column_added(
                    old(self)@,
                    target as int,
                    source as int,
                    factor,
                ),
                Err(e) => e == MathError::IndexOutOfRange && (target >= old(self).spec_cols()
                    || source >= old(self).spec_cols()) && final(self)@ == old(self)@,
            },
    {
        proof {
            use_type_invariant(&*self);
        }
        if target >= self.cols || source >= self.cols {
            return Err(MathError::IndexOutOfRange);
        }
        let n: usize = self.rows.len();
        let mut rows: Vec<Vector> = Vec::new();
        core::mem::swap(&mut self.rows, &mut rows);
        let mut i: usize = 0;
        while i < n
            invariant
                n == rows@.len(),
                n == old(self).rows@.len(),
                old(self).wf(),
                target < old(self).cols,
                source < old(self).cols,
                i <= n,
                forall|k: int| 0 <= k < n ==> (#[trigger] rows@[k])@.len() == old(self).cols,
                forall|k: int|
                    0 <= k < i ==> (#[trigger] rows@[k])@ == old(self)@[k].update(
                        target as int,
                        old(self)@[k][target as int].sum(
                            factor.product(old(self)@[k][source as int]),
                        ),
                    ),
                forall|k: int| i <= k < n ==> (#[trigger] rows@[k])@ == old(self)@[k],
            decreases n - i,
        {
            let updated = rows[i].data[target].plus(factor.times(rows[i].data[source]));
            rows[i].data[target] = updated;
            i += 1;
        }
        core::mem::swap(&mut self.rows, &mut rows);
        Ok(())
    }

    /// The rows in reverse order, as a new matrix.
    pub fn reverse_rows(&self) -> (m: Matrix)
        ensures
            m@ == rows_reversed(self@),
            m.spec_cols() == self.spec_cols(),
    {
        proof {
            use_type_invariant(self);
        }
        let n: usize = self.rows.len();
        let mut data: Vec<Vector> = Vec::new();
        let mut i: usize = 0;
        while i < n
            invariant
                n == self.rows@.len(),
                self.wf(),
                i <= n,
                data@.len() == i,
                forall|k: int| 0 <= k < i ==> (#[trigger] data@[k])@ == self@[n - 1 - k],
            decreases n - i,
        {
            data.push(self.rows[n - 1 - i].clone());
            i += 1;
        }
        let m = Matrix { rows: data, cols: self.cols };
        m
    }

    /// Column `col`, as a new vector.
    pub fn get_column(&self, col: usize) -> (r: Result<Vector, MathError>)
        ensures
            match r {
                Ok(v) => col < self.spec_cols() && v@ == column_of(self@, col as int),
                Err(e) => e == MathError::IndexOutOfRange && col >= self.spec_cols(),
            },
    {
        proof {
            use_type_invariant(self);
        }
        if col >= self.cols {
            return Err(MathError::IndexOutOfRange);
        }
        let n: usize = self.rows.len();
        let mut data: Vec<Double> = Vec::new();
        let mut i: usize = 0;
        while i < n
            invariant
                n == self.rows@.len(),
                self.wf(),
                col < self.cols,
                i <= n,
                data@.len() == i,
                forall|k: int| 0 <= k < i ==> #[trigger] data@[k] == self@[k][col as int],
            decreases n - i,
        {
            data.push(self.rows[i].data[col]);
            i += 1;
        }
        Ok(Vector::new(data))
    }

    /// Whether the two matrices have one shape and entries that all count as
    /// equal.
    pub fn approx_eq(&self, other: &Matrix) -> (r: bool)
        ensures
            r == (self.spec_cols() == other.spec_cols() && close_grids(self@, other@)),
    {
        let n: usize = self.rows.len();
        if other.rows.len() != n || other.cols != self.cols {
            return false;
        }
        let mut i: usize = 0;
        while i < n
            invariant
                n == self.rows@.len(),
                n == other.rows@.len(),
                i <= n,
                forall|k: int| 0 <= k < i ==> close_seqs(#[trigger] self@[k], other@[k]),
            decreases n - i,
        {
            if !self.rows[i].approx_eq(&other.rows[i]) {
                assert(!close_seqs(self@[i as int], other@[i as int]));
                return false;
            }
            i += 1;
        }
        true
    }
}

/// Exchanges two rows of a list of rows.
pub(crate) fn exchange_rows(rows: &mut Vec<Vector>, i: usize, j: usize)
    requires
        i < old(rows)@.len(),
        j < old(rows)@.len(),
    ensures
        final(rows)@.len() == old(rows)@.len(),
        forall|k: int|
            0 <= k < old(rows)@.len() ==> (#[trigger] final(rows)@[k])@ == (if k == i {
                old(rows)@[j as int]@
            } else if k == j {
                old(rows)@[i as int]@
            } else {
                old(rows)@[k]@
            }),
{
    if i == j {
        return;
    }
    let mut held = Vector::new(Vec::new());
    core::mem::swap(&mut rows[i], &mut held);
    core::mem::swap(&mut rows[j], &mut held);
    core::mem::swap(&mut rows[i], &mut held);
}

impl Vector {
    /// The outer product with `other`, as a new matrix.
    pub fn outer_product(&self, other: &Vector) -> (m: Matrix)
        ensures
            m@ == outer_of(self@, other@),
            m.spec_cols() == other@.len(),
    {
        let rows: usize = self.data.len();
        let cols: usize = other.data.len();
        let mut data: Vec<Vector> = Vec::new();
        let mut i: usize = 0;
        while i < rows
            invariant
                rows == self@.len(),
                cols == other@.len(),
                i <= rows,
                data@.len() == i,
                forall|k: int| 0 <= k < i ==> (#[trigger] data@[k])@ == outer_of(self@, other@)[k],
            decreases rows - i,
        {
            let mut row: Vec<Double> = Vec::new();
            let mut j: usize = 0;
            while j < cols
                invariant
                    rows == self@.len(),
                    cols == other@.len(),
                    i < rows,
                    j <= cols,
                    row@.len() == j,
                    forall|k: int|
                        0 <= k < j ==> #[trigger] row@[k] == self@[i as int].product(other@[k]),
                decreases cols - j,
            {
                row.push(self.data[i].times(other.data[j]));
                j += 1;
            }
            data.push(Vector::new(row));
            i += 1;
        }
        let m = Matrix { rows: data, cols };
        m
    }
}

} // verus!
