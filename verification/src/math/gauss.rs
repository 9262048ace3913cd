//! Gaussian elimination on an augmented matrix.

use vstd::prelude::*;
use crate::math::error::MathError;
use crate::math::lu::{lemma_pivot_scan_in_range, pivot_scan};
use crate::math::matrix::{exchange_rows, grid_of, rectangular, rows_swapped, Matrix};
use crate::math::scalar::Double;
use crate::math::vector::{zero_seq, Vector};

verus! {

/// What the forward phase leaves: the matrix as it stands, and whether the
/// phase stopped at a negligible pivot.
pub struct Elimination {
    pub grid: Seq<Seq<Double>>,
    pub singular: bool,
}

/// A row below pivot row `i` after its entry in column `i` was eliminated:
/// from column `i` on, the multiple of the pivot row is taken off.
pub open spec fn cleared_row(row: Seq<Double>, pivot: Seq<Double>, i: int) -> Seq<Double> {
    let factor = row[i].quotient(pivot[i]);
    Seq::new(
        row.len(),
        |k: int|
            if k < i {
                row[k]
            } else {
                row[k].difference(factor.product(pivot[k]))
            },
    )
}

/// The matrix after column `i` was eliminated below pivot row `i`.
pub open spec fn cleared(m: Seq<Seq<Double>>, i: int) -> Seq<Seq<Double>> {
    Seq::new(
        m.len(),
        |j: int|
            if j <= i {
                m[j]
            } else {
                cleared_row(m[j], m[i], i)
            },
    )
}

/// The forward phase on `n` rows from pivot column `i` on: the row with the
/// largest magnitude at or below the diagonal is found; where even that is
/// under the tolerance the phase stops, else the row is brought up and the
/// column eliminated below it.
pub open spec fn forward_from(m: Seq<Seq<Double>>, i: int, n: int) -> Elimination
    decreases n - i,
{
    if i < 0 || i >= n {
        Elimination { grid: m, singular: false }
    } else {
        let p = pivot_scan(m, i, n);
        if m[p][i].abs().lt(Double::pivot_tolerance()) {
            Elimination { grid: m, singular: true }
        } else {
            forward_from(cleared(rows_swapped(m, i, p), i), i + 1, n)
        }
    }
}

/// The forward phase keeps the shape, and where it does not stop no entry
/// on the diagonal of what it leaves is under the tolerance: the back
/// substitution divides by no negligible pivot.
pub proof fn lemma_forward_from_sound(m: Seq<Seq<Double>>, i: int, n: int)
    requires
        0 <= i <= n,
        m.len() == n,
        rectangular(m, (n + 1) as nat),
        forall|t: int| 0 <= t < i ==> !(#[trigger] m[t])[t].abs().lt(Double::pivot_tolerance()),
    ensures
        ({
            let r = forward_from(m, i, n);
            &&& r.grid.len() == n
            &&& rectangular(r.grid, (n + 1) as nat)
            &&& !r.singular ==> forall|t: int|
                0 <= t < n ==> !(#[trigger] r.grid[t])[t].abs().lt(Double::pivot_tolerance())
        }),
    decreases n - i,
{
    if i < n {
        lemma_pivot_scan_in_range(m, i, n);
        let p = pivot_scan(m, i, n);
        if !m[p][i].abs().lt(Double::pivot_tolerance()) {
            lemma_forward_from_sound(cleared(rows_swapped(m, i, p), i), i + 1, n);
        }
    }
}

/// The sum of `row[j] * x[j]` for `j` from `from` up to `to` (exclusive),
/// from left to right, starting from zero.
pub open spec fn weighted(row: Seq<Double>, x: Seq<Double>, from: int, to: int) -> Double
    decreases to - from,
{
    if to <= from {
        Double::zero()
    } else {
        weighted(row, x, from, to - 1).sum(row[to - 1].product(x[to - 1]))
    }
}

/// The unknowns from index `i` on of the triangular system held in the `n`
/// rows of the augmented matrix `m`, found from the last row up; the entries
/// before `i` are zero.
pub open spec fn back_substituted(m: Seq<Seq<Double>>, i: int, n: int) -> Seq<Double>
    decreases n - i,
{
    if i >= n || i < 0 {
        zero_seq(if n >= 0 { n as nat } else { 0 })
    } else {
        let x = back_substituted(m, i + 1, n);
        x.update(i, m[i][n].difference(weighted(m[i], x, i + 1, n)).quotient(m[i][i]))
    }
}

/// Runs the forward phase in place on `n` rows of `n + 1` entries; returns
/// whether it stopped at a negligible pivot.
fn forward_eliminate(rows: &mut Vec<Vector>, n: usize) -> (singular: bool)
    requires
        n < usize::MAX,
        old(rows)@.len() == n,
        forall|t: int| 0 <= t < n ==> (#[trigger] old(rows)@[t])@.len() == n + 1,
    ensures
        final(rows)@.len() == n,
        forall|t: int| 0 <= t < n ==> (#[trigger] final(rows)@[t])@.len() == n + 1,
        grid_of(final(rows)@) == forward_from(grid_of(old(rows)@), 0, n as int).grid,
        singular == forward_from(grid_of(old(rows)@), 0, n as int).singular,
{
    let cols: usize = n + 1;
    let mut i: usize = 0;
    while i < n
        invariant
            i <= n,
            cols == n + 1,
            rows@.len() == n,
            forall|t: int| 0 <= t < n ==> (#[trigger] rows@[t])@.len() == n + 1,
            forward_from(grid_of(rows@), i as int, n as int) == forward_from(
                grid_of(old(rows)@),
                0,
                n as int,
            ),
        decreases n - i,
    {
        let ghost at_start = grid_of(rows@);
        let mut max_row: usize = i;
        let mut k: usize = i + 1;
        while k < n
            invariant
                i < n,
                i < k <= n,
                i <= max_row < k,
                rows@.len() == n,
                forall|t: int| 0 <= t < n ==> (#[trigger] rows@[t])@.len() == n + 1,
                at_start == grid_of(rows@),
                max_row == pivot_scan(at_start, i as int, k as int),
            decreases n - k,
        {
            if rows[k].data[i].abs().gt(rows[max_row].data[i].abs()) {
                max_row = k;
            }
            k += 1;
        }
        if rows[max_row].data[i].abs().lt(Double::pivot_tolerance()) {
            return true;
        }
        if max_row != i {
            exchange_rows(rows, i, max_row);
        }
        let ghost pivoted = rows_swapped(at_start, i as int, max_row as int);
        let ghost cleared_below = cleared(pivoted, i as int);
        let mut j: usize = i + 1;
        while j < n
            invariant
                i < n,
                i < j <= n,
                cols == n + 1,
                rows@.len() == n,
                forall|t: int| 0 <= t < n ==> (#[trigger] rows@[t])@.len() == n + 1,
                pivoted.len() == n,
                forall|t: int| 0 <= t < n ==> (#[trigger] pivoted[t]).len() == n + 1,
                cleared_below == cleared(pivoted, i as int),
                forall|t: int| 0 <= t < j ==> (#[trigger] rows@[t])@ == cleared_below[t],
                forall|t: int| j <= t < n ==> (#[trigger] rows@[t])@ == pivoted[t],
            decreases n - j,
        {
            let ghost before = rows@;
            let factor = rows[j].data[i].over(rows[i].data[i]);
            let mut k: usize = i;
            while k < cols
                invariant
                    i < j < n,
                    i <= k <= cols,
                    cols == n + 1,
                    rows@.len() == n,
                    before.len() == n,
                    forall|t: int| 0 <= t < n ==> (#[trigger] rows@[t])@.len() == n + 1,
                    pivoted.len() == n,
                    forall|t: int| 0 <= t < n ==> (#[trigger] pivoted[t]).len() == n + 1,
                    before[j as int]@ == pivoted[j as int],
                    before[i as int]@ == pivoted[i as int],
                    factor == pivoted[j as int][i as int].quotient(pivoted[i as int][i as int]),
                    forall|t: int| 0 <= t < n && t != j ==> (#[trigger] rows@[t])@ == before[t]@,
                    forall|c: int| 0 <= c < i ==> #[trigger] rows@[j as int]@[c] == pivoted[j as int][c],
                    forall|c: int|
                        i <= c < k ==> #[trigger] rows@[j as int]@[c] == pivoted[j as int][c].difference(
                            factor.product(pivoted[i as int][c]),
                        ),
                    forall|c: int| k <= c < cols ==> #[trigger] rows@[j as int]@[c] == pivoted[j as int][c],
                decreases cols - k,
            {
                let updated = rows[j].data[k].minus(factor.times(rows[i].data[k]));
                rows[j].data[k] = updated;
                k += 1;
            }
            j += 1;
        }
        assert(grid_of(rows@) =~= cleared_below);
        i += 1;
    }
    false
}

impl Matrix {
    /// Solves the linear system held in this augmented matrix of `n` rows
    /// and `n + 1` columns, by elimination with row exchanges and back
    /// substitution. The matrix is left as the forward phase left it.
    pub fn gaussian_elimination(&mut self) -> (r: Result<Vec<Double>, MathError>)
        ensures
            final(self).spec_cols() == old(self).spec_cols(),
            match r {
                Ok(x) => {
                    let done = forward_from(old(self)@, 0, old(self)@.len() as int);
                    &&& old(self).spec_cols() == old(self)@.len() + 1
                    &&& !done.singular
                    &&& final(self)@ == done.grid
                    &&& x@ == back_substituted(done.grid, 0, old(self)@.len() as int)
                },
                Err(e) => if old(self).spec_cols() != old(self)@.len() + 1 {
                    e == MathError::DimensionMismatch && final(self)@ == old(self)@
                } else {
                    let done = forward_from(old(self)@, 0, old(self)@.len() as int);
                    e == MathError::SingularMatrix && done.singular && final(self)@ == done.grid
                },
            },
    {
        proof {
            use_type_invariant(&*self);
        }
        let n: usize = self.rows.len();
        if self.cols == 0 || self.cols - 1 != n {
            return Err(MathError::DimensionMismatch);
        }
        let mut rows: Vec<Vector> = Vec::new();
        core::mem::swap(&mut self.rows, &mut rows);
        let singular = forward_eliminate(&mut rows, n);
        core::mem::swap(&mut self.rows, &mut rows);
        if singular {
            return Err(MathError::SingularMatrix);
        }
        let mut x: Vec<Double> = Vec::new();
        let mut t: usize = 0;
        while t < n
            invariant
                t <= n,
                x@ == zero_seq(t as nat),
            decreases n - t,
        {
            x.push(Double::zero());
            t += 1;
        }
        let mut i: usize = n;
        while i > 0
            invariant
                i <= n,
                n == self.rows@.len(),
                self.cols == n + 1,
                self.wf(),
                x@.len() == n,
                x@ == back_substituted(self@, i as int, n as int),
            decreases i,
        {
            i -= 1;
            let mut sum = Double::zero();
            let mut j: usize = i + 1;
            while j < n
                invariant
                    i < n,
                    i < j <= n,
                    n == self.rows@.len(),
                    self.cols == n + 1,
                    self.wf(),
                    x@.len() == n,
                    sum == weighted(self@[i as int], x@, i + 1, j as int),
                decreases n - j,
            {
                sum = sum.plus(self.rows[i].data[j].times(x[j]));
                j += 1;
            }
            let value = self.rows[i].data[n].minus(sum).over(self.rows[i].data[i]);
            x[i] = value;
        }
        Ok(x)
    }
}

} // verus!
