//! The QR decomposition by the classical Gram-Schmidt process.

use vstd::prelude::*;
use crate::math::matrix::{column_of, grid_of, Matrix};
use crate::math::scalar::Double;
use crate::math::vector::{added, dot_of, norm_of, scaled, zero_seq, Vector};

verus! {

/// What is left of the column `a` after its projections on the first `i`
/// columns of `q` were taken off, one after the other. Each coefficient is
/// the dot product of the column of `q` with `a` itself.
pub open spec fn residual(q: Seq<Seq<Double>>, a: Seq<Double>, i: int) -> Seq<Double>
    decreases i,
{
    if i <= 0 {
        a
    } else {
        let v = residual(q, a, i - 1);
        added(v, scaled(q[i - 1], dot_of(q[i - 1], a).neg()))
    }
}

/// `v` divided by its norm; the zero vector where the norm is under the
/// tolerance.
pub open spec fn normalized(v: Seq<Double>) -> Seq<Double> {
    let norm = norm_of(v);
    if norm.abs().lt(Double::pivot_tolerance()) {
        zero_seq(v.len())
    } else {
        scaled(v, Double::one().quotient(norm))
    }
}

/// The first `j` columns of the orthogonal factor of `a`, each a sequence
/// of its own.
pub open spec fn orthonormal_columns(a: Seq<Seq<Double>>, j: int) -> Seq<Seq<Double>>
    decreases j,
{
    if j <= 0 {
        Seq::empty()
    } else {
        let q = orthonormal_columns(a, j - 1);
        q.push(normalized(residual(q, column_of(a, j - 1), j - 1)))
    }
}

/// The orthogonal factor of `a`, a matrix of the shape of `a`.
pub open spec fn q_of(a: Seq<Seq<Double>>, cols: nat) -> Seq<Seq<Double>> {
    Seq::new(
        a.len(),
        |i: int| Seq::new(cols, |j: int| orthonormal_columns(a, cols as int)[j][i]),
    )
}

/// Entry (`i`, `j`) of the triangular factor of `a`: above the diagonal the
/// projection coefficient of column `j` on the `i`-th orthonormal column,
/// on it the norm of the residual, below it zero.
pub open spec fn r_entry(a: Seq<Seq<Double>>, i: int, j: int) -> Double {
    let q = orthonormal_columns(a, j);
    if i < j {
        dot_of(q[i], column_of(a, j))
    } else if i == j {
        norm_of(residual(q, column_of(a, j), j))
    } else {
        Double::zero()
    }
}

/// The upper-triangular factor of `a`, square of order `cols`.
pub open spec fn r_of(a: Seq<Seq<Double>>, cols: nat) -> Seq<Seq<Double>> {
    Seq::new(cols, |i: int| Seq::new(cols, |j: int| r_entry(a, i, j)))
}

/// The triangular factor is square and has zeros below its diagonal.
pub proof fn lemma_r_is_upper_triangular(a: Seq<Seq<Double>>, cols: nat)
    ensures
        r_of(a, cols).len() == cols,
        forall|i: int| 0 <= i < cols ==> (#[trigger] r_of(a, cols)[i]).len() == cols,
        forall|i: int, j: int|
            0 <= j < i < cols ==> #[trigger] r_of(a, cols)[i][j] == Double::zero(),
{
}

/// The orthogonal factor has the shape of the matrix it was made from.
pub proof fn lemma_q_has_shape(a: Seq<Seq<Double>>, cols: nat)
    ensures
        q_of(a, cols).len() == a.len(),
        forall|i: int| 0 <= i < a.len() ==> (#[trigger] q_of(a, cols)[i]).len() == cols,
{
}

impl Matrix {
    /// The QR decomposition by the classical Gram-Schmidt process: `Q` of
    /// the shape of `self`, `R` square and upper triangular. A column that
    /// depends on those before it gives a zero column in `Q`.
    pub fn gram_schmidt(&self) -> (r: (Matrix, Matrix))
        ensures
            r.0@ == q_of(self@, self.spec_cols()),
            r.0.spec_cols() == self.spec_cols(),
            r.1@ == r_of(self@, self.spec_cols()),
            r.1.spec_cols() == self.spec_cols(),
    {
        let m: usize = self.rows.len();
        let n: usize = self.cols;
        let mut qs: Vec<Vector> = Vec::new();
        let mut r_rows: Vec<Vector> = Vec::new();
        let mut t: usize = 0;
        while t < n
            invariant
                t <= n,
                r_rows@.len() == t,
                forall|i: int| 0 <= i < t ==> (#[trigger] r_rows@[i])@ == zero_seq(n as nat),
            decreases n - t,
        {
            r_rows.push(Vector::zeros(n));
            t += 1;
        }
        let mut j: usize = 0;
        while j < n
            invariant
                j <= n,
                m == self.rows@.len(),
                n == self.cols,
                qs@.len() == j,
                grid_of(qs@) == orthonormal_columns(self@, j as int),
                forall|i: int| 0 <= i < j ==> (#[trigger] qs@[i])@.len() == m,
                r_rows@.len() == n,
                forall|i: int| 0 <= i < n ==> (#[trigger] r_rows@[i])@.len() == n,
                forall|i: int, c: int|
                    0 <= i < n && 0 <= c < j ==> #[trigger] r_rows@[i]@[c] == r_entry(self@, i, c),
                forall|i: int, c: int|
                    0 <= i < n && j <= c < n ==> #[trigger] r_rows@[i]@[c] == Double::zero(),
            decreases n - j,
        {
            let a_j = match self.get_column(j) {
                Ok(column) => column,
                Err(_) => {
                    assert(false);
                    Vector::zeros(m)
                },
            };
            let ghost q = grid_of(qs@);
            let mut v = a_j.clone();
            let mut i: usize = 0;
            while i < j
                invariant
                    i <= j,
                    j < n,
                    m == self.rows@.len(),
                    a_j@ == column_of(self@, j as int),
                    qs@.len() == j,
                    q == grid_of(qs@),
                    q == orthonormal_columns(self@, j as int),
                    forall|t: int| 0 <= t < j ==> (#[trigger] qs@[t])@.len() == m,
                    v@.len() == m,
                    v@ == residual(q, a_j@, i as int),
                    r_rows@.len() == n,
                    forall|t: int| 0 <= t < n ==> (#[trigger] r_rows@[t])@.len() == n,
                    forall|t: int, c: int|
                        0 <= t < n && 0 <= c < j ==> #[trigger] r_rows@[t]@[c] == r_entry(
                            self@,
                            t,
                            c,
                        ),
                    forall|t: int|
                        0 <= t < i ==> #[trigger] r_rows@[t]@[j as int] == r_entry(self@, t, j as int),
                    forall|t: int| i <= t < n ==> #[trigger] r_rows@[t]@[j as int] == Double::zero(),
                    forall|t: int, c: int|
                        0 <= t < n && j < c < n ==> #[trigger] r_rows@[t]@[c] == Double::zero(),
                decreases j - i,
            {
                let r_ij = match qs[i].dot(&a_j) {
                    Ok(d) => d,
                    Err(_) => {
                        assert(false);
                        Double::zero()
                    },
                };
                r_rows[i].data[j] = r_ij;
                let step = qs[i].scale(r_ij.neg());
                v = match v.add(&step) {
                    Ok(next) => next,
                    Err(_) => {
                        assert(false);
                        Vector::zeros(m)
                    },
                };
                i += 1;
            }
            let r_jj = v.norm();
            r_rows[j].data[j] = r_jj;
            let q_j = if r_jj.abs().lt(Double::pivot_tolerance()) {
                Vector::zeros(v.len())
            } else {
                v.scale(Double::one().over(r_jj))
            };
            qs.push(q_j);
            j += 1;
        }
        let mut q_rows: Vec<Vector> = Vec::new();
        let mut i: usize = 0;
        while i < m
            invariant
                i <= m,
                m == self.rows@.len(),
                n == self.cols,
                qs@.len() == n,
                grid_of(qs@) == orthonormal_columns(self@, n as int),
                forall|t: int| 0 <= t < n ==> (#[trigger] qs@[t])@.len() == m,
                q_rows@.len() == i,
                forall|t: int|
                    0 <= t < i ==> (#[trigger] q_rows@[t])@ == q_of(self@, self.spec_cols())[t],
            decreases m - i,
        {
            let mut row: Vec<Double> = Vec::new();
            let mut c: usize = 0;
            while c < n
                invariant
                    i < m,
                    c <= n,
                    qs@.len() == n,
                    forall|t: int| 0 <= t < n ==> (#[trigger] qs@[t])@.len() == m,
                    row@.len() == c,
                    forall|t: int| 0 <= t < c ==> #[trigger] row@[t] == grid_of(qs@)[t][i as int],
                decreases n - c,
            {
                row.push(qs[c].data[i]);
                c += 1;
            }
            q_rows.push(Vector::new(row));
            i += 1;
        }
        let q_matrix = Matrix { rows: q_rows, cols: n };
        let r_matrix = Matrix { rows: r_rows, cols: n };
        assert forall|i: int| 0 <= i < n implies #[trigger] r_matrix@[i] == r_of(
            self@,
            self.spec_cols(),
        )[i] by {
        }
        (q_matrix, r_matrix)
    }
}

} // verus!
