//! The LU decomposition with partial pivoting, and what rests on it: the
//! determinant, the inverse and the cofactors.

use vstd::prelude::*;
use crate::math::error::MathError;
use crate::math::matrix::{
    copy_rows, exchange_rows, grid_of, grid_scaled, identity_grid, rectangular, rows_swapped,
    transposed, Matrix,
};
use crate::math::scalar::Double;
use crate::math::vector::{zero_seq, Vector};

verus! {

/// The state of an elimination with row exchanges: the matrix as it stands,
/// for each row the index it had at the start, and the sign of the
/// permutation made so far (0 once a pivot was found to be negligible).
pub struct LuState {
    pub grid: Seq<Seq<Double>>,
    pub order: Seq<int>,
    pub parity: int,
}

/// The pivot row for column `k` among the rows from `k` up to `upto`
/// (exclusive): a scan from `k` that moves on only to a strictly larger
/// magnitude, so of equal magnitudes the first is kept.
pub open spec fn pivot_scan(m: Seq<Seq<Double>>, k: int, upto: int) -> int
    decreases upto - k,
{
    if upto <= k + 1 {
        k
    } else {
        let best = pivot_scan(m, k, upto - 1);
        if m[upto - 1][k].abs().gt(m[best][k].abs()) {
            upto - 1
        } else {
            best
        }
    }
}

/// A row below the pivot row after the elimination of column `k`: the
/// multiplier is stored in column `k`, and the entries to its right have the
/// multiple of the pivot row taken off.
pub open spec fn eliminated_row(row: Seq<Double>, pivot: Seq<Double>, k: int) -> Seq<Double> {
    let factor = row[k].quotient(pivot[k]);
    Seq::new(
        row.len(),
        |j: int|
            if j < k {
                row[j]
            } else if j == k {
                factor
            } else {
                row[j].difference(factor.product(pivot[j]))
            },
    )
}

/// The matrix after the elimination of column `k` with pivot row `k`.
pub open spec fn eliminated(m: Seq<Seq<Double>>, k: int) -> Seq<Seq<Double>> {
    Seq::new(
        m.len(),
        |i: int|
            if i <= k {
                m[i]
            } else {
                eliminated_row(m[i], m[k], k)
            },
    )
}

/// `order` with the entries at `i` and `j` exchanged.
pub open spec fn order_swapped(order: Seq<int>, i: int, j: int) -> Seq<int> {
    order.update(i, order[j]).update(j, order[i])
}

/// The decomposition of a matrix of order `n` from column `k` on. At each
/// column the pivot row is brought up, which flips the parity where it moves
/// a row; a pivot under the tolerance ends the run with parity 0.
pub open spec fn lu_from(s: LuState, k: int, n: int) -> LuState
    decreases n - k,
{
    if k < 0 || k >= n {
        s
    } else {
        let p = pivot_scan(s.grid, k, n);
        let grid = rows_swapped(s.grid, k, p);
        let order = order_swapped(s.order, k, p);
        let parity = if p != k {
            -s.parity
        } else {
            s.parity
        };
        if grid[k][k].abs().lt(Double::pivot_tolerance()) {
            LuState { grid, order, parity: 0 }
        } else {
            lu_from(LuState { grid: eliminated(grid, k), order, parity }, k + 1, n)
        }
    }
}

/// The state before the first column: nothing moved, parity `+1`.
pub open spec fn lu_start(m: Seq<Seq<Double>>) -> LuState {
    LuState { grid: m, order: Seq::new(m.len(), |i: int| i), parity: 1 }
}

/// The decomposition of a square matrix.
pub open spec fn lu_of(m: Seq<Seq<Double>>) -> LuState {
    lu_from(lu_start(m), 0, m.len() as int)
}

/// The indices held by a list of positions.
pub open spec fn indices_of(order: Seq<usize>) -> Seq<int> {
    Seq::new(order.len(), |i: int| order[i] as int)
}

/// `start` times the first `n` diagonal entries of `m`, from the first on.
pub open spec fn diagonal_product(m: Seq<Seq<Double>>, start: Double, n: int) -> Double
    decreases n,
{
    if n <= 0 {
        start
    } else {
        diagonal_product(m, start, n - 1).product(m[n - 1][n - 1])
    }
}

/// The determinant of a square matrix: zero where the decomposition found
/// it singular, else the sign of the permutation times the diagonal of the
/// decomposition.
pub open spec fn determinant_of(m: Seq<Seq<Double>>) -> Double {
    let s = lu_of(m);
    if s.parity == 0 {
        Double::zero()
    } else if s.parity > 0 {
        diagonal_product(s.grid, Double::one(), m.len() as int)
    } else {
        diagonal_product(s.grid, Double::one().neg(), m.len() as int)
    }
}

/// The unit lower-triangular factor held below the diagonal of `m`.
pub open spec fn lower_of(m: Seq<Seq<Double>>) -> Seq<Seq<Double>> {
    Seq::new(
        m.len(),
        |i: int|
            Seq::new(
                m.len(),
                |j: int|
                    if i > j {
                        m[i][j]
                    } else if i == j {
                        Double::one()
                    } else {
                        Double::zero()
                    },
            ),
    )
}

/// The upper-triangular factor held on and above the diagonal of `m`.
pub open spec fn upper_of(m: Seq<Seq<Double>>) -> Seq<Seq<Double>> {
    Seq::new(
        m.len(),
        |i: int|
            Seq::new(
                m.len(),
                |j: int|
                    if i <= j {
                        m[i][j]
                    } else {
                        Double::zero()
                    },
            ),
    )
}

/// `start` with `row[j] * x[j]` taken off for each `j` from `from` up to
/// `to` (exclusive), one after the other.
pub open spec fn reduced(row: Seq<Double>, x: Seq<Double>, start: Double, from: int, to: int) -> Double
    decreases to - from,
{
    if to <= from {
        start
    } else {
        reduced(row, x, start, from, to - 1).difference(row[to - 1].product(x[to - 1]))
    }
}

/// Column `c` of the identity with its rows brought into `order`.
pub open spec fn unit_column(order: Seq<int>, c: int) -> Seq<Double> {
    Seq::new(
        order.len(),
        |i: int|
            if order[i] == c {
                Double::one()
            } else {
                Double::zero()
            },
    )
}

/// The first `i` unknowns of `L y = b` by forward substitution, where `L` is
/// the unit lower triangle of `lu`.
pub open spec fn forward_solved(lu: Seq<Seq<Double>>, b: Seq<Double>, i: int) -> Seq<Double>
    decreases i,
{
    if i <= 0 {
        Seq::empty()
    } else {
        let y = forward_solved(lu, b, i - 1);
        y.push(reduced(lu[i - 1], y, b[i - 1], 0, i - 1))
    }
}

/// The unknowns of `U x = y` from index `i` on by backward substitution,
/// where `U` is the upper triangle of `lu`, of order `n`; the entries before
/// `i` are zero.
pub open spec fn backward_solved(lu: Seq<Seq<Double>>, y: Seq<Double>, i: int, n: int) -> Seq<
    Double,
>
    decreases n - i,
{
    if i >= n || i < 0 {
        zero_seq(if n >= 0 { n as nat } else { 0 })
    } else {
        let x = backward_solved(lu, y, i + 1, n);
        x.update(i, reduced(lu[i], x, y[i], i + 1, n).quotient(lu[i][i]))
    }
}

/// Column `c` of the inverse, from a decomposition of order `n`.
pub open spec fn solution_column(s: LuState, c: int, n: int) -> Seq<Double> {
    backward_solved(s.grid, forward_solved(s.grid, unit_column(s.order, c), n), 0, n)
}

/// The inverse of a square matrix whose decomposition succeeds: column by
/// column, the solution of `L U x = P e`.
pub open spec fn inverse_of(m: Seq<Seq<Double>>) -> Seq<Seq<Double>> {
    let s = lu_of(m);
    let n = m.len() as int;
    Seq::new(m.len(), |r: int| Seq::new(m.len(), |c: int| solution_column(s, c, n)[r]))
}

/// `m`, with `cols` columns, without row `row` and column `col`.
pub open spec fn minor_of(m: Seq<Seq<Double>>, cols: nat, row: int, col: int) -> Seq<Seq<Double>> {
    Seq::new(
        (m.len() - 1) as nat,
        |i: int|
            Seq::new(
                (cols - 1) as nat,
                |j: int|
                    m[if i < row {
                        i
                    } else {
                        i + 1
                    }][if j < col {
                        j
                    } else {
                        j + 1
                    }],
            ),
    )
}

/// `+1` for an even `k`, `-1` for an odd one.
pub open spec fn sign_of(k: int) -> Double {
    if k % 2 == 0 {
        Double::one()
    } else {
        Double::one().neg()
    }
}

/// The matrix of cofactors of a square matrix: each entry is the signed
/// determinant of the minor at its place.
pub open spec fn cofactors_of(m: Seq<Seq<Double>>) -> Seq<Seq<Double>> {
    Seq::new(
        m.len(),
        |i: int|
            Seq::new(
                m.len(),
                |j: int| sign_of(i + j).product(determinant_of(minor_of(m, m.len(), i, j))),
            ),
    )
}

/// The inverse as the adjugate over the determinant: the transposed matrix
/// of cofactors, every entry multiplied by the reciprocal of the
/// determinant.
pub open spec fn adjugate_inverse_of(m: Seq<Seq<Double>>) -> Seq<Seq<Double>> {
    grid_scaled(
        transposed(cofactors_of(m), m.len()),
        Double::one().quotient(determinant_of(m)),
    )
}

/// The factors that a combined decomposition splits into are triangular:
/// the lower one has ones on and zeros over its diagonal, the upper one
/// zeros under it, and below and on the diagonal each holds what `m` holds.
pub proof fn lemma_split_is_triangular(m: Seq<Seq<Double>>)
    ensures
        forall|i: int, j: int|
            0 <= i < j < m.len() ==> #[trigger] lower_of(m)[i][j] == Double::zero(),
        forall|i: int| 0 <= i < m.len() ==> (#[trigger] lower_of(m)[i])[i] == Double::one(),
        forall|i: int, j: int| 0 <= j < i < m.len() ==> #[trigger] lower_of(m)[i][j] == m[i][j],
        forall|i: int, j: int|
            0 <= j < i < m.len() ==> #[trigger] upper_of(m)[i][j] == Double::zero(),
        forall|i: int, j: int| 0 <= i <= j < m.len() ==> #[trigger] upper_of(m)[i][j] == m[i][j],
{
}

/// The pivot row lies in the range that was scanned.
pub proof fn lemma_pivot_scan_in_range(m: Seq<Seq<Double>>, k: int, upto: int)
    requires
        k < upto,
    ensures
        k <= pivot_scan(m, k, upto) < upto,
    decreases upto - k,
{
    if upto > k + 1 {
        lemma_pivot_scan_in_range(m, k, upto - 1);
    }
}

/// Where column `k` holds no NaN in the rows scanned, the pivot row holds
/// the largest magnitude of them, and is the first row that does.
pub proof fn lemma_pivot_scan_maximal(m: Seq<Seq<Double>>, k: int, upto: int)
    requires
        k < upto,
        forall|i: int| k <= i < upto ==> !(#[trigger] m[i])[k].is_nan(),
    ensures
        ({
            let p = pivot_scan(m, k, upto);
            &&& k <= p < upto
            &&& forall|i: int| k <= i < upto ==> (#[trigger] m[i])[k].abs().le(m[p][k].abs())
            &&& forall|i: int| k <= i < p ==> (#[trigger] m[i])[k].abs().lt(m[p][k].abs())
        }),
    decreases upto - k,
{
    if upto > k + 1 {
        lemma_pivot_scan_maximal(m, k, upto - 1);
    }
}

/// The decomposition keeps the shape, its parity is `-1`, `0` or `+1`, and
/// where the parity is not `0` no entry on the diagonal of the result is
/// under the tolerance: nothing was divided by a negligible pivot.
pub proof fn lemma_lu_from_sound(s: LuState, k: int, n: int)
    requires
        0 <= k <= n,
        s.grid.len() == n,
        rectangular(s.grid, n as nat),
        s.parity == 1 || s.parity == -1,
        forall|t: int| 0 <= t < k ==> !(#[trigger] s.grid[t])[t].abs().lt(Double::pivot_tolerance()),
    ensures
        ({
            let r = lu_from(s, k, n);
            &&& r.grid.len() == n
            &&& rectangular(r.grid, n as nat)
            &&& (r.parity == 1 || r.parity == -1 || r.parity == 0)
            &&& r.parity != 0 ==> forall|t: int|
                0 <= t < n ==> !(#[trigger] r.grid[t])[t].abs().lt(Double::pivot_tolerance())
        }),
    decreases n - k,
{
    if k < n {
        lemma_pivot_scan_in_range(s.grid, k, n);
        let p = pivot_scan(s.grid, k, n);
        let grid = rows_swapped(s.grid, k, p);
        let order = order_swapped(s.order, k, p);
        let parity = if p != k {
            -s.parity
        } else {
            s.parity
        };
        if !grid[k][k].abs().lt(Double::pivot_tolerance()) {
            let next = LuState { grid: eliminated(grid, k), order, parity };
            lemma_lu_from_sound(next, k + 1, n);
        }
    }
}

/// The decomposition of a square matrix: see `lemma_lu_from_sound`.
pub proof fn lemma_lu_sound(m: Seq<Seq<Double>>)
    requires
        rectangular(m, m.len()),
    ensures
        ({
            let r = lu_of(m);
            &&& r.grid.len() == m.len()
            &&& rectangular(r.grid, m.len())
            &&& (r.parity == 1 || r.parity == -1 || r.parity == 0)
            &&& r.parity != 0 ==> forall|t: int|
                0 <= t < m.len() ==> !(#[trigger] r.grid[t])[t].abs().lt(Double::pivot_tolerance())
        }),
{
    lemma_lu_from_sound(lu_start(m), 0, m.len() as int);
}

/// Decomposes an `n` by `n` grid of rows; returns the combined factors, the
/// row order and the parity.
pub(crate) fn decompose(source: &Vec<Vector>, n: usize) -> (r: (Vec<Vector>, Vec<usize>, i32))
    requires
        source@.len() == n,
        forall|i: int| 0 <= i < n ==> (#[trigger] source@[i])@.len() == n,
    ensures
        r.0@.len() == n,
        forall|i: int| 0 <= i < n ==> (#[trigger] r.0@[i])@.len() == n,
        r.1@.len() == n,
        grid_of(r.0@) == lu_of(grid_of(source@)).grid,
        indices_of(r.1@) == lu_of(grid_of(source@)).order,
        r.2 == lu_of(grid_of(source@)).parity,
        r.2 == 0 || r.2 == 1 || r.2 == -1,
        grid_of(source@) == identity_grid(n as nat) ==> grid_of(r.0@) == identity_grid(n as nat)
            && r.2 == 1,
{
    let ghost unit = grid_of(source@) == identity_grid(n as nat);
    let mut rows = copy_rows(source);
    let mut order: Vec<usize> = Vec::new();
    let mut t: usize = 0;
    while t < n
        invariant
            t <= n,
            order@.len() == t,
            forall|i: int| 0 <= i < t ==> #[trigger] order@[i] == i,
        decreases n - t,
    {
        order.push(t);
        t += 1;
    }
    assert(indices_of(order@) =~= lu_start(grid_of(source@)).order);
    let mut parity: i32 = 1;
    let mut k: usize = 0;
    while k < n
        invariant
            k <= n,
            rows@.len() == n,
            forall|i: int| 0 <= i < n ==> (#[trigger] rows@[i])@.len() == n,
            order@.len() == n,
            parity == 1 || parity == -1,
            lu_from(
                LuState { grid: grid_of(rows@), order: indices_of(order@), parity: parity as int },
                k as int,
                n as int,
            ) == lu_of(grid_of(source@)),
            unit == (grid_of(source@) == identity_grid(n as nat)),
            unit ==> grid_of(rows@) == identity_grid(n as nat) && parity == 1,
        decreases n - k,
    {
        let ghost at_start = grid_of(rows@);
        let ghost order_at_start = indices_of(order@);
        let mut pivot: usize = k;
        let mut i: usize = k + 1;
        while i < n
            invariant
                k < n,
                k < i <= n,
                k <= pivot < i,
                rows@.len() == n,
                forall|t: int| 0 <= t < n ==> (#[trigger] rows@[t])@.len() == n,
                at_start == grid_of(rows@),
                pivot == pivot_scan(at_start, k as int, i as int),
                unit ==> at_start == identity_grid(n as nat) && pivot == k,
            decreases n - i,
        {
            proof {
                if unit {
                    assert(rows@[i as int]@[k as int] == identity_grid(n as nat)[i as int][k as int]);
                }
            }
            if rows[i].data[k].abs().gt(rows[pivot].data[k].abs()) {
                pivot = i;
            }
            i += 1;
        }
        if pivot != k {
            exchange_rows(&mut rows, k, pivot);
            let a: usize = order[k];
            let b: usize = order[pivot];
            order[k] = b;
            order[pivot] = a;
            parity = -parity;
        }
        let ghost pivoted = rows_swapped(at_start, k as int, pivot as int);
        let ghost pivoted_order = order_swapped(order_at_start, k as int, pivot as int);
        assert(indices_of(order@) =~= pivoted_order);
        let pv = rows[k].data[k];
        if pv.abs().lt(Double::pivot_tolerance()) {
            return (rows, order, 0);
        }
        let ghost cleared_below = eliminated(pivoted, k as int);
        let mut i: usize = k + 1;
        while i < n
            invariant
                k < n,
                k < i <= n,
                rows@.len() == n,
                forall|t: int| 0 <= t < n ==> (#[trigger] rows@[t])@.len() == n,
                pivoted.len() == n,
                forall|t: int| 0 <= t < n ==> (#[trigger] pivoted[t]).len() == n,
                pv == pivoted[k as int][k as int],
                cleared_below == eliminated(pivoted, k as int),
                forall|t: int| 0 <= t < i ==> (#[trigger] rows@[t])@ == cleared_below[t],
                forall|t: int| i <= t < n ==> (#[trigger] rows@[t])@ == pivoted[t],
                unit ==> pivoted == identity_grid(n as nat) && grid_of(rows@) == pivoted,
            decreases n - i,
        {
            let ghost before = rows@;
            let factor = rows[i].data[k].over(pv);
            rows[i].data[k] = factor;
            let mut j: usize = k + 1;
            while j < n
                invariant
                    k < i < n,
                    k < j <= n,
                    rows@.len() == n,
                    before.len() == n,
                    forall|t: int| 0 <= t < n ==> (#[trigger] rows@[t])@.len() == n,
                    pivoted.len() == n,
                    forall|t: int| 0 <= t < n ==> (#[trigger] pivoted[t]).len() == n,
                    before[i as int]@ == pivoted[i as int],
                    before[k as int]@ == pivoted[k as int],
                    factor == pivoted[i as int][k as int].quotient(pivoted[k as int][k as int]),
                    forall|t: int| 0 <= t < n && t != i ==> (#[trigger] rows@[t])@ == before[t]@,
                    forall|c: int| 0 <= c < k ==> #[trigger] rows@[i as int]@[c] == pivoted[i as int][c],
                    rows@[i as int]@[k as int] == factor,
                    forall|c: int|
                        k < c < j ==> #[trigger] rows@[i as int]@[c] == pivoted[i as int][c].difference(
                            factor.product(pivoted[k as int][c]),
                        ),
                    forall|c: int| j <= c < n ==> #[trigger] rows@[i as int]@[c] == pivoted[i as int][c],
                    unit ==> pivoted == identity_grid(n as nat) && factor == Double::zero()
                        && rows@[i as int]@ == pivoted[i as int],
                decreases n - j,
            {
                let updated = rows[i].data[j].minus(factor.times(rows[k].data[j]));
                rows[i].data[j] = updated;
                j += 1;
            }
            i += 1;
        }
        assert(grid_of(rows@) =~= cleared_below);
        k += 1;
    }
    (rows, order, parity)
}

/// Forward substitution on the unit lower triangle of `lu`.
pub(crate) fn forward_substitute(lu: &Vec<Vector>, b: &Vec<Double>, n: usize) -> (y: Vec<Double>)
    requires
        lu@.len() == n,
        forall|i: int| 0 <= i < n ==> (#[trigger] lu@[i])@.len() == n,
        b@.len() == n,
    ensures
        y@ == forward_solved(grid_of(lu@), b@, n as int),
        y@.len() == n,
{
    let mut y: Vec<Double> = Vec::new();
    let mut i: usize = 0;
    while i < n
        invariant
            i <= n,
            lu@.len() == n,
            forall|t: int| 0 <= t < n ==> (#[trigger] lu@[t])@.len() == n,
            b@.len() == n,
            y@.len() == i,
            y@ == forward_solved(grid_of(lu@), b@, i as int),
        decreases n - i,
    {
        let mut acc = b[i];
        let mut j: usize = 0;
        while j < i
            invariant
                i < n,
                j <= i,
                lu@.len() == n,
                forall|t: int| 0 <= t < n ==> (#[trigger] lu@[t])@.len() == n,
                y@.len() == i,
                acc == reduced(grid_of(lu@)[i as int], y@, b@[i as int], 0, j as int),
            decreases i - j,
        {
            acc = acc.minus(lu[i].data[j].times(y[j]));
            j += 1;
        }
        y.push(acc);
        i += 1;
    }
    y
}

/// Backward substitution on the upper triangle of `lu`.
pub(crate) fn backward_substitute(lu: &Vec<Vector>, y: &Vec<Double>, n: usize) -> (x: Vec<Double>)
    requires
        lu@.len() == n,
        forall|i: int| 0 <= i < n ==> (#[trigger] lu@[i])@.len() == n,
        y@.len() == n,
    ensures
        x@ == backward_solved(grid_of(lu@), y@, 0, n as int),
        x@.len() == n,
{
    let mut x: Vec<Double> = Vec::new();
    let mut t: usize = 0;
    while t < n
        invariant
            t <= n,
            x@ == zero_seq(t as nat),
        decreases n - t,
    {
        x.push(Double::zero());
        t += 1;
    }
    let mut i: usize = n;
    while i > 0
        invariant
            i <= n,
            lu@.len() == n,
            forall|t: int| 0 <= t < n ==> (#[trigger] lu@[t])@.len() == n,
            y@.len() == n,
            x@.len() == n,
            x@ == backward_solved(grid_of(lu@), y@, i as int, n as int),
        decreases i,
    {
        i -= 1;
        let mut acc = y[i];
        let mut j: usize = i + 1;
        while j < n
            invariant
                i < n,
                i < j <= n,
                lu@.len() == n,
                forall|t: int| 0 <= t < n ==> (#[trigger] lu@[t])@.len() == n,
                x@.len() == n,
                acc == reduced(grid_of(lu@)[i as int], x@, y@[i as int], i + 1, j as int),
            decreases n - j,
        {
            acc = acc.minus(lu[i].data[j].times(x[j]));
            j += 1;
        }
        let value = acc.over(lu[i].data[i]);
        x[i] = value;
    }
    x
}

impl Matrix {
    /// The decomposition into unit lower and upper triangular factors with
    /// row exchanges, both held in one matrix, and the sign of the
    /// permutation: `0` where a pivot was negligible.
    pub fn lu_decomposition(&self) -> (r: Result<(Matrix, i32), MathError>)
        ensures
            match r {
                Ok((lu, parity)) => self@.len() == self.spec_cols() && lu@ == lu_of(self@).grid
                    && lu.spec_cols() == self.spec_cols() && parity == lu_of(self@).parity,
                Err(e) => e == MathError::DimensionMismatch && self@.len() != self.spec_cols(),
            },
            self@ == identity_grid(self@.len()) && self.spec_cols() == self@.len() ==> r is Ok
                && r.unwrap().0@ == self@ && r.unwrap().1 == 1,
    {
        proof {
            use_type_invariant(self);
        }
        let n: usize = self.rows.len();
        if self.cols != n {
            return Err(MathError::DimensionMismatch);
        }
        let (rows, _order, parity) = decompose(&self.rows, n);
        Ok((Matrix { rows, cols: n }, parity))
    }

    /// The determinant.
    pub fn determinant(&self) -> (r: Result<Double, MathError>)
        ensures
            match r {
                Ok(d) => self@.len() == self.spec_cols() && d == determinant_of(self@),
                Err(e) => e == MathError::DimensionMismatch && self@.len() != self.spec_cols(),
            },
            self@ == identity_grid(self@.len()) && self.spec_cols() == self@.len() ==> r == Ok::<
                Double,
                MathError,
            >(Double::one()),
    {
        proof {
            use_type_invariant(self);
        }
        let n: usize = self.rows.len();
        if self.cols != n {
            return Err(MathError::DimensionMismatch);
        }
        let (rows, _order, parity) = decompose(&self.rows, n);
        let ghost unit = self@ == identity_grid(n as nat);
        if parity == 0 {
            return Ok(Double::zero());
        }
        let start = if parity > 0 {
            Double::one()
        } else {
            Double::one().neg()
        };
        let mut det = start;
        let mut i: usize = 0;
        while i < n
            invariant
                i <= n,
                rows@.len() == n,
                forall|t: int| 0 <= t < n ==> (#[trigger] rows@[t])@.len() == n,
                det == diagonal_product(grid_of(rows@), start, i as int),
                unit ==> grid_of(rows@) == identity_grid(n as nat) && det == Double::one(),
            decreases n - i,
        {
            proof {
                if unit {
                    assert(rows@[i as int]@[i as int] == identity_grid(n as nat)[i as int][i as int]);
                }
            }
            det = det.times(rows[i].data[i]);
            i += 1;
        }
        Ok(det)
    }

    /// Splits a combined decomposition into its unit lower-triangular and
    /// its upper-triangular factor.
    pub fn split_lu(&self) -> (r: Result<(Matrix, Matrix), MathError>)
        ensures
            match r {
                Ok((l, u)) => self@.len() == self.spec_cols() && l@ == lower_of(self@) && u@
                    == upper_of(self@) && l.spec_cols() == self.spec_cols() && u.spec_cols()
                    == self.spec_cols(),
                Err(e) => e == MathError::DimensionMismatch && self@.len() != self.spec_cols(),
            },
    {
        proof {
            use_type_invariant(self);
        }
        let n: usize = self.rows.len();
        if self.cols != n {
            return Err(MathError::DimensionMismatch);
        }
        let mut lower: Vec<Vector> = Vec::new();
        let mut upper: Vec<Vector> = Vec::new();
        let mut i: usize = 0;
        while i < n
            invariant
                n == self.rows@.len(),
                n == self.cols,
                self.wf(),
                i <= n,
                lower@.len() == i,
                upper@.len() == i,
                forall|t: int| 0 <= t < i ==> (#[trigger] lower@[t])@ == lower_of(self@)[t],
                forall|t: int| 0 <= t < i ==> (#[trigger] upper@[t])@ == upper_of(self@)[t],
            decreases n - i,
        {
            let mut l_row: Vec<Double> = Vec::new();
            let mut u_row: Vec<Double> = Vec::new();
            let mut j: usize = 0;
            while j < n
                invariant
                    n == self.rows@.len(),
                    n == self.cols,
                    self.wf(),
                    i < n,
                    j <= n,
                    l_row@.len() == j,
                    u_row@.len() == j,
                    forall|c: int| 0 <= c < j ==> #[trigger] l_row@[c] == lower_of(self@)[i as int][c],
                    forall|c: int| 0 <= c < j ==> #[trigger] u_row@[c] == upper_of(self@)[i as int][c],
                decreases n - j,
            {
                let x = self.rows[i].data[j];
                if i > j {
                    l_row.push(x);
                    u_row.push(Double::zero());
                } else if i == j {
                    l_row.push(Double::one());
                    u_row.push(x);
                } else {
                    l_row.push(Double::zero());
                    u_row.push(x);
                }
                j += 1;
            }
            lower.push(Vector::new(l_row));
            upper.push(Vector::new(u_row));
            i += 1;
        }
        let l = Matrix { rows: lower, cols: n };
        let u = Matrix { rows: upper, cols: n };
        Ok((l, u))
    }

    /// The inverse, by one decomposition and a forward and a backward
    /// substitution for each column of the identity.
    pub fn inverse(&self) -> (r: Result<Matrix, MathError>)
        ensures
            match r {
                Ok(inv) => self@.len() == self.spec_cols() && lu_of(self@).parity != 0 && inv@
                    == inverse_of(self@) && inv.spec_cols() == self.spec_cols(),
                Err(e) => if self@.len() != self.spec_cols() {
                    e == MathError::DimensionMismatch
                } else {
                    e == MathError::SingularMatrix && lu_of(self@).parity == 0
                },
            },
    {
        proof {
            use_type_invariant(self);
        }
        let n: usize = self.rows.len();
        if self.cols != n {
            return Err(MathError::DimensionMismatch);
        }
        let (lu, order, parity) = decompose(&self.rows, n);
        if parity == 0 {
            return Err(MathError::SingularMatrix);
        }
        let ghost s = lu_of(self@);
        let mut columns: Vec<Vec<Double>> = Vec::new();
        let mut c: usize = 0;
        while c < n
            invariant
                c <= n,
                lu@.len() == n,
                forall|t: int| 0 <= t < n ==> (#[trigger] lu@[t])@.len() == n,
                order@.len() == n,
                grid_of(lu@) == s.grid,
                indices_of(order@) == s.order,
                columns@.len() == c,
                forall|t: int|
                    0 <= t < c ==> (#[trigger] columns@[t])@ == solution_column(s, t, n as int),
                forall|t: int| 0 <= t < c ==> (#[trigger] columns@[t])@.len() == n,
            decreases n - c,
        {
            let mut b: Vec<Double> = Vec::new();
            let mut i: usize = 0;
            while i < n
                invariant
                    i <= n,
                    c < n,
                    order@.len() == n,
                    b@.len() == i,
                    forall|t: int|
                        0 <= t < i ==> #[trigger] b@[t] == unit_column(indices_of(order@), c as int)[t],
                decreases n - i,
            {
                if order[i] == c {
                    b.push(Double::one());
                } else {
                    b.push(Double::zero());
                }
                i += 1;
            }
            assert(b@ =~= unit_column(s.order, c as int));
            let y = forward_substitute(&lu, &b, n);
            let x = backward_substitute(&lu, &y, n);
            columns.push(x);
            c += 1;
        }
        let mut data: Vec<Vector> = Vec::new();
        let mut r: usize = 0;
        while r < n
            invariant
                r <= n,
                n == self@.len(),
                columns@.len() == n,
                forall|t: int|
                    0 <= t < n ==> (#[trigger] columns@[t])@ == solution_column(s, t, n as int),
                forall|t: int| 0 <= t < n ==> (#[trigger] columns@[t])@.len() == n,
                s == lu_of(self@),
                data@.len() == r,
                forall|t: int| 0 <= t < r ==> (#[trigger] data@[t])@ == inverse_of(self@)[t],
            decreases n - r,
        {
            let mut row: Vec<Double> = Vec::new();
            let mut c: usize = 0;
            while c < n
                invariant
                    r < n,
                    c <= n,
                    columns@.len() == n,
                    forall|t: int|
                        0 <= t < n ==> (#[trigger] columns@[t])@ == solution_column(s, t, n as int),
                    forall|t: int| 0 <= t < n ==> (#[trigger] columns@[t])@.len() == n,
                    row@.len() == c,
                    forall|t: int|
                        0 <= t < c ==> #[trigger] row@[t] == solution_column(s, t, n as int)[r as int],
                decreases n - c,
            {
                row.push(columns[c][r]);
                c += 1;
            }
            data.push(Vector::new(row));
            r += 1;
        }
        let inv = Matrix { rows: data, cols: n };
        Ok(inv)
    }

    /// The matrix without row `row` and column `col`.
    pub fn minor(&self, row: usize, col: usize) -> (r: Result<Matrix, MathError>)
        ensures
            match r {
                Ok(m) => row < self@.len() && col < self.spec_cols() && m@ == minor_of(
                    self@,
                    self.spec_cols(),
                    row as int,
                    col as int,
                ) && m.spec_cols() == self.spec_cols() - 1,
                Err(e) => e == MathError::IndexOutOfRange && (row >= self@.len() || col
                    >= self.spec_cols()),
            },
    {
        proof {
            use_type_invariant(self);
        }
        let n: usize = self.rows.len();
        let c: usize = self.cols;
        if row >= n || col >= c {
            return Err(MathError::IndexOutOfRange);
        }
        let ghost target = minor_of(self@, self.spec_cols(), row as int, col as int);
        let mut data: Vec<Vector> = Vec::new();
        let mut i: usize = 0;
        while i + 1 < n
            invariant
                n == self.rows@.len(),
                c == self.cols,
                self.wf(),
                row < n,
                col < c,
                i + 1 <= n,
                target == minor_of(self@, self.spec_cols(), row as int, col as int),
                data@.len() == i,
                forall|t: int| 0 <= t < i ==> (#[trigger] data@[t])@ == target[t],
            decreases n - i,
        {
            let from_row: usize = if i < row {
                i
            } else {
                i + 1
            };
            let mut kept: Vec<Double> = Vec::new();
            let mut j: usize = 0;
            while j + 1 < c
                invariant
                    n == self.rows@.len(),
                    c == self.cols,
                    self.wf(),
                    from_row < n,
                    col < c,
                    j + 1 <= c,
                    kept@.len() == j,
                    forall|t: int|
                        0 <= t < j ==> #[trigger] kept@[t] == self@[from_row as int][if t < col {
                            t
                        } else {
                            t + 1
                        }],
                decreases c - j,
            {
                let from_col: usize = if j < col {
                    j
                } else {
                    j + 1
                };
                kept.push(self.rows[from_row].data[from_col]);
                j += 1;
            }
            data.push(Vector::new(kept));
            i += 1;
        }
        let m = Matrix { rows: data, cols: c - 1 };
        Ok(m)
    }

    /// The matrix of cofactors. Each entry costs one decomposition of a
    /// minor, so this is for small matrices.
    pub fn cofactor_matrix(&self) -> (r: Result<Matrix, MathError>)
        ensures
            match r {
                Ok(m) => self@.len() == self.spec_cols() && m@ == cofactors_of(self@)
                    && m.spec_cols() == self.spec_cols(),
                Err(e) => e == MathError::DimensionMismatch && self@.len() != self.spec_cols(),
            },
    {
        let n: usize = self.rows.len();
        if self.cols != n {
            return Err(MathError::DimensionMismatch);
        }
        let mut data: Vec<Vector> = Vec::new();
        let mut i: usize = 0;
        while i < n
            invariant
                n == self.rows@.len(),
                n == self.cols,
                i <= n,
                data@.len() == i,
                forall|t: int| 0 <= t < i ==> (#[trigger] data@[t])@ == cofactors_of(self@)[t],
            decreases n - i,
        {
            let mut row: Vec<Double> = Vec::new();
            let mut j: usize = 0;
            while j < n
                invariant
                    n == self.rows@.len(),
                    n == self.cols,
                    i < n,
                    j <= n,
                    row@.len() == j,
                    forall|t: int| 0 <= t < j ==> #[trigger] row@[t] == cofactors_of(self@)[i as int][t],
                decreases n - j,
            {
                let sign = if (i % 2) == (j % 2) {
                    Double::one()
                } else {
                    Double::one().neg()
                };
                let det = match self.minor(i, j) {
                    Ok(minor) => match minor.determinant() {
                        Ok(d) => d,
                        Err(_) => {
                            assert(false);
                            Double::zero()
                        },
                    },
                    Err(_) => {
                        assert(false);
                        Double::zero()
                    },
                };
                row.push(sign.times(det));
                j += 1;
            }
            data.push(Vector::new(row));
            i += 1;
        }
        let m = Matrix { rows: data, cols: n };
        Ok(m)
    }
    /// The inverse as the adjugate over the determinant. It costs a
    /// decomposition for every entry, so it is a fallback for matrices of a
    /// handful of rows; `inverse` is the method of choice.
    pub fn inverse_adjugate(&self) -> (r: Result<Matrix, MathError>)
        ensures
            match r {
                Ok(inv) => self@.len() == self.spec_cols() && !determinant_of(self@).same(
                    Double::zero(),
                ) && inv@ == adjugate_inverse_of(self@) && inv.spec_cols() == self.spec_cols(),
                Err(e) => if self@.len() != self.spec_cols() {
                    e == MathError::DimensionMismatch
                } else {
                    e == MathError::SingularMatrix && determinant_of(self@).same(Double::zero())
                },
            },
    {
        let det = match self.determinant() {
            Ok(d) => d,
            Err(e) => {
                return Err(e);
            },
        };
        if det.same(Double::zero()) {
            return Err(MathError::SingularMatrix);
        }
        let cofactors = match self.cofactor_matrix() {
            Ok(m) => m,
            Err(e) => {
                return Err(e);
            },
        };
        let mut inverse = cofactors.transpose();
        inverse.scale(Double::one().over(det));
        Ok(inverse)
    }
}

} // verus!
