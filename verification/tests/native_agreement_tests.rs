// Each algorithm of the kernel against the same sequence of operations in
// the machine's own arithmetic: the results agree bit for bit.

use rustbrain::math::matrix::Matrix;
use rustbrain::math::scalar::Double;
use rustbrain::math::vector::Vector;
use rustbrain::svm::qpsolver::QPSolver;

fn d(x: f64) -> Double {
    Double::from_bits(x.to_bits())
}

fn f(x: Double) -> f64 {
    f64::from_bits(x.to_bits())
}

fn vector(values: &[f64]) -> Vector {
    Vector::new(values.iter().map(|&x| d(x)).collect())
}

fn values(v: &Vector) -> Vec<f64> {
    v.data.iter().map(|&x| f(x)).collect()
}

fn matrix(rows: &Vec<Vec<f64>>) -> Matrix {
    Matrix::new(rows.iter().map(|r| r.iter().map(|&x| d(x)).collect()).collect()).unwrap()
}

fn entries(m: &Matrix) -> Vec<Vec<f64>> {
    (0..m.row_count()).map(|i| values(m.get_row(i).unwrap())).collect()
}

fn same(a: f64, b: f64) -> bool {
    a.to_bits() == b.to_bits() || (a.is_nan() && b.is_nan())
}

fn same_rows(a: &Vec<Vec<f64>>, b: &Vec<Vec<f64>>) -> bool {
    a.len() == b.len()
        && a.iter().zip(b.iter()).all(|(x, y)| {
            x.len() == y.len() && x.iter().zip(y.iter()).all(|(p, q)| same(*p, *q))
        })
}

/// A small deterministic generator of doubles in (-4, 4).
struct Sequence {
    state: u64,
}

impl Sequence {
    fn next(&mut self) -> f64 {
        self.state = self.state.wrapping_mul(6364136223846793005).wrapping_add(1442695040888963407);
        let unit = (self.state >> 11) as f64 / (1u64 << 53) as f64;
        8.0 * unit - 4.0
    }

    fn matrix(&mut self, rows: usize, cols: usize) -> Vec<Vec<f64>> {
        (0..rows).map(|_| (0..cols).map(|_| self.next()).collect()).collect()
    }

    fn vector(&mut self, size: usize) -> Vec<f64> {
        (0..size).map(|_| self.next()).collect()
    }
}

fn native_dot(a: &[f64], b: &[f64]) -> f64 {
    let mut sum = 0.0;
    for i in 0..a.len() {
        sum = sum + a[i] * b[i];
    }
    sum
}

fn native_lu(a: &Vec<Vec<f64>>) -> (Vec<Vec<f64>>, Vec<usize>, i32) {
    let n = a.len();
    let mut m = a.clone();
    let mut order: Vec<usize> = (0..n).collect();
    let mut parity = 1;
    for k in 0..n {
        let mut p = k;
        for i in k + 1..n {
            if m[i][k].abs() > m[p][k].abs() {
                p = i;
            }
        }
        if p != k {
            m.swap(k, p);
            order.swap(k, p);
            parity = -parity;
        }
        let pivot = m[k][k];
        if pivot.abs() < 1e-10 {
            return (m, order, 0);
        }
        for i in k + 1..n {
            m[i][k] = m[i][k] / pivot;
            for j in k + 1..n {
                m[i][j] = m[i][j] - m[i][k] * m[k][j];
            }
        }
    }
    (m, order, parity)
}

fn native_inverse(a: &Vec<Vec<f64>>) -> Option<Vec<Vec<f64>>> {
    let n = a.len();
    let (lu, order, parity) = native_lu(a);
    if parity == 0 {
        return None;
    }
    let mut inverse = vec![vec![0.0; n]; n];
    for c in 0..n {
        let mut y = vec![0.0; n];
        for i in 0..n {
            let mut acc = if order[i] == c { 1.0 } else { 0.0 };
            for j in 0..i {
                acc = acc - lu[i][j] * y[j];
            }
            y[i] = acc;
        }
        let mut x = vec![0.0; n];
        for i in (0..n).rev() {
            let mut acc = y[i];
            for j in i + 1..n {
                acc = acc - lu[i][j] * x[j];
            }
            x[i] = acc / lu[i][i];
        }
        for r in 0..n {
            inverse[r][c] = x[r];
        }
    }
    Some(inverse)
}

#[test]
fn test_products_agree_with_native_arithmetic() {
    let mut seq = Sequence { state: 7 };
    for size in 1..6 {
        let a = seq.matrix(size + 1, size);
        let b = seq.matrix(size, size + 2);
        let x = seq.vector(size);
        let product = entries(&matrix(&a).gemm(&matrix(&b)).unwrap());
        for i in 0..size + 1 {
            for j in 0..size + 2 {
                let column: Vec<f64> = (0..size).map(|p| b[p][j]).collect();
                assert!(same(product[i][j], native_dot(&a[i], &column)));
            }
        }
        let image = values(&matrix(&a).gemv(&vector(&x)).unwrap());
        for i in 0..size + 1 {
            assert!(same(image[i], native_dot(&a[i], &x)));
        }
        let norm = f(vector(&x).norm());
        assert!(same(norm, native_dot(&x, &x).sqrt()));
    }
}

#[test]
fn test_decomposition_agrees_with_native_arithmetic() {
    let mut seq = Sequence { state: 11 };
    for size in 0..7 {
        for _ in 0..5 {
            let a = seq.matrix(size, size);
            let (lu, parity) = matrix(&a).lu_decomposition().unwrap();
            let (want, _, want_parity) = native_lu(&a);
            assert_eq!(parity, want_parity);
            assert!(same_rows(&entries(&lu), &want));

            let det = f(matrix(&a).determinant().unwrap());
            let mut want_det = if want_parity == 0 { 0.0 } else { want_parity as f64 };
            if want_parity != 0 {
                for i in 0..size {
                    want_det = want_det * want[i][i];
                }
            }
            assert!(same(det, want_det));

            match native_inverse(&a) {
                Some(want_inverse) => {
                    let inverse = matrix(&a).inverse().unwrap();
                    assert!(same_rows(&entries(&inverse), &want_inverse));
                }
                None => assert!(matrix(&a).inverse().is_err()),
            }
        }
    }
}

#[test]
fn test_elimination_agrees_with_native_arithmetic() {
    let mut seq = Sequence { state: 13 };
    for size in 1..7 {
        for _ in 0..5 {
            let a = seq.matrix(size, size + 1);
            let mut m = a.clone();
            let cols = size + 1;
            let mut singular = false;
            for i in 0..size {
                let mut max_row = i;
                for k in i + 1..size {
                    if m[k][i].abs() > m[max_row][i].abs() {
                        max_row = k;
                    }
                }
                if m[max_row][i].abs() < 1e-10 {
                    singular = true;
                    break;
                }
                m.swap(i, max_row);
                for j in i + 1..size {
                    let factor = m[j][i] / m[i][i];
                    for k in i..cols {
                        m[j][k] = m[j][k] - factor * m[i][k];
                    }
                }
            }
            let mut system = matrix(&a);
            let solved = system.gaussian_elimination();
            assert_eq!(solved.is_err(), singular);
            assert!(same_rows(&entries(&system), &m));
            if let Ok(solution) = solved {
                let mut x = vec![0.0; size];
                for i in (0..size).rev() {
                    let mut sum = 0.0;
                    for j in i + 1..size {
                        sum = sum + m[i][j] * x[j];
                    }
                    x[i] = (m[i][size] - sum) / m[i][i];
                }
                let got: Vec<f64> = solution.iter().map(|&v| f(v)).collect();
                assert!(got.iter().zip(x.iter()).all(|(p, q)| same(*p, *q)));
            }
        }
    }
}

#[test]
fn test_gram_schmidt_agrees_with_native_arithmetic() {
    let mut seq = Sequence { state: 17 };
    for (rows, cols) in [(3usize, 3usize), (4, 2), (2, 4), (5, 5), (1, 1), (0, 2), (2, 0)] {
        let a = seq.matrix(rows, cols);
        let source = if rows == 0 { Matrix::zeros(0, cols) } else { matrix(&a) };
        let (q, r) = source.gram_schmidt();
        let mut q_columns: Vec<Vec<f64>> = Vec::new();
        let mut want_r = vec![vec![0.0; cols]; cols];
        for j in 0..cols {
            let a_j: Vec<f64> = (0..rows).map(|i| a[i][j]).collect();
            let mut v = a_j.clone();
            for i in 0..j {
                let r_ij = native_dot(&q_columns[i], &a_j);
                want_r[i][j] = r_ij;
                for t in 0..rows {
                    v[t] = v[t] + q_columns[i][t] * (-r_ij);
                }
            }
            let r_jj = native_dot(&v, &v).sqrt();
            want_r[j][j] = r_jj;
            let q_j: Vec<f64> = if r_jj.abs() < 1e-10 {
                vec![0.0; rows]
            } else {
                v.iter().map(|x| x * (1.0 / r_jj)).collect()
            };
            q_columns.push(q_j);
        }
        let want_q: Vec<Vec<f64>> =
            (0..rows).map(|i| (0..cols).map(|j| q_columns[j][i]).collect()).collect();
        assert_eq!((q.row_count(), q.col_count()), (rows, cols));
        assert_eq!((r.row_count(), r.col_count()), (cols, cols));
        assert!(same_rows(&entries(&q), &want_q));
        assert!(same_rows(&entries(&r), &want_r));
    }
}

fn native_smo(
    q: &Vec<Vec<f64>>,
    p: &[f64],
    l: &[f64],
    u: &[f64],
    y: &[f64],
    max_iters: usize,
    tolerance: f64,
) -> (Vec<f64>, f64, bool) {
    let n = y.len();
    let clamp = |x: f64, low: f64, high: f64| {
        if !(x >= low) {
            low
        } else if !(x <= high) {
            high
        } else {
            x
        }
    };
    let smaller = |a: f64, b: f64| if a < b { a } else { b };
    let mut alpha = vec![0.0; n];
    let mut grad = p.to_vec();
    let mut gap = f64::INFINITY;
    let mut converged = false;
    let mut iter = 0;
    while iter < max_iters && !converged {
        let mut up: Option<usize> = None;
        let mut best = f64::NEG_INFINITY;
        for t in 0..n {
            let rises = (y[t] == 1.0 && alpha[t] < u[t]) || (y[t] == -1.0 && alpha[t] > l[t]);
            let score = if y[t] == 1.0 { -grad[t] } else { grad[t] };
            if rises && score >= best {
                best = score;
                up = Some(t);
            }
        }
        let up_score = best;
        let mut down: Option<usize> = None;
        let mut best = f64::INFINITY;
        for t in 0..n {
            let falls = (y[t] == 1.0 && alpha[t] > l[t]) || (y[t] == -1.0 && alpha[t] < u[t]);
            let score = if y[t] == 1.0 { -grad[t] } else { grad[t] };
            if Some(t) != up && falls && score <= best {
                best = score;
                down = Some(t);
            }
        }
        gap = up_score - best;
        match (up, down) {
            (Some(i), Some(j)) => {
                if gap < tolerance {
                    converged = true;
                } else {
                    let eta = q[i][i] + q[j][j] - 2.0 * q[i][j];
                    if !(eta <= 0.0) {
                        let t = gap / eta;
                        let room_up = if y[i] == 1.0 { u[i] - alpha[i] } else { alpha[i] - l[i] };
                        let room_down = if y[j] == 1.0 { alpha[j] - l[j] } else { u[j] - alpha[j] };
                        let length = smaller(smaller(t, room_up), room_down);
                        let a_i = clamp(
                            if y[i] == 1.0 { alpha[i] + length } else { alpha[i] - length },
                            l[i],
                            u[i],
                        );
                        let a_j = clamp(
                            if y[j] == 1.0 { alpha[j] - length } else { alpha[j] + length },
                            l[j],
                            u[j],
                        );
                        let di = a_i - alpha[i];
                        let dj = a_j - alpha[j];
                        alpha[i] = a_i;
                        alpha[j] = a_j;
                        for k in 0..n {
                            grad[k] = grad[k] + (di * q[i][k] + dj * q[j][k]);
                        }
                    }
                    iter += 1;
                }
            }
            _ => converged = true,
        }
    }
    (alpha, gap, converged)
}

#[test]
fn test_smo_agrees_with_native_arithmetic() {
    let mut seq = Sequence { state: 19 };
    for n in 1..9 {
        for cap in [0usize, 1, 5, 200] {
            let points = seq.matrix(n, 2);
            let y: Vec<f64> = (0..n).map(|i| if seq.next() + (i % 2) as f64 > 0.5 { 1.0 } else { -1.0 }).collect();
            let q: Vec<Vec<f64>> = (0..n)
                .map(|i| (0..n).map(|j| y[i] * y[j] * native_dot(&points[i], &points[j])).collect())
                .collect();
            let p = vec![-1.0; n];
            let l = vec![0.0; n];
            let u = vec![10.0; n];
            let (want, want_gap, want_converged) = native_smo(&q, &p, &l, &u, &y, cap, 1e-5);
            let mut solver =
                QPSolver::new(matrix(&q), vector(&p), vector(&l), vector(&u), vector(&y)).unwrap();
            let got = values(&solver.solve(cap, d(1e-5)));
            assert!(got.iter().zip(want.iter()).all(|(a, b)| same(*a, *b)), "n {} cap {}", n, cap);
            assert!(same(f(solver.violation_gap()), want_gap));
            assert_eq!(solver.converged(), want_converged);
            for &a in got.iter() {
                assert!(0.0 <= a && a <= 10.0);
            }
        }
    }
}
