use rustbrain::math::error::MathError;
use rustbrain::math::matrix::Matrix;
use rustbrain::math::scalar::Double;
use rustbrain::math::vector::Vector;
use rustbrain::svm::qpsolver::QPSolver;

fn d(x: f64) -> Double {
    Double::from_bits(x.to_bits())
}

fn f(x: Double) -> f64 {
    f64::from_bits(x.to_bits())
}

fn vector(values: &[f64]) -> Vector {
    Vector::new(values.iter().map(|&x| d(x)).collect())
}

fn values(v: &Vector) -> Vec<f64> {
    v.data.iter().map(|&x| f(x)).collect()
}

fn matrix(rows: Vec<Vec<f64>>) -> Matrix {
    Matrix::new(rows.into_iter().map(|r| r.into_iter().map(d).collect()).collect()).unwrap()
}

fn dot(a: &[f64], b: &[f64]) -> f64 {
    a.iter().zip(b.iter()).map(|(x, y)| x * y).sum()
}

/// The dual of a linear support-vector machine on `inputs` with bound `c`.
fn svm_dual(inputs: &[Vec<f64>], labels: &[f64], c: f64) -> QPSolver {
    let n = inputs.len();
    let q: Vec<Vec<f64>> = (0..n)
        .map(|i| (0..n).map(|j| labels[i] * labels[j] * dot(&inputs[i], &inputs[j])).collect())
        .collect();
    QPSolver::new(
        matrix(q),
        vector(&vec![-1.0; n]),
        vector(&vec![0.0; n]),
        vector(&vec![c; n]),
        vector(labels),
    )
    .unwrap()
}

#[test]
fn test_smo_separates_two_classes() {
    let inputs = vec![
        vec![1.0, 2.0],
        vec![2.0, 3.0],
        vec![3.0, -1.0],
        vec![4.0, -3.0],
        vec![5.0, 5.0],
        vec![6.0, -2.0],
    ];
    let labels = vec![1.0, 1.0, -1.0, -1.0, 1.0, -1.0];
    let c = 10.0;
    let mut solver = svm_dual(&inputs, &labels, c);
    let alpha = values(&solver.solve(1000, d(1e-5)));

    assert!(solver.converged());
    assert!(f(solver.violation_gap()) < 1e-5);
    assert_eq!(alpha.len(), 6);
    for &a in alpha.iter() {
        assert!(0.0 <= a && a <= c, "alpha {} leaves the box", a);
    }
    assert_eq!(values(solver.alpha()), alpha);

    // the equality constraint holds up to rounding
    assert!(dot(&alpha, &labels).abs() < 1e-9);

    // decision function from the solution
    let w: Vec<f64> =
        (0..2).map(|k| (0..6).map(|i| alpha[i] * labels[i] * inputs[i][k]).sum()).collect();
    let support: Vec<usize> = (0..6).filter(|&i| alpha[i] > 1e-8 && alpha[i] < c - 1e-8).collect();
    assert!(!support.is_empty());
    let bias: f64 = support.iter().map(|&i| labels[i] - dot(&w, &inputs[i])).sum::<f64>()
        / support.len() as f64;
    for i in 0..6 {
        let decision = dot(&w, &inputs[i]) + bias;
        assert!(decision * labels[i] > 0.0, "point {} is on the wrong side", i);
    }
    assert!((alpha[0] - 2.0 / 13.0).abs() < 1e-4);
    assert!((alpha[2] - 2.0 / 13.0).abs() < 1e-4);
}

#[test]
fn test_smo_first_step_is_exact() {
    // Two points, labels +1 and -1, Q = [[1, 0], [0, 1]], p = -1.
    // Scores start at 1 and -1: gap 2, curvature 2, step 1.
    let mut solver = QPSolver::new(
        matrix(vec![vec![1.0, 0.0], vec![0.0, 1.0]]),
        vector(&[-1.0, -1.0]),
        vector(&[0.0, 0.0]),
        vector(&[10.0, 10.0]),
        vector(&[1.0, -1.0]),
    )
    .unwrap();
    let alpha = values(&solver.solve(1, d(1e-5)));
    assert_eq!(alpha, vec![1.0, 1.0]);
    assert!(!solver.converged());
    assert_eq!(f(solver.violation_gap()), 2.0);
    let alpha = values(&solver.solve(2, d(1e-5)));
    assert_eq!(alpha, vec![1.0, 1.0]);
    assert!(solver.converged());
    assert_eq!(f(solver.violation_gap()), 0.0);
}

#[test]
fn test_smo_step_is_cut_to_the_box() {
    let mut solver = QPSolver::new(
        matrix(vec![vec![1.0, 0.0], vec![0.0, 1.0]]),
        vector(&[-1.0, -1.0]),
        vector(&[0.0, 0.0]),
        vector(&[0.25, 10.0]),
        vector(&[1.0, -1.0]),
    )
    .unwrap();
    let alpha = values(&solver.solve(1, d(1e-5)));
    assert_eq!(alpha, vec![0.25, 0.25]);
}

#[test]
fn test_smo_iteration_cap_is_no_error() {
    let inputs =
        vec![vec![3.0, 3.0], vec![4.0, 3.0], vec![3.0, 4.0], vec![1.0, 1.0], vec![2.0, 1.0], vec![1.0, 2.0]];
    let labels = vec![1.0, 1.0, 1.0, -1.0, -1.0, -1.0];
    let mut solver = svm_dual(&inputs, &labels, 10.0);
    let alpha = values(&solver.solve(3, d(1e-5)));
    assert!(!solver.converged());
    assert!(f(solver.violation_gap()) >= 1e-5);
    for &a in alpha.iter() {
        assert!(0.0 <= a && a <= 10.0);
    }
    let alpha = values(&solver.solve(0, d(1e-5)));
    assert_eq!(alpha, vec![0.0; 6]);
    assert!(!solver.converged());
    assert_eq!(f(solver.violation_gap()), f64::INFINITY);
}

#[test]
fn test_smo_passes_over_a_pair_without_curvature() {
    // Q[0][0] + Q[1][1] - 2 Q[0][1] = 0: the only pair is never moved.
    let mut solver = QPSolver::new(
        matrix(vec![vec![2.0, 2.0], vec![2.0, 2.0]]),
        vector(&[-1.0, -1.0]),
        vector(&[0.0, 0.0]),
        vector(&[10.0, 10.0]),
        vector(&[1.0, -1.0]),
    )
    .unwrap();
    let alpha = values(&solver.solve(50, d(1e-5)));
    assert_eq!(alpha, vec![0.0, 0.0]);
    assert!(!solver.converged());
    assert_eq!(f(solver.violation_gap()), 2.0);
}

#[test]
fn test_smo_stops_where_no_pair_is_left() {
    // One class only: nothing can fall.
    let mut solver = QPSolver::new(
        matrix(vec![vec![1.0, 0.0], vec![0.0, 1.0]]),
        vector(&[-1.0, -1.0]),
        vector(&[0.0, 0.0]),
        vector(&[10.0, 10.0]),
        vector(&[1.0, 1.0]),
    )
    .unwrap();
    let alpha = values(&solver.solve(50, d(1e-5)));
    assert_eq!(alpha, vec![0.0, 0.0]);
    assert!(solver.converged());
}

#[test]
fn test_qp_dimension_mismatch() {
    let q = || matrix(vec![vec![1.0, 0.0], vec![0.0, 1.0]]);
    let two = || vector(&[0.0, 0.0]);
    let three = || vector(&[0.0, 0.0, 0.0]);
    assert_eq!(QPSolver::new(q(), three(), two(), two(), two()).unwrap_err(), MathError::DimensionMismatch);
    assert_eq!(QPSolver::new(q(), two(), three(), two(), two()).unwrap_err(), MathError::DimensionMismatch);
    assert_eq!(QPSolver::new(q(), two(), two(), three(), two()).unwrap_err(), MathError::DimensionMismatch);
    assert_eq!(QPSolver::new(q(), two(), two(), two(), three()).unwrap_err(), MathError::DimensionMismatch);
    let wide = matrix(vec![vec![1.0, 0.0, 0.0], vec![0.0, 1.0, 0.0]]);
    assert_eq!(QPSolver::new(wide, two(), two(), two(), two()).unwrap_err(), MathError::DimensionMismatch);
    assert!(QPSolver::new(q(), two(), two(), two(), two()).is_ok());
}

#[test]
fn test_new_solver_starts_at_zero() {
    let solver = QPSolver::new(
        matrix(vec![vec![1.0]]),
        vector(&[-1.0]),
        vector(&[0.0]),
        vector(&[1.0]),
        vector(&[1.0]),
    )
    .unwrap();
    assert_eq!(solver.size(), 1);
    assert_eq!(values(solver.alpha()), vec![0.0]);
    assert!(!solver.converged());
    assert_eq!(f(solver.violation_gap()), f64::INFINITY);
}
