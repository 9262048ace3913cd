//! Sequential minimal optimization for the dual of a support-vector
//! machine: a quadratic program with a box for each variable and one
//! equality that the choice of the working pair keeps.

use vstd::prelude::*;
use crate::math::error::MathError;
use crate::math::matrix::Matrix;
use crate::math::scalar::Double;
use crate::math::vector::{zero_seq, Vector};

verus! {

/// The data of the quadratic program: minimize `0.5 a'Qa + p'a` over the
/// box `l <= a <= u`, along the line that the labels `y` fix.
pub struct Problem {
    pub q: Seq<Seq<Double>>,
    pub p: Seq<Double>,
    pub l: Seq<Double>,
    pub u: Seq<Double>,
    pub y: Seq<Double>,
}

/// The dual variables and the gradient `Qa + p` that goes with them.
pub struct Iterate {
    pub alpha: Seq<Double>,
    pub grad: Seq<Double>,
}

/// The outcome of a scan for a working index: `-1` where none qualified.
pub struct Pick {
    pub index: int,
    pub score: Double,
}

/// What one iteration did: the next iterate, the violation gap that it
/// measured, and whether it was under the tolerance or no pair was left.
pub struct Step {
    pub next: Iterate,
    pub gap: Double,
    pub stop: bool,
}

/// The end of a run: the last iterate, the last gap that was measured, and
/// whether the run stopped before the iteration cap.
pub struct Run {
    pub iterate: Iterate,
    pub gap: Double,
    pub converged: bool,
}

impl Problem {
    /// The number of variables.
    pub open spec fn size(self) -> int {
        self.y.len() as int
    }

    /// `Q` is square of the order of the labels, and `p`, `l`, `u` have
    /// their length.
    pub open spec fn consistent(self) -> bool {
        &&& self.q.len() == self.y.len()
        &&& forall|i: int| 0 <= i < self.q.len() ==> (#[trigger] self.q[i]).len() == self.y.len()
        &&& self.p.len() == self.y.len()
        &&& self.l.len() == self.y.len()
        &&& self.u.len() == self.y.len()
    }

    /// Whether `alpha[t]` may still move in the direction of its label: up
    /// for a label `+1` under its upper bound, down for a label `-1` over
    /// its lower bound.
    pub open spec fn can_rise(self, alpha: Seq<Double>, t: int) -> bool {
        (self.y[t].same(Double::one()) && alpha[t].lt(self.u[t])) || (self.y[t].same(
            Double::one().neg(),
        ) && alpha[t].gt(self.l[t]))
    }

    /// Whether `alpha[t]` may still move against its label.
    pub open spec fn can_fall(self, alpha: Seq<Double>, t: int) -> bool {
        (self.y[t].same(Double::one()) && alpha[t].gt(self.l[t])) || (self.y[t].same(
            Double::one().neg(),
        ) && alpha[t].lt(self.u[t]))
    }

    /// The violation score `-y[t] * grad[t]` of an index with a label of
    /// `+1` or `-1`.
    pub open spec fn score(self, grad: Seq<Double>, t: int) -> Double {
        if self.y[t].same(Double::one()) {
            grad[t].neg()
        } else {
            grad[t]
        }
    }

    /// The index below `upto` that may rise with the largest score, the
    /// last of them where several share it.
    pub open spec fn pick_up(self, s: Iterate, upto: int) -> Pick
        decreases upto,
    {
        if upto <= 0 {
            Pick { index: -1, score: Double::infinity().neg() }
        } else {
            let before = self.pick_up(s, upto - 1);
            let t = upto - 1;
            if self.can_rise(s.alpha, t) && self.score(s.grad, t).ge(before.score) {
                Pick { index: t, score: self.score(s.grad, t) }
            } else {
                before
            }
        }
    }

    /// The index below `upto`, other than `i`, that may fall with the
    /// smallest score, the last of them where several share it.
    pub open spec fn pick_down(self, s: Iterate, i: int, upto: int) -> Pick
        decreases upto,
    {
        if upto <= 0 {
            Pick { index: -1, score: Double::infinity() }
        } else {
            let before = self.pick_down(s, i, upto - 1);
            let t = upto - 1;
            if t != i && self.can_fall(s.alpha, t) && self.score(s.grad, t).le(before.score) {
                Pick { index: t, score: self.score(s.grad, t) }
            } else {
                before
            }
        }
    }

    /// How far `alpha[i]` can move with its label before it meets a bound.
    pub open spec fn room_up(self, alpha: Seq<Double>, i: int) -> Double {
        if self.y[i].same(Double::one()) {
            self.u[i].difference(alpha[i])
        } else {
            alpha[i].difference(self.l[i])
        }
    }

    /// How far `alpha[j]` can move against its label before it meets a
    /// bound.
    pub open spec fn room_down(self, alpha: Seq<Double>, j: int) -> Double {
        if self.y[j].same(Double::one()) {
            alpha[j].difference(self.l[j])
        } else {
            self.u[j].difference(alpha[j])
        }
    }

    /// The curvature of the objective along the pair (`i`, `j`).
    pub open spec fn curvature(self, i: int, j: int) -> Double {
        self.q[i][i].sum(self.q[j][j]).difference(Double::two().product(self.q[i][j]))
    }

    /// The step along the pair (`i`, `j`): the length `t`, cut to the room
    /// that both variables have.
    pub open spec fn step_length(self, alpha: Seq<Double>, i: int, j: int, t: Double) -> Double {
        t.smaller(self.room_up(alpha, i)).smaller(self.room_down(alpha, j))
    }

    /// The new value of `alpha[i]`: moved by `t` with its label, then
    /// brought into its box.
    pub open spec fn raised(self, alpha: Seq<Double>, i: int, t: Double) -> Double {
        (if self.y[i].same(Double::one()) {
            alpha[i].sum(t)
        } else {
            alpha[i].difference(t)
        }).clamp(self.l[i], self.u[i])
    }

    /// The new value of `alpha[j]`: moved by `t` against its label, then
    /// brought into its box.
    pub open spec fn lowered(self, alpha: Seq<Double>, j: int, t: Double) -> Double {
        (if self.y[j].same(Double::one()) {
            alpha[j].difference(t)
        } else {
            alpha[j].sum(t)
        }).clamp(self.l[j], self.u[j])
    }

    /// The gradient after `alpha[i]` changed by `di` and `alpha[j]` by `dj`.
    pub open spec fn regraded(
        self,
        grad: Seq<Double>,
        i: int,
        j: int,
        di: Double,
        dj: Double,
    ) -> Seq<Double> {
        Seq::new(
            grad.len(),
            |k: int| grad[k].sum(di.product(self.q[i][k]).sum(dj.product(self.q[j][k]))),
        )
    }

    /// The iterate after a step of length `t` along the pair (`i`, `j`).
    pub open spec fn moved(self, s: Iterate, i: int, j: int, t: Double) -> Iterate {
        let length = self.step_length(s.alpha, i, j, t);
        let ai = self.raised(s.alpha, i, length);
        let aj = self.lowered(s.alpha, j, length);
        Iterate {
            alpha: s.alpha.update(i, ai).update(j, aj),
            grad: self.regraded(
                s.grad,
                i,
                j,
                ai.difference(s.alpha[i]),
                aj.difference(s.alpha[j]),
            ),
        }
    }

    /// One iteration: the most violating pair is picked; the run stops where
    /// there is none or its gap is under `tolerance`; a pair without
    /// positive curvature is passed over; else the pair is moved.
    pub open spec fn step(self, s: Iterate, tolerance: Double) -> Step {
        let up = self.pick_up(s, self.size());
        let down = self.pick_down(s, up.index, self.size());
        let gap = up.score.difference(down.score);
        if up.index < 0 || down.index < 0 || gap.lt(tolerance) {
            Step { next: s, gap, stop: true }
        } else {
            let eta = self.curvature(up.index, down.index);
            if eta.le(Double::zero()) {
                Step { next: s, gap, stop: false }
            } else {
                Step { next: self.moved(s, up.index, down.index, gap.quotient(eta)), gap, stop: false }
            }
        }
    }

    /// At most `remaining` iterations from `s`, where `gap` is the gap
    /// measured last.
    pub open spec fn run_from(self, s: Iterate, gap: Double, tolerance: Double, remaining: nat) -> Run
        decreases remaining,
    {
        if remaining == 0 {
            Run { iterate: s, gap, converged: false }
        } else {
            let step = self.step(s, tolerance);
            if step.stop {
                Run { iterate: s, gap: step.gap, converged: true }
            } else {
                self.run_from(step.next, step.gap, tolerance, (remaining - 1) as nat)
            }
        }
    }

    /// The start of every run: all variables zero, the gradient `p`.
    pub open spec fn start(self) -> Iterate {
        Iterate { alpha: zero_seq(self.y.len()), grad: self.p }
    }

    /// A whole run of at most `max_iters` iterations. Before the first
    /// measurement the gap counts as infinite.
    pub open spec fn run(self, max_iters: nat, tolerance: Double) -> Run {
        self.run_from(self.start(), Double::infinity(), tolerance, max_iters)
    }

    /// Whether every variable whose box holds zero lies in its box.
    pub open spec fn within_box(self, alpha: Seq<Double>) -> bool {
        forall|t: int|
            0 <= t < self.size() && self.l[t].le(Double::zero()) && Double::zero().le(self.u[t])
                ==> self.l[t].le(#[trigger] alpha[t]) && alpha[t].le(self.u[t])
    }

    /// A picked index may rise, and its score is the one reported.
    pub proof fn lemma_pick_up_valid(self, s: Iterate, upto: int)
        ensures
            -1 <= self.pick_up(s, upto).index < upto || (upto <= 0 && self.pick_up(s, upto).index
                == -1),
            self.pick_up(s, upto).index >= 0 ==> self.can_rise(
                s.alpha,
                self.pick_up(s, upto).index,
            ) && self.pick_up(s, upto).score == self.score(s.grad, self.pick_up(s, upto).index),
        decreases upto,
    {
        if upto > 0 {
            self.lemma_pick_up_valid(s, upto - 1);
        }
    }

    /// No index that may rise has a larger score than the picked one.
    pub proof fn lemma_pick_up_maximal(self, s: Iterate, upto: int, t: int)
        requires
            0 <= t < upto,
            self.can_rise(s.alpha, t),
            !self.score(s.grad, t).is_nan(),
        ensures
            self.pick_up(s, upto).index >= 0,
            self.score(s.grad, t).le(self.pick_up(s, upto).score),
        decreases upto,
    {
        self.lemma_pick_up_score_ordered(s, upto - 1);
        if t < upto - 1 {
            self.lemma_pick_up_maximal(s, upto - 1, t);
        }
    }

    /// The score of a pick is never a NaN.
    pub proof fn lemma_pick_up_score_ordered(self, s: Iterate, upto: int)
        ensures
            !self.pick_up(s, upto).score.is_nan(),
            self.pick_up(s, upto).index < 0 ==> self.pick_up(s, upto).score
                == Double::infinity().neg(),
        decreases upto,
    {
        if upto > 0 {
            self.lemma_pick_up_score_ordered(s, upto - 1);
        }
    }

    /// A picked index may fall, differs from `i`, and its score is the one
    /// reported.
    pub proof fn lemma_pick_down_valid(self, s: Iterate, i: int, upto: int)
        ensures
            -1 <= self.pick_down(s, i, upto).index < upto || (upto <= 0 && self.pick_down(
                s,
                i,
                upto,
            ).index == -1),
            self.pick_down(s, i, upto).index != i || i == -1,
            self.pick_down(s, i, upto).index >= 0 ==> self.can_fall(
                s.alpha,
                self.pick_down(s, i, upto).index,
            ) && self.pick_down(s, i, upto).score == self.score(
                s.grad,
                self.pick_down(s, i, upto).index,
            ),
        decreases upto,
    {
        if upto > 0 {
            self.lemma_pick_down_valid(s, i, upto - 1);
        }
    }

    /// The score of a downward pick is never a NaN.
    pub proof fn lemma_pick_down_score_ordered(self, s: Iterate, i: int, upto: int)
        ensures
            !self.pick_down(s, i, upto).score.is_nan(),
            self.pick_down(s, i, upto).index < 0 ==> self.pick_down(s, i, upto).score
                == Double::infinity(),
        decreases upto,
    {
        if upto > 0 {
            self.lemma_pick_down_score_ordered(s, i, upto - 1);
        }
    }

    /// No index other than `i` that may fall has a smaller score than the
    /// picked one.
    pub proof fn lemma_pick_down_minimal(self, s: Iterate, i: int, upto: int, t: int)
        requires
            0 <= t < upto,
            t != i,
            self.can_fall(s.alpha, t),
            !self.score(s.grad, t).is_nan(),
        ensures
            self.pick_down(s, i, upto).index >= 0,
            self.pick_down(s, i, upto).score.le(self.score(s.grad, t)),
        decreases upto,
    {
        self.lemma_pick_down_score_ordered(s, i, upto - 1);
        if t < upto - 1 {
            self.lemma_pick_down_minimal(s, i, upto - 1, t);
        }
    }

    /// Leaving out an index that does not exist leaves out nothing: the scan
    /// is the one that skips `-1`.
    pub proof fn lemma_pick_down_skips_nothing(self, s: Iterate, i: int, upto: int)
        requires
            i >= upto,
        ensures
            self.pick_down(s, i, upto) == self.pick_down(s, -1, upto),
        decreases upto,
    {
        if upto > 0 {
            self.lemma_pick_down_skips_nothing(s, i, upto - 1);
        }
    }

    /// A step keeps the lengths and the box.
    pub proof fn lemma_step_keeps_box(self, s: Iterate, tolerance: Double)
        requires
            self.consistent(),
            s.alpha.len() == self.size(),
            s.grad.len() == self.size(),
            self.within_box(s.alpha),
        ensures
            self.step(s, tolerance).next.alpha.len() == self.size(),
            self.step(s, tolerance).next.grad.len() == self.size(),
            self.within_box(self.step(s, tolerance).next.alpha),
    {
        let up = self.pick_up(s, self.size());
        self.lemma_pick_up_valid(s, self.size());
        self.lemma_pick_down_valid(s, up.index, self.size());
    }

    /// Every variable whose box holds zero stays in its box through a run
    /// that starts inside.
    pub proof fn lemma_run_keeps_box(
        self,
        s: Iterate,
        gap: Double,
        tolerance: Double,
        remaining: nat,
    )
        requires
            self.consistent(),
            s.alpha.len() == self.size(),
            s.grad.len() == self.size(),
            self.within_box(s.alpha),
        ensures
            self.run_from(s, gap, tolerance, remaining).iterate.alpha.len() == self.size(),
            self.within_box(self.run_from(s, gap, tolerance, remaining).iterate.alpha),
        decreases remaining,
    {
        if remaining > 0 {
            let step = self.step(s, tolerance);
            self.lemma_step_keeps_box(s, tolerance);
            if !step.stop {
                self.lemma_run_keeps_box(step.next, step.gap, tolerance, (remaining - 1) as nat);
            }
        }
    }

    /// A run that stopped early ended at rest: one more iteration from its
    /// last iterate stops at once, at the gap that the run reports.
    pub proof fn lemma_run_ends_at_rest(
        self,
        s: Iterate,
        gap: Double,
        tolerance: Double,
        remaining: nat,
    )
        ensures
            ({
                let run = self.run_from(s, gap, tolerance, remaining);
                run.converged ==> self.step(run.iterate, tolerance).stop && self.step(
                    run.iterate,
                    tolerance,
                ).gap == run.gap
            }),
        decreases remaining,
    {
        if remaining > 0 {
            let step = self.step(s, tolerance);
            if !step.stop {
                self.lemma_run_ends_at_rest(step.next, step.gap, tolerance, (remaining - 1) as nat);
            }
        }
    }

    /// Where a run stopped early and a pair was left, the gap it reports is
    /// under the tolerance.
    pub proof fn lemma_converged_gap(self, max_iters: nat, tolerance: Double)
        ensures
            ({
                let run = self.run(max_iters, tolerance);
                let up = self.pick_up(run.iterate, self.size());
                let down = self.pick_down(run.iterate, up.index, self.size());
                run.converged && up.index >= 0 && down.index >= 0 ==> run.gap.lt(tolerance)
            }),
    {
        self.lemma_run_ends_at_rest(self.start(), Double::infinity(), tolerance, max_iters);
    }

    /// The solution of a whole run lies in the box, where the box of each
    /// variable holds zero.
    pub proof fn lemma_solution_within_box(self, max_iters: nat, tolerance: Double)
        requires
            self.consistent(),
        ensures
            self.run(max_iters, tolerance).iterate.alpha.len() == self.size(),
            self.within_box(self.run(max_iters, tolerance).iterate.alpha),
    {
        self.lemma_run_keeps_box(self.start(), Double::infinity(), tolerance, max_iters);
    }
}

/// A solver for the dual of a support-vector machine, by sequential minimal
/// optimization on the most violating pair.
#[derive(Debug)]
pub struct QPSolver {
    pub(crate) q: Matrix,
    pub(crate) p: Vector,
    pub(crate) l: Vector,
    pub(crate) u: Vector,
    pub(crate) y: Vector,
    pub(crate) alpha: Vector,
    pub(crate) gap: Double,
    pub(crate) converged: bool,
}

impl QPSolver {
    /// The program that the solver holds.
    pub open(crate) spec fn problem(&self) -> Problem {
        Problem { q: self.q@, p: self.p@, l: self.l@, u: self.u@, y: self.y@ }
    }

    /// The solution of the last run; zeros before the first.
    pub open(crate) spec fn spec_alpha(&self) -> Seq<Double> {
        self.alpha@
    }

    /// The violation gap that the last run measured last; infinite before
    /// the first measurement.
    pub open(crate) spec fn spec_gap(&self) -> Double {
        self.gap
    }

    /// Whether the last run stopped before the iteration cap.
    pub open(crate) spec fn spec_converged(&self) -> bool {
        self.converged
    }

    /// The shapes fit together.
    #[verifier::type_invariant]
    pub open(crate) spec fn wf(&self) -> bool {
        &&& self.q.wf()
        &&& self.q.spec_cols() == self.y@.len()
        &&& self.problem().consistent()
        &&& self.alpha@.len() == self.y@.len()
    }

    /// A solver for the program with matrix `q`, linear term `p`, bounds
    /// `l` and `u` and labels `y`.
    pub fn new(q: Matrix, p: Vector, l: Vector, u: Vector, y: Vector) -> (r: Result<
        QPSolver,
        MathError,
    >)
        ensures
            match r {
                Ok(solver) => {
                    &&& q@.len() == y@.len()
                    &&& q.spec_cols() == y@.len()
                    &&& p@.len() == y@.len()
                    &&& l@.len() == y@.len()
                    &&& u@.len() == y@.len()
                    &&& solver.problem() == (Problem { q: q@, p: p@, l: l@, u: u@, y: y@ })
                    &&& solver.spec_alpha() == zero_seq(y@.len())
                    &&& solver.spec_gap() == Double::infinity()
                    &&& !solver.spec_converged()
                },
                Err(e) => e == MathError::DimensionMismatch && !(q@.len() == y@.len()
                    && q.spec_cols() == y@.len() && p@.len() == y@.len() && l@.len() == y@.len()
                    && u@.len() == y@.len()),
            },
    {
        proof {
            use_type_invariant(&q);
        }
        let n: usize = y.len();
        if q.row_count() != n || q.col_count() != n || p.len() != n || l.len() != n || u.len()
            != n {
            return Err(MathError::DimensionMismatch);
        }
        let alpha = Vector::zeros(n);
        Ok(QPSolver { q, p, l, u, y, alpha, gap: Double::infinity(), converged: false })
    }

    /// The number of variables.
    pub fn size(&self) -> (n: usize)
        ensures
            n == self.problem().size(),
    {
        self.y.len()
    }

    /// The solution of the last run.
    pub fn alpha(&self) -> (a: &Vector)
        ensures
            a@ == self.spec_alpha(),
    {
        &self.alpha
    }

    /// The violation gap that the last run measured last.
    pub fn violation_gap(&self) -> (g: Double)
        ensures
            g == self.spec_gap(),
    {
        self.gap
    }

    /// Whether the last run stopped before the iteration cap.
    pub fn converged(&self) -> (c: bool)
        ensures
            c == self.spec_converged(),
    {
        self.converged
    }

    /// The score `-y[t] * grad[t]` of index `t`.
    fn score(&self, grad: &Vector, t: usize) -> (r: Double)
        requires
            t < self.y@.len(),
            grad@.len() == self.y@.len(),
        ensures
            r == self.problem().score(grad@, t as int),
    {
        if self.y.data[t].same(Double::one()) {
            grad.data[t].neg()
        } else {
            grad.data[t]
        }
    }

    /// Scans for the index that may rise with the largest score.
    fn pick_up(&self, alpha: &Vector, grad: &Vector) -> (r: (Option<usize>, Double))
        requires
            self.wf(),
            alpha@.len() == self.y@.len(),
            grad@.len() == self.y@.len(),
        ensures
            ({
                let pick = self.problem().pick_up(
                    Iterate { alpha: alpha@, grad: grad@ },
                    self.problem().size(),
                );
                &&& r.1 == pick.score
                &&& match r.0 {
                    Some(i) => i == pick.index && i < self.y@.len(),
                    None => pick.index == -1,
                }
            }),
    {
        let n: usize = self.y.len();
        let ghost s = Iterate { alpha: alpha@, grad: grad@ };
        let mut index: Option<usize> = None;
        let mut best = Double::infinity().neg();
        let mut t: usize = 0;
        while t < n
            invariant
                t <= n,
                n == self.y@.len(),
                self.wf(),
                alpha@.len() == n,
                grad@.len() == n,
                s == (Iterate { alpha: alpha@, grad: grad@ }),
                best == self.problem().pick_up(s, t as int).score,
                match index {
                    Some(i) => i == self.problem().pick_up(s, t as int).index && i < n,
                    None => self.problem().pick_up(s, t as int).index == -1,
                },
            decreases n - t,
        {
            let y_t = self.y.data[t];
            let a_t = alpha.data[t];
            let rises = (y_t.same(Double::one()) && a_t.lt(self.u.data[t])) || (y_t.same(
                Double::one().neg(),
            ) && a_t.gt(self.l.data[t]));
            if rises {
                let score = self.score(grad, t);
                if score.ge(best) {
                    best = score;
                    index = Some(t);
                }
            }
            t += 1;
        }
        (index, best)
    }

    /// Scans for the index other than `skip` that may fall with the
    /// smallest score.
    fn pick_down(&self, alpha: &Vector, grad: &Vector, skip: usize) -> (r: (Option<usize>, Double))
        requires
            self.wf(),
            alpha@.len() == self.y@.len(),
            grad@.len() == self.y@.len(),
        ensures
            ({
                let pick = self.problem().pick_down(
                    Iterate { alpha: alpha@, grad: grad@ },
                    skip as int,
                    self.problem().size(),
                );
                &&& r.1 == pick.score
                &&& match r.0 {
                    Some(j) => j == pick.index && j < self.y@.len() && j != skip,
                    None => pick.index == -1,
                }
            }),
    {
        let n: usize = self.y.len();
        let ghost s = Iterate { alpha: alpha@, grad: grad@ };
        let mut index: Option<usize> = None;
        let mut best = Double::infinity();
        let mut t: usize = 0;
        while t < n
            invariant
                t <= n,
                n == self.y@.len(),
                self.wf(),
                alpha@.len() == n,
                grad@.len() == n,
                s == (Iterate { alpha: alpha@, grad: grad@ }),
                best == self.problem().pick_down(s, skip as int, t as int).score,
                match index {
                    Some(j) => j == self.problem().pick_down(s, skip as int, t as int).index && j
                        < n && j != skip,
                    None => self.problem().pick_down(s, skip as int, t as int).index == -1,
                },
            decreases n - t,
        {
            let y_t = self.y.data[t];
            let a_t = alpha.data[t];
            let falls = (y_t.same(Double::one()) && a_t.gt(self.l.data[t])) || (y_t.same(
                Double::one().neg(),
            ) && a_t.lt(self.u.data[t]));
            if t != skip && falls {
                let score = self.score(grad, t);
                if score.le(best) {
                    best = score;
                    index = Some(t);
                }
            }
            t += 1;
        }
        (index, best)
    }

    /// Moves the pair (`i`, `j`) by a step of length `t`, cut to the box,
    /// and brings the gradient up to date.
    fn advance(&self, alpha: &mut Vector, grad: &mut Vector, i: usize, j: usize, t: Double)
        requires
            self.wf(),
            old(alpha)@.len() == self.y@.len(),
            old(grad)@.len() == self.y@.len(),
            i < self.y@.len(),
            j < self.y@.len(),
            i != j,
        ensures
            (Iterate { alpha: final(alpha)@, grad: final(grad)@ }) == self.problem().moved(
                Iterate { alpha: old(alpha)@, grad: old(grad)@ },
                i as int,
                j as int,
                t,
            ),
            final(alpha)@.len() == self.y@.len(),
            final(grad)@.len() == self.y@.len(),
    {
        let n: usize = self.y.len();
        let one = Double::one();
        let a_i = alpha.data[i];
        let a_j = alpha.data[j];
        let room_up = if self.y.data[i].same(one) {
            self.u.data[i].minus(a_i)
        } else {
            a_i.minus(self.l.data[i])
        };
        let room_down = if self.y.data[j].same(one) {
            a_j.minus(self.l.data[j])
        } else {
            self.u.data[j].minus(a_j)
        };
        let length = t.smaller(room_up).smaller(room_down);
        let raised = (if self.y.data[i].same(one) {
            a_i.plus(length)
        } else {
            a_i.minus(length)
        }).clamp(self.l.data[i], self.u.data[i]);
        let lowered = (if self.y.data[j].same(one) {
            a_j.minus(length)
        } else {
            a_j.plus(length)
        }).clamp(self.l.data[j], self.u.data[j]);
        let di = raised.minus(a_i);
        let dj = lowered.minus(a_j);
        alpha.data[i] = raised;
        alpha.data[j] = lowered;
        let mut k: usize = 0;
        while k < n
            invariant
                k <= n,
                n == self.y@.len(),
                self.wf(),
                i < n,
                j < n,
                grad@.len() == n,
                forall|c: int|
                    0 <= c < k ==> #[trigger] grad@[c] == old(grad)@[c].sum(
                        di.product(self.q@[i as int][c]).sum(dj.product(self.q@[j as int][c])),
                    ),
                forall|c: int| k <= c < n ==> #[trigger] grad@[c] == old(grad)@[c],
            decreases n - k,
        {
            let change = di.times(self.q.rows[i].data[k]).plus(dj.times(self.q.rows[j].data[k]));
            let updated = grad.data[k].plus(change);
            grad.data[k] = updated;
            k += 1;
        }
        assert(grad@ =~= self.problem().regraded(old(grad)@, i as int, j as int, di, dj));
    }

    /// Runs at most `max_iters` iterations from zero and returns the
    /// variables as the last iteration left them. Reaching the cap is no
    /// error. The gap measured last and whether the run stopped early are
    /// kept in the solver.
    pub fn solve(&mut self, max_iters: usize, tolerance: Double) -> (r: Vector)
        ensures
            final(self).problem() == old(self).problem(),
            r@ == old(self).problem().run(max_iters as nat, tolerance).iterate.alpha,
            final(self).spec_alpha() == r@,
            final(self).spec_gap() == old(self).problem().run(max_iters as nat, tolerance).gap,
            final(self).spec_converged() == old(self).problem().run(
                max_iters as nat,
                tolerance,
            ).converged,
            r@.len() == old(self).problem().size(),
            old(self).problem().within_box(r@),
    {
        proof {
            use_type_invariant(&*self);
            use_type_invariant(&self.q);
        }
        let n: usize = self.y.len();
        let ghost pb = self.problem();
        let ghost target = pb.run(max_iters as nat, tolerance);
        let mut alpha = Vector::zeros(n);
        let mut grad = self.p.clone();
        let mut gap = Double::infinity();
        let mut converged = false;
        let mut iter: usize = 0;
        while iter < max_iters && !converged
            invariant
                iter <= max_iters,
                n == self.y@.len(),
                self.wf(),
                pb == self.problem(),
                self.q.wf(),
                alpha@.len() == n,
                grad@.len() == n,
                target == pb.run(max_iters as nat, tolerance),
                converged ==> target == (Run {
                    iterate: Iterate { alpha: alpha@, grad: grad@ },
                    gap,
                    converged: true,
                }),
                !converged ==> target == pb.run_from(
                    Iterate { alpha: alpha@, grad: grad@ },
                    gap,
                    tolerance,
                    (max_iters - iter) as nat,
                ),
            decreases max_iters - iter, if converged { 0int } else { 1int },
        {
            let ghost s = Iterate { alpha: alpha@, grad: grad@ };
            let (up, up_score) = self.pick_up(&alpha, &grad);
            let skip: usize = match up {
                Some(i) => i,
                None => n,
            };
            proof {
                pb.lemma_pick_down_skips_nothing(s, n as int, pb.size());
            }
            let (down, down_score) = self.pick_down(&alpha, &grad, skip);
            gap = up_score.minus(down_score);
            match (up, down) {
                (Some(i), Some(j)) => {
                    if gap.lt(tolerance) {
                        converged = true;
                    } else {
                        let q_ii = self.q.rows[i].data[i];
                        let q_jj = self.q.rows[j].data[j];
                        let q_ij = self.q.rows[i].data[j];
                        let eta = q_ii.plus(q_jj).minus(Double::two().times(q_ij));
                        if !eta.le(Double::zero()) {
                            self.advance(&mut alpha, &mut grad, i, j, gap.over(eta));
                        }
                        iter += 1;
                    }
                },
                _ => {
                    converged = true;
                },
            }
        }
        proof {
            pb.lemma_solution_within_box(max_iters as nat, tolerance);
        }
        let result = alpha.clone();
        self.alpha = alpha;
        self.gap = gap;
        self.converged = converged;
        result
    }
}

} // verus!
