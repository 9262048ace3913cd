//! Vectors of doubles and their elementwise arithmetic.

use vstd::prelude::*;
use crate::math::error::MathError;
use crate::math::scalar::Double;

verus! {

/// The sum of the first `n` elementwise products of `a` and `b`, taken
/// strictly from left to right, starting from zero.
pub open spec fn dot_prefix(a: Seq<Double>, b: Seq<Double>, n: int) -> Double
    decreases n,
{
    if n <= 0 {
        Double::zero()
    } else {
        dot_prefix(a, b, n - 1).sum(a[n - 1].product(b[n - 1]))
    }
}

/// The dot product of two sequences of one length.
pub open spec fn dot_of(a: Seq<Double>, b: Seq<Double>) -> Double {
    dot_prefix(a, b, a.len() as int)
}

/// The Euclidean norm: the square root of the dot product of `v` with itself.
pub open spec fn norm_of(v: Seq<Double>) -> Double {
    dot_of(v, v).square_root()
}

/// Every element multiplied by `k`.
pub open spec fn scaled(v: Seq<Double>, k: Double) -> Seq<Double> {
    Seq::new(v.len(), |i: int| v[i].product(k))
}

/// The elementwise sum of two sequences of one length.
pub open spec fn added(a: Seq<Double>, b: Seq<Double>) -> Seq<Double> {
    Seq::new(a.len(), |i: int| a[i].sum(b[i]))
}

/// `y + alpha * x`, element by element.
pub open spec fn combined(y: Seq<Double>, alpha: Double, x: Seq<Double>) -> Seq<Double> {
    Seq::new(y.len(), |i: int| y[i].sum(alpha.product(x[i])))
}

/// `v` with the elements at `i` and `j` exchanged.
pub open spec fn swapped(v: Seq<Double>, i: int, j: int) -> Seq<Double> {
    v.update(i, v[j]).update(j, v[i])
}

/// `n` zeros.
pub open spec fn zero_seq(n: nat) -> Seq<Double> {
    Seq::new(n, |i: int| Double::zero())
}

/// Two sequences of one length whose entries all count as equal.
pub open spec fn close_seqs(a: Seq<Double>, b: Seq<Double>) -> bool {
    a.len() == b.len() && forall|i: int| 0 <= i < a.len() ==> (#[trigger] a[i]).close(b[i])
}

/// An owned sequence of doubles.
#[derive(Debug)]
pub struct Vector {
    pub data: Vec<Double>,
}

impl View for Vector {
    type V = Seq<Double>;

    open spec fn view(&self) -> Seq<Double> {
        self.data@
    }
}

impl Clone for Vector {
    fn clone(&self) -> (r: Self)
        ensures
            r@ == self@,
    {
        let mut data: Vec<Double> = Vec::new();
        let n: usize = self.data.len();
        let mut i: usize = 0;
        while i < n
            invariant
                n == self.data@.len(),
                i <= n,
                data@ == self.data@.subrange(0, i as int),
            decreases n - i,
        {
            data.push(self.data[i]);
            i += 1;
        }
        Vector { data }
    }
}

impl PartialEq for Vector {
    /// Equality up to the machine epsilon, as `approx_eq` computes it.
    fn eq(&self, other: &Vector) -> (r: bool) {
        self.approx_eq(other)
    }
}

impl vstd::std_specs::cmp::PartialEqSpecImpl for Vector {
    open spec fn obeys_eq_spec() -> bool {
        true
    }

    open spec fn eq_spec(&self, other: &Vector) -> bool {
        close_seqs(self@, other@)
    }
}

impl Vector {
    /// A vector that holds `data`.
    pub fn new(data: Vec<Double>) -> (v: Vector)
        ensures
            v@ == data@,
    {
        Vector { data }
    }

    /// A vector of `size` zeros.
    pub fn zeros(size: usize) -> (v: Vector)
        ensures
            v@ == zero_seq(size as nat),
    {
        let mut data: Vec<Double> = Vec::new();
        let mut i: usize = 0;
        while i < size
            invariant
                i <= size,
                data@ == zero_seq(i as nat),
            decreases size - i,
        {
            data.push(Double::zero());
            i += 1;
        }
        Vector { data }
    }

    /// A vector of `size` values drawn from `draw`, in order.
    pub fn random<F: Fn() -> Double>(size: usize, draw: F) -> (v: Vector)
        requires
            draw.requires(()),
        ensures
            v@.len() == size,
            forall|i: int| 0 <= i < size ==> draw.ensures((), #[trigger] v@[i]),
    {
        let mut data: Vec<Double> = Vec::new();
        let mut i: usize = 0;
        while i < size
            invariant
                i <= size,
                draw.requires(()),
                data@.len() == i,
                forall|k: int| 0 <= k < i ==> draw.ensures((), #[trigger] data@[k]),
            decreases size - i,
        {
            let x = draw();
            data.push(x);
            i += 1;
        }
        Vector { data }
    }

    /// An iterator over the elements, from the first to the last.
    pub fn iter(&self) -> (it: core::slice::Iter<'_, Double>)
        ensures
            vstd::std_specs::slice::into_iter_elts(it) == self@,
    {
        let it = self.data.iter();
        it
    }

    /// The number of elements.
    pub fn len(&self) -> (n: usize)
        ensures
            n == self@.len(),
    {
        self.data.len()
    }

    /// The element at `index`.
    pub fn get(&self, index: usize) -> (r: Result<Double, MathError>)
        ensures
            index < self@.len() ==> r == Ok::<Double, MathError>(self@[index as int]),
            index >= self@.len() ==> r == Err::<Double, MathError>(MathError::IndexOutOfRange),
    {
        if index < self.data.len() {
            Ok(self.data[index])
        } else {
            Err(MathError::IndexOutOfRange)
        }
    }

    /// Replaces the element at `index`.
    pub fn set(&mut self, index: usize, value: Double) -> (r: Result<(), MathError>)
        ensures
            index < old(self)@.len() ==> r.is_ok() && final(self)@ == old(self)@.update(
                index as int,
                value,
            ),
            index >= old(self)@.len() ==> r == Err::<(), MathError>(MathError::IndexOutOfRange)
                && final(self)@ == old(self)@,
    {
        if index < self.data.len() {
            self.data[index] = value;
            Ok(())
        } else {
            Err(MathError::IndexOutOfRange)
        }
    }

    /// The dot product, summed strictly from left to right.
    pub fn dot(&self, other: &Vector) -> (r: Result<Double, MathError>)
        ensures
            self@.len() == other@.len() ==> r == Ok::<Double, MathError>(dot_of(self@, other@)),
            self@.len() != other@.len() ==> r == Err::<Double, MathError>(
                MathError::DimensionMismatch,
            ),
    {
        let n: usize = self.data.len();
        if other.data.len() != n {
            return Err(MathError::DimensionMismatch);
        }
        let mut sum = Double::zero();
        let mut i: usize = 0;
        while i < n
            invariant
                n == self@.len(),
                n == other@.len(),
                i <= n,
                sum == dot_prefix(self@, other@, i as int),
            decreases n - i,
        {
            sum = sum.plus(self.data[i].times(other.data[i]));
            i += 1;
        }
        Ok(sum)
    }

    /// `self = self + alpha * x`, element by element.
    pub fn axpy(&mut self, alpha: Double, x: &Vector) -> (r: Result<(), MathError>)
        ensures
            old(self)@.len() == x@.len() ==> r.is_ok() && final(self)@ == combined(
                old(self)@,
                alpha,
                x@,
            ),
            old(self)@.len() != x@.len() ==> r == Err::<(), MathError>(
                MathError::DimensionMismatch,
            ) && final(self)@ == old(self)@,
    {
        let n: usize = self.data.len();
        if x.data.len() != n {
            return Err(MathError::DimensionMismatch);
        }
        let mut i: usize = 0;
        while i < n
            invariant
                n == old(self)@.len(),
                n == x@.len(),
                n == self@.len(),
                i <= n,
                forall|k: int| 0 <= k < i ==> #[trigger] self@[k] == old(self)@[k].sum(
                    alpha.product(x@[k]),
                ),
                forall|k: int| i <= k < n ==> #[trigger] self@[k] == old(self)@[k],
            decreases n - i,
        {
            let updated = self.data[i].plus(alpha.times(x.data[i]));
            self.data[i] = updated;
            i += 1;
        }
        Ok(())
    }

    /// The Euclidean norm.
    pub fn norm(&self) -> (r: Double)
        ensures
            r == norm_of(self@),
    {
        let n: usize = self.data.len();
        let mut sum = Double::zero();
        let mut i: usize = 0;
        while i < n
            invariant
                n == self@.len(),
                i <= n,
                sum == dot_prefix(self@, self@, i as int),
            decreases n - i,
        {
            sum = sum.plus(self.data[i].times(self.data[i]));
            i += 1;
        }
        sum.sqrt()
    }

    /// `self = self + alpha * other`, element by element.
    pub fn add_assign(&mut self, other: &Vector, alpha: Double) -> (r: Result<(), MathError>)
        ensures
            old(self)@.len() == other@.len() ==> r.is_ok() && final(self)@ == combined(
                old(self)@,
                alpha,
                other@,
            ),
            old(self)@.len() != other@.len() ==> r == Err::<(), MathError>(
                MathError::DimensionMismatch,
            ) && final(self)@ == old(self)@,
    {
        self.axpy(alpha, other)
    }

    /// A new vector with every element multiplied by `scalar`.
    pub fn scale(&self, scalar: Double) -> (v: Vector)
        ensures
            v@ == scaled(self@, scalar),
    {
        let n: usize = self.data.len();
        let mut data: Vec<Double> = Vec::new();
        let mut i: usize = 0;
        while i < n
            invariant
                n == self@.len(),
                i <= n,
                data@.len() == i,
                forall|k: int| 0 <= k < i ==> #[trigger] data@[k] == self@[k].product(scalar),
            decreases n - i,
        {
            data.push(self.data[i].times(scalar));
            i += 1;
        }
        Vector { data }
    }

    /// Multiplies every element by `factor`, in place.
    pub fn scale_assign(&mut self, factor: Double)
        ensures
            final(self)@ == scaled(old(self)@, factor),
    {
        let n: usize = self.data.len();
        let mut i: usize = 0;
        while i < n
            invariant
                n == old(self)@.len(),
                n == self@.len(),
                i <= n,
                forall|k: int| 0 <= k < i ==> #[trigger] self@[k] == old(self)@[k].product(factor),
                forall|k: int| i <= k < n ==> #[trigger] self@[k] == old(self)@[k],
            decreases n - i,
        {
            let updated = self.data[i].times(factor);
            self.data[i] = updated;
            i += 1;
        }
    }

    /// The elementwise sum, as a new vector.
    pub fn add(&self, other: &Vector) -> (r: Result<Vector, MathError>)
        ensures
            self@.len() == other@.len() ==> r.is_ok() && r.unwrap()@ == added(self@, other@),
            self@.len() != other@.len() ==> r.is_err() && r.unwrap_err()
                == MathError::DimensionMismatch,
    {
        let n: usize = self.data.len();
        if other.data.len() != n {
            return Err(MathError::DimensionMismatch);
        }
        let mut data: Vec<Double> = Vec::new();
        let mut i: usize = 0;
        while i < n
            invariant
                n == self@.len(),
                n == other@.len(),
                i <= n,
                data@.len() == i,
                forall|k: int| 0 <= k < i ==> #[trigger] data@[k] == self@[k].sum(other@[k]),
            decreases n - i,
        {
            data.push(self.data[i].plus(other.data[i]));
            i += 1;
        }
        Ok(Vector { data })
    }

    /// Exchanges the elements at `i` and `j`.
    pub fn swap(&mut self, i: usize, j: usize) -> (r: Result<(), MathError>)
        ensures
            i < old(self)@.len() && j < old(self)@.len() ==> r.is_ok() && final(self)@ == swapped(
                old(self)@,
                i as int,
                j as int,
            ),
            i >= old(self)@.len() || j >= old(self)@.len() ==> r == Err::<(), MathError>(
                MathError::IndexOutOfRange,
            ) && final(self)@ == old(self)@,
    {
        let n: usize = self.data.len();
        if i >= n || j >= n {
            return Err(MathError::IndexOutOfRange);
        }
        let a = self.data[i];
        let b = self.data[j];
        self.data[i] = b;
        self.data[j] = a;
        Ok(())
    }

    /// Whether the two vectors have one length and entries that all count
    /// as equal.
    pub fn approx_eq(&self, other: &Vector) -> (r: bool)
        ensures
            r == close_seqs(self@, other@),
    {
        let n: usize = self.data.len();
        if other.data.len() != n {
            return false;
        }
        let mut i: usize = 0;
        while i < n
            invariant
                n == self@.len(),
                n == other@.len(),
                i <= n,
                forall|k: int| 0 <= k < i ==> (#[trigger] self@[k]).close(other@[k]),
            decreases n - i,
        {
            if !self.data[i].close(other.data[i]) {
                return false;
            }
            i += 1;
        }
        true
    }
}

} // verus!
