//! Elementwise maps, zips and the full reduction.  Every operation is
//! specified pointwise over the flat buffers; the broadcasting wrappers in
//! `broadcast` build on these.

use vstd::prelude::*;

use crate::scalar::{tdiv, wadd, wmul, wneg, wpow, wsub};
use crate::tensor::{Tensor, TensorModel};
use crate::Error;

verus! {

/// An elementwise unary operation.
#[derive(Clone, Copy, Debug, PartialEq, Eq, Structural)]
pub enum UnOp {
    /// Wrapping negation.
    Neg,
    /// Wrapping power with a non-negative exponent.
    Powi(u32),
    /// Maximum with a constant threshold (`MaxWith(0)` is ReLU).
    MaxWith(i64),
    /// Clamp into `[lo, hi]`, the upper bound applied first.
    Clip(i64, i64),
    /// Wrapping multiplication by a constant factor.
    Scale(i64),
    /// Truncating division by a constant; 0 where the division would trap.
    DivBy(i64),
}

/// An elementwise binary operation on two buffers of equal length.
#[derive(Clone, Copy, Debug, PartialEq, Eq, Structural)]
pub enum BinOp {
    /// Wrapping addition.
    Add,
    /// Wrapping subtraction.
    Sub,
    /// Wrapping multiplication.
    Mul,
    /// Truncating division; a pair on which machine division would trap
    /// (zero divisor, or `i64::MIN` by `-1`) yields 0.
    Div,
    /// Pass the right element through where the left exceeds the threshold,
    /// and 0 elsewhere (the gradient mask of ReLU).
    Mask(i64),
}

pub open spec fn un_val(op: UnOp, a: i64) -> i64 {
    match op {
        UnOp::Neg => wneg(a),
        UnOp::Powi(n) => wpow(a, n as nat),
        UnOp::MaxWith(t) => if a >= t {
            a
        } else {
            t
        },
        UnOp::Clip(lo, hi) => {
            let capped = if a >= hi {
                hi
            } else {
                a
            };
            if capped <= lo {
                lo
            } else {
                capped
            }
        },
        UnOp::Scale(k) => wmul(k, a),
        UnOp::DivBy(k) => if div_ok(a, k) {
            tdiv(a, k)
        } else {
            0
        },
    }
}

/// Whether dividing `a` by `b` traps on the machine.
pub open spec fn div_ok(a: i64, b: i64) -> bool {
    b != 0 && !(a == i64::MIN && b == -1)
}

pub open spec fn bin_val(op: BinOp, a: i64, b: i64) -> i64 {
    match op {
        BinOp::Add => wadd(a, b),
        BinOp::Sub => wsub(a, b),
        BinOp::Mul => wmul(a, b),
        BinOp::Div => if div_ok(a, b) {
            tdiv(a, b)
        } else {
            0
        },
        BinOp::Mask(t) => if a > t {
            b
        } else {
            0
        },
    }
}

/// `op` applied to every element.
pub open spec fn ew_un(op: UnOp, d: Seq<i64>) -> Seq<i64> {
    Seq::new(d.len(), |i: int| un_val(op, d[i]))
}

/// `op` applied to aligned element pairs.
pub open spec fn ew_bin(op: BinOp, da: Seq<i64>, db: Seq<i64>) -> Seq<i64> {
    Seq::new(da.len(), |i: int| bin_val(op, da[i], db[i]))
}

/// Wrapping sum of the first `k` elements, folded from the left.
pub open spec fn fold_wadd(d: Seq<i64>, k: int) -> i64
    decreases k,
{
    if k <= 0 {
        0
    } else {
        wadd(fold_wadd(d, k - 1), d[k - 1])
    }
}

/// Exec mirror of a single `un_val`.
fn exec_un_val(op: UnOp, a: i64) -> (r: i64)
    ensures
        r == un_val(op, a),
{
    match op {
        UnOp::Neg => crate::scalar::exec_wneg(a),
        UnOp::Powi(n) => crate::scalar::exec_wpow(a, n),
        UnOp::MaxWith(t) => if a >= t {
            a
        } else {
            t
        },
        UnOp::Clip(lo, hi) => {
            let capped = if a >= hi {
                hi
            } else {
                a
            };
            if capped <= lo {
                lo
            } else {
                capped
            }
        },
        UnOp::Scale(k) => k.wrapping_mul(a),
        UnOp::DivBy(k) => if k != 0 && !(a == i64::MIN && k == -1) {
            a / k
        } else {
            0
        },
    }
}

/// Exec mirror of a single `bin_val`.
fn exec_bin_val(op: BinOp, a: i64, b: i64) -> (r: i64)
    ensures
        r == bin_val(op, a, b),
{
    match op {
        BinOp::Add => a.wrapping_add(b),
        BinOp::Sub => a.wrapping_sub(b),
        BinOp::Mul => a.wrapping_mul(b),
        BinOp::Div => if b != 0 && !(a == i64::MIN && b == -1) {
            a / b
        } else {
            0
        },
        BinOp::Mask(t) => if a > t {
            b
        } else {
            0
        },
    }
}

/// `op` over a whole buffer.
pub(crate) fn map_op(op: UnOp, d: &Vec<i64>) -> (r: Vec<i64>)
    ensures
        r@ == ew_un(op, d@),
{
    let mut r: Vec<i64> = Vec::new();
    let mut i: usize = 0;
    while i < d.len()
        invariant
            i <= d@.len(),
            r@.len() == i,
            forall|j: int| 0 <= j < i ==> r@[j] == un_val(op, d@[j]),
        decreases d@.len() - i,
    {
        r.push(exec_un_val(op, d[i]));
        i = i + 1;
    }
    assert(r@ =~= ew_un(op, d@));
    r
}

/// `op` over aligned pairs of two equally long buffers.
pub(crate) fn zip_op(op: BinOp, da: &Vec<i64>, db: &Vec<i64>) -> (r: Vec<i64>)
    requires
        da@.len() == db@.len(),
    ensures
        r@ == ew_bin(op, da@, db@),
{
    let mut r: Vec<i64> = Vec::new();
    let mut i: usize = 0;
    while i < da.len()
        invariant
            i <= da@.len(),
            da@.len() == db@.len(),
            r@.len() == i,
            forall|j: int| 0 <= j < i ==> r@[j] == bin_val(op, da@[j], db@[j]),
        decreases da@.len() - i,
    {
        r.push(exec_bin_val(op, da[i], db[i]));
        i = i + 1;
    }
    assert(r@ =~= ew_bin(op, da@, db@));
    r
}

impl Tensor {
    /// Elementwise wrapping negation.
    pub fn neg(&self) -> (r: Tensor)
        requires
            self.wf(),
        ensures
            r.wf(),
            r@ == (TensorModel { data: ew_un(UnOp::Neg, self@.data), shape: self@.shape }),
    {
        self.map_un(UnOp::Neg)
    }

    /// Elementwise wrapping power with a non-negative exponent.
    pub fn powi(&self, n: u32) -> (r: Tensor)
        requires
            self.wf(),
        ensures
            r.wf(),
            r@ == (TensorModel { data: ew_un(UnOp::Powi(n), self@.data), shape: self@.shape }),
    {
        self.map_un(UnOp::Powi(n))
    }

    /// Elementwise maximum with a threshold; `relu_max(0)` is ReLU.
    pub fn relu_max(&self, rhs: i64) -> (r: Tensor)
        requires
            self.wf(),
        ensures
            r.wf(),
            r@ == (TensorModel { data: ew_un(UnOp::MaxWith(rhs), self@.data), shape: self@.shape }),
    {
        self.map_un(UnOp::MaxWith(rhs))
    }

    /// Elementwise clamp into `[lowerbound, upperbound]`, the upper bound
    /// applied first.
    pub fn clip(&self, lowerbound: i64, upperbound: i64) -> (r: Tensor)
        requires
            self.wf(),
        ensures
            r.wf(),
            r@ == (TensorModel {
                data: ew_un(UnOp::Clip(lowerbound, upperbound), self@.data),
                shape: self@.shape,
            }),
    {
        self.map_un(UnOp::Clip(lowerbound, upperbound))
    }

    pub(crate) fn map_un(&self, op: UnOp) -> (r: Tensor)
        requires
            self.wf(),
        ensures
            r.wf(),
            r@ == (TensorModel { data: ew_un(op, self@.data), shape: self@.shape }),
    {
        let data = map_op(op, self.get_data());
        let shape = self.get_shape().clone();
        let r = match Tensor::new(data, shape) {
            Ok(t) => t,
            Err(_) => {
                proof {
                    assert(false);
                }
                unreached()
            },
        };
        r
    }

    /// Where `self` exceeds `threshold` take the element of `rhs`, else 0:
    /// the masked-gradient companion of `relu_max`.
    pub fn relu_mask(&self, rhs: &Tensor, threshold: i64) -> (r: Result<Tensor, Error>)
        requires
            self.wf(),
            rhs.wf(),
        ensures
            r is Ok <==> self@.shape == rhs@.shape,
            r matches Ok(t) ==> t.wf() && t@ == (TensorModel {
                data: ew_bin(BinOp::Mask(threshold), self@.data, rhs@.data),
                shape: self@.shape,
            }),
            r is Err ==> r == Result::<Tensor, Error>::Err(Error::ShapeError),
    {
        if !vecs_equal(self.get_shape(), rhs.get_shape()) {
            return Err(Error::ShapeError);
        }
        let data = zip_op(BinOp::Mask(threshold), self.get_data(), rhs.get_data());
        let shape = self.get_shape().clone();
        match Tensor::new(data, shape) {
            Ok(t) => Ok(t),
            Err(_) => {
                proof {
                    assert(false);
                }
                unreached()
            },
        }
    }

    /// The wrapping sum of every element, as a scalar tensor.
    pub fn sum(&self) -> (r: Tensor)
        requires
            self.wf(),
        ensures
            r.wf(),
            r@ == (TensorModel {
                data: seq![fold_wadd(self@.data, self@.data.len() as int)],
                shape: Seq::<usize>::empty(),
            }),
    {
        let d = self.get_data();
        let mut acc: i64 = 0;
        let mut i: usize = 0;
        while i < d.len()
            invariant
                i <= d@.len(),
                d@ == self@.data,
                acc == fold_wadd(d@, i as int),
            decreases d@.len() - i,
        {
            acc = acc.wrapping_add(d[i]);
            i = i + 1;
        }
        Tensor::scalar(acc)
    }

    /// A caller-supplied elementwise map, shape kept: element `i` of the
    /// result is an output the function admits for element `i` of the input.
    pub fn map<F: Fn(i64) -> i64>(&self, f: &F) -> (r: Tensor)
        requires
            self.wf(),
            forall|x: i64| #[trigger] call_requires(*f, (x,)),
        ensures
            r.wf(),
            r@.shape == self@.shape,
            r@.data.len() == self@.data.len(),
            forall|i: int|
                0 <= i < self@.data.len() ==> call_ensures(*f, (self@.data[i],), #[trigger] r@.data[i]),
    {
        let d = self.get_data();
        let mut out: Vec<i64> = Vec::new();
        let mut i: usize = 0;
        while i < d.len()
            invariant
                i <= d@.len(),
                d@ == self@.data,
                forall|x: i64| #[trigger] call_requires(*f, (x,)),
                out@.len() == i,
                forall|j: int|
                    0 <= j < i ==> call_ensures(*f, (d@[j],), #[trigger] out@[j]),
            decreases d@.len() - i,
        {
            out.push(f(d[i]));
            i = i + 1;
        }
        let shape = self.get_shape().clone();
        match Tensor::new(out, shape) {
            Ok(t) => t,
            Err(_) => {
                proof {
                    assert(false);
                }
                unreached()
            },
        }
    }

    /// True when every element's wrapping difference from the scalar `rhs`
    /// lies below `tol`; the shape plays no part.
    pub fn all_close_f(&self, rhs: i64, tol: i64) -> (r: bool)
        requires
            self.wf(),
        ensures
            r == forall|i: int|
                0 <= i < self@.data.len() ==> wsub(#[trigger] self@.data[i], rhs) < tol,
    {
        let d = self.get_data();
        let mut i: usize = 0;
        while i < d.len()
            invariant
                i <= d@.len(),
                d@ == self@.data,
                forall|j: int| 0 <= j < i ==> wsub(#[trigger] d@[j], rhs) < tol,
            decreases d@.len() - i,
        {
            if !(d[i].wrapping_sub(rhs) < tol) {
                return false;
            }
            i = i + 1;
        }
        true
    }

    /// True when the shapes match and every elementwise difference lies
    /// below `tol`.
    pub fn all_close(&self, rhs: &Tensor, tol: i64) -> (r: bool)
        requires
            self.wf(),
            rhs.wf(),
        ensures
            r == (self@.shape == rhs@.shape && forall|i: int|
                0 <= i < self@.data.len() ==> wsub(self@.data[i], rhs@.data[i]) < tol),
    {
        if !vecs_equal(self.get_shape(), rhs.get_shape()) {
            return false;
        }
        let da = self.get_data();
        let db = rhs.get_data();
        let mut i: usize = 0;
        while i < da.len()
            invariant
                i <= da@.len(),
                da@ == self@.data,
                db@ == rhs@.data,
                da@.len() == db@.len(),
                forall|j: int| 0 <= j < i ==> wsub(da@[j], db@[j]) < tol,
            decreases da@.len() - i,
        {
            if !(da[i].wrapping_sub(db[i]) < tol) {
                return false;
            }
            i = i + 1;
        }
        true
    }
}

/// Whether two shape vectors hold the same dimensions.
pub(crate) fn vecs_equal(a: &Vec<usize>, b: &Vec<usize>) -> (r: bool)
    ensures
        r <==> a@ == b@,
{
    if a.len() != b.len() {
        proof {
            assert(a@ !~= b@);
        }
        return false;
    }
    let mut i: usize = 0;
    while i < a.len()
        invariant
            i <= a@.len(),
            a@.len() == b@.len(),
            forall|j: int| 0 <= j < i ==> a@[j] == b@[j],
        decreases a@.len() - i,
    {
        if a[i] != b[i] {
            proof {
                assert(a@ !~= b@);
            }
            return false;
        }
        i = i + 1;
    }
    proof {
        assert(a@ =~= b@);
    }
    true
}

} // verus!
