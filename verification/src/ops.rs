//! The differentiable operation functions.  Each one reads its operand
//! nodes, computes the forward tensor, and hands the result to the graph,
//! which wraps it in a new node and, while recording, retains the operation
//! as that node's creator.

use vstd::prelude::*;

use crate::arith::ew_bcast;
use crate::broadcast::{bcast_data, sum_to_data};
use crate::graph::{input_values, spec_record, Graph, OpKind};
use crate::linalg::{mm2d, transpose2_data};
use crate::shape::{bcast_ok, bcast_shape, expandable, product};
use crate::tensor::{Tensor, TensorModel};
use crate::tensor_ops::{bin_val, ew_bin, ew_un, fold_wadd, BinOp, UnOp};
use crate::Error;

verus! {

/// An elementwise map, shape kept.
pub open spec fn un_t(op: UnOp, t: TensorModel) -> TensorModel {
    TensorModel { data: ew_un(op, t.data), shape: t.shape }
}

/// Reduction to a right-aligned smaller shape.
pub open spec fn sum_to_t(t: TensorModel, s: Seq<usize>) -> TensorModel {
    TensorModel { data: sum_to_data(t.data, t.shape, s), shape: s }
}

/// Expansion to a right-aligned larger shape.
pub open spec fn bcast_t(t: TensorModel, s: Seq<usize>) -> TensorModel {
    TensorModel { data: bcast_data(t.data, t.shape, s), shape: s }
}

/// Matrix transpose of a tensor of rank at most 2.
pub open spec fn transpose_t(t: TensorModel) -> TensorModel {
    if t.shape.len() <= 1 {
        t
    } else {
        TensorModel {
            data: transpose2_data(t.data, t.shape[0] as int, t.shape[1] as int),
            shape: seq![t.shape[1], t.shape[0]],
        }
    }
}

/// The wrapping sum of all elements, as a scalar.
pub open spec fn sum_t(t: TensorModel) -> TensorModel {
    TensorModel {
        data: seq![fold_wadd(t.data, t.data.len() as int)],
        shape: Seq::<usize>::empty(),
    }
}

/// The 2-D matrix product.
pub open spec fn mm2d_t(a: TensorModel, b: TensorModel) -> TensorModel {
    TensorModel {
        data: mm2d(a.data, b.data, a.shape[0] as int, a.shape[1] as int, b.shape[1] as int),
        shape: seq![a.shape[0], b.shape[1]],
    }
}

/// The mean of the squared elementwise differences, as a scalar; division
/// truncates.
pub open spec fn mse_t(a: TensorModel, b: TensorModel) -> TensorModel {
    let diff = ew_bin(BinOp::Sub, a.data, b.data);
    let sq = ew_bin(BinOp::Mul, diff, diff);
    TensorModel {
        data: seq![
            bin_val(BinOp::Div, fold_wadd(sq, sq.len() as int), product(a.shape) as i64),
        ],
        shape: Seq::<usize>::empty(),
    }
}

/// The 2-D product of two rank-2 tensors, as an exec helper shared by the
/// forward and backward passes.
pub(crate) fn mm2d_tensor(a: &Tensor, b: &Tensor) -> (r: Tensor)
    requires
        a.wf(),
        b.wf(),
        a@.shape.len() == 2,
        b@.shape.len() == 2,
        a@.shape[1] == b@.shape[0],
        a@.shape[0] * b@.shape[1] <= usize::MAX,
    ensures
        r.wf(),
        r@ == mm2d_t(a@, b@),
{
    let l = a.get_shape()[0];
    let m = a.get_shape()[1];
    let n = b.get_shape()[1];
    proof {
        crate::shape::lemma_product_pair(l, m);
        crate::shape::lemma_product_pair(m, n);
        crate::shape::lemma_product_pair(l, n);
        assert(a@.shape =~= seq![l, m]);
        assert(b@.shape =~= seq![m, n]);
        assert(a@.data.len() == l * m);
        assert(b@.data.len() == m * n);
    }
    let mut out: Vec<i64> = Vec::new();
    crate::linalg::mm2d_block(a.get_data(), 0, b.get_data(), 0, l, m, n, &mut out);
    proof {
        assert(a@.data.subrange(0, (l * m) as int) =~= a@.data);
        assert(b@.data.subrange(0, (m * n) as int) =~= b@.data);
        assert(out@ =~= mm2d(a@.data, b@.data, l as int, m as int, n as int));
    }
    let shape = vec![l, n];
    proof {
        assert(shape@ =~= seq![l, n]);
        assert(mm2d(a@.data, b@.data, l as int, m as int, n as int).len() == l * n);
    }
    match Tensor::new(out, shape) {
        Ok(t) => t,
        Err(_) => {
            proof {
                assert(false);
            }
            unreached()
        },
    }
}

impl Graph {
    /// Tracked elementwise wrapping addition under broadcasting.
    pub fn add(&mut self, x: usize, y: usize) -> (r: Result<usize, Error>)
        requires
            old(self).wf(),
            x < old(self)@.nodes.len(),
            y < old(self)@.nodes.len(),
        ensures
            final(self).wf(),
            r is Ok <==> bcast_ok(
                old(self)@.nodes[x as int].value.shape,
                old(self)@.nodes[y as int].value.shape,
            ) && product(
                bcast_shape(
                    old(self)@.nodes[x as int].value.shape,
                    old(self)@.nodes[y as int].value.shape,
                ),
            ) <= usize::MAX,
            r matches Ok(id) ==> id == old(self)@.nodes.len() && final(self)@ == spec_record(
                old(self)@,
                OpKind::Add,
                seq![x, y],
                ew_bcast(
                    BinOp::Add,
                    old(self)@.nodes[x as int].value,
                    old(self)@.nodes[y as int].value,
                ),
            ),
            r is Err ==> final(self)@ == old(self)@,
            r matches Err(e) ==> (e == Error::ShapeError <==> !bcast_ok(
                old(self)@.nodes[x as int].value.shape,
                old(self)@.nodes[y as int].value.shape,
            )),
            r matches Err(e) ==> (e == Error::SizeOverflow <==> bcast_ok(
                old(self)@.nodes[x as int].value.shape,
                old(self)@.nodes[y as int].value.shape,
            ) && product(
                bcast_shape(
                    old(self)@.nodes[x as int].value.shape,
                    old(self)@.nodes[y as int].value.shape,
                ),
            ) > usize::MAX),
    {
        self.bin_op(x, y, OpKind::Add)
    }

    /// Tracked elementwise wrapping subtraction under broadcasting.
    pub fn sub(&mut self, x: usize, y: usize) -> (r: Result<usize, Error>)
        requires
            old(self).wf(),
            x < old(self)@.nodes.len(),
            y < old(self)@.nodes.len(),
        ensures
            final(self).wf(),
            r is Ok <==> bcast_ok(
                old(self)@.nodes[x as int].value.shape,
                old(self)@.nodes[y as int].value.shape,
            ) && product(
                bcast_shape(
                    old(self)@.nodes[x as int].value.shape,
                    old(self)@.nodes[y as int].value.shape,
                ),
            ) <= usize::MAX,
            r matches Ok(id) ==> id == old(self)@.nodes.len() && final(self)@ == spec_record(
                old(self)@,
                OpKind::Sub,
                seq![x, y],
                ew_bcast(
                    BinOp::Sub,
                    old(self)@.nodes[x as int].value,
                    old(self)@.nodes[y as int].value,
                ),
            ),
            r is Err ==> final(self)@ == old(self)@,
            r matches Err(e) ==> (e == Error::ShapeError <==> !bcast_ok(
                old(self)@.nodes[x as int].value.shape,
                old(self)@.nodes[y as int].value.shape,
            )),
            r matches Err(e) ==> (e == Error::SizeOverflow <==> bcast_ok(
                old(self)@.nodes[x as int].value.shape,
                old(self)@.nodes[y as int].value.shape,
            ) && product(
                bcast_shape(
                    old(self)@.nodes[x as int].value.shape,
                    old(self)@.nodes[y as int].value.shape,
                ),
            ) > usize::MAX),
    {
        self.bin_op(x, y, OpKind::Sub)
    }

    /// Tracked elementwise wrapping multiplication under broadcasting.
    pub fn mul(&mut self, x: usize, y: usize) -> (r: Result<usize, Error>)
        requires
            old(self).wf(),
            x < old(self)@.nodes.len(),
            y < old(self)@.nodes.len(),
        ensures
            final(self).wf(),
            r is Ok <==> bcast_ok(
                old(self)@.nodes[x as int].value.shape,
                old(self)@.nodes[y as int].value.shape,
            ) && product(
                bcast_shape(
                    old(self)@.nodes[x as int].value.shape,
                    old(self)@.nodes[y as int].value.shape,
                ),
            ) <= usize::MAX,
            r matches Ok(id) ==> id == old(self)@.nodes.len() && final(self)@ == spec_record(
                old(self)@,
                OpKind::Mul,
                seq![x, y],
                ew_bcast(
                    BinOp::Mul,
                    old(self)@.nodes[x as int].value,
                    old(self)@.nodes[y as int].value,
                ),
            ),
            r is Err ==> final(self)@ == old(self)@,
            r matches Err(e) ==> (e == Error::ShapeError <==> !bcast_ok(
                old(self)@.nodes[x as int].value.shape,
                old(self)@.nodes[y as int].value.shape,
            )),
            r matches Err(e) ==> (e == Error::SizeOverflow <==> bcast_ok(
                old(self)@.nodes[x as int].value.shape,
                old(self)@.nodes[y as int].value.shape,
            ) && product(
                bcast_shape(
                    old(self)@.nodes[x as int].value.shape,
                    old(self)@.nodes[y as int].value.shape,
                ),
            ) > usize::MAX),
    {
        self.bin_op(x, y, OpKind::Mul)
    }

    /// Tracked elementwise truncating division under broadcasting; a pair on
    /// which machine division would trap (a zero divisor, or `i64::MIN` by
    /// `-1`) yields 0.  The backward pass applies the quotient rule with the
    /// same exact conventions.
    pub fn div(&mut self, x: usize, y: usize) -> (r: Result<usize, Error>)
        requires
            old(self).wf(),
            x < old(self)@.nodes.len(),
            y < old(self)@.nodes.len(),
        ensures
            final(self).wf(),
            r is Ok <==> bcast_ok(
                old(self)@.nodes[x as int].value.shape,
                old(self)@.nodes[y as int].value.shape,
            ) && product(
                bcast_shape(
                    old(self)@.nodes[x as int].value.shape,
                    old(self)@.nodes[y as int].value.shape,
                ),
            ) <= usize::MAX,
            r matches Ok(id) ==> id == old(self)@.nodes.len() && final(self)@ == spec_record(
                old(self)@,
                OpKind::Div,
                seq![x, y],
                ew_bcast(
                    BinOp::Div,
                    old(self)@.nodes[x as int].value,
                    old(self)@.nodes[y as int].value,
                ),
            ),
            r is Err ==> final(self)@ == old(self)@,
            r matches Err(e) ==> (e == Error::ShapeError <==> !bcast_ok(
                old(self)@.nodes[x as int].value.shape,
                old(self)@.nodes[y as int].value.shape,
            )),
            r matches Err(e) ==> (e == Error::SizeOverflow <==> bcast_ok(
                old(self)@.nodes[x as int].value.shape,
                old(self)@.nodes[y as int].value.shape,
            ) && product(
                bcast_shape(
                    old(self)@.nodes[x as int].value.shape,
                    old(self)@.nodes[y as int].value.shape,
                ),
            ) > usize::MAX),
    {
        self.bin_op(x, y, OpKind::Div)
    }

    fn bin_op(&mut self, x: usize, y: usize, kind: OpKind) -> (r: Result<usize, Error>)
        requires
            old(self).wf(),
            x < old(self)@.nodes.len(),
            y < old(self)@.nodes.len(),
            kind == OpKind::Add || kind == OpKind::Sub || kind == OpKind::Mul || kind
                == OpKind::Div,
        ensures
            final(self).wf(),
            r is Ok <==> bcast_ok(
                old(self)@.nodes[x as int].value.shape,
                old(self)@.nodes[y as int].value.shape,
            ) && product(
                bcast_shape(
                    old(self)@.nodes[x as int].value.shape,
                    old(self)@.nodes[y as int].value.shape,
                ),
            ) <= usize::MAX,
            r matches Ok(id) ==> id == old(self)@.nodes.len() && final(self)@ == spec_record(
                old(self)@,
                kind,
                seq![x, y],
                ew_bcast(
                    (if kind == OpKind::Add {
                        BinOp::Add
                    } else if kind == OpKind::Sub {
                        BinOp::Sub
                    } else if kind == OpKind::Mul {
                        BinOp::Mul
                    } else {
                        BinOp::Div
                    }),
                    old(self)@.nodes[x as int].value,
                    old(self)@.nodes[y as int].value,
                ),
            ),
            r is Err ==> final(self)@ == old(self)@,
            r matches Err(e) ==> (e == Error::ShapeError <==> !bcast_ok(
                old(self)@.nodes[x as int].value.shape,
                old(self)@.nodes[y as int].value.shape,
            )),
            r matches Err(e) ==> (e == Error::SizeOverflow <==> bcast_ok(
                old(self)@.nodes[x as int].value.shape,
                old(self)@.nodes[y as int].value.shape,
            ) && product(
                bcast_shape(
                    old(self)@.nodes[x as int].value.shape,
                    old(self)@.nodes[y as int].value.shape,
                ),
            ) > usize::MAX),
    {
        let tx = self.get_array(x);
        let ty = self.get_array(y);
        let v = match (if matches!(kind, OpKind::Add) {
            tx.add(&ty)
        } else if matches!(kind, OpKind::Sub) {
            tx.sub(&ty)
        } else if matches!(kind, OpKind::Mul) {
            tx.mul(&ty)
        } else {
            tx.div(&ty)
        }) {
            Ok(v) => v,
            Err(e) => {
                return Err(e);
            },
        };
        let inputs = vec![x, y];
        proof {
            assert(inputs@ =~= seq![x, y]);
            assert(input_values(old(self)@, seq![x, y]) =~= seq![
                old(self)@.nodes[x as int].value,
                old(self)@.nodes[y as int].value,
            ]);
        }
        Ok(self.record(kind, inputs, v))
    }

    /// Tracked elementwise wrapping negation.
    pub fn neg(&mut self, x: usize) -> (r: usize)
        requires
            old(self).wf(),
            x < old(self)@.nodes.len(),
        ensures
            final(self).wf(),
            r == old(self)@.nodes.len(),
            final(self)@ == spec_record(
                old(self)@,
                OpKind::Neg,
                seq![x],
                un_t(UnOp::Neg, old(self)@.nodes[x as int].value),
            ),
    {
        let tx = self.get_array(x);
        let v = tx.neg();
        let inputs = vec![x];
        proof {
            assert(inputs@ =~= seq![x]);
            assert(input_values(old(self)@, seq![x]) =~= seq![old(self)@.nodes[x as int].value]);
        }
        self.record(OpKind::Neg, inputs, v)
    }

    /// Tracked elementwise wrapping power with a non-negative exponent.
    pub fn powi(&mut self, x: usize, n: u32) -> (r: usize)
        requires
            old(self).wf(),
            x < old(self)@.nodes.len(),
        ensures
            final(self).wf(),
            r == old(self)@.nodes.len(),
            final(self)@ == spec_record(
                old(self)@,
                OpKind::Powi(n),
                seq![x],
                un_t(UnOp::Powi(n), old(self)@.nodes[x as int].value),
            ),
    {
        let tx = self.get_array(x);
        let v = tx.powi(n);
        let inputs = vec![x];
        proof {
            assert(inputs@ =~= seq![x]);
            assert(input_values(old(self)@, seq![x]) =~= seq![old(self)@.nodes[x as int].value]);
        }
        self.record(OpKind::Powi(n), inputs, v)
    }

    /// Tracked elementwise maximum with zero.
    pub fn relu(&mut self, x: usize) -> (r: usize)
        requires
            old(self).wf(),
            x < old(self)@.nodes.len(),
        ensures
            final(self).wf(),
            r == old(self)@.nodes.len(),
            final(self)@ == spec_record(
                old(self)@,
                OpKind::Relu,
                seq![x],
                un_t(UnOp::MaxWith(0), old(self)@.nodes[x as int].value),
            ),
    {
        let tx = self.get_array(x);
        let v = tx.relu_max(0);
        let inputs = vec![x];
        proof {
            assert(inputs@ =~= seq![x]);
            assert(input_values(old(self)@, seq![x]) =~= seq![old(self)@.nodes[x as int].value]);
        }
        self.record(OpKind::Relu, inputs, v)
    }

    /// Tracked reshape: same buffer, new shape with the same element count.
    pub fn reshape(&mut self, x: usize, shape: Vec<usize>) -> (r: Result<usize, Error>)
        requires
            old(self).wf(),
            x < old(self)@.nodes.len(),
        ensures
            final(self).wf(),
            r is Ok <==> product(shape@) == old(self)@.nodes[x as int].value.data.len(),
            r matches Ok(id) ==> id == old(self)@.nodes.len() && final(self)@ == spec_record(
                old(self)@,
                OpKind::Reshape,
                seq![x],
                (TensorModel { data: old(self)@.nodes[x as int].value.data, shape: shape@ }),
            ),
            r is Err ==> final(self)@ == old(self)@ && r == Result::<usize, Error>::Err(
                Error::ShapeError,
            ),
    {
        let tx = self.get_array(x);
        let v = match tx.reshape(shape) {
            Ok(v) => v,
            Err(e) => {
                return Err(e);
            },
        };
        let inputs = vec![x];
        proof {
            assert(inputs@ =~= seq![x]);
            assert(input_values(old(self)@, seq![x]) =~= seq![old(self)@.nodes[x as int].value]);
        }
        Ok(self.record(OpKind::Reshape, inputs, v))
    }

    /// Tracked matrix transpose (rank at most 2).
    pub fn transpose(&mut self, x: usize) -> (r: Result<usize, Error>)
        requires
            old(self).wf(),
            x < old(self)@.nodes.len(),
        ensures
            final(self).wf(),
            r is Ok <==> old(self)@.nodes[x as int].value.shape.len() <= 2,
            r matches Ok(id) ==> id == old(self)@.nodes.len() && final(self)@ == spec_record(
                old(self)@,
                OpKind::Transpose,
                seq![x],
                transpose_t(old(self)@.nodes[x as int].value),
            ),
            r is Err ==> final(self)@ == old(self)@ && r == Result::<usize, Error>::Err(
                Error::UnsupportedOperation,
            ),
    {
        let tx = self.get_array(x);
        let v = match tx.transpose() {
            Ok(v) => v,
            Err(e) => {
                return Err(e);
            },
        };
        let inputs = vec![x];
        proof {
            assert(inputs@ =~= seq![x]);
            assert(input_values(old(self)@, seq![x]) =~= seq![old(self)@.nodes[x as int].value]);
        }
        Ok(self.record(OpKind::Transpose, inputs, v))
    }

    /// Tracked wrapping sum of all elements, to a scalar.
    pub fn sum(&mut self, x: usize) -> (r: usize)
        requires
            old(self).wf(),
            x < old(self)@.nodes.len(),
        ensures
            final(self).wf(),
            r == old(self)@.nodes.len(),
            final(self)@ == spec_record(
                old(self)@,
                OpKind::Sum,
                seq![x],
                sum_t(old(self)@.nodes[x as int].value),
            ),
    {
        let tx = self.get_array(x);
        let v = tx.sum();
        let inputs = vec![x];
        proof {
            assert(inputs@ =~= seq![x]);
            assert(input_values(old(self)@, seq![x]) =~= seq![old(self)@.nodes[x as int].value]);
        }
        self.record(OpKind::Sum, inputs, v)
    }

    /// Tracked reduction to a right-aligned smaller shape.
    pub fn sum_to(&mut self, x: usize, shape: Vec<usize>) -> (r: Result<usize, Error>)
        requires
            old(self).wf(),
            x < old(self)@.nodes.len(),
        ensures
            final(self).wf(),
            r is Ok <==> expandable(shape@, old(self)@.nodes[x as int].value.shape) && product(
                shape@,
            ) <= usize::MAX,
            r matches Ok(id) ==> id == old(self)@.nodes.len() && final(self)@ == spec_record(
                old(self)@,
                OpKind::SumTo,
                seq![x],
                sum_to_t(old(self)@.nodes[x as int].value, shape@),
            ),
            r is Err ==> final(self)@ == old(self)@,
            r matches Err(e) ==> (e == Error::ShapeError <==> !expandable(
                shape@,
                old(self)@.nodes[x as int].value.shape,
            )),
            r matches Err(e) ==> (e == Error::SizeOverflow <==> expandable(
                shape@,
                old(self)@.nodes[x as int].value.shape,
            ) && product(shape@) > usize::MAX),
    {
        let tx = self.get_array(x);
        let v = match tx.sum_to(&shape) {
            Ok(v) => v,
            Err(e) => {
                return Err(e);
            },
        };
        let inputs = vec![x];
        proof {
            assert(inputs@ =~= seq![x]);
            assert(input_values(old(self)@, seq![x]) =~= seq![old(self)@.nodes[x as int].value]);
        }
        Ok(self.record(OpKind::SumTo, inputs, v))
    }

    /// Tracked expansion to a right-aligned larger shape.
    pub fn broadcast_to(&mut self, x: usize, shape: Vec<usize>) -> (r: Result<usize, Error>)
        requires
            old(self).wf(),
            x < old(self)@.nodes.len(),
        ensures
            final(self).wf(),
            r is Ok <==> expandable(old(self)@.nodes[x as int].value.shape, shape@) && product(
                shape@,
            ) <= usize::MAX,
            r matches Ok(id) ==> id == old(self)@.nodes.len() && final(self)@ == spec_record(
                old(self)@,
                OpKind::BroadcastTo,
                seq![x],
                bcast_t(old(self)@.nodes[x as int].value, shape@),
            ),
            r is Err ==> final(self)@ == old(self)@,
            r matches Err(e) ==> (e == Error::ShapeError <==> !expandable(
                old(self)@.nodes[x as int].value.shape,
                shape@,
            )),
            r matches Err(e) ==> (e == Error::SizeOverflow <==> expandable(
                old(self)@.nodes[x as int].value.shape,
                shape@,
            ) && product(shape@) > usize::MAX),
    {
        let tx = self.get_array(x);
        let v = match tx.broadcast_to(&shape) {
            Ok(v) => v,
            Err(e) => {
                return Err(e);
            },
        };
        let inputs = vec![x];
        proof {
            assert(inputs@ =~= seq![x]);
            assert(input_values(old(self)@, seq![x]) =~= seq![old(self)@.nodes[x as int].value]);
        }
        Ok(self.record(OpKind::BroadcastTo, inputs, v))
    }

    /// Tracked 2-D matrix multiplication.
    pub fn dot(&mut self, x: usize, y: usize) -> (r: Result<usize, Error>)
        requires
            old(self).wf(),
            x < old(self)@.nodes.len(),
            y < old(self)@.nodes.len(),
        ensures
            final(self).wf(),
            r is Ok <==> {
                let sx = old(self)@.nodes[x as int].value.shape;
                let sy = old(self)@.nodes[y as int].value.shape;
                sx.len() == 2 && sy.len() == 2 && sx[1] == sy[0] && sx[0] * sy[1] <= usize::MAX
            },
            r matches Ok(id) ==> id == old(self)@.nodes.len() && final(self)@ == spec_record(
                old(self)@,
                OpKind::Matmul,
                seq![x, y],
                mm2d_t(old(self)@.nodes[x as int].value, old(self)@.nodes[y as int].value),
            ),
            r is Err ==> final(self)@ == old(self)@,
            r matches Err(e) ==> {
                let sx = old(self)@.nodes[x as int].value.shape;
                let sy = old(self)@.nodes[y as int].value.shape;
                &&& (e == Error::UnsupportedOperation <==> !(sx.len() == 2 && sy.len() == 2))
                &&& (e == Error::ShapeError <==> sx.len() == 2 && sy.len() == 2 && sx[1] != sy[0])
                &&& (e == Error::SizeOverflow <==> sx.len() == 2 && sy.len() == 2 && sx[1] == sy[0]
                    && sx[0] * sy[1] > usize::MAX)
            },
    {
        let tx = self.get_array(x);
        let ty = self.get_array(y);
        if tx.get_shape().len() != 2 || ty.get_shape().len() != 2 {
            return Err(Error::UnsupportedOperation);
        }
        if tx.get_shape()[1] != ty.get_shape()[0] {
            return Err(Error::ShapeError);
        }
        let l = tx.get_shape()[0];
        let n = ty.get_shape()[1];
        if l.checked_mul(n).is_none() {
            return Err(Error::SizeOverflow);
        }
        let v = mm2d_tensor(&tx, &ty);
        let inputs = vec![x, y];
        proof {
            assert(inputs@ =~= seq![x, y]);
            assert(input_values(old(self)@, seq![x, y]) =~= seq![
                old(self)@.nodes[x as int].value,
                old(self)@.nodes[y as int].value,
            ]);
            assert(v@.shape =~= seq![
                old(self)@.nodes[x as int].value.shape[0],
                old(self)@.nodes[y as int].value.shape[1],
            ]);
        }
        Ok(self.record(OpKind::Matmul, inputs, v))
    }

    /// Tracked affine map `x . w + b`: a 2-D product with a broadcast bias.
    pub fn linear(&mut self, x: usize, w: usize, b: Option<usize>) -> (r: Result<usize, Error>)
        requires
            old(self).wf(),
            x < old(self)@.nodes.len(),
            w < old(self)@.nodes.len(),
            b matches Some(bi) ==> (bi as int) < old(self)@.nodes.len(),
        ensures
            final(self).wf(),
            r is Ok <==> {
                let sx = old(self)@.nodes[x as int].value.shape;
                let sw = old(self)@.nodes[w as int].value.shape;
                &&& sx.len() == 2
                &&& sw.len() == 2
                &&& sx[1] == sw[0]
                &&& sx[0] * sw[1] <= usize::MAX
                &&& (b matches Some(bi) ==> expandable(
                    old(self)@.nodes[bi as int].value.shape,
                    seq![sx[0], sw[1]],
                ))
            },
            r matches Ok(id) ==> id == old(self)@.nodes.len() && final(self)@ == (match b {
                Some(bi) => spec_record(
                    old(self)@,
                    OpKind::Linear,
                    seq![x, w, bi],
                    ew_bcast(
                        BinOp::Add,
                        mm2d_t(
                            old(self)@.nodes[x as int].value,
                            old(self)@.nodes[w as int].value,
                        ),
                        old(self)@.nodes[bi as int].value,
                    ),
                ),
                None => spec_record(
                    old(self)@,
                    OpKind::Linear,
                    seq![x, w],
                    mm2d_t(old(self)@.nodes[x as int].value, old(self)@.nodes[w as int].value),
                ),
            }),
            r is Err ==> final(self)@ == old(self)@,
            r matches Err(e) ==> {
                let sx = old(self)@.nodes[x as int].value.shape;
                let sw = old(self)@.nodes[w as int].value.shape;
                let ranks_ok = sx.len() == 2 && sw.len() == 2;
                let inner_ok = ranks_ok && sx[1] == sw[0];
                let fits = inner_ok && sx[0] * sw[1] <= usize::MAX;
                &&& (e == Error::UnsupportedOperation <==> !ranks_ok)
                &&& (e == Error::ShapeError <==> (ranks_ok && !inner_ok) || (fits && (b matches Some(bi)
                    && !expandable(
                    old(self)@.nodes[bi as int].value.shape,
                    seq![sx[0], sw[1]],
                ))))
                &&& (e == Error::SizeOverflow <==> inner_ok && !fits)
            },
    {
        let tx = self.get_array(x);
        let tw = self.get_array(w);
        if tx.get_shape().len() != 2 || tw.get_shape().len() != 2 {
            return Err(Error::UnsupportedOperation);
        }
        if tx.get_shape()[1] != tw.get_shape()[0] {
            return Err(Error::ShapeError);
        }
        let l = tx.get_shape()[0];
        let n = tw.get_shape()[1];
        if l.checked_mul(n).is_none() {
            return Err(Error::SizeOverflow);
        }
        let t = mm2d_tensor(&tx, &tw);
        proof {
            assert(t@.shape =~= seq![
                old(self)@.nodes[x as int].value.shape[0],
                old(self)@.nodes[w as int].value.shape[1],
            ]);
        }
        match b {
            None => {
                let inputs = vec![x, w];
                proof {
                    assert(inputs@ =~= seq![x, w]);
                    assert(input_values(old(self)@, seq![x, w]) =~= seq![
                        old(self)@.nodes[x as int].value,
                        old(self)@.nodes[w as int].value,
                    ]);
                }
                Ok(self.record(OpKind::Linear, inputs, t))
            },
            Some(bi) => {
                let tb = self.get_array(bi);
                if !crate::shape::check_expandable(tb.get_shape(), t.get_shape()) {
                    return Err(Error::ShapeError);
                }
                proof {
                    crate::shape::lemma_bcast_absorb(t@.shape, tb@.shape);
                    assert(t@.data.len() == product(t@.shape));
                }
                let v = match t.add(&tb) {
                    Ok(v) => v,
                    Err(_) => {
                        proof {
                            assert(false);
                        }
                        unreached()
                    },
                };
                let inputs = vec![x, w, bi];
                proof {
                    assert(inputs@ =~= seq![x, w, bi]);
                    assert(input_values(old(self)@, seq![x, w, bi]) =~= seq![
                        old(self)@.nodes[x as int].value,
                        old(self)@.nodes[w as int].value,
                        old(self)@.nodes[bi as int].value,
                    ]);
                    assert(v@.shape == t@.shape);
                }
                Ok(self.record(OpKind::Linear, inputs, v))
            },
        }
    }

    /// Tracked mean squared error between two equally shaped tensors, to a
    /// scalar; an empty tensor has no mean, and the element count must fit
    /// the element type for the division.
    pub fn mean_squared_error(&mut self, x: usize, y: usize) -> (r: Result<usize, Error>)
        requires
            old(self).wf(),
            x < old(self)@.nodes.len(),
            y < old(self)@.nodes.len(),
        ensures
            final(self).wf(),
            r is Ok <==> {
                let sx = old(self)@.nodes[x as int].value.shape;
                let sy = old(self)@.nodes[y as int].value.shape;
                sx == sy && 1 <= product(sx) <= i64::MAX
            },
            r matches Ok(id) ==> id == old(self)@.nodes.len() && final(self)@ == spec_record(
                old(self)@,
                OpKind::MeanSquaredError,
                seq![x, y],
                mse_t(old(self)@.nodes[x as int].value, old(self)@.nodes[y as int].value),
            ),
            r is Err ==> final(self)@ == old(self)@,
            r matches Err(e) ==> {
                let sx = old(self)@.nodes[x as int].value.shape;
                let sy = old(self)@.nodes[y as int].value.shape;
                &&& (e == Error::ShapeError <==> sx != sy)
                &&& (e == Error::UnsupportedOperation <==> sx == sy && product(sx) == 0)
                &&& (e == Error::SizeOverflow <==> sx == sy && product(sx) > i64::MAX)
            },
    {
        let tx = self.get_array(x);
        let ty = self.get_array(y);
        if !crate::tensor_ops::vecs_equal(tx.get_shape(), ty.get_shape()) {
            return Err(Error::ShapeError);
        }
        let count = tx.size();
        if count == 0 {
            return Err(Error::UnsupportedOperation);
        }
        if count as u64 > i64::MAX as u64 {
            return Err(Error::SizeOverflow);
        }
        let diff = crate::tensor_ops::zip_op(BinOp::Sub, tx.get_data(), ty.get_data());
        let sq = crate::tensor_ops::zip_op(BinOp::Mul, &diff, &diff);
        let mut acc: i64 = 0;
        let mut i: usize = 0;
        while i < sq.len()
            invariant
                i <= sq@.len(),
                acc == fold_wadd(sq@, i as int),
            decreases sq@.len() - i,
        {
            acc = acc.wrapping_add(sq[i]);
            i = i + 1;
        }
        let nval: i64 = count as i64;
        let v = Tensor::scalar(acc / nval);
        proof {
            assert(crate::tensor_ops::div_ok(acc, nval));
            assert(v@ =~~= mse_t(old(self)@.nodes[x as int].value, old(self)@.nodes[y as int].value));
        }
        let inputs = vec![x, y];
        proof {
            assert(inputs@ =~= seq![x, y]);
            assert(input_values(old(self)@, seq![x, y]) =~= seq![
                old(self)@.nodes[x as int].value,
                old(self)@.nodes[y as int].value,
            ]);
        }
        Ok(self.record(OpKind::MeanSquaredError, inputs, v))
    }
}

} // verus!
