//! Elementwise binary arithmetic between two tensors: equal shapes operate
//! pointwise, different shapes are first carried to their common broadcast
//! shape.

use vstd::prelude::*;

use crate::broadcast::bcast_data;
use crate::shape::{bcast_ok, bcast_shape, lemma_bcast_expandable, product, shape_after_broadcast};
use crate::tensor::{Tensor, TensorModel};
use crate::tensor_ops::{ew_bin, BinOp};
use crate::Error;

verus! {

/// The result of an elementwise binary operation after broadcasting,
/// meaningful when `bcast_ok(a.shape, b.shape)` holds.
pub open spec fn ew_bcast(op: BinOp, a: TensorModel, b: TensorModel) -> TensorModel {
    let shape = bcast_shape(a.shape, b.shape);
    TensorModel {
        data: ew_bin(
            op,
            bcast_data(a.data, a.shape, shape),
            bcast_data(b.data, b.shape, shape),
        ),
        shape,
    }
}

impl Tensor {
    fn bin_bcast(&self, rhs: &Tensor, op: BinOp) -> (r: Result<Tensor, Error>)
        requires
            self.wf(),
            rhs.wf(),
        ensures
            r is Ok <==> bcast_ok(self@.shape, rhs@.shape) && product(
                bcast_shape(self@.shape, rhs@.shape),
            ) <= usize::MAX,
            r matches Ok(t) ==> t.wf() && t@ == ew_bcast(op, self@, rhs@),
            r matches Err(e) ==> (e == Error::ShapeError <==> !bcast_ok(self@.shape, rhs@.shape)),
            r matches Err(e) ==> (e == Error::SizeOverflow <==> bcast_ok(self@.shape, rhs@.shape)
                && product(bcast_shape(self@.shape, rhs@.shape)) > usize::MAX),
    {
        let shape = match shape_after_broadcast(self.get_shape(), rhs.get_shape()) {
            Some(v) => v,
            None => {
                return Err(Error::ShapeError);
            },
        };
        proof {
            lemma_bcast_expandable(self@.shape, rhs@.shape);
        }
        let ba = match self.broadcast_to(&shape) {
            Ok(t) => t,
            Err(e) => {
                assert(e == Error::SizeOverflow);
                return Err(Error::SizeOverflow);
            },
        };
        let bb = match rhs.broadcast_to(&shape) {
            Ok(t) => t,
            Err(_) => {
                proof {
                    assert(false);
                }
                unreached()
            },
        };
        let data = crate::tensor_ops::zip_op(op, ba.get_data(), bb.get_data());
        match Tensor::new(data, shape) {
            Ok(t) => Ok(t),
            Err(_) => {
                proof {
                    assert(false);
                }
                unreached()
            },
        }
    }

    /// Elementwise wrapping addition under broadcasting.
    pub fn add(&self, rhs: &Tensor) -> (r: Result<Tensor, Error>)
        requires
            self.wf(),
            rhs.wf(),
        ensures
            r is Ok <==> bcast_ok(self@.shape, rhs@.shape) && product(
                bcast_shape(self@.shape, rhs@.shape),
            ) <= usize::MAX,
            r matches Ok(t) ==> t.wf() && t@ == ew_bcast(BinOp::Add, self@, rhs@),
            r matches Err(e) ==> (e == Error::ShapeError <==> !bcast_ok(self@.shape, rhs@.shape)),
            r matches Err(e) ==> (e == Error::SizeOverflow <==> bcast_ok(self@.shape, rhs@.shape)
                && product(bcast_shape(self@.shape, rhs@.shape)) > usize::MAX),
    {
        self.bin_bcast(rhs, BinOp::Add)
    }

    /// Elementwise wrapping subtraction under broadcasting.
    pub fn sub(&self, rhs: &Tensor) -> (r: Result<Tensor, Error>)
        requires
            self.wf(),
            rhs.wf(),
        ensures
            r is Ok <==> bcast_ok(self@.shape, rhs@.shape) && product(
                bcast_shape(self@.shape, rhs@.shape),
            ) <= usize::MAX,
            r matches Ok(t) ==> t.wf() && t@ == ew_bcast(BinOp::Sub, self@, rhs@),
            r matches Err(e) ==> (e == Error::ShapeError <==> !bcast_ok(self@.shape, rhs@.shape)),
            r matches Err(e) ==> (e == Error::SizeOverflow <==> bcast_ok(self@.shape, rhs@.shape)
                && product(bcast_shape(self@.shape, rhs@.shape)) > usize::MAX),
    {
        self.bin_bcast(rhs, BinOp::Sub)
    }

    /// Elementwise wrapping multiplication under broadcasting.
    pub fn mul(&self, rhs: &Tensor) -> (r: Result<Tensor, Error>)
        requires
            self.wf(),
            rhs.wf(),
        ensures
            r is Ok <==> bcast_ok(self@.shape, rhs@.shape) && product(
                bcast_shape(self@.shape, rhs@.shape),
            ) <= usize::MAX,
            r matches Ok(t) ==> t.wf() && t@ == ew_bcast(BinOp::Mul, self@, rhs@),
            r matches Err(e) ==> (e == Error::ShapeError <==> !bcast_ok(self@.shape, rhs@.shape)),
            r matches Err(e) ==> (e == Error::SizeOverflow <==> bcast_ok(self@.shape, rhs@.shape)
                && product(bcast_shape(self@.shape, rhs@.shape)) > usize::MAX),
    {
        self.bin_bcast(rhs, BinOp::Mul)
    }

    /// Elementwise truncating division under broadcasting.  A pair on which
    /// machine division would trap (a zero divisor, or `i64::MIN` by `-1`)
    /// yields 0: exact division has no other value to give there.
    pub fn div(&self, rhs: &Tensor) -> (r: Result<Tensor, Error>)
        requires
            self.wf(),
            rhs.wf(),
        ensures
            r is Ok <==> bcast_ok(self@.shape, rhs@.shape) && product(
                bcast_shape(self@.shape, rhs@.shape),
            ) <= usize::MAX,
            r matches Ok(t) ==> t.wf() && t@ == ew_bcast(BinOp::Div, self@, rhs@),
            r matches Err(e) ==> (e == Error::ShapeError <==> !bcast_ok(self@.shape, rhs@.shape)),
            r matches Err(e) ==> (e == Error::SizeOverflow <==> bcast_ok(self@.shape, rhs@.shape)
                && product(bcast_shape(self@.shape, rhs@.shape)) > usize::MAX),
    {
        self.bin_bcast(rhs, BinOp::Div)
    }
}

} // verus!
