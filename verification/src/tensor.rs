//! The dense array type: a flat row-major buffer of 64-bit integers together
//! with its shape.  The buffer length always equals the product of the shape.

use vstd::prelude::*;

use crate::shape::{
    bcast_ok, bcast_shape, lemma_product_pos, lemma_product_split, lemma_product_zero, product,
    shape_after_broadcast,
};
use crate::Error;

verus! {

/// The mathematical value of a [`Tensor`]: its elements and its shape.
pub struct TensorModel {
    pub data: Seq<i64>,
    pub shape: Seq<usize>,
}

impl TensorModel {
    /// The one invariant of the type: the buffer holds exactly one element
    /// per point of the shape.
    pub open spec fn wf(self) -> bool {
        self.data.len() == product(self.shape)
    }

    /// Every element equal to `v`.
    pub open spec fn filled(shape: Seq<usize>, v: i64) -> TensorModel {
        TensorModel { data: Seq::new(product(shape) as nat, |i: int| v), shape }
    }
}

/// A dense row-major array with a fixed shape.  Producing operations return
/// new tensors; no buffer is shared.
#[derive(Debug)]
pub struct Tensor {
    data: Vec<i64>,
    shape: Vec<usize>,
}

impl Clone for Tensor {
    fn clone(&self) -> (r: Self)
        ensures
            r@ == self@,
    {
        Tensor { data: self.data.clone(), shape: self.shape.clone() }
    }
}

impl View for Tensor {
    type V = TensorModel;

    closed spec fn view(&self) -> TensorModel {
        TensorModel { data: self.data@, shape: self.shape@ }
    }
}

impl Tensor {
    pub open spec fn wf(&self) -> bool {
        self@.wf()
    }

    /// Element count of `shape`, or `None` when it does not fit in a word.
    pub(crate) fn checked_size(shape: &Vec<usize>) -> (r: Option<usize>)
        ensures
            r matches Some(v) ==> v == product(shape@),
            r is None ==> product(shape@) > usize::MAX,
    {
        let n = shape.len();
        let mut i: usize = 0;
        while i < n
            invariant
                i <= n,
                n == shape@.len(),
                forall|j: int| 0 <= j < i ==> shape@[j] >= 1,
            decreases n - i,
        {
            if shape[i] == 0 {
                proof {
                    lemma_product_zero(shape@, i as int);
                }
                return Some(0);
            }
            i = i + 1;
        }
        let mut p: usize = 1;
        let mut i: usize = 0;
        while i < n
            invariant
                i <= n,
                n == shape@.len(),
                forall|j: int| 0 <= j < n ==> shape@[j] >= 1,
                p == product(shape@.take(i as int)),
            decreases n - i,
        {
            proof {
                crate::shape::lemma_product_take_step(shape@, i as int);
                lemma_product_split(shape@, i as int + 1);
                assert(forall|j: int|
                    0 <= j < shape@.skip(i as int + 1).len() ==> #[trigger] shape@.skip(
                        i as int + 1,
                    )[j] >= 1);
                lemma_product_pos(shape@.skip(i as int + 1));
            }
            let d = shape[i];
            match p.checked_mul(d) {
                Some(q) => {
                    p = q;
                },
                None => {
                    proof {
                        assert(product(shape@) >= p * d) by (nonlinear_arith)
                            requires
                                product(shape@) == (p * d) * product(shape@.skip(i as int + 1)),
                                product(shape@.skip(i as int + 1)) >= 1,
                                p * d >= 0,
                        ;
                    }
                    return None;
                },
            }
            i = i + 1;
        }
        proof {
            assert(shape@.take(n as int) =~= shape@);
        }
        Some(p)
    }

    /// Wrap a buffer and a shape; fails unless the element counts agree.
    pub fn new(data: Vec<i64>, shape: Vec<usize>) -> (r: Result<Tensor, Error>)
        ensures
            r is Ok <==> data@.len() == product(shape@),
            r matches Ok(t) ==> t@ == (TensorModel { data: data@, shape: shape@ }) && t.wf(),
            r is Err ==> r == Result::<Tensor, Error>::Err(Error::ShapeError),
    {
        let n = data.len();
        match Self::checked_size(&shape) {
            Some(sz) if sz == n => Ok(Tensor { data, shape }),
            _ => Err(Error::ShapeError),
        }
    }

    /// A tensor of the given shape with every element equal to `v`.
    pub fn fill(shape: Vec<usize>, v: i64) -> (r: Result<Tensor, Error>)
        ensures
            r is Ok <==> product(shape@) <= usize::MAX,
            r matches Ok(t) ==> t@ == TensorModel::filled(shape@, v) && t.wf(),
            r is Err ==> r == Result::<Tensor, Error>::Err(Error::SizeOverflow),
    {
        proof {
            crate::shape::lemma_product_nonneg(shape@);
        }
        let sz = match Self::checked_size(&shape) {
            Some(sz) => sz,
            None => {
                return Err(Error::SizeOverflow);
            },
        };
        let mut data: Vec<i64> = Vec::new();
        let mut i: usize = 0;
        while i < sz
            invariant
                i <= sz,
                data@.len() == i,
                forall|j: int| 0 <= j < i ==> data@[j] == v,
            decreases sz - i,
        {
            data.push(v);
            i = i + 1;
        }
        assert(data@ =~= TensorModel::filled(shape@, v).data);
        Ok(Tensor { data, shape })
    }

    /// All-zeros tensor of the given shape.
    pub fn zeros(shape: Vec<usize>) -> (r: Result<Tensor, Error>)
        ensures
            r is Ok <==> product(shape@) <= usize::MAX,
            r matches Ok(t) ==> t@ == TensorModel::filled(shape@, 0),
            r is Err ==> r == Result::<Tensor, Error>::Err(Error::SizeOverflow),
    {
        Self::fill(shape, 0)
    }

    /// All-ones tensor of the given shape.
    pub fn ones(shape: Vec<usize>) -> (r: Result<Tensor, Error>)
        ensures
            r is Ok <==> product(shape@) <= usize::MAX,
            r matches Ok(t) ==> t@ == TensorModel::filled(shape@, 1),
            r is Err ==> r == Result::<Tensor, Error>::Err(Error::SizeOverflow),
    {
        Self::fill(shape, 1)
    }

    /// A rank-0 tensor holding one element.
    pub fn scalar(v: i64) -> (r: Tensor)
        ensures
            r@ == (TensorModel { data: seq![v], shape: Seq::<usize>::empty() }),
            r.wf(),
    {
        let t = Tensor { data: vec![v], shape: Vec::new() };
        proof {
            assert(t@.shape =~= Seq::<usize>::empty());
            assert(t@.data =~= seq![v]);
        }
        t
    }

    /// The flat row-major buffer.
    pub fn get_data(&self) -> (r: &Vec<i64>)
        ensures
            r@ == self@.data,
    {
        &self.data
    }

    /// The shape.
    pub fn get_shape(&self) -> (r: &Vec<usize>)
        ensures
            r@ == self@.shape,
    {
        &self.shape
    }

    /// Total element count.
    pub fn size(&self) -> (r: usize)
        ensures
            r == self@.data.len(),
    {
        self.data.len()
    }

    /// Replace values in place, keeping the shape: element `i` takes the
    /// `i`-th element of `new` where `new` has one, and is kept otherwise.
    pub fn set_data(&mut self, new: &Tensor)
        ensures
            final(self)@.shape == old(self)@.shape,
            final(self)@.data.len() == old(self)@.data.len(),
            forall|i: int|
                0 <= i < old(self)@.data.len() ==> final(self)@.data[i] == (if i < new@.data.len() {
                    new@.data[i]
                } else {
                    old(self)@.data[i]
                }),
    {
        let n = if self.data.len() <= new.data.len() {
            self.data.len()
        } else {
            new.data.len()
        };
        let mut i: usize = 0;
        while i < n
            invariant
                i <= n,
                n <= old(self)@.data.len(),
                n <= new@.data.len(),
                self@.shape == old(self)@.shape,
                self@.data.len() == old(self)@.data.len(),
                forall|j: int| 0 <= j < i ==> self@.data[j] == new@.data[j],
                forall|j: int| i <= j < self@.data.len() ==> self@.data[j] == old(self)@.data[j],
                n == (if old(self)@.data.len() <= new@.data.len() {
                    old(self)@.data.len() as int
                } else {
                    new@.data.len() as int
                }),
            decreases n - i,
        {
            let v = new.data[i];
            self.data.set(i, v);
            i = i + 1;
        }
    }

    /// Same buffer under a new shape; fails unless the element counts match.
    pub fn reshape(&self, new_shape: Vec<usize>) -> (r: Result<Tensor, Error>)
        ensures
            r is Ok <==> product(new_shape@) == self@.data.len(),
            r matches Ok(t) ==> t@ == (TensorModel { data: self@.data, shape: new_shape@ }),
            r is Err ==> r == Result::<Tensor, Error>::Err(Error::ShapeError),
    {
        let n = self.data.len();
        match Self::checked_size(&new_shape) {
            Some(sz) if sz == n => Ok(Tensor { data: self.data.clone(), shape: new_shape }),
            _ => Err(Error::ShapeError),
        }
    }
}

} // verus!
