//! Transposition and matrix multiplication.  The 2-D kernel computes plain
//! row-by-column inner products; higher ranks run the kernel once per batch
//! after broadcasting the leading "stack" axes.

use vstd::prelude::*;

use crate::scalar::{wadd, wmul};
use crate::shape::product;
use crate::tensor::{Tensor, TensorModel};
use crate::Error;

verus! {

/// The data of the transpose of an `m` by `n` matrix (the result is `n` by
/// `m`, so position `p` holds row `p / m`, column `p % m` of the result).
pub open spec fn transpose2_data(d: Seq<i64>, m: int, n: int) -> Seq<i64> {
    Seq::new((n * m) as nat, |p: int| d[(p % m) * n + p / m])
}

/// The inner product of row `i` of an `l` by `m` matrix with column `j` of
/// an `m` by `n` matrix, over the first `k` terms.
pub open spec fn mm_elem(a: Seq<i64>, b: Seq<i64>, m: int, n: int, i: int, j: int, k: int) -> i64
    decreases k,
{
    if k <= 0 {
        0
    } else {
        wadd(mm_elem(a, b, m, n, i, j, k - 1), wmul(a[i * m + (k - 1)], b[(k - 1) * n + j]))
    }
}

/// The `l` by `n` product of an `l` by `m` matrix and an `m` by `n` matrix.
pub open spec fn mm2d(a: Seq<i64>, b: Seq<i64>, l: int, m: int, n: int) -> Seq<i64> {
    Seq::new((l * n) as nat, |p: int| mm_elem(a, b, m, n, p / n, p % n, m))
}

/// The products of `nb` consecutive matrix pairs, concatenated.
pub open spec fn mm_batches(a: Seq<i64>, b: Seq<i64>, nb: int, l: int, m: int, n: int) -> Seq<i64>
    decreases nb,
{
    if nb <= 0 {
        Seq::empty()
    } else {
        mm_batches(a, b, nb - 1, l, m, n) + mm2d(
            a.subrange((nb - 1) * (l * m), nb * (l * m)),
            b.subrange((nb - 1) * (m * n), nb * (m * n)),
            l,
            m,
            n,
        )
    }
}

pub proof fn lemma_mm_batches_len(a: Seq<i64>, b: Seq<i64>, nb: int, l: int, m: int, n: int)
    requires
        l >= 0,
        n >= 0,
        nb >= 0,
    ensures
        mm_batches(a, b, nb, l, m, n).len() == nb * (l * n),
    decreases nb,
{
    if nb == 0 {
        assert(0 * (l * n) == 0) by (nonlinear_arith);
    } else {
        lemma_mm_batches_len(a, b, nb - 1, l, m, n);
        assert((nb - 1) * (l * n) + (l * n) == nb * (l * n)) by (nonlinear_arith);
    }
}

/// Append the product of the `l` by `m` block of `a` at `ao` with the `m` by
/// `n` block of `b` at `bo` onto `out`.
pub(crate) fn mm2d_block(
    a: &Vec<i64>,
    ao: usize,
    b: &Vec<i64>,
    bo: usize,
    l: usize,
    m: usize,
    n: usize,
    out: &mut Vec<i64>,
)
    requires
        ao + l * m <= a@.len(),
        bo + m * n <= b@.len(),
        old(out)@.len() + l * n <= usize::MAX,
    ensures
        final(out)@ == old(out)@ + mm2d(
            a@.subrange(ao as int, ao as int + l * m),
            b@.subrange(bo as int, bo as int + m * n),
            l as int,
            m as int,
            n as int,
        ),
    decreases l,
{
    let an = a.len();
    let bn = b.len();
    assert(an == a@.len() && bn == b@.len());
    let ghost aseg = a@.subrange(ao as int, ao as int + l * m);
    let ghost bseg = b@.subrange(bo as int, bo as int + m * n);
    let ghost mspec = mm2d(aseg, bseg, l as int, m as int, n as int);
    proof {
        assert(mspec.len() == l * n);
    }
    let mut i: usize = 0;
    while i < l
        invariant
            i <= l,
            ao + l * m <= a@.len(),
            bo + m * n <= b@.len(),
            a@.len() <= usize::MAX,
            b@.len() <= usize::MAX,
            old(out)@.len() + l * n <= usize::MAX,
            aseg == a@.subrange(ao as int, ao as int + l * m),
            bseg == b@.subrange(bo as int, bo as int + m * n),
            mspec == mm2d(aseg, bseg, l as int, m as int, n as int),
            i * n <= l * n,
            out@ == old(out)@ + mspec.take(i * n),
        decreases l - i,
    {
        proof {
            assert(i * n + n <= l * n && (i + 1) * n == i * n + n && 0 <= i * n)
                by (nonlinear_arith)
                requires
                    0 <= i < l,
                    n >= 0,
            ;
        }
        let mut j: usize = 0;
        while j < n
            invariant
                j <= n,
                i < l,
                ao + l * m <= a@.len(),
                bo + m * n <= b@.len(),
                a@.len() <= usize::MAX,
                b@.len() <= usize::MAX,
                old(out)@.len() + l * n <= usize::MAX,
                i * n + n <= l * n,
                aseg == a@.subrange(ao as int, ao as int + l * m),
                bseg == b@.subrange(bo as int, bo as int + m * n),
                mspec == mm2d(aseg, bseg, l as int, m as int, n as int),
                out@ == old(out)@ + mspec.take(i * n + j),
            decreases n - j,
        {
            let mut acc: i64 = 0;
            let mut k: usize = 0;
            while k < m
                invariant
                    k <= m,
                    i < l,
                    j < n,
                    ao + l * m <= a@.len(),
                    bo + m * n <= b@.len(),
                    a@.len() <= usize::MAX,
                    b@.len() <= usize::MAX,
                    aseg == a@.subrange(ao as int, ao as int + l * m),
                    bseg == b@.subrange(bo as int, bo as int + m * n),
                    acc == mm_elem(aseg, bseg, m as int, n as int, i as int, j as int, k as int),
                decreases m - k,
            {
                proof {
                    assert(i * m + k < l * m && 0 <= i * m + k) by (nonlinear_arith)
                        requires
                            0 <= i < l,
                            0 <= k < m,
                    ;
                    assert(k * n + j < m * n && 0 <= k * n + j) by (nonlinear_arith)
                        requires
                            0 <= k < m,
                            0 <= j < n,
                    ;
                    assert(aseg[i * m + k] == a@[ao + i * m + k]);
                    assert(bseg[k * n + j] == b@[bo + (k * n + j)]);
                }
                acc = acc.wrapping_add(a[ao + i * m + k].wrapping_mul(b[bo + k * n + j]));
                k = k + 1;
            }
            proof {
                let p = i * n + j;
                assert(0 <= p && p < l * n) by (nonlinear_arith)
                    requires
                        p == i * n + j,
                        0 <= i < l,
                        0 <= j < n,
                        i * n + n <= l * n,
                ;
                vstd::arithmetic::div_mod::lemma_fundamental_div_mod_converse(
                    p,
                    n as int,
                    i as int,
                    j as int,
                );
                assert(mspec[p] == acc);
                assert(mspec.take(p + 1) =~= mspec.take(p) + seq![mspec[p]]);
            }
            out.push(acc);
            j = j + 1;
        }
        i = i + 1;
    }
    proof {
        assert(mspec.take(l as int * n as int) =~= mspec);
    }
}

/// Row count of the left operand: a vector is promoted to a single row.
pub open spec fn mm_l(s: Seq<usize>) -> usize {
    if s.len() == 1 {
        1
    } else {
        s[s.len() - 2]
    }
}

/// Column count of the left operand (its last axis).
pub open spec fn mm_m(s: Seq<usize>) -> usize {
    s[s.len() - 1]
}

/// Row count of the right operand: a vector is promoted to a single column.
pub open spec fn mm_m2(s: Seq<usize>) -> usize {
    if s.len() == 1 {
        s[0]
    } else {
        s[s.len() - 2]
    }
}

/// Column count of the right operand.
pub open spec fn mm_n(s: Seq<usize>) -> usize {
    if s.len() == 1 {
        1
    } else {
        s[s.len() - 1]
    }
}

/// The leading "stack" axes in front of the trailing matrix pair.
pub open spec fn mm_stack(s: Seq<usize>) -> Seq<usize> {
    if s.len() == 1 {
        Seq::empty()
    } else {
        s.take(s.len() - 2)
    }
}

/// Whether two shapes multiply: both rank 1 or more, matching inner
/// dimensions, and stacks that broadcast together.
pub open spec fn matmul_ok(sa: Seq<usize>, sb: Seq<usize>) -> bool {
    sa.len() >= 1 && sb.len() >= 1 && mm_m(sa) == mm_m2(sb) && crate::shape::bcast_ok(
        mm_stack(sa),
        mm_stack(sb),
    )
}

/// Every buffer the product builds fits in a machine word.
pub open spec fn matmul_fits(sa: Seq<usize>, sb: Seq<usize>) -> bool {
    let bstack = crate::shape::bcast_shape(mm_stack(sa), mm_stack(sb));
    let l = mm_l(sa);
    let m = mm_m(sa);
    let n = mm_n(sb);
    product(bstack) <= usize::MAX && product(bstack + seq![l, m]) <= usize::MAX && product(
        bstack + seq![m, n],
    ) <= usize::MAX && product(bstack + seq![l, n]) <= usize::MAX
}

/// The result shape: the broadcast stack, then the rows and columns, each
/// squeezed away where the operand was a bare vector.
pub open spec fn matmul_shape(sa: Seq<usize>, sb: Seq<usize>) -> Seq<usize> {
    let bstack = crate::shape::bcast_shape(mm_stack(sa), mm_stack(sb));
    bstack + (if sa.len() == 1 && sb.len() == 1 {
        Seq::empty()
    } else if sa.len() == 1 {
        seq![mm_n(sb)]
    } else if sb.len() == 1 {
        seq![mm_l(sa)]
    } else {
        seq![mm_l(sa), mm_n(sb)]
    })
}

/// The result data: both operands carried to the broadcast stack, then one
/// 2-D product per stack entry.
pub open spec fn matmul_data(a: TensorModel, b: TensorModel) -> Seq<i64> {
    let bstack = crate::shape::bcast_shape(mm_stack(a.shape), mm_stack(b.shape));
    let l = mm_l(a.shape);
    let m = mm_m(a.shape);
    let n = mm_n(b.shape);
    mm_batches(
        crate::broadcast::bcast_data(a.data, mm_stack(a.shape) + seq![l, m], bstack + seq![l, m]),
        crate::broadcast::bcast_data(b.data, mm_stack(b.shape) + seq![m, n], bstack + seq![m, n]),
        product(bstack),
        l as int,
        m as int,
        n as int,
    )
}

/// The first `k` dimensions of a shape vector.
pub(crate) fn take_prefix(v: &Vec<usize>, k: usize) -> (r: Vec<usize>)
    requires
        k <= v@.len(),
    ensures
        r@ == v@.take(k as int),
{
    let mut r: Vec<usize> = Vec::new();
    let mut i: usize = 0;
    while i < k
        invariant
            i <= k,
            k <= v@.len(),
            r@.len() == i,
            forall|j: int| 0 <= j < i ==> r@[j] == v@[j],
        decreases k - i,
    {
        r.push(v[i]);
        i = i + 1;
    }
    assert(r@ =~= v@.take(k as int));
    r
}

impl Tensor {
    /// The matrix transpose: identity below rank 2, the full 2-D transpose
    /// at rank 2; higher ranks are not supported.
    pub fn transpose(&self) -> (r: Result<Tensor, Error>)
        requires
            self.wf(),
        ensures
            r is Ok <==> self@.shape.len() <= 2,
            r matches Ok(t) ==> t.wf(),
            self@.shape.len() <= 1 ==> (r matches Ok(t) && t@ == self@),
            self@.shape.len() == 2 ==> (r matches Ok(t) && t@ == (TensorModel {
                data: transpose2_data(self@.data, self@.shape[0] as int, self@.shape[1] as int),
                shape: seq![self@.shape[1], self@.shape[0]],
            })),
            r is Err ==> r == Result::<Tensor, Error>::Err(Error::UnsupportedOperation),
    {
        let rank = self.get_shape().len();
        if rank > 2 {
            return Err(Error::UnsupportedOperation);
        }
        if rank <= 1 {
            return Ok(self.clone());
        }
        let m = self.get_shape()[0];
        let n = self.get_shape()[1];
        let d = self.get_data();
        let dn = d.len();
        proof {
            let s = self@.shape;
            assert(s.skip(1).skip(1) =~= Seq::<usize>::empty());
            assert(product(Seq::<usize>::empty()) == 1);
            assert(product(s) == s[0] * product(s.skip(1)));
            assert(product(s.skip(1)) == s.skip(1)[0] * product(s.skip(1).skip(1)));
            assert(s.skip(1)[0] == s[1]);
            assert(d@.len() == m * n);
        }
        let ghost tspec = transpose2_data(self@.data, m as int, n as int);
        proof {
            assert(tspec.len() == n * m);
            assert(n * m == m * n) by (nonlinear_arith);
        }
        let mut out: Vec<i64> = Vec::new();
        let mut i: usize = 0;
        while i < n
            invariant
                i <= n,
                m == self@.shape[0],
                n == self@.shape[1],
                d@ == self@.data,
                d@.len() == m * n,
                d@.len() == dn,
                tspec == transpose2_data(self@.data, m as int, n as int),
                tspec.len() == n * m,
                i * m <= n * m,
                n * m == m * n,
                out@ == tspec.take(i * m),
            decreases n - i,
        {
            proof {
                assert(i * m + m <= n * m && (i + 1) * m == i * m + m && 0 <= i * m)
                    by (nonlinear_arith)
                    requires
                        0 <= i < n,
                        m >= 0,
                ;
            }
            let mut j: usize = 0;
            while j < m
                invariant
                    j <= m,
                    i < n,
                    m == self@.shape[0],
                    n == self@.shape[1],
                    d@ == self@.data,
                    d@.len() == m * n,
                    d@.len() == dn,
                    tspec == transpose2_data(self@.data, m as int, n as int),
                    tspec.len() == n * m,
                    i * m + m <= n * m,
                    out@ == tspec.take(i * m + j),
                decreases m - j,
            {
                proof {
                    assert(n * j + i < m * n && 0 <= n * j + i) by (nonlinear_arith)
                        requires
                            0 <= i < n,
                            0 <= j < m,
                    ;
                    let p = i * m + j;
                    assert(0 <= p && p < n * m) by (nonlinear_arith)
                        requires
                            p == i * m + j,
                            0 <= i < n,
                            0 <= j < m,
                            i * m + m <= n * m,
                    ;
                    vstd::arithmetic::div_mod::lemma_fundamental_div_mod_converse(
                        p,
                        m as int,
                        i as int,
                        j as int,
                    );
                    assert(tspec[p] == self@.data[j * n + i]);
                    assert(j * n + i == n * j + i) by (nonlinear_arith);
                    assert(tspec.take(p + 1) =~= tspec.take(p) + seq![tspec[p]]);
                }
                out.push(d[n * j + i]);
                j = j + 1;
            }
            i = i + 1;
        }
        proof {
            assert(tspec.take(n as int * m as int) =~= tspec);
        }
        let shape = vec![n, m];
        proof {
            assert(shape@ =~= seq![self@.shape[1], self@.shape[0]]);
            assert(shape@.skip(1).skip(1) =~= Seq::<usize>::empty());
            assert(product(Seq::<usize>::empty()) == 1);
            assert(product(shape@) == shape@[0] * product(shape@.skip(1)));
            assert(product(shape@.skip(1)) == shape@.skip(1)[0] * product(shape@.skip(1).skip(1)));
            assert(shape@.skip(1)[0] == shape@[1]);
        }
        match Tensor::new(out, shape) {
            Ok(t) => Ok(t),
            Err(_) => {
                proof {
                    assert(false);
                }
                unreached()
            },
        }
    }

    /// Rank-aware matrix multiplication: a scalar operand multiplies the
    /// other operand elementwise, vectors are promoted to a single row or
    /// column (and the promoted axis squeezed from the result), matrices
    /// multiply in the standard way, and any leading axes form a
    /// broadcastable stack of independent products.  Mismatched inner
    /// dimensions and incompatible stacks are refused.
    #[verifier::rlimit(60)]
    pub fn matmul(&self, rhs: &Tensor) -> (r: Result<Tensor, Error>)
        requires
            self.wf(),
            rhs.wf(),
        ensures
            r is Ok <==> (self@.shape.len() == 0 || rhs@.shape.len() == 0) || (matmul_ok(
                self@.shape,
                rhs@.shape,
            ) && matmul_fits(self@.shape, rhs@.shape)),
            self@.shape.len() == 0 || rhs@.shape.len() == 0 ==> (r matches Ok(t) && t.wf() && t@
                == crate::arith::ew_bcast(crate::tensor_ops::BinOp::Mul, self@, rhs@)),
            self@.shape.len() >= 1 && rhs@.shape.len() >= 1 ==> (r matches Ok(t) ==> t.wf() && t@
                == (TensorModel {
                data: matmul_data(self@, rhs@),
                shape: matmul_shape(self@.shape, rhs@.shape),
            })),
            r matches Err(e) ==> (e == Error::ShapeError <==> !matmul_ok(
                self@.shape,
                rhs@.shape,
            )),
            r matches Err(e) ==> (e == Error::SizeOverflow <==> matmul_ok(self@.shape, rhs@.shape)
                && !matmul_fits(self@.shape, rhs@.shape)),
    {
        let ghost sa = self@.shape;
        let ghost sb = rhs@.shape;
        let sav = self.get_shape();
        let sbv = rhs.get_shape();
        let la = sav.len();
        let lb = sbv.len();
        if la == 0 || lb == 0 {
            // a scalar operand scales the other operand elementwise
            proof {
                if sa.len() == 0 {
                    assert(sa =~= Seq::<usize>::empty());
                    crate::shape::lemma_bcast_scalar(sb);
                } else {
                    assert(sb =~= Seq::<usize>::empty());
                    crate::shape::lemma_bcast_scalar(sa);
                }
            }
            let _na = self.size();
            let _nb = rhs.size();
            return (match self.mul(rhs) {
                Ok(t) => Ok(t),
                Err(_) => {
                    proof {
                        assert(false);
                    }
                    unreached()
                },
            });
        }
        let l: usize = if la == 1 {
            1
        } else {
            sav[la - 2]
        };
        let m: usize = sav[la - 1];
        let m2: usize = if lb == 1 {
            sbv[0]
        } else {
            sbv[lb - 2]
        };
        let n: usize = if lb == 1 {
            1
        } else {
            sbv[lb - 1]
        };
        if m != m2 {
            return Err(Error::ShapeError);
        }
        let lstack = take_prefix(sav, if la == 1 {
            0
        } else {
            la - 2
        });
        let rstack = take_prefix(sbv, if lb == 1 {
            0
        } else {
            lb - 2
        });
        proof {
            assert(Seq::<usize>::empty() =~= sa.take(0));
            assert(Seq::<usize>::empty() =~= sb.take(0));
            assert(lstack@ == mm_stack(sa));
            assert(rstack@ == mm_stack(sb));
        }
        let bstack = match crate::shape::shape_after_broadcast(&lstack, &rstack) {
            Some(v) => v,
            None => {
                return Err(Error::ShapeError);
            },
        };
        // assemble the three padded shapes around the broadcast stack
        let mut shape_a = bstack.clone();
        shape_a.push(l);
        shape_a.push(m);
        let mut shape_b = bstack.clone();
        shape_b.push(m);
        shape_b.push(n);
        let mut shape_o = bstack.clone();
        shape_o.push(l);
        shape_o.push(n);
        proof {
            assert(shape_a@ =~= bstack@ + seq![l, m]);
            assert(shape_b@ =~= bstack@ + seq![m, n]);
            assert(shape_o@ =~= bstack@ + seq![l, n]);
        }
        let nb = match Tensor::checked_size(&bstack) {
            Some(v) => v,
            None => {
                return Err(Error::SizeOverflow);
            },
        };
        let total_a = match Tensor::checked_size(&shape_a) {
            Some(v) => v,
            None => {
                return Err(Error::SizeOverflow);
            },
        };
        let total_b = match Tensor::checked_size(&shape_b) {
            Some(v) => v,
            None => {
                return Err(Error::SizeOverflow);
            },
        };
        let total_o = match Tensor::checked_size(&shape_o) {
            Some(v) => v,
            None => {
                return Err(Error::SizeOverflow);
            },
        };
        // promote a bare vector to one row / one column, keeping the buffer
        let ghost pl = mm_stack(sa) + seq![l, m];
        let ghost pr = mm_stack(sb) + seq![m, n];
        proof {
            crate::shape::lemma_product_append(mm_stack(sa), seq![l, m]);
            crate::shape::lemma_product_append(mm_stack(sb), seq![m, n]);
            crate::shape::lemma_product_pair(l, m);
            crate::shape::lemma_product_pair(m, n);
            if la == 1 {
                assert(sa.skip(1) =~= Seq::<usize>::empty());
                assert(product(Seq::<usize>::empty()) == 1);
                assert(product(sa) == sa[0] * product(sa.skip(1)));
                assert(pl =~= seq![1usize, m]);
            } else {
                assert(mm_stack(sa) + seq![l, m] =~= sa);
            }
            if lb == 1 {
                assert(sb.skip(1) =~= Seq::<usize>::empty());
                assert(product(Seq::<usize>::empty()) == 1);
                assert(product(sb) == sb[0] * product(sb.skip(1)));
                assert(pr =~= seq![m, 1usize]);
            } else {
                assert(mm_stack(sb) + seq![m, n] =~= sb);
            }
            assert(product(pl) == product(sa));
            assert(product(pr) == product(sb));
        }
        let mut plv = lstack.clone();
        plv.push(l);
        plv.push(m);
        let mut prv = rstack.clone();
        prv.push(m);
        prv.push(n);
        proof {
            assert(plv@ =~= pl);
            assert(prv@ =~= pr);
        }
        let ta = match self.reshape(plv) {
            Ok(t) => t,
            Err(_) => {
                proof {
                    assert(false);
                }
                unreached()
            },
        };
        let tb = match rhs.reshape(prv) {
            Ok(t) => t,
            Err(_) => {
                proof {
                    assert(false);
                }
                unreached()
            },
        };
        proof {
            crate::shape::lemma_bcast_expandable(mm_stack(sa), mm_stack(sb));
            crate::shape::lemma_expandable_append_axes(mm_stack(sa), bstack@, seq![l, m]);
            crate::shape::lemma_expandable_append_axes(mm_stack(sb), bstack@, seq![m, n]);
        }
        let ba = match ta.broadcast_to(&shape_a) {
            Ok(t) => t,
            Err(_) => {
                proof {
                    assert(false);
                }
                unreached()
            },
        };
        let bb = match tb.broadcast_to(&shape_b) {
            Ok(t) => t,
            Err(_) => {
                proof {
                    assert(false);
                }
                unreached()
            },
        };
        proof {
            crate::shape::lemma_product_append(bstack@, seq![l, m]);
            crate::shape::lemma_product_append(bstack@, seq![m, n]);
            crate::shape::lemma_product_append(bstack@, seq![l, n]);
            crate::shape::lemma_product_pair(l, n);
            crate::shape::lemma_product_nonneg(bstack@);
        }
        let bad = ba.get_data();
        let bbd = bb.get_data();
        let ghost gdata = matmul_data(self@, rhs@);
        let mut out: Vec<i64> = Vec::new();
        let mut bi: usize = 0;
        while bi < nb
            invariant
                bi <= nb,
                nb == product(bstack@),
                bad@.len() == nb * (l * m),
                bbd@.len() == nb * (m * n),
                bad@.len() <= usize::MAX,
                bbd@.len() <= usize::MAX,
                total_o == nb * (l * n),
                total_o <= usize::MAX,
                out@ == mm_batches(bad@, bbd@, bi as int, l as int, m as int, n as int),
                out@.len() == bi * (l * n),
            decreases nb - bi,
        {
            proof {
                assert(bi * (l * m) + l * m == (bi + 1) * (l * m) && 0 <= bi * (l * m) && (bi + 1)
                    * (l * m) <= nb * (l * m) && bi * (m * n) + m * n == (bi + 1) * (m * n) && 0
                    <= bi * (m * n) && (bi + 1) * (m * n) <= nb * (m * n) && bi * (l * n) + l * n
                    == (bi + 1) * (l * n) && (bi + 1) * (l * n) <= nb * (l * n))
                    by (nonlinear_arith)
                    requires
                        0 <= bi < nb,
                        l >= 0,
                        m >= 0,
                        n >= 0,
                ;
            }
            let lm = l * m;
            let mn = m * n;
            let ao = bi * lm;
            let bo = bi * mn;
            mm2d_block(bad, ao, bbd, bo, l, m, n, &mut out);
            proof {
                assert(out@ =~= mm_batches(
                    bad@,
                    bbd@,
                    bi as int + 1,
                    l as int,
                    m as int,
                    n as int,
                ));
            }
            bi = bi + 1;
        }
        // squeeze the axes that vector promotion introduced
        let mut shape_res = bstack;
        if la != 1 {
            shape_res.push(l);
        }
        if lb != 1 {
            shape_res.push(n);
        }
        proof {
            let bs = crate::shape::bcast_shape(mm_stack(sa), mm_stack(sb));
            if la == 1 && lb == 1 {
                assert(shape_res@ =~= bs + Seq::<usize>::empty());
                assert(product(Seq::<usize>::empty()) == 1);
                crate::shape::lemma_product_append(bs, Seq::<usize>::empty());
            } else if la == 1 {
                assert(shape_res@ =~= bs + seq![n]);
                assert(seq![n].skip(1) =~= Seq::<usize>::empty());
                assert(product(Seq::<usize>::empty()) == 1);
                assert(product(seq![n]) == n * product(seq![n].skip(1)));
                crate::shape::lemma_product_append(bs, seq![n]);
            } else if lb == 1 {
                assert(shape_res@ =~= bs + seq![l]);
                assert(seq![l].skip(1) =~= Seq::<usize>::empty());
                assert(product(Seq::<usize>::empty()) == 1);
                assert(product(seq![l]) == l * product(seq![l].skip(1)));
                crate::shape::lemma_product_append(bs, seq![l]);
            } else {
                assert(shape_res@ =~= bs + seq![l, n]);
            }
            assert(shape_res@ == matmul_shape(sa, sb));
            lemma_mm_batches_len(bad@, bbd@, nb as int, l as int, m as int, n as int);
            assert(out@ == gdata);
        }
        match Tensor::new(out, shape_res) {
            Ok(t) => Ok(t),
            Err(_) => {
                proof {
                    assert(false);
                }
                unreached()
            },
        }
    }
}

} // verus!
