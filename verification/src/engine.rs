//! The backward pass.  Given a terminal node, the engine walks the
//! operations reachable from it in decreasing generation order, turning each
//! output gradient into one gradient per input (the vector-Jacobian product
//! of that operation) and accumulating those into the input nodes.  The
//! whole pass is specified by `bw_run`, a recursion over the same priority
//! queue the executable code maintains.

use vstd::prelude::*;

use crate::arith::ew_bcast;
use crate::graph::{
    graph_wf, input_values, node_wf, op_wf, Graph, GraphModel, NodeModel, OpKind, OpModel,
};
use crate::ops::{bcast_t, mm2d_t, sum_to_t, transpose_t, un_t};
use crate::shape::{expandable, product};
use crate::tensor::{Tensor, TensorModel};
use crate::tensor_ops::{ew_bin, ew_un, BinOp, UnOp};
use crate::Error;

verus! {

/// One gradient per input: the vector-Jacobian product of one operation,
/// given the gradient `gy` that reached its output.  Binary elementwise
/// operations whose operands were broadcast reduce each raw gradient back to
/// the operand's own shape with `sum_to`.
pub open spec fn op_backward(g: GraphModel, op: OpModel, gy: TensorModel) -> Seq<TensorModel> {
    let v0 = g.nodes[op.inputs[0] as int].value;
    match op.kind {
        OpKind::Add => {
            let v1 = g.nodes[op.inputs[1] as int].value;
            if v0.shape == v1.shape {
                seq![gy, gy]
            } else {
                seq![sum_to_t(gy, v0.shape), sum_to_t(gy, v1.shape)]
            }
        },
        OpKind::Sub => {
            let v1 = g.nodes[op.inputs[1] as int].value;
            if v0.shape == v1.shape {
                seq![gy, un_t(UnOp::Neg, gy)]
            } else {
                seq![sum_to_t(gy, v0.shape), sum_to_t(un_t(UnOp::Neg, gy), v1.shape)]
            }
        },
        OpKind::Mul => {
            let v1 = g.nodes[op.inputs[1] as int].value;
            let gx0 = ew_bcast(BinOp::Mul, v1, gy);
            let gx1 = ew_bcast(BinOp::Mul, v0, gy);
            if v0.shape == v1.shape {
                seq![gx0, gx1]
            } else {
                seq![sum_to_t(gx0, v0.shape), sum_to_t(gx1, v1.shape)]
            }
        },
        OpKind::Div => {
            let v1 = g.nodes[op.inputs[1] as int].value;
            let gx0 = ew_bcast(BinOp::Div, gy, v1);
            let gx1 = ew_bcast(
                BinOp::Mul,
                ew_bcast(BinOp::Div, un_t(UnOp::Neg, v0), ew_bcast(BinOp::Mul, v1, v1)),
                gy,
            );
            if v0.shape == v1.shape {
                seq![gx0, gx1]
            } else {
                seq![sum_to_t(gx0, v0.shape), sum_to_t(gx1, v1.shape)]
            }
        },
        OpKind::Neg => seq![un_t(UnOp::Neg, gy)],
        OpKind::Powi(c) => {
            if c == 0 {
                seq![un_t(UnOp::Scale(0), gy)]
            } else {
                seq![
                    un_t(
                        UnOp::Scale(c as i64),
                        (TensorModel {
                            data: ew_bin(
                                BinOp::Mul,
                                ew_un(UnOp::Powi((c - 1) as u32), v0.data),
                                gy.data,
                            ),
                            shape: v0.shape,
                        }),
                    ),
                ]
            }
        },
        OpKind::Reshape => seq![(TensorModel { data: gy.data, shape: v0.shape })],
        OpKind::Transpose => seq![transpose_t(gy)],
        OpKind::Sum => seq![bcast_t(gy, v0.shape)],
        OpKind::SumTo => seq![bcast_t(gy, v0.shape)],
        OpKind::BroadcastTo => seq![sum_to_t(gy, v0.shape)],
        OpKind::Matmul => {
            let v1 = g.nodes[op.inputs[1] as int].value;
            seq![mm2d_t(gy, transpose_t(v1)), mm2d_t(transpose_t(v0), gy)]
        },
        OpKind::Linear => {
            let v1 = g.nodes[op.inputs[1] as int].value;
            let gx = mm2d_t(gy, transpose_t(v1));
            let gw = mm2d_t(transpose_t(v0), gy);
            if op.inputs.len() == 3 {
                let v2 = g.nodes[op.inputs[2] as int].value;
                seq![gx, gw, sum_to_t(gy, v2.shape)]
            } else {
                seq![gx, gw]
            }
        },
        OpKind::Relu => seq![
            (TensorModel { data: ew_bin(BinOp::Mask(0), v0.data, gy.data), shape: v0.shape }),
        ],
        OpKind::MeanSquaredError => {
            let v1 = g.nodes[op.inputs[1] as int].value;
            let n = product(v0.shape) as i64;
            let diff = ew_bin(BinOp::Sub, v0.data, v1.data);
            let gx0 = TensorModel {
                data: ew_un(
                    UnOp::DivBy(n),
                    ew_un(UnOp::Scale(2), ew_un(UnOp::Scale(gy.data[0]), diff)),
                ),
                shape: v0.shape,
            };
            seq![gx0, un_t(UnOp::Neg, gx0)]
        },
    }
}

/// Every input gradient an operation hands back is a well-formed tensor of
/// its input's own shape.
pub proof fn lemma_op_backward_wf(g: GraphModel, j: int, gy: TensorModel)
    requires
        graph_wf(g),
        0 <= j < g.ops.len(),
        gy.wf(),
        gy.shape == g.nodes[g.ops[j].output as int].value.shape,
    ensures
        op_backward(g, g.ops[j], gy).len() == g.ops[j].inputs.len(),
        forall|k: int|
            0 <= k < g.ops[j].inputs.len() ==> (#[trigger] op_backward(g, g.ops[j], gy)[k]).wf()
                && op_backward(g, g.ops[j], gy)[k].shape == g.nodes[g.ops[j].inputs[k] as int].value.shape,
{
    let op = g.ops[j];
    assert(op_wf(g, j));
    let v0 = g.nodes[op.inputs[0] as int].value;
    assert(node_wf(g, op.inputs[0] as int));
    assert(node_wf(g, op.output as int));
    assert(input_values(g, op.inputs)[0] == v0);
    let gxs = op_backward(g, op, gy);
    match op.kind {
        OpKind::Add | OpKind::Sub | OpKind::Mul | OpKind::Div => {
            let v1 = g.nodes[op.inputs[1] as int].value;
            assert(node_wf(g, op.inputs[1] as int));
            assert(input_values(g, op.inputs)[1] == v1);
            let bshape = crate::shape::bcast_shape(v0.shape, v1.shape);
            crate::shape::lemma_bcast_expandable(v0.shape, v1.shape);
            crate::shape::lemma_expandable_refl(bshape);
            if v0.shape == v1.shape {
                crate::shape::lemma_bcast_self(v0.shape);
            }
            crate::shape::lemma_bcast_absorb(bshape, v0.shape);
            crate::shape::lemma_bcast_symmetric(bshape, v0.shape);
            crate::shape::lemma_bcast_absorb(bshape, v1.shape);
            crate::shape::lemma_bcast_symmetric(bshape, v1.shape);
            crate::broadcast::lemma_bcast_len(v1.data, v1.shape, bshape);
            crate::broadcast::lemma_bcast_len(v0.data, v0.shape, bshape);
            if op.kind == OpKind::Mul {
                let gx0 = ew_bcast(BinOp::Mul, v1, gy);
                let gx1 = ew_bcast(BinOp::Mul, v0, gy);
                assert(gx0.shape == bshape && gx0.wf() && gx1.shape == bshape && gx1.wf());
                if v0.shape != v1.shape {
                    crate::broadcast::lemma_sum_to_len(gx0.data, bshape, v0.shape);
                    crate::broadcast::lemma_sum_to_len(gx1.data, bshape, v1.shape);
                }
            } else if op.kind == OpKind::Div {
                crate::shape::lemma_bcast_self(v1.shape);
                crate::shape::lemma_bcast_self(bshape);
                crate::broadcast::lemma_bcast_len(gy.data, bshape, bshape);
                let gx0 = ew_bcast(BinOp::Div, gy, v1);
                assert(gx0.shape == bshape && gx0.wf());
                let sq = ew_bcast(BinOp::Mul, v1, v1);
                crate::broadcast::lemma_bcast_len(v1.data, v1.shape, v1.shape);
                assert(sq.shape == v1.shape && sq.wf());
                let num = un_t(UnOp::Neg, v0);
                let q = ew_bcast(BinOp::Div, num, sq);
                crate::broadcast::lemma_bcast_len(num.data, v0.shape, bshape);
                crate::broadcast::lemma_bcast_len(sq.data, v1.shape, bshape);
                assert(q.shape == bshape && q.wf());
                let gx1 = ew_bcast(BinOp::Mul, q, gy);
                crate::broadcast::lemma_bcast_len(q.data, bshape, bshape);
                assert(gx1.shape == bshape && gx1.wf());
                if v0.shape != v1.shape {
                    crate::broadcast::lemma_sum_to_len(gx0.data, bshape, v0.shape);
                    crate::broadcast::lemma_sum_to_len(gx1.data, bshape, v1.shape);
                }
            } else {
                if v0.shape != v1.shape {
                    crate::broadcast::lemma_sum_to_len(gy.data, bshape, v0.shape);
                    crate::broadcast::lemma_sum_to_len(gy.data, bshape, v1.shape);
                    crate::broadcast::lemma_sum_to_len(
                        un_t(UnOp::Neg, gy).data,
                        bshape,
                        v1.shape,
                    );
                }
            }
        },
        OpKind::Neg | OpKind::Relu | OpKind::Powi(_) => {},
        OpKind::Reshape => {},
        OpKind::Transpose => {
            if v0.shape.len() == 2 {
                assert(gy.shape == seq![v0.shape[1], v0.shape[0]]);
                assert(gxs[0].shape =~= v0.shape);
                crate::shape::lemma_product_pair(v0.shape[1], v0.shape[0]);
                crate::shape::lemma_product_pair(v0.shape[0], v0.shape[1]);
                assert(gy.data.len() == v0.shape[1] * v0.shape[0]);
                assert(gxs[0].data.len() == v0.shape[0] * v0.shape[1]) by (nonlinear_arith)
                    requires
                        gxs[0].data.len() == v0.shape[0] as int * v0.shape[1] as int,
                ;
                assert(product(gxs[0].shape) == product(v0.shape));
            }
        },
        OpKind::Sum | OpKind::SumTo => {
            lemma_empty_expandable(gy.shape, v0.shape, op.kind, g, j);
            crate::broadcast::lemma_bcast_len(gy.data, gy.shape, v0.shape);
        },
        OpKind::BroadcastTo => {
            crate::broadcast::lemma_sum_to_len(gy.data, gy.shape, v0.shape);
        },
        OpKind::Matmul | OpKind::Linear => {
            let v1 = g.nodes[op.inputs[1] as int].value;
            assert(node_wf(g, op.inputs[1] as int));
            assert(input_values(g, op.inputs)[1] == v1);
            let l = v0.shape[0];
            let m = v0.shape[1];
            let n = v1.shape[1];
            assert(gy.shape == seq![l, n]);
            assert(transpose_t(v1).shape =~= seq![n, m]);
            assert(transpose_t(v0).shape =~= seq![m, l]);
            assert(mm2d_t(gy, transpose_t(v1)).shape =~= seq![l, m] && seq![l, m] =~= v0.shape);
            assert(mm2d_t(transpose_t(v0), gy).shape =~= seq![m, n] && seq![m, n] =~= v1.shape);
            crate::shape::lemma_product_pair(l, m);
            crate::shape::lemma_product_pair(m, n);
            crate::shape::lemma_product_pair(l, n);
            assert(mm2d_t(gy, transpose_t(v1)).data.len() == l * m);
            assert(mm2d_t(transpose_t(v0), gy).data.len() == m * n);
            if op.kind == OpKind::Linear && op.inputs.len() == 3 {
                let v2 = g.nodes[op.inputs[2] as int].value;
                assert(node_wf(g, op.inputs[2] as int));
                assert(input_values(g, op.inputs)[2] == v2);
                crate::broadcast::lemma_sum_to_len(gy.data, gy.shape, v2.shape);
            }
        },
        OpKind::MeanSquaredError => {
            let v1 = g.nodes[op.inputs[1] as int].value;
            assert(node_wf(g, op.inputs[1] as int));
            assert(input_values(g, op.inputs)[1] == v1);
        },
    }
}

/// A scalar's empty shape, and a `sum_to` target, expand into the source.
proof fn lemma_empty_expandable(
    gys: Seq<usize>,
    s0: Seq<usize>,
    kind: OpKind,
    g: GraphModel,
    j: int,
)
    requires
        graph_wf(g),
        0 <= j < g.ops.len(),
        g.ops[j].kind == kind,
        kind == OpKind::Sum || kind == OpKind::SumTo,
        g.ops[j].inputs.len() >= 1,
        s0 == g.nodes[g.ops[j].inputs[0] as int].value.shape,
        gys == g.nodes[g.ops[j].output as int].value.shape,
    ensures
        expandable(gys, s0),
{
    assert(op_wf(g, j));
    assert(input_values(g, g.ops[j].inputs)[0] == g.nodes[g.ops[j].inputs[0] as int].value);
    if kind == OpKind::Sum {
        assert(gys =~= Seq::<usize>::empty());
        assert forall|i: int|
            0 <= i < s0.len() implies #[trigger] crate::shape::expand_dim_ok(
            crate::shape::padded(gys, s0.len() as int)[i],
            s0[i],
        ) by {
            assert(crate::shape::padded(gys, s0.len() as int)[i] == 1);
        }
    }
}

impl Graph {
    /// One exec step of the vector-Jacobian product: the gradients that
    /// operation `j` sends to its inputs, given its output gradient.
    fn op_backward_exec(&self, j: usize, gy: &Tensor) -> (r: Vec<Tensor>)
        requires
            self.wf(),
            j < self@.ops.len(),
            gy.wf(),
            gy@.shape == self@.nodes[self@.ops[j as int].output as int].value.shape,
        ensures
            r@.len() == op_backward(self@, self@.ops[j as int], gy@).len(),
            forall|k: int|
                0 <= k < r@.len() ==> (#[trigger] r@[k])@ == op_backward(
                    self@,
                    self@.ops[j as int],
                    gy@,
                )[k],
    {
        proof {
            assert(op_wf(self@, j as int));
        }
        let (kind, i0) = (self.op_kind(j), self.op_input(j, 0));
        proof {
            assert(node_wf(self@, i0 as int));
            assert(input_values(self@, self@.ops[j as int].inputs)[0] == self@.nodes[i0 as int].value);
        }
        let v0 = self.get_array(i0);
        let ghost gxs = op_backward(self@, self@.ops[j as int], gy@);
        match kind {
            OpKind::Add => {
                let i1 = self.op_input(j, 1);
                proof {
                    assert(node_wf(self@, i1 as int));
                    assert(input_values(self@, self@.ops[j as int].inputs)[1]
                        == self@.nodes[i1 as int].value);
                }
                let v1 = self.get_array(i1);
                if crate::tensor_ops::vecs_equal(v0.get_shape(), v1.get_shape()) {
                    let r = vec![gy.clone(), gy.clone()];
                    proof {
                        assert(r@[0]@ == gxs[0] && r@[1]@ == gxs[1]);
                    }
                    r
                } else {
                    proof {
                        lemma_op_backward_wf(self@, j as int, gy@);
                        lemma_bin_sum_to_ok(self@, j as int, gy@);
                    }
                    let g0 = self.force_sum_to(gy, &v0);
                    let g1 = self.force_sum_to(gy, &v1);
                    let r = vec![g0, g1];
                    proof {
                        assert(r@[0]@ == gxs[0] && r@[1]@ == gxs[1]);
                    }
                    r
                }
            },
            OpKind::Sub => {
                let i1 = self.op_input(j, 1);
                proof {
                    assert(node_wf(self@, i1 as int));
                    assert(input_values(self@, self@.ops[j as int].inputs)[1]
                        == self@.nodes[i1 as int].value);
                }
                let v1 = self.get_array(i1);
                let ng = gy.neg();
                if crate::tensor_ops::vecs_equal(v0.get_shape(), v1.get_shape()) {
                    let r = vec![gy.clone(), ng];
                    proof {
                        assert(r@[0]@ == gxs[0] && r@[1]@ == gxs[1]);
                    }
                    r
                } else {
                    proof {
                        lemma_op_backward_wf(self@, j as int, gy@);
                        lemma_bin_sum_to_ok(self@, j as int, gy@);
                    }
                    let g0 = self.force_sum_to(gy, &v0);
                    let g1 = self.force_sum_to(&ng, &v1);
                    let r = vec![g0, g1];
                    proof {
                        assert(r@[0]@ == gxs[0] && r@[1]@ == gxs[1]);
                    }
                    r
                }
            },
            OpKind::Mul => {
                let i1 = self.op_input(j, 1);
                proof {
                    assert(node_wf(self@, i1 as int));
                    assert(input_values(self@, self@.ops[j as int].inputs)[1]
                        == self@.nodes[i1 as int].value);
                    lemma_bin_sum_to_ok(self@, j as int, gy@);
                }
                let v1 = self.get_array(i1);
                let raw0 = match v1.mul(gy) {
                    Ok(t) => t,
                    Err(_) => {
                        proof {
                            assert(false);
                        }
                        unreached()
                    },
                };
                let raw1 = match v0.mul(gy) {
                    Ok(t) => t,
                    Err(_) => {
                        proof {
                            assert(false);
                        }
                        unreached()
                    },
                };
                if crate::tensor_ops::vecs_equal(v0.get_shape(), v1.get_shape()) {
                    let r = vec![raw0, raw1];
                    proof {
                        assert(r@[0]@ == gxs[0] && r@[1]@ == gxs[1]);
                    }
                    r
                } else {
                    let g0 = self.force_sum_to(&raw0, &v0);
                    let g1 = self.force_sum_to(&raw1, &v1);
                    let r = vec![g0, g1];
                    proof {
                        assert(r@[0]@ == gxs[0] && r@[1]@ == gxs[1]);
                    }
                    r
                }
            },
            OpKind::Div => {
                let i1 = self.op_input(j, 1);
                proof {
                    assert(node_wf(self@, i1 as int));
                    assert(input_values(self@, self@.ops[j as int].inputs)[1]
                        == self@.nodes[i1 as int].value);
                    lemma_bin_sum_to_ok(self@, j as int, gy@);
                    lemma_op_backward_wf(self@, j as int, gy@);
                }
                let v1 = self.get_array(i1);
                let raw0 = match gy.div(&v1) {
                    Ok(t) => t,
                    Err(_) => {
                        proof {
                            assert(false);
                        }
                        unreached()
                    },
                };
                let num = v0.neg();
                let sq = match v1.mul(&v1) {
                    Ok(t) => t,
                    Err(_) => {
                        proof {
                            assert(false);
                        }
                        unreached()
                    },
                };
                let q = match num.div(&sq) {
                    Ok(t) => t,
                    Err(_) => {
                        proof {
                            assert(false);
                        }
                        unreached()
                    },
                };
                let raw1 = match q.mul(gy) {
                    Ok(t) => t,
                    Err(_) => {
                        proof {
                            assert(false);
                        }
                        unreached()
                    },
                };
                if crate::tensor_ops::vecs_equal(v0.get_shape(), v1.get_shape()) {
                    let r = vec![raw0, raw1];
                    proof {
                        assert(r@[0]@ == gxs[0] && r@[1]@ == gxs[1]);
                    }
                    r
                } else {
                    let g0 = self.force_sum_to(&raw0, &v0);
                    let g1 = self.force_sum_to(&raw1, &v1);
                    let r = vec![g0, g1];
                    proof {
                        assert(r@[0]@ == gxs[0] && r@[1]@ == gxs[1]);
                    }
                    r
                }
            },
            OpKind::Neg => {
                let r = vec![gy.neg()];
                proof {
                    assert(r@[0]@ == gxs[0]);
                }
                r
            },
            OpKind::Powi(c) => {
                if c == 0 {
                    let r = vec![gy.map_un(crate::tensor_ops::UnOp::Scale(0))];
                    proof {
                        assert(r@[0]@ == gxs[0]);
                    }
                    r
                } else {
                    let p = v0.powi(c - 1);
                    let t = crate::tensor_ops::zip_op(BinOp::Mul, p.get_data(), gy.get_data());
                    let tm = match Tensor::new(t, v0.get_shape().clone()) {
                        Ok(t) => t,
                        Err(_) => {
                            proof {
                                assert(false);
                            }
                            unreached()
                        },
                    };
                    let r = vec![tm.map_un(crate::tensor_ops::UnOp::Scale(c as i64))];
                    proof {
                        assert(r@[0]@ =~~= gxs[0]);
                    }
                    r
                }
            },
            OpKind::Reshape => {
                let rt = match gy.reshape(v0.get_shape().clone()) {
                    Ok(t) => t,
                    Err(_) => {
                        proof {
                            assert(false);
                        }
                        unreached()
                    },
                };
                let r = vec![rt];
                proof {
                    assert(r@[0]@ == gxs[0]);
                }
                r
            },
            OpKind::Transpose => {
                let rt = match gy.transpose() {
                    Ok(t) => t,
                    Err(_) => {
                        proof {
                            assert(false);
                        }
                        unreached()
                    },
                };
                let r = vec![rt];
                proof {
                    if self@.nodes[i0 as int].value.shape.len() == 2 {
                        assert(gy@.shape.len() == 2);
                    }
                    assert(r@[0]@ == gxs[0]);
                }
                r
            },
            OpKind::Sum | OpKind::SumTo => {
                proof {
                    lemma_empty_expandable(
                        gy@.shape,
                        self@.nodes[i0 as int].value.shape,
                        kind,
                        self@,
                        j as int,
                    );
                }
                let target = v0.get_shape().clone();
                let _n = v0.size();
                let rt = match gy.broadcast_to(&target) {
                    Ok(t) => t,
                    Err(_) => {
                        proof {
                            assert(false);
                        }
                        unreached()
                    },
                };
                let r = vec![rt];
                proof {
                    assert(r@[0]@ == gxs[0]);
                }
                r
            },
            OpKind::BroadcastTo => {
                let target = v0.get_shape().clone();
                let _n = v0.size();
                let rt = match gy.sum_to(&target) {
                    Ok(t) => t,
                    Err(_) => {
                        proof {
                            assert(false);
                        }
                        unreached()
                    },
                };
                let r = vec![rt];
                proof {
                    assert(r@[0]@ == gxs[0]);
                }
                r
            },
            OpKind::Matmul => {
                let i1 = self.op_input(j, 1);
                proof {
                    assert(node_wf(self@, i1 as int));
                    assert(input_values(self@, self@.ops[j as int].inputs)[1]
                        == self@.nodes[i1 as int].value);
                }
                let v1 = self.get_array(i1);
                let (g0, g1) = self.matmul_grads(&v0, &v1, gy);
                let r = vec![g0, g1];
                proof {
                    assert(r@[0]@ == gxs[0] && r@[1]@ == gxs[1]);
                }
                r
            },
            OpKind::Linear => {
                let i1 = self.op_input(j, 1);
                proof {
                    assert(node_wf(self@, i1 as int));
                    assert(input_values(self@, self@.ops[j as int].inputs)[1]
                        == self@.nodes[i1 as int].value);
                }
                let v1 = self.get_array(i1);
                let (g0, g1) = self.matmul_grads(&v0, &v1, gy);
                if self.op_num_inputs(j) == 3 {
                    let i2 = self.op_input(j, 2);
                    proof {
                        assert(node_wf(self@, i2 as int));
                        assert(input_values(self@, self@.ops[j as int].inputs)[2]
                            == self@.nodes[i2 as int].value);
                    }
                    let v2 = self.get_array(i2);
                    let gb = self.force_sum_to(gy, &v2);
                    let r = vec![g0, g1, gb];
                    proof {
                        assert(r@[0]@ == gxs[0] && r@[1]@ == gxs[1] && r@[2]@ == gxs[2]);
                    }
                    r
                } else {
                    let r = vec![g0, g1];
                    proof {
                        assert(r@[0]@ == gxs[0] && r@[1]@ == gxs[1]);
                    }
                    r
                }
            },
            OpKind::Relu => {
                let t = crate::tensor_ops::zip_op(BinOp::Mask(0), v0.get_data(), gy.get_data());
                let rt = match Tensor::new(t, v0.get_shape().clone()) {
                    Ok(t) => t,
                    Err(_) => {
                        proof {
                            assert(false);
                        }
                        unreached()
                    },
                };
                let r = vec![rt];
                proof {
                    assert(r@[0]@ == gxs[0]);
                }
                r
            },
            OpKind::MeanSquaredError => {
                let i1 = self.op_input(j, 1);
                proof {
                    assert(node_wf(self@, i1 as int));
                    assert(input_values(self@, self@.ops[j as int].inputs)[1]
                        == self@.nodes[i1 as int].value);
                }
                let v1 = self.get_array(i1);
                let n = v0.size() as i64;
                let gy0 = gy.get_data()[0];
                let diff = crate::tensor_ops::zip_op(BinOp::Sub, v0.get_data(), v1.get_data());
                let t1 = crate::tensor_ops::map_op(crate::tensor_ops::UnOp::Scale(gy0), &diff);
                let t2 = crate::tensor_ops::map_op(crate::tensor_ops::UnOp::Scale(2), &t1);
                let t3 = crate::tensor_ops::map_op(crate::tensor_ops::UnOp::DivBy(n), &t2);
                let g0 = match Tensor::new(t3, v0.get_shape().clone()) {
                    Ok(t) => t,
                    Err(_) => {
                        proof {
                            assert(false);
                        }
                        unreached()
                    },
                };
                let g1 = g0.neg();
                let r = vec![g0, g1];
                proof {
                    assert(r@[0]@ =~~= gxs[0]);
                    assert(r@[1]@ =~~= gxs[1]);
                }
                r
            },
        }
    }

    /// The pair of operand gradients of a 2-D product `v0 . v1`.
    fn matmul_grads(&self, v0: &Tensor, v1: &Tensor, gy: &Tensor) -> (r: (Tensor, Tensor))
        requires
            v0.wf(),
            v1.wf(),
            gy.wf(),
            v0@.shape.len() == 2,
            v1@.shape.len() == 2,
            v0@.shape[1] == v1@.shape[0],
            gy@.shape == seq![v0@.shape[0], v1@.shape[1]],
            v0@.data.len() <= usize::MAX,
            v1@.data.len() <= usize::MAX,
        ensures
            r.0.wf(),
            r.1.wf(),
            r.0@ == mm2d_t(gy@, transpose_t(v1@)),
            r.1@ == mm2d_t(transpose_t(v0@), gy@),
    {
        proof {
            crate::shape::lemma_product_pair(v0@.shape[0], v0@.shape[1]);
            crate::shape::lemma_product_pair(v1@.shape[0], v1@.shape[1]);
        }
        let t1 = match v1.transpose() {
            Ok(t) => t,
            Err(_) => {
                proof {
                    assert(false);
                }
                unreached()
            },
        };
        let t0 = match v0.transpose() {
            Ok(t) => t,
            Err(_) => {
                proof {
                    assert(false);
                }
                unreached()
            },
        };
        proof {
            assert(t1@.shape =~= seq![v1@.shape[1], v1@.shape[0]]);
            assert(t0@.shape =~= seq![v0@.shape[1], v0@.shape[0]]);
            assert(gy@.shape[1] == v1@.shape[1] && gy@.shape[0] == v0@.shape[0]);
            assert(v0@.shape =~= seq![v0@.shape[0], v0@.shape[1]]);
            assert(v1@.shape =~= seq![v1@.shape[0], v1@.shape[1]]);
            assert(v0@.shape[0] * v0@.shape[1] <= usize::MAX);
            assert(v1@.shape[0] * v1@.shape[1] <= usize::MAX);
        }
        let g0 = crate::ops::mm2d_tensor(gy, &t1);
        let g1 = crate::ops::mm2d_tensor(&t0, gy);
        (g0, g1)
    }

    /// Reduce `t` to the shape of `like`; callers prove the shapes fit.
    fn force_sum_to(&self, t: &Tensor, like: &Tensor) -> (r: Tensor)
        requires
            t.wf(),
            like.wf(),
            expandable(like@.shape, t@.shape),
            product(like@.shape) <= usize::MAX,
        ensures
            r.wf(),
            r@ == sum_to_t(t@, like@.shape),
    {
        let target = like.get_shape().clone();
        match t.sum_to(&target) {
            Ok(r) => r,
            Err(_) => {
                proof {
                    assert(false);
                }
                unreached()
            },
        }
    }

}

/// For a broadcast binary operation, both operand shapes reduce from the
/// output shape, and both operand sizes fit a machine word.
proof fn lemma_bin_sum_to_ok(g: GraphModel, j: int, gy: TensorModel)
    requires
        graph_wf(g),
        0 <= j < g.ops.len(),
        g.ops[j].kind == OpKind::Add || g.ops[j].kind == OpKind::Sub || g.ops[j].kind
            == OpKind::Mul || g.ops[j].kind == OpKind::Div,
        gy.wf(),
        gy.shape == g.nodes[g.ops[j].output as int].value.shape,
    ensures
        ({
            let v0 = g.nodes[g.ops[j].inputs[0] as int].value;
            let v1 = g.nodes[g.ops[j].inputs[1] as int].value;
            &&& expandable(v0.shape, gy.shape)
            &&& expandable(v1.shape, gy.shape)
            &&& product(v0.shape) <= usize::MAX
            &&& product(v1.shape) <= usize::MAX
            &&& crate::shape::bcast_ok(v1.shape, gy.shape)
            &&& crate::shape::bcast_shape(v1.shape, gy.shape) == gy.shape
            &&& crate::shape::bcast_ok(v0.shape, gy.shape)
            &&& crate::shape::bcast_shape(v0.shape, gy.shape) == gy.shape
            &&& crate::shape::bcast_ok(gy.shape, v1.shape)
            &&& crate::shape::bcast_shape(gy.shape, v1.shape) == gy.shape
            &&& crate::shape::bcast_ok(v1.shape, v1.shape)
            &&& crate::shape::bcast_shape(v1.shape, v1.shape) == v1.shape
            &&& crate::shape::bcast_ok(gy.shape, gy.shape)
            &&& crate::shape::bcast_shape(gy.shape, gy.shape) == gy.shape
            &&& product(gy.shape) <= usize::MAX
        }),
{
    let op = g.ops[j];
    assert(op_wf(g, j));
    assert(node_wf(g, op.inputs[0] as int));
    assert(node_wf(g, op.inputs[1] as int));
    assert(node_wf(g, op.output as int));
    let v0 = g.nodes[op.inputs[0] as int].value;
    let v1 = g.nodes[op.inputs[1] as int].value;
    assert(input_values(g, op.inputs)[0] == v0);
    assert(input_values(g, op.inputs)[1] == v1);
    crate::shape::lemma_bcast_expandable(v0.shape, v1.shape);
    crate::shape::lemma_bcast_absorb(gy.shape, v0.shape);
    crate::shape::lemma_bcast_symmetric(gy.shape, v0.shape);
    crate::shape::lemma_bcast_absorb(gy.shape, v1.shape);
    crate::shape::lemma_bcast_symmetric(gy.shape, v1.shape);
    crate::shape::lemma_bcast_self(v1.shape);
    crate::shape::lemma_bcast_self(gy.shape);
}


/// The position in `pending` of the first operation with the largest
/// generation: the scan state is the best position so far and the next
/// position to look at.
pub open spec fn pick_from(g: GraphModel, pending: Seq<usize>, best: int, k: int) -> int
    decreases pending.len() - k,
{
    if k < 0 || k >= pending.len() {
        best
    } else if g.ops[pending[k] as int].generation > g.ops[pending[best] as int].generation {
        pick_from(g, pending, k, k + 1)
    } else {
        pick_from(g, pending, best, k + 1)
    }
}

/// The position in `pending` of the operation the engine processes next.
pub open spec fn pick(g: GraphModel, pending: Seq<usize>) -> int {
    pick_from(g, pending, 0, 1)
}

pub proof fn lemma_pick_from_range(g: GraphModel, pending: Seq<usize>, best: int, k: int)
    requires
        0 <= best < pending.len(),
    ensures
        0 <= pick_from(g, pending, best, k) < pending.len(),
    decreases pending.len() - k,
{
    if 0 <= k < pending.len() {
        if g.ops[pending[k] as int].generation > g.ops[pending[best] as int].generation {
            lemma_pick_from_range(g, pending, k, k + 1);
        } else {
            lemma_pick_from_range(g, pending, best, k + 1);
        }
    }
}

/// How many operations are still unseen.
pub open spec fn count_unseen(seen: Seq<bool>) -> int
    decreases seen.len(),
{
    if seen.len() == 0 {
        0
    } else {
        (if seen[0] {
            0int
        } else {
            1int
        }) + count_unseen(seen.skip(1))
    }
}

pub proof fn lemma_count_unseen_nonneg(seen: Seq<bool>)
    ensures
        count_unseen(seen) >= 0,
    decreases seen.len(),
{
    if seen.len() > 0 {
        lemma_count_unseen_nonneg(seen.skip(1));
    }
}

pub proof fn lemma_count_unseen_update(seen: Seq<bool>, c: int)
    requires
        0 <= c < seen.len(),
        !seen[c],
    ensures
        count_unseen(seen.update(c, true)) == count_unseen(seen) - 1,
    decreases seen.len(),
{
    if c == 0 {
        assert(seen.update(0, true).skip(1) =~= seen.skip(1));
    } else {
        assert(seen.update(c, true).skip(1) =~= seen.skip(1).update(c - 1, true));
        assert(seen.update(c, true)[0] == seen[0]);
        lemma_count_unseen_update(seen.skip(1), c - 1);
    }
}

/// A gradient contribution lands on a node: added elementwise into an
/// existing gradient, or installed as the first one.
pub open spec fn acc_grad(n: NodeModel, gx: TensorModel) -> NodeModel {
    match n.grad {
        Some(g0) => NodeModel {
            grad: Some(
                TensorModel { data: ew_bin(BinOp::Add, g0.data, gx.data), shape: g0.shape },
            ),
            ..n
        },
        None => NodeModel { grad: Some(gx), ..n },
    }
}

/// Deliver the gradients `gxs` to `inputs`, in order; each input whose
/// creator has not been seen yet puts that creator on the queue.
pub open spec fn apply_inputs(
    g: GraphModel,
    inputs: Seq<usize>,
    gxs: Seq<TensorModel>,
    pending: Seq<usize>,
    seen: Seq<bool>,
) -> (GraphModel, Seq<usize>, Seq<bool>)
    decreases inputs.len(),
{
    if inputs.len() == 0 {
        (g, pending, seen)
    } else {
        let x = inputs[0] as int;
        let g1 = GraphModel { nodes: g.nodes.update(x, acc_grad(g.nodes[x], gxs[0])), ..g };
        let push = match g1.nodes[x].creator {
            Some(c) => 0 <= c < seen.len() && !seen[c as int],
            None => false,
        };
        let c = g1.nodes[x].creator.unwrap();
        let p1 = if push {
            pending.push(c)
        } else {
            pending
        };
        let s1 = if push {
            seen.update(c as int, true)
        } else {
            seen
        };
        apply_inputs(g1, inputs.skip(1), gxs.skip(1), p1, s1)
    }
}

proof fn lemma_apply_inputs_measure(
    g: GraphModel,
    inputs: Seq<usize>,
    gxs: Seq<TensorModel>,
    pending: Seq<usize>,
    seen: Seq<bool>,
)
    ensures
        count_unseen(apply_inputs(g, inputs, gxs, pending, seen).2) <= count_unseen(seen),
        count_unseen(apply_inputs(g, inputs, gxs, pending, seen).2) + apply_inputs(
            g,
            inputs,
            gxs,
            pending,
            seen,
        ).1.len() <= count_unseen(seen) + pending.len(),
        apply_inputs(g, inputs, gxs, pending, seen).2.len() == seen.len(),
    decreases inputs.len(),
{
    if inputs.len() > 0 {
        let x = inputs[0] as int;
        let g1 = GraphModel { nodes: g.nodes.update(x, acc_grad(g.nodes[x], gxs[0])), ..g };
        let push = match g1.nodes[x].creator {
            Some(c) => 0 <= c < seen.len() && !seen[c as int],
            None => false,
        };
        let c = g1.nodes[x].creator.unwrap();
        if push {
            lemma_count_unseen_update(seen, c as int);
            lemma_apply_inputs_measure(
                g1,
                inputs.skip(1),
                gxs.skip(1),
                pending.push(c),
                seen.update(c as int, true),
            );
        } else {
            lemma_apply_inputs_measure(g1, inputs.skip(1), gxs.skip(1), pending, seen);
        }
    }
}

/// What holds of the queue between steps of a backward pass: every pending
/// entry names a distinct, already-seen operation whose output carries a
/// gradient.
pub open spec fn bw_inv(g: GraphModel, pending: Seq<usize>, seen: Seq<bool>) -> bool {
    &&& graph_wf(g)
    &&& seen.len() == g.ops.len()
    &&& forall|k: int| 0 <= k < pending.len() ==> (#[trigger] pending[k] as int) < g.ops.len()
    &&& forall|k: int| 0 <= k < pending.len() ==> seen[#[trigger] pending[k] as int]
    &&& forall|k1: int, k2: int|
        0 <= k1 < k2 < pending.len() ==> pending[k1] != pending[k2]
    &&& forall|k: int|
        0 <= k < pending.len() ==> g.nodes[g.ops[#[trigger] pending[k] as int].output as int].grad
            is Some
}

/// Discard the output gradient of a processed operation.
pub open spec fn clear_out_grad(g: GraphModel, out: int) -> GraphModel {
    GraphModel { nodes: g.nodes.update(out, NodeModel { grad: None, ..g.nodes[out] }), ..g }
}

/// The whole backward pass: repeatedly pop the pending operation with the
/// largest generation, deliver its input gradients, enqueue newly reached
/// creators, and (unless gradients are retained) drop the output gradient
/// that is no longer needed.
pub open spec fn bw_run(
    g: GraphModel,
    pending: Seq<usize>,
    seen: Seq<bool>,
    retain: bool,
) -> GraphModel
    decreases count_unseen(seen), pending.len(),
    via bw_run_decreases
{
    if pending.len() == 0 {
        g
    } else {
        let k = pick(g, pending);
        let opi = pending[k] as int;
        let op = g.ops[opi];
        let gy = g.nodes[op.output as int].grad.unwrap();
        let st = apply_inputs(g, op.inputs, op_backward(g, op, gy), pending.remove(k), seen);
        let g2 = if retain {
            st.0
        } else {
            clear_out_grad(st.0, op.output as int)
        };
        bw_run(g2, st.1, st.2, retain)
    }
}

#[via_fn]
proof fn bw_run_decreases(g: GraphModel, pending: Seq<usize>, seen: Seq<bool>, retain: bool) {
    lemma_count_unseen_nonneg(seen);
    if pending.len() > 0 {
        lemma_pick_from_range(g, pending, 0, 1);
        let k = pick(g, pending);
        let opi = pending[k] as int;
        let op = g.ops[opi];
        let gy = g.nodes[op.output as int].grad.unwrap();
        lemma_apply_inputs_measure(
            g,
            op.inputs,
            op_backward(g, op, gy),
            pending.remove(k),
            seen,
        );
        let st = apply_inputs(g, op.inputs, op_backward(g, op, gy), pending.remove(k), seen);
        lemma_count_unseen_nonneg(st.2);
    }
}

/// The terminal node's gradient before the walk starts: kept if one is
/// already set, and seeded with ones otherwise.
pub open spec fn seeded(g: GraphModel, y: int) -> GraphModel {
    if g.nodes[y].grad is Some {
        g
    } else {
        GraphModel {
            nodes: g.nodes.update(
                y,
                NodeModel {
                    grad: Some(TensorModel::filled(g.nodes[y].value.shape, 1)),
                    ..g.nodes[y]
                },
            ),
            ..g
        }
    }
}

/// The visited set at the start of a pass: only the terminal's creator.
pub open spec fn init_seen(n: nat, c: int) -> Seq<bool> {
    Seq::new(n, |i: int| i == c)
}

/// Node values, creators, generations and the operation table never change
/// during a backward pass; only gradients do.
pub open spec fn statics_eq(a: GraphModel, b: GraphModel) -> bool {
    &&& b.ops == a.ops
    &&& b.recording == a.recording
    &&& b.nodes.len() == a.nodes.len()
    &&& forall|i: int|
        0 <= i < a.nodes.len() ==> (#[trigger] b.nodes[i]).value == a.nodes[i].value
            && b.nodes[i].creator == a.nodes[i].creator && b.nodes[i].generation
            == a.nodes[i].generation
}

impl Graph {
    /// Propagate the gradient of node `y` backwards through every operation
    /// reachable from it, in decreasing generation order, accumulating into
    /// each upstream node; output gradients of processed operations are
    /// dropped unless `retain_grad` asks to keep them.  Fails, touching
    /// nothing, when `y` records no creator (a leaf, or a value produced
    /// while recording was off).
    pub fn backward_with_option(&mut self, y: usize, retain_grad: bool) -> (r: Result<
        (),
        Error,
    >)
        requires
            old(self).wf(),
            y < old(self)@.nodes.len(),
        ensures
            final(self).wf(),
            r is Ok <==> old(self)@.nodes[y as int].creator is Some,
            r is Err ==> r == Result::<(), Error>::Err(Error::GraphStateError) && final(self)@
                == old(self)@,
            r is Ok ==> final(self)@ == bw_run(
                seeded(old(self)@, y as int),
                seq![old(self)@.nodes[y as int].creator.unwrap()],
                init_seen(
                    old(self)@.ops.len(),
                    old(self)@.nodes[y as int].creator.unwrap() as int,
                ),
                retain_grad,
            ),
    {
        let ghost om = old(self)@;
        let c = match self.get_creator(y) {
            None => {
                return Err(Error::GraphStateError);
            },
            Some(c) => c,
        };
        proof {
            assert(node_wf(om, y as int));
        }
        if self.get_option_grad(y).is_none() {
            let shape = self.get_shape(y);
            proof {
                crate::shape::lemma_product_nonneg(om.nodes[y as int].value.shape);
            }
            let ones = match Tensor::fill(shape, 1) {
                Ok(t) => t,
                Err(_) => {
                    proof {
                        assert(false);
                    }
                    unreached()
                },
            };
            match self.set_grad(y, ones) {
                Ok(()) => (),
                Err(_) => {
                    proof {
                        assert(false);
                    }
                    unreached()
                },
            }
        }
        proof {
            assert(self@.nodes =~= seeded(om, y as int).nodes);
            assert(self@ == seeded(om, y as int));
        }
        let ghost g0 = self@;
        let nops = self.num_ops();
        let mut pending: Vec<usize> = vec![c];
        let mut seen: Vec<bool> = Vec::new();
        let mut i: usize = 0;
        while i < nops
            invariant
                i <= nops,
                seen@.len() == i,
                forall|q: int| 0 <= q < i ==> !(#[trigger] seen@[q]),
            decreases nops - i,
        {
            seen.push(false);
            i = i + 1;
        }
        seen.set(c, true);
        proof {
            assert(seen@ =~= init_seen(om.ops.len(), c as int));
            assert(pending@ =~= seq![c]);
            assert(op_wf(g0, c as int));
            assert(g0.nodes[g0.ops[c as int].output as int].grad is Some);
            assert(bw_inv(g0, pending@, seen@));
        }
        let ghost target = bw_run(g0, pending@, seen@, retain_grad);
        while pending.len() > 0
            invariant
                self.wf(),
                bw_inv(self@, pending@, seen@),
                bw_run(self@, pending@, seen@, retain_grad) == target,
            decreases count_unseen(seen@), pending@.len(),
        {
            let ghost pre = self@;
            let ghost pend0 = pending@;
            let ghost seen0 = seen@;
            proof {
                lemma_pick_from_range(pre, pend0, 0, 1);
                lemma_count_unseen_nonneg(seen0);
            }
            // select the pending operation with the largest generation
            let mut best: usize = 0;
            let mut k: usize = 1;
            while k < pending.len()
                invariant
                    pending@ == pend0,
                    seen@ == seen0,
                    self@ == pre,
                    bw_inv(pre, pend0, seen0),
                    pend0.len() > 0,
                    (best as int) < pend0.len(),
                    k >= 1,
                    pick_from(pre, pend0, best as int, k as int) == pick(pre, pend0),
                decreases pend0.len() - k,
            {
                let gb = self.op_generation(pending[best]);
                let gk = self.op_generation(pending[k]);
                if gk > gb {
                    best = k;
                }
                k = k + 1;
            }
            proof {
                assert(pick_from(pre, pend0, best as int, k as int) == best as int);
                assert(best as int == pick(pre, pend0));
            }
            let opi = pending.remove(best);
            proof {
                assert(opi == pend0[pick(pre, pend0)]);
                assert(pending@ == pend0.remove(pick(pre, pend0)));
                assert(op_wf(pre, opi as int));
            }
            let out = self.op_output(opi);
            proof {
                assert(node_wf(pre, out as int));
            }
            let gy = match self.get_option_grad(out) {
                Some(t) => t,
                None => {
                    proof {
                        assert(pre.nodes[pre.ops[opi as int].output as int].grad is Some);
                        assert(false);
                    }
                    unreached()
                },
            };
            let gxs = self.op_backward_exec(opi, &gy);
            proof {
                lemma_op_backward_wf(pre, opi as int, gy@);
            }
            let ghost gxs_spec = op_backward(pre, pre.ops[opi as int], gy@);
            let ghost p_e = pending@;
            let ghost s_e = seen@;
            let ninp = self.op_num_inputs(opi);
            let mut k2: usize = 0;
            proof {
                assert(pre.ops[opi as int].inputs.skip(0) =~= pre.ops[opi as int].inputs);
                assert(gxs_spec.skip(0) =~= gxs_spec);
            }
            while k2 < ninp
                invariant
                    k2 <= ninp,
                    (opi as int) < pre.ops.len(),
                    ninp == pre.ops[opi as int].inputs.len(),
                    op_wf(pre, opi as int),
                    statics_eq(pre, self@),
                    self.wf(),
                    bw_inv(self@, pending@, seen@),
                    gxs@.len() == ninp,
                    gxs_spec.len() == ninp,
                    forall|q: int|
                        0 <= q < ninp ==> (#[trigger] gxs@[q])@ == gxs_spec[q] && gxs_spec[q].wf()
                            && gxs_spec[q].shape == pre.nodes[pre.ops[opi as int].inputs[q] as int].value.shape,
                    apply_inputs(
                        self@,
                        pre.ops[opi as int].inputs.skip(k2 as int),
                        gxs_spec.skip(k2 as int),
                        pending@,
                        seen@,
                    ) == apply_inputs(pre, pre.ops[opi as int].inputs, gxs_spec, p_e, s_e),
                    seen@[opi as int],
                    forall|q: int| 0 <= q < pending@.len() ==> (#[trigger] pending@[q]) != opi,
                decreases ninp - k2,
            {
                let ghost gcur = self@;
                let ghost pcur = pending@;
                let ghost scur = seen@;
                let x = self.op_input(opi, k2);
                proof {
                    assert(pre.ops[opi as int].inputs.skip(k2 as int)[0] == pre.ops[opi as int].inputs[k2 as int]);
                    assert((x as int) < pre.ops[opi as int].output as int);
                    assert((x as int) < pre.nodes.len());
                    assert(node_wf(gcur, x as int));
                    assert(gcur.nodes[x as int].value.shape == pre.nodes[x as int].value.shape);
                }
                let gx = &gxs[k2];
                let newg = match self.get_option_grad(x) {
                    Some(old_g) => {
                        let summed = crate::tensor_ops::zip_op(
                            BinOp::Add,
                            old_g.get_data(),
                            gx.get_data(),
                        );
                        match Tensor::new(summed, old_g.get_shape().clone()) {
                            Ok(t) => t,
                            Err(_) => {
                                proof {
                                    assert(false);
                                }
                                unreached()
                            },
                        }
                    },
                    None => gx.clone(),
                };
                proof {
                    assert(newg@ == acc_grad(gcur.nodes[x as int], gxs_spec[k2 as int]).grad.unwrap());
                }
                match self.set_grad(x, newg) {
                    Ok(()) => (),
                    Err(_) => {
                        proof {
                            assert(false);
                        }
                        unreached()
                    },
                }
                let ghost g1 = self@;
                proof {
                    assert(g1.nodes =~= gcur.nodes.update(
                        x as int,
                        acc_grad(gcur.nodes[x as int], gxs_spec[k2 as int]),
                    ));
                    assert(g1 == (GraphModel {
                        nodes: gcur.nodes.update(
                            x as int,
                            acc_grad(gcur.nodes[x as int], gxs_spec[k2 as int]),
                        ),
                        ..gcur
                    }));
                }
                match self.get_creator(x) {
                    Some(cc) => {
                        proof {
                            assert(node_wf(g1, x as int));
                        }
                        if !seen[cc] {
                            seen.set(cc, true);
                            pending.push(cc);
                        }
                    },
                    None => (),
                }
                proof {
                    let in_rest = pre.ops[opi as int].inputs.skip(k2 as int);
                    let gx_rest = gxs_spec.skip(k2 as int);
                    assert(in_rest.skip(1) =~= pre.ops[opi as int].inputs.skip(k2 as int + 1));
                    assert(gx_rest.skip(1) =~= gxs_spec.skip(k2 as int + 1));
                    assert(in_rest[0] == pre.ops[opi as int].inputs[k2 as int]);
                    assert(gx_rest[0] == gxs_spec[k2 as int]);
                    // the exec step taken above is exactly one unfolding of apply_inputs
                    let push = match g1.nodes[x as int].creator {
                        Some(c) => 0 <= c < scur.len() && !scur[c as int],
                        None => false,
                    };
                    assert(seen@ == (if push {
                        scur.update(g1.nodes[x as int].creator.unwrap() as int, true)
                    } else {
                        scur
                    }));
                    assert(pending@ == (if push {
                        pcur.push(g1.nodes[x as int].creator.unwrap())
                    } else {
                        pcur
                    }));
                    assert(apply_inputs(gcur, in_rest, gx_rest, pcur, scur) == apply_inputs(
                        g1,
                        in_rest.skip(1),
                        gx_rest.skip(1),
                        pending@,
                        seen@,
                    ));
                    // the queue invariant survives the step
                    assert(statics_eq(pre, self@));
                    assert forall|q: int|
                        0 <= q < pending@.len() implies (#[trigger] pending@[q] as int)
                        < self@.ops.len() && seen@[pending@[q] as int]
                        && self@.nodes[self@.ops[pending@[q] as int].output as int].grad is Some
                        && pending@[q] != opi by {
                        if q < pcur.len() {
                            assert(pcur[q] == pending@[q]);
                            assert(op_wf(gcur, pcur[q] as int));
                            let outq = gcur.ops[pcur[q] as int].output as int;
                            if outq == x as int {
                                assert(self@.nodes[outq].grad is Some);
                            } else {
                                assert(self@.nodes[outq].grad == gcur.nodes[outq].grad);
                            }
                        } else {
                            let cc = self@.nodes[x as int].creator.unwrap();
                            assert(pending@[q] == cc);
                            assert(node_wf(g1, x as int));
                            assert(self@.ops[cc as int].output == x);
                        }
                    }
                    assert forall|q1: int, q2: int|
                        0 <= q1 < q2 < pending@.len() implies pending@[q1] != pending@[q2] by {
                        if q2 == pcur.len() {
                            assert(seen@ == scur || pending@[q2] == self@.nodes[x as int].creator.unwrap());
                            if pending@.len() > pcur.len() {
                                assert(!scur[pending@[q2] as int]);
                                assert(scur[pcur[q1] as int]);
                            }
                        }
                    }
                    assert(bw_inv(self@, pending@, seen@));
                }
                k2 = k2 + 1;
            }
            proof {
                assert(pre.ops[opi as int].inputs.skip(ninp as int) =~= Seq::<usize>::empty());
                assert(gxs_spec.skip(ninp as int) =~= Seq::<TensorModel>::empty());
            }
            let ghost st = apply_inputs(pre, pre.ops[opi as int].inputs, gxs_spec, p_e, s_e);
            proof {
                assert(st.0 == self@ && st.1 == pending@ && st.2 == seen@);
            }
            if !retain_grad {
                let ghost before_clear = self@;
                self.clear_grad(out);
                proof {
                    assert(self@.nodes =~= clear_out_grad(before_clear, out as int).nodes);
                    assert(self@ == clear_out_grad(before_clear, out as int));
                }
            }
            proof {
                // one unfolding of bw_run at the state this iteration started from
                assert(bw_run(pre, pend0, seen0, retain_grad) == bw_run(
                    self@,
                    pending@,
                    seen@,
                    retain_grad,
                ));
                // the queue invariant survives the optional clearing
                if !retain_grad {
                    let bc = st.0;
                    assert forall|q: int|
                        0 <= q < pending@.len() implies self@.nodes[self@.ops[
                        #[trigger] pending@[q] as int].output as int].grad is Some by {
                        assert(op_wf(self@, pending@[q] as int));
                        if self@.ops[pending@[q] as int].output == out {
                            assert(self@.nodes[out as int].creator == Some(pending@[q]));
                            assert(self@.nodes[out as int].creator == Some(opi));
                            assert(false);
                        }
                    }
                    crate::graph::lemma_update_grad_wf(bc, self@, out as int);
                }
                assert(bw_inv(self@, pending@, seen@));
                // and the loop measure shrinks
                lemma_apply_inputs_measure(
                    pre,
                    pre.ops[opi as int].inputs,
                    gxs_spec,
                    p_e,
                    s_e,
                );
                lemma_count_unseen_nonneg(seen@);
            }
        }
        proof {
            assert(bw_run(self@, pending@, seen@, retain_grad) == self@);
        }
        Ok(())
    }

    /// `backward_with_option` with the default: intermediate output
    /// gradients are dropped once used.
    pub fn backward(&mut self, y: usize) -> (r: Result<(), Error>)
        requires
            old(self).wf(),
            y < old(self)@.nodes.len(),
        ensures
            final(self).wf(),
            r is Ok <==> old(self)@.nodes[y as int].creator is Some,
            r is Err ==> r == Result::<(), Error>::Err(Error::GraphStateError) && final(self)@
                == old(self)@,
            r is Ok ==> final(self)@ == bw_run(
                seeded(old(self)@, y as int),
                seq![old(self)@.nodes[y as int].creator.unwrap()],
                init_seen(
                    old(self)@.ops.len(),
                    old(self)@.nodes[y as int].creator.unwrap() as int,
                ),
                false,
            ),
    {
        self.backward_with_option(y, false)
    }
}


} // verus!
