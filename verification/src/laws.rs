//! The gradient laws of the engine, proved once and for all against the
//! backward pass `bw_run` that `Graph::backward` is specified by: what one
//! multiplication, a reused operand, a fan-in of two additions, and a
//! reshape send back to their inputs.

use vstd::prelude::*;

use crate::engine::{
    acc_grad, apply_inputs, bw_run, clear_out_grad, init_seen, op_backward, pick_from, seeded,
};
use crate::graph::{graph_wf, node_wf, op_wf, GraphModel, OpKind};
use crate::scalar::{wadd, wmul};
use crate::shape::{expandable, product};
use crate::tensor::TensorModel;
use crate::tensor_ops::BinOp;

verus! {

/// Delivering gradients to nodes without creators moves nothing onto the
/// queue, and never touches values, creators or other nodes' gradients.
proof fn lemma_apply_inputs_no_push(
    g: GraphModel,
    inputs: Seq<usize>,
    gxs: Seq<TensorModel>,
    pending: Seq<usize>,
    seen: Seq<bool>,
)
    requires
        forall|k: int|
            0 <= k < inputs.len() ==> (#[trigger] inputs[k] as int) < g.nodes.len()
                && g.nodes[inputs[k] as int].creator is None,
    ensures
        apply_inputs(g, inputs, gxs, pending, seen).1 == pending,
        apply_inputs(g, inputs, gxs, pending, seen).2 == seen,
        apply_inputs(g, inputs, gxs, pending, seen).0.ops == g.ops,
        apply_inputs(g, inputs, gxs, pending, seen).0.recording == g.recording,
        apply_inputs(g, inputs, gxs, pending, seen).0.nodes.len() == g.nodes.len(),
        forall|i: int|
            0 <= i < g.nodes.len() ==> (#[trigger] apply_inputs(
                g,
                inputs,
                gxs,
                pending,
                seen,
            ).0.nodes[i]).creator == g.nodes[i].creator && apply_inputs(
                g,
                inputs,
                gxs,
                pending,
                seen,
            ).0.nodes[i].value == g.nodes[i].value,
    decreases inputs.len(),
{
    if inputs.len() > 0 {
        let x = inputs[0] as int;
        let g1 = GraphModel { nodes: g.nodes.update(x, acc_grad(g.nodes[x], gxs[0])), ..g };
        assert forall|k: int|
            0 <= k < inputs.skip(1).len() implies (#[trigger] inputs.skip(1)[k] as int)
            < g1.nodes.len() && g1.nodes[inputs.skip(1)[k] as int].creator is None by {
            assert(inputs.skip(1)[k] == inputs[k + 1]);
        }
        lemma_apply_inputs_no_push(g1, inputs.skip(1), gxs.skip(1), pending, seen);
    }
}

/// A backward pass through a single operation whose inputs are all leaves:
/// it delivers the operation's input gradients once and, by default, clears
/// the seed at the output.
proof fn lemma_single_op_run(g: GraphModel, j: usize, retain: bool)
    requires
        graph_wf(g),
        (j as int) < g.ops.len(),
        g.nodes[g.ops[j as int].output as int].grad is None,
        forall|k: int|
            0 <= k < g.ops[j as int].inputs.len() ==> g.nodes[(#[trigger] g.ops[j as int].inputs[k]) as int].creator is None,
    ensures
        ({
            let out = g.ops[j as int].output as int;
            let g0 = seeded(g, out);
            let gy = TensorModel::filled(g.nodes[out].value.shape, 1);
            let st = apply_inputs(
                g0,
                g.ops[j as int].inputs,
                op_backward(g0, g0.ops[j as int], gy),
                Seq::empty(),
                init_seen(g.ops.len(), j as int),
            );
            bw_run(g0, seq![j], init_seen(g.ops.len(), j as int), retain) == (if retain {
                st.0
            } else {
                clear_out_grad(st.0, out)
            })
        }),
{
    assert(op_wf(g, j as int));
    let out = g.ops[j as int].output as int;
    assert(node_wf(g, out));
    let g0 = seeded(g, out);
    let seen = init_seen(g.ops.len(), j as int);
    let pending = seq![j];
    assert(pick_from(g0, pending, 0, 1) == 0);
    let gy = TensorModel::filled(g.nodes[out].value.shape, 1);
    assert(g0.nodes[out].grad == Some(gy));
    assert(pending.remove(0) =~= Seq::<usize>::empty());
    assert(g0.ops == g.ops);
    let st = apply_inputs(
        g0,
        g.ops[j as int].inputs,
        op_backward(g0, g0.ops[j as int], gy),
        Seq::empty(),
        seen,
    );
    assert forall|k: int|
        0 <= k < g.ops[j as int].inputs.len() implies ((#[trigger] g.ops[j as int].inputs[k]) as int)
        < g0.nodes.len() && g0.nodes[g.ops[j as int].inputs[k] as int].creator is None by {
        assert((g.ops[j as int].inputs[k] as int) < out);
    }
    lemma_apply_inputs_no_push(
        g0,
        g.ops[j as int].inputs,
        op_backward(g0, g0.ops[j as int], gy),
        Seq::empty(),
        seen,
    );
    assert(st.1.len() == 0);
    let g2 = if retain {
        st.0
    } else {
        clear_out_grad(st.0, out)
    };
    assert(bw_run(g2, st.1, st.2, retain) == g2);
}

/// Backward through `y = x * x` on a tracked scalar: the gradient of `x`
/// becomes `x + x` (that is, `2 x` whenever doubling does not wrap), and the
/// seed at `y` is dropped again.
pub proof fn lemma_square_grad(g: GraphModel, x: usize, y: usize, j: usize)
    requires
        graph_wf(g),
        (j as int) < g.ops.len(),
        g.ops[j as int].kind == OpKind::Mul,
        g.ops[j as int].inputs == seq![x, x],
        g.ops[j as int].output == y,
        g.nodes[x as int].value.shape == Seq::<usize>::empty(),
        g.nodes[x as int].creator is None,
        g.nodes[x as int].grad is None,
        g.nodes[y as int].grad is None,
    ensures
        ({
            let r = bw_run(seeded(g, y as int), seq![j], init_seen(g.ops.len(), j as int), false);
            let v = g.nodes[x as int].value.data[0];
            &&& r.nodes[x as int].grad == Some(
                TensorModel { data: seq![wadd(v, v)], shape: Seq::<usize>::empty() },
            )
            &&& (i64::MIN <= 2 * v <= i64::MAX ==> r.nodes[x as int].grad == Some(
                TensorModel { data: seq![(2 * v) as i64], shape: Seq::<usize>::empty() },
            ))
            &&& r.nodes[y as int].grad is None
        }),
{
    assert(op_wf(g, j as int));
    assert(node_wf(g, x as int));
    assert(node_wf(g, y as int));
    assert(crate::graph::input_values(g, g.ops[j as int].inputs)[0] == g.nodes[x as int].value);
    lemma_single_op_run(g, j, false);
    let g0 = seeded(g, y as int);
    let ys = g.nodes[y as int].value.shape;
    let gy = TensorModel::filled(ys, 1);
    crate::shape::lemma_bcast_self(Seq::<usize>::empty());
    assert(ys =~= Seq::<usize>::empty());
    assert(product(ys) == 1);
    assert(gy.data =~= seq![1i64]);
    let v = g.nodes[x as int].value.data[0];
    let vx = g0.nodes[x as int].value;
    assert(vx == g.nodes[x as int].value);
    assert(vx.data =~= seq![v]);
    let gxs = op_backward(g0, g0.ops[j as int], gy);
    let raw = crate::arith::ew_bcast(BinOp::Mul, vx, gy);
    assert(crate::shape::bcast_shape(vx.shape, gy.shape) =~= Seq::<usize>::empty());
    assert(crate::broadcast::bcast_data(vx.data, vx.shape, Seq::<usize>::empty()) == vx.data);
    assert(crate::broadcast::bcast_data(gy.data, gy.shape, Seq::<usize>::empty()) == gy.data);
    assert(raw.data =~= seq![wmul(v, 1)]);
    crate::scalar::lemma_wmul_one(v);
    assert(raw.data =~= seq![v]);
    assert(gxs =~= seq![raw, raw]);
    // deliver the two contributions to the same node
    let seen = init_seen(g.ops.len(), j as int);
    let st = apply_inputs(g0, seq![x, x], gxs, Seq::empty(), seen);
    let n0 = g0.nodes[x as int];
    let g1 = GraphModel { nodes: g0.nodes.update(x as int, acc_grad(n0, raw)), ..g0 };
    assert(seq![x, x].skip(1) =~= seq![x]);
    assert(gxs.skip(1) =~= seq![raw]);
    assert(acc_grad(n0, raw).grad == Some(raw));
    assert(st == apply_inputs(g1, seq![x], seq![raw], Seq::empty(), seen));
    let n1 = g1.nodes[x as int];
    let g2 = GraphModel { nodes: g1.nodes.update(x as int, acc_grad(n1, raw)), ..g1 };
    assert(seq![x].skip(1) =~= Seq::<usize>::empty());
    assert(seq![raw].skip(1) =~= Seq::<TensorModel>::empty());
    assert(apply_inputs(g1, seq![x], seq![raw], Seq::empty(), seen) == apply_inputs(
        g2,
        Seq::<usize>::empty(),
        Seq::<TensorModel>::empty(),
        Seq::empty(),
        seen,
    ));
    assert(st.0 == g2);
    let twice = acc_grad(n1, raw).grad.unwrap();
    assert(twice.data =~= seq![wadd(v, v)]);
    assert(twice.shape =~= Seq::<usize>::empty());
    let r = bw_run(g0, seq![j], seen, false);
    assert(r == clear_out_grad(st.0, y as int));
    assert((x as int) < y as int);
    assert(r.nodes[x as int].grad == Some(twice));
    assert(twice == (TensorModel { data: seq![wadd(v, v)], shape: Seq::<usize>::empty() }));
    if i64::MIN <= 2 * v <= i64::MAX {
        assert(wadd(v, v) == (2 * v) as i64);
    }
    assert(r.nodes[y as int].grad is None);
}

/// Backward through `y = x + x`: the two unit contributions accumulate, so
/// the gradient of `x` is 2 everywhere, whatever the shape of `x`.
pub proof fn lemma_add_reuse_grad(g: GraphModel, x: usize, y: usize, j: usize)
    requires
        graph_wf(g),
        (j as int) < g.ops.len(),
        g.ops[j as int].kind == OpKind::Add,
        g.ops[j as int].inputs == seq![x, x],
        g.ops[j as int].output == y,
        g.nodes[x as int].creator is None,
        g.nodes[x as int].grad is None,
        g.nodes[y as int].grad is None,
    ensures
        ({
            let r = bw_run(seeded(g, y as int), seq![j], init_seen(g.ops.len(), j as int), false);
            &&& r.nodes[x as int].grad == Some(
                TensorModel::filled(g.nodes[x as int].value.shape, 2),
            )
            &&& r.nodes[y as int].grad is None
        }),
{
    assert(op_wf(g, j as int));
    assert(node_wf(g, x as int));
    assert(node_wf(g, y as int));
    assert(crate::graph::input_values(g, g.ops[j as int].inputs)[0] == g.nodes[x as int].value);
    let xs = g.nodes[x as int].value.shape;
    crate::shape::lemma_bcast_self(xs);
    let ys = g.nodes[y as int].value.shape;
    assert(ys == xs);
    lemma_single_op_run(g, j, false);
    let g0 = seeded(g, y as int);
    let gy = TensorModel::filled(ys, 1);
    let gxs = op_backward(g0, g0.ops[j as int], gy);
    assert(g0.nodes[x as int].value == g.nodes[x as int].value);
    assert(gxs =~= seq![gy, gy]);
    let seen = init_seen(g.ops.len(), j as int);
    let st = apply_inputs(g0, seq![x, x], gxs, Seq::empty(), seen);
    let n0 = g0.nodes[x as int];
    let g1 = GraphModel { nodes: g0.nodes.update(x as int, acc_grad(n0, gy)), ..g0 };
    assert(seq![x, x].skip(1) =~= seq![x]);
    assert(gxs.skip(1) =~= seq![gy]);
    assert(acc_grad(n0, gy).grad == Some(gy));
    assert(st == apply_inputs(g1, seq![x], seq![gy], Seq::empty(), seen));
    let n1 = g1.nodes[x as int];
    let g2 = GraphModel { nodes: g1.nodes.update(x as int, acc_grad(n1, gy)), ..g1 };
    assert(seq![x].skip(1) =~= Seq::<usize>::empty());
    assert(seq![gy].skip(1) =~= Seq::<TensorModel>::empty());
    assert(apply_inputs(g1, seq![x], seq![gy], Seq::empty(), seen) == apply_inputs(
        g2,
        Seq::<usize>::empty(),
        Seq::<TensorModel>::empty(),
        Seq::empty(),
        seen,
    ));
    assert(st.0 == g2);
    let twice = acc_grad(n1, gy).grad.unwrap();
    assert(twice.data =~= TensorModel::filled(xs, 2).data);
    assert(twice.shape == xs);
    let r = bw_run(g0, seq![j], seen, false);
    assert(r == clear_out_grad(st.0, y as int));
    assert((x as int) < y as int);
    assert(r.nodes[x as int].grad == Some(TensorModel::filled(xs, 2)));
    assert(r.nodes[y as int].grad is None);
}

/// Backward through a reshape: the all-ones seed at the output comes back
/// as all ones in the shape of `x`, untouched by the change of shape.
pub proof fn lemma_reshape_grad(g: GraphModel, x: usize, y: usize, j: usize)
    requires
        graph_wf(g),
        (j as int) < g.ops.len(),
        g.ops[j as int].kind == OpKind::Reshape,
        g.ops[j as int].inputs == seq![x],
        g.ops[j as int].output == y,
        g.nodes[x as int].creator is None,
        g.nodes[x as int].grad is None,
        g.nodes[y as int].grad is None,
    ensures
        ({
            let r = bw_run(seeded(g, y as int), seq![j], init_seen(g.ops.len(), j as int), false);
            &&& r.nodes[x as int].grad == Some(
                TensorModel::filled(g.nodes[x as int].value.shape, 1),
            )
            &&& r.nodes[y as int].grad is None
        }),
{
    assert(op_wf(g, j as int));
    assert(node_wf(g, x as int));
    assert(node_wf(g, y as int));
    assert(crate::graph::input_values(g, g.ops[j as int].inputs)[0] == g.nodes[x as int].value);
    let xs = g.nodes[x as int].value.shape;
    let ys = g.nodes[y as int].value.shape;
    assert(product(ys) == product(xs));
    lemma_single_op_run(g, j, false);
    let g0 = seeded(g, y as int);
    let gy = TensorModel::filled(ys, 1);
    let gxs = op_backward(g0, g0.ops[j as int], gy);
    let back = TensorModel { data: gy.data, shape: xs };
    assert(gxs =~= seq![back]);
    assert(back.data =~= TensorModel::filled(xs, 1).data);
    assert(back == TensorModel::filled(xs, 1));
    let seen = init_seen(g.ops.len(), j as int);
    let st = apply_inputs(g0, seq![x], gxs, Seq::empty(), seen);
    let n0 = g0.nodes[x as int];
    let g1 = GraphModel { nodes: g0.nodes.update(x as int, acc_grad(n0, back)), ..g0 };
    assert(seq![x].skip(1) =~= Seq::<usize>::empty());
    assert(gxs.skip(1) =~= Seq::<TensorModel>::empty());
    assert(acc_grad(n0, back).grad == Some(back));
    assert(st == apply_inputs(
        g1,
        Seq::<usize>::empty(),
        Seq::<TensorModel>::empty(),
        Seq::empty(),
        seen,
    ));
    assert(st.0 == g1);
    let r = bw_run(g0, seq![j], seen, false);
    assert(r == clear_out_grad(st.0, y as int));
    assert((x as int) < y as int);
    assert(r.nodes[x as int].grad == Some(TensorModel::filled(xs, 1)));
    assert(r.nodes[y as int].grad is None);
}

/// Fan-in: with `t = x0 + x1` and `y = x0 + t`, a backward pass from `y`
/// leaves `x0` with gradient 2 everywhere, `x1` with gradient 1 everywhere,
/// and the intermediate `t` with no gradient at all: its contribution was
/// consumed and then dropped.
pub proof fn lemma_fan_in_grad(
    g: GraphModel,
    x0: usize,
    x1: usize,
    t: usize,
    y: usize,
    a: usize,
    b: usize,
)
    requires
        graph_wf(g),
        (a as int) < g.ops.len(),
        (b as int) < g.ops.len(),
        g.ops[a as int].kind == OpKind::Add,
        g.ops[a as int].inputs == seq![x0, x1],
        g.ops[a as int].output == t,
        g.ops[b as int].kind == OpKind::Add,
        g.ops[b as int].inputs == seq![x0, t],
        g.ops[b as int].output == y,
        g.nodes[x0 as int].value.shape == g.nodes[x1 as int].value.shape,
        g.nodes[x0 as int].creator is None,
        g.nodes[x1 as int].creator is None,
        g.nodes[x0 as int].grad is None,
        g.nodes[x1 as int].grad is None,
        g.nodes[t as int].grad is None,
        g.nodes[y as int].grad is None,
        x0 != x1,
    ensures
        ({
            let r = bw_run(seeded(g, y as int), seq![b], init_seen(g.ops.len(), b as int), false);
            &&& r.nodes[x0 as int].grad == Some(
                TensorModel::filled(g.nodes[x0 as int].value.shape, 2),
            )
            &&& r.nodes[x1 as int].grad == Some(
                TensorModel::filled(g.nodes[x1 as int].value.shape, 1),
            )
            &&& r.nodes[t as int].grad is None
            &&& r.nodes[y as int].grad is None
        }),
{
    assert(op_wf(g, a as int));
    assert(op_wf(g, b as int));
    assert(node_wf(g, x0 as int));
    assert(node_wf(g, x1 as int));
    assert(node_wf(g, t as int));
    assert(node_wf(g, y as int));
    assert(g.nodes[t as int].creator == Some(a));
    let s = g.nodes[x0 as int].value.shape;
    assert(crate::graph::input_values(g, g.ops[a as int].inputs)[0] == g.nodes[x0 as int].value);
    assert(crate::graph::input_values(g, g.ops[a as int].inputs)[1] == g.nodes[x1 as int].value);
    assert(crate::graph::input_values(g, g.ops[b as int].inputs)[0] == g.nodes[x0 as int].value);
    assert(crate::graph::input_values(g, g.ops[b as int].inputs)[1] == g.nodes[t as int].value);
    crate::shape::lemma_bcast_self(s);
    assert(g.nodes[t as int].value.shape == s);
    assert(g.nodes[y as int].value.shape == s);
    assert((x0 as int) < t as int && (x1 as int) < t as int && (t as int) < y as int);
    // step one: process b, the creator of y
    let g0 = seeded(g, y as int);
    let seen0 = init_seen(g.ops.len(), b as int);
    assert(pick_from(g0, seq![b], 0, 1) == 0);
    let gy = TensorModel::filled(s, 1);
    assert(g0.nodes[y as int].grad == Some(gy));
    assert(seq![b].remove(0) =~= Seq::<usize>::empty());
    let gxsb = op_backward(g0, g0.ops[b as int], gy);
    assert(g0.nodes[x0 as int].value == g.nodes[x0 as int].value);
    assert(gxsb =~= seq![gy, gy]);
    // deliver to x0 (a leaf) and to t (whose creator a goes on the queue)
    let n0 = g0.nodes[x0 as int];
    let g1 = GraphModel { nodes: g0.nodes.update(x0 as int, acc_grad(n0, gy)), ..g0 };
    assert(seq![x0, t].skip(1) =~= seq![t]);
    assert(gxsb.skip(1) =~= seq![gy]);
    assert(g1.nodes[x0 as int].creator is None);
    let st1 = apply_inputs(g0, seq![x0, t], gxsb, Seq::empty(), seen0);
    assert(st1 == apply_inputs(g1, seq![t], seq![gy], Seq::empty(), seen0));
    let n1 = g1.nodes[t as int];
    assert(n1.grad is None);
    let g2 = GraphModel { nodes: g1.nodes.update(t as int, acc_grad(n1, gy)), ..g1 };
    assert(g2.nodes[t as int].creator == Some(a));
    assert(!seen0[a as int]);
    let pend1 = Seq::<usize>::empty().push(a);
    let seen1 = seen0.update(a as int, true);
    assert(seq![t].skip(1) =~= Seq::<usize>::empty());
    assert(seq![gy].skip(1) =~= Seq::<TensorModel>::empty());
    assert(apply_inputs(g1, seq![t], seq![gy], Seq::empty(), seen0) == apply_inputs(
        g2,
        Seq::<usize>::empty(),
        Seq::<TensorModel>::empty(),
        pend1,
        seen1,
    ));
    assert(st1.0 == g2 && st1.1 == pend1 && st1.2 == seen1);
    let g3 = clear_out_grad(g2, y as int);
    assert(bw_run(g0, seq![b], seen0, false) == bw_run(g3, pend1, seen1, false));
    // step two: process a, the creator of t
    assert(pend1 =~= seq![a]);
    assert(pick_from(g3, pend1, 0, 1) == 0);
    assert(g3.ops == g.ops);
    assert(g3.nodes[t as int].grad == Some(gy));
    assert(seq![a].remove(0) =~= Seq::<usize>::empty());
    let gxsa = op_backward(g3, g3.ops[a as int], gy);
    assert(g3.nodes[x0 as int].value == g.nodes[x0 as int].value);
    assert(g3.nodes[x1 as int].value == g.nodes[x1 as int].value);
    assert(gxsa =~= seq![gy, gy]);
    let m0 = g3.nodes[x0 as int];
    assert(m0.grad == Some(gy));
    let g4 = GraphModel { nodes: g3.nodes.update(x0 as int, acc_grad(m0, gy)), ..g3 };
    let twice = acc_grad(m0, gy).grad.unwrap();
    assert(twice.data =~= TensorModel::filled(s, 2).data);
    assert(twice.shape == s);
    assert(seq![x0, x1].skip(1) =~= seq![x1]);
    assert(gxsa.skip(1) =~= seq![gy]);
    assert(g4.nodes[x0 as int].creator is None);
    let st2 = apply_inputs(g3, seq![x0, x1], gxsa, Seq::empty(), seen1);
    assert(st2 == apply_inputs(g4, seq![x1], seq![gy], Seq::empty(), seen1));
    let m1 = g4.nodes[x1 as int];
    assert(m1.grad is None);
    let g5 = GraphModel { nodes: g4.nodes.update(x1 as int, acc_grad(m1, gy)), ..g4 };
    assert(g5.nodes[x1 as int].creator is None);
    assert(seq![x1].skip(1) =~= Seq::<usize>::empty());
    assert(seq![gy].skip(1) =~= Seq::<TensorModel>::empty());
    assert(apply_inputs(g4, seq![x1], seq![gy], Seq::empty(), seen1) == apply_inputs(
        g5,
        Seq::<usize>::empty(),
        Seq::<TensorModel>::empty(),
        Seq::empty(),
        seen1,
    ));
    assert(st2.0 == g5 && st2.1 == Seq::<usize>::empty() && st2.2 == seen1);
    let g6 = clear_out_grad(g5, t as int);
    assert(bw_run(g3, pend1, seen1, false) == bw_run(g6, Seq::empty(), seen1, false));
    assert(bw_run(g6, Seq::empty(), seen1, false) == g6);
    let r = bw_run(g0, seq![b], seen0, false);
    assert(r == g6);
    assert(r.nodes[x0 as int].grad == Some(TensorModel::filled(s, 2)));
    assert(r.nodes[x1 as int].grad == Some(TensorModel::filled(s, 1)));
    assert(r.nodes[t as int].grad is None);
    assert(r.nodes[y as int].grad is None);
}

/// The round trip of the broadcast/reduction pair.  The shape always comes
/// straight back.  The values come back too whenever the element counts
/// agree, that is, whenever the expansion adds only size-1 axes; a real
/// expansion instead multiplies each element by its copy count, so the
/// value half is stated only where it holds.
pub proof fn lemma_bcast_sum_to_round_trip(t: TensorModel, s2: Seq<usize>)
    requires
        t.wf(),
        expandable(t.shape, s2),
    ensures
        crate::ops::sum_to_t(crate::ops::bcast_t(t, s2), t.shape).shape == t.shape,
        crate::ops::sum_to_t(crate::ops::bcast_t(t, s2), t.shape).wf(),
        product(t.shape) == product(s2) ==> crate::ops::sum_to_t(
            crate::ops::bcast_t(t, s2),
            t.shape,
        ) == t,
{
    crate::broadcast::lemma_bcast_len(t.data, t.shape, s2);
    crate::broadcast::lemma_sum_to_len(
        crate::broadcast::bcast_data(t.data, t.shape, s2),
        s2,
        t.shape,
    );
    if product(t.shape) == product(s2) {
        crate::broadcast::lemma_bcast_sum_to_round_trip(t.data, t.shape, s2);
    }
}

} // verus!
