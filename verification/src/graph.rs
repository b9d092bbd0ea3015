//! The computation graph.  Nodes (tracked values) and the operations that
//! produced them live in flat arena tables; a reference from one to the
//! other is a plain index.  A node owns its value and an optional gradient;
//! an operation owns the indices of its inputs and the index of its output.
//! Node indices only ever point backwards, so the graph is acyclic by
//! construction, and an operation's generation is the largest generation
//! among its inputs, one less than its output's.

use vstd::prelude::*;

use crate::shape::{bcast_ok, bcast_shape, expandable, product};
use crate::tensor::{Tensor, TensorModel};
use crate::Error;

verus! {

/// What one recorded operation computed.  The shapes an operation needs at
/// backward time are read from its input nodes, whose shapes never change.
#[derive(Clone, Copy, Debug, PartialEq, Eq, Structural)]
pub enum OpKind {
    /// Elementwise wrapping addition under broadcasting.
    Add,
    /// Elementwise wrapping subtraction under broadcasting.
    Sub,
    /// Elementwise wrapping multiplication under broadcasting.
    Mul,
    /// Elementwise truncating division under broadcasting.
    Div,
    /// Elementwise wrapping negation.
    Neg,
    /// Elementwise wrapping power with the given exponent.
    Powi(u32),
    /// Same buffer under a new shape.
    Reshape,
    /// Matrix transpose (rank at most 2).
    Transpose,
    /// Wrapping sum of all elements, to a scalar.
    Sum,
    /// Reduction to a right-aligned smaller shape.
    SumTo,
    /// Expansion to a right-aligned larger shape.
    BroadcastTo,
    /// 2-D matrix multiplication.
    Matmul,
    /// `x . w + bias`, the bias broadcast over the product.
    Linear,
    /// Elementwise maximum with zero.
    Relu,
    /// Mean of the squared elementwise differences, to a scalar.
    MeanSquaredError,
}

/// A recorded operation: its kind, its input nodes, its output node, and
/// the generation it was recorded at.
pub struct Operation {
    kind: OpKind,
    inputs: Vec<usize>,
    output: usize,
    generation: usize,
}

/// The mathematical value of an [`Operation`].
pub struct OpModel {
    pub kind: OpKind,
    pub inputs: Seq<usize>,
    pub output: usize,
    pub generation: usize,
}

impl View for Operation {
    type V = OpModel;

    closed spec fn view(&self) -> OpModel {
        OpModel {
            kind: self.kind,
            inputs: self.inputs@,
            output: self.output,
            generation: self.generation,
        }
    }
}

/// A tracked value: its tensor, its gradient once a backward pass has
/// reached it, the operation that created it (absent for a leaf), and its
/// generation (0 for a leaf, one more than its creator's otherwise).
pub struct Node {
    value: Tensor,
    grad: Option<Tensor>,
    creator: Option<usize>,
    generation: usize,
}

/// The mathematical value of a [`Node`].
pub struct NodeModel {
    pub value: TensorModel,
    pub grad: Option<TensorModel>,
    pub creator: Option<usize>,
    pub generation: usize,
}

impl View for Node {
    type V = NodeModel;

    closed spec fn view(&self) -> NodeModel {
        NodeModel {
            value: self.value@,
            grad: match self.grad {
                Some(ref g) => Some(g@),
                None => None,
            },
            creator: self.creator,
            generation: self.generation,
        }
    }
}

/// The computation graph: the node and operation arenas and the mode flag
/// that decides whether new operations are recorded.
pub struct Graph {
    nodes: Vec<Node>,
    ops: Vec<Operation>,
    recording: bool,
}

/// The mathematical value of a [`Graph`].
pub struct GraphModel {
    pub nodes: Seq<NodeModel>,
    pub ops: Seq<OpModel>,
    pub recording: bool,
}

impl View for Graph {
    type V = GraphModel;

    closed spec fn view(&self) -> GraphModel {
        GraphModel {
            nodes: Seq::new(self.nodes@.len(), |i: int| self.nodes@[i]@),
            ops: Seq::new(self.ops@.len(), |i: int| self.ops@[i]@),
            recording: self.recording,
        }
    }
}

/// The kind-specific shape discipline between an operation's input values
/// and its output shape.  It mentions values, never gradients, and node
/// values keep their shapes for the graph's whole life, so it is stable.
pub open spec fn kind_shape_ok(kind: OpKind, ins: Seq<TensorModel>, out_shape: Seq<usize>) -> bool {
    match kind {
        OpKind::Add | OpKind::Sub | OpKind::Mul | OpKind::Div => {
            &&& ins.len() == 2
            &&& bcast_ok(ins[0].shape, ins[1].shape)
            &&& out_shape == bcast_shape(ins[0].shape, ins[1].shape)
        },
        OpKind::Neg | OpKind::Relu => ins.len() == 1 && out_shape == ins[0].shape,
        OpKind::Powi(_) => ins.len() == 1 && out_shape == ins[0].shape,
        OpKind::Reshape => {
            &&& ins.len() == 1
            &&& product(out_shape) == product(ins[0].shape)
        },
        OpKind::Transpose => {
            &&& ins.len() == 1
            &&& ins[0].shape.len() <= 2
            &&& if ins[0].shape.len() <= 1 {
                out_shape == ins[0].shape
            } else {
                out_shape == seq![ins[0].shape[1], ins[0].shape[0]]
            }
        },
        OpKind::Sum => ins.len() == 1 && out_shape == Seq::<usize>::empty(),
        OpKind::SumTo => {
            &&& ins.len() == 1
            &&& expandable(out_shape, ins[0].shape)
        },
        OpKind::BroadcastTo => {
            &&& ins.len() == 1
            &&& expandable(ins[0].shape, out_shape)
        },
        OpKind::Matmul => {
            &&& ins.len() == 2
            &&& ins[0].shape.len() == 2
            &&& ins[1].shape.len() == 2
            &&& ins[0].shape[1] == ins[1].shape[0]
            &&& out_shape == seq![ins[0].shape[0], ins[1].shape[1]]
        },
        OpKind::Linear => {
            &&& (ins.len() == 2 || ins.len() == 3)
            &&& ins[0].shape.len() == 2
            &&& ins[1].shape.len() == 2
            &&& ins[0].shape[1] == ins[1].shape[0]
            &&& out_shape == seq![ins[0].shape[0], ins[1].shape[1]]
            &&& ins.len() == 3 ==> expandable(ins[2].shape, out_shape)
        },
        OpKind::MeanSquaredError => {
            &&& ins.len() == 2
            &&& ins[0].shape == ins[1].shape
            &&& out_shape == Seq::<usize>::empty()
            &&& 1 <= product(ins[0].shape) <= i64::MAX
        },
    }
}

/// The values of the nodes an operation reads.
pub open spec fn input_values(g: GraphModel, inputs: Seq<usize>) -> Seq<TensorModel> {
    Seq::new(inputs.len(), |k: int| g.nodes[inputs[k] as int].value)
}

pub open spec fn node_wf(g: GraphModel, i: int) -> bool {
    let n = g.nodes[i];
    &&& n.value.wf()
    &&& n.value.data.len() <= usize::MAX
    &&& match n.grad {
        Some(gr) => gr.wf() && gr.shape == n.value.shape,
        None => true,
    }
    &&& match n.creator {
        Some(j) => {
            &&& (j as int) < g.ops.len()
            &&& g.ops[j as int].output == i
            &&& n.generation == g.ops[j as int].generation + 1
        },
        None => n.generation == 0,
    }
    &&& n.generation <= i
}

pub open spec fn op_wf(g: GraphModel, j: int) -> bool {
    let o = g.ops[j];
    &&& (o.output as int) < g.nodes.len()
    &&& g.nodes[o.output as int].creator == Some(j as usize)
    &&& o.inputs.len() >= 1
    &&& forall|k: int| 0 <= k < o.inputs.len() ==> (#[trigger] o.inputs[k] as int) < o.output
    &&& forall|k: int|
        0 <= k < o.inputs.len() ==> g.nodes[#[trigger] o.inputs[k] as int].generation
            <= o.generation
    &&& exists|k: int|
        0 <= k < o.inputs.len() && g.nodes[#[trigger] o.inputs[k] as int].generation
            == o.generation
    &&& kind_shape_ok(o.kind, input_values(g, o.inputs), g.nodes[o.output as int].value.shape)
}

/// Every node and every operation of the graph is well formed.
pub open spec fn graph_wf(g: GraphModel) -> bool {
    &&& forall|i: int| 0 <= i < g.nodes.len() ==> node_wf(g, i)
    &&& forall|j: int| 0 <= j < g.ops.len() ==> op_wf(g, j)
}

/// The largest generation among the given input nodes (0 when empty).
pub open spec fn max_gen(nodes: Seq<NodeModel>, inputs: Seq<usize>) -> usize
    decreases inputs.len(),
{
    if inputs.len() == 0 {
        0
    } else {
        let rest = max_gen(nodes, inputs.skip(1));
        if nodes[inputs[0] as int].generation >= rest {
            nodes[inputs[0] as int].generation
        } else {
            rest
        }
    }
}

/// The graph after one operation application: the result value always
/// becomes a new node; while recording, the operation is retained and the
/// new node points back at it, otherwise the new node is a plain leaf.
pub open spec fn spec_record(
    g: GraphModel,
    kind: OpKind,
    inputs: Seq<usize>,
    value: TensorModel,
) -> GraphModel {
    if g.recording {
        let gen = max_gen(g.nodes, inputs);
        GraphModel {
            nodes: g.nodes.push(
                NodeModel {
                    value,
                    grad: None,
                    creator: Some(g.ops.len() as usize),
                    generation: (gen + 1) as usize,
                },
            ),
            ops: g.ops.push(
                OpModel { kind, inputs, output: g.nodes.len() as usize, generation: gen },
            ),
            recording: true,
        }
    } else {
        GraphModel {
            nodes: g.nodes.push(
                NodeModel { value, grad: None, creator: None, generation: 0 },
            ),
            ops: g.ops,
            recording: false,
        }
    }
}

/// A remembered recording state: `pause_recording` hands one out and
/// `restore_recording` consumes it, so a dynamic extent that runs without
/// recording restores the previous state on every path out instead of
/// blindly switching recording back on.
pub struct RecordingGuard {
    saved: bool,
}

impl RecordingGuard {
    /// The recording state that will be restored.
    pub closed spec fn saved_state(&self) -> bool {
        self.saved
    }
}

impl Graph {
    pub open spec fn wf(&self) -> bool {
        graph_wf(self@)
    }

    /// An empty graph with recording enabled.
    pub fn new() -> (r: Graph)
        ensures
            r.wf(),
            r@.nodes.len() == 0,
            r@.ops.len() == 0,
            r@.recording,
    {
        let g = Graph { nodes: Vec::new(), ops: Vec::new(), recording: true };
        proof {
            assert(g@.nodes.len() == 0);
        }
        g
    }

    /// Track a fresh leaf holding `value`; its index names it from then on.
    pub fn leaf(&mut self, value: Tensor) -> (r: usize)
        requires
            old(self).wf(),
            value.wf(),
        ensures
            final(self).wf(),
            r == old(self)@.nodes.len(),
            final(self)@ == (GraphModel {
                nodes: old(self)@.nodes.push(
                    NodeModel { value: value@, grad: None, creator: None, generation: 0 },
                ),
                ops: old(self)@.ops,
                recording: old(self)@.recording,
            }),
    {
        let id = self.nodes.len();
        let _sz = value.size();
        self.nodes.push(Node { value, grad: None, creator: None, generation: 0 });
        proof {
            let gm = self@;
            let om = old(self)@;
            assert(gm.nodes =~= om.nodes.push(gm.nodes[id as int]));
            assert(gm.ops =~= om.ops);
            lemma_push_node_wf(om, gm.nodes[id as int]);
        }
        id
    }

    /// The kind of a recorded operation.
    pub fn op_kind(&self, j: usize) -> (r: OpKind)
        requires
            j < self@.ops.len(),
        ensures
            r == self@.ops[j as int].kind,
    {
        self.ops[j].kind
    }

    /// How many inputs a recorded operation reads.
    pub fn op_num_inputs(&self, j: usize) -> (r: usize)
        requires
            j < self@.ops.len(),
        ensures
            r == self@.ops[j as int].inputs.len(),
    {
        self.ops[j].inputs.len()
    }

    /// One input node of a recorded operation.
    pub fn op_input(&self, j: usize, k: usize) -> (r: usize)
        requires
            j < self@.ops.len(),
            k < self@.ops[j as int].inputs.len(),
        ensures
            r == self@.ops[j as int].inputs[k as int],
    {
        self.ops[j].inputs[k]
    }

    /// The output node of a recorded operation.
    pub fn op_output(&self, j: usize) -> (r: usize)
        requires
            j < self@.ops.len(),
        ensures
            r == self@.ops[j as int].output,
    {
        self.ops[j].output
    }

    /// The generation a recorded operation was recorded at.
    pub fn op_generation(&self, j: usize) -> (r: usize)
        requires
            j < self@.ops.len(),
        ensures
            r == self@.ops[j as int].generation,
    {
        self.ops[j].generation
    }

    /// How many operations the graph has recorded.
    pub fn num_ops(&self) -> (r: usize)
        ensures
            r == self@.ops.len(),
    {
        self.ops.len()
    }

    /// How many nodes the graph holds.
    pub fn num_nodes(&self) -> (r: usize)
        ensures
            r == self@.nodes.len(),
    {
        self.nodes.len()
    }

    /// Whether operations are currently being recorded.
    pub fn is_recording(&self) -> (r: bool)
        ensures
            r == self@.recording,
    {
        self.recording
    }

    /// Switch recording off for a dynamic extent, remembering the previous
    /// state in the returned guard.
    pub fn pause_recording(&mut self) -> (g: RecordingGuard)
        requires
            old(self).wf(),
        ensures
            final(self).wf(),
            g.saved_state() == old(self)@.recording,
            final(self)@ == (GraphModel { recording: false, ..old(self)@ }),
    {
        let prev = self.set_recording(false);
        RecordingGuard { saved: prev }
    }

    /// Put back the recording state a guard remembers; call it on every path
    /// out of the extent that paused recording.
    pub fn restore_recording(&mut self, g: RecordingGuard)
        requires
            old(self).wf(),
        ensures
            final(self).wf(),
            final(self)@ == (GraphModel { recording: g.saved_state(), ..old(self)@ }),
    {
        let _prev = self.set_recording(g.saved);
    }

    /// Switch recording on or off, handing back the previous state so that a
    /// caller can restore it on every path out of a dynamic extent.
    pub fn set_recording(&mut self, on: bool) -> (prev: bool)
        requires
            old(self).wf(),
        ensures
            final(self).wf(),
            prev == old(self)@.recording,
            final(self)@ == (GraphModel { recording: on, ..old(self)@ }),
    {
        let prev = self.recording;
        self.recording = on;
        proof {
            assert(self@.nodes =~= old(self)@.nodes);
            assert(self@.ops =~= old(self)@.ops);
            assert(self@ == (GraphModel { recording: on, ..old(self)@ }));
            lemma_wf_ignores_recording(old(self)@, self@);
        }
        prev
    }

    /// The value of a node.
    pub fn get_array(&self, x: usize) -> (r: Tensor)
        requires
            self.wf(),
            x < self@.nodes.len(),
        ensures
            r@ == self@.nodes[x as int].value,
            r.wf(),
    {
        proof {
            assert(node_wf(self@, x as int));
        }
        self.nodes[x].value.clone()
    }

    /// The shape of a node's value.
    pub fn get_shape(&self, x: usize) -> (r: Vec<usize>)
        requires
            self.wf(),
            x < self@.nodes.len(),
        ensures
            r@ == self@.nodes[x as int].value.shape,
    {
        self.nodes[x].value.get_shape().clone()
    }

    /// A node's generation.
    pub fn get_gen(&self, x: usize) -> (r: usize)
        requires
            x < self@.nodes.len(),
        ensures
            r == self@.nodes[x as int].generation,
    {
        self.nodes[x].generation
    }

    /// The operation that created a node, if recording was on.
    pub fn get_creator(&self, x: usize) -> (r: Option<usize>)
        requires
            x < self@.nodes.len(),
        ensures
            r == self@.nodes[x as int].creator,
    {
        self.nodes[x].creator
    }

    /// A node's gradient; fails until a backward pass (or `set_grad`) has
    /// populated it.
    pub fn get_grad(&self, x: usize) -> (r: Result<Tensor, Error>)
        requires
            self.wf(),
            x < self@.nodes.len(),
        ensures
            r is Ok <==> self@.nodes[x as int].grad is Some,
            r matches Ok(t) ==> Some(t@) == self@.nodes[x as int].grad,
            r is Err ==> r == Result::<Tensor, Error>::Err(Error::UninitializedGradient),
    {
        match &self.nodes[x].grad {
            Some(g) => Ok(g.clone()),
            None => Err(Error::UninitializedGradient),
        }
    }

    /// A node's gradient, or `None` before any backward pass reached it.
    pub fn get_option_grad(&self, x: usize) -> (r: Option<Tensor>)
        requires
            self.wf(),
            x < self@.nodes.len(),
        ensures
            match r {
                Some(t) => Some(t@) == self@.nodes[x as int].grad,
                None => self@.nodes[x as int].grad is None,
            },
    {
        match &self.nodes[x].grad {
            Some(g) => Some(g.clone()),
            None => None,
        }
    }

    /// Replace a node's value in place; the new value must keep the shape
    /// (this is what an optimizer's parameter update uses).
    pub fn set_array(&mut self, x: usize, value: Tensor) -> (r: Result<(), Error>)
        requires
            old(self).wf(),
            x < old(self)@.nodes.len(),
            value.wf(),
        ensures
            final(self).wf(),
            r is Ok <==> value@.shape == old(self)@.nodes[x as int].value.shape,
            r is Ok ==> final(self)@ == (GraphModel {
                nodes: old(self)@.nodes.update(
                    x as int,
                    (NodeModel { value: value@, ..old(self)@.nodes[x as int] }),
                ),
                ..old(self)@
            }),
            r is Err ==> r == Result::<(), Error>::Err(Error::ShapeError) && final(self)@ == old(
                self,
            )@,
    {
        if !crate::tensor_ops::vecs_equal(value.get_shape(), self.nodes[x].value.get_shape()) {
            proof {
                assert(self@ =~~= old(self)@);
            }
            return Err(Error::ShapeError);
        }
        let _sz = value.size();
        self.nodes[x].value = value;
        proof {
            let om = old(self)@;
            let gm = self@;
            assert(gm.nodes =~= om.nodes.update(
                x as int,
                (NodeModel { value: gm.nodes[x as int].value, ..om.nodes[x as int] }),
            ));
            assert(gm.ops =~= om.ops);
            lemma_update_value_wf(om, gm, x as int);
        }
        Ok(())
    }

    /// Overwrite a node's gradient; the shape must match the value's.
    pub fn set_grad(&mut self, x: usize, grad: Tensor) -> (r: Result<(), Error>)
        requires
            old(self).wf(),
            x < old(self)@.nodes.len(),
            grad.wf(),
        ensures
            final(self).wf(),
            r is Ok <==> grad@.shape == old(self)@.nodes[x as int].value.shape,
            r is Ok ==> final(self)@ == (GraphModel {
                nodes: old(self)@.nodes.update(
                    x as int,
                    (NodeModel { grad: Some(grad@), ..old(self)@.nodes[x as int] }),
                ),
                ..old(self)@
            }),
            r is Err ==> r == Result::<(), Error>::Err(Error::ShapeError) && final(self)@ == old(
                self,
            )@,
    {
        if !crate::tensor_ops::vecs_equal(grad.get_shape(), self.nodes[x].value.get_shape()) {
            proof {
                assert(self@ =~~= old(self)@);
            }
            return Err(Error::ShapeError);
        }
        self.nodes[x].grad = Some(grad);
        proof {
            let om = old(self)@;
            let gm = self@;
            assert(gm.nodes =~= om.nodes.update(
                x as int,
                (NodeModel { grad: gm.nodes[x as int].grad, ..om.nodes[x as int] }),
            ));
            assert(gm.ops =~= om.ops);
            lemma_update_grad_wf(om, gm, x as int);
        }
        Ok(())
    }

    /// Drop a node's gradient.
    pub fn clear_grad(&mut self, x: usize)
        requires
            old(self).wf(),
            x < old(self)@.nodes.len(),
        ensures
            final(self).wf(),
            final(self)@ == (GraphModel {
                nodes: old(self)@.nodes.update(
                    x as int,
                    (NodeModel { grad: None, ..old(self)@.nodes[x as int] }),
                ),
                ..old(self)@
            }),
    {
        self.nodes[x].grad = None;
        proof {
            let om = old(self)@;
            let gm = self@;
            assert(gm.nodes =~= om.nodes.update(
                x as int,
                (NodeModel { grad: None, ..om.nodes[x as int] }),
            ));
            assert(gm.ops =~= om.ops);
            lemma_update_grad_wf(om, gm, x as int);
        }
    }
}

/// The maximum generation is attained and bounds every input's generation.
proof fn lemma_max_gen_attained(nodes: Seq<NodeModel>, inputs: Seq<usize>)
    requires
        inputs.len() >= 1,
    ensures
        forall|k: int|
            0 <= k < inputs.len() ==> nodes[#[trigger] inputs[k] as int].generation <= max_gen(
                nodes,
                inputs,
            ),
        exists|k: int|
            0 <= k < inputs.len() && nodes[#[trigger] inputs[k] as int].generation == max_gen(
                nodes,
                inputs,
            ),
    decreases inputs.len(),
{
    if inputs.len() == 1 {
        assert(max_gen(nodes, inputs.skip(1)) == 0);
        assert(nodes[inputs[0] as int].generation == max_gen(nodes, inputs) || max_gen(
            nodes,
            inputs,
        ) == 0);
    } else {
        lemma_max_gen_attained(nodes, inputs.skip(1));
        assert forall|k: int|
            0 <= k < inputs.len() implies nodes[#[trigger] inputs[k] as int].generation <= max_gen(
            nodes,
            inputs,
        ) by {
            if k >= 1 {
                assert(inputs.skip(1)[k - 1] == inputs[k]);
            }
        }
        if nodes[inputs[0] as int].generation >= max_gen(nodes, inputs.skip(1)) {
        } else {
            let k0 = choose|k: int|
                0 <= k < inputs.skip(1).len() && nodes[#[trigger] inputs.skip(1)[k] as int].generation
                    == max_gen(nodes, inputs.skip(1));
            assert(inputs[k0 + 1] == inputs.skip(1)[k0]);
        }
    }
}

impl Graph {
    /// Apply one operation: the computed `value` becomes a new node, and,
    /// while recording, the operation itself is retained as its creator.
    pub(crate) fn record(&mut self, kind: OpKind, inputs: Vec<usize>, value: Tensor) -> (r: usize)
        requires
            old(self).wf(),
            inputs@.len() >= 1,
            forall|k: int|
                0 <= k < inputs@.len() ==> (#[trigger] inputs@[k] as int) < old(
                    self,
                )@.nodes.len(),
            value.wf(),
            kind_shape_ok(kind, input_values(old(self)@, inputs@), value@.shape),
        ensures
            final(self).wf(),
            r == old(self)@.nodes.len(),
            final(self)@ == spec_record(old(self)@, kind, inputs@, value@),
    {
        let _sz = value.size();
        let id = self.nodes.len();
        if !self.recording {
            self.nodes.push(Node { value, grad: None, creator: None, generation: 0 });
            proof {
                let gm = self@;
                let om = old(self)@;
                assert(gm.nodes =~= om.nodes.push(gm.nodes[id as int]));
                assert(gm.ops =~= om.ops);
                lemma_push_node_wf(om, gm.nodes[id as int]);
                assert(gm =~~= spec_record(om, kind, inputs@, value@));
            }
            return id;
        }
        let ghost om = old(self)@;
        let mut gen: usize = 0;
        let mut k = inputs.len();
        while k > 0
            invariant
                k <= inputs@.len(),
                self@ == om,
                forall|q: int| 0 <= q < inputs@.len() ==> (#[trigger] inputs@[q] as int) < om.nodes.len(),
                graph_wf(om),
                gen == max_gen(om.nodes, inputs@.skip(k as int)),
            decreases k,
        {
            k = k - 1;
            let x = inputs[k];
            proof {
                assert(node_wf(om, x as int));
                assert(inputs@.skip(k as int)[0] == inputs@[k as int]);
                assert(inputs@.skip(k as int).skip(1) =~= inputs@.skip(k as int + 1));
            }
            let gx = self.nodes[x].generation;
            if gx >= gen {
                gen = gx;
            }
        }
        proof {
            assert(inputs@.skip(0) =~= inputs@);
            lemma_max_gen_attained(om.nodes, inputs@);
            let kw = choose|q: int|
                0 <= q < inputs@.len() && om.nodes[#[trigger] inputs@[q] as int].generation
                    == max_gen(om.nodes, inputs@);
            assert(node_wf(om, inputs@[kw] as int));
            assert(gen < id);
        }
        let opid = self.ops.len();
        self.ops.push(Operation { kind, inputs, output: id, generation: gen });
        self.nodes.push(
            Node { value, grad: None, creator: Some(opid), generation: gen + 1 },
        );
        proof {
            let gm = self@;
            let sr = spec_record(om, kind, gm.ops[opid as int].inputs, value@);
            assert(gm.nodes =~= sr.nodes);
            assert(gm.ops =~= sr.ops);
            assert(gm =~~= sr);
            // well-formedness of the grown graph
            assert forall|i: int| 0 <= i < gm.nodes.len() implies node_wf(gm, i) by {
                if i < om.nodes.len() {
                    assert(node_wf(om, i));
                }
            }
            assert forall|j: int| 0 <= j < gm.ops.len() implies op_wf(gm, j) by {
                if j < om.ops.len() {
                    assert(op_wf(om, j));
                    assert(input_values(gm, gm.ops[j].inputs) =~= input_values(
                        om,
                        om.ops[j].inputs,
                    ));
                } else {
                    lemma_max_gen_attained(om.nodes, gm.ops[j].inputs);
                    assert(input_values(gm, gm.ops[j].inputs) =~= input_values(
                        om,
                        gm.ops[j].inputs,
                    ));
                }
            }
        }
        id
    }
}

/// Pushing a well-formed creator-less node preserves graph well-formedness.
proof fn lemma_push_node_wf(g: GraphModel, n: NodeModel)
    requires
        graph_wf(g),
        n.value.wf(),
        n.value.data.len() <= usize::MAX,
        n.grad is None,
        n.creator is None,
        n.generation == 0,
    ensures
        graph_wf(GraphModel { nodes: g.nodes.push(n), ..g }),
{
    let g2 = GraphModel { nodes: g.nodes.push(n), ..g };
    assert forall|i: int| 0 <= i < g2.nodes.len() implies node_wf(g2, i) by {
        if i < g.nodes.len() {
            assert(node_wf(g, i));
        }
    }
    assert forall|j: int| 0 <= j < g2.ops.len() implies op_wf(g2, j) by {
        assert(op_wf(g, j));
        assert(input_values(g2, g2.ops[j].inputs) =~= input_values(g, g.ops[j].inputs));
    }
}

/// Only node and operation tables matter to well-formedness.
proof fn lemma_wf_ignores_recording(g: GraphModel, g2: GraphModel)
    requires
        graph_wf(g),
        g2.nodes == g.nodes,
        g2.ops == g.ops,
    ensures
        graph_wf(g2),
{
    assert forall|i: int| 0 <= i < g2.nodes.len() implies node_wf(g2, i) by {
        assert(node_wf(g, i));
    }
    assert forall|j: int| 0 <= j < g2.ops.len() implies op_wf(g2, j) by {
        assert(op_wf(g, j));
        assert(input_values(g2, g2.ops[j].inputs) =~= input_values(g, g.ops[j].inputs));
    }
}

/// Replacing one node's value with an equally shaped one preserves graph
/// well-formedness.
proof fn lemma_update_value_wf(g: GraphModel, g2: GraphModel, x: int)
    requires
        graph_wf(g),
        0 <= x < g.nodes.len(),
        g2.ops == g.ops,
        g2.nodes.len() == g.nodes.len(),
        forall|i: int| 0 <= i < g.nodes.len() && i != x ==> g2.nodes[i] == g.nodes[i],
        g2.nodes[x].value.wf(),
        g2.nodes[x].value.data.len() <= usize::MAX,
        g2.nodes[x].value.shape == g.nodes[x].value.shape,
        g2.nodes[x].grad == g.nodes[x].grad,
        g2.nodes[x].creator == g.nodes[x].creator,
        g2.nodes[x].generation == g.nodes[x].generation,
    ensures
        graph_wf(g2),
{
    assert forall|i: int| 0 <= i < g2.nodes.len() implies node_wf(g2, i) by {
        assert(node_wf(g, i));
    }
    assert forall|j: int| 0 <= j < g2.ops.len() implies op_wf(g2, j) by {
        assert(op_wf(g, j));
        let o = g.ops[j];
        assert forall|k: int|
            0 <= k < o.inputs.len() implies #[trigger] input_values(g2, o.inputs)[k].shape
            == input_values(g, o.inputs)[k].shape by {}
        lemma_kind_shape_ok_data_irrelevant(
            o.kind,
            input_values(g, o.inputs),
            input_values(g2, o.inputs),
            g.nodes[o.output as int].value.shape,
        );
    }
}

/// Changing only a node's gradient preserves graph well-formedness, as long
/// as the new gradient (when present) is well formed with the value's shape.
pub(crate) proof fn lemma_update_grad_wf(g: GraphModel, g2: GraphModel, x: int)
    requires
        graph_wf(g),
        0 <= x < g.nodes.len(),
        g2.ops == g.ops,
        g2.nodes.len() == g.nodes.len(),
        forall|i: int| 0 <= i < g.nodes.len() && i != x ==> g2.nodes[i] == g.nodes[i],
        g2.nodes[x].value == g.nodes[x].value,
        g2.nodes[x].creator == g.nodes[x].creator,
        g2.nodes[x].generation == g.nodes[x].generation,
        match g2.nodes[x].grad {
            Some(gr) => gr.wf() && gr.shape == g2.nodes[x].value.shape,
            None => true,
        },
    ensures
        graph_wf(g2),
{
    assert forall|i: int| 0 <= i < g2.nodes.len() implies node_wf(g2, i) by {
        assert(node_wf(g, i));
    }
    assert forall|j: int| 0 <= j < g2.ops.len() implies op_wf(g2, j) by {
        assert(op_wf(g, j));
        assert(input_values(g2, g.ops[j].inputs) =~= input_values(g, g.ops[j].inputs));
    }
}

/// `kind_shape_ok` reads shapes only, never element data.
proof fn lemma_kind_shape_ok_data_irrelevant(
    kind: OpKind,
    ins: Seq<TensorModel>,
    ins2: Seq<TensorModel>,
    out_shape: Seq<usize>,
)
    requires
        kind_shape_ok(kind, ins, out_shape),
        ins2.len() == ins.len(),
        forall|k: int| 0 <= k < ins.len() ==> #[trigger] ins2[k].shape == ins[k].shape,
    ensures
        kind_shape_ok(kind, ins2, out_shape),
{
}

} // verus!
