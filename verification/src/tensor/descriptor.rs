//! Borrowed descriptions of graph nodes, and what an adapter says of them.
use vstd::prelude::*;

use super::error::ValueId;
use super::graph::{node_wf, precedes, reads, Graph, Op};
use super::residues::total;
use super::schedule::{ScheduleStep, StepModel};
use super::storage::{node_output_bytes, output_bytes};
use super::value::Tensor;

verus! {

/// A read-only description of one operation in a graph.
///
/// Constants are borrowed from the graph, so inspecting a plan does not clone tensor data.
#[derive(Clone, Copy, Debug, PartialEq)]
pub enum OpDescriptor<'a> {
    Input,
    Constant(&'a Tensor),
    /// A compact constant whose logical output is a dense tensor filled with `value`.
    Uniform { value: u32 },
    Add { left: ValueId, right: ValueId },
    Sub { left: ValueId, right: ValueId },
    Mul { left: ValueId, right: ValueId },
    SgdUpdate { weights: ValueId, gradient: ValueId, learning_rate: u32 },
    MatMul { left: ValueId, right: ValueId, transpose_left: bool, transpose_right: bool },
    Relu { input: ValueId },
    ReluBackward { input: ValueId, upstream: ValueId },
    MeanSquaredError { prediction: ValueId, target: ValueId },
}

/// The values that a described operation reads, in operand order.
pub open spec fn consumes(op: OpDescriptor<'_>) -> Seq<ValueId> {
    match op {
        OpDescriptor::Input | OpDescriptor::Constant(_) | OpDescriptor::Uniform { .. } => {
            Seq::empty()
        },
        OpDescriptor::Add { left, right } => seq![left, right],
        OpDescriptor::Sub { left, right } => seq![left, right],
        OpDescriptor::Mul { left, right } => seq![left, right],
        OpDescriptor::MatMul { left, right, .. } => seq![left, right],
        OpDescriptor::SgdUpdate { weights, gradient, .. } => seq![weights, gradient],
        OpDescriptor::Relu { input } => seq![input],
        OpDescriptor::ReluBackward { input, upstream } => seq![input, upstream],
        OpDescriptor::MeanSquaredError { prediction, target } => seq![prediction, target],
    }
}

/// The described operation only hands out what it holds.
pub open spec fn read_only(op: OpDescriptor<'_>) -> bool {
    op is Input || op is Constant || op is Uniform
}

/// The description of an operation.
pub open spec fn described<'a>(op: &'a Op) -> OpDescriptor<'a> {
    match op {
        Op::Input => OpDescriptor::Input,
        Op::Constant(tensor) => OpDescriptor::Constant(tensor),
        Op::Uniform(value) => OpDescriptor::Uniform { value: *value },
        Op::Add(left, right) => OpDescriptor::Add { left: *left, right: *right },
        Op::Sub(left, right) => OpDescriptor::Sub { left: *left, right: *right },
        Op::Mul(left, right) => OpDescriptor::Mul { left: *left, right: *right },
        Op::SgdUpdate(weights, gradient, rate) => OpDescriptor::SgdUpdate {
            weights: *weights,
            gradient: *gradient,
            learning_rate: *rate,
        },
        Op::MatMul(left, right, tl, tr) => OpDescriptor::MatMul {
            left: *left,
            right: *right,
            transpose_left: *tl,
            transpose_right: *tr,
        },
        Op::Relu(input) => OpDescriptor::Relu { input: *input },
        Op::ReluBackward(input, upstream) => OpDescriptor::ReluBackward {
            input: *input,
            upstream: *upstream,
        },
        Op::MeanSquaredError(prediction, target) => OpDescriptor::MeanSquaredError {
            prediction: *prediction,
            target: *target,
        },
    }
}

/// A description reads what the operation reads.
pub proof fn lemma_described_reads(op: &Op)
    ensures
        consumes(described(op)) == reads(*op),
{
}

/// The values that a described operation reads, in operand order.
pub fn descriptor_operands(op: OpDescriptor<'_>) -> (values: Vec<ValueId>)
    ensures
        values@ == consumes(op),
{
    let (first, second): (Option<ValueId>, Option<ValueId>) = match op {
        OpDescriptor::Input => (None, None),
        OpDescriptor::Constant(_) => (None, None),
        OpDescriptor::Uniform { .. } => (None, None),
        OpDescriptor::Add { left, right } => (Some(left), Some(right)),
        OpDescriptor::Sub { left, right } => (Some(left), Some(right)),
        OpDescriptor::Mul { left, right } => (Some(left), Some(right)),
        OpDescriptor::MatMul { left, right, .. } => (Some(left), Some(right)),
        OpDescriptor::SgdUpdate { weights, gradient, .. } => (Some(weights), Some(gradient)),
        OpDescriptor::Relu { input } => (Some(input), None),
        OpDescriptor::ReluBackward { input, upstream } => (Some(input), Some(upstream)),
        OpDescriptor::MeanSquaredError { prediction, target } => (Some(prediction), Some(target)),
    };
    let mut values: Vec<ValueId> = Vec::new();
    if let Some(value) = first {
        values.push(value);
    }
    if let Some(value) = second {
        values.push(value);
    }
    assert(values@ =~= consumes(op));
    values
}

/// Whether a described operation reads `value`.
pub fn descriptor_reads(op: OpDescriptor<'_>, value: ValueId) -> (found: bool)
    ensures
        found == consumes(op).contains(value),
{
    let operands: Vec<ValueId> = descriptor_operands(op);
    super::error::contains_value(operands.as_slice(), value)
}

/// Whether a described operation only hands out what it holds.
pub fn is_read_only_descriptor(op: OpDescriptor<'_>) -> (answer: bool)
    ensures
        answer == read_only(op),
{
    match op {
        OpDescriptor::Input => true,
        OpDescriptor::Constant(_) => true,
        OpDescriptor::Uniform { .. } => true,
        _ => false,
    }
}

/// What a node description says.
#[verifier::ext_equal]
pub struct NodeModel<'a> {
    pub value: ValueId,
    pub op: OpDescriptor<'a>,
    pub shape: Seq<usize>,
}

impl<'a> NodeModel<'a> {
    /// The node as a schedule step.
    pub open spec fn step(self) -> StepModel {
        StepModel { value: self.value, reads: consumes(self.op) }
    }
}

/// Read-only metadata for one graph value.
#[derive(Clone, Copy, Debug, PartialEq)]
pub struct NodeDescriptor<'a> {
    pub value: ValueId,
    pub op: OpDescriptor<'a>,
    pub shape: &'a [usize],
}

impl<'a> View for NodeDescriptor<'a> {
    type V = NodeModel<'a>;

    open spec fn view(&self) -> NodeModel<'a> {
        NodeModel { value: self.value, op: self.op, shape: self.shape@ }
    }
}

/// The models of a sequence of node descriptions.
pub open spec fn node_models<'a>(nodes: Seq<NodeDescriptor<'a>>) -> Seq<NodeModel<'a>> {
    nodes.map_values(|node: NodeDescriptor<'a>| node@)
}

/// A sequence of nodes as a schedule.
pub open spec fn node_steps(nodes: Seq<NodeModel<'_>>) -> Seq<StepModel> {
    nodes.map_values(|node: NodeModel<'_>| node.step())
}

/// Makes the schedule of a sequence of nodes.
pub fn schedule_nodes(nodes: &[NodeDescriptor<'_>]) -> (steps: Vec<ScheduleStep>)
    ensures
        super::schedule::step_models(steps@) == node_steps(node_models(nodes@)),
        steps@.len() == nodes@.len(),
        forall|p: int| 0 <= p < steps@.len() ==> (#[trigger] steps@[p]).value == nodes@[p].value,
{
    let mut steps: Vec<ScheduleStep> = Vec::with_capacity(nodes.len());
    while steps.len() < nodes.len()
        invariant
            steps@.len() <= nodes@.len(),
            forall|p: int| 0 <= p < steps@.len() ==> (#[trigger] steps@[p])@ == nodes@[p]@.step(),
        decreases nodes@.len() - steps@.len(),
    {
        let node: NodeDescriptor<'_> = nodes[steps.len()];
        steps.push(ScheduleStep { value: node.value, reads: descriptor_operands(node.op) });
    }
    proof {
        let models = super::schedule::step_models(steps@);
        assert forall|p: int| 0 <= p < models.len() implies models[p] == node_steps(
            node_models(nodes@),
        )[p] by {
            assert(steps@[p]@ == nodes@[p]@.step());
        }
        assert(models =~= node_steps(node_models(nodes@)));
        assert forall|p: int| 0 <= p < steps@.len() implies (#[trigger] steps@[p]).value
            == nodes@[p].value by {
            assert(steps@[p]@ == nodes@[p]@.step());
        }
    }
    steps
}

/// Execution route selected by an explicit operation assessor.
#[derive(Clone, Copy, Debug, PartialEq, Eq, Hash, Structural)]
pub enum TensorExecutionRoute {
    Native,
    Library,
    Synthesized,
    Reference,
}

/// Physical representation offered for an input operand of an operation.
///
/// This does not change the operand's logical shape. An adapter must affirm a compact
/// representation for every consumer before allocating less than the logical extent.
#[derive(Clone, Copy, Debug, PartialEq, Eq, Hash, Structural)]
pub enum TensorOperandRepresentation {
    Dense,
    UniformScalar,
}

/// Structured reason why an assessor cannot support a graph operation.
#[derive(Clone, Debug, PartialEq, Eq)]
pub enum TensorUnsupportedReason {
    Operation,
    Layout,
    ElementType,
    Shape,
    Other(String),
}

/// Backend or adapter decision for one graph node.
#[derive(Clone, Debug, PartialEq, Eq)]
pub enum TensorOperationSupport {
    Supported {
        route: TensorExecutionRoute,
        /// Required scratch workspace when known.
        workspace_bytes: Option<usize>,
    },
    Unsupported { reason: TensorUnsupportedReason },
}

/// Adapter contract for assessing one operation on an explicitly selected target.
pub trait TensorOperationAssessor {
    fn assess_node(&self, graph: &Graph, node: NodeDescriptor<'_>) -> TensorOperationSupport;

    /// Whether `node` can consume `operand` in the given physical representation.
    ///
    /// Compact forms require an explicit affirmation; the default takes dense operands only.
    fn supports_operand_representation(
        &self,
        graph: &Graph,
        node: NodeDescriptor<'_>,
        operand: ValueId,
        representation: TensorOperandRepresentation,
    ) -> (supported: bool)
        default_ensures
            supported == (representation == TensorOperandRepresentation::Dense),
    {
        let _ = (graph, node, operand);
        representation == TensorOperandRepresentation::Dense
    }
}

/// Synchronous execution of one dense row-major matrix multiplication.
///
/// `a` has shape `[rows, inner]`, `b` has shape `[inner, columns]`, and `c` has shape
/// `[rows, columns]`. Implementors check dimensions, byte extents, access permissions, aliasing
/// and session identity before touching memory. Device access to all three resources has ended
/// when the method returns, on success and on every error path; where completion cannot be
/// established, every possibly accessed resource is retained for as long as work might remain in
/// flight.
pub trait TensorSynchronousF32MatMulBackend: TensorOperationAssessor {
    type Resource;

    type Error;

    /// Computes `c = a * b`, with no implicit host transfers or fallback.
    fn matmul_row_major(
        &self,
        a: &Self::Resource,
        b: &Self::Resource,
        c: &Self::Resource,
        rows: usize,
        inner: usize,
        columns: usize,
    ) -> Result<(), Self::Error>;
}

/// Explicit assessor for the deterministic host reference evaluator.
///
/// Applications select this route deliberately; assessing another backend never causes an
/// automatic retry through the reference evaluator. Its temporary workspace is not bounded.
pub struct TensorReferenceAssessor;

impl TensorOperationAssessor for TensorReferenceAssessor {
    fn assess_node(&self, graph: &Graph, node: NodeDescriptor<'_>) -> (support:
        TensorOperationSupport)
        ensures
            support == (TensorOperationSupport::Supported {
                route: TensorExecutionRoute::Reference,
                workspace_bytes: None,
            }),
    {
        let _ = (graph, node);
        TensorOperationSupport::Supported {
            route: TensorExecutionRoute::Reference,
            workspace_bytes: None,
        }
    }
}

/// One node's selected-target assessment.
#[derive(Clone, Debug, PartialEq)]
pub struct TensorNodeAssessment<'a> {
    pub node: NodeDescriptor<'a>,
    pub support: TensorOperationSupport,
    /// Required bytes for this node's output, if representable.
    pub output_bytes: Option<usize>,
}

/// Assessment for every graph node in stable append order.
#[derive(Clone, Debug, PartialEq)]
pub struct TensorGraphAssessment<'a> {
    pub nodes: Vec<TensorNodeAssessment<'a>>,
}

impl<'a> TensorGraphAssessment<'a> {
    /// Whether every node is supported.
    pub fn is_supported(&self) -> (answer: bool)
        ensures
            answer == (forall|i: int|
                0 <= i < self.nodes@.len() ==> (#[trigger] self.nodes@[i]).support is Supported),
    {
        let mut at: usize = 0;
        while at < self.nodes.len()
            invariant
                at <= self.nodes@.len(),
                forall|i: int|
                    0 <= i < at ==> (#[trigger] self.nodes@[i]).support is Supported,
            decreases self.nodes@.len() - at,
        {
            if let TensorOperationSupport::Unsupported { .. } = self.nodes[at].support {
                assert(!(self.nodes@[at as int].support is Supported));
                return false;
            }
            at += 1;
        }
        true
    }

    /// The positions of the unsupported nodes, in append order.
    pub fn unsupported_nodes(&self) -> (positions: Vec<usize>)
        ensures
            forall|k: int|
                0 <= k < positions@.len() ==> (#[trigger] positions@[k]) < self.nodes@.len()
                    && self.nodes@[positions@[k] as int].support is Unsupported,
            forall|j: int, k: int|
                0 <= j < k < positions@.len() ==> positions@[j] < positions@[k],
            forall|i: int|
                0 <= i < self.nodes@.len() && (#[trigger] self.nodes@[i]).support is Unsupported
                    ==> positions@.contains(i as usize),
    {
        let mut positions: Vec<usize> = Vec::new();
        let mut at: usize = 0;
        while at < self.nodes.len()
            invariant
                at <= self.nodes@.len(),
                forall|k: int|
                    0 <= k < positions@.len() ==> (#[trigger] positions@[k]) < at
                        && self.nodes@[positions@[k] as int].support is Unsupported,
                forall|j: int, k: int|
                    0 <= j < k < positions@.len() ==> positions@[j] < positions@[k],
                forall|i: int|
                    0 <= i < at && (#[trigger] self.nodes@[i]).support is Unsupported
                        ==> positions@.contains(i as usize),
            decreases self.nodes@.len() - at,
        {
            if let TensorOperationSupport::Unsupported { .. } = self.nodes[at].support {
                let ghost before = positions@;
                positions.push(at);
                proof {
                    assert forall|i: int|
                        0 <= i <= at && (#[trigger] self.nodes@[i]).support is Unsupported implies
                        positions@.contains(i as usize) by {
                        if i < at {
                            assert(before.contains(i as usize));
                            let k = before.index_of(i as usize);
                            assert(positions@[k] == i as usize);
                        } else {
                            assert(positions@[before.len() as int] == i as usize);
                        }
                    }
                }
            }
            at += 1;
        }
        positions
    }
}

/// Storage facts for one graph value.
#[derive(Clone, Copy, Debug, PartialEq, Eq)]
pub struct TensorValueRequirement<'a> {
    pub value: ValueId,
    pub shape: &'a [usize],
    pub output_bytes: Option<usize>,
}

/// Backend-neutral storage facts for graph values.
#[derive(Clone, Debug, PartialEq, Eq)]
pub struct TensorGraphRequirements<'a> {
    /// Dense row-major values are the only layout represented.
    pub values: Vec<TensorValueRequirement<'a>>,
    /// Sum of all graph-value output storage, not a peak or live estimate.
    pub total_value_bytes: Option<usize>,
}

/// The sum of the first `count` value extents.
pub open spec fn total_bytes(shapes: Seq<Seq<usize>>) -> nat
    decreases shapes.len(),
{
    if shapes.len() == 0 {
        0
    } else {
        total_bytes(shapes.drop_last()) + super::value::extent(4, shapes.last())
    }
}

/// Every extent and every partial sum is representable.
pub open spec fn total_fits(shapes: Seq<Seq<usize>>) -> bool
    decreases shapes.len(),
{
    shapes.len() == 0 || {
        &&& total_fits(shapes.drop_last())
        &&& output_bytes(shapes.last()) is Some
        &&& total_bytes(shapes) <= usize::MAX
    }
}

proof fn lemma_total_misfit_persists(shapes: Seq<Seq<usize>>, count: int)
    requires
        0 <= count <= shapes.len(),
        !total_fits(shapes.take(count)),
    ensures
        !total_fits(shapes),
    decreases shapes.len(),
{
    if count == shapes.len() {
        assert(shapes.take(count) =~= shapes);
    } else {
        assert(shapes.drop_last().take(count) =~= shapes.take(count));
        lemma_total_misfit_persists(shapes.drop_last(), count);
    }
}

impl Graph {
    /// The description of the node at a place in append order.
    pub open spec fn node_at(&self, at: int) -> NodeModel<'_> {
        NodeModel {
            value: self.value_at(at),
            op: described(&self.nodes@[at].op),
            shape: self.nodes@[at].shape@,
        }
    }

    /// Describes one node.
    pub fn node_descriptor(&self, index: usize) -> (node: NodeDescriptor<'_>)
        requires
            index < self.nodes@.len(),
        ensures
            node@ == self.node_at(index as int),
    {
        let node = &self.nodes[index];
        let value: ValueId = ValueId { graph_id: self.id, index };
        let op: OpDescriptor<'_> = match &node.op {
            Op::Input => OpDescriptor::Input,
            Op::Constant(tensor) => OpDescriptor::Constant(tensor),
            Op::Uniform(value) => OpDescriptor::Uniform { value: *value },
            Op::Add(left, right) => OpDescriptor::Add { left: *left, right: *right },
            Op::Sub(left, right) => OpDescriptor::Sub { left: *left, right: *right },
            Op::Mul(left, right) => OpDescriptor::Mul { left: *left, right: *right },
            Op::SgdUpdate(weights, gradient, learning_rate) => OpDescriptor::SgdUpdate {
                weights: *weights,
                gradient: *gradient,
                learning_rate: *learning_rate,
            },
            Op::MatMul(left, right, transpose_left, transpose_right) => OpDescriptor::MatMul {
                left: *left,
                right: *right,
                transpose_left: *transpose_left,
                transpose_right: *transpose_right,
            },
            Op::Relu(input) => OpDescriptor::Relu { input: *input },
            Op::ReluBackward(input, upstream) => OpDescriptor::ReluBackward {
                input: *input,
                upstream: *upstream,
            },
            Op::MeanSquaredError(prediction, target) => OpDescriptor::MeanSquaredError {
                prediction: *prediction,
                target: *target,
            },
        };
        NodeDescriptor { value, op, shape: node.shape.as_slice() }
    }

    /// The graph's nodes in their stable append order.
    pub fn nodes(&self) -> (nodes: Vec<NodeDescriptor<'_>>)
        ensures
            nodes@.len() == self.nodes@.len(),
            forall|i: int|
                0 <= i < nodes@.len() ==> (#[trigger] nodes@[i])@ == self.node_at(i),
    {
        let mut nodes: Vec<NodeDescriptor<'_>> = Vec::with_capacity(self.nodes.len());
        while nodes.len() < self.nodes.len()
            invariant
                nodes@.len() <= self.nodes@.len(),
                forall|i: int|
                    0 <= i < nodes@.len() ==> (#[trigger] nodes@[i])@ == self.node_at(i),
            decreases self.nodes@.len() - nodes@.len(),
        {
            nodes.push(self.node_descriptor(nodes.len()));
        }
        nodes
    }

    /// The shapes of all values, in append order.
    pub open spec fn shapes(self) -> Seq<Seq<usize>> {
        Seq::new(self.nodes@.len(), |i: int| self.nodes@[i].shape@)
    }

    /// Reports per-value output storage facts. The total is the sum of storage for every graph
    /// value; it is not a peak or live-memory estimate.
    pub fn requirements(&self) -> (requirements: TensorGraphRequirements<'_>)
        ensures
            requirements.values@.len() == self.nodes@.len(),
            forall|i: int|
                0 <= i < self.nodes@.len() ==> {
                    &&& (#[trigger] requirements.values@[i]).value == self.value_at(i)
                    &&& requirements.values@[i].shape@ == self.nodes@[i].shape@
                    &&& requirements.values@[i].output_bytes == output_bytes(self.nodes@[i].shape@)
                },
            requirements.total_value_bytes == if total_fits(self.shapes()) {
                Some(total_bytes(self.shapes()) as usize)
            } else {
                None
            },
    {
        let mut values: Vec<TensorValueRequirement<'_>> = Vec::with_capacity(self.nodes.len());
        let mut total: Option<usize> = Some(0);
        while values.len() < self.nodes.len()
            invariant
                values@.len() <= self.nodes@.len(),
                forall|i: int|
                    0 <= i < values@.len() ==> {
                        &&& (#[trigger] values@[i]).value == self.value_at(i)
                        &&& values@[i].shape@ == self.nodes@[i].shape@
                        &&& values@[i].output_bytes == output_bytes(self.nodes@[i].shape@)
                    },
                match total {
                    Some(t) => total_fits(self.shapes().take(values@.len() as int)) && t
                        == total_bytes(self.shapes().take(values@.len() as int)),
                    None => !total_fits(self.shapes()),
                },
            decreases self.nodes@.len() - values@.len(),
        {
            let index: usize = values.len();
            let shape: &[usize] = self.nodes[index].shape.as_slice();
            let bytes: Option<usize> = node_output_bytes(shape);
            proof {
                let shapes = self.shapes();
                assert(shapes.take(index + 1).drop_last() =~= shapes.take(index as int));
                assert(shapes.take(index + 1).last() == shape@);
            }
            total =
            match (total, bytes) {
                (Some(sum), Some(more)) => sum.checked_add(more),
                _ => None,
            };
            proof {
                if total is None && total_fits(self.shapes()) {
                    if total_fits(self.shapes().take(index + 1)) {
                        assert(false);
                    }
                    lemma_total_misfit_persists(self.shapes(), index + 1);
                }
            }
            values.push(
                TensorValueRequirement {
                    value: ValueId { graph_id: self.id, index },
                    shape,
                    output_bytes: bytes,
                },
            );
        }
        assert(self.shapes().take(self.nodes@.len() as int) =~= self.shapes());
        TensorGraphRequirements { values, total_value_bytes: total }
    }

    /// Assesses every node with the explicitly selected adapter in stable append order.
    pub fn assess_with<A: TensorOperationAssessor>(&self, assessor: &A) -> (assessment:
        TensorGraphAssessment<'_>)
        ensures
            assessment.nodes@.len() == self.nodes@.len(),
            forall|i: int|
                0 <= i < self.nodes@.len() ==> {
                    &&& (#[trigger] assessment.nodes@[i]).node@ == self.node_at(i)
                    &&& assessment.nodes@[i].output_bytes == output_bytes(self.nodes@[i].shape@)
                    &&& call_ensures(
                        A::assess_node,
                        (assessor, self, assessment.nodes@[i].node),
                        assessment.nodes@[i].support,
                    )
                },
    {
        let mut nodes: Vec<TensorNodeAssessment<'_>> = Vec::with_capacity(self.nodes.len());
        while nodes.len() < self.nodes.len()
            invariant
                nodes@.len() <= self.nodes@.len(),
                forall|i: int|
                    0 <= i < nodes@.len() ==> {
                        &&& (#[trigger] nodes@[i]).node@ == self.node_at(i)
                        &&& nodes@[i].output_bytes == output_bytes(self.nodes@[i].shape@)
                        &&& call_ensures(
                            A::assess_node,
                            (assessor, self, nodes@[i].node),
                            nodes@[i].support,
                        )
                    },
            decreases self.nodes@.len() - nodes@.len(),
        {
            let node: NodeDescriptor<'_> = self.node_descriptor(nodes.len());
            let support: TensorOperationSupport = assessor.assess_node(self, node);
            nodes.push(
                TensorNodeAssessment { node, support, output_bytes: node_output_bytes(node.shape) },
            );
        }
        TensorGraphAssessment { nodes }
    }
}

/// Nodes read only earlier nodes of their own graph: append order is a topological order.
pub proof fn law_append_order_is_topological(graph: Graph, at: int, k: int)
    requires
        graph.wf(),
        0 <= at < graph.nodes@.len(),
        0 <= k < consumes(graph.node_at(at).op).len(),
    ensures
        graph.knows(consumes(graph.node_at(at).op)[k]),
        consumes(graph.node_at(at).op)[k].index < at,
{
    lemma_described_reads(&graph.nodes@[at].op);
    assert(node_wf(graph.id, graph.nodes@, at));
    assert(precedes(graph.id, at, reads(graph.nodes@[at].op)[k]));
}

proof fn lemma_totals(graph: Graph, count: nat)
    requires
        count <= graph.nodes@.len(),
    ensures
        total_bytes(graph.shapes().take(count as int)) == 4 * total(
            count,
            |i: int| super::value::extent(1, graph.nodes@[i].shape@) as int,
        ),
    decreases count,
{
    let shapes = graph.shapes().take(count as int);
    if count > 0 {
        lemma_totals(graph, (count - 1) as nat);
        assert(shapes.drop_last() =~= graph.shapes().take(count - 1));
        super::value::law_extent_scales(4, graph.nodes@[count - 1].shape@);
    }
}

/// The total of a graph is four bytes for every element of every one of its values.
pub proof fn law_totals_count_every_element(graph: Graph)
    ensures
        total_bytes(graph.shapes()) == 4 * total(
            graph.nodes@.len(),
            |i: int| super::value::extent(1, graph.nodes@[i].shape@) as int,
        ),
{
    lemma_totals(graph, graph.nodes@.len());
    assert(graph.shapes().take(graph.nodes@.len() as int) =~= graph.shapes());
}

} // verus!
