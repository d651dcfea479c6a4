//! Preparation: a graph's requested outputs become a plan that the backend can run.
use vstd::prelude::*;
use vstd::slice::slice_to_vec;

use super::error::RocmTensorExecutionError;
use super::layout::{
    constraint_refused, layout_of, lemma_position_found, node_position, physical_constraint,
    physical_extent, physical_layouts, physicalize_storage_constraints, RocmPhysicalLayout,
};
use super::sizes::{allocatable, byte_len};
use crate::tensor::closed_operations::{lemma_one_producer, lemma_operation_node};
use crate::tensor::descriptor::{
    consumes, descriptor_reads, node_models, NodeDescriptor, OpDescriptor, TensorExecutionRoute,
    TensorOperandRepresentation, TensorOperationAssessor, TensorOperationSupport,
    TensorUnsupportedReason,
};
use crate::tensor::error::{contains_value, TensorError, ValueId};
use crate::tensor::graph::Graph;
use crate::tensor::groups::TensorPointwiseGroupingPolicy;
use crate::tensor::lowering::TensorSelectedLoweringPlan;
use crate::tensor::plan::TensorExecutionPlan;
use crate::tensor::rewrite::{
    lemma_rewritten_sound, lemma_without_orphans_sound, rewritten, sound_nodes,
    TensorArithmeticCapability, TensorArithmeticRewritePolicy,
};
use crate::tensor::schedule::{
    apart, conflict, constraint_table, law_constraints_are_the_conflicts, use_count,
};
use crate::tensor::storage::TensorStorageConstraint;

verus! {

/// What planning reports, as the backend reports it.
pub open spec fn planning_error(error: TensorError) -> RocmTensorExecutionError {
    match error {
        TensorError::EmptyOutputs => RocmTensorExecutionError::EmptyOutputs,
        TensorError::DuplicateOutput(value) => RocmTensorExecutionError::DuplicateOutput(value),
        other => RocmTensorExecutionError::Graph(other),
    }
}

fn report_planning_error(error: TensorError) -> (reported: RocmTensorExecutionError)
    ensures
        reported == planning_error(error),
{
    match error {
        TensorError::EmptyOutputs => RocmTensorExecutionError::EmptyOutputs,
        TensorError::DuplicateOutput(value) => RocmTensorExecutionError::DuplicateOutput(value),
        other => RocmTensorExecutionError::Graph(other),
    }
}

/// The route that the executor runs an operation on.
pub open spec fn expected_route(op: OpDescriptor<'_>) -> TensorExecutionRoute {
    match op {
        OpDescriptor::Input
        | OpDescriptor::Constant(_)
        | OpDescriptor::Uniform { .. }
        | OpDescriptor::ReluBackward { .. }
        | OpDescriptor::SgdUpdate { .. } => TensorExecutionRoute::Native,
        OpDescriptor::MatMul { .. } => TensorExecutionRoute::Library,
        OpDescriptor::Add { .. }
        | OpDescriptor::Sub { .. }
        | OpDescriptor::Mul { .. }
        | OpDescriptor::Relu { .. }
        | OpDescriptor::MeanSquaredError { .. } => TensorExecutionRoute::Synthesized,
    }
}

/// The route that the executor runs an operation on.
pub fn route_of(op: OpDescriptor<'_>) -> (route: TensorExecutionRoute)
    ensures
        route == expected_route(op),
{
    match op {
        OpDescriptor::Input => TensorExecutionRoute::Native,
        OpDescriptor::Constant(_) => TensorExecutionRoute::Native,
        OpDescriptor::Uniform { .. } => TensorExecutionRoute::Native,
        OpDescriptor::ReluBackward { .. } => TensorExecutionRoute::Native,
        OpDescriptor::SgdUpdate { .. } => TensorExecutionRoute::Native,
        OpDescriptor::MatMul { .. } => TensorExecutionRoute::Library,
        _ => TensorExecutionRoute::Synthesized,
    }
}

/// The node can be run, given what the assessor said of it.
pub open spec fn runnable(node: NodeDescriptor<'_>, support: TensorOperationSupport) -> bool {
    &&& support matches TensorOperationSupport::Supported { route, .. } && route == expected_route(
        node.op,
    )
    &&& allocatable(node.shape@)
}

/// Why the node cannot be run, given what the assessor said of it.
pub open spec fn refused(
    node: NodeDescriptor<'_>,
    support: TensorOperationSupport,
    error: RocmTensorExecutionError,
) -> bool {
    match support {
        TensorOperationSupport::Supported { route, .. } => if route == expected_route(node.op) {
            !allocatable(node.shape@) && error == RocmTensorExecutionError::SizeOverflow
        } else {
            error matches RocmTensorExecutionError::Unsupported {
                value,
                reason: TensorUnsupportedReason::Other(text),
            } && value == node.value && text@
                == "assessor selected a route this executor does not implement"@
        },
        TensorOperationSupport::Unsupported { reason } => error == (
        RocmTensorExecutionError::Unsupported { value: node.value, reason }),
    }
}

/// Whether the node can be run, given what the assessor said of it.
pub fn judge_node(node: NodeDescriptor<'_>, support: TensorOperationSupport) -> (verdict: Result<
    (),
    RocmTensorExecutionError,
>)
    ensures
        match verdict {
            Ok(()) => runnable(node, support),
            Err(error) => refused(node, support, error),
        },
{
    match support {
        TensorOperationSupport::Supported { route, .. } => {
            if route != route_of(node.op) {
                return Err(
                    RocmTensorExecutionError::Unsupported {
                        value: node.value,
                        reason: TensorUnsupportedReason::Other(
                            String::from_str(
                                "assessor selected a route this executor does not implement",
                            ),
                        ),
                    },
                );
            }
        },
        TensorOperationSupport::Unsupported { reason } => {
            return Err(RocmTensorExecutionError::Unsupported { value: node.value, reason });
        },
    }
    match byte_len(node.shape) {
        Ok(_) => Ok(()),
        Err(error) => Err(error),
    }
}

/// The assessor can have answered this of the node.
pub open spec fn assessed<A: TensorOperationAssessor>(
    assessor: &A,
    graph: &Graph,
    node: NodeDescriptor<'_>,
    support: TensorOperationSupport,
) -> bool {
    call_ensures(A::assess_node, (assessor, graph, node), support)
}

/// The assessor can have answered this to the question whether the node reads `value` as one
/// scalar.
pub open spec fn answered<A: TensorOperationAssessor>(
    assessor: &A,
    graph: &Graph,
    node: NodeDescriptor<'_>,
    value: ValueId,
    answer: bool,
) -> bool {
    call_ensures(
        A::supports_operand_representation,
        (assessor, graph, node, value, TensorOperandRepresentation::UniformScalar),
        answer,
    )
}

/// The assessor took the node.
pub open spec fn taken<A: TensorOperationAssessor>(
    assessor: &A,
    graph: &Graph,
    node: NodeDescriptor<'_>,
) -> bool {
    exists|support: TensorOperationSupport| #[trigger]
        assessed(assessor, graph, node, support) && runnable(node, support)
}

/// The assessor's answer, or the node's size, is why the node was refused.
pub open spec fn turned_down<A: TensorOperationAssessor>(
    assessor: &A,
    graph: &Graph,
    node: NodeDescriptor<'_>,
    error: RocmTensorExecutionError,
) -> bool {
    exists|support: TensorOperationSupport| #[trigger]
        assessed(assessor, graph, node, support) && refused(node, support, error)
}

/// Asks the assessor about every node.
fn assess_nodes<A: TensorOperationAssessor>(
    graph: &Graph,
    nodes: &[NodeDescriptor<'_>],
    assessor: &A,
) -> (verdict: Result<(), RocmTensorExecutionError>)
    ensures
        match verdict {
            Ok(()) => forall|i: int|
                0 <= i < nodes@.len() ==> taken(assessor, graph, #[trigger] nodes@[i]),
            Err(error) => exists|i: int|
                0 <= i < nodes@.len() && turned_down(assessor, graph, #[trigger] nodes@[i], error)
                    && forall|j: int|
                    0 <= j < i ==> taken(assessor, graph, #[trigger] nodes@[j]),
        },
{
    let mut at: usize = 0;
    while at < nodes.len()
        invariant
            at <= nodes@.len(),
            forall|i: int| 0 <= i < at ==> taken(assessor, graph, #[trigger] nodes@[i]),
        decreases nodes@.len() - at,
    {
        let node: NodeDescriptor<'_> = nodes[at];
        let support: TensorOperationSupport = assessor.assess_node(graph, node);
        let ghost said = support;
        assert(assessed(assessor, graph, node, said));
        match judge_node(node, support) {
            Ok(()) => {
                assert(taken(assessor, graph, nodes@[at as int]));
            },
            Err(error) => {
                assert(turned_down(assessor, graph, nodes@[at as int], error));
                return Err(error);
            },
        }
        at += 1;
    }
    Ok(())
}

/// The node is filled with one value and is not handed out.
pub open spec fn compactable(node: NodeDescriptor<'_>, outputs: Seq<ValueId>) -> bool {
    node.op is Uniform && !outputs.contains(node.value)
}

/// A filled tensor is kept as one scalar only if every node that reads it was said to take one.
pub open spec fn compact_answer<A: TensorOperationAssessor>(
    assessor: &A,
    graph: &Graph,
    nodes: Seq<NodeDescriptor<'_>>,
    outputs: Seq<ValueId>,
    at: int,
    compact: bool,
) -> bool {
    if compact {
        &&& compactable(nodes[at], outputs)
        &&& forall|q: int|
            0 <= q < nodes.len() && consumes((#[trigger] nodes[q]).op).contains(nodes[at].value)
                ==> answered(assessor, graph, nodes[q], nodes[at].value, true)
    } else {
        compactable(nodes[at], outputs) ==> exists|q: int|
            0 <= q < nodes.len() && consumes((#[trigger] nodes[q]).op).contains(nodes[at].value)
                && answered(assessor, graph, nodes[q], nodes[at].value, false)
    }
}

/// Whether every node that reads the filled tensor at `at` takes one scalar.
///
/// The links of a pointwise group are nodes themselves, so their reads are among these.
fn readers_take_scalar<A: TensorOperationAssessor>(
    graph: &Graph,
    nodes: &[NodeDescriptor<'_>],
    assessor: &A,
    at: usize,
) -> (answer: bool)
    requires
        at < nodes@.len(),
    ensures
        answer ==> forall|q: int|
            0 <= q < nodes@.len() && consumes((#[trigger] nodes@[q]).op).contains(
                nodes@[at as int].value,
            ) ==> answered(assessor, graph, nodes@[q], nodes@[at as int].value, true),
        !answer ==> exists|q: int|
            0 <= q < nodes@.len() && consumes((#[trigger] nodes@[q]).op).contains(
                nodes@[at as int].value,
            ) && answered(assessor, graph, nodes@[q], nodes@[at as int].value, false),
{
    let value: ValueId = nodes[at].value;
    let mut q: usize = 0;
    while q < nodes.len()
        invariant
            q <= nodes@.len(),
            at < nodes@.len(),
            value == nodes@[at as int].value,
            forall|i: int|
                0 <= i < q && consumes((#[trigger] nodes@[i]).op).contains(value) ==> answered(
                    assessor,
                    graph,
                    nodes@[i],
                    value,
                    true,
                ),
        decreases nodes@.len() - q,
    {
        let node: NodeDescriptor<'_> = nodes[q];
        if descriptor_reads(node.op, value) {
            let takes: bool = assessor.supports_operand_representation(
                graph,
                node,
                value,
                TensorOperandRepresentation::UniformScalar,
            );
            assert(answered(assessor, graph, nodes@[q as int], value, takes));
            if !takes {
                return false;
            }
        }
        q += 1;
    }
    true
}

/// Marks the filled tensors that are kept as one scalar.
pub fn compact_uniform_candidates<A: TensorOperationAssessor>(
    graph: &Graph,
    nodes: &[NodeDescriptor<'_>],
    outputs: &[ValueId],
    assessor: &A,
) -> (compact: Vec<bool>)
    ensures
        compact@.len() == nodes@.len(),
        forall|i: int|
            0 <= i < nodes@.len() ==> compact_answer(
                assessor,
                graph,
                nodes@,
                outputs@,
                i,
                #[trigger] compact@[i],
            ),
{
    let mut compact: Vec<bool> = Vec::with_capacity(nodes.len());
    while compact.len() < nodes.len()
        invariant
            compact@.len() <= nodes@.len(),
            forall|i: int|
                0 <= i < compact@.len() ==> compact_answer(
                    assessor,
                    graph,
                    nodes@,
                    outputs@,
                    i,
                    #[trigger] compact@[i],
                ),
        decreases nodes@.len() - compact@.len(),
    {
        let at: usize = compact.len();
        let node: NodeDescriptor<'_> = nodes[at];
        let uniform: bool = match node.op {
            OpDescriptor::Uniform { .. } => true,
            _ => false,
        };
        let kept: bool = uniform && !contains_value(outputs, node.value) && readers_take_scalar(
            graph,
            nodes,
            assessor,
            at,
        );
        compact.push(kept);
    }
    compact
}

/// The value has an operation of its own.
pub open spec fn is_scheduled(lowering: TensorSelectedLoweringPlan<'_>, value: ValueId) -> bool {
    exists|p: int|
        0 <= p < lowering.operation_steps().len() && (
        #[trigger] lowering.operation_steps()[p]).value == value
}

/// How often the operations of a lowering use a value. One that a group computes on the way to
/// another result is not used at all.
pub open spec fn scheduled_uses(lowering: TensorSelectedLoweringPlan<'_>, value: ValueId) -> nat {
    if is_scheduled(lowering, value) {
        use_count(lowering.operation_steps(), lowering.output_values@, value)
    } else {
        0
    }
}

/// Counts the uses of every node's value.
fn count_scheduled_uses(lowering: &TensorSelectedLoweringPlan<'_>) -> (counts: Vec<usize>)
    requires
        lowering.wf(),
    ensures
        counts@.len() == lowering.nodes@.len(),
        forall|i: int|
            0 <= i < counts@.len() ==> #[trigger] counts@[i] == scheduled_uses(
                *lowering,
                lowering.nodes@[i].value,
            ),
{
    let nodes: &[NodeDescriptor<'_>] = lowering.nodes();
    let mut counts: Vec<usize> = Vec::with_capacity(nodes.len());
    while counts.len() < nodes.len()
        invariant
            counts@.len() <= nodes@.len(),
            lowering.wf(),
            nodes@ == lowering.nodes@,
            forall|i: int|
                0 <= i < counts@.len() ==> #[trigger] counts@[i] == scheduled_uses(
                    *lowering,
                    lowering.nodes@[i].value,
                ),
        decreases nodes@.len() - counts@.len(),
    {
        let value: ValueId = nodes[counts.len()].value;
        let count: usize = match lowering.operation_index_of(value) {
            Some(p) => {
                assert(lowering.operation_steps()[p as int].value == value);
                assert(is_scheduled(*lowering, value));
                lowering.operation_use_counts()[p]
            },
            None => {
                assert(!is_scheduled(*lowering, value));
                0
            },
        };
        counts.push(count);
    }
    counts
}

/// A structurally validated plan for the requested outputs of one graph.
#[derive(Debug)]
pub struct RocmPreparedTensorGraph<'graph> {
    pub graph: &'graph Graph,
    pub plan: TensorExecutionPlan<'graph>,
    pub lowering_plan: TensorSelectedLoweringPlan<'graph>,
    pub rewriting: TensorArithmeticRewritePolicy,
    pub arithmetic: TensorArithmeticCapability,
    pub grouping: TensorPointwiseGroupingPolicy,
    pub outputs: Vec<ValueId>,
    /// How often each node's value is used.
    pub use_counts: Vec<usize>,
    /// How each node's value is kept.
    pub layouts: Vec<RocmPhysicalLayout>,
    pub storage_constraints: Vec<TensorStorageConstraint>,
}

impl<'graph> RocmPreparedTensorGraph<'graph> {
    /// The schedule of the requested outputs and its storage facts.
    pub fn tensor_plan(&self) -> (plan: &TensorExecutionPlan<'graph>)
        ensures
            *plan == self.plan,
    {
        &self.plan
    }

    /// The lowering that the schedule runs.
    pub fn lowering_plan(&self) -> (lowering: &TensorSelectedLoweringPlan<'graph>)
        ensures
            *lowering == self.lowering_plan,
    {
        &self.lowering_plan
    }

    /// The selected nodes, in order.
    pub open spec fn nodes(&self) -> Seq<NodeDescriptor<'graph>> {
        self.lowering_plan.nodes@
    }

    /// The value of the node at `at` is kept as one scalar.
    pub open spec fn is_compact(&self, at: int) -> bool {
        self.layouts@[at].representation is UniformScalar
    }

    /// Everything that the preparation records follows from the graph, the requested outputs, the
    /// policies, and the choice of the values that are kept as one scalar.
    pub open spec fn wf(&self) -> bool {
        let nodes = self.nodes();
        let logical = constraint_table(
            self.lowering_plan.live_operations(),
            self.lowering_plan.live_operations().len() as int,
        );
        &&& self.plan.wf()
        &&& self.plan.graph == self.graph
        &&& self.plan.output_values@ == self.outputs@
        &&& self.outputs@.len() > 0
        &&& self.lowering_plan.wf()
        &&& self.lowering_plan.selects(
            self.plan,
            self.rewriting,
            self.arithmetic,
            self.grouping,
        )
        &&& self.use_counts@.len() == nodes.len()
        &&& forall|i: int|
            0 <= i < nodes.len() ==> #[trigger] self.use_counts@[i] == scheduled_uses(
                self.lowering_plan,
                nodes[i].value,
            )
        &&& self.layouts@.len() == nodes.len()
        &&& forall|i: int|
            0 <= i < nodes.len() ==> #[trigger] self.layouts@[i] == layout_of(
                nodes[i].shape@,
                self.is_compact(i),
            )
        &&& forall|i: int|
            0 <= i < nodes.len() ==> allocatable((#[trigger] nodes[i]).shape@)
        &&& forall|i: int|
            0 <= i < nodes.len() && #[trigger] self.is_compact(i) ==> compactable(
                nodes[i],
                self.outputs@,
            )
        &&& self.storage_constraints@.len() == logical.len()
        &&& forall|i: int|
            0 <= i < logical.len() ==> physical_constraint(
                nodes,
                self.layouts@,
                logical[i],
                #[trigger] self.storage_constraints@[i],
            )
    }

    /// The selected nodes are nodes of the graph, in append order.
    pub proof fn lemma_nodes_sound(&self)
        requires
            self.wf(),
        ensures
            sound_nodes(*self.graph, node_models(self.nodes())),
    {
        let candidates = self.plan.candidates(self.rewriting, self.arithmetic);
        lemma_rewritten_sound(self.plan, self.rewriting, self.arithmetic);
        lemma_without_orphans_sound(
            *self.plan.graph,
            candidates,
            rewritten(candidates, self.plan.node_models()),
            self.plan.output_values@,
        );
    }

    /// The assessor took every node, and affirmed every reader of a value that is kept as one
    /// scalar.
    pub open spec fn assessed_by<A: TensorOperationAssessor>(&self, assessor: &A) -> bool {
        &&& forall|i: int|
            0 <= i < self.nodes().len() ==> taken(
                assessor,
                self.graph,
                #[trigger] self.nodes()[i],
            )
        &&& forall|i: int|
            0 <= i < self.nodes().len() ==> compact_answer(
                assessor,
                self.graph,
                self.nodes(),
                self.outputs@,
                i,
                #[trigger] self.is_compact(i),
            )
    }
}

/// Planning refuses the requested outputs.
pub open spec fn planning_fails(
    graph: Graph,
    outputs: Seq<ValueId>,
    error: RocmTensorExecutionError,
) -> bool {
    ||| outputs.len() == 0 && error == RocmTensorExecutionError::EmptyOutputs
    ||| exists|k: int|
        {
            &&& 0 <= k < outputs.len()
            &&& (#[trigger] graph.output_fault(outputs, k)) is Some
            &&& error == planning_error(graph.output_fault(outputs, k)->Some_0)
            &&& forall|j: int| 0 <= j < k ==> #[trigger] graph.output_fault(outputs, j) is None
        }
}

/// The first node of the selected lowering that the assessor does not take is refused.
pub open spec fn lowering_fails<A: TensorOperationAssessor>(
    assessor: &A,
    graph: &Graph,
    lowering: TensorSelectedLoweringPlan<'_>,
    error: RocmTensorExecutionError,
) -> bool {
    let nodes = lowering.nodes@;
    exists|i: int|
        0 <= i < nodes.len() && turned_down(assessor, graph, #[trigger] nodes[i], error) && forall|
            j: int,
        |
            0 <= j < i ==> taken(assessor, graph, #[trigger] nodes[j])
}

/// The selected lowering of the requested outputs fails.
pub open spec fn selection_fails<A: TensorOperationAssessor>(
    assessor: &A,
    graph: &Graph,
    outputs: Seq<ValueId>,
    policies: (
        TensorArithmeticRewritePolicy,
        TensorArithmeticCapability,
        TensorPointwiseGroupingPolicy,
    ),
    error: RocmTensorExecutionError,
) -> bool {
    exists|plan: TensorExecutionPlan<'_>, lowering: TensorSelectedLoweringPlan<'_>|
        #![trigger lowering.selects(plan, policies.0, policies.1, policies.2)]
        {
            &&& plan.wf()
            &&& plan.graph == graph
            &&& plan.output_values@ == outputs
            &&& lowering.wf()
            &&& lowering.selects(plan, policies.0, policies.1, policies.2)
            &&& lowering_fails(assessor, graph, lowering, error)
        }
}

/// The storage constraints of a lowering whose values can all be allocated can be restated for any
/// choice of the values that are kept as one scalar.
proof fn lemma_restatable(
    lowering: TensorSelectedLoweringPlan<'_>,
    plan: TensorExecutionPlan<'_>,
    policies: (
        TensorArithmeticRewritePolicy,
        TensorArithmeticCapability,
        TensorPointwiseGroupingPolicy,
    ),
    layouts: Seq<RocmPhysicalLayout>,
    compact: Seq<bool>,
    p: int,
)
    requires
        plan.wf(),
        lowering.wf(),
        lowering.selects(plan, policies.0, policies.1, policies.2),
        layouts.len() == lowering.nodes@.len(),
        forall|i: int|
            0 <= i < layouts.len() ==> #[trigger] layouts[i] == layout_of(
                lowering.nodes@[i].shape@,
                compact[i],
            ),
        forall|i: int|
            0 <= i < lowering.nodes@.len() ==> allocatable((#[trigger] lowering.nodes@[i]).shape@),
        0 <= p < lowering.operations@.len(),
    ensures
        lowering.live_operations()[p].bytes matches Some(bytes) && physical_extent(
            lowering.nodes@,
            layouts,
            lowering.live_operations()[p].value,
            bytes as u64,
        ) is Some,
{
    let candidates = plan.candidates(policies.0, policies.1);
    lemma_rewritten_sound(plan, policies.0, policies.1);
    lemma_without_orphans_sound(
        *plan.graph,
        candidates,
        rewritten(candidates, plan.node_models()),
        plan.output_values@,
    );
    let at = lemma_operation_node(lowering, plan, policies.0, policies.1, policies.2, p);
    let nodes = lowering.nodes@;
    assert(allocatable(nodes[at].shape@));
    lemma_position_found(nodes, nodes[at].value);
    let found = node_position(nodes, nodes[at].value)->Some_0;
    let models = node_models(nodes);
    assert(models[at] == nodes[at]@ && models[found] == nodes[found]@);
    lemma_one_producer(*plan.graph, models, at, found);
    assert(layouts[at] == layout_of(nodes[at].shape@, compact[at]));
}

/// Lays the values of an assessed lowering out and restates its storage constraints.
fn lay_out<'a>(
    lowering: &TensorSelectedLoweringPlan<'a>,
    compact: &[bool],
    plan: &TensorExecutionPlan<'a>,
    policies: Ghost<
        (
            TensorArithmeticRewritePolicy,
            TensorArithmeticCapability,
            TensorPointwiseGroupingPolicy,
        ),
    >,
) -> (parts: (Vec<RocmPhysicalLayout>, Vec<TensorStorageConstraint>))
    requires
        plan.wf(),
        lowering.wf(),
        lowering.selects(*plan, policies@.0, policies@.1, policies@.2),
        compact@.len() == lowering.nodes@.len(),
        forall|i: int|
            0 <= i < lowering.nodes@.len() ==> allocatable((#[trigger] lowering.nodes@[i]).shape@),
    ensures
        ({
            let (layouts, physical) = parts;
            let logical = constraint_table(
                lowering.live_operations(),
                lowering.live_operations().len() as int,
            );
            &&& layouts@.len() == lowering.nodes@.len()
            &&& forall|i: int|
                0 <= i < layouts@.len() ==> #[trigger] layouts@[i] == layout_of(
                    lowering.nodes@[i].shape@,
                    compact@[i],
                )
            &&& physical@.len() == logical.len()
            &&& forall|i: int|
                0 <= i < logical.len() ==> physical_constraint(
                    lowering.nodes@,
                    layouts@,
                    logical[i],
                    #[trigger] physical@[i],
                )
        }),
{
    let layouts: Vec<RocmPhysicalLayout> = match physical_layouts(lowering.nodes(), compact) {
        Ok(layouts) => layouts,
        Err(_) => {
            assert(false);
            Vec::new()
        },
    };
    let ghost live = lowering.live_operations();
    proof {
        assert forall|p: int| 0 <= p < live.len() implies (#[trigger] live[p]).bytes is Some
            && physical_extent(
            lowering.nodes@,
            layouts@,
            live[p].value,
            live[p].bytes->Some_0 as u64,
        ) is Some by {
            lemma_restatable(*lowering, *plan, policies@, layouts@, compact@, p);
        }
    }
    let logical: Vec<TensorStorageConstraint> = match lowering.operation_storage_constraints() {
        Ok(logical) => logical,
        Err(_) => {
            assert(false);
            Vec::new()
        },
    };
    let physical: Vec<TensorStorageConstraint> = match physicalize_storage_constraints(
        logical.as_slice(),
        lowering.nodes(),
        layouts.as_slice(),
    ) {
        Ok(physical) => physical,
        Err(error) => {
            proof {
                let i = choose|i: int|
                    0 <= i < logical@.len() && constraint_refused(
                        lowering.nodes@,
                        layouts@,
                        #[trigger] logical@[i],
                        error,
                    );
                law_constraints_are_the_conflicts(live);
                assert(constraint_table(live, live.len() as int).contains(logical@[i]));
                let (left, right) = choose|left: int, right: int|
                    0 <= left < right < live.len() && #[trigger] conflict(live, left, right)
                        && logical@[i] == apart(live, left, right);
                assert(live[left].bytes is Some && live[right].bytes is Some);
                assert(false);
            }
            Vec::new()
        },
    };
    (layouts, physical)
}

/// Prepares requested outputs under explicit policies and an explicitly declared arithmetic
/// capability of the target.
///
/// # Errors
///
/// The requested outputs are empty, repeated or unknown; or the first node that the assessor
/// refuses, takes on a route that the executor does not run, or whose size cannot be represented.
pub fn prepare_graph_outputs_plan_with_policies<'a, A: TensorOperationAssessor>(
    graph: &'a Graph,
    outputs: &[ValueId],
    assessor: &A,
    policy: TensorArithmeticRewritePolicy,
    arithmetic: TensorArithmeticCapability,
    grouping: TensorPointwiseGroupingPolicy,
) -> (answer: Result<RocmPreparedTensorGraph<'a>, RocmTensorExecutionError>)
    requires
        graph.wf(),
        graph.countable(),
    ensures
        match answer {
            Ok(prepared) => {
                &&& prepared.wf()
                &&& prepared.graph == graph
                &&& prepared.outputs@ == outputs@
                &&& prepared.rewriting == policy
                &&& prepared.arithmetic == arithmetic
                &&& prepared.grouping == grouping
                &&& prepared.assessed_by(assessor)
                &&& graph.outputs_valid(outputs@)
            },
            Err(error) => planning_fails(*graph, outputs@, error) || selection_fails(
                assessor,
                graph,
                outputs@,
                (policy, arithmetic, grouping),
                error,
            ),
        },
{
    let plan: TensorExecutionPlan<'a> = match graph.execution_plan_for_outputs(outputs) {
        Ok(plan) => plan,
        Err(error) => {
            return Err(report_planning_error(error));
        },
    };
    let lowering: TensorSelectedLoweringPlan<'a> = plan.select_lowering_with_grouping(
        policy,
        arithmetic,
        grouping,
    );
    let ghost policies = (policy, arithmetic, grouping);
    assert(lowering.selects(plan, policies.0, policies.1, policies.2));
    if let Err(error) = assess_nodes(graph, lowering.nodes(), assessor) {
        assert(lowering_fails(assessor, graph, lowering, error));
        assert(selection_fails(assessor, graph, outputs@, policies, error));
        return Err(error);
    }
    let use_counts: Vec<usize> = count_scheduled_uses(&lowering);
    let compact: Vec<bool> = compact_uniform_candidates(
        graph,
        lowering.nodes(),
        outputs,
        assessor,
    );
    proof {
        assert forall|i: int| 0 <= i < lowering.nodes@.len() implies allocatable(
            (#[trigger] lowering.nodes@[i]).shape@,
        ) by {
            assert(taken(assessor, graph, lowering.nodes@[i]));
        }
    }
    let (layouts, storage_constraints): (
        Vec<RocmPhysicalLayout>,
        Vec<TensorStorageConstraint>,
    ) = lay_out(&lowering, compact.as_slice(), &plan, Ghost(policies));
    let prepared: RocmPreparedTensorGraph<'a> = RocmPreparedTensorGraph {
        graph,
        plan,
        lowering_plan: lowering,
        rewriting: policy,
        arithmetic,
        grouping,
        outputs: slice_to_vec(outputs),
        use_counts,
        layouts,
        storage_constraints,
    };
    proof {
        assert forall|i: int| 0 <= i < prepared.nodes().len() implies #[trigger] prepared.is_compact(
            i,
        ) == compact@[i] by {
            assert(prepared.layouts@[i] == layout_of(prepared.nodes()[i].shape@, compact@[i]));
        }
        assert forall|i: int| 0 <= i < prepared.nodes().len() && #[trigger] prepared.is_compact(
            i,
        ) implies compactable(prepared.nodes()[i], prepared.outputs@) by {
            assert(compact_answer(assessor, graph, prepared.nodes(), outputs@, i, compact@[i]));
        }
        assert forall|i: int| 0 <= i < prepared.nodes().len() implies compact_answer(
            assessor,
            prepared.graph,
            prepared.nodes(),
            prepared.outputs@,
            i,
            #[trigger] prepared.is_compact(i),
        ) by {
            assert(compact_answer(assessor, graph, prepared.nodes(), outputs@, i, compact@[i]));
        }
    }
    Ok(prepared)
}

} // verus!
