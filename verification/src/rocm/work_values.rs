//! The planned work of a node computes the value of the node from the values at its operands.
use vstd::arithmetic::div_mod::lemma_small_mod;
use vstd::prelude::*;

use super::assess::RocmTensorAssessor;
use super::execute::{bound_values, RocmMode, RocmNodeWork, RocmWork};
use super::graph_values::{
    dispatched_element, law_dispatches_compute_the_graph, request_mask,
};
use super::kernel_values::{operand_elements, KernelRules};
use super::kernels::masked;
use super::layout::{layout_of, lemma_position_found, node_position};
use super::node_work::node_takes;
use super::prepare::RocmPreparedTensorGraph;
use super::requests::law_masks_mark_their_operands;
use super::sizes::allocatable;
use super::sources::RocmTensorInput;
use crate::pcu::ir::PcuDispatchIndex;
use crate::tensor::arithmetic::F32Arithmetic;
use crate::tensor::closed_operations::lemma_group_node;
use crate::tensor::descriptor::{consumes, NodeModel, OpDescriptor};
use crate::tensor::deterministic::ArithmeticRules;
use crate::tensor::error::ValueId;
use crate::tensor::evaluate::{evaluation_answer, Execution};
use crate::tensor::evaluation_laws::{
    element_by_element, law_values_mean_what_nodes_say, matrix_product, mean_squared_difference,
};
use crate::tensor::graph::{node_wf, precedes, reads, Graph};
use crate::tensor::groups::{refers_back, TensorPointwiseGroupingPolicy};
use crate::tensor::lowered_values::{
    evaluated_elements, law_evaluations_agree, law_rewriting_keeps_values,
};
use crate::tensor::lowering::OperationModel;
use crate::tensor::rewrite::{
    lemma_rewrite_is_candidate, orphaned, rewrite_of, rewritten, rewritten_node,
    TensorArithmeticRewritePolicy,
};
use crate::tensor::value::{extent, Tensor};

verus! {

/// The operands of the work are the nodes that produce these two values, in this order.
pub open spec fn binds_pair(
    prepared: RocmPreparedTensorGraph<'_>,
    operands: Seq<usize>,
    first: ValueId,
    second: ValueId,
) -> bool {
    &&& operands.len() == 2
    &&& operands[0] < prepared.nodes().len()
    &&& operands[1] < prepared.nodes().len()
    &&& prepared.nodes()[operands[0] as int].value == first
    &&& prepared.nodes()[operands[1] as int].value == second
}

/// How many elements a shape has.
pub open spec fn elements_of(shape: Seq<usize>) -> nat
    decreases shape.len(),
{
    if shape.len() == 0 {
        1
    } else {
        elements_of(shape.drop_last()) * shape.last() as nat
    }
}

proof fn lemma_elements(unit: nat, shape: Seq<usize>)
    ensures
        extent(unit, shape) == unit * elements_of(shape),
    decreases shape.len(),
{
    if shape.len() > 0 {
        lemma_elements(unit, shape.drop_last());
        let (a, b, c) = (unit, elements_of(shape.drop_last()), shape.last() as nat);
        assert((a * b) * c == a * (b * c)) by (nonlinear_arith);
    } else {
        assert(unit * 1 == unit) by (nonlinear_arith);
    }
}

proof fn lemma_bound_pair(
    prepared: RocmPreparedTensorGraph<'_>,
    operation: OperationModel<'_>,
    operands: Seq<usize>,
    first: ValueId,
    second: ValueId,
)
    requires
        super::execute::locates(prepared.nodes(), bound_values(operation), operands),
        bound_values(operation) == seq![first, second],
    ensures
        binds_pair(prepared, operands, first, second),
{
    let bound = bound_values(operation);
    assert(bound[0] == first && bound[1] == second);
    assert(node_position(prepared.nodes(), bound[0]) == Some(operands[0] as int));
    assert(node_position(prepared.nodes(), bound[1]) == Some(operands[1] as int));
    lemma_position_found(prepared.nodes(), first);
    lemma_position_found(prepared.nodes(), second);
}

/// The work of a node is the work of its operation. An update of weights binds the weights and
/// then the gradient, and takes the update's own rate. The gradient of a `ReLU` binds the input and
/// then the upstream gradient. A matrix product binds its factors, left and right, with their
/// shapes and transposes. A mean squared error binds prediction and target. Each covers as many
/// elements as there are. An input takes the tensor that was handed in for it, and prefers one that
/// is on the device already; a constant takes its own tensor, and a filled one its value.
pub proof fn law_work_is_that_of_its_node(
    prepared: RocmPreparedTensorGraph<'_>,
    host: Seq<(ValueId, Tensor)>,
    inputs: Seq<(ValueId, &RocmTensorInput)>,
    mode: RocmMode,
    at: int,
    taken: RocmNodeWork<'_>,
)
    requires
        prepared.wf(),
        0 <= at < prepared.nodes().len(),
        prepared.operation_at(at) matches Some(operation) && node_takes(
            prepared,
            host,
            inputs,
            mode,
            at,
            operation,
            taken,
        ),
    ensures
        ({
            let node = prepared.nodes()[at];
            let operands = taken.operands@;
            let requested = prepared.outputs@.contains(node.value);
            match node.op {
                OpDescriptor::Input => {
                    &&& operands.len() == 0
                    &&& match taken.work {
                        RocmWork::CopyInput { source, bytes } => {
                            &&& mode.bank && requested && taken.flush
                            &&& source < inputs.len() && inputs[source as int].0 == node.value
                            &&& bytes == 4 * elements_of(node.shape@)
                        },
                        RocmWork::ShareInput { source } => {
                            &&& !(mode.bank && requested) && !taken.flush
                            &&& source < inputs.len() && inputs[source as int].0 == node.value
                        },
                        RocmWork::TransferInput { source } => {
                            &&& mode.bank && requested && taken.flush
                            &&& source < host.len() && host[source as int].0 == node.value
                            &&& forall|j: int|
                                0 <= j < inputs.len() ==> (#[trigger] inputs[j]).0 != node.value
                        },
                        RocmWork::UploadInput { source } => {
                            &&& !(mode.bank && requested) && taken.flush
                            &&& source < host.len() && host[source as int].0 == node.value
                            &&& forall|j: int|
                                0 <= j < inputs.len() ==> (#[trigger] inputs[j]).0 != node.value
                        },
                        _ => false,
                    }
                },
                OpDescriptor::Constant(_) => {
                    &&& operands.len() == 0
                    &&& if mode.scratch && !requested {
                        taken.work is Lease && !taken.flush
                    } else {
                        taken.work is Constant && taken.flush
                    }
                },
                OpDescriptor::Uniform { value } => {
                    &&& operands.len() == 0
                    &&& if mode.scratch && !requested {
                        taken.work is Lease && !taken.flush
                    } else {
                        &&& taken.flush
                        &&& taken.work matches RocmWork::Filled(tensor) && {
                            &&& forall|k: int|
                                0 <= k < tensor@.data.len() ==> #[trigger] tensor@.data[k] == value
                            &&& tensor@.data.len() == if prepared.is_compact(at) {
                                1
                            } else {
                                elements_of(node.shape@)
                            }
                        }
                    }
                },
                OpDescriptor::SgdUpdate { weights, gradient, learning_rate } => {
                    &&& binds_pair(prepared, operands, weights, gradient)
                    &&& taken.work matches RocmWork::SgdUpdate { count, learning_rate: rate, .. }
                        && count == elements_of(node.shape@) && rate == learning_rate
                    &&& !taken.flush
                },
                OpDescriptor::ReluBackward { input, upstream } => {
                    &&& binds_pair(prepared, operands, input, upstream)
                    &&& taken.work matches RocmWork::ReluBackward { count } && count == elements_of(
                        node.shape@,
                    )
                    &&& !taken.flush
                },
                OpDescriptor::MatMul { left, right, transpose_left, transpose_right } => {
                    &&& binds_pair(prepared, operands, left, right)
                    &&& taken.work matches RocmWork::MatMul {
                        left_shape,
                        right_shape,
                        transpose_left: tl,
                        transpose_right: tr,
                    } && left_shape@ == prepared.nodes()[operands[0] as int].shape@ && right_shape@
                        == prepared.nodes()[operands[1] as int].shape@ && tl == transpose_left && tr
                        == transpose_right
                    &&& taken.flush
                },
                OpDescriptor::MeanSquaredError { prediction, target } => {
                    &&& binds_pair(prepared, operands, prediction, target)
                    &&& taken.work matches RocmWork::MeanSquaredError { count, .. } && count
                        == elements_of(prepared.nodes()[operands[0] as int].shape@)
                    &&& taken.flush
                },
                OpDescriptor::Add { .. } | OpDescriptor::Sub { .. } | OpDescriptor::Mul { .. }
                | OpDescriptor::Relu { .. } => taken.work is Dispatch && !taken.flush,
            }
        }),
{
    let node = prepared.nodes()[at];
    let operation = prepared.operation_at(at)->Some_0;
    let operands = taken.operands@;
    lemma_group_node(
        prepared.lowering_plan,
        prepared.plan,
        prepared.rewriting,
        prepared.arithmetic,
        prepared.grouping,
        at,
    );
    lemma_elements(1, node.shape@);
    lemma_elements(4, node.shape@);
    prepared.lemma_nodes_sound();
    let models = crate::tensor::descriptor::node_models(prepared.nodes());
    match node.op {
        OpDescriptor::SgdUpdate { weights, gradient, .. } => {
            lemma_bound_pair(prepared, operation, operands, weights, gradient);
        },
        OpDescriptor::ReluBackward { input, upstream } => {
            lemma_bound_pair(prepared, operation, operands, input, upstream);
        },
        OpDescriptor::MatMul { left, right, .. } => {
            lemma_bound_pair(prepared, operation, operands, left, right);
            assert(models[operands[0] as int] == prepared.nodes()[operands[0] as int]@);
            assert(models[operands[1] as int] == prepared.nodes()[operands[1] as int]@);
        },
        OpDescriptor::MeanSquaredError { prediction, target } => {
            lemma_bound_pair(prepared, operation, operands, prediction, target);
            assert(models[operands[0] as int] == prepared.nodes()[operands[0] as int]@);
            lemma_elements(1, prepared.graph.shape_of(prediction));
        },
        _ => {},
    }
}

/// What the instructions of kernels do under the rules of the reference arithmetic.
pub open spec fn kernel_rules(rules: ArithmeticRules) -> KernelRules {
    KernelRules {
        sum: rules.sum,
        difference: rules.difference,
        product: rules.product,
        larger: rules.maximum,
    }
}

/// The bindings of a kernel hold the values at the operands of the work: a value that is kept as
/// one scalar at the start of its binding, any other one element for every invocation. The
/// invocation is the one for element `k`.
pub open spec fn bindings_hold(
    prepared: RocmPreparedTensorGraph<'_>,
    execution: Execution,
    operands: Seq<usize>,
    k: int,
    loaded: spec_fn(u32, PcuDispatchIndex) -> u32,
) -> bool {
    forall|i: int|
        0 <= i < operands.len() ==> {
            let at = (#[trigger] operands[i]) as int;
            let data = execution.values@[prepared.nodes()[at].value.index as int]@.data;
            if prepared.is_compact(at) {
                loaded(i as u32, PcuDispatchIndex::BindingElementZero) == data[0]
            } else {
                loaded(i as u32, PcuDispatchIndex::InvocationId) == data[k % data.len() as int]
            }
        }
}

/// A node of the schedule is that of the graph, unless it is an update that replaces the
/// difference of weights and a uniform multiple of their gradient.
proof fn lemma_node_of_graph(prepared: RocmPreparedTensorGraph<'_>, at: int)
    requires
        prepared.wf(),
        0 <= at < prepared.nodes().len(),
    ensures
        prepared.graph.knows(prepared.nodes()[at].value),
        prepared.nodes()[at].shape@ == prepared.graph.shape_of(prepared.nodes()[at].value),
        prepared.nodes()[at]@ == prepared.graph.node_at(
            prepared.nodes()[at].value.index as int,
        ) || (prepared.plan.candidate_for(prepared.nodes()[at].value) matches Some(found)
            && prepared.nodes()[at].op == (OpDescriptor::SgdUpdate {
            weights: found.weights,
            gradient: found.gradient,
            learning_rate: found.learning_rate,
        }) && prepared.is_contracted(prepared.nodes()[at].value)),
{
    prepared.lemma_nodes_sound();
    let plan = prepared.plan;
    let nodes = plan.node_models();
    let candidates = plan.candidates(prepared.rewriting, prepared.arithmetic);
    let kept = rewritten(candidates, nodes);
    let selected = plan.selected_nodes(prepared.rewriting, prepared.arithmetic);
    let node = selected[at];
    assert(node == prepared.nodes()[at]@);
    assert(selected.contains(node));
    if candidates.len() > 0 {
        let keep = |node: NodeModel<'_>|
            if orphaned(kept, plan.output_values@, node) {
                None
            } else {
                Some(node)
            };
        kept.lemma_filter_map_contains(keep, node);
    }
    assert(kept.contains(node));
    let change = |node: NodeModel<'_>| rewritten_node(candidates, node);
    nodes.lemma_filter_map_contains(change, node);
    let source = choose|source: NodeModel<'_>| #[trigger]
        nodes.contains(source) && change(source) == Some(node);
    let p = nodes.index_of(source);
    assert(nodes[p] == source);
    assert(prepared.graph.knows(plan.node_order@[p]));
    if rewrite_of(candidates, source.value) is Some {
        lemma_rewrite_is_candidate(candidates, source.value);
        let found = rewrite_of(candidates, source.value)->Some_0;
        let choice = |value: ValueId| plan.candidate_for(value);
        plan.node_order@.lemma_filter_map_contains(choice, found);
        let value = choose|value: ValueId| #[trigger]
            plan.node_order@.contains(value) && choice(value) == Some(found);
        assert(found.output == value);
        let c = candidates.index_of(found);
        assert(prepared.lowering_plan.rewritten@[c].output == value);
    }
}

/// The nodes of the schedule agree with their operands at every element of an evaluation.
proof fn lemma_plan_agrees<A: F32Arithmetic>(
    prepared: RocmPreparedTensorGraph<'_>,
    rules: ArithmeticRules,
    given: Seq<(ValueId, Tensor)>,
    execution: Execution,
    k: nat,
)
    requires
        prepared.wf(),
        rules.describe::<A>(),
        evaluation_answer::<A>(*prepared.graph, given, Ok(execution)),
        forall|i: int|
            0 <= i < execution.values@.len() ==> (#[trigger] execution.values@[i])@.data.len() > 0,
    ensures
        forall|p: int|
            0 <= p < prepared.plan.node_order@.len() ==> kernel_rules(rules).elements().agrees(
                evaluated_elements(execution.values@, k),
                #[trigger] prepared.plan.node_models()[p],
            ),
        forall|q: int|
            0 <= q < prepared.nodes().len() ==> kernel_rules(rules).elements().agrees(
                evaluated_elements(execution.values@, k),
                (#[trigger] prepared.nodes()[q])@,
            ),
{
    let elements = evaluated_elements(execution.values@, k);
    let source = kernel_rules(rules).elements();
    assert forall|p: int| 0 <= p < prepared.plan.node_order@.len() implies source.agrees(
        elements,
        #[trigger] prepared.plan.node_models()[p],
    ) by {
        assert(prepared.graph.knows(prepared.plan.node_order@[p]));
        law_evaluations_agree::<A>(
            *prepared.graph,
            given,
            execution,
            k,
            prepared.plan.node_order@[p].index as int,
            source,
        );
    }
    assert forall|q: int| 0 <= q < prepared.nodes().len() implies source.agrees(
        elements,
        (#[trigger] prepared.nodes()[q])@,
    ) by {
        law_rewriting_keeps_values(
            prepared.lowering_plan,
            prepared.plan,
            prepared.rewriting,
            prepared.arithmetic,
            prepared.grouping,
            q,
            source,
            elements,
        );
    }
}

/// What the device computes for a node without one of the cached kernels is the value of the node.
/// Take an evaluation of the graph by the reference evaluator. From the values at its operands, in
/// their order, the planned work gives the evaluated value of the node:
///
/// * an update gives, at each element, the first operand less the rate times the second one, which
///   a contracted update rounds only once;
/// * the gradient of a `ReLU` gives the second operand where the first one is positive, and zero
///   elsewhere;
/// * a matrix product gives the product of the first and the second operand under its transposes;
/// * a mean squared error divides the sum of the squared differences of its operands by its count.
pub proof fn law_planned_work_computes_values<A: F32Arithmetic>(
    prepared: RocmPreparedTensorGraph<'_>,
    host: Seq<(ValueId, Tensor)>,
    inputs: Seq<(ValueId, &RocmTensorInput)>,
    mode: RocmMode,
    at: int,
    taken: RocmNodeWork<'_>,
    rules: ArithmeticRules,
    given: Seq<(ValueId, Tensor)>,
    execution: Execution,
)
    requires
        prepared.wf(),
        0 <= at < prepared.nodes().len(),
        prepared.operation_at(at) matches Some(operation) && node_takes(
            prepared,
            host,
            inputs,
            mode,
            at,
            operation,
            taken,
        ),
        rules.describe::<A>(),
        evaluation_answer::<A>(*prepared.graph, given, Ok(execution)),
    ensures
        ({
            let nodes = prepared.nodes();
            let out = execution.values@[nodes[at].value.index as int]@;
            let operands = taken.operands@;
            let first = execution.values@[nodes[operands[0] as int].value.index as int]@;
            let second = execution.values@[nodes[operands[1] as int].value.index as int]@;
            match taken.work {
                RocmWork::SgdUpdate { count, learning_rate, .. } => {
                    &&& operands.len() == 2
                    &&& count == out.data.len()
                    &&& element_by_element(
                        first,
                        second,
                        |w: u32, g: u32| (rules.difference)(w, (rules.product)(learning_rate, g)),
                        out,
                    )
                },
                RocmWork::ReluBackward { count } => {
                    &&& operands.len() == 2
                    &&& count == out.data.len()
                    &&& element_by_element(
                        first,
                        second,
                        |x: u32, u: u32|
                            if 0 < x <= 0x7f80_0000 {
                                u
                            } else {
                                0
                            },
                        out,
                    )
                },
                RocmWork::MatMul { left_shape, right_shape, transpose_left, transpose_right } => {
                    &&& operands.len() == 2
                    &&& left_shape@ == first.shape
                    &&& right_shape@ == second.shape
                    &&& matrix_product(rules, first, second, transpose_left, transpose_right, out)
                },
                RocmWork::MeanSquaredError { count, .. } => {
                    &&& operands.len() == 2
                    &&& count == first.data.len()
                    &&& count == second.data.len()
                    &&& out.data == seq![mean_squared_difference(rules, first.data, second.data)]
                },
                _ => true,
            }
        }),
{
    law_work_is_that_of_its_node(prepared, host, inputs, mode, at, taken);
    let graph = *prepared.graph;
    let node = prepared.nodes()[at];
    let values = execution.values@;
    let operands = taken.operands@;
    let index = node.value.index as int;
    lemma_node_of_graph(prepared, at);
    lemma_group_node(
        prepared.lowering_plan,
        prepared.plan,
        prepared.rewriting,
        prepared.arithmetic,
        prepared.grouping,
        at,
    );
    law_values_mean_what_nodes_say::<A>(rules, graph, given, execution, index);
    assert(values[index].wf());
    assert(node_wf(graph.id, graph.nodes@, index));
    lemma_elements(1, node.shape@);
    if taken.work is SgdUpdate || taken.work is ReluBackward || taken.work is MatMul
        || taken.work is MeanSquaredError {
        lemma_node_of_graph(prepared, operands[0] as int);
        lemma_node_of_graph(prepared, operands[1] as int);
        let one = prepared.nodes()[operands[0] as int].value.index as int;
        let two = prepared.nodes()[operands[1] as int].value.index as int;
        assert(values[one].wf());
        assert(values[two].wf());
        lemma_elements(1, prepared.nodes()[operands[0] as int].shape@);
        assert(extent(1, values[one]@.shape) == values[one]@.data.len());
    }
    if taken.work is SgdUpdate && graph.nodes@[index].op is Sub {
        lemma_replaced_update::<A>(prepared, at, rules, given, execution);
    }
}

/// An update is contracted only where it replaces a difference of the source: an update that the
/// graph names itself rounds its product, and so does every update without leave to contract.
pub proof fn law_named_updates_are_not_contracted(
    prepared: RocmPreparedTensorGraph<'_>,
    host: Seq<(ValueId, Tensor)>,
    inputs: Seq<(ValueId, &RocmTensorInput)>,
    mode: RocmMode,
    at: int,
    taken: RocmNodeWork<'_>,
)
    requires
        prepared.wf(),
        0 <= at < prepared.nodes().len(),
        prepared.operation_at(at) matches Some(operation) && node_takes(
            prepared,
            host,
            inputs,
            mode,
            at,
            operation,
            taken,
        ),
    ensures
        taken.work matches RocmWork::SgdUpdate { contracted, .. } ==> {
            let source = prepared.graph.nodes@[prepared.nodes()[at].value.index as int].op;
            &&& contracted ==> source is Sub
            &&& !contracted ==> source is SgdUpdate
            &&& contracted ==> prepared.rewriting
                == TensorArithmeticRewritePolicy::AllowContractedArithmetic
        },
{
    law_work_is_that_of_its_node(prepared, host, inputs, mode, at, taken);
    lemma_node_of_graph(prepared, at);
    lemma_group_node(
        prepared.lowering_plan,
        prepared.plan,
        prepared.rewriting,
        prepared.arithmetic,
        prepared.grouping,
        at,
    );
    let value = prepared.nodes()[at].value;
    let plan = prepared.plan;
    let candidates = plan.candidates(prepared.rewriting, prepared.arithmetic);
    if prepared.is_contracted(value) {
        let c = choose|c: int|
            0 <= c < prepared.lowering_plan.rewritten@.len() && (
            #[trigger] prepared.lowering_plan.rewritten@[c]).output == value;
        let found = candidates[c];
        assert(candidates.contains(found));
        let choice = |value: ValueId| plan.candidate_for(value);
        plan.node_order@.lemma_filter_map_contains(choice, found);
        let source = choose|source: ValueId| #[trigger]
            plan.node_order@.contains(source) && choice(source) == Some(found);
        assert(source == value);
    }
}

/// A replaced update has the value of the difference that it replaces.
proof fn lemma_replaced_update<A: F32Arithmetic>(
    prepared: RocmPreparedTensorGraph<'_>,
    at: int,
    rules: ArithmeticRules,
    given: Seq<(ValueId, Tensor)>,
    execution: Execution,
)
    requires
        prepared.wf(),
        0 <= at < prepared.nodes().len(),
        rules.describe::<A>(),
        evaluation_answer::<A>(*prepared.graph, given, Ok(execution)),
        prepared.plan.candidate_for(prepared.nodes()[at].value) is Some,
    ensures
        ({
            let found = prepared.plan.candidate_for(prepared.nodes()[at].value)->Some_0;
            element_by_element(
                execution.values@[found.weights.index as int]@,
                execution.values@[found.gradient.index as int]@,
                |w: u32, g: u32| (rules.difference)(w, (rules.product)(found.learning_rate, g)),
                execution.values@[prepared.nodes()[at].value.index as int]@,
            )
        }),
{
    let graph = *prepared.graph;
    let value = prepared.nodes()[at].value;
    let found = prepared.plan.candidate_for(value)->Some_0;
    lemma_node_of_graph(prepared, at);
    let index = value.index as int;
    let inner = found.multiply.index as int;
    let (op, product) = (graph.nodes@[index].op, graph.nodes@[inner].op);
    assert(node_wf(graph.id, graph.nodes@, index));
    assert(reads(op)[0] == found.weights && reads(op)[1] == found.multiply);
    assert(precedes(graph.id, index, reads(op)[0]));
    assert(precedes(graph.id, index, reads(op)[1]));
    assert(node_wf(graph.id, graph.nodes@, inner));
    assert(precedes(graph.id, inner, reads(product)[0]));
    assert(precedes(graph.id, inner, reads(product)[1]));
    let rate = reads(product)[0].index as int;
    assert(node_wf(graph.id, graph.nodes@, rate));
    law_values_mean_what_nodes_say::<A>(rules, graph, given, execution, index);
    law_values_mean_what_nodes_say::<A>(rules, graph, given, execution, inner);
    law_values_mean_what_nodes_say::<A>(rules, graph, given, execution, rate);
}

/// The node is run by itself and is no elementwise operation of two operands. Its operands have to
/// be there element by element.
pub open spec fn reads_densely(prepared: RocmPreparedTensorGraph<'_>, at: int) -> bool {
    prepared.operation_at(at) matches Some(OperationModel::Node(own)) && !(own.op is Add
        || own.op is Sub || own.op is Mul)
}

/// What a session prepares holds every operand element by element where it is read so. A value is
/// kept as one scalar only if all elements are the same, nobody asked for it, and only sums,
/// differences and products read it.
pub proof fn law_dense_readers_find_every_element(
    assessor: RocmTensorAssessor,
    graph: &Graph,
    outputs: Seq<ValueId>,
    policy: TensorArithmeticRewritePolicy,
    grouping: TensorPointwiseGroupingPolicy,
    prepared: RocmPreparedTensorGraph<'_>,
    host: Seq<(ValueId, Tensor)>,
    inputs: Seq<(ValueId, &RocmTensorInput)>,
    mode: RocmMode,
    at: int,
    taken: RocmNodeWork<'_>,
    i: int,
)
    requires
        assessor.preparation(graph, outputs, policy, grouping, Ok(prepared)),
        0 <= at < prepared.nodes().len(),
        prepared.operation_at(at) matches Some(operation) && node_takes(
            prepared,
            host,
            inputs,
            mode,
            at,
            operation,
            taken,
        ),
        0 <= i < taken.operands@.len(),
    ensures
        taken.operands@[i] < prepared.nodes().len(),
        reads_densely(prepared, at) ==> !prepared.is_compact(taken.operands@[i] as int),
        prepared.is_compact(taken.operands@[i] as int) ==> {
            let operand = prepared.nodes()[taken.operands@[i] as int];
            &&& operand.op is Uniform
            &&& !outputs.contains(operand.value)
            &&& forall|q: int, k: int|
                #![trigger consumes(prepared.nodes()[q].op)[k]]
                0 <= q < prepared.nodes().len() && 0 <= k < consumes(prepared.nodes()[q].op).len()
                    && consumes(prepared.nodes()[q].op)[k] == operand.value ==> {
                    let op = prepared.nodes()[q].op;
                    op is Add || op is Sub || op is Mul
                }
        },
{
    let operation = prepared.operation_at(at)->Some_0;
    let bound = bound_values(operation);
    let nodes = prepared.nodes();
    lemma_group_node(
        prepared.lowering_plan,
        prepared.plan,
        prepared.rewriting,
        prepared.arithmetic,
        prepared.grouping,
        at,
    );
    assert(node_position(nodes, bound[i]) == Some(taken.operands@[i] as int));
    lemma_position_found(nodes, bound[i]);
    let p = taken.operands@[i] as int;
    if prepared.is_compact(p) {
        assert forall|q: int, k: int|
            #![trigger consumes(nodes[q].op)[k]]
            0 <= q < nodes.len() && 0 <= k < consumes(nodes[q].op).len() && consumes(
                nodes[q].op,
            )[k] == nodes[p].value implies {
            let op = nodes[q].op;
            op is Add || op is Sub || op is Mul
        } by {
            assert(consumes(nodes[q].op).contains(nodes[p].value));
        }
        if reads_densely(prepared, at) {
            assert(consumes(nodes[at].op)[i] == nodes[p].value);
        }
    }
}

/// Every storage requirement of a prepared graph names the whole storage of both of its values:
/// four bytes for each element, or four in all for a value that is kept as one scalar.
pub proof fn law_requirements_cover_whole_values(
    prepared: RocmPreparedTensorGraph<'_>,
    c: int,
)
    requires
        prepared.wf(),
        0 <= c < prepared.storage_constraints@.len(),
    ensures
        exists|p: int, q: int|
            {
                let constraint = prepared.storage_constraints@[c];
                &&& 0 <= p < prepared.nodes().len()
                &&& 0 <= q < prepared.nodes().len()
                &&& (#[trigger] prepared.nodes()[p]).value == constraint.left
                &&& (#[trigger] prepared.nodes()[q]).value == constraint.right
                &&& constraint.left_bytes == 4 * if prepared.is_compact(p) {
                    1
                } else {
                    elements_of(prepared.nodes()[p].shape@)
                }
                &&& constraint.right_bytes == 4 * if prepared.is_compact(q) {
                    1
                } else {
                    elements_of(prepared.nodes()[q].shape@)
                }
            },
{
    let nodes = prepared.nodes();
    let constraint = prepared.storage_constraints@[c];
    lemma_position_found(nodes, constraint.left);
    lemma_position_found(nodes, constraint.right);
    let p = node_position(nodes, constraint.left)->Some_0;
    let q = node_position(nodes, constraint.right)->Some_0;
    assert(allocatable(nodes[p].shape@));
    assert(allocatable(nodes[q].shape@));
    assert(prepared.layouts@[p] == layout_of(nodes[p].shape@, prepared.is_compact(p)));
    assert(prepared.layouts@[q] == layout_of(nodes[q].shape@, prepared.is_compact(q)));
    lemma_elements(4, nodes[p].shape@);
    lemma_elements(4, nodes[q].shape@);
    assert(nodes[p].value == constraint.left && nodes[q].value == constraint.right);
}

/// A cached kernel computes the value of its node. Take an evaluation of the graph by the reference
/// evaluator, and let the bindings hold the evaluated values at the operands of the work, in their
/// order. The invocation for an element writes that element of the evaluated value of the node, to
/// the binding after the operands, and writes nothing else. For a mean squared error it writes the
/// squared difference of the operands at that element.
pub proof fn law_planned_dispatches_compute_values<A: F32Arithmetic>(
    prepared: RocmPreparedTensorGraph<'_>,
    host: Seq<(ValueId, Tensor)>,
    inputs: Seq<(ValueId, &RocmTensorInput)>,
    mode: RocmMode,
    at: int,
    taken: RocmNodeWork<'_>,
    rules: ArithmeticRules,
    given: Seq<(ValueId, Tensor)>,
    execution: Execution,
    k: int,
    loaded: spec_fn(u32, PcuDispatchIndex) -> u32,
)
    requires
        prepared.wf(),
        0 <= at < prepared.nodes().len(),
        prepared.operation_at(at) matches Some(operation) && node_takes(
            prepared,
            host,
            inputs,
            mode,
            at,
            operation,
            taken,
        ),
        rules.describe::<A>(),
        evaluation_answer::<A>(*prepared.graph, given, Ok(execution)),
        forall|i: int|
            0 <= i < execution.values@.len() ==> (#[trigger] execution.values@[i])@.data.len() > 0,
        bindings_hold(prepared, execution, taken.operands@, k, loaded),
        0 <= k,
        taken.work is Dispatch ==> k
            < execution.values@[prepared.nodes()[at].value.index as int]@.data.len(),
        reads_densely(prepared, at) ==> forall|i: int|
            0 <= i < taken.operands@.len() ==> !prepared.is_compact(
                (#[trigger] taken.operands@[i]) as int,
            ),
    ensures
        match taken.work {
            RocmWork::Dispatch(request) => request@.kernel() matches Some(kernel) && kernel_rules(
                rules,
            ).writes(kernel.ops, loaded) == map![
                taken.operands@.len() as u32 => execution.values@[
                    prepared.nodes()[at].value.index as int
                ]@.data[k],
            ],
            RocmWork::MeanSquaredError { squares, .. } => {
                let nodes = prepared.nodes();
                let first = execution.values@[nodes[taken.operands@[0] as int].value.index as int]@;
                let second = execution.values@[
                    nodes[taken.operands@[1] as int].value.index as int
                ]@;
                k < first.data.len() ==> (squares@.kernel() matches Some(kernel) && kernel_rules(
                    rules,
                ).writes(kernel.ops, loaded) == map![
                    2u32 => (rules.product)(
                        (rules.difference)(first.data[k], second.data[k]),
                        (rules.difference)(first.data[k], second.data[k]),
                    ),
                ])
            },
            _ => true,
        },
{
    law_work_is_that_of_its_node(prepared, host, inputs, mode, at, taken);
    lemma_group_node(
        prepared.lowering_plan,
        prepared.plan,
        prepared.rewriting,
        prepared.arithmetic,
        prepared.grouping,
        at,
    );
    prepared.lemma_own_operation(at);
    lemma_node_of_graph(prepared, at);
    let operation = prepared.operation_at(at)->Some_0;
    let operands = taken.operands@;
    let bound = bound_values(operation);
    let values = execution.values@;
    let elements = evaluated_elements(values, k as nat);
    lemma_plan_agrees::<A>(prepared, rules, given, execution, k as nat);
    if taken.work is Dispatch || taken.work is MeanSquaredError {
        let request = prepared.request_for(operation)->Ok_0->Some_0;
        let read = operand_elements(loaded, bound.len(), request_mask(request));
        if let OperationModel::FusedAddSub { group } = operation {
            assert(refers_back(group.steps[0].left, group.leaves.len(), 0));
        }
        if let OperationModel::FusedMul { group } = operation {
            assert(refers_back(group.steps[0].left, group.leaves.len(), 0));
        }
        assert(bound.len() <= 4);
        let flags = bound.map_values(|value: ValueId| prepared.scalar(value));
        assert forall|i: int| 0 <= i < bound.len() implies #[trigger] read[i] == elements(
            bound[i],
        ) by {
            assert(node_position(prepared.nodes(), bound[i]) == Some(operands[i] as int));
            lemma_position_found(prepared.nodes(), bound[i]);
            let p = operands[i] as int;
            lemma_node_of_graph(prepared, p);
            let data = values[bound[i].index as int]@.data;
            law_masks_mark_their_operands(flags, i as u8);
            law_masks_mark_their_operands(Seq::empty(), i as u8);
            assert(values[bound[i].index as int].wf());
            if prepared.is_compact(p) {
                assert(prepared.nodes()[p].op is Uniform);
                law_values_mean_what_nodes_say::<A>(
                    rules,
                    *prepared.graph,
                    given,
                    execution,
                    bound[i].index as int,
                );
            }
            assert(flags[i] == prepared.is_compact(p));
            assert(0 <= k % data.len() as int) by (nonlinear_arith)
                requires
                    data.len() > 0,
            ;
            assert(masked(request_mask(request), i as u8) == prepared.is_compact(p));
        }
        assert(read =~= bound.map_values(elements));
        law_dispatches_compute_the_graph(prepared, at, kernel_rules(rules), elements, loaded);
        if taken.work is Dispatch {
            let value = prepared.nodes()[at].value;
            let data = values[value.index as int]@.data;
            lemma_small_mod(k as nat, data.len());
            assert(elements(value) == data[k]);
            assert(dispatched_element(operation, kernel_rules(rules), elements) == elements(value));
        } else if k < values[prepared.nodes()[operands[0] as int].value.index as int]@.data.len() {
            let one = prepared.nodes()[operands[0] as int].value;
            let two = prepared.nodes()[operands[1] as int].value;
            lemma_node_of_graph(prepared, operands[0] as int);
            lemma_node_of_graph(prepared, operands[1] as int);
            assert(node_wf(
                prepared.graph.id,
                prepared.graph.nodes@,
                prepared.nodes()[at].value.index as int,
            ));
            assert(values[one.index as int].wf() && values[two.index as int].wf());
            lemma_small_mod(k as nat, values[one.index as int]@.data.len());
            assert(elements(one) == values[one.index as int]@.data[k]);
            assert(elements(two) == values[two.index as int]@.data[k]);
        }
    }
}

} // verus!
