//! The kernels of a prepared graph compute the values of the graph.
use vstd::prelude::*;

use super::cache::looked_up;
use super::cache_laws::{faithful, law_cached_dispatches_run_the_requested_kernel};
use super::execute::bound_values;
use super::kernel_values::{
    law_fixed_kernels_compute_their_operation, law_group_kernels_compute_their_group,
    law_mul_group_kernels_compute_their_group, operand_elements, KernelRules,
};
use super::kernels::{KernelModel, TensorDispatchKind};
use super::prepare::RocmPreparedTensorGraph;
use super::requests::{law_named_kernels_are_buildable, RequestModel, TensorDispatchCacheKey};
use crate::pcu::ir::PcuDispatchIndex;
use crate::tensor::descriptor::OpDescriptor;
use crate::tensor::error::ValueId;
use crate::tensor::lowered_values::{law_groups_compute_their_source, law_rewriting_keeps_values};
use crate::tensor::lowering::{operation_models, OperationModel};

verus! {

/// The operands that a requested kernel reads as one scalar.
pub open spec fn request_mask(request: RequestModel) -> u8 {
    match request {
        RequestModel::Fixed { kind, scalar_mask, .. } => if kind.takes_scalars() {
            scalar_mask
        } else {
            0
        },
        RequestModel::BoundedPointwise { scalar_mask, .. } => scalar_mask,
        RequestModel::BoundedMul { scalar_mask, .. } => scalar_mask,
    }
}

/// The element that the kernel of an operation is to write: that of the operation's value, or the
/// square of the difference that a mean squared error adds up.
pub open spec fn dispatched_element(
    operation: OperationModel<'_>,
    rules: KernelRules,
    elements: spec_fn(ValueId) -> u32,
) -> u32 {
    match operation {
        OperationModel::Node(node) => match node.op {
            OpDescriptor::MeanSquaredError { prediction, target } => {
                let difference = (rules.difference)(elements(prediction), elements(target));
                (rules.product)(difference, difference)
            },
            _ => elements(node.value),
        },
        _ => elements(operation.output()),
    }
}

/// What the device is asked to run computes what the graph says. Whatever the instructions do to
/// single elements, where every node of the plan agrees with its operands, the kernel that is
/// requested for a scheduled node, run on the elements of the values that the node binds, writes
/// the element of the node's value, and writes nothing else.
pub proof fn law_dispatches_compute_the_graph(
    prepared: RocmPreparedTensorGraph<'_>,
    at: int,
    rules: KernelRules,
    elements: spec_fn(ValueId) -> u32,
    loaded: spec_fn(u32, PcuDispatchIndex) -> u32,
)
    requires
        prepared.wf(),
        0 <= at < prepared.nodes().len(),
        prepared.operation_at(at) is Some,
        prepared.request_for(prepared.operation_at(at)->Some_0) matches Ok(Some(_)),
        forall|p: int|
            0 <= p < prepared.plan.node_order@.len() ==> rules.elements().agrees(
                elements,
                #[trigger] prepared.plan.node_models()[p],
            ),
        ({
            let operation = prepared.operation_at(at)->Some_0;
            let request = prepared.request_for(operation)->Ok_0->Some_0;
            let bound = bound_values(operation);
            operand_elements(loaded, bound.len(), request_mask(request)) == bound.map_values(
                elements,
            )
        }),
    ensures
        ({
            let operation = prepared.operation_at(at)->Some_0;
            let request = prepared.request_for(operation)->Ok_0->Some_0;
            &&& operation.output() == prepared.nodes()[at].value
            &&& request.kernel() matches Some(kernel) && rules.writes(kernel.ops, loaded) == map![
                bound_values(operation).len() as u32 => dispatched_element(
                    operation,
                    rules,
                    elements,
                ),
            ]
        }),
{
    let lowering = prepared.lowering_plan;
    let operation = prepared.operation_at(at)->Some_0;
    let request = prepared.request_for(operation)->Ok_0->Some_0;
    let bound = bound_values(operation);
    let read = operand_elements(loaded, bound.len(), request_mask(request));
    prepared.lemma_own_operation(at);
    law_named_kernels_are_buildable(prepared, operation);
    let models = operation_models(lowering.operations@);
    let k = models.index_of(operation);
    assert(models[k] == lowering.operations@[k]@);
    let source = rules.elements();
    assert forall|q: int| 0 <= q < lowering.nodes@.len() implies source.agrees(
        elements,
        (#[trigger] lowering.nodes@[q])@,
    ) by {
        law_rewriting_keeps_values(
            lowering,
            prepared.plan,
            prepared.rewriting,
            prepared.arithmetic,
            prepared.grouping,
            q,
            source,
            elements,
        );
    }
    law_groups_compute_their_source(
        lowering,
        prepared.plan,
        prepared.rewriting,
        prepared.arithmetic,
        prepared.grouping,
        k,
        source,
        elements,
    );
    match request {
        RequestModel::Fixed { kind, logical_count, scalar_mask } => {
            law_fixed_kernels_compute_their_operation(
                kind,
                logical_count,
                scalar_mask,
                rules,
                loaded,
            );
            let pair = operand_elements(loaded, 2, request_mask(request));
            assert forall|i: int| 0 <= i < bound.len() implies #[trigger] pair[i] == elements(
                bound[i],
            ) by {
                assert(read[i] == bound.map_values(elements)[i]);
                assert(pair[i] == read[i]);
            }
            assert(pair[0] == elements(bound[0]));
            if kind != TensorDispatchKind::Relu {
                assert(pair[1] == elements(bound[1]));
            }
        },
        RequestModel::BoundedPointwise { group, logical_count, scalar_mask } => {
            law_group_kernels_compute_their_group(
                group,
                logical_count,
                scalar_mask,
                rules,
                loaded,
            );
        },
        RequestModel::BoundedMul { group, logical_count, scalar_mask } => {
            law_mul_group_kernels_compute_their_group(
                group,
                logical_count,
                scalar_mask,
                rules,
                loaded,
            );
        },
    }
}

/// The same of what the device is handed: the prepared dispatch that a faithful cache gives for the
/// request of a scheduled node computes what the graph says.
pub proof fn law_submitted_dispatches_compute_the_graph<D>(
    prepared: RocmPreparedTensorGraph<'_>,
    at: int,
    rules: KernelRules,
    elements: spec_fn(ValueId) -> u32,
    loaded: spec_fn(u32, PcuDispatchIndex) -> u32,
    entries: Seq<(TensorDispatchCacheKey, D)>,
    source: spec_fn(D) -> KernelModel,
)
    requires
        prepared.wf(),
        0 <= at < prepared.nodes().len(),
        prepared.operation_at(at) is Some,
        prepared.request_for(prepared.operation_at(at)->Some_0) matches Ok(Some(_)),
        forall|p: int|
            0 <= p < prepared.plan.node_order@.len() ==> rules.elements().agrees(
                elements,
                #[trigger] prepared.plan.node_models()[p],
            ),
        ({
            let operation = prepared.operation_at(at)->Some_0;
            let request = prepared.request_for(operation)->Ok_0->Some_0;
            let bound = bound_values(operation);
            operand_elements(loaded, bound.len(), request_mask(request)) == bound.map_values(
                elements,
            )
        }),
        faithful(entries, source),
    ensures
        ({
            let operation = prepared.operation_at(at)->Some_0;
            let request = prepared.request_for(operation)->Ok_0->Some_0;
            looked_up(entries, request.key()) matches Some(dispatch) ==> rules.writes(
                source(dispatch).ops,
                loaded,
            ) == map![
                bound_values(operation).len() as u32 => dispatched_element(
                    operation,
                    rules,
                    elements,
                ),
            ]
        }),
{
    let operation = prepared.operation_at(at)->Some_0;
    let request = prepared.request_for(operation)->Ok_0->Some_0;
    prepared.lemma_own_operation(at);
    law_dispatches_compute_the_graph(prepared, at, rules, elements, loaded);
    law_cached_dispatches_run_the_requested_kernel(entries, source, request);
}

} // verus!
