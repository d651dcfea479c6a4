//! Selecting, preparing and requesting tensor kernels for a ROCm session.
use pcu_dialects::pcu::ir::{PcuBindingRef, PcuDispatchIndex, PcuDispatchValueId};
use pcu_dialects::rocm::assess::{
    assess_tensor_node, rocm_supports_operand_representation, RocmTensorAssessor,
};
use pcu_dialects::rocm::cache::{
    retained_requested_key_count, RocmPrewarm, RocmTensorPrewarmReport, TensorDispatchCache,
    TensorDispatchCacheAdmission,
};
use pcu_dialects::rocm::error::{RocmTensorError, RocmTensorExecutionError};
use pcu_dialects::rocm::execute::{CollectNodeTimings, RocmMode};
use pcu_dialects::rocm::feedback::validate_completed_step;
use pcu_dialects::rocm::kernels::{
    add_kernel, add_relu_kernel, mse_kernel, mul_kernel, relu_kernel, sub_kernel, RocmAluOp,
    RocmKernelOp, TensorDispatchKind,
};
use pcu_dialects::rocm::layout::RocmPhysicalLayout;
use pcu_dialects::rocm::matmul::{
    matmul_row_major, matmul_row_major_flags, PcuMemoryAccess, SgemmCall,
};
use pcu_dialects::rocm::prepare::{
    prepare_graph_outputs_plan_with_policies, route_of, RocmPreparedTensorGraph,
};
use pcu_dialects::rocm::programs::{
    bounded_mul_kernel, bounded_mul_program, bounded_mul_topology, bounded_pointwise_kernel,
    bounded_pointwise_kernel_id, bounded_pointwise_program, bounded_pointwise_topology,
    pointwise_value_id,
};
use pcu_dialects::rocm::requests::{TensorDispatchCacheKey, TensorDispatchRequest};
use pcu_dialects::rocm::sizes::{
    block_count, byte_len, flattened_invocation_count, mse_scratch_element_count,
    mse_scratch_length_fits, output_position, scratch_stores_node,
};
use pcu_dialects::rocm::small::{
    execution_resource_slots, ExecutionUseCounts, TENSOR_EXECUTION_INLINE_NODES,
};
use pcu_dialects::rocm::sources::validate_graph_inputs;
use pcu_dialects::rocm::transfer::{tensor_bytes, tensor_from_bytes, word_bytes, ByteOrder};
use pcu_dialects::tensor::descriptor::{
    NodeDescriptor, OpDescriptor, TensorExecutionRoute, TensorOperandRepresentation,
    TensorOperationAssessor, TensorOperationSupport, TensorUnsupportedReason,
};
use pcu_dialects::tensor::error::{TensorError, ValueId};
use pcu_dialects::tensor::graph::Graph;
use pcu_dialects::tensor::groups::{
    TensorPointwiseEpilogue, TensorPointwiseGroupingPolicy, TensorPointwiseOperand,
};
use pcu_dialects::tensor::lowering::TensorSelectedOperation;
use pcu_dialects::tensor::rewrite::{TensorArithmeticCapability, TensorArithmeticRewritePolicy};
use pcu_dialects::tensor::value::Tensor;

fn tensor(shape: Vec<usize>, data: Vec<f32>) -> Tensor {
    Tensor::new(shape, data.into_iter().map(f32::to_bits).collect()).unwrap()
}

fn node(graph: &Graph, value: ValueId) -> NodeDescriptor<'_> {
    graph
        .nodes()
        .into_iter()
        .find(|node| node.value == value)
        .unwrap()
}

struct PureRocmAssessor;

struct DenseOnlyAssessor;

/// Takes every node on the route that it is run on.
struct CarelessAssessor;

impl TensorOperationAssessor for CarelessAssessor {
    fn assess_node(&self, _graph: &Graph, node: NodeDescriptor<'_>) -> TensorOperationSupport {
        TensorOperationSupport::Supported { route: route_of(node.op), workspace_bytes: None }
    }
}

impl TensorOperationAssessor for DenseOnlyAssessor {
    fn assess_node(&self, graph: &Graph, node: NodeDescriptor<'_>) -> TensorOperationSupport {
        assess_tensor_node(graph, node)
    }
}

impl TensorOperationAssessor for PureRocmAssessor {
    fn assess_node(&self, graph: &Graph, node: NodeDescriptor<'_>) -> TensorOperationSupport {
        assess_tensor_node(graph, node)
    }

    fn supports_operand_representation(
        &self,
        _graph: &Graph,
        node: NodeDescriptor<'_>,
        _operand: ValueId,
        representation: TensorOperandRepresentation,
    ) -> bool {
        rocm_supports_operand_representation(node, representation)
    }
}

fn prepared_for_request_test<'graph>(
    graph: &'graph Graph,
    outputs: &[ValueId],
    grouping: TensorPointwiseGroupingPolicy,
) -> RocmPreparedTensorGraph<'graph> {
    prepare_graph_outputs_plan_with_policies(
        graph,
        outputs,
        &PureRocmAssessor,
        TensorArithmeticRewritePolicy::Disabled,
        TensorArithmeticCapability::Strict,
        grouping,
    )
    .unwrap()
}

fn prepare_outputs<'graph, A: TensorOperationAssessor>(
    graph: &'graph Graph,
    outputs: &[ValueId],
    assessor: &A,
) -> Result<RocmPreparedTensorGraph<'graph>, RocmTensorExecutionError> {
    prepare_graph_outputs_plan_with_policies(
        graph,
        outputs,
        assessor,
        TensorArithmeticRewritePolicy::Disabled,
        TensorArithmeticCapability::Strict,
        TensorPointwiseGroupingPolicy::Disabled,
    )
}

fn prepare(
    graph: &Graph,
    output: ValueId,
) -> Result<RocmPreparedTensorGraph<'_>, RocmTensorExecutionError> {
    prepare_outputs(graph, &[output], &PureRocmAssessor)
}

fn layout(prepared: &RocmPreparedTensorGraph<'_>, value: ValueId) -> RocmPhysicalLayout {
    prepared.layouts[prepared.lowering_plan.index_of(value).unwrap()]
}

fn load(result: u16, binding: u32, index: PcuDispatchIndex) -> RocmKernelOp {
    RocmKernelOp::BindingLoad {
        result: PcuDispatchValueId(result),
        binding: PcuBindingRef { set: 0, binding },
        index,
    }
}

fn alu(result: u16, op: RocmAluOp, lhs: u16, rhs: u16) -> RocmKernelOp {
    RocmKernelOp::Alu {
        result: PcuDispatchValueId(result),
        op,
        lhs: PcuDispatchValueId(lhs),
        rhs: PcuDispatchValueId(rhs),
    }
}

fn store(binding: u32, value: u16) -> RocmKernelOp {
    RocmKernelOp::BindingStore {
        binding: PcuBindingRef { set: 0, binding },
        index: PcuDispatchIndex::InvocationId,
        value: PcuDispatchValueId(value),
    }
}

fn zero(result: u16) -> RocmKernelOp {
    RocmKernelOp::Constant {
        result: PcuDispatchValueId(result),
        bits: 0,
    }
}

fn place(ops: &[RocmKernelOp], wanted: RocmKernelOp) -> usize {
    ops.iter().position(|op| *op == wanted).unwrap()
}

fn is_alu(op: &RocmKernelOp, wanted: RocmAluOp) -> bool {
    matches!(op, RocmKernelOp::Alu { op, .. } if *op == wanted)
}

#[test]
fn execution_scheduler_vectors_spill_without_truncating_large_graphs() {
    let inline_resources = execution_resource_slots(TENSOR_EXECUTION_INLINE_NODES);
    assert_eq!(
        inline_resources.as_slice().len(),
        TENSOR_EXECUTION_INLINE_NODES
    );
    assert!(!inline_resources.spilled());

    let node_count = TENSOR_EXECUTION_INLINE_NODES + 1;
    let spilled_resources = execution_resource_slots(node_count);
    let spilled_use_counts = ExecutionUseCounts::of(&vec![3; node_count]);

    assert_eq!(spilled_resources.as_slice().len(), node_count);
    assert_eq!(spilled_use_counts.as_slice().len(), node_count);
    assert!(spilled_resources.spilled());
    assert!(spilled_use_counts.spilled());
    assert!(spilled_resources.as_slice().iter().all(Option::is_none));
    assert!(spilled_use_counts.as_slice().iter().all(|count| *count == 3));
}

#[test]
fn scheduler_vectors_change_one_entry_at_a_time() {
    for count in [1, TENSOR_EXECUTION_INLINE_NODES, 20] {
        let mut resources = execution_resource_slots(count);
        let mut uses = ExecutionUseCounts::of(&vec![7; count]);
        resources.set(count - 1, Some(11));
        uses.set(count - 1, 6);
        for at in 0..count - 1 {
            assert_eq!(resources.as_slice()[at], None);
            assert_eq!(uses.as_slice()[at], 7);
        }
        assert_eq!(resources.as_slice()[count - 1], Some(11));
        assert_eq!(uses.as_slice()[count - 1], 6);
        resources.set(count - 1, None);
        assert_eq!(resources.as_slice()[count - 1], None);
    }
    assert!(execution_resource_slots(0).as_slice().is_empty());
}

#[test]
fn diagnostic_node_timings_preserve_execution_order_and_count() {
    let mut graph = Graph::new(1);
    let left = graph.input(vec![2, 2]).unwrap();
    let right = graph.input(vec![2, 2]).unwrap();
    let sum = graph.add(left, right).unwrap();
    let left_node = node(&graph, left);
    let sum_node = node(&graph, sum);
    let mut timings = CollectNodeTimings::new();

    timings.finish(15, &left_node);
    timings.finish(20, &sum_node);

    assert_eq!(timings.timings.len(), 2);
    assert_eq!(timings.timings[0].value, left);
    assert_eq!(timings.timings[0].operation, "Input");
    assert_eq!(timings.timings[0].elapsed_nanos, 15);
    assert_eq!(timings.timings[1].value, sum);
    assert_eq!(timings.timings[1].operation, "Add");
    assert_eq!(timings.timings[1].elapsed_nanos, 20);
}

#[test]
fn add_dispatch_kernel_lowers_with_valid_ssa_values() {
    let kernel = add_kernel(17, 0);

    assert_eq!(
        kernel.ops,
        [
            load(1, 0, PcuDispatchIndex::InvocationId),
            load(2, 1, PcuDispatchIndex::InvocationId),
            alu(3, RocmAluOp::Add, 1, 2),
            store(2, 3),
            RocmKernelOp::Return,
        ]
    );
    assert_eq!(kernel.bindings.len(), 3);
    assert_eq!(kernel.logical_shape, [17, 1, 1]);
}

#[test]
fn add_relu_dispatch_kernel_lowers_add_before_max_for_dense_and_uniform_inputs() {
    let dense_kernel = add_relu_kernel(17, 0);

    let add_position = place(&dense_kernel.ops, alu(3, RocmAluOp::Add, 1, 2));
    let max_position = place(&dense_kernel.ops, alu(5, RocmAluOp::Max, 3, 4));
    assert!(add_position < max_position);
    assert!(place(&dense_kernel.ops, zero(4)) < max_position);
    assert_eq!(dense_kernel.logical_shape, [17, 1, 1]);

    for scalar_mask in 1..=3 {
        let kernel = add_relu_kernel(17, scalar_mask);

        assert!(kernel.ops.iter().any(|op| matches!(
            op,
            RocmKernelOp::BindingLoad {
                index: PcuDispatchIndex::BindingElementZero,
                ..
            }
        )));
        assert!(kernel.ops.contains(&alu(5, RocmAluOp::Max, 3, 4)));
        assert_eq!(kernel.logical_shape, [17, 1, 1]);
    }
}

#[test]
fn bounded_add_sub_relu_dispatch_preserves_order_and_scalar_leaf_binding() {
    let mut graph = Graph::new(1);
    let dense_leaf = graph.input(vec![17]).unwrap();
    let scalar_leaf = graph.uniform(vec![17], (-0.125_f32).to_bits()).unwrap();
    let sum = graph.add(dense_leaf, scalar_leaf).unwrap();
    let difference = graph.sub(dense_leaf, sum).unwrap();
    let output = graph.relu(difference).unwrap();
    let plan = graph.execution_plan_for_outputs(&[output]).unwrap();
    let selected = plan.select_lowering_with_grouping(
        TensorArithmeticRewritePolicy::Disabled,
        TensorArithmeticCapability::Strict,
        TensorPointwiseGroupingPolicy::BoundedAddSubRelu,
    );
    let group = selected
        .bounded_pointwise_fusion_groups()
        .first()
        .expect("the bounded chain is selected");
    assert_eq!(
        bounded_pointwise_topology(group).as_slice(),
        [1, 2, 2, 0, 0, 0, 0, 1, 1, 0, 0, 1, 0]
    );

    let kernel =
        bounded_pointwise_kernel(group, 17, 0b010, &bounded_pointwise_topology(group)).unwrap();

    let add_position = place(&kernel.ops, alu(3, RocmAluOp::Add, 1, 2));
    let sub_position = place(&kernel.ops, alu(4, RocmAluOp::Sub, 1, 3));
    let relu_position = place(&kernel.ops, alu(6, RocmAluOp::Max, 4, 5));
    assert!(add_position < sub_position && sub_position < relu_position);
    assert!(kernel
        .ops
        .contains(&load(2, 1, PcuDispatchIndex::BindingElementZero)));
    assert_eq!(kernel.logical_shape, [17, 1, 1]);
    assert_eq!(
        kernel.id,
        bounded_pointwise_kernel_id(bounded_pointwise_topology(group).as_slice(), 0b010)
    );
}

#[test]
fn bounded_add_sub_identity_dispatch_has_no_relu_epilogue_and_is_preparable() {
    let mut graph = Graph::new(1);
    let left = graph.input(vec![17]).unwrap();
    let right = graph.input(vec![17]).unwrap();
    let sum = graph.add(left, right).unwrap();
    let output = graph.sub(sum, left).unwrap();
    let plan = graph.execution_plan_for_outputs(&[output]).unwrap();
    let selected = plan.select_lowering_with_grouping(
        TensorArithmeticRewritePolicy::Disabled,
        TensorArithmeticCapability::Strict,
        TensorPointwiseGroupingPolicy::BoundedAddSubIdentity,
    );
    let group = selected
        .bounded_pointwise_fusion_groups()
        .first()
        .expect("the two-step Add/Sub chain is selected");
    assert_eq!(group.output, output);
    assert_eq!(group.epilogue, TensorPointwiseEpilogue::Identity);
    assert_eq!(group.steps.len(), 2);

    let (bindings, ops) = bounded_pointwise_program(group, 0).unwrap();
    assert_eq!(bindings.len(), 3);
    assert!(!ops.iter().any(|op| is_alu(op, RocmAluOp::Max)));
    assert!(ops.contains(&alu(4, RocmAluOp::Sub, 3, 1)));
    assert!(matches!(
        selected.operations().last(),
        Some(TensorSelectedOperation::FusedAddSub { group: selected })
            if selected.output == output
                && selected.epilogue == TensorPointwiseEpilogue::Identity
    ));
}

#[test]
fn bounded_mul_identity_is_a_distinct_ordered_dispatch_and_prewarm_request() {
    let mut graph = Graph::new(1);
    let input = graph.input(vec![17]).unwrap();
    let factor = graph.uniform(vec![17], 2.0_f32.to_bits()).unwrap();
    let first = graph.mul(input, factor).unwrap();
    let output = graph.mul(first, input).unwrap();
    let prepared = prepared_for_request_test(
        &graph,
        &[output],
        TensorPointwiseGroupingPolicy::BoundedMulIdentity,
    );
    assert!(!prepared.schedules(first));
    let requests = prepared.collect_dispatch_requests().unwrap();
    assert_eq!(requests.len(), 1);
    let TensorDispatchRequest::BoundedMul {
        group,
        logical_count,
        scalar_mask,
        topology,
    } = &requests[0]
    else {
        panic!("expected bounded Mul cache request");
    };
    assert_eq!((*logical_count, *scalar_mask), (17, 2));
    assert_eq!(group.output, output);
    assert_eq!(group.steps.len(), 2);
    assert!(topology.same(&bounded_mul_topology(group)));

    let (_, ops) = bounded_mul_program(group, 0).unwrap();
    assert_eq!(
        ops.iter()
            .filter(|op| is_alu(op, RocmAluOp::Mul))
            .count(),
        2
    );
    assert!(!ops
        .iter()
        .any(|op| is_alu(op, RocmAluOp::Add) || is_alu(op, RocmAluOp::Sub)));
    assert!(ops.contains(&alu(4, RocmAluOp::Mul, 3, 1)));
    assert!(matches!(prepared.lowering_plan.operations().last(),
        Some(TensorSelectedOperation::FusedMul { group }) if group.output == output));
}

#[test]
fn relu_dispatch_kernel_lowers_max_against_zero() {
    let kernel = relu_kernel(17);

    assert!(kernel.ops.contains(&zero(1)));
    assert!(kernel.ops.contains(&alu(3, RocmAluOp::Max, 2, 1)));
    assert_eq!(kernel.logical_shape, [17, 1, 1]);
}

#[test]
fn mse_dispatch_kernel_lowers_squared_difference() {
    let kernel = mse_kernel(17);
    assert!(kernel.ops.iter().any(|op| is_alu(op, RocmAluOp::Sub)));
    assert!(kernel.ops.contains(&alu(4, RocmAluOp::Mul, 3, 3)));
    assert_eq!(kernel.logical_shape, [17, 1, 1]);
}

#[test]
fn prewarm_requests_deduplicate_fixed_keys_and_keep_scalar_layout_mask() {
    let mut graph = Graph::new(1);
    let input = graph.input(vec![16]).unwrap();
    let uniform = graph.uniform(vec![16], 2.0_f32.to_bits()).unwrap();
    let first = graph.add(input, uniform).unwrap();
    let second = graph.add(first, uniform).unwrap();
    let output = graph.relu(second).unwrap();
    let prepared =
        prepared_for_request_test(&graph, &[output], TensorPointwiseGroupingPolicy::Disabled);

    let requests = prepared.collect_dispatch_requests().unwrap();

    assert_eq!(requests.len(), 2);
    assert!(matches!(
        requests[0],
        TensorDispatchRequest::Fixed {
            kind: TensorDispatchKind::Add,
            logical_count: 16,
            scalar_mask: 0b10,
        }
    ));
    assert!(matches!(
        requests[1],
        TensorDispatchRequest::Fixed {
            kind: TensorDispatchKind::Relu,
            logical_count: 16,
            scalar_mask: 0,
        }
    ));
}

#[test]
fn prewarm_request_collects_one_dynamic_key_for_bounded_group() {
    let mut graph = Graph::new(1);
    let left = graph.input(vec![32]).unwrap();
    let right = graph.input(vec![32]).unwrap();
    let sum = graph.add(left, right).unwrap();
    let difference = graph.sub(sum, right).unwrap();
    let output = graph.relu(difference).unwrap();
    let prepared = prepared_for_request_test(
        &graph,
        &[output],
        TensorPointwiseGroupingPolicy::BoundedAddSubRelu,
    );

    let requests = prepared.collect_dispatch_requests().unwrap();

    assert_eq!(requests.len(), 1);
    assert!(matches!(
        &requests[0],
        TensorDispatchRequest::BoundedPointwise {
            logical_count: 32,
            scalar_mask: 0,
            topology,
            ..
        } if topology.same(&bounded_pointwise_topology(
            &prepared.lowering_plan.bounded_pointwise_fusion_groups()[0]
        ))
    ));
    assert_eq!(
        prepared.lowering_plan.bounded_pointwise_fusion_groups()[0].output,
        output
    );
}

#[test]
fn prewarm_request_collects_identity_group_at_the_terminal_arithmetic_node() {
    let mut graph = Graph::new(1);
    let left = graph.input(vec![32]).unwrap();
    let right = graph.input(vec![32]).unwrap();
    let sum = graph.add(left, right).unwrap();
    let output = graph.sub(sum, right).unwrap();
    let prepared = prepared_for_request_test(
        &graph,
        &[output],
        TensorPointwiseGroupingPolicy::BoundedAddSubIdentity,
    );

    assert!(!prepared.schedules(sum));
    assert!(prepared.schedules(output));
    let requests = prepared.collect_dispatch_requests().unwrap();
    assert_eq!(requests.len(), 1);
    assert!(matches!(
        &requests[0],
        TensorDispatchRequest::BoundedPointwise {
            logical_count: 32,
            scalar_mask: 0,
            topology,
            group,
        } if group.output == output
            && group.epilogue == TensorPointwiseEpilogue::Identity
            && topology.same(&bounded_pointwise_topology(group))
    ));
}

#[test]
fn prewarm_retained_count_tracks_fifo_capacity_truncation() {
    let keys = |range: std::ops::Range<u32>| {
        range
            .map(|count| TensorDispatchCacheKey::Fixed(TensorDispatchKind::Add, count, 0))
            .collect::<Vec<_>>()
    };
    let requested = keys(0..35);
    let retained_fifo = keys(3..35);

    assert_eq!(retained_requested_key_count(&requested, &retained_fifo), 32);
    assert_eq!(
        retained_requested_key_count(&requested[..3], &retained_fifo),
        0
    );
}

#[test]
fn preflight_selects_only_requested_output_dependencies() {
    let mut graph = Graph::new(1);
    let left = graph.input(vec![2, 2]).unwrap();
    let right = graph.input(vec![2, 2]).unwrap();
    let result = graph.matmul(left, right).unwrap();
    let unrelated_left = graph.input(vec![2, 2]).unwrap();
    let unrelated_right = graph.input(vec![2, 2]).unwrap();
    let _unsupported_but_unreachable = graph.add(unrelated_left, unrelated_right).unwrap();
    let inputs = [
        (left, tensor(vec![2, 2], vec![1.0; 4])),
        (right, tensor(vec![2, 2], vec![2.0; 4])),
    ];

    let plan = prepare(&graph, result).unwrap();
    validate_graph_inputs(plan.lowering_plan.nodes(), &inputs).unwrap();

    assert_eq!(plan.lowering_plan.nodes().len(), 3);
    assert_eq!(plan.use_counts, [1, 1, 1]);
    assert!(plan.lowering_plan.index_of(result).is_some());
}

#[test]
fn rocm_preflight_defaults_to_strict_unrewritten_selected_schedule() {
    let mut graph = Graph::new(1);
    let weights = graph.input(vec![1]).unwrap();
    let gradient = graph.input(vec![1]).unwrap();
    let rate = graph.constant(tensor(vec![1], vec![0.125]));
    let scaled = graph.mul(rate, gradient).unwrap();
    let updated = graph.sub(weights, scaled).unwrap();
    let prepared = prepare(&graph, updated).unwrap();

    assert_eq!(prepared.lowering_plan.rewrites(), &[]);
    assert!(prepared.lowering_plan.suppressed_values().is_empty());
    assert_eq!(prepared.lowering_plan.output_values(), &[updated]);
    assert_eq!(
        prepared.lowering_plan.nodes().len(),
        prepared.plan.node_order().len()
    );
    assert_eq!(prepared.use_counts, prepared.plan.use_counts());
    let nodes = prepared.lowering_plan.nodes();
    assert!(matches!(nodes[3].op, OpDescriptor::Mul { .. }));
    assert!(matches!(nodes[4].op, OpDescriptor::Sub { .. }));

    let selected = RocmTensorAssessor {
        library_usable: true,
    }
    .prepare_graph(&graph, updated)
    .unwrap();
    assert!(selected.lowering_plan.rewrites().is_empty());
}

#[test]
fn compact_uniform_storage_is_limited_to_elementwise_consumers() {
    let mut graph = Graph::new(1);
    let input = graph.input(vec![4]).unwrap();
    let uniform = graph.uniform(vec![4], 0.25_f32.to_bits()).unwrap();
    let output = graph.add(input, uniform).unwrap();
    let prepared = prepare_outputs(&graph, &[output], &PureRocmAssessor).unwrap();

    assert_eq!(
        layout(&prepared, uniform),
        RocmPhysicalLayout::uniform_scalar()
    );
    assert!(prepared.storage_constraints.iter().any(|constraint| {
        (constraint.left == uniform && constraint.left_bytes == 4)
            || (constraint.right == uniform && constraint.right_bytes == 4)
    }));

    let mut graph = Graph::new(2);
    let uniform = graph.uniform(vec![4], 0.25_f32.to_bits()).unwrap();
    let output = graph.relu(uniform).unwrap();
    let prepared = prepare_outputs(&graph, &[output], &PureRocmAssessor).unwrap();

    assert_eq!(layout(&prepared, uniform), RocmPhysicalLayout::dense(16));
    assert!(prepared.storage_constraints.iter().any(|constraint| {
        (constraint.left == uniform && constraint.left_bytes == 16)
            || (constraint.right == uniform && constraint.right_bytes == 16)
    }));

    let mut graph = Graph::new(3);
    let input = graph.input(vec![4]).unwrap();
    let uniform = graph.uniform(vec![4], 0.25_f32.to_bits()).unwrap();
    let output = graph.add(input, uniform).unwrap();
    let prepared = prepare_outputs(&graph, &[output], &DenseOnlyAssessor).unwrap();
    assert_eq!(layout(&prepared, uniform), RocmPhysicalLayout::dense(16));
    assert!(prepared.storage_constraints.iter().any(|constraint| {
        (constraint.left == uniform && constraint.left_bytes == 16)
            || (constraint.right == uniform && constraint.right_bytes == 16)
    }));
}

#[test]
fn compact_uniform_fans_out_across_selected_elementwise_outputs() {
    let mut graph = Graph::new(1);
    let input = graph.input(vec![4]).unwrap();
    let uniform = graph.uniform(vec![4], 0.25_f32.to_bits()).unwrap();
    let added = graph.add(input, uniform).unwrap();
    let subtracted = graph.sub(added, uniform).unwrap();
    let multiplied = graph.mul(subtracted, uniform).unwrap();

    let prepared =
        prepare_outputs(&graph, &[subtracted, multiplied], &PureRocmAssessor).unwrap();

    assert_eq!(
        layout(&prepared, uniform),
        RocmPhysicalLayout::uniform_scalar()
    );
    assert_eq!(
        prepared.lowering_plan.output_values(),
        &[subtracted, multiplied]
    );

    let uniform_constraints = prepared
        .storage_constraints
        .iter()
        .filter(|constraint| constraint.left == uniform || constraint.right == uniform)
        .collect::<Vec<_>>();
    assert_eq!(uniform_constraints.len(), 3);
    assert!(uniform_constraints.iter().all(|constraint| {
        if constraint.left == uniform {
            constraint.left_bytes == 4
        } else {
            constraint.right_bytes == 4
        }
    }));
    assert!(uniform_constraints.iter().any(|constraint| {
        (constraint.left == uniform && constraint.right == added)
            || (constraint.right == uniform && constraint.left == added)
    }));
    assert!(uniform_constraints.iter().any(|constraint| {
        (constraint.left == uniform && constraint.right == subtracted)
            || (constraint.right == uniform && constraint.left == subtracted)
    }));
    assert!(uniform_constraints.iter().any(|constraint| {
        (constraint.left == uniform && constraint.right == multiplied)
            || (constraint.right == uniform && constraint.left == multiplied)
    }));
}

#[test]
fn fused_add_relu_preflight_omits_add_resource_and_overlap_facts() {
    let mut graph = Graph::new(1);
    let left = graph.input(vec![4]).unwrap();
    let right = graph.input(vec![4]).unwrap();
    let added = graph.add(left, right).unwrap();
    let output = graph.relu(added).unwrap();
    let prepared = prepared_for_request_test(
        &graph,
        &[output],
        TensorPointwiseGroupingPolicy::SingleUseAddRelu,
    );
    assert!(!prepared.schedules(added));
    let fused = prepared.lowering_plan.operations().last().unwrap();
    assert!(matches!(
        fused,
        TensorSelectedOperation::FusedAddRelu { relu_output, left: a, right: b, .. }
            if *relu_output == output && (*a, *b) == (left, right)
    ));
    let position = prepared.lowering_plan.index_of(added).unwrap();
    assert_eq!(prepared.use_counts[position], 0);
    assert!(prepared
        .storage_constraints
        .iter()
        .all(|constraint| constraint.left != added && constraint.right != added));
}

#[test]
fn selected_uniform_output_stays_dense_and_mixed_fanout_stays_dense() {
    let mut graph = Graph::new(1);
    let uniform = graph.uniform(vec![4], 0.25_f32.to_bits()).unwrap();
    let prepared = prepare_outputs(&graph, &[uniform], &PureRocmAssessor).unwrap();
    assert_eq!(layout(&prepared, uniform), RocmPhysicalLayout::dense(16));

    let mut graph = Graph::new(2);
    let input = graph.input(vec![4]).unwrap();
    let uniform = graph.uniform(vec![4], 0.25_f32.to_bits()).unwrap();
    let added = graph.add(input, uniform).unwrap();
    let relu = graph.relu(uniform).unwrap();
    let prepared = prepare_outputs(&graph, &[added, relu], &PureRocmAssessor).unwrap();
    assert_eq!(layout(&prepared, uniform), RocmPhysicalLayout::dense(16));
    assert!(prepared.storage_constraints.iter().any(|constraint| {
        (constraint.left == uniform && constraint.left_bytes == 16)
            || (constraint.right == uniform && constraint.right_bytes == 16)
    }));
}

#[test]
fn empty_uniform_is_rejected_before_rocm_allocation() {
    let mut graph = Graph::new(1);
    let uniform = graph.uniform(vec![0], 0.25_f32.to_bits()).unwrap();
    assert!(matches!(
        prepare_outputs(&graph, &[uniform], &PureRocmAssessor),
        Err(RocmTensorExecutionError::Unsupported {
            value,
            reason: TensorUnsupportedReason::Shape,
        }) if value == uniform
    ));
}

#[test]
fn rocm_preflight_only_selects_contracted_sgd_when_policy_is_explicit_and_candidate_is_safe() {
    let mut graph = Graph::new(1);
    let weights = graph.input(vec![1]).unwrap();
    let gradient = graph.input(vec![1]).unwrap();
    let rate = graph.constant(tensor(vec![1], vec![0.125]));
    let scaled = graph.mul(rate, gradient).unwrap();
    let updated = graph.sub(weights, scaled).unwrap();
    let explicit = prepare_graph_outputs_plan_with_policies(
        &graph,
        &[updated],
        &PureRocmAssessor,
        TensorArithmeticRewritePolicy::AllowContractedArithmetic,
        TensorArithmeticCapability::ContractedMultiplyAdd,
        TensorPointwiseGroupingPolicy::Disabled,
    )
    .unwrap();

    assert_eq!(explicit.lowering_plan.rewrites().len(), 1);
    assert_eq!(explicit.lowering_plan.rewrites()[0].output, updated);
    assert_eq!(explicit.lowering_plan.nodes().len(), 3);
    assert!(explicit.storage_constraints.iter().all(|constraint| {
        explicit.lowering_plan.index_of(constraint.left).is_some()
            && explicit.lowering_plan.index_of(constraint.right).is_some()
    }));
    assert!(matches!(
        explicit.lowering_plan.nodes()[2].op,
        OpDescriptor::SgdUpdate { .. }
    ));

    let shared = graph.add(scaled, weights).unwrap();
    let unsupported = prepare_graph_outputs_plan_with_policies(
        &graph,
        &[updated, shared],
        &PureRocmAssessor,
        TensorArithmeticRewritePolicy::AllowContractedArithmetic,
        TensorArithmeticCapability::ContractedMultiplyAdd,
        TensorPointwiseGroupingPolicy::Disabled,
    )
    .unwrap();
    assert!(unsupported.lowering_plan.rewrites().is_empty());
    let nodes = unsupported.lowering_plan.nodes();
    assert!(matches!(nodes[3].op, OpDescriptor::Mul { .. }));
    assert!(matches!(nodes[4].op, OpDescriptor::Sub { .. }));
}

#[test]
fn multi_output_preflight_unions_dependencies_and_pins_requested_values() {
    let mut graph = Graph::new(1);
    let input = graph.input(vec![2]).unwrap();
    let first_constant = graph.constant(tensor(vec![2], vec![1.0; 2]));
    let first = graph.add(input, first_constant).unwrap();
    let second_constant = graph.constant(tensor(vec![2], vec![2.0; 2]));
    let second = graph.mul(first, second_constant).unwrap();

    let plan = prepare_outputs(&graph, &[second, first], &PureRocmAssessor)
        .expect("both output dependency closures are supported");

    assert_eq!(plan.lowering_plan.nodes().len(), 5);
    assert_eq!(plan.lowering_plan.nodes().last().unwrap().value, second);
    let first_index = plan.lowering_plan.index_of(first).unwrap();
    assert_eq!(plan.use_counts[first_index], 2);
    let output_order = [second, first];
    assert_eq!(output_position(&output_order, first), Some(1));
    assert_eq!(output_position(&output_order, second), Some(0));
    assert_eq!(output_position(&output_order, input), None);
}

#[test]
fn multi_output_preflight_rejects_empty_and_duplicate_outputs() {
    let mut graph = Graph::new(1);
    let input = graph.input(vec![2]).unwrap();

    assert!(matches!(
        prepare_outputs(&graph, &[], &PureRocmAssessor),
        Err(RocmTensorExecutionError::EmptyOutputs)
    ));
    assert!(matches!(
        prepare_outputs(&graph, &[input, input], &PureRocmAssessor),
        Err(RocmTensorExecutionError::DuplicateOutput(value)) if value == input
    ));
}

#[test]
fn preflight_accepts_supported_mse_reduction() {
    let mut graph = Graph::new(1);
    let left = graph.input(vec![2, 2]).unwrap();
    let right = graph.input(vec![2, 2]).unwrap();
    let output = graph.mean_squared_error(left, right).unwrap();

    let prepared = prepare(&graph, output).unwrap();
    let nodes = prepared.lowering_plan.nodes();
    assert_eq!(nodes.last().unwrap().value, output);
    assert_eq!(nodes.last().unwrap().shape, &[]);
}

#[test]
fn mse_scratch_capacity_covers_largest_reduction_in_multi_output_plan() {
    let mut graph = Graph::new(1);
    let left = graph.input(vec![2, 3]).unwrap();
    let right = graph.input(vec![2, 3]).unwrap();
    let first_loss = graph.mean_squared_error(left, right).unwrap();
    let next_left = graph.input(vec![4]).unwrap();
    let next_right = graph.input(vec![4]).unwrap();
    let second_loss = graph.mean_squared_error(next_left, next_right).unwrap();
    let plan = prepare_outputs(&graph, &[first_loss, second_loss], &PureRocmAssessor).unwrap();

    assert_eq!(
        mse_scratch_element_count(&graph, plan.lowering_plan.nodes()).unwrap(),
        6
    );
}

#[test]
fn mse_scratch_validates_buffer_capacity_in_bytes() {
    assert!(mse_scratch_length_fits(3, 12).unwrap());
    assert!(!mse_scratch_length_fits(3, 11).unwrap());
    assert!(matches!(
        mse_scratch_length_fits(usize::MAX, usize::MAX),
        Err(RocmTensorExecutionError::SizeOverflow)
    ));
}

#[test]
fn sgd_update_preflight_is_native_and_tracks_both_operands() {
    let mut graph = Graph::new(1);
    let weights = graph.input(vec![3]).unwrap();
    let gradient = graph.input(vec![3]).unwrap();
    let updated = graph
        .sgd_update(weights, gradient, 0.25_f32.to_bits())
        .unwrap();

    let plan = prepare(&graph, updated).unwrap();
    let node = plan.lowering_plan.nodes().last().unwrap();
    assert!(matches!(node.op, OpDescriptor::SgdUpdate {
            weights: value_weights, gradient: value_gradient, learning_rate
        } if value_weights == weights
            && value_gradient == gradient
            && (f32::from_bits(learning_rate) - 0.25).abs() < f32::EPSILON));
    assert_eq!(plan.use_counts, [1, 1, 1]);
    assert_eq!(
        assess_tensor_node(&graph, *node),
        TensorOperationSupport::Supported {
            route: TensorExecutionRoute::Native,
            workspace_bytes: Some(0),
        }
    );
}

#[test]
fn scratch_retains_constants_and_non_output_computations_only() {
    let mut graph = Graph::new(1);
    let input = graph.input(vec![2]).unwrap();
    let constant = graph.constant(tensor(vec![2], vec![1.0; 2]));
    let computed = graph.add(input, constant).unwrap();
    let input_node = node(&graph, input);
    let constant_node = node(&graph, constant);
    let computed_node = node(&graph, computed);

    assert!(!scratch_stores_node(input_node.op, input, &[computed]));
    assert!(scratch_stores_node(constant_node.op, constant, &[computed]));
    assert!(!scratch_stores_node(
        computed_node.op,
        computed,
        &[computed]
    ));
    assert!(scratch_stores_node(computed_node.op, computed, &[input]));
}

#[test]
fn preflight_checks_all_reachable_inputs_before_execution() {
    let mut graph = Graph::new(1);
    let left = graph.input(vec![2, 2]).unwrap();
    let right = graph.input(vec![2, 2]).unwrap();
    let output = graph.matmul(left, right).unwrap();
    let inputs = [(left, tensor(vec![2, 2], vec![1.0; 4]))];

    assert!(matches!(
        prepare(&graph, output).and_then(|plan| validate_graph_inputs(
            plan.lowering_plan.nodes(),
            &inputs
        )
        .map_err(RocmTensorExecutionError::Graph)),
        Err(RocmTensorExecutionError::Graph(TensorError::MissingInput(id))) if id == right
    ));
}

#[test]
fn preflight_rejects_wrong_shaped_input() {
    let mut graph = Graph::new(1);
    let input = graph.input(vec![2, 2]).unwrap();
    let inputs = [(input, tensor(vec![4], vec![1.0; 4]))];

    assert!(matches!(
        prepare(&graph, input).and_then(|plan| validate_graph_inputs(
            plan.lowering_plan.nodes(),
            &inputs
        )
        .map_err(RocmTensorExecutionError::Graph)),
        Err(RocmTensorExecutionError::Graph(
            TensorError::ShapeMismatch { .. }
        ))
    ));
}

#[test]
fn assessor_selects_library_for_dense_rank_two_matmul() {
    let mut graph = Graph::new(1);
    let left = graph.input(vec![2, 3]).unwrap();
    let right = graph.input(vec![3, 4]).unwrap();
    let result = graph.matmul(left, right).unwrap();

    assert_eq!(
        assess_tensor_node(&graph, node(&graph, result)),
        TensorOperationSupport::Supported {
            route: TensorExecutionRoute::Library,
            workspace_bytes: None,
        }
    );
}

#[test]
fn assessor_synthesizes_add_relu_and_mse() {
    let mut graph = Graph::new(1);
    let first = graph.input(vec![2, 2]).unwrap();
    let second = graph.input(vec![2, 2]).unwrap();
    let add = graph.add(first, second).unwrap();
    let relu = graph.relu(first).unwrap();
    let loss = graph.mean_squared_error(first, second).unwrap();

    assert_eq!(
        assess_tensor_node(&graph, node(&graph, add)),
        TensorOperationSupport::Supported {
            route: TensorExecutionRoute::Synthesized,
            workspace_bytes: Some(0),
        }
    );
    assert_eq!(
        assess_tensor_node(&graph, node(&graph, relu)),
        TensorOperationSupport::Supported {
            route: TensorExecutionRoute::Synthesized,
            workspace_bytes: Some(0),
        }
    );
    assert_eq!(
        assess_tensor_node(&graph, node(&graph, loss)),
        TensorOperationSupport::Supported {
            route: TensorExecutionRoute::Synthesized,
            workspace_bytes: None,
        }
    );
}

fn assert_unsupported_product(left: Vec<usize>, right: Vec<usize>) {
    let mut graph = Graph::new(1);
    let left = graph.input(left).unwrap();
    let right = graph.input(right).unwrap();
    let result = graph.matmul(left, right).unwrap();
    assert_eq!(
        assess_tensor_node(&graph, node(&graph, result)),
        TensorOperationSupport::Unsupported {
            reason: TensorUnsupportedReason::Shape,
        }
    );
}

#[test]
fn assessor_rejects_zero_sized_matmul_output() {
    assert_unsupported_product(vec![0, 3], vec![3, 2]);
}

#[test]
fn assessor_rejects_zero_inner_dimension_even_with_nonzero_output() {
    assert_unsupported_product(vec![2, 0], vec![0, 3]);
}

#[test]
fn assessor_rejects_dimensions_outside_rocblas_integer_range() {
    assert_unsupported_product(vec![i32::MAX as usize + 1, 1], vec![1, 1]);
}

#[test]
fn feedback_outputs_require_a_completed_step() {
    assert!(validate_completed_step(0, 2).is_ok());
    assert!(validate_completed_step(1, 2).is_ok());
    assert!(matches!(
        validate_completed_step(2, 2),
        Err(RocmTensorExecutionError::FeedbackStepUnavailable {
            requested: 2,
            first_available: 0,
            completed: 2
        })
    ));
    assert!(matches!(
        validate_completed_step(0, 0),
        Err(RocmTensorExecutionError::FeedbackStepUnavailable {
            requested: 0,
            first_available: 0,
            completed: 0
        })
    ));
    assert!(validate_completed_step(1, 3).is_ok());
    assert!(validate_completed_step(2, 3).is_ok());
    assert!(matches!(
        validate_completed_step(0, 3),
        Err(RocmTensorExecutionError::FeedbackStepUnavailable {
            requested: 0,
            first_available: 1,
            completed: 3
        })
    ));
}

#[test]
fn fixed_kernels_have_their_own_names_and_load_scalars_by_mask() {
    let ids = [
        add_kernel(8, 0).id,
        sub_kernel(8, 0).id,
        mul_kernel(8, 0).id,
        add_relu_kernel(8, 0).id,
        relu_kernel(8).id,
        mse_kernel(8).id,
        add_kernel(8, 1).id,
        add_kernel(8, 2).id,
        add_kernel(8, 3).id,
    ];
    for at in 0..ids.len() {
        for other in 0..at {
            assert_ne!(ids[at], ids[other]);
        }
    }
    let kernel = sub_kernel(8, 2);
    assert_eq!(
        kernel.ops[..3],
        [
            load(1, 0, PcuDispatchIndex::InvocationId),
            load(2, 1, PcuDispatchIndex::BindingElementZero),
            alu(3, RocmAluOp::Sub, 1, 2),
        ]
    );
    assert_eq!(
        TensorDispatchKind::Mul.kernel(8, 1).ops,
        mul_kernel(8, 1).ops
    );
}

#[test]
fn kernel_identity_is_the_hash_of_topology_and_mask() {
    // The lower bytes of an FNV-1a hash, under a fixed first byte pair.
    let hash = |bytes: &[u8]| {
        let hash = bytes.iter().fold(0x811c_9dc5_u32, |hash, byte| {
            (hash ^ u32::from(*byte)).wrapping_mul(0x0100_0193)
        });
        0x4250_0000 | (hash & 0x00ff_ffff)
    };
    assert_eq!(bounded_pointwise_kernel_id(&[], 0), hash(&[0]));
    assert_eq!(
        bounded_pointwise_kernel_id(&[1, 2, 2], 3),
        hash(&[1, 2, 2, 3])
    );
    assert_ne!(
        bounded_pointwise_kernel_id(&[1, 2, 2], 3),
        bounded_pointwise_kernel_id(&[1, 2, 3], 2)
    );
}

#[test]
fn operands_of_an_expression_are_numbered_leaves_first() {
    assert_eq!(
        pointwise_value_id(3, TensorPointwiseOperand::Leaf(0)).unwrap(),
        1
    );
    assert_eq!(
        pointwise_value_id(3, TensorPointwiseOperand::Step(1)).unwrap(),
        5
    );
    assert!(matches!(
        pointwise_value_id(3, TensorPointwiseOperand::Leaf(3)),
        Err(RocmTensorExecutionError::SizeOverflow)
    ));
    assert!(matches!(
        pointwise_value_id(3, TensorPointwiseOperand::Step(65_532)),
        Err(RocmTensorExecutionError::SizeOverflow)
    ));
}

#[test]
fn mul_kernel_of_a_group_reads_each_leaf_once_in_order() {
    let mut graph = Graph::new(1);
    let a = graph.input(vec![5]).unwrap();
    let b = graph.input(vec![5]).unwrap();
    let first = graph.mul(a, b).unwrap();
    let output = graph.mul(b, first).unwrap();
    let prepared = prepared_for_request_test(
        &graph,
        &[output],
        TensorPointwiseGroupingPolicy::BoundedMulIdentity,
    );
    let group = &prepared.lowering_plan.bounded_mul_fusion_groups()[0];
    let kernel = bounded_mul_kernel(group, 5, 0b01, &bounded_mul_topology(group)).unwrap();
    assert_eq!(
        kernel.ops,
        [
            load(1, 0, PcuDispatchIndex::BindingElementZero),
            load(2, 1, PcuDispatchIndex::InvocationId),
            alu(3, RocmAluOp::Mul, 1, 2),
            alu(4, RocmAluOp::Mul, 2, 3),
            store(2, 4),
            RocmKernelOp::Return,
        ]
    );
    assert_eq!(
        kernel.id,
        bounded_pointwise_kernel_id(bounded_mul_topology(group).as_slice(), 0b01)
    );
    // A product chain and a sum chain of one shape do not share a topology.
    let mut graph = Graph::new(2);
    let a = graph.input(vec![5]).unwrap();
    let b = graph.input(vec![5]).unwrap();
    let first = graph.add(a, b).unwrap();
    let output = graph.add(b, first).unwrap();
    let sums = prepared_for_request_test(
        &graph,
        &[output],
        TensorPointwiseGroupingPolicy::BoundedAddSubIdentity,
    );
    let other = &sums.lowering_plan.bounded_pointwise_fusion_groups()[0];
    assert!(!bounded_mul_topology(group).same(&bounded_pointwise_topology(other)));
    assert!(bounded_mul_topology(group).same(&bounded_mul_topology(group).copied()));
}

#[test]
fn sizes_are_checked_in_elements_bytes_and_blocks() {
    assert_eq!(flattened_invocation_count(&[3, 5]).unwrap(), 15);
    assert_eq!(flattened_invocation_count(&[]).unwrap(), 1);
    assert!(matches!(
        flattened_invocation_count(&[u32::MAX as usize, 2]),
        Err(RocmTensorExecutionError::SizeOverflow)
    ));
    assert_eq!(block_count(1), 1);
    assert_eq!(block_count(256), 1);
    assert_eq!(block_count(257), 2);
    assert_eq!(byte_len(&[3, 5]).unwrap(), 60);
    assert!(matches!(
        byte_len(&[usize::MAX, 1]),
        Err(RocmTensorExecutionError::SizeOverflow)
    ));
}

#[test]
fn row_major_products_hand_the_library_swapped_operands() {
    let any = PcuMemoryAccess::ReadWrite;
    assert_eq!(
        matmul_row_major(any, any, any, 2, 3, 4),
        Ok(SgemmCall {
            transpose_first: false,
            transpose_second: false,
            m: 4,
            n: 2,
            k: 3,
            first_stride: 4,
            second_stride: 3,
            output_stride: 4,
        })
    );
    assert_eq!(
        matmul_row_major_flags(any, any, any, [3, 2], [4, 3], true, true),
        Ok(SgemmCall {
            transpose_first: true,
            transpose_second: true,
            m: 4,
            n: 2,
            k: 3,
            first_stride: 3,
            second_stride: 2,
            output_stride: 4,
        })
    );
    assert_eq!(
        matmul_row_major_flags(any, any, any, [2, 3], [4, 3], false, false),
        Err(RocmTensorError::InvalidShape)
    );
    assert_eq!(
        matmul_row_major(any, any, any, 0, 3, 4),
        Err(RocmTensorError::InvalidShape)
    );
    assert_eq!(
        matmul_row_major(any, any, any, usize::MAX, 1, 1),
        Err(RocmTensorError::DimensionOverflow)
    );
    assert_eq!(
        matmul_row_major(any, any, PcuMemoryAccess::ReadOnly, 2, 3, 4),
        Err(RocmTensorError::InvalidMemoryAccess)
    );
    assert_eq!(
        RocmTensorError::InvalidShape.message(),
        Some("ROCm tensor MatMul requires nonempty rank-two matrices")
    );
    assert_eq!(RocmTensorError::Rocblas(3).message(), None);
}

/// Runs a whole prewarming pass and hands out the number of each compiled dispatch.
fn prewarm(
    requests: &[TensorDispatchRequest<'_>],
    cache: &mut TensorDispatchCache<usize>,
) -> (RocmTensorPrewarmReport, usize) {
    let mut pass = RocmPrewarm::begin(requests);
    let mut made = 0;
    while let Some(compilation) = pass.next(requests, cache).unwrap() {
        assert!(cache.dispatch(&compilation.key).is_none());
        pass.compiled(requests, cache, made);
        assert_eq!(cache.dispatch(&compilation.key), Some(&made));
        made += 1;
    }
    (pass.finish(requests, cache), made)
}

#[test]
fn prewarming_compiles_each_key_once_and_then_only_hits() {
    let mut graph = Graph::new(1);
    let left = graph.input(vec![32]).unwrap();
    let right = graph.input(vec![32]).unwrap();
    let sum = graph.add(left, right).unwrap();
    let scaled = graph.mul(sum, right).unwrap();
    let output = graph.relu(scaled).unwrap();
    let prepared =
        prepared_for_request_test(&graph, &[output], TensorPointwiseGroupingPolicy::Disabled);
    let requests = prepared.collect_dispatch_requests().unwrap();
    let mut cache = TensorDispatchCache::new();
    let (report, made) = prewarm(&requests, &mut cache);
    assert_eq!(made, 3);
    assert_eq!(
        report,
        RocmTensorPrewarmReport {
            requested_keys: 3,
            compiled_keys: 3,
            cache_hits: 0,
            evictions: 0,
            retained_keys: 3,
        }
    );
    let (report, made) = prewarm(&requests, &mut cache);
    assert_eq!(made, 0);
    assert_eq!((report.compiled_keys, report.cache_hits), (0, 3));
}

#[test]
fn the_oldest_dispatch_gives_way_in_a_full_cache() {
    let mut cache = TensorDispatchCache::new();
    let key = |count: u32| TensorDispatchCacheKey::Fixed(TensorDispatchKind::Sub, count, 0);
    for count in 0..32 {
        assert_eq!(
            cache.take_in(key(count), count),
            TensorDispatchCacheAdmission {
                compiled: true,
                evicted: false
            }
        );
    }
    assert_eq!(
        cache.take_in(key(32), 32),
        TensorDispatchCacheAdmission {
            compiled: true,
            evicted: true
        }
    );
    assert_eq!(cache.dispatch(&key(0)), None);
    assert_eq!(cache.dispatch(&key(1)), Some(&1));
    assert_eq!(cache.dispatch(&key(32)), Some(&32));
    assert_eq!(cache.position(&key(32)), Some(31));
    assert_eq!(cache.copied_keys().len(), 32);
    assert!(!key(1).same(&TensorDispatchCacheKey::Fixed(
        TensorDispatchKind::Sub,
        1,
        1
    )));
    assert!(key(1).same(&key(1).copied()));
}

#[test]
fn a_lookup_gives_back_what_was_taken_in_under_its_key() {
    let key = |kind, count| TensorDispatchCacheKey::Fixed(kind, count, 0);
    let mut cache = TensorDispatchCache::new();
    cache.take_in(key(TensorDispatchKind::Add, 4), 1);
    cache.take_in(key(TensorDispatchKind::Mul, 4), 2);
    assert_eq!(cache.dispatch(&key(TensorDispatchKind::Add, 4)), Some(&1));
    assert_eq!(cache.dispatch(&key(TensorDispatchKind::Mul, 4)), Some(&2));
    for later in 0..30 {
        cache.take_in(key(TensorDispatchKind::Sub, later), 100 + later);
    }
    assert_eq!(cache.dispatch(&key(TensorDispatchKind::Add, 4)), Some(&1));
    cache.take_in(key(TensorDispatchKind::Sub, 30), 130);
    assert_eq!(cache.dispatch(&key(TensorDispatchKind::Add, 4)), None);
    assert_eq!(cache.dispatch(&key(TensorDispatchKind::Mul, 4)), Some(&2));
    cache.take_in(key(TensorDispatchKind::Add, 4), 3);
    assert_eq!(cache.dispatch(&key(TensorDispatchKind::Add, 4)), Some(&3));
    assert_eq!(cache.dispatch(&key(TensorDispatchKind::Mul, 4)), None);
    for later in 0..31 {
        assert_eq!(
            cache.dispatch(&key(TensorDispatchKind::Sub, later)),
            Some(&(100 + later))
        );
    }
}

#[test]
fn tensors_come_back_from_the_device_as_they_went() {
    let native = if least_byte_comes_first() { ByteOrder::LeastFirst } else { ByteOrder::MostFirst };
    assert_eq!(word_bytes(0x0102_0304, ByteOrder::LeastFirst), [4, 3, 2, 1]);
    assert_eq!(word_bytes(0x0102_0304, ByteOrder::MostFirst), [1, 2, 3, 4]);
    assert_eq!(word_bytes(0xdead_beef, native), 0xdead_beef_u32.to_ne_bytes());
    let sent = tensor(vec![1, 3], vec![1.0, -2.5, 0.0]);
    for order in [ByteOrder::LeastFirst, ByteOrder::MostFirst] {
        let bytes = tensor_bytes(&sent, order).unwrap();
        assert_eq!(bytes.len(), 12);
        let back = tensor_from_bytes(&[1, 3], &bytes, order).unwrap();
        assert_eq!(back.shape(), [1, 3]);
        assert_eq!(back.data(), sent.data());
    }
    assert_eq!(
        tensor_bytes(&sent, ByteOrder::LeastFirst).unwrap(),
        [0, 0, 0x80, 0x3f, 0, 0, 0x20, 0xc0, 0, 0, 0, 0]
    );
    let empty = tensor(vec![usize::MAX / 2, 0], vec![]);
    assert!(matches!(
        tensor_bytes(&empty, native),
        Err(RocmTensorExecutionError::SizeOverflow)
    ));
    assert!(matches!(
        tensor_from_bytes(&[usize::MAX / 2, 0], &[], native),
        Err(RocmTensorExecutionError::SizeOverflow)
    ));
}

fn least_byte_comes_first() -> bool {
    1_u16.to_ne_bytes() == [1, 0]
}

#[test]
fn a_loss_over_too_many_elements_is_unsupported_before_any_kernel_is_requested() {
    for count in [1 << 31, 1 << 33] {
        let mut graph = Graph::new(71);
        let prediction = graph.input(vec![count]).unwrap();
        let target = graph.input(vec![count]).unwrap();
        let loss = graph.mean_squared_error(prediction, target).unwrap();
        let prepared = prepare_outputs(&graph, &[loss], &CarelessAssessor).unwrap();
        let at = prepared.lowering_plan.index_of(loss).unwrap();
        let mode = RocmMode { bank: false, scratch: false };
        assert!(matches!(
            prepared.plan_node(&[], &[], mode, at),
            Err(RocmTensorExecutionError::Unsupported {
                value,
                reason: TensorUnsupportedReason::Shape,
            }) if value == loss
        ));
    }
}

#[test]
fn a_kernel_over_too_many_elements_cannot_be_sized() {
    let mut graph = Graph::new(72);
    let input = graph.input(vec![1 << 33]).unwrap();
    let output = graph.relu(input).unwrap();
    let prepared = prepare_outputs(&graph, &[output], &CarelessAssessor).unwrap();
    let at = prepared.lowering_plan.index_of(output).unwrap();
    let mode = RocmMode { bank: false, scratch: false };
    assert!(matches!(
        prepared.plan_node(&[], &[], mode, at),
        Err(RocmTensorExecutionError::SizeOverflow)
    ));
}
