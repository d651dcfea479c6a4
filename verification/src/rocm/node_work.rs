//! What each node of a prepared graph takes.
use vstd::prelude::*;

use super::complete::lemma_operands_are_located;
use super::error::RocmTensorExecutionError;
use super::execute::{
    bound_values, execution_storage, list_bound_values, list_used_values, locate,
    locates, scheduled_label, stored_at, timing_label, used_values, RocmMode, RocmNodeWork,
    RocmStorage, RocmWork,
};
use super::layout::RocmPhysicalLayout;
use super::prepare::{is_scheduled, RocmPreparedTensorGraph};
use super::requests::{
    lemma_operation_groups, RequestFault, RequestModel, TensorDispatchRequest,
};
use super::sizes::{
    allocatable, byte_len, flattened_invocation_count, launchable, mse_accepted, mse_refused,
};
use super::sources::{resident, supplied, RocmTensorInput};
use crate::tensor::descriptor::{
    node_models, NodeDescriptor, NodeModel, OpDescriptor, TensorUnsupportedReason,
};
use crate::tensor::error::{TensorError, ValueId};
use crate::tensor::groups::{bounded_wf, mul_wf};
use crate::tensor::lowering::{
    lemma_found_groups, operation_for, operation_models, operation_steps, scheduled,
    OperationModel, TensorSelectedOperation,
};
use crate::tensor::lowering_laws::lemma_filter_map_holds;
use crate::tensor::rewrite::TensorSgdRewriteCandidate;
use crate::tensor::value::{checked_extent, extent, extent_fits, Tensor, TensorModel};

verus! {

impl<'graph> RocmPreparedTensorGraph<'graph> {
    /// What the node at `at` is scheduled as. A node that a group computes on the way to another
    /// result is not scheduled.
    pub open spec fn operation_at(&self, at: int) -> Option<OperationModel<'graph>> {
        operation_for(self.lowering_plan.groups(), self.nodes()[at]@)
    }

    /// An operation produces the value of its node, and its group stays within the bounds.
    pub proof fn lemma_own_operation(&self, at: int)
        requires
            self.wf(),
            0 <= at < self.nodes().len(),
        ensures
            self.operation_at(at) matches Some(operation) ==> {
                &&& operation.output() == self.nodes()[at].value
                &&& operation matches OperationModel::FusedAddSub { group } ==> bounded_wf(group)
                &&& operation matches OperationModel::FusedMul { group } ==> mul_wf(group)
                &&& operation_models(self.lowering_plan.operations@).contains(operation)
            },
    {
        let groups = self.lowering_plan.groups();
        let nodes = node_models(self.nodes());
        if let Some(operation) = self.operation_at(at) {
            lemma_found_groups(groups, nodes[at].value);
            let choice = |node: NodeModel<'graph>| operation_for(groups, node);
            assert(nodes[at] == self.nodes()[at]@);
            lemma_filter_map_holds(nodes, choice, at);
            assert(scheduled(groups, nodes).contains(operation));
            lemma_operation_groups(self.lowering_plan.graph_id, groups, nodes, operation);
        }
    }

    /// Every operation is that of the node with its value.
    pub proof fn lemma_operation_is_own(&self, p: int, at: int)
        requires
            self.wf(),
            0 <= p < self.lowering_plan.operations@.len(),
            0 <= at < self.nodes().len(),
            self.lowering_plan.operations@[p]@.output() == self.nodes()[at].value,
        ensures
            self.operation_at(at) == Some(self.lowering_plan.operations@[p]@),
    {
        let groups = self.lowering_plan.groups();
        let nodes = node_models(self.nodes());
        let models = operation_models(self.lowering_plan.operations@);
        let operation = models[p];
        assert(operation == self.lowering_plan.operations@[p]@);
        let choice = |node: NodeModel<'graph>| operation_for(groups, node);
        assert(models.contains(operation));
        nodes.lemma_filter_map_contains(choice, operation);
        let node = choose|node: NodeModel<'graph>| #[trigger]
            nodes.contains(node) && choice(node) == Some(operation);
        let q = nodes.index_of(node);
        assert(nodes[q] == self.nodes()[q]@);
        self.lemma_own_operation(q);
        self.lemma_nodes_sound();
        assert(nodes[at] == self.nodes()[at]@);
        if q < at {
            assert(nodes[q].value.index < nodes[at].value.index);
        } else if at < q {
            assert(nodes[at].value.index < nodes[q].value.index);
        }
    }

    /// A node is scheduled if and only if it has an operation.
    pub proof fn lemma_scheduled(&self, at: int)
        requires
            self.wf(),
            0 <= at < self.nodes().len(),
        ensures
            is_scheduled(self.lowering_plan, self.nodes()[at].value) <==> self.operation_at(
                at,
            ) is Some,
    {
        let models = operation_models(self.lowering_plan.operations@);
        let steps = self.lowering_plan.operation_steps();
        let value = self.nodes()[at].value;
        self.lemma_own_operation(at);
        if let Some(operation) = self.operation_at(at) {
            let p = models.index_of(operation);
            assert(steps[p].value == models[p].output());
        }
        if is_scheduled(self.lowering_plan, value) {
            let p = choose|p: int| 0 <= p < steps.len() && (#[trigger] steps[p]).value == value;
            assert(steps[p].value == models[p].output());
            assert(models[p] == self.lowering_plan.operations@[p]@);
            self.lemma_operation_is_own(p, at);
        }
    }

    /// The operation of the node at `at`.
    pub fn find_operation(&self, at: usize) -> (found: Option<&TensorSelectedOperation<'graph>>)
        requires
            self.wf(),
            at < self.nodes().len(),
        ensures
            match found {
                Some(operation) => self.operation_at(at as int) == Some(operation@),
                None => self.operation_at(at as int) is None,
            },
    {
        let value: ValueId = self.lowering_plan.nodes()[at].value;
        match self.lowering_plan.operation_index_of(value) {
            Some(p) => {
                proof {
                    let models = operation_models(self.lowering_plan.operations@);
                    assert(self.lowering_plan.operation_steps()[p as int].value
                        == models[p as int].output());
                    assert(models[p as int] == self.lowering_plan.operations@[p as int]@);
                    self.lemma_operation_is_own(p as int, at as int);
                }
                Some(&self.lowering_plan.operations[p])
            },
            None => {
                proof {
                    self.lemma_scheduled(at as int);
                }
                None
            },
        }
    }

    /// The update at `value` was rewritten from separate operations.
    pub open spec fn is_contracted(&self, value: ValueId) -> bool {
        exists|i: int|
            0 <= i < self.lowering_plan.rewritten@.len() && (
            #[trigger] self.lowering_plan.rewritten@[i]).output == value
    }

    fn find_contracted(&self, value: ValueId) -> (found: bool)
        ensures
            found == self.is_contracted(value),
    {
        let rewrites: &[TensorSgdRewriteCandidate] = self.lowering_plan.rewrites();
        let mut at: usize = 0;
        while at < rewrites.len()
            invariant
                at <= rewrites@.len(),
                rewrites@ == self.lowering_plan.rewritten@,
                forall|i: int| 0 <= i < at ==> (#[trigger] rewrites@[i]).output != value,
            decreases rewrites@.len() - at,
        {
            if rewrites[at].output == value {
                assert(self.lowering_plan.rewritten@[at as int].output == value);
                return true;
            }
            at += 1;
        }
        false
    }
}

/// The first place at which a host tensor is handed in for a value.
pub open spec fn host_source(
    inputs: Seq<(ValueId, Tensor)>,
    value: ValueId,
    source: usize,
) -> bool {
    source < inputs.len() && inputs[source as int].0 == value && forall|j: int|
        0 <= j < source ==> (#[trigger] inputs[j]).0 != value
}

/// The first place at which a device tensor is handed in for a value.
pub open spec fn resident_source(
    inputs: Seq<(ValueId, &RocmTensorInput)>,
    value: ValueId,
    source: usize,
) -> bool {
    source < inputs.len() && inputs[source as int].0 == value && forall|j: int|
        0 <= j < source ==> (#[trigger] inputs[j]).0 != value
}

fn find_host_source(inputs: &[(ValueId, Tensor)], value: ValueId) -> (source: Option<usize>)
    ensures
        match source {
            Some(source) => host_source(inputs@, value, source) && supplied(inputs@, value),
            None => !supplied(inputs@, value),
        },
{
    let mut at: usize = 0;
    while at < inputs.len()
        invariant
            at <= inputs@.len(),
            forall|j: int| 0 <= j < at ==> (#[trigger] inputs@[j]).0 != value,
        decreases inputs@.len() - at,
    {
        if inputs[at].0 == value {
            assert(inputs@[at as int].0 == value);
            return Some(at);
        }
        at += 1;
    }
    None
}

fn find_resident_source(inputs: &[(ValueId, &RocmTensorInput)], value: ValueId) -> (source: Option<
    usize,
>)
    ensures
        match source {
            Some(source) => resident_source(inputs@, value, source) && resident(inputs@, value),
            None => !resident(inputs@, value),
        },
{
    let mut at: usize = 0;
    while at < inputs.len()
        invariant
            at <= inputs@.len(),
            forall|j: int| 0 <= j < at ==> (#[trigger] inputs@[j]).0 != value,
        decreases inputs@.len() - at,
    {
        if inputs[at].0 == value {
            assert(inputs@[at as int].0 == value);
            return Some(at);
        }
        at += 1;
    }
    None
}

/// What an input takes: a device tensor goes before a host tensor, and a requested input is
/// written to the bank.
pub open spec fn input_work(
    prepared: RocmPreparedTensorGraph<'_>,
    host: Seq<(ValueId, Tensor)>,
    inputs: Seq<(ValueId, &RocmTensorInput)>,
    mode: RocmMode,
    node: NodeDescriptor<'_>,
    flush: bool,
    work: RocmWork<'_>,
    storage: RocmStorage,
) -> bool {
    let value = node.value;
    if mode.bank && prepared.outputs@.contains(value) {
        &&& flush
        &&& stored_at(prepared.outputs@, value, mode, storage)
        &&& if resident(inputs, value) {
            work matches RocmWork::CopyInput { source, bytes } && resident_source(
                inputs,
                value,
                source,
            ) && bytes == extent(4, node.shape@)
        } else {
            work matches RocmWork::TransferInput { source } && host_source(host, value, source)
        }
    } else if resident(inputs, value) {
        !flush && storage is Fresh && (work matches RocmWork::ShareInput { source }
            && resident_source(inputs, value, source))
    } else {
        flush && storage is Fresh && (work matches RocmWork::UploadInput { source } && host_source(
            host,
            value,
            source,
        ))
    }
}

/// What a scheduled operation takes, besides its operands.
pub open spec fn operation_work(
    prepared: RocmPreparedTensorGraph<'_>,
    mode: RocmMode,
    at: int,
    operation: OperationModel<'_>,
    flush: bool,
    work: RocmWork<'_>,
    storage: RocmStorage,
) -> bool {
    let node = prepared.nodes()[at];
    let placed = stored_at(prepared.outputs@, node.value, mode, storage);
    match operation {
        OperationModel::Node(own) => match own.op {
            OpDescriptor::Input => true,
            OpDescriptor::Constant(_) => {
                &&& placed
                &&& flush == !(storage is Scratch)
                &&& if storage is Scratch {
                    work is Lease
                } else {
                    work is Constant
                }
            },
            OpDescriptor::Uniform { value } => {
                &&& placed
                &&& prepared.is_compact(at) || extent_fits(1, node.shape@)
                &&& flush == !(storage is Scratch)
                &&& if storage is Scratch {
                    work is Lease
                } else {
                    work matches RocmWork::Filled(tensor) && tensor@ == if prepared.is_compact(at) {
                        TensorModel::scalar(value)
                    } else {
                        TensorModel::splat(node.shape@, value)
                    }
                }
            },
            OpDescriptor::MatMul { left, right, transpose_left, transpose_right } => {
                &&& placed
                &&& is_matrix(prepared, left)
                &&& is_matrix(prepared, right)
                &&& flush
                &&& work matches RocmWork::MatMul {
                    left_shape,
                    right_shape,
                    transpose_left: tl,
                    transpose_right: tr,
                } && left_shape@ == prepared.graph.shape_of(left) && right_shape@
                    == prepared.graph.shape_of(right) && tl == transpose_left && tr
                    == transpose_right
            },
            OpDescriptor::ReluBackward { .. } => {
                &&& placed
                &&& launchable(node.shape@)
                &&& !flush
                &&& work matches RocmWork::ReluBackward { count } && count == extent(
                    1,
                    node.shape@,
                )
            },
            OpDescriptor::SgdUpdate { learning_rate, .. } => {
                &&& placed
                &&& launchable(node.shape@)
                &&& !flush
                &&& work matches RocmWork::SgdUpdate { count, learning_rate: rate, contracted }
                    && count == extent(1, node.shape@) && rate == learning_rate && contracted
                    == prepared.is_contracted(node.value)
            },
            OpDescriptor::MeanSquaredError { prediction, .. } => {
                &&& placed
                &&& mse_accepted(*prepared.graph, node)
                &&& flush
                &&& work matches RocmWork::MeanSquaredError { squares, count }
                    && squares.wf() && prepared.request_for(operation) == Ok::<_, RequestFault>(
                    Some(squares@),
                ) && count == extent(1, prepared.graph.shape_of(prediction))
            },
            _ => {
                &&& placed
                &&& !flush
                &&& work matches RocmWork::Dispatch(request) && request.wf()
                    && prepared.request_for(operation) == Ok::<_, RequestFault>(Some(request@))
            },
        },
        _ => {
            &&& placed
            &&& !flush
            &&& work matches RocmWork::Dispatch(request) && request.wf() && prepared.request_for(
                operation,
            ) == Ok::<_, RequestFault>(Some(request@))
        },
    }
}

/// The operation is a graph input.
pub open spec fn is_input(operation: OperationModel<'_>) -> bool {
    operation matches OperationModel::Node(own) && own.op is Input
}

/// What the node at `at` takes.
pub open spec fn node_takes(
    prepared: RocmPreparedTensorGraph<'_>,
    host: Seq<(ValueId, Tensor)>,
    inputs: Seq<(ValueId, &RocmTensorInput)>,
    mode: RocmMode,
    at: int,
    operation: OperationModel<'_>,
    taken: RocmNodeWork<'_>,
) -> bool {
    let node = prepared.nodes()[at];
    &&& locates(prepared.nodes(), bound_values(operation), taken.operands@)
    &&& locates(prepared.nodes(), used_values(operation), taken.releases@)
    &&& taken.label@ == scheduled_label(node.op, operation)
    &&& operation_work(prepared, mode, at, operation, taken.flush, taken.work, taken.storage)
    &&& is_input(operation) ==> input_work(
        prepared,
        host,
        inputs,
        mode,
        node,
        taken.flush,
        taken.work,
        taken.storage,
    )
}

/// The value is one of the graph's, and has two axes.
pub open spec fn is_matrix(prepared: RocmPreparedTensorGraph<'_>, value: ValueId) -> bool {
    prepared.graph.knows(value) && prepared.graph.shape_of(value).len() == 2
}

/// Why a matrix product cannot be planned.
pub open spec fn product_fails(
    prepared: RocmPreparedTensorGraph<'_>,
    value: ValueId,
    error: RocmTensorExecutionError,
) -> bool {
    if !prepared.graph.knows(value) {
        error == RocmTensorExecutionError::Graph(TensorError::UnknownValue(value))
    } else {
        prepared.graph.shape_of(value).len() != 2 && error
            == RocmTensorExecutionError::InvalidPlan(value)
    }
}

/// Why the kernel of an operation cannot be requested.
pub open spec fn request_fails(
    prepared: RocmPreparedTensorGraph<'_>,
    operation: OperationModel<'_>,
    error: RocmTensorExecutionError,
) -> bool {
    prepared.request_for(operation) matches Err(fault) && error == fault.error()
}

/// Why the node at `at` cannot be planned. No two errors are reported for the same node.
pub open spec fn node_fails(
    prepared: RocmPreparedTensorGraph<'_>,
    host: Seq<(ValueId, Tensor)>,
    inputs: Seq<(ValueId, &RocmTensorInput)>,
    at: int,
    operation: OperationModel<'_>,
    error: RocmTensorExecutionError,
) -> bool {
    let node = prepared.nodes()[at];
    match operation {
        OperationModel::Node(own) => match own.op {
            OpDescriptor::Input => !supplied(host, node.value) && !resident(inputs, node.value)
                && error == RocmTensorExecutionError::Graph(TensorError::MissingInput(node.value)),
            OpDescriptor::Constant(_) => false,
            OpDescriptor::Uniform { .. } => !prepared.is_compact(at) && !extent_fits(
                1,
                node.shape@,
            ) && error == RocmTensorExecutionError::Graph(TensorError::ShapeOverflow),
            OpDescriptor::MatMul { left, right, .. } => product_fails(prepared, left, error) || (
            is_matrix(prepared, left) && product_fails(prepared, right, error)),
            OpDescriptor::ReluBackward { .. } => !launchable(node.shape@) && error
                == RocmTensorExecutionError::SizeOverflow,
            OpDescriptor::SgdUpdate { .. } => !launchable(node.shape@) && error
                == RocmTensorExecutionError::SizeOverflow,
            OpDescriptor::MeanSquaredError { .. } => mse_refused(*prepared.graph, node, error),
            _ => request_fails(prepared, operation, error),
        },
        _ => request_fails(prepared, operation, error),
    }
}

/// The two extents of a matrix.
fn matrix_shape(prepared: &RocmPreparedTensorGraph<'_>, value: ValueId) -> (answer: Result<
    [usize; 2],
    RocmTensorExecutionError,
>)
    ensures
        match answer {
            Ok(shape) => is_matrix(*prepared, value) && shape@ == prepared.graph.shape_of(value),
            Err(error) => product_fails(*prepared, value, error),
        },
{
    match prepared.graph.shape(value) {
        Err(error) => Err(RocmTensorExecutionError::Graph(error)),
        Ok(shape) => if shape.len() == 2 {
            let pair: [usize; 2] = [shape[0], shape[1]];
            assert(pair@ =~= shape@);
            Ok(pair)
        } else {
            Err(RocmTensorExecutionError::InvalidPlan(value))
        },
    }
}

/// Plans an input.
fn plan_input<'p>(
    prepared: &RocmPreparedTensorGraph<'_>,
    host_inputs: &[(ValueId, Tensor)],
    resource_inputs: &[(ValueId, &RocmTensorInput)],
    mode: RocmMode,
    at: usize,
) -> (answer: Result<(bool, RocmWork<'p>, RocmStorage), RocmTensorExecutionError>)
    requires
        prepared.wf(),
        at < prepared.nodes().len(),
    ensures
        match answer {
            Ok((flush, work, storage)) => input_work(
                *prepared,
                host_inputs@,
                resource_inputs@,
                mode,
                prepared.nodes()[at as int],
                flush,
                work,
                storage,
            ),
            Err(error) => {
                let value = prepared.nodes()[at as int].value;
                &&& !supplied(host_inputs@, value)
                &&& !resident(resource_inputs@, value)
                &&& error == RocmTensorExecutionError::Graph(TensorError::MissingInput(value))
            },
        },
{
    let node: NodeDescriptor<'_> = prepared.lowering_plan.nodes()[at];
    let value: ValueId = node.value;
    assert(node == prepared.nodes()[at as int]);
    let in_bank: bool = mode.bank && crate::tensor::error::contains_value(
        prepared.outputs.as_slice(),
        value,
    );
    if let Some(source) = find_resident_source(resource_inputs, value) {
        if in_bank {
            assert(allocatable(prepared.nodes()[at as int].shape@));
            let bytes: usize = match byte_len(node.shape) {
                Ok(bytes) => bytes,
                Err(error) => {
                    assert(false);
                    return Err(error);
                },
            };
            return Ok(
                (
                    true,
                    RocmWork::CopyInput { source, bytes },
                    execution_storage(prepared.outputs.as_slice(), value, mode),
                ),
            );
        }
        return Ok((false, RocmWork::ShareInput { source }, RocmStorage::Fresh));
    }
    match find_host_source(host_inputs, value) {
        Some(source) => if in_bank {
            Ok(
                (
                    true,
                    RocmWork::TransferInput { source },
                    execution_storage(prepared.outputs.as_slice(), value, mode),
                ),
            )
        } else {
            Ok((true, RocmWork::UploadInput { source }, RocmStorage::Fresh))
        },
        None => Err(RocmTensorExecutionError::Graph(TensorError::MissingInput(value))),
    }
}

/// Plans a kernel.
fn plan_dispatch<'p, 'graph>(
    prepared: &RocmPreparedTensorGraph<'graph>,
    operation: &'p TensorSelectedOperation<'graph>,
) -> (answer: Result<TensorDispatchRequest<'p>, RocmTensorExecutionError>)
    requires
        prepared.wf(),
        operation@ matches OperationModel::FusedAddSub { group } ==> bounded_wf(group),
        operation@ matches OperationModel::FusedMul { group } ==> mul_wf(group),
        prepared.request_for(operation@) != Ok::<_, RequestFault>(None::<RequestModel>),
    ensures
        match answer {
            Ok(request) => request.wf() && prepared.request_for(operation@) == Ok::<
                _,
                RequestFault,
            >(Some(request@)),
            Err(error) => prepared.request_for(operation@) matches Err(fault) && error
                == fault.error(),
        },
{
    match prepared.dispatch_request(operation) {
        Ok(Some(request)) => Ok(request),
        Ok(None) => {
            assert(false);
            Err(RocmTensorExecutionError::SizeOverflow)
        },
        Err(error) => Err(error),
    }
}

/// Plans the squared differences of a mean squared error.
fn plan_mean_squared_error<'p, 'graph>(
    prepared: &RocmPreparedTensorGraph<'graph>,
    operation: &'p TensorSelectedOperation<'graph>,
    node: &NodeDescriptor<'graph>,
    prediction: ValueId,
) -> (answer: Result<(TensorDispatchRequest<'p>, usize), RocmTensorExecutionError>)
    requires
        prepared.wf(),
        operation@ == OperationModel::Node(node@),
        node.op matches OpDescriptor::MeanSquaredError { prediction: p, .. } && p == prediction,
    ensures
        match answer {
            Ok((squares, count)) => squares.wf() && prepared.request_for(operation@) == Ok::<
                _,
                RequestFault,
            >(Some(squares@)) && count == extent(1, prepared.graph.shape_of(prediction))
                && mse_accepted(*prepared.graph, *node),
            Err(error) => mse_refused(*prepared.graph, *node, error),
        },
{
    let shape: &[usize] = match prepared.graph.shape(prediction) {
        Ok(shape) => shape,
        Err(error) => {
            return Err(RocmTensorExecutionError::Graph(error));
        },
    };
    let count: usize = match checked_extent(1, shape) {
        Some(count) => count,
        None => {
            return Err(RocmTensorExecutionError::SizeOverflow);
        },
    };
    if count == 0 || count > i32::MAX as usize {
        return Err(
            RocmTensorExecutionError::Unsupported {
                value: node.value,
                reason: TensorUnsupportedReason::Shape,
            },
        );
    }
    assert(launchable(shape@));
    match plan_dispatch(prepared, operation) {
        Ok(squares) => Ok((squares, count)),
        Err(error) => {
            assert(false);
            Err(error)
        },
    }
}

/// Plans a scheduled operation, besides its operands.
fn plan_operation<'p, 'graph>(
    prepared: &RocmPreparedTensorGraph<'graph>,
    operation: &'p TensorSelectedOperation<'graph>,
    mode: RocmMode,
    at: usize,
) -> (answer: Result<(bool, RocmWork<'p>, RocmStorage), RocmTensorExecutionError>)
    requires
        prepared.wf(),
        at < prepared.nodes().len(),
        prepared.operation_at(at as int) == Some(operation@),
        !is_input(operation@),
    ensures
        match answer {
            Ok((flush, work, storage)) => operation_work(
                *prepared,
                mode,
                at as int,
                operation@,
                flush,
                work,
                storage,
            ),
            Err(error) => forall|
                host: Seq<(ValueId, Tensor)>,
                inputs: Seq<(ValueId, &RocmTensorInput)>,
            |
                #[trigger] node_fails(
                    *prepared,
                    host,
                    inputs,
                    at as int,
                    operation@,
                    error,
                ),
        },
{
    proof {
        prepared.lemma_own_operation(at as int);
    }
    let nodes: &[NodeDescriptor<'graph>] = prepared.lowering_plan.nodes();
    let node: NodeDescriptor<'graph> = nodes[at];
    assert(node == prepared.nodes()[at as int]);
    let storage: RocmStorage = execution_storage(
        prepared.outputs.as_slice(),
        node.value,
        mode,
    );
    let leased: bool = storage == RocmStorage::Scratch;
    match operation {
        TensorSelectedOperation::Node(own) => {
            assert(own@ == node@);
            match own.op {
                OpDescriptor::Input => Err(RocmTensorExecutionError::SizeOverflow),
                OpDescriptor::Constant(_) => if leased {
                    Ok((false, RocmWork::Lease, storage))
                } else {
                    Ok((true, RocmWork::Constant, storage))
                },
                OpDescriptor::Uniform { value } => {
                    let layout: RocmPhysicalLayout = prepared.layouts[at];
                    match layout.uniform_tensor(node.shape, value) {
                        Ok(tensor) => if leased {
                            Ok((false, RocmWork::Lease, storage))
                        } else {
                            Ok((true, RocmWork::Filled(tensor), storage))
                        },
                        Err(error) => Err(error),
                    }
                },
                OpDescriptor::MatMul { left, right, transpose_left, transpose_right } => {
                    let left_shape: [usize; 2] = match matrix_shape(prepared, left) {
                        Ok(shape) => shape,
                        Err(error) => {
                            return Err(error);
                        },
                    };
                    let right_shape: [usize; 2] = match matrix_shape(prepared, right) {
                        Ok(shape) => shape,
                        Err(error) => {
                            return Err(error);
                        },
                    };
                    Ok(
                        (
                            true,
                            RocmWork::MatMul {
                                left_shape,
                                right_shape,
                                transpose_left,
                                transpose_right,
                            },
                            storage,
                        ),
                    )
                },
                OpDescriptor::ReluBackward { .. } => match flattened_invocation_count(node.shape) {
                    Ok(count) => Ok((false, RocmWork::ReluBackward { count }, storage)),
                    Err(error) => Err(error),
                },
                OpDescriptor::SgdUpdate { learning_rate, .. } => match flattened_invocation_count(
                    node.shape,
                ) {
                    Ok(count) => Ok(
                        (
                            false,
                            RocmWork::SgdUpdate {
                                count,
                                learning_rate,
                                contracted: prepared.find_contracted(node.value),
                            },
                            storage,
                        ),
                    ),
                    Err(error) => Err(error),
                },
                OpDescriptor::MeanSquaredError { prediction, .. } => match plan_mean_squared_error(
                    prepared,
                    operation,
                    &node,
                    prediction,
                ) {
                    Ok((squares, count)) => Ok(
                        (true, RocmWork::MeanSquaredError { squares, count }, storage),
                    ),
                    Err(error) => Err(error),
                },
                _ => match plan_dispatch(prepared, operation) {
                    Ok(request) => Ok((false, RocmWork::Dispatch(request), storage)),
                    Err(error) => Err(error),
                },
            }
        },
        _ => match plan_dispatch(prepared, operation) {
            Ok(request) => Ok((false, RocmWork::Dispatch(request), storage)),
            Err(error) => Err(error),
        },
    }
}

impl<'graph> RocmPreparedTensorGraph<'graph> {
    /// What the node at `at` takes, or nothing if a group computes it on the way to another
    /// result.
    ///
    /// # Errors
    ///
    /// A missing input, or a shape that cannot be run.
    pub fn plan_node(
        &self,
        host_inputs: &[(ValueId, Tensor)],
        resource_inputs: &[(ValueId, &RocmTensorInput)],
        mode: RocmMode,
        at: usize,
    ) -> (answer: Result<Option<RocmNodeWork<'_>>, RocmTensorExecutionError>)
        requires
            self.wf(),
            at < self.nodes().len(),
        ensures
            match answer {
                Ok(None) => self.operation_at(at as int) is None,
                Ok(Some(taken)) => self.operation_at(at as int) matches Some(operation)
                    && node_takes(
                    *self,
                    host_inputs@,
                    resource_inputs@,
                    mode,
                    at as int,
                    operation,
                    taken,
                ),
                Err(error) => self.operation_at(at as int) matches Some(operation) && node_fails(
                    *self,
                    host_inputs@,
                    resource_inputs@,
                    at as int,
                    operation,
                    error,
                ),
            },
    {
        let operation: &TensorSelectedOperation<'graph> = match self.find_operation(at) {
            Some(operation) => operation,
            None => {
                return Ok(None);
            },
        };
        proof {
            self.lemma_own_operation(at as int);
            lemma_operands_are_located(*self, at as int);
        }
        let nodes: &[NodeDescriptor<'graph>] = self.lowering_plan.nodes();
        let bound: Vec<ValueId> = list_bound_values(operation);
        let operands: Vec<usize> = match locate(nodes, bound.as_slice()) {
            Ok(positions) => positions,
            Err(error) => {
                assert(false);
                return Err(error);
            },
        };
        let used: Vec<ValueId> = list_used_values(operation);
        let releases: Vec<usize> = match locate(nodes, used.as_slice()) {
            Ok(positions) => positions,
            Err(error) => {
                assert(false);
                return Err(error);
            },
        };
        let input: bool = match operation {
            TensorSelectedOperation::Node(own) => match own.op {
                OpDescriptor::Input => true,
                _ => false,
            },
            _ => false,
        };
        let (flush, work, storage): (bool, RocmWork<'_>, RocmStorage) = if input {
            match plan_input(self, host_inputs, resource_inputs, mode, at) {
                Ok(parts) => parts,
                Err(error) => {
                    return Err(error);
                },
            }
        } else {
            match plan_operation(self, operation, mode, at) {
                Ok(parts) => parts,
                Err(error) => {
                    assert(node_fails(
                        *self,
                        host_inputs@,
                        resource_inputs@,
                        at as int,
                        operation@,
                        error,
                    ));
                    return Err(error);
                },
            }
        };
        let label: &'static str = timing_label(nodes[at].op, operation);
        Ok(Some(RocmNodeWork { flush, work, storage, operands, releases, label }))
    }
}

/// A node that cannot be planned is reported for one reason only, and is not planned.
pub proof fn law_nodes_fail_for_one_reason(
    prepared: RocmPreparedTensorGraph<'_>,
    host: Seq<(ValueId, Tensor)>,
    inputs: Seq<(ValueId, &RocmTensorInput)>,
    mode: RocmMode,
    at: int,
    first: RocmTensorExecutionError,
    second: RocmTensorExecutionError,
    taken: RocmNodeWork<'_>,
)
    requires
        prepared.wf(),
        0 <= at < prepared.nodes().len(),
        prepared.operation_at(at) matches Some(operation) && node_fails(
            prepared,
            host,
            inputs,
            at,
            operation,
            first,
        ),
    ensures
        node_fails(prepared, host, inputs, at, prepared.operation_at(at)->Some_0, second) ==> first
            == second,
        !node_takes(prepared, host, inputs, mode, at, prepared.operation_at(at)->Some_0, taken),
{
    prepared.lemma_own_operation(at);
}

} // verus!
