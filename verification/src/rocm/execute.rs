//! The execution of a prepared graph, node by node.
//!
//! The library says what the next node takes: where its result goes, which resources it reads,
//! whether pending work has to complete first. The caller does it and reports the handle of the
//! result. Resources whose uses have ended are released in between.
use vstd::prelude::*;

use super::error::RocmTensorExecutionError;
use super::layout::{find_node, node_position};
use super::requests::TensorDispatchRequest;
use super::sizes::output_position;
use super::small::{ExecutionResources, ExecutionUseCounts};
use crate::tensor::descriptor::{consumes, descriptor_operands, NodeDescriptor, OpDescriptor};
use crate::tensor::error::ValueId;
use crate::tensor::groups::{
    bounded_wf, mul_wf, TensorPointwiseEpilogue, TensorPointwiseMulStep, TensorPointwiseOperand,
    TensorPointwiseStep,
};
use crate::tensor::lowering::{mul_pairs, step_pairs, OperationModel, TensorSelectedOperation};
use crate::tensor::value::Tensor;

verus! {

/// Completes pending batched work before something that is not ordered after it. Nothing has to
/// be waited for when nothing is pending; otherwise `completion` is how waiting ended.
///
/// # Errors
///
/// `Completion` with the code of the device.
pub fn flush_hip_batch(pending: usize, completion: Result<(), i32>) -> (verdict: Result<
    (),
    RocmTensorExecutionError,
>)
    ensures
        match verdict {
            Ok(()) => pending == 0 || completion is Ok,
            Err(error) => pending > 0 && (completion matches Err(code) && error
                == RocmTensorExecutionError::Completion(code)),
        },
{
    if pending == 0 {
        return Ok(());
    }
    match completion {
        Ok(()) => Ok(()),
        Err(code) => Err(RocmTensorExecutionError::Completion(code)),
    }
}

/// How a submitted dispatch ended.
#[derive(Debug, Clone, Copy, PartialEq, Eq, Structural)]
pub enum RocmDispatchOutcome {
    Succeeded,
    Failed,
    /// With the code of the fault.
    Fault(i32),
}

/// What an execution makes of how a dispatch ended.
///
/// # Errors
///
/// `FailedCompletion`, or `ExecutionFault` with the code of the fault.
pub fn conclude_dispatch(outcome: RocmDispatchOutcome) -> (verdict: Result<
    (),
    RocmTensorExecutionError,
>)
    ensures
        match outcome {
            RocmDispatchOutcome::Succeeded => verdict is Ok,
            RocmDispatchOutcome::Failed => verdict == Err::<(), _>(
                RocmTensorExecutionError::FailedCompletion,
            ),
            RocmDispatchOutcome::Fault(code) => verdict == Err::<(), _>(
                RocmTensorExecutionError::ExecutionFault(code),
            ),
        },
{
    match outcome {
        RocmDispatchOutcome::Succeeded => Ok(()),
        RocmDispatchOutcome::Failed => Err(RocmTensorExecutionError::FailedCompletion),
        RocmDispatchOutcome::Fault(code) => Err(RocmTensorExecutionError::ExecutionFault(code)),
    }
}

/// What an execution was given to write to.
#[derive(Debug, Clone, Copy, PartialEq, Eq, Structural)]
pub struct RocmMode {
    /// Requested outputs go to a bank.
    pub bank: bool,
    /// Other values are kept in scratch.
    pub scratch: bool,
}

/// Where the result of a node goes.
#[derive(Debug, Clone, Copy, PartialEq, Eq, Structural)]
pub enum RocmStorage {
    /// To this output of the bank.
    Bank(usize),
    /// To the node's scratch allocation.
    Scratch,
    /// To a new allocation.
    Fresh,
}

/// This is where the result of a node goes.
pub open spec fn stored_at(
    outputs: Seq<ValueId>,
    value: ValueId,
    mode: RocmMode,
    storage: RocmStorage,
) -> bool {
    match storage {
        RocmStorage::Bank(at) => mode.bank && at < outputs.len() && outputs[at as int] == value,
        RocmStorage::Scratch => mode.scratch && !outputs.contains(value),
        RocmStorage::Fresh => !(mode.bank && outputs.contains(value)) && !(mode.scratch
            && !outputs.contains(value)),
    }
}

/// Where the result of a node goes.
pub fn execution_storage(outputs: &[ValueId], value: ValueId, mode: RocmMode) -> (storage:
    RocmStorage)
    ensures
        stored_at(outputs@, value, mode, storage),
{
    match output_position(outputs, value) {
        Some(at) => {
            assert(outputs@[at as int] == value);
            if mode.bank {
                RocmStorage::Bank(at)
            } else {
                RocmStorage::Fresh
            }
        },
        None => if mode.scratch {
            RocmStorage::Scratch
        } else {
            RocmStorage::Fresh
        },
    }
}

/// What a node takes.
#[derive(Debug)]
#[allow(inconsistent_fields)]
pub enum RocmWork<'p> {
    /// Copies a device tensor that was handed in to the bank.
    CopyInput { source: usize, bytes: usize },
    /// Transfers a host tensor to the bank.
    TransferInput { source: usize },
    /// Shares a device tensor that was handed in.
    ShareInput { source: usize },
    /// Uploads a host tensor.
    UploadInput { source: usize },
    /// Takes what scratch holds already.
    Lease,
    /// Uploads, or transfers to the bank, the tensor of the constant node.
    Constant,
    /// Uploads, or transfers to the bank, this tensor.
    Filled(Tensor),
    /// Multiplies two matrices through the library.
    MatMul {
        left_shape: [usize; 2],
        right_shape: [usize; 2],
        transpose_left: bool,
        transpose_right: bool,
    },
    /// Runs one of the cached kernels.
    Dispatch(TensorDispatchRequest<'p>),
    /// Runs the kernel of a `ReLU` gradient.
    ReluBackward { count: u32 },
    /// Runs the kernel of an update of weights, contracted or not.
    SgdUpdate { count: u32, learning_rate: u32, contracted: bool },
    /// Runs the kernel of squared differences into temporary storage, completes it, and has the
    /// library add the results up and scale the sum.
    MeanSquaredError { squares: TensorDispatchRequest<'p>, count: usize },
}

/// What a node takes, what it reads, and what may be released after it.
#[derive(Debug)]
pub struct RocmNodeWork<'p> {
    /// Pending batched work completes first.
    pub flush: bool,
    pub work: RocmWork<'p>,
    pub storage: RocmStorage,
    /// The nodes whose values are bound, in binding order.
    pub operands: Vec<usize>,
    /// The nodes whose values have been used, once for each use.
    pub releases: Vec<usize>,
    /// What a timing report calls the node.
    pub label: &'static str,
}

/// The name of an operation in a timing report.
pub open spec fn operation_label(op: OpDescriptor<'_>) -> Seq<char> {
    match op {
        OpDescriptor::Input => "Input"@,
        OpDescriptor::Constant(_) => "Constant"@,
        OpDescriptor::Uniform { .. } => "Uniform"@,
        OpDescriptor::MatMul { .. } => "MatMul"@,
        OpDescriptor::Add { .. } => "Add"@,
        OpDescriptor::Sub { .. } => "Sub"@,
        OpDescriptor::Mul { .. } => "Mul"@,
        OpDescriptor::Relu { .. } => "Relu"@,
        OpDescriptor::ReluBackward { .. } => "ReluBackward"@,
        OpDescriptor::SgdUpdate { .. } => "SgdUpdate"@,
        OpDescriptor::MeanSquaredError { .. } => "MeanSquaredError"@,
    }
}

/// The name of an operation in a timing report.
pub fn timing_operation(op: OpDescriptor<'_>) -> (label: &'static str)
    ensures
        label@ == operation_label(op),
{
    match op {
        OpDescriptor::Input => "Input",
        OpDescriptor::Constant(_) => "Constant",
        OpDescriptor::Uniform { .. } => "Uniform",
        OpDescriptor::MatMul { .. } => "MatMul",
        OpDescriptor::Add { .. } => "Add",
        OpDescriptor::Sub { .. } => "Sub",
        OpDescriptor::Mul { .. } => "Mul",
        OpDescriptor::Relu { .. } => "Relu",
        OpDescriptor::ReluBackward { .. } => "ReluBackward",
        OpDescriptor::SgdUpdate { .. } => "SgdUpdate",
        OpDescriptor::MeanSquaredError { .. } => "MeanSquaredError",
    }
}

/// The name of a scheduled operation in a timing report.
pub open spec fn scheduled_label(op: OpDescriptor<'_>, operation: OperationModel<'_>) -> Seq<char> {
    match operation {
        OperationModel::FusedAddSub { group } => match group.epilogue {
            TensorPointwiseEpilogue::Identity => "FusedAddSub"@,
            TensorPointwiseEpilogue::Relu => "FusedAddSubRelu"@,
        },
        OperationModel::FusedAddRelu { .. } => "FusedAddRelu"@,
        _ => operation_label(op),
    }
}

/// The name of a scheduled operation in a timing report.
pub fn timing_label(op: OpDescriptor<'_>, operation: &TensorSelectedOperation<'_>) -> (label:
    &'static str)
    ensures
        label@ == scheduled_label(op, operation@),
{
    match operation {
        TensorSelectedOperation::FusedAddSub { group } => match group.epilogue {
            TensorPointwiseEpilogue::Identity => "FusedAddSub",
            TensorPointwiseEpilogue::Relu => "FusedAddSubRelu",
        },
        TensorSelectedOperation::FusedAddRelu { .. } => "FusedAddRelu",
        _ => timing_operation(op),
    }
}

/// One node of a timing report.
#[derive(Debug, Clone, PartialEq, Eq)]
pub struct RocmTensorNodeTiming {
    /// Graph value produced by the node.
    pub value: ValueId,
    /// Operation, such as `MatMul`, `ReluBackward` or `Input`.
    pub operation: &'static str,
    /// Elapsed wall time in nanoseconds, with the completion of the device.
    pub elapsed_nanos: u64,
}

/// A timing report in the making.
#[derive(Debug)]
pub struct CollectNodeTimings {
    pub timings: Vec<RocmTensorNodeTiming>,
}

impl CollectNodeTimings {
    /// An empty report.
    pub fn new() -> (report: CollectNodeTimings)
        ensures
            report.timings@.len() == 0,
    {
        CollectNodeTimings { timings: Vec::new() }
    }

    /// Adds a node that was run by itself.
    pub fn finish(&mut self, elapsed_nanos: u64, node: &NodeDescriptor<'_>)
        ensures
            final(self).timings@.len() == old(self).timings@.len() + 1,
            final(self).timings@.take(old(self).timings@.len() as int) == old(self).timings@,
            final(self).timings@.last().value == node.value,
            final(self).timings@.last().operation@ == operation_label(node.op),
            final(self).timings@.last().elapsed_nanos == elapsed_nanos,
    {
        self.finish_labelled(elapsed_nanos, node.value, timing_operation(node.op));
    }

    /// Adds a node under the name that its work has.
    pub fn finish_labelled(&mut self, elapsed_nanos: u64, value: ValueId, operation: &'static str)
        ensures
            final(self).timings@ == old(self).timings@.push(
                RocmTensorNodeTiming { value, operation, elapsed_nanos },
            ),
            final(self).timings@.take(old(self).timings@.len() as int) == old(self).timings@,
    {
        self.timings.push(RocmTensorNodeTiming { value, operation, elapsed_nanos });
        assert(self.timings@.take(old(self).timings@.len() as int) =~= old(self).timings@);
    }
}

/// How often the leaf at `leaf` is an operand of the pairs.
pub open spec fn leaf_uses(
    pairs: Seq<(TensorPointwiseOperand, TensorPointwiseOperand)>,
    leaf: usize,
) -> nat
    decreases pairs.len(),
{
    if pairs.len() == 0 {
        0
    } else {
        leaf_uses(pairs.drop_last(), leaf) + if pairs.last().0 == TensorPointwiseOperand::Leaf(
            leaf,
        ) {
            1nat
        } else {
            0nat
        } + if pairs.last().1 == TensorPointwiseOperand::Leaf(leaf) {
            1nat
        } else {
            0nat
        }
    }
}

/// A value as often as it is used.
pub open spec fn repeated(value: ValueId, count: nat) -> Seq<ValueId> {
    Seq::new(count, |i: int| value)
}

/// The leaves before `count`, each as often as the pairs use it.
pub open spec fn leaf_releases(
    leaves: Seq<ValueId>,
    pairs: Seq<(TensorPointwiseOperand, TensorPointwiseOperand)>,
    count: int,
) -> Seq<ValueId>
    decreases count,
{
    if count <= 0 {
        Seq::empty()
    } else {
        leaf_releases(leaves, pairs, count - 1) + repeated(
            leaves[count - 1],
            leaf_uses(pairs, (count - 1) as usize),
        )
    }
}

/// The values that an operation binds, in binding order.
pub open spec fn bound_values(operation: OperationModel<'_>) -> Seq<ValueId> {
    match operation {
        OperationModel::Node(node) => consumes(node.op),
        OperationModel::FusedAddRelu { group } => seq![group.left, group.right],
        OperationModel::FusedAddSub { group } => group.leaves,
        OperationModel::FusedMul { group } => group.leaves,
    }
}

/// The values whose uses an operation ends, once for each use. A leaf that a group uses several
/// times is used up as often as it would be outside the group.
pub open spec fn used_values(operation: OperationModel<'_>) -> Seq<ValueId> {
    match operation {
        OperationModel::Node(node) => consumes(node.op),
        OperationModel::FusedAddRelu { group } => seq![group.left, group.right],
        OperationModel::FusedAddSub { group } => leaf_releases(
            group.leaves,
            step_pairs(group.steps),
            group.leaves.len() as int,
        ),
        OperationModel::FusedMul { group } => leaf_releases(
            group.leaves,
            mul_pairs(group.steps),
            group.leaves.len() as int,
        ),
    }
}

fn count_leaf_uses(
    pairs: &[(TensorPointwiseOperand, TensorPointwiseOperand)],
    leaf: usize,
) -> (uses: usize)
    requires
        pairs@.len() <= 8,
    ensures
        uses == leaf_uses(pairs@, leaf),
        uses <= 2 * pairs@.len(),
{
    let mut uses: usize = 0;
    let mut at: usize = 0;
    assert(pairs@.take(0).len() == 0);
    while at < pairs.len()
        invariant
            at <= pairs@.len() <= 8,
            uses <= 2 * at,
            uses == leaf_uses(pairs@.take(at as int), leaf),
        decreases pairs@.len() - at,
    {
        proof {
            assert(pairs@.take(at + 1).drop_last() =~= pairs@.take(at as int));
            assert(pairs@.take(at + 1).last() == pairs@[at as int]);
        }
        if pairs[at].0 == TensorPointwiseOperand::Leaf(leaf) {
            uses += 1;
        }
        if pairs[at].1 == TensorPointwiseOperand::Leaf(leaf) {
            uses += 1;
        }
        at += 1;
    }
    assert(pairs@.take(at as int) =~= pairs@);
    uses
}

/// Lists the leaves of a group as often as they are used.
fn list_leaf_releases(
    leaves: &[ValueId],
    pairs: &[(TensorPointwiseOperand, TensorPointwiseOperand)],
) -> (values: Vec<ValueId>)
    requires
        pairs@.len() <= 8,
    ensures
        values@ == leaf_releases(leaves@, pairs@, leaves@.len() as int),
{
    let mut values: Vec<ValueId> = Vec::new();
    let mut at: usize = 0;
    while at < leaves.len()
        invariant
            at <= leaves@.len(),
            pairs@.len() <= 8,
            values@ == leaf_releases(leaves@, pairs@, at as int),
        decreases leaves@.len() - at,
    {
        let uses: usize = count_leaf_uses(pairs, at);
        let mut used: usize = 0;
        let ghost before = values@;
        assert(values@ =~= before + repeated(leaves@[at as int], 0));
        while used < uses
            invariant
                used <= uses,
                at < leaves@.len(),
                values@ == before + repeated(leaves@[at as int], used as nat),
            decreases uses - used,
        {
            values.push(leaves[at]);
            used += 1;
            assert(values@ =~= before + repeated(leaves@[at as int], used as nat));
        }
        at += 1;
    }
    values
}

/// The operands of Add/Sub instructions.
fn list_step_pairs(steps: &[TensorPointwiseStep]) -> (pairs: Vec<
    (TensorPointwiseOperand, TensorPointwiseOperand),
>)
    ensures
        pairs@ == step_pairs(steps@),
{
    let mut pairs: Vec<(TensorPointwiseOperand, TensorPointwiseOperand)> = Vec::with_capacity(
        steps.len(),
    );
    while pairs.len() < steps.len()
        invariant
            pairs@.len() <= steps@.len(),
            forall|i: int| 0 <= i < pairs@.len() ==> #[trigger] pairs@[i] == step_pairs(steps@)[i],
        decreases steps@.len() - pairs@.len(),
    {
        let step: TensorPointwiseStep = steps[pairs.len()];
        pairs.push((step.left, step.right));
    }
    assert(pairs@ =~= step_pairs(steps@));
    pairs
}

/// The operands of Mul instructions.
fn list_mul_pairs(steps: &[TensorPointwiseMulStep]) -> (pairs: Vec<
    (TensorPointwiseOperand, TensorPointwiseOperand),
>)
    ensures
        pairs@ == mul_pairs(steps@),
{
    let mut pairs: Vec<(TensorPointwiseOperand, TensorPointwiseOperand)> = Vec::with_capacity(
        steps.len(),
    );
    while pairs.len() < steps.len()
        invariant
            pairs@.len() <= steps@.len(),
            forall|i: int| 0 <= i < pairs@.len() ==> #[trigger] pairs@[i] == mul_pairs(steps@)[i],
        decreases steps@.len() - pairs@.len(),
    {
        let step: TensorPointwiseMulStep = steps[pairs.len()];
        pairs.push((step.left, step.right));
    }
    assert(pairs@ =~= mul_pairs(steps@));
    pairs
}

/// The values that an operation binds, in binding order.
pub fn list_bound_values(operation: &TensorSelectedOperation<'_>) -> (values: Vec<ValueId>)
    ensures
        values@ == bound_values(operation@),
{
    match operation {
        TensorSelectedOperation::Node(node) => descriptor_operands(node.op),
        TensorSelectedOperation::FusedAddRelu { left, right, .. } => {
            let values: Vec<ValueId> = vec![*left, *right];
            assert(values@ =~= bound_values(operation@));
            values
        },
        TensorSelectedOperation::FusedAddSub { group } => vstd::slice::slice_to_vec(
            group.leaves.as_slice(),
        ),
        TensorSelectedOperation::FusedMul { group } => vstd::slice::slice_to_vec(
            group.leaves.as_slice(),
        ),
    }
}

/// The values whose uses an operation ends.
pub fn list_used_values(operation: &TensorSelectedOperation<'_>) -> (values: Vec<ValueId>)
    requires
        operation@ matches OperationModel::FusedAddSub { group } ==> bounded_wf(group),
        operation@ matches OperationModel::FusedMul { group } ==> mul_wf(group),
    ensures
        values@ == used_values(operation@),
{
    match operation {
        TensorSelectedOperation::Node(node) => descriptor_operands(node.op),
        TensorSelectedOperation::FusedAddRelu { left, right, .. } => {
            let values: Vec<ValueId> = vec![*left, *right];
            assert(values@ =~= used_values(operation@));
            values
        },
        TensorSelectedOperation::FusedAddSub { group } => {
            let pairs: Vec<(TensorPointwiseOperand, TensorPointwiseOperand)> = list_step_pairs(
                group.steps.as_slice(),
            );
            list_leaf_releases(group.leaves.as_slice(), pairs.as_slice())
        },
        TensorSelectedOperation::FusedMul { group } => {
            let pairs: Vec<(TensorPointwiseOperand, TensorPointwiseOperand)> = list_mul_pairs(
                group.steps.as_slice(),
            );
            list_leaf_releases(group.leaves.as_slice(), pairs.as_slice())
        },
    }
}

/// `positions` are the nodes that produce `values`.
pub open spec fn locates(
    nodes: Seq<NodeDescriptor<'_>>,
    values: Seq<ValueId>,
    positions: Seq<usize>,
) -> bool {
    &&& positions.len() == values.len()
    &&& forall|i: int|
        0 <= i < values.len() ==> node_position(nodes, #[trigger] values[i]) == Some(
            positions[i] as int,
        )
}

/// The first of some values that no node produces.
pub open spec fn first_unlocated(
    nodes: Seq<NodeDescriptor<'_>>,
    values: Seq<ValueId>,
    value: ValueId,
) -> bool {
    exists|i: int|
        {
            &&& 0 <= i < values.len()
            &&& #[trigger] values[i] == value
            &&& node_position(nodes, value) is None
            &&& forall|j: int|
                0 <= j < i ==> node_position(nodes, #[trigger] values[j]) is Some
        }
}

/// The nodes that produce some values.
///
/// # Errors
///
/// `InvalidPlan` for the first value that no node produces.
pub fn locate(nodes: &[NodeDescriptor<'_>], values: &[ValueId]) -> (answer: Result<
    Vec<usize>,
    RocmTensorExecutionError,
>)
    ensures
        match answer {
            Ok(positions) => locates(nodes@, values@, positions@),
            Err(error) => exists|value: ValueId| #[trigger]
                first_unlocated(nodes@, values@, value) && error
                    == RocmTensorExecutionError::InvalidPlan(value),
        },
{
    let mut positions: Vec<usize> = Vec::with_capacity(values.len());
    while positions.len() < values.len()
        invariant
            positions@.len() <= values@.len(),
            forall|i: int|
                0 <= i < positions@.len() ==> node_position(nodes@, #[trigger] values@[i]) == Some(
                    positions@[i] as int,
                ),
        decreases values@.len() - positions@.len(),
    {
        let value: ValueId = values[positions.len()];
        match find_node(nodes, value) {
            Some(at) => {
                positions.push(at);
            },
            None => {
                assert(values@[positions@.len() as int] == value);
                assert(first_unlocated(nodes@, values@, value));
                return Err(RocmTensorExecutionError::InvalidPlan(value));
            },
        }
    }
    Ok(positions)
}

/// Releases a resource after one of its uses: with the last one, the slot is emptied.
///
/// # Errors
///
/// `SizeOverflow` if there is no such slot or no use was left.
pub fn release_after_read(
    resources: &mut ExecutionResources,
    remaining_uses: &mut ExecutionUseCounts,
    index: usize,
) -> (verdict: Result<(), RocmTensorExecutionError>)
    requires
        old(resources)@.len() == old(remaining_uses)@.len(),
    ensures
        match verdict {
            Ok(()) => {
                &&& index < old(remaining_uses)@.len()
                &&& old(remaining_uses)@[index as int] > 0
                &&& (final(resources)@, final(remaining_uses)@) == released_once(
                    old(resources)@,
                    old(remaining_uses)@,
                    index as int,
                )
            },
            Err(error) => {
                &&& error == RocmTensorExecutionError::SizeOverflow
                &&& index >= old(remaining_uses)@.len() || old(remaining_uses)@[index as int] == 0
                &&& final(resources)@ == old(resources)@
                &&& final(remaining_uses)@ == old(remaining_uses)@
            },
        },
{
    let counts: &[usize] = remaining_uses.as_slice();
    if index >= counts.len() || counts[index] == 0 {
        return Err(RocmTensorExecutionError::SizeOverflow);
    }
    let remaining: usize = counts[index] - 1;
    remaining_uses.set(index, remaining);
    if remaining == 0 {
        resources.set(index, None);
    }
    Ok(())
}

/// Slots and remaining uses after one use of a resource.
pub open spec fn released_once(
    slots: Seq<Option<usize>>,
    counts: Seq<usize>,
    index: int,
) -> (Seq<Option<usize>>, Seq<usize>) {
    (
        if counts[index] == 1 {
            slots.update(index, None)
        } else {
            slots
        },
        counts.update(index, (counts[index] - 1) as usize),
    )
}

/// Slots and remaining uses after several uses, or nothing where a use was not left.
pub open spec fn released(
    slots: Seq<Option<usize>>,
    counts: Seq<usize>,
    indices: Seq<usize>,
) -> Option<(Seq<Option<usize>>, Seq<usize>)>
    decreases indices.len(),
{
    if indices.len() == 0 {
        Some((slots, counts))
    } else {
        match released(slots, counts, indices.drop_last()) {
            None => None,
            Some((slots, counts)) => {
                let index = indices.last() as int;
                if index < counts.len() && counts[index] > 0 {
                    Some(released_once(slots, counts, index))
                } else {
                    None
                }
            },
        }
    }
}

} // verus!
