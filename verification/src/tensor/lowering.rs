//! The selected lowering of a plan: an inspectable operation schedule after optional arithmetic
//! rewriting and optional pointwise grouping.
use vstd::prelude::*;
use vstd::slice::slice_to_vec;

use super::descriptor::{
    consumes, descriptor_operands, is_read_only_descriptor, node_models, node_steps, read_only,
    schedule_nodes, NodeDescriptor, NodeModel,
};
use super::error::{TensorError, ValueId};
use super::graph::{precedes, Graph};
use super::groups::{
    add_relu_group, add_relu_models, bounded_models, bounded_wf, consumer, groups_of,
    identity_group, law_add_sub_group_is_bounded, law_mul_group_is_bounded, leaves_read,
    lemma_searchable, lookup, mul_group, mul_models, mul_wf, relu_group, searchable,
    select_pointwise_groups, some_node_reads, AddReluModel, BoundedModel, GroupsModel, MulModel,
    TensorBoundedMulFusionGroup, TensorBoundedPointwiseFusionGroup, TensorPointwiseEpilogue,
    TensorPointwiseFusionGroup, TensorPointwiseGroupingPolicy, TensorPointwiseMulStep,
    TensorPointwiseOperand, TensorPointwiseStep,
};
use super::plan::TensorExecutionPlan;
use super::rewrite::{
    lemma_rewritten_sound, lemma_sound_steps, lemma_without_orphans_sound, omitted, orphaned,
    orphans, rewrite_nodes, rewritten, sound_nodes, without_orphans, TensorArithmeticCapability,
    TensorArithmeticRewritePolicy, TensorSgdRewriteCandidate,
};
use super::schedule::{
    constrain, constraints_answer, count_uses, index_steps, indexes, last_live, last_uses, narrow,
    of_one_graph, position_in, step_models, use_count, LiveValue, ScheduleStep, StepModel,
};
use super::storage::{node_output_bytes, output_bytes, TensorStorageConstraint};

verus! {

/// What a selected operation is.
#[allow(inconsistent_fields)]
pub enum OperationModel<'a> {
    Node(NodeModel<'a>),
    FusedAddRelu { group: AddReluModel },
    FusedAddSub { group: BoundedModel },
    FusedMul { group: MulModel },
}

/// An operation in an opt-in selected lowering schedule.
#[allow(inconsistent_fields)]
#[derive(Debug, PartialEq)]
pub enum TensorSelectedOperation<'a> {
    /// A selected source operation, including any separately authorized arithmetic rewrite.
    Node(NodeDescriptor<'a>),
    /// Add followed by `ReLU`. The Add result does not require a scheduled output allocation.
    FusedAddRelu {
        add_output: ValueId,
        relu_output: ValueId,
        left: ValueId,
        right: ValueId,
        shape: &'a [usize],
    },
    /// A bounded ordered Add/Sub expression with an identity or `ReLU` epilogue.
    FusedAddSub { group: TensorBoundedPointwiseFusionGroup },
    /// A bounded same-shape Mul expression retaining the source operation order.
    FusedMul { group: TensorBoundedMulFusionGroup },
}

impl<'a> View for TensorSelectedOperation<'a> {
    type V = OperationModel<'a>;

    open spec fn view(&self) -> OperationModel<'a> {
        match self {
            TensorSelectedOperation::Node(node) => OperationModel::Node(node@),
            TensorSelectedOperation::FusedAddRelu {
                add_output,
                relu_output,
                left,
                right,
                shape,
            } => OperationModel::FusedAddRelu {
                group: AddReluModel {
                    add_output: *add_output,
                    relu_output: *relu_output,
                    left: *left,
                    right: *right,
                    shape: shape@,
                },
            },
            TensorSelectedOperation::FusedAddSub { group } => OperationModel::FusedAddSub {
                group: group@,
            },
            TensorSelectedOperation::FusedMul { group } => OperationModel::FusedMul {
                group: group@,
            },
        }
    }
}

/// The leaf that an operand of a group reads, if it reads one.
pub open spec fn operand_reads(leaves: Seq<ValueId>, operand: TensorPointwiseOperand) -> Seq<
    ValueId,
> {
    match operand {
        TensorPointwiseOperand::Leaf(at) => if at < leaves.len() {
            seq![leaves[at as int]]
        } else {
            Seq::empty()
        },
        TensorPointwiseOperand::Step(_) => Seq::empty(),
    }
}

/// The leaves that pairs of operands read, in order and as often as they are read.
pub open spec fn chain_reads(
    leaves: Seq<ValueId>,
    pairs: Seq<(TensorPointwiseOperand, TensorPointwiseOperand)>,
) -> Seq<ValueId>
    decreases pairs.len(),
{
    if pairs.len() == 0 {
        Seq::empty()
    } else {
        chain_reads(leaves, pairs.drop_last()) + operand_reads(leaves, pairs.last().0)
            + operand_reads(leaves, pairs.last().1)
    }
}

/// The operands of Add/Sub instructions.
pub open spec fn step_pairs(steps: Seq<TensorPointwiseStep>) -> Seq<
    (TensorPointwiseOperand, TensorPointwiseOperand),
> {
    steps.map_values(|step: TensorPointwiseStep| (step.left, step.right))
}

/// The operands of Mul instructions.
pub open spec fn mul_pairs(steps: Seq<TensorPointwiseMulStep>) -> Seq<
    (TensorPointwiseOperand, TensorPointwiseOperand),
> {
    steps.map_values(|step: TensorPointwiseMulStep| (step.left, step.right))
}

impl<'a> OperationModel<'a> {
    /// The value that the operation produces.
    pub open spec fn output(self) -> ValueId {
        match self {
            OperationModel::Node(node) => node.value,
            OperationModel::FusedAddRelu { group } => group.relu_output,
            OperationModel::FusedAddSub { group } => group.output,
            OperationModel::FusedMul { group } => group.output,
        }
    }

    /// The shape of the value that the operation produces.
    pub open spec fn shape(self) -> Seq<usize> {
        match self {
            OperationModel::Node(node) => node.shape,
            OperationModel::FusedAddRelu { group } => group.shape,
            OperationModel::FusedAddSub { group } => group.shape,
            OperationModel::FusedMul { group } => group.shape,
        }
    }

    /// The values that the operation reads, in order.
    pub open spec fn reads(self) -> Seq<ValueId> {
        match self {
            OperationModel::Node(node) => consumes(node.op),
            OperationModel::FusedAddRelu { group } => seq![group.left, group.right],
            OperationModel::FusedAddSub { group } => chain_reads(
                group.leaves,
                step_pairs(group.steps),
            ),
            OperationModel::FusedMul { group } => chain_reads(group.leaves, mul_pairs(group.steps)),
        }
    }

    /// The operation only hands out what it holds.
    pub open spec fn is_read_only(self) -> bool {
        self matches OperationModel::Node(node) && read_only(node.op)
    }

    /// The operation as a schedule step.
    pub open spec fn step(self) -> StepModel {
        StepModel { value: self.output(), reads: self.reads() }
    }
}

/// The models of a list of operations.
pub open spec fn operation_models<'a>(operations: Seq<TensorSelectedOperation<'a>>) -> Seq<
    OperationModel<'a>,
> {
    operations.map_values(|operation: TensorSelectedOperation<'a>| operation@)
}

/// A list of operations as a schedule.
pub open spec fn operation_steps(operations: Seq<OperationModel<'_>>) -> Seq<StepModel> {
    operations.map_values(|operation: OperationModel<'_>| operation.step())
}

/// The value that an operation produces.
pub fn selected_operation_output(operation: &TensorSelectedOperation<'_>) -> (value: ValueId)
    ensures
        value == operation@.output(),
{
    match operation {
        TensorSelectedOperation::Node(node) => node.value,
        TensorSelectedOperation::FusedAddRelu { relu_output, .. } => *relu_output,
        TensorSelectedOperation::FusedAddSub { group } => group.output,
        TensorSelectedOperation::FusedMul { group } => group.output,
    }
}

/// The shape of the value that an operation produces.
fn selected_operation_shape<'op>(operation: &'op TensorSelectedOperation<'_>) -> (shape: &'op [usize])
    ensures
        shape@ == operation@.shape(),
{
    match operation {
        TensorSelectedOperation::Node(node) => node.shape,
        TensorSelectedOperation::FusedAddRelu { shape, .. } => shape,
        TensorSelectedOperation::FusedAddSub { group } => group.shape.as_slice(),
        TensorSelectedOperation::FusedMul { group } => group.shape.as_slice(),
    }
}

/// Whether an operation only hands out what it holds.
fn selected_operation_is_read_only(operation: &TensorSelectedOperation<'_>) -> (answer: bool)
    ensures
        answer == operation@.is_read_only(),
{
    match operation {
        TensorSelectedOperation::Node(node) => is_read_only_descriptor(node.op),
        _ => false,
    }
}

/// Adds the leaf that an operand reads.
fn push_operand(leaves: &[ValueId], operand: TensorPointwiseOperand, values: &mut Vec<ValueId>)
    ensures
        final(values)@ == old(values)@ + operand_reads(leaves@, operand),
{
    if let TensorPointwiseOperand::Leaf(index) = operand {
        if index < leaves.len() {
            values.push(leaves[index]);
        }
    }
    assert(values@ =~= old(values)@ + operand_reads(leaves@, operand));
}

/// The values that an operation reads, in order.
pub fn selected_operands(operation: &TensorSelectedOperation<'_>) -> (values: Vec<ValueId>)
    ensures
        values@ == operation@.reads(),
{
    match operation {
        TensorSelectedOperation::Node(node) => descriptor_operands(node.op),
        TensorSelectedOperation::FusedAddRelu { left, right, .. } => {
            let mut values: Vec<ValueId> = Vec::new();
            values.push(*left);
            values.push(*right);
            assert(values@ =~= operation@.reads());
            values
        },
        TensorSelectedOperation::FusedAddSub { group } => {
            let ghost pairs = step_pairs(group.steps@);
            let mut values: Vec<ValueId> = Vec::new();
            let mut at: usize = 0;
            assert(values@ =~= chain_reads(group.leaves@, pairs.take(0)));
            while at < group.steps.len()
                invariant
                    at <= group.steps@.len(),
                    pairs == step_pairs(group.steps@),
                    values@ == chain_reads(group.leaves@, pairs.take(at as int)),
                decreases group.steps@.len() - at,
            {
                let step: TensorPointwiseStep = group.steps[at];
                push_operand(group.leaves.as_slice(), step.left, &mut values);
                push_operand(group.leaves.as_slice(), step.right, &mut values);
                proof {
                    assert(pairs.take(at + 1).drop_last() =~= pairs.take(at as int));
                    assert(pairs.take(at + 1).last() == (step.left, step.right));
                }
                at += 1;
            }
            assert(pairs.take(at as int) =~= pairs);
            values
        },
        TensorSelectedOperation::FusedMul { group } => {
            let ghost pairs = mul_pairs(group.steps@);
            let mut values: Vec<ValueId> = Vec::new();
            let mut at: usize = 0;
            assert(values@ =~= chain_reads(group.leaves@, pairs.take(0)));
            while at < group.steps.len()
                invariant
                    at <= group.steps@.len(),
                    pairs == mul_pairs(group.steps@),
                    values@ == chain_reads(group.leaves@, pairs.take(at as int)),
                decreases group.steps@.len() - at,
            {
                let step: TensorPointwiseMulStep = group.steps[at];
                push_operand(group.leaves.as_slice(), step.left, &mut values);
                push_operand(group.leaves.as_slice(), step.right, &mut values);
                proof {
                    assert(pairs.take(at + 1).drop_last() =~= pairs.take(at as int));
                    assert(pairs.take(at + 1).last() == (step.left, step.right));
                }
                at += 1;
            }
            assert(pairs.take(at as int) =~= pairs);
            values
        },
    }
}

/// The first Add -> `ReLU` group that produces `value`.
pub open spec fn add_relu_for(groups: Seq<AddReluModel>, value: ValueId) -> Option<AddReluModel>
    decreases groups.len(),
{
    if groups.len() == 0 {
        None
    } else if groups[0].relu_output == value {
        Some(groups[0])
    } else {
        add_relu_for(groups.drop_first(), value)
    }
}

/// The first Add/Sub group that produces `value`.
pub open spec fn bounded_for(groups: Seq<BoundedModel>, value: ValueId) -> Option<BoundedModel>
    decreases groups.len(),
{
    if groups.len() == 0 {
        None
    } else if groups[0].output == value {
        Some(groups[0])
    } else {
        bounded_for(groups.drop_first(), value)
    }
}

/// The first Mul group that produces `value`.
pub open spec fn mul_for(groups: Seq<MulModel>, value: ValueId) -> Option<MulModel>
    decreases groups.len(),
{
    if groups.len() == 0 {
        None
    } else if groups[0].output == value {
        Some(groups[0])
    } else {
        mul_for(groups.drop_first(), value)
    }
}

/// A step of the Add/Sub group computes `value` on the way to another result.
pub open spec fn bounded_hides(group: BoundedModel, value: ValueId) -> bool {
    &&& exists|i: int| 0 <= i < group.steps.len() && (#[trigger] group.steps[i]).output == value
    &&& !(group.epilogue == TensorPointwiseEpilogue::Identity && group.output == value)
}

/// A step of the Mul group computes `value` on the way to another result.
pub open spec fn mul_hides(group: MulModel, value: ValueId) -> bool {
    &&& exists|i: int| 0 <= i < group.steps.len() && (#[trigger] group.steps[i]).output == value
    &&& group.output != value
}

/// Some group computes `value` on the way to another result, so it is not scheduled by itself.
pub open spec fn hidden(groups: GroupsModel, value: ValueId) -> bool {
    ||| exists|g: int|
        0 <= g < groups.pointwise.len() && (#[trigger] groups.pointwise[g]).add_output == value
    ||| exists|g: int|
        0 <= g < groups.muls.len() && mul_hides(#[trigger] groups.muls[g], value)
    ||| exists|g: int|
        0 <= g < groups.bounded.len() && bounded_hides(#[trigger] groups.bounded[g], value)
}

/// What a selected node is scheduled as.
pub open spec fn operation_for<'a>(groups: GroupsModel, node: NodeModel<'a>) -> Option<
    OperationModel<'a>,
> {
    if hidden(groups, node.value) {
        None
    } else if mul_for(groups.muls, node.value) is Some {
        Some(OperationModel::FusedMul { group: mul_for(groups.muls, node.value)->Some_0 })
    } else if bounded_for(groups.bounded, node.value) is Some {
        Some(OperationModel::FusedAddSub { group: bounded_for(groups.bounded, node.value)->Some_0 })
    } else if add_relu_for(groups.pointwise, node.value) is Some {
        Some(
            OperationModel::FusedAddRelu {
                group: AddReluModel {
                    shape: node.shape,
                    ..add_relu_for(groups.pointwise, node.value)->Some_0
                },
            },
        )
    } else {
        Some(OperationModel::Node(node))
    }
}

/// The scheduled operations, in node order.
pub open spec fn scheduled<'a>(groups: GroupsModel, nodes: Seq<NodeModel<'a>>) -> Seq<
    OperationModel<'a>,
> {
    nodes.filter_map(|node: NodeModel<'a>| operation_for(groups, node))
}

fn find_bounded(groups: &[TensorBoundedPointwiseFusionGroup], value: ValueId) -> (found: Option<
    TensorBoundedPointwiseFusionGroup,
>)
    ensures
        match found {
            Some(g) => bounded_for(bounded_models(groups@), value) == Some(g@),
            None => bounded_for(bounded_models(groups@), value) is None,
        },
{
    let ghost models = bounded_models(groups@);
    let mut at: usize = 0;
    assert(models.skip(0) =~= models);
    while at < groups.len()
        invariant
            at <= groups@.len(),
            models == bounded_models(groups@),
            bounded_for(models, value) == bounded_for(models.skip(at as int), value),
        decreases groups@.len() - at,
    {
        assert(models.skip(at as int)[0] == groups@[at as int]@);
        assert(models.skip(at as int).drop_first() =~= models.skip(at + 1));
        if groups[at].output == value {
            return Some(groups[at].clone());
        }
        at += 1;
    }
    None
}

fn find_mul(groups: &[TensorBoundedMulFusionGroup], value: ValueId) -> (found: Option<
    TensorBoundedMulFusionGroup,
>)
    ensures
        match found {
            Some(g) => mul_for(mul_models(groups@), value) == Some(g@),
            None => mul_for(mul_models(groups@), value) is None,
        },
{
    let ghost models = mul_models(groups@);
    let mut at: usize = 0;
    assert(models.skip(0) =~= models);
    while at < groups.len()
        invariant
            at <= groups@.len(),
            models == mul_models(groups@),
            mul_for(models, value) == mul_for(models.skip(at as int), value),
        decreases groups@.len() - at,
    {
        assert(models.skip(at as int)[0] == groups@[at as int]@);
        assert(models.skip(at as int).drop_first() =~= models.skip(at + 1));
        if groups[at].output == value {
            return Some(groups[at].clone());
        }
        at += 1;
    }
    None
}

fn find_add_relu(groups: &[TensorPointwiseFusionGroup], value: ValueId) -> (found: Option<usize>)
    ensures
        match found {
            Some(g) => g < groups@.len() && add_relu_for(add_relu_models(groups@), value) == Some(
                groups@[g as int]@,
            ),
            None => add_relu_for(add_relu_models(groups@), value) is None,
        },
{
    let ghost models = add_relu_models(groups@);
    let mut at: usize = 0;
    assert(models.skip(0) =~= models);
    while at < groups.len()
        invariant
            at <= groups@.len(),
            models == add_relu_models(groups@),
            add_relu_for(models, value) == add_relu_for(models.skip(at as int), value),
        decreases groups@.len() - at,
    {
        assert(models.skip(at as int)[0] == groups@[at as int]@);
        assert(models.skip(at as int).drop_first() =~= models.skip(at + 1));
        if groups[at].relu_output == value {
            return Some(at);
        }
        at += 1;
    }
    None
}

fn bounded_group_hides(group: &TensorBoundedPointwiseFusionGroup, value: ValueId) -> (answer: bool)
    ensures
        answer == bounded_hides(group@, value),
{
    if group.epilogue == TensorPointwiseEpilogue::Identity && group.output == value {
        return false;
    }
    let mut at: usize = 0;
    while at < group.steps.len()
        invariant
            at <= group.steps@.len(),
            !(group.epilogue == TensorPointwiseEpilogue::Identity && group.output == value),
            forall|i: int| 0 <= i < at ==> (#[trigger] group.steps@[i]).output != value,
        decreases group.steps@.len() - at,
    {
        if group.steps[at].output == value {
            assert(group@.steps[at as int].output == value);
            return true;
        }
        at += 1;
    }
    false
}

fn mul_group_hides(group: &TensorBoundedMulFusionGroup, value: ValueId) -> (answer: bool)
    ensures
        answer == mul_hides(group@, value),
{
    if group.output == value {
        return false;
    }
    let mut at: usize = 0;
    while at < group.steps.len()
        invariant
            at <= group.steps@.len(),
            group.output != value,
            forall|i: int| 0 <= i < at ==> (#[trigger] group.steps@[i]).output != value,
        decreases group.steps@.len() - at,
    {
        if group.steps[at].output == value {
            assert(group@.steps[at as int].output == value);
            return true;
        }
        at += 1;
    }
    false
}

/// The groups of a selection.
pub open spec fn group_models(
    pointwise: Seq<TensorPointwiseFusionGroup>,
    bounded: Seq<TensorBoundedPointwiseFusionGroup>,
    muls: Seq<TensorBoundedMulFusionGroup>,
) -> GroupsModel {
    GroupsModel {
        pointwise: add_relu_models(pointwise),
        bounded: bounded_models(bounded),
        muls: mul_models(muls),
    }
}

/// Whether some group computes `value` on the way to another result.
fn is_hidden(
    value: ValueId,
    pointwise: &[TensorPointwiseFusionGroup],
    bounded: &[TensorBoundedPointwiseFusionGroup],
    muls: &[TensorBoundedMulFusionGroup],
) -> (answer: bool)
    ensures
        answer == hidden(group_models(pointwise@, bounded@, muls@), value),
{
    let ghost groups = group_models(pointwise@, bounded@, muls@);
    let mut at: usize = 0;
    while at < pointwise.len()
        invariant
            at <= pointwise@.len(),
            groups == group_models(pointwise@, bounded@, muls@),
            forall|g: int| 0 <= g < at ==> (#[trigger] groups.pointwise[g]).add_output != value,
        decreases pointwise@.len() - at,
    {
        assert(groups.pointwise[at as int] == pointwise@[at as int]@);
        if pointwise[at].add_output == value {
            return true;
        }
        at += 1;
    }
    let mut at: usize = 0;
    while at < muls.len()
        invariant
            at <= muls@.len(),
            groups == group_models(pointwise@, bounded@, muls@),
            forall|g: int| 0 <= g < at ==> !mul_hides(#[trigger] groups.muls[g], value),
        decreases muls@.len() - at,
    {
        assert(groups.muls[at as int] == muls@[at as int]@);
        if mul_group_hides(&muls[at], value) {
            return true;
        }
        at += 1;
    }
    let mut at: usize = 0;
    while at < bounded.len()
        invariant
            at <= bounded@.len(),
            groups == group_models(pointwise@, bounded@, muls@),
            forall|g: int| 0 <= g < at ==> !bounded_hides(#[trigger] groups.bounded[g], value),
        decreases bounded@.len() - at,
    {
        assert(groups.bounded[at as int] == bounded@[at as int]@);
        if bounded_group_hides(&bounded[at], value) {
            return true;
        }
        at += 1;
    }
    false
}

/// What a selected node is scheduled as.
fn select_operation<'a>(
    node: &NodeDescriptor<'a>,
    pointwise: &[TensorPointwiseFusionGroup],
    bounded: &[TensorBoundedPointwiseFusionGroup],
    muls: &[TensorBoundedMulFusionGroup],
) -> (operation: Option<TensorSelectedOperation<'a>>)
    ensures
        match operation {
            Some(o) => operation_for(group_models(pointwise@, bounded@, muls@), node@) == Some(o@),
            None => operation_for(group_models(pointwise@, bounded@, muls@), node@) is None,
        },
{
    if is_hidden(node.value, pointwise, bounded, muls) {
        return None;
    }
    if let Some(group) = find_mul(muls, node.value) {
        return Some(TensorSelectedOperation::FusedMul { group });
    }
    if let Some(group) = find_bounded(bounded, node.value) {
        return Some(TensorSelectedOperation::FusedAddSub { group });
    }
    match find_add_relu(pointwise, node.value) {
        Some(at) => {
            let group: &TensorPointwiseFusionGroup = &pointwise[at];
            Some(
                TensorSelectedOperation::FusedAddRelu {
                    add_output: group.add_output,
                    relu_output: group.relu_output,
                    left: group.left,
                    right: group.right,
                    shape: node.shape,
                },
            )
        },
        None => Some(TensorSelectedOperation::Node(*node)),
    }
}

/// Schedules the selected nodes under their groups.
pub fn build_selected_operations<'a>(
    nodes: &[NodeDescriptor<'a>],
    pointwise: &[TensorPointwiseFusionGroup],
    bounded: &[TensorBoundedPointwiseFusionGroup],
    muls: &[TensorBoundedMulFusionGroup],
) -> (operations: Vec<TensorSelectedOperation<'a>>)
    ensures
        operation_models(operations@) == scheduled(
            group_models(pointwise@, bounded@, muls@),
            node_models(nodes@),
        ),
{
    let ghost models = node_models(nodes@);
    let ghost groups = group_models(pointwise@, bounded@, muls@);
    let ghost choice = |node: NodeModel<'a>| operation_for(groups, node);
    let mut operations: Vec<TensorSelectedOperation<'a>> = Vec::with_capacity(nodes.len());
    let mut at: usize = 0;
    proof {
        assert(models.take(0).filter_map(choice) =~= Seq::empty());
        assert(operation_models(operations@) =~= Seq::empty());
    }
    while at < nodes.len()
        invariant
            at <= nodes@.len(),
            models == node_models(nodes@),
            groups == group_models(pointwise@, bounded@, muls@),
            choice == (|node: NodeModel<'a>| operation_for(groups, node)),
            operation_models(operations@) == models.take(at as int).filter_map(choice),
        decreases nodes@.len() - at,
    {
        let ghost before = operations@;
        proof {
            models.lemma_filter_map_take_succ(choice, at as int);
            assert(models[at as int] == nodes@[at as int]@);
        }
        if let Some(operation) = select_operation(&nodes[at], pointwise, bounded, muls) {
            assert(choice(models[at as int]) == Some(operation@));
            operations.push(operation);
            assert(operation_models(operations@) =~= operation_models(before).push(operation@));
        }
        at += 1;
    }
    assert(models.take(at as int) =~= models);
    operations
}

/// Makes the schedule of a list of operations.
pub fn schedule_operations(operations: &[TensorSelectedOperation<'_>]) -> (steps: Vec<ScheduleStep>)
    ensures
        step_models(steps@) == operation_steps(operation_models(operations@)),
        steps@.len() == operations@.len(),
        forall|p: int|
            0 <= p < steps@.len() ==> (#[trigger] steps@[p]).value == operations@[p]@.output(),
{
    let mut steps: Vec<ScheduleStep> = Vec::with_capacity(operations.len());
    while steps.len() < operations.len()
        invariant
            steps@.len() <= operations@.len(),
            forall|p: int|
                0 <= p < steps@.len() ==> (#[trigger] steps@[p])@ == operations@[p]@.step(),
        decreases operations@.len() - steps@.len(),
    {
        let operation: &TensorSelectedOperation<'_> = &operations[steps.len()];
        steps.push(
            ScheduleStep {
                value: selected_operation_output(operation),
                reads: selected_operands(operation),
            },
        );
    }
    proof {
        let models = step_models(steps@);
        assert forall|p: int| 0 <= p < models.len() implies models[p] == operation_steps(
            operation_models(operations@),
        )[p] by {
            assert(steps@[p]@ == operations@[p]@.step());
        }
        assert(models =~= operation_steps(operation_models(operations@)));
        assert forall|p: int| 0 <= p < steps@.len() implies (#[trigger] steps@[p]).value
            == operations@[p]@.output() by {
            assert(steps@[p]@ == operations@[p]@.step());
        }
    }
    steps
}

/// Groups stay within their bounds and read only values of one graph.
pub open spec fn groups_known(graph_id: u64, groups: GroupsModel) -> bool {
    &&& forall|g: int|
        0 <= g < groups.pointwise.len() ==> (#[trigger] groups.pointwise[g]).left.graph_id
            == graph_id && groups.pointwise[g].right.graph_id == graph_id
    &&& forall|g: int|
        0 <= g < groups.bounded.len() ==> bounded_wf(#[trigger] groups.bounded[g]) && all_of_graph(
            groups.bounded[g].leaves,
            graph_id,
        )
    &&& forall|g: int|
        0 <= g < groups.muls.len() ==> mul_wf(#[trigger] groups.muls[g]) && all_of_graph(
            groups.muls[g].leaves,
            graph_id,
        )
}

/// All values belong to one graph.
pub open spec fn all_of_graph(values: Seq<ValueId>, graph_id: u64) -> bool {
    forall|i: int| 0 <= i < values.len() ==> (#[trigger] values[i]).graph_id == graph_id
}

proof fn lemma_leaves_of_graph(graph: Graph, nodes: Seq<NodeModel<'_>>, leaves: Seq<ValueId>)
    requires
        sound_nodes(graph, nodes),
        leaves_read(nodes, leaves),
    ensures
        all_of_graph(leaves, graph.id),
{
    assert forall|l: int| 0 <= l < leaves.len() implies (#[trigger] leaves[l]).graph_id
        == graph.id by {
        assert(some_node_reads(nodes, leaves[l]));
        let p = choose|p: int| #[trigger] consumer(nodes, p, leaves[l]);
        let k = consumes(nodes[p].op).index_of(leaves[l]);
        assert(precedes(graph.id, nodes[p].value.index as int, consumes(nodes[p].op)[k]));
    }
}

/// The groups of a sound list of nodes are within their bounds and read only its graph.
pub proof fn lemma_groups_known(
    graph: Graph,
    nodes: Seq<NodeModel<'_>>,
    table: Seq<usize>,
    counts: Seq<usize>,
    outputs: Seq<ValueId>,
    policy: TensorPointwiseGroupingPolicy,
)
    requires
        sound_nodes(graph, nodes),
        searchable(nodes, table, counts),
    ensures
        groups_known(graph.id, groups_of(nodes, table, counts, outputs, policy)),
{
    let groups = groups_of(nodes, table, counts, outputs, policy);
    assert forall|g: int| 0 <= g < groups.pointwise.len() implies (
    #[trigger] groups.pointwise[g]).left.graph_id == graph.id
        && groups.pointwise[g].right.graph_id == graph.id by {
        let choice = |node: NodeModel<'_>| add_relu_group(nodes, table, counts, node);
        let group = groups.pointwise[g];
        assert(groups.pointwise.contains(group));
        nodes.lemma_filter_map_contains(choice, group);
        let node = choose|node: NodeModel<'_>| #[trigger]
            nodes.contains(node) && choice(node) == Some(group);
        let q = lookup(table, group.add_output)->Some_0 as int;
        assert(consumes(nodes[q].op)[0] == group.left && consumes(nodes[q].op)[1] == group.right);
        assert(precedes(graph.id, nodes[q].value.index as int, consumes(nodes[q].op)[0]));
        assert(precedes(graph.id, nodes[q].value.index as int, consumes(nodes[q].op)[1]));
    }
    assert forall|g: int| 0 <= g < groups.bounded.len() implies bounded_wf(
        #[trigger] groups.bounded[g],
    ) && all_of_graph(groups.bounded[g].leaves, graph.id) by {
        let group = groups.bounded[g];
        assert(groups.bounded.contains(group));
        if policy == TensorPointwiseGroupingPolicy::BoundedAddSubRelu {
            let choice = |node: NodeModel<'_>| relu_group(nodes, table, counts, node);
            nodes.lemma_filter_map_contains(choice, group);
            let node = choose|node: NodeModel<'_>| #[trigger]
                nodes.contains(node) && choice(node) == Some(group);
            law_add_sub_group_is_bounded(
                nodes,
                table,
                counts,
                node.op->Relu_input,
                node.value,
                node.shape,
                TensorPointwiseEpilogue::Relu,
            );
        } else {
            let choice = |node: NodeModel<'_>| identity_group(nodes, table, counts, outputs, node);
            nodes.lemma_filter_map_contains(choice, group);
            let node = choose|node: NodeModel<'_>| #[trigger]
                nodes.contains(node) && choice(node) == Some(group);
            law_add_sub_group_is_bounded(
                nodes,
                table,
                counts,
                node.value,
                node.value,
                node.shape,
                TensorPointwiseEpilogue::Identity,
            );
        }
        lemma_leaves_of_graph(graph, nodes, group.leaves);
    }
    assert forall|g: int| 0 <= g < groups.muls.len() implies mul_wf(#[trigger] groups.muls[g])
        && all_of_graph(groups.muls[g].leaves, graph.id) by {
        let group = groups.muls[g];
        assert(groups.muls.contains(group));
        let choice = |node: NodeModel<'_>| mul_group(nodes, table, counts, outputs, node);
        nodes.lemma_filter_map_contains(choice, group);
        let node = choose|node: NodeModel<'_>| #[trigger]
            nodes.contains(node) && choice(node) == Some(group);
        law_mul_group_is_bounded(nodes, table, counts, outputs, node);
        lemma_leaves_of_graph(graph, nodes, group.leaves);
    }
}

proof fn lemma_chain_reads(
    leaves: Seq<ValueId>,
    pairs: Seq<(TensorPointwiseOperand, TensorPointwiseOperand)>,
    graph_id: u64,
)
    requires
        all_of_graph(leaves, graph_id),
    ensures
        chain_reads(leaves, pairs).len() <= 2 * pairs.len(),
        all_of_graph(chain_reads(leaves, pairs), graph_id),
    decreases pairs.len(),
{
    if pairs.len() > 0 {
        lemma_chain_reads(leaves, pairs.drop_last(), graph_id);
    }
}

pub proof fn lemma_found_groups(groups: GroupsModel, value: ValueId)
    ensures
        mul_for(groups.muls, value) matches Some(found) ==> found.output == value
            && groups.muls.contains(found),
        bounded_for(groups.bounded, value) matches Some(found) ==> found.output == value
            && groups.bounded.contains(found),
        add_relu_for(groups.pointwise, value) matches Some(found) ==> found.relu_output == value
            && groups.pointwise.contains(found),
{
    lemma_mul_for(groups.muls, value);
    lemma_bounded_for(groups.bounded, value);
    lemma_add_relu_for(groups.pointwise, value);
}

proof fn lemma_mul_for(groups: Seq<MulModel>, value: ValueId)
    ensures
        mul_for(groups, value) matches Some(found) ==> found.output == value && groups.contains(
            found,
        ),
    decreases groups.len(),
{
    if groups.len() > 0 {
        if groups[0].output != value {
            lemma_mul_for(groups.drop_first(), value);
            if let Some(found) = mul_for(groups.drop_first(), value) {
                let k = groups.drop_first().index_of(found);
                assert(groups[k + 1] == found);
            }
        } else {
            assert(groups.contains(groups[0]));
        }
    }
}

proof fn lemma_bounded_for(groups: Seq<BoundedModel>, value: ValueId)
    ensures
        bounded_for(groups, value) matches Some(found) ==> found.output == value && groups.contains(
            found,
        ),
    decreases groups.len(),
{
    if groups.len() > 0 {
        if groups[0].output != value {
            lemma_bounded_for(groups.drop_first(), value);
            if let Some(found) = bounded_for(groups.drop_first(), value) {
                let k = groups.drop_first().index_of(found);
                assert(groups[k + 1] == found);
            }
        } else {
            assert(groups.contains(groups[0]));
        }
    }
}

proof fn lemma_add_relu_for(groups: Seq<AddReluModel>, value: ValueId)
    ensures
        add_relu_for(groups, value) matches Some(found) ==> found.relu_output == value
            && groups.contains(found),
    decreases groups.len(),
{
    if groups.len() > 0 {
        if groups[0].relu_output != value {
            lemma_add_relu_for(groups.drop_first(), value);
            if let Some(found) = add_relu_for(groups.drop_first(), value) {
                let k = groups.drop_first().index_of(found);
                assert(groups[k + 1] == found);
            }
        } else {
            assert(groups.contains(groups[0]));
        }
    }
}

/// A scheduled operation produces its node's value and reads at most two operands for each of the
/// steps that a group may have.
proof fn lemma_operation_for<'a>(graph: Graph, groups: GroupsModel, nodes: Seq<NodeModel<'a>>, p: int)
    requires
        sound_nodes(graph, nodes),
        groups_known(graph.id, groups),
        0 <= p < nodes.len(),
    ensures
        operation_for(groups, nodes[p]) matches Some(operation) ==> {
            &&& operation.output() == nodes[p].value
            &&& operation.reads().len() <= 16
            &&& all_of_graph(operation.reads(), graph.id)
        },
{
    let node = nodes[p];
    lemma_found_groups(groups, node.value);
    if let Some(operation) = operation_for(groups, node) {
        match operation {
            OperationModel::Node(_) => {
                assert forall|k: int| 0 <= k < consumes(node.op).len() implies (
                #[trigger] consumes(node.op)[k]).graph_id == graph.id by {
                    assert(precedes(graph.id, nodes[p].value.index as int, consumes(nodes[p].op)[k]));
                }
            },
            OperationModel::FusedAddRelu { group } => {
                let found = add_relu_for(groups.pointwise, node.value)->Some_0;
                let g = groups.pointwise.index_of(found);
                assert(groups.pointwise[g] == found);
            },
            OperationModel::FusedAddSub { group } => {
                let g = groups.bounded.index_of(group);
                assert(groups.bounded[g] == group);
                lemma_chain_reads(group.leaves, step_pairs(group.steps), graph.id);
            },
            OperationModel::FusedMul { group } => {
                let g = groups.muls.index_of(group);
                assert(groups.muls[g] == group);
                lemma_chain_reads(group.leaves, mul_pairs(group.steps), graph.id);
            },
        }
    }
}

/// A schedule of operations is narrow, of one graph, and as ordered as its nodes.
pub proof fn lemma_scheduled_steps<'a>(graph: Graph, groups: GroupsModel, nodes: Seq<NodeModel<'a>>)
    requires
        sound_nodes(graph, nodes),
        groups_known(graph.id, groups),
    ensures
        ({
            let steps = operation_steps(scheduled(groups, nodes));
            &&& steps.len() <= nodes.len()
            &&& narrow(steps, 16)
            &&& of_one_graph(steps, Seq::empty(), graph.id)
            &&& forall|p: int, q: int|
                0 <= p < q < steps.len() ==> (#[trigger] steps[p]).value.index < (
                #[trigger] steps[q]).value.index
            &&& forall|p: int|
                0 <= p < steps.len() ==> graph.knows((#[trigger] steps[p]).value)
                    && steps[p].value.index <= nodes.last().value.index
        }),
    decreases nodes.len(),
{
    let choice = |node: NodeModel<'a>| operation_for(groups, node);
    if nodes.len() > 0 {
        let rest = nodes.drop_last();
        let last = nodes.len() - 1;
        assert(sound_nodes(graph, rest)) by {
            assert forall|p: int, q: int| 0 <= p < q < rest.len() implies (
            #[trigger] rest[p]).value.index < (#[trigger] rest[q]).value.index by {
                assert(nodes[p].value.index < nodes[q].value.index);
            }
            assert forall|p: int, k: int|
                0 <= p < rest.len() && 0 <= k < consumes(rest[p].op).len() implies precedes(
                graph.id,
                rest[p].value.index as int,
                #[trigger] consumes(rest[p].op)[k],
            ) by {
                assert(precedes(graph.id, nodes[p].value.index as int, consumes(nodes[p].op)[k]));
            }
            assert forall|p: int| 0 <= p < rest.len() implies graph.knows(
                (#[trigger] rest[p]).value,
            ) && rest[p].shape == graph.shape_of(rest[p].value) by {
                assert(graph.knows(nodes[p].value));
            }
        }
        lemma_scheduled_steps(graph, groups, rest);
        lemma_operation_for(graph, groups, nodes, last);
        assert(graph.knows(nodes[last].value));
        let fewer = operation_steps(scheduled(groups, rest));
        let steps = operation_steps(scheduled(groups, nodes));
        if rest.len() > 0 {
            assert(nodes[last - 1].value.index < nodes[last].value.index);
            assert(rest.last() == nodes[last - 1]);
        }
        assert(nodes.last() == nodes[last]);
        match operation_for(groups, nodes[last]) {
            Some(operation) => {
                assert(scheduled(groups, nodes) == scheduled(groups, rest) + seq![operation]);
                assert(steps =~= fewer.push(operation.step()));
                assert forall|p: int, k: int|
                    0 <= p < steps.len() && 0 <= k < steps[p].reads.len() implies (
                #[trigger] steps[p].reads[k]).graph_id == graph.id by {
                    if p < fewer.len() {
                        assert(fewer[p].reads[k].graph_id == graph.id);
                    } else {
                        assert(operation.reads()[k].graph_id == graph.id);
                    }
                }
                assert forall|p: int, q: int| 0 <= p < q < steps.len() implies (
                #[trigger] steps[p]).value.index < (#[trigger] steps[q]).value.index by {
                    if q < fewer.len() {
                        assert(fewer[p].value.index < fewer[q].value.index);
                    } else {
                        assert(graph.knows(fewer[p].value));
                    }
                }
                assert forall|p: int| 0 <= p < steps.len() implies graph.knows(
                    (#[trigger] steps[p]).value,
                ) && steps[p].value.index <= nodes.last().value.index by {
                    if p < fewer.len() {
                        assert(graph.knows(fewer[p].value));
                    }
                }
            },
            None => {
                assert(scheduled(groups, nodes) == scheduled(groups, rest));
                assert forall|p: int| 0 <= p < steps.len() implies graph.knows(
                    (#[trigger] steps[p]).value,
                ) && steps[p].value.index <= nodes.last().value.index by {
                    assert(graph.knows(fewer[p].value));
                }
            },
        }
    }
}

/// Backend-neutral, inspectable operation schedule selected for an execution plan.
///
/// This is a description only. It does not mutate the graph or cause a backend to execute a
/// rewrite. Values and output pins remain identified by their original ids.
#[derive(Debug)]
pub struct TensorSelectedLoweringPlan<'a> {
    pub graph_id: u64,
    pub nodes: Vec<NodeDescriptor<'a>>,
    pub input_values: Vec<ValueId>,
    pub output_values: Vec<ValueId>,
    pub index_by_value: Vec<usize>,
    pub use_counts: Vec<usize>,
    pub rewritten: Vec<TensorSgdRewriteCandidate>,
    pub suppressed_values: Vec<ValueId>,
    pub pointwise_groups: Vec<TensorPointwiseFusionGroup>,
    pub bounded_pointwise_groups: Vec<TensorBoundedPointwiseFusionGroup>,
    pub bounded_mul_groups: Vec<TensorBoundedMulFusionGroup>,
    pub operations: Vec<TensorSelectedOperation<'a>>,
    pub operation_index_by_value: Vec<usize>,
    pub operation_use_counts: Vec<usize>,
}

/// Everything about a schedule that its steps and the requested outputs determine.
pub open spec fn tabulated(
    steps: Seq<StepModel>,
    outputs: Seq<ValueId>,
    graph_id: u64,
    table: Seq<usize>,
    counts: Seq<usize>,
) -> bool {
    &&& indexes(table, steps)
    &&& of_one_graph(steps, outputs, graph_id)
    &&& counts.len() == steps.len()
    &&& forall|p: int|
        0 <= p < steps.len() ==> #[trigger] counts[p] == use_count(steps, outputs, steps[p].value)
}

impl<'a> TensorExecutionPlan<'a> {
    /// The nodes after arithmetic rewriting.
    pub open spec fn selected_nodes(
        &self,
        policy: TensorArithmeticRewritePolicy,
        target: TensorArithmeticCapability,
    ) -> Seq<NodeModel<'a>> {
        let candidates = self.candidates(policy, target);
        without_orphans(
            candidates,
            rewritten(candidates, self.node_models()),
            self.output_values@,
        )
    }

    /// The values whose operation arithmetic rewriting removed.
    pub open spec fn suppressed(
        &self,
        policy: TensorArithmeticRewritePolicy,
        target: TensorArithmeticCapability,
    ) -> Seq<ValueId> {
        let candidates = self.candidates(policy, target);
        omitted(candidates) + orphans(
            candidates,
            rewritten(candidates, self.node_models()),
            self.output_values@,
        )
    }
}

impl<'a> TensorSelectedLoweringPlan<'a> {
    /// The node schedule.
    pub open spec fn steps(&self) -> Seq<StepModel> {
        node_steps(node_models(self.nodes@))
    }

    /// The operation schedule.
    pub open spec fn operation_steps(&self) -> Seq<StepModel> {
        operation_steps(operation_models(self.operations@))
    }

    /// The groups of the selection.
    pub open spec fn groups(&self) -> GroupsModel {
        group_models(
            self.pointwise_groups@,
            self.bounded_pointwise_groups@,
            self.bounded_mul_groups@,
        )
    }

    /// Both schedules have the position tables and use counts that belong to them.
    pub open spec fn wf(&self) -> bool {
        &&& tabulated(
            self.steps(),
            self.output_values@,
            self.graph_id,
            self.index_by_value@,
            self.use_counts@,
        )
        &&& tabulated(
            self.operation_steps(),
            self.output_values@,
            self.graph_id,
            self.operation_index_by_value@,
            self.operation_use_counts@,
        )
        &&& groups_known(self.graph_id, self.groups())
    }

    /// This is the lowering of `plan` under these policies.
    pub open spec fn selects(
        &self,
        plan: TensorExecutionPlan<'a>,
        policy: TensorArithmeticRewritePolicy,
        target: TensorArithmeticCapability,
        grouping: TensorPointwiseGroupingPolicy,
    ) -> bool {
        let nodes = plan.selected_nodes(policy, target);
        &&& self.graph_id == plan.graph.id
        &&& self.input_values@ == plan.input_values@
        &&& self.output_values@ == plan.output_values@
        &&& self.rewritten@ == plan.candidates(policy, target)
        &&& self.suppressed_values@ == plan.suppressed(policy, target)
        &&& node_models(self.nodes@) == nodes
        &&& self.index_by_value@.len() == plan.graph.nodes@.len()
        &&& self.operation_index_by_value@.len() == plan.graph.nodes@.len()
        &&& self.groups() == groups_of(
            nodes,
            self.index_by_value@,
            self.use_counts@,
            plan.output_values@,
            grouping,
        )
        &&& operation_models(self.operations@) == scheduled(self.groups(), nodes)
    }
}

/// Splits the rewritten nodes into those that stay and the orphaned constants.
fn take_out_orphans<'a>(
    nodes: &[NodeDescriptor<'a>],
    outputs: &[ValueId],
    counts: &[usize],
) -> (parts: (Vec<NodeDescriptor<'a>>, Vec<ValueId>))
    requires
        counts@.len() == nodes@.len(),
        forall|p: int|
            0 <= p < nodes@.len() ==> #[trigger] counts@[p] == use_count(
                node_steps(node_models(nodes@)),
                outputs@,
                nodes@[p].value,
            ),
    ensures
        ({
            let models = node_models(nodes@);
            &&& node_models(parts.0@) == models.filter_map(
                |node: NodeModel<'a>|
                    if orphaned(models, outputs@, node) {
                        None
                    } else {
                        Some(node)
                    },
            )
            &&& parts.1@ == models.filter_map(
                |node: NodeModel<'_>|
                    if orphaned(models, outputs@, node) {
                        Some(node.value)
                    } else {
                        None
                    },
            )
        }),
{
    let ghost models = node_models(nodes@);
    let ghost keep = |node: NodeModel<'a>|
        if orphaned(models, outputs@, node) {
            None
        } else {
            Some(node)
        };
    let ghost drop = |node: NodeModel<'_>|
        if orphaned(models, outputs@, node) {
            Some(node.value)
        } else {
            None
        };
    let mut kept: Vec<NodeDescriptor<'a>> = Vec::with_capacity(nodes.len());
    let mut removed: Vec<ValueId> = Vec::new();
    let mut at: usize = 0;
    proof {
        assert(models.take(0).filter_map(keep) =~= Seq::empty());
        assert(models.take(0).filter_map(drop) =~= Seq::empty());
        assert(node_models(kept@) =~= Seq::empty());
    }
    while at < nodes.len()
        invariant
            at <= nodes@.len(),
            models == node_models(nodes@),
            counts@.len() == nodes@.len(),
            forall|p: int|
                0 <= p < nodes@.len() ==> #[trigger] counts@[p] == use_count(
                    node_steps(models),
                    outputs@,
                    nodes@[p].value,
                ),
            keep == (|node: NodeModel<'a>|
                if orphaned(models, outputs@, node) {
                    None
                } else {
                    Some(node)
                }),
            drop == (|node: NodeModel<'_>|
                if orphaned(models, outputs@, node) {
                    Some(node.value)
                } else {
                    None
                }),
            node_models(kept@) == models.take(at as int).filter_map(keep),
            removed@ == models.take(at as int).filter_map(drop),
        decreases nodes@.len() - at,
    {
        let node: NodeDescriptor<'a> = nodes[at];
        let ghost before = kept@;
        proof {
            models.lemma_filter_map_take_succ(keep, at as int);
            models.lemma_filter_map_take_succ(drop, at as int);
            assert(models[at as int] == node@);
            assert(counts@[at as int] == use_count(node_steps(models), outputs@, node.value));
        }
        let constant: bool = match node.op {
            super::descriptor::OpDescriptor::Constant(_) => true,
            super::descriptor::OpDescriptor::Uniform { .. } => true,
            _ => false,
        };
        if constant && counts[at] == 0 {
            removed.push(node.value);
        } else {
            kept.push(node);
            assert(node_models(kept@) =~= node_models(before).push(node@));
        }
        at += 1;
    }
    assert(models.take(at as int) =~= models);
    (kept, removed)
}

impl<'a> TensorExecutionPlan<'a> {
    /// Selects an inspectable operation schedule without modifying the source graph.
    ///
    /// Rewrites are enabled only when both the user policy and the target's declared arithmetic
    /// capability permit them. The schedule retains requested outputs and recounts value uses
    /// after suppressing the uniquely consumed multiply and any orphaned rate constant.
    pub fn select_lowering(
        &self,
        policy: TensorArithmeticRewritePolicy,
        target_arithmetic: TensorArithmeticCapability,
    ) -> (lowering: TensorSelectedLoweringPlan<'a>)
        requires
            self.wf(),
        ensures
            lowering.wf(),
            lowering.selects(
                *self,
                policy,
                target_arithmetic,
                TensorPointwiseGroupingPolicy::Disabled,
            ),
    {
        self.select_lowering_with_grouping(
            policy,
            target_arithmetic,
            TensorPointwiseGroupingPolicy::Disabled,
        )
    }

    /// Selects a lowering and, independently, an optional pointwise grouping schedule.
    ///
    /// Grouping metadata does not change graph construction or reference execution. Arithmetic
    /// rewrite policy remains independent, so every rounding point is preserved in a group.
    pub fn select_lowering_with_grouping(
        &self,
        policy: TensorArithmeticRewritePolicy,
        target_arithmetic: TensorArithmeticCapability,
        grouping_policy: TensorPointwiseGroupingPolicy,
    ) -> (lowering: TensorSelectedLoweringPlan<'a>)
        requires
            self.wf(),
        ensures
            lowering.wf(),
            lowering.selects(*self, policy, target_arithmetic, grouping_policy),
    {
        let graph: &'a Graph = self.graph;
        let ghost all_outputs = self.output_values@;
        let outputs: &[ValueId] = self.output_values.as_slice();
        let rewrites: Vec<TensorSgdRewriteCandidate> = self.sgd_rewrite_candidates(
            policy,
            target_arithmetic,
        );
        let planned: Vec<NodeDescriptor<'a>> = self.nodes();
        let changed: Vec<NodeDescriptor<'a>> = rewrite_nodes(
            rewrites.as_slice(),
            planned.as_slice(),
        );
        proof {
            lemma_rewritten_sound(*self, policy, target_arithmetic);
            lemma_without_orphans_sound(
                *graph,
                rewrites@,
                node_models(changed@),
                all_outputs,
            );
        }
        let mut suppressed_values: Vec<ValueId> = Vec::with_capacity(rewrites.len());
        while suppressed_values.len() < rewrites.len()
            invariant
                suppressed_values@.len() <= rewrites@.len(),
                forall|i: int|
                    0 <= i < suppressed_values@.len() ==> #[trigger] suppressed_values@[i]
                        == rewrites@[i].multiply,
            decreases rewrites@.len() - suppressed_values@.len(),
        {
            suppressed_values.push(rewrites[suppressed_values.len()].multiply);
        }
        assert(suppressed_values@ =~= omitted(rewrites@));
        // A rewrite can orphan its uniform rate constant. Shared or requested constants stay, but
        // a backend need not upload a value that the selected schedule never reads.
        let nodes: Vec<NodeDescriptor<'a>> = if rewrites.len() == 0 {
            changed
        } else {
            let (_, counts): (Vec<usize>, Vec<usize>) = tabulate_nodes(
                graph,
                changed.as_slice(),
                outputs,
            );
            let (kept, mut removed): (Vec<NodeDescriptor<'a>>, Vec<ValueId>) = take_out_orphans(
                changed.as_slice(),
                outputs,
                counts.as_slice(),
            );
            suppressed_values.append(&mut removed);
            kept
        };
        proof {
            assert(suppressed_values@ =~= self.suppressed(policy, target_arithmetic));
            assert(node_models(nodes@) == self.selected_nodes(policy, target_arithmetic));
        }
        let (index_by_value, use_counts): (Vec<usize>, Vec<usize>) = tabulate_nodes(
            graph,
            nodes.as_slice(),
            outputs,
        );
        proof {
            lemma_searchable(*graph, node_models(nodes@), index_by_value@, use_counts@);
            lemma_groups_known(
                *graph,
                node_models(nodes@),
                index_by_value@,
                use_counts@,
                all_outputs,
                grouping_policy,
            );
        }
        let (pointwise, bounded, muls): (
            Vec<TensorPointwiseFusionGroup>,
            Vec<TensorBoundedPointwiseFusionGroup>,
            Vec<TensorBoundedMulFusionGroup>,
        ) = select_pointwise_groups(
            nodes.as_slice(),
            index_by_value.as_slice(),
            use_counts.as_slice(),
            outputs,
            grouping_policy,
        );
        let ghost groups = group_models(pointwise@, bounded@, muls@);
        let operations: Vec<TensorSelectedOperation<'a>> = build_selected_operations(
            nodes.as_slice(),
            pointwise.as_slice(),
            bounded.as_slice(),
            muls.as_slice(),
        );
        let steps: Vec<ScheduleStep> = schedule_operations(operations.as_slice());
        proof {
            lemma_scheduled_steps(*graph, groups, node_models(nodes@));
            lemma_sound_steps(*graph, node_models(nodes@), all_outputs);
            let models = step_models(steps@);
            assert forall|p: int| 0 <= p < steps@.len() implies (#[trigger] steps@[p]).value.index
                < graph.nodes@.len() by {
                assert(models[p].value == steps@[p].value);
                assert(graph.knows(models[p].value));
            }
            assert(of_one_graph(models, all_outputs, graph.id)) by {
                assert(of_one_graph(node_steps(node_models(nodes@)), all_outputs, graph.id));
            }
        }
        let operation_index_by_value: Vec<usize> = index_steps(
            steps.as_slice(),
            graph.nodes.len(),
        );
        let operation_use_counts: Vec<usize> = count_uses(
            steps.as_slice(),
            outputs,
            operation_index_by_value.as_slice(),
            Ghost(graph.id),
            Ghost(16),
        );
        proof {
            let models = step_models(steps@);
            assert forall|p: int| 0 <= p < models.len() implies #[trigger] operation_use_counts@[p]
                == use_count(models, all_outputs, models[p].value) by {
                assert(models[p].value == steps@[p].value);
            }
        }
        TensorSelectedLoweringPlan {
            graph_id: graph.id,
            nodes,
            input_values: slice_to_vec(self.input_values.as_slice()),
            output_values: slice_to_vec(outputs),
            index_by_value,
            use_counts,
            rewritten: rewrites,
            suppressed_values,
            pointwise_groups: pointwise,
            bounded_pointwise_groups: bounded,
            bounded_mul_groups: muls,
            operations,
            operation_index_by_value,
            operation_use_counts,
        }
    }
}

/// Makes the position table and the use counts of a sound list of nodes.
fn tabulate_nodes(graph: &Graph, nodes: &[NodeDescriptor<'_>], outputs: &[ValueId]) -> (tables: (
    Vec<usize>,
    Vec<usize>,
))
    requires
        graph.countable(),
        graph.outputs_valid(outputs@),
        outputs@.len() <= graph.nodes@.len(),
        sound_nodes(*graph, node_models(nodes@)),
    ensures
        tables.0@.len() == graph.nodes@.len(),
        tabulated(
            node_steps(node_models(nodes@)),
            outputs@,
            graph.id,
            tables.0@,
            tables.1@,
        ),
        forall|p: int|
            0 <= p < nodes@.len() ==> #[trigger] tables.1@[p] == use_count(
                node_steps(node_models(nodes@)),
                outputs@,
                nodes@[p].value,
            ),
{
    let ghost models = node_models(nodes@);
    let steps: Vec<ScheduleStep> = schedule_nodes(nodes);
    proof {
        lemma_sound_steps(*graph, models, outputs@);
        assert forall|p: int| 0 <= p < steps@.len() implies (#[trigger] steps@[p]).value.index
            < graph.nodes@.len() by {
            assert(graph.knows(models[p].value));
        }
    }
    let table: Vec<usize> = index_steps(steps.as_slice(), graph.nodes.len());
    let counts: Vec<usize> = count_uses(
        steps.as_slice(),
        outputs,
        table.as_slice(),
        Ghost(graph.id),
        Ghost(2),
    );
    proof {
        let all = node_steps(models);
        assert forall|p: int| 0 <= p < all.len() implies #[trigger] counts@[p] == use_count(
            all,
            outputs@,
            all[p].value,
        ) && counts@[p] == use_count(all, outputs@, nodes@[p].value) by {
            assert(steps@[p].value == nodes@[p].value);
        }
    }
    (table, counts)
}

impl<'a> TensorSelectedLoweringPlan<'a> {
    /// Node descriptors after arithmetic rewriting and before optional pointwise grouping.
    pub fn nodes(&self) -> (items: &[NodeDescriptor<'a>])
        ensures
            items@ == self.nodes@,
    {
        self.nodes.as_slice()
    }

    /// Selected graph inputs, preserved from the source plan.
    pub fn input_values(&self) -> (items: &[ValueId])
        ensures
            items@ == self.input_values@,
    {
        self.input_values.as_slice()
    }

    /// Requested outputs, preserved and pinned from the source plan.
    pub fn output_values(&self) -> (items: &[ValueId])
        ensures
            items@ == self.output_values@,
    {
        self.output_values.as_slice()
    }

    /// Operand-reader counts aligned with the nodes, counting output pins.
    pub fn use_counts(&self) -> (items: &[usize])
        ensures
            items@ == self.use_counts@,
    {
        self.use_counts.as_slice()
    }

    /// Rewrites actually selected by the lowering policy.
    pub fn rewrites(&self) -> (items: &[TensorSgdRewriteCandidate])
        ensures
            items@ == self.rewritten@,
    {
        self.rewritten.as_slice()
    }

    /// Values whose operation was removed by arithmetic rewriting.
    pub fn suppressed_values(&self) -> (items: &[ValueId])
        ensures
            items@ == self.suppressed_values@,
    {
        self.suppressed_values.as_slice()
    }

    /// Opt-in operation schedule with the selected pointwise groups.
    pub fn operations(&self) -> (items: &[TensorSelectedOperation<'a>])
        ensures
            items@ == self.operations@,
    {
        self.operations.as_slice()
    }

    /// Add -> `ReLU` groups selected by the grouping policy.
    pub fn pointwise_fusion_groups(&self) -> (items: &[TensorPointwiseFusionGroup])
        ensures
            items@ == self.pointwise_groups@,
    {
        self.pointwise_groups.as_slice()
    }

    /// Bounded ordered Add/Sub expressions selected for this plan.
    pub fn bounded_pointwise_fusion_groups(&self) -> (items: &[TensorBoundedPointwiseFusionGroup])
        ensures
            items@ == self.bounded_pointwise_groups@,
    {
        self.bounded_pointwise_groups.as_slice()
    }

    /// Bounded ordered Mul expressions selected for this plan.
    pub fn bounded_mul_fusion_groups(&self) -> (items: &[TensorBoundedMulFusionGroup])
        ensures
            items@ == self.bounded_mul_groups@,
    {
        self.bounded_mul_groups.as_slice()
    }

    /// Reader counts aligned with the operations, counting requested-output pins.
    pub fn operation_use_counts(&self) -> (items: &[usize])
        ensures
            items@ == self.operation_use_counts@,
    {
        self.operation_use_counts.as_slice()
    }

    /// Position among the nodes, or nothing for values outside that schedule or removed by a rewrite.
    pub fn index_of(&self, value: ValueId) -> (position: Option<usize>)
        requires
            self.wf(),
        ensures
            match position {
                Some(p) => p < self.steps().len() && self.steps()[p as int].value == value,
                None => forall|p: int|
                    0 <= p < self.steps().len() ==> (#[trigger] self.steps()[p]).value != value,
            },
    {
        if value.graph_id != self.graph_id {
            return None;
        }
        assert(self.nodes.len() == self.nodes@.len());
        position_in(self.index_by_value.as_slice(), value.index)
    }

    /// Position among the operations. Intermediates of a group have none.
    pub fn operation_index_of(&self, value: ValueId) -> (position: Option<usize>)
        requires
            self.wf(),
        ensures
            match position {
                Some(p) => p < self.operation_steps().len() && self.operation_steps()[p as int].value == value,
                None => forall|p: int|
                    0 <= p < self.operation_steps().len() ==> (#[trigger] self.operation_steps()[p]).value != value,
            },
    {
        if value.graph_id != self.graph_id {
            return None;
        }
        assert(self.operations.len() == self.operations@.len());
        position_in(self.operation_index_by_value.as_slice(), value.index)
    }

    /// What storage planning is told of the nodes.
    pub open spec fn live_values(&self) -> Seq<LiveValue> {
        Seq::new(
            self.nodes@.len(),
            |p: int|
                LiveValue {
                    value: self.nodes@[p].value,
                    bytes: output_bytes(self.nodes@[p].shape@),
                    last: last_live(self.steps(), self.output_values@, p) as usize,
                    read_only: read_only(self.nodes@[p].op),
                },
        )
    }

    /// What storage planning is told of the operations.
    pub open spec fn live_operations(&self) -> Seq<LiveValue> {
        Seq::new(
            self.operations@.len(),
            |p: int|
                LiveValue {
                    value: self.operations@[p]@.output(),
                    bytes: output_bytes(self.operations@[p]@.shape()),
                    last: last_live(self.operation_steps(), self.output_values@, p) as usize,
                    read_only: self.operations@[p]@.is_read_only(),
                },
        )
    }

    /// Storage disjointness required by the node schedule.
    ///
    /// Rewrites can extend an operand's lifetime as well as remove intermediates, so these
    /// constraints are derived from the selected operands and output pins.
    ///
    /// # Errors
    ///
    /// `ShapeOverflow` when a surviving value's byte extent cannot be represented.
    pub fn storage_constraints(&self) -> (answer: Result<Vec<TensorStorageConstraint>, TensorError>)
        requires
            self.wf(),
        ensures
            constraints_answer(self.live_values(), answer),
    {
        let steps: Vec<ScheduleStep> = schedule_nodes(self.nodes.as_slice());
        let last: Vec<usize> = last_uses(
            steps.as_slice(),
            self.output_values.as_slice(),
            self.index_by_value.as_slice(),
            Ghost(self.graph_id),
        );
        let mut values: Vec<LiveValue> = Vec::with_capacity(self.nodes.len());
        while values.len() < self.nodes.len()
            invariant
                values@.len() <= self.nodes@.len(),
                last@.len() == self.nodes@.len(),
                forall|p: int|
                    0 <= p < last@.len() ==> #[trigger] last@[p] == last_live(
                        self.steps(),
                        self.output_values@,
                        p,
                    ),
                forall|p: int|
                    0 <= p < values@.len() ==> #[trigger] values@[p] == self.live_values()[p],
            decreases self.nodes@.len() - values@.len(),
        {
            let at: usize = values.len();
            let node: NodeDescriptor<'a> = self.nodes[at];
            assert(last@[at as int] == last_live(self.steps(), self.output_values@, at as int));
            values.push(
                LiveValue {
                    value: node.value,
                    bytes: node_output_bytes(node.shape),
                    last: last[at],
                    read_only: is_read_only_descriptor(node.op),
                },
            );
        }
        assert(values@ =~= self.live_values());
        constrain(values.as_slice())
    }

    /// Storage disjointness constraints for the operation schedule.
    ///
    /// Intermediates of groups are omitted and a fused operation reads the group's external
    /// operands, so this reflects the storage the selected schedule actually requires.
    ///
    /// # Errors
    ///
    /// `ShapeOverflow` if any scheduled value's byte extent cannot be represented.
    pub fn operation_storage_constraints(&self) -> (answer: Result<
        Vec<TensorStorageConstraint>,
        TensorError,
    >)
        requires
            self.wf(),
        ensures
            constraints_answer(self.live_operations(), answer),
    {
        let steps: Vec<ScheduleStep> = schedule_operations(self.operations.as_slice());
        let last: Vec<usize> = last_uses(
            steps.as_slice(),
            self.output_values.as_slice(),
            self.operation_index_by_value.as_slice(),
            Ghost(self.graph_id),
        );
        let mut values: Vec<LiveValue> = Vec::with_capacity(self.operations.len());
        while values.len() < self.operations.len()
            invariant
                values@.len() <= self.operations@.len(),
                last@.len() == self.operations@.len(),
                forall|p: int|
                    0 <= p < last@.len() ==> #[trigger] last@[p] == last_live(
                        self.operation_steps(),
                        self.output_values@,
                        p,
                    ),
                forall|p: int|
                    0 <= p < values@.len() ==> #[trigger] values@[p] == self.live_operations()[p],
            decreases self.operations@.len() - values@.len(),
        {
            let at: usize = values.len();
            let operation: &TensorSelectedOperation<'a> = &self.operations[at];
            assert(last@[at as int] == last_live(
                self.operation_steps(),
                self.output_values@,
                at as int,
            ));
            values.push(
                LiveValue {
                    value: selected_operation_output(operation),
                    bytes: node_output_bytes(selected_operation_shape(operation)),
                    last: last[at],
                    read_only: selected_operation_is_read_only(operation),
                },
            );
        }
        assert(values@ =~= self.live_operations());
        constrain(values.as_slice())
    }
}

} // verus!
