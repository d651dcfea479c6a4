//! A prepared graph runs to its end: every value is there when it is read, goes with its last use,
//! and only the requested ones are left.
use vstd::prelude::*;

use super::assess::RocmTensorAssessor;
use super::error::RocmTensorExecutionError;
use super::execute::{
    bound_values, first_unlocated, leaf_releases, leaf_uses, locates, released, released_once,
    repeated, used_values,
};
use super::layout::{lemma_position_found, node_position};
use super::node_work::node_fails;
use super::prepare::RocmPreparedTensorGraph;
use super::sources::{resident, supplied, RocmTensorInput};
use crate::tensor::closed_operations::{
    law_groups_read_their_leaves, law_operations_read_earlier_results, lemma_group_node,
};
use crate::tensor::descriptor::{node_models, NodeModel};
use crate::tensor::error::ValueId;
use crate::tensor::groups::{bounded_wf, mul_wf, TensorPointwiseOperand};
use crate::tensor::lowering::{
    chain_reads, lemma_scheduled_steps, mul_pairs, operand_reads, operation_for, operation_models,
    operation_steps, scheduled, step_pairs, OperationModel,
};
use crate::tensor::lowering_laws::law_requested_outputs_stay_scheduled;
use crate::tensor::schedule::{lemma_occurrences_bound, occurrences, read_count};
use crate::tensor::value::{law_smaller_unit_fits, Tensor};

verus! {

/// Occurrences add up.
proof fn lemma_occurrences_add(left: Seq<ValueId>, right: Seq<ValueId>, value: ValueId)
    ensures
        occurrences(left + right, value) == occurrences(left, value) + occurrences(right, value),
    decreases right.len(),
{
    if right.len() == 0 {
        assert(left + right =~= left);
    } else {
        assert((left + right).drop_last() =~= left + right.drop_last());
        lemma_occurrences_add(left, right.drop_last(), value);
    }
}

proof fn lemma_occurrences_repeated(item: ValueId, count: nat, value: ValueId)
    ensures
        occurrences(repeated(item, count), value) == if item == value {
            count
        } else {
            0
        },
    decreases count,
{
    if count > 0 {
        assert(repeated(item, count).drop_last() =~= repeated(item, (count - 1) as nat));
        lemma_occurrences_repeated(item, (count - 1) as nat, value);
    }
}

/// An operand reads `value` from one of the first `count` leaves.
spec fn hits(
    leaves: Seq<ValueId>,
    operand: TensorPointwiseOperand,
    count: int,
    value: ValueId,
) -> nat {
    match operand {
        TensorPointwiseOperand::Leaf(l) => if l < count && leaves[l as int] == value {
            1
        } else {
            0
        },
        TensorPointwiseOperand::Step(_) => 0,
    }
}

/// What the last pair of operands adds to the releases of a group.
proof fn lemma_release_of_pair(
    leaves: Seq<ValueId>,
    pairs: Seq<(TensorPointwiseOperand, TensorPointwiseOperand)>,
    count: int,
    value: ValueId,
)
    requires
        0 <= count <= leaves.len() <= 4,
        pairs.len() > 0,
    ensures
        occurrences(leaf_releases(leaves, pairs, count), value) == occurrences(
            leaf_releases(leaves, pairs.drop_last(), count),
            value,
        ) + hits(leaves, pairs.last().0, count, value) + hits(
            leaves,
            pairs.last().1,
            count,
            value,
        ),
    decreases count,
{
    if count > 0 {
        lemma_release_of_pair(leaves, pairs, count - 1, value);
        let l = (count - 1) as usize;
        let uses = leaf_uses(pairs, l);
        let fewer = leaf_uses(pairs.drop_last(), l);
        lemma_occurrences_add(
            leaf_releases(leaves, pairs, count - 1),
            repeated(leaves[count - 1], uses),
            value,
        );
        lemma_occurrences_add(
            leaf_releases(leaves, pairs.drop_last(), count - 1),
            repeated(leaves[count - 1], fewer),
            value,
        );
        lemma_occurrences_repeated(leaves[count - 1], uses, value);
        lemma_occurrences_repeated(leaves[count - 1], fewer, value);
    }
}

proof fn lemma_no_releases(leaves: Seq<ValueId>, count: int)
    requires
        0 <= count <= leaves.len(),
    ensures
        leaf_releases(leaves, Seq::empty(), count).len() == 0,
    decreases count,
{
    if count > 0 {
        lemma_no_releases(leaves, count - 1);
    }
}

/// A group ends as many uses of each value as it reads it.
proof fn lemma_chain_releases(
    leaves: Seq<ValueId>,
    pairs: Seq<(TensorPointwiseOperand, TensorPointwiseOperand)>,
    value: ValueId,
)
    requires
        leaves.len() <= 4,
    ensures
        occurrences(leaf_releases(leaves, pairs, leaves.len() as int), value) == occurrences(
            chain_reads(leaves, pairs),
            value,
        ),
    decreases pairs.len(),
{
    if pairs.len() == 0 {
        assert(pairs =~= Seq::empty());
        lemma_no_releases(leaves, leaves.len() as int);
    } else {
        let before = chain_reads(leaves, pairs.drop_last());
        let left = operand_reads(leaves, pairs.last().0);
        let right = operand_reads(leaves, pairs.last().1);
        lemma_chain_releases(leaves, pairs.drop_last(), value);
        lemma_release_of_pair(leaves, pairs, leaves.len() as int, value);
        lemma_occurrences_add(before + left, right, value);
        lemma_occurrences_add(before, left, value);
        assert forall|operand: TensorPointwiseOperand|
            occurrences(#[trigger] operand_reads(leaves, operand), value) == hits(
                leaves,
                operand,
                leaves.len() as int,
                value,
            ) by {
            let reads = operand_reads(leaves, operand);
            if reads.len() > 0 {
                assert(reads.drop_last().len() == 0);
                assert(occurrences(reads.drop_last(), value) == 0);
            }
        }
    }
}

/// An operation ends as many uses of each value as it reads it.
proof fn lemma_uses_are_reads(operation: OperationModel<'_>, value: ValueId)
    requires
        operation matches OperationModel::FusedAddSub { group } ==> bounded_wf(group),
        operation matches OperationModel::FusedMul { group } ==> mul_wf(group),
    ensures
        occurrences(used_values(operation), value) == occurrences(operation.reads(), value),
{
    match operation {
        OperationModel::FusedAddSub { group } => {
            lemma_chain_releases(group.leaves, step_pairs(group.steps), value);
        },
        OperationModel::FusedMul { group } => {
            lemma_chain_releases(group.leaves, mul_pairs(group.steps), value);
        },
        _ => {},
    }
}

/// How often `index` is released.
pub open spec fn tally(indices: Seq<usize>, index: int) -> nat
    decreases indices.len(),
{
    if indices.len() == 0 {
        0
    } else {
        tally(indices.drop_last(), index) + if indices.last() == index {
            1nat
        } else {
            0nat
        }
    }
}

/// What several releases do to each slot and count.
proof fn lemma_released(slots: Seq<Option<usize>>, counts: Seq<usize>, indices: Seq<usize>)
    requires
        slots.len() == counts.len(),
        forall|i: int| 0 <= i < indices.len() ==> (#[trigger] indices[i]) < counts.len(),
        forall|i: int| 0 <= i < counts.len() ==> tally(indices, i) <= #[trigger] counts[i],
    ensures
        released(slots, counts, indices) matches Some(after) && {
            &&& after.0.len() == slots.len()
            &&& after.1.len() == counts.len()
            &&& forall|i: int|
                0 <= i < counts.len() ==> #[trigger] after.1[i] == counts[i] - tally(indices, i)
            &&& forall|i: int|
                0 <= i < slots.len() ==> #[trigger] after.0[i] == if tally(indices, i) > 0
                    && tally(indices, i) == counts[i] {
                    None
                } else {
                    slots[i]
                }
        },
    decreases indices.len(),
{
    if indices.len() > 0 {
        let rest = indices.drop_last();
        assert forall|i: int| 0 <= i < rest.len() implies (#[trigger] rest[i]) < counts.len() by {
            assert(rest[i] == indices[i]);
        }
        assert forall|i: int| 0 <= i < counts.len() implies tally(rest, i)
            <= #[trigger] counts[i] by {
            assert(tally(indices, i) <= counts[i]);
        }
        lemma_released(slots, counts, rest);
        let index = indices.last() as int;
        assert(indices.last() == indices[indices.len() - 1]);
        assert(tally(indices, index) <= counts[index]);
        let before = released(slots, counts, rest)->Some_0;
        assert(before.1[index] == counts[index] - tally(rest, index));
        let after = released_once(before.0, before.1, index);
        assert(released(slots, counts, indices) == Some(after));
        assert forall|i: int| 0 <= i < counts.len() implies #[trigger] after.1[i] == counts[i]
            - tally(indices, i) by {
            assert(before.1[i] == counts[i] - tally(rest, i));
        }
        assert forall|i: int| 0 <= i < slots.len() implies #[trigger] after.0[i] == if tally(
            indices,
            i,
        ) > 0 && tally(indices, i) == counts[i] {
            None
        } else {
            slots[i]
        } by {
            assert(before.0[i] == if tally(rest, i) > 0 && tally(rest, i) == counts[i] {
                None
            } else {
                slots[i]
            });
        }
    }
}

impl<'graph> RocmPreparedTensorGraph<'graph> {
    /// How often the nodes before `at` read `value`.
    pub open spec fn uses_before(&self, at: int, value: ValueId) -> nat {
        read_count(
            operation_steps(
                scheduled(self.lowering_plan.groups(), node_models(self.nodes()).take(at)),
            ),
            value,
        )
    }

    /// What the node at `at` adds to the reads of `value`.
    proof fn lemma_uses_step(&self, at: int, value: ValueId)
        requires
            0 <= at < self.nodes().len(),
        ensures
            self.uses_before(at + 1, value) == self.uses_before(at, value) + match self.operation_at(
                at,
            ) {
                Some(operation) => occurrences(operation.reads(), value),
                None => 0,
            },
    {
        let groups = self.lowering_plan.groups();
        let nodes = node_models(self.nodes());
        let choice = |node: NodeModel<'graph>| operation_for(groups, node);
        nodes.lemma_filter_map_take_succ(choice, at);
        assert(nodes[at] == self.nodes()[at]@);
        let before = scheduled(groups, nodes.take(at));
        let after = scheduled(groups, nodes.take(at + 1));
        match self.operation_at(at) {
            Some(operation) => {
                assert(after =~= before.push(operation));
                assert(operation_steps(after).drop_last() =~= operation_steps(before));
                assert(operation_steps(after).last() == operation.step());
            },
            None => {
                assert(after =~= before);
            },
        }
    }

    proof fn lemma_uses_grow(&self, early: int, late: int, value: ValueId)
        requires
            0 <= early <= late <= self.nodes().len(),
        ensures
            self.uses_before(early, value) <= self.uses_before(late, value),
        decreases late - early,
    {
        if early < late {
            self.lemma_uses_grow(early, late - 1, value);
            self.lemma_uses_step(late - 1, value);
        }
    }

    /// All the nodes together read a value as often as the schedule does.
    proof fn lemma_all_uses(&self, value: ValueId)
        requires
            self.wf(),
        ensures
            self.uses_before(self.nodes().len() as int, value) == read_count(
                self.lowering_plan.operation_steps(),
                value,
            ),
    {
        let nodes = node_models(self.nodes());
        assert(nodes.take(nodes.len() as int) =~= nodes);
    }

    /// A value of the plan stands at one position.
    proof fn lemma_position(&self, at: int)
        requires
            self.wf(),
            0 <= at < self.nodes().len(),
        ensures
            node_position(self.nodes(), self.nodes()[at].value) == Some(at),
            forall|i: int|
                0 <= i < self.nodes().len() && (#[trigger] self.nodes()[i]).value
                    == self.nodes()[at].value ==> i == at,
    {
        self.lemma_nodes_sound();
        let nodes = node_models(self.nodes());
        lemma_position_found(self.nodes(), self.nodes()[at].value);
        assert forall|i: int|
            0 <= i < self.nodes().len() && (#[trigger] self.nodes()[i]).value
                == self.nodes()[at].value implies i == at by {
            assert(nodes[i] == self.nodes()[i]@);
            assert(nodes[at] == self.nodes()[at]@);
            if i < at {
                assert(nodes[i].value.index < nodes[at].value.index);
            } else if at < i {
                assert(nodes[at].value.index < nodes[i].value.index);
            }
        }
    }

    /// What a scheduled node reads is the value of an earlier scheduled node.
    proof fn lemma_read_is_earlier(&self, at: int, value: ValueId) -> (i: int)
        requires
            self.wf(),
            0 <= at < self.nodes().len(),
            self.operation_at(at) matches Some(operation) && operation.reads().contains(value),
        ensures
            0 <= i < at,
            self.nodes()[i].value == value,
            self.operation_at(i) is Some,
            node_position(self.nodes(), value) == Some(i),
    {
        let lowering = self.lowering_plan;
        let operation = self.operation_at(at)->Some_0;
        let models = operation_models(lowering.operations@);
        self.lemma_own_operation(at);
        let p = models.index_of(operation);
        assert(models[p] == lowering.operations@[p]@);
        law_operations_read_earlier_results(
            lowering,
            self.plan,
            self.rewriting,
            self.arithmetic,
            self.grouping,
            p,
            value,
        );
        let q = choose|q: int|
            0 <= q < p && (#[trigger] lowering.operations@[q])@.output() == value;
        assert(models[q] == lowering.operations@[q]@);
        let i = self.lemma_operation_position(q);
        self.lemma_operation_order(q, i, p, at);
        self.lemma_position(i);
        i
    }

    /// The node that an operation is scheduled for.
    proof fn lemma_operation_position(&self, q: int) -> (i: int)
        requires
            self.wf(),
            0 <= q < self.lowering_plan.operations@.len(),
        ensures
            0 <= i < self.nodes().len(),
            self.operation_at(i) == Some(self.lowering_plan.operations@[q]@),
            self.nodes()[i].value == self.lowering_plan.operations@[q]@.output(),
    {
        let groups = self.lowering_plan.groups();
        let nodes = node_models(self.nodes());
        let models = operation_models(self.lowering_plan.operations@);
        let operation = models[q];
        assert(operation == self.lowering_plan.operations@[q]@);
        let choice = |node: NodeModel<'graph>| operation_for(groups, node);
        assert(models.contains(operation));
        nodes.lemma_filter_map_contains(choice, operation);
        let node = choose|node: NodeModel<'graph>| #[trigger]
            nodes.contains(node) && choice(node) == Some(operation);
        let i = nodes.index_of(node);
        assert(nodes[i] == self.nodes()[i]@);
        self.lemma_own_operation(i);
        i
    }

    /// Operations stand in the order of their nodes.
    proof fn lemma_operation_order(&self, q: int, i: int, p: int, at: int)
        requires
            self.wf(),
            0 <= q < p < self.lowering_plan.operations@.len(),
            0 <= i < self.nodes().len(),
            0 <= at < self.nodes().len(),
            self.nodes()[i].value == self.lowering_plan.operations@[q]@.output(),
            self.nodes()[at].value == self.lowering_plan.operations@[p]@.output(),
        ensures
            i < at,
    {
        let models = operation_models(self.lowering_plan.operations@);
        let nodes = node_models(self.nodes());
        let steps = self.lowering_plan.operation_steps();
        self.lemma_nodes_sound();
        lemma_scheduled_steps(
            *self.graph,
            self.lowering_plan.groups(),
            nodes,
        );
        assert(steps[q].value == models[q].output());
        assert(steps[p].value == models[p].output());
        assert(models[q] == self.lowering_plan.operations@[q]@);
        assert(models[p] == self.lowering_plan.operations@[p]@);
        assert(steps[q].value.index < steps[p].value.index);
        assert(nodes[i] == self.nodes()[i]@);
        assert(nodes[at] == self.nodes()[at]@);
        if at < i {
            assert(nodes[at].value.index < nodes[i].value.index);
        }
    }
}

/// The state of an execution that has passed the nodes before `at`: each value has the uses left
/// that are still to come; a value that was computed has a resource until its last use, and
/// nothing else has one.
pub open spec fn on_course(
    prepared: RocmPreparedTensorGraph<'_>,
    slots: Seq<Option<usize>>,
    counts: Seq<usize>,
    at: int,
) -> bool {
    &&& slots.len() == prepared.nodes().len()
    &&& counts.len() == prepared.nodes().len()
    &&& 0 <= at <= prepared.nodes().len()
    &&& forall|i: int|
        0 <= i < counts.len() && prepared.operation_at(i) is Some ==> #[trigger] counts[i]
            == prepared.use_counts@[i] - prepared.uses_before(at, prepared.nodes()[i].value)
    &&& forall|i: int|
        0 <= i < slots.len() ==> ((#[trigger] slots[i]) is Some <==> i < at
            && prepared.operation_at(i) is Some && !(counts[i] == 0
            && prepared.use_counts@[i] > 0))
}

impl<'graph> RocmPreparedTensorGraph<'graph> {
    /// A value is read as often as it is counted as used, and more often by all nodes than by some.
    proof fn lemma_uses_left(&self, i: int, at: int)
        requires
            self.wf(),
            0 <= i < self.nodes().len(),
            0 <= at < self.nodes().len(),
            self.operation_at(i) is Some,
        ensures
            ({
                let value = self.nodes()[i].value;
                self.use_counts@[i] >= self.uses_before(at, value) + match self.operation_at(at) {
                    Some(operation) => occurrences(operation.reads(), value),
                    None => 0,
                }
            }),
    {
        let value = self.nodes()[i].value;
        self.lemma_scheduled(i);
        self.lemma_uses_step(at, value);
        self.lemma_uses_grow(at + 1, self.nodes().len() as int, value);
        self.lemma_all_uses(value);
    }

    /// An operation reads everything that it binds.
    proof fn lemma_bound_is_read(&self, at: int, value: ValueId)
        requires
            self.wf(),
            0 <= at < self.nodes().len(),
            self.operation_at(at) matches Some(operation) && bound_values(operation).contains(
                value,
            ),
        ensures
            self.operation_at(at)->Some_0.reads().contains(value),
    {
        let operation = self.operation_at(at)->Some_0;
        let lowering = self.lowering_plan;
        self.lemma_own_operation(at);
        let models = operation_models(lowering.operations@);
        let p = models.index_of(operation);
        assert(models[p] == lowering.operations@[p]@);
        if !operation.reads().contains(value) {
            law_groups_read_their_leaves(
                lowering,
                self.plan,
                self.rewriting,
                self.arithmetic,
                self.grouping,
                p,
                value,
            );
        }
    }

    /// No node up to the one that computes a value reads it.
    proof fn lemma_unread_before(&self, i: int, at: int)
        requires
            self.wf(),
            0 <= at <= i + 1 <= self.nodes().len(),
        ensures
            self.uses_before(at, self.nodes()[i].value) == 0,
        decreases at,
    {
        let value = self.nodes()[i].value;
        if at == 0 {
            assert(node_models(self.nodes()).take(0).len() == 0);
        } else {
            self.lemma_unread_before(i, at - 1);
            self.lemma_uses_step(at - 1, value);
            if let Some(operation) = self.operation_at(at - 1) {
                lemma_occurrences_bound(operation.reads(), value);
                if operation.reads().contains(value) {
                    let j = self.lemma_read_is_earlier(at - 1, value);
                    self.lemma_position(i);
                }
            }
        }
    }

    /// Releasing the positions of some values releases each position as often as its value
    /// occurs.
    proof fn lemma_tally(&self, values: Seq<ValueId>, positions: Seq<usize>, i: int)
        requires
            self.wf(),
            locates(self.nodes(), values, positions),
            0 <= i < self.nodes().len(),
        ensures
            tally(positions, i) == occurrences(values, self.nodes()[i].value),
        decreases values.len(),
    {
        if values.len() > 0 {
            let (fewer, rest) = (values.drop_last(), positions.drop_last());
            let last = values.len() - 1;
            assert forall|k: int| 0 <= k < fewer.len() implies node_position(
                self.nodes(),
                #[trigger] fewer[k],
            ) == Some(rest[k] as int) by {
                assert(fewer[k] == values[k]);
            }
            self.lemma_tally(fewer, rest, i);
            assert(node_position(self.nodes(), values[last]) == Some(positions[last] as int));
            lemma_position_found(self.nodes(), values[last]);
            self.lemma_position(i);
        }
    }
}

/// An execution starts on course: nothing has a resource, and every use is still to come.
pub proof fn law_executions_start_on_course(prepared: RocmPreparedTensorGraph<'_>)
    requires
        prepared.wf(),
    ensures
        on_course(
            prepared,
            Seq::new(prepared.nodes().len(), |i: int| None::<usize>),
            prepared.use_counts@,
            0,
        ),
{
    assert forall|i: int| 0 <= i < prepared.nodes().len() implies prepared.uses_before(
        0,
        (#[trigger] prepared.nodes()[i]).value,
    ) == 0 by {
        prepared.lemma_unread_before(i, 0);
    }
}

/// Passing over a node that is not scheduled keeps an execution on course.
pub proof fn law_unscheduled_nodes_are_passed(
    prepared: RocmPreparedTensorGraph<'_>,
    slots: Seq<Option<usize>>,
    counts: Seq<usize>,
    at: int,
)
    requires
        prepared.wf(),
        on_course(prepared, slots, counts, at),
        at < prepared.nodes().len(),
        prepared.operation_at(at) is None,
    ensures
        on_course(prepared, slots, counts, at + 1),
{
    assert forall|i: int| 0 <= i < counts.len() && prepared.operation_at(i) is Some implies #[trigger] counts[i]
        == prepared.use_counts@[i] - prepared.uses_before(at + 1, prepared.nodes()[i].value) by {
        prepared.lemma_uses_step(at, prepared.nodes()[i].value);
    }
}

/// Everything that a scheduled node binds is there: a node computes it, and it has a resource.
pub proof fn law_operands_are_there(
    prepared: RocmPreparedTensorGraph<'_>,
    slots: Seq<Option<usize>>,
    counts: Seq<usize>,
    at: int,
    value: ValueId,
)
    requires
        prepared.wf(),
        on_course(prepared, slots, counts, at),
        at < prepared.nodes().len(),
        prepared.operation_at(at) matches Some(operation) && bound_values(operation).contains(
            value,
        ),
    ensures
        node_position(prepared.nodes(), value) matches Some(i) && 0 <= i < at && slots[i] is Some,
{
    let operation = prepared.operation_at(at)->Some_0;
    prepared.lemma_bound_is_read(at, value);
    let i = prepared.lemma_read_is_earlier(at, value);
    lemma_occurrences_bound(operation.reads(), value);
    prepared.lemma_uses_left(i, at);
    assert(counts[i] == prepared.use_counts@[i] - prepared.uses_before(at, value));
    assert(slots[i] is Some);
}

/// Everything that a scheduled node binds, and everything whose use it ends, is the value of an
/// earlier node.
pub proof fn law_values_are_located(
    prepared: RocmPreparedTensorGraph<'_>,
    at: int,
    value: ValueId,
)
    requires
        prepared.wf(),
        0 <= at < prepared.nodes().len(),
        prepared.operation_at(at) matches Some(operation) && (bound_values(operation).contains(
            value,
        ) || used_values(operation).contains(value)),
    ensures
        node_position(prepared.nodes(), value) matches Some(i) && 0 <= i < at,
{
    let operation = prepared.operation_at(at)->Some_0;
    prepared.lemma_own_operation(at);
    lemma_uses_are_reads(operation, value);
    lemma_occurrences_bound(operation.reads(), value);
    lemma_occurrences_bound(used_values(operation), value);
    if bound_values(operation).contains(value) {
        prepared.lemma_bound_is_read(at, value);
    }
    let _ = prepared.lemma_read_is_earlier(at, value);
}

/// No value that a scheduled node binds or ends the use of is without a node.
pub proof fn lemma_operands_are_located(prepared: RocmPreparedTensorGraph<'_>, at: int)
    requires
        prepared.wf(),
        0 <= at < prepared.nodes().len(),
        prepared.operation_at(at) is Some,
    ensures
        forall|value: ValueId|
            !#[trigger] first_unlocated(
                prepared.nodes(),
                bound_values(prepared.operation_at(at)->Some_0),
                value,
            ),
        forall|value: ValueId|
            !#[trigger] first_unlocated(
                prepared.nodes(),
                used_values(prepared.operation_at(at)->Some_0),
                value,
            ),
{
    let (nodes, operation) = (prepared.nodes(), prepared.operation_at(at)->Some_0);
    assert forall|value: ValueId|
        !(#[trigger] first_unlocated(nodes, bound_values(operation), value)) by {
        if first_unlocated(nodes, bound_values(operation), value) {
            assert(bound_values(operation).contains(value));
            law_values_are_located(prepared, at, value);
        }
    }
    assert forall|value: ValueId|
        !(#[trigger] first_unlocated(nodes, used_values(operation), value)) by {
        if first_unlocated(nodes, used_values(operation), value) {
            assert(used_values(operation).contains(value));
            law_values_are_located(prepared, at, value);
        }
    }
}

/// Completing a scheduled node releases no more than there is, and keeps an execution on course.
pub proof fn law_completed_nodes_stay_on_course(
    prepared: RocmPreparedTensorGraph<'_>,
    slots: Seq<Option<usize>>,
    counts: Seq<usize>,
    at: int,
    releases: Seq<usize>,
    handle: usize,
)
    requires
        prepared.wf(),
        on_course(prepared, slots, counts, at),
        at < prepared.nodes().len(),
        prepared.operation_at(at) matches Some(operation) && locates(
            prepared.nodes(),
            used_values(operation),
            releases,
        ),
    ensures
        released(slots.update(at, Some(handle)), counts, releases) matches Some(after)
            && on_course(prepared, after.0, after.1, at + 1),
{
    let operation = prepared.operation_at(at)->Some_0;
    let nodes = prepared.nodes();
    let values = used_values(operation);
    let stored = slots.update(at, Some(handle));
    prepared.lemma_own_operation(at);
    assert forall|k: int| 0 <= k < releases.len() implies (#[trigger] releases[k])
        < counts.len() by {
        assert(node_position(nodes, values[k]) == Some(releases[k] as int));
        lemma_position_found(nodes, values[k]);
    }
    assert forall|i: int| 0 <= i < nodes.len() implies {
        let reads = occurrences(operation.reads(), (#[trigger] nodes[i]).value);
        &&& tally(releases, i) == reads
        &&& reads > 0 ==> i < at && prepared.operation_at(i) is Some
        &&& prepared.uses_before(at + 1, nodes[i].value) == prepared.uses_before(
            at,
            nodes[i].value,
        ) + reads
        &&& prepared.operation_at(i) is Some ==> counts[i] == prepared.use_counts@[i]
            - prepared.uses_before(at, nodes[i].value) && reads <= counts[i]
    } by {
        let value = nodes[i].value;
        prepared.lemma_tally(values, releases, i);
        lemma_uses_are_reads(operation, value);
        lemma_occurrences_bound(operation.reads(), value);
        if operation.reads().contains(value) {
            let j = prepared.lemma_read_is_earlier(at, value);
            prepared.lemma_position(i);
        }
        prepared.lemma_uses_step(at, value);
        if prepared.operation_at(i) is Some {
            prepared.lemma_uses_left(i, at);
            assert(counts[i] == prepared.use_counts@[i] - prepared.uses_before(at, value));
        }
    }
    assert forall|i: int| 0 <= i < counts.len() implies tally(releases, i)
        <= #[trigger] counts[i] by {
        let _ = nodes[i].value;
    }
    lemma_released(stored, counts, releases);
    let after = released(stored, counts, releases)->Some_0;
    assert forall|i: int|
        0 <= i < after.1.len() && prepared.operation_at(i) is Some implies #[trigger] after.1[i]
        == prepared.use_counts@[i] - prepared.uses_before(at + 1, nodes[i].value) by {
        let _ = nodes[i].value;
    }
    assert forall|i: int| 0 <= i < after.0.len() implies ((#[trigger] after.0[i]) is Some <==> i
        < at + 1 && prepared.operation_at(i) is Some && !(after.1[i] == 0
        && prepared.use_counts@[i] > 0)) by {
        let value = nodes[i].value;
        assert(after.1[i] == counts[i] - tally(releases, i));
        if i == at {
            prepared.lemma_unread_before(at, at);
        } else {
            assert(stored[i] == slots[i]);
            assert(slots[i] is Some <==> i < at && prepared.operation_at(i) is Some && !(counts[i]
                == 0 && prepared.use_counts@[i] > 0));
        }
    }
}

/// At the end every requested output has a resource, and of the other values those that were used
/// have none.
pub proof fn law_requested_outputs_are_left(
    prepared: RocmPreparedTensorGraph<'_>,
    slots: Seq<Option<usize>>,
    counts: Seq<usize>,
)
    requires
        prepared.wf(),
        on_course(prepared, slots, counts, prepared.nodes().len() as int),
    ensures
        forall|k: int|
            0 <= k < prepared.outputs@.len() ==> (node_position(
                prepared.nodes(),
                #[trigger] prepared.outputs@[k],
            ) matches Some(i) && 0 <= i < slots.len() && slots[i] is Some),
        forall|i: int|
            0 <= i < slots.len() && !prepared.outputs@.contains(prepared.nodes()[i].value)
                && prepared.use_counts@[i] > 0 ==> (#[trigger] slots[i]) is None,
{
    let nodes = prepared.nodes();
    let outputs = prepared.outputs@;
    assert forall|i: int| 0 <= i < nodes.len() && prepared.operation_at(i) is Some implies counts[i]
        == occurrences(outputs, (#[trigger] nodes[i]).value) by {
        prepared.lemma_scheduled(i);
        prepared.lemma_all_uses(nodes[i].value);
        assert(counts[i] == prepared.use_counts@[i] - prepared.uses_before(
            nodes.len() as int,
            nodes[i].value,
        ));
    }
    assert forall|k: int| 0 <= k < outputs.len() implies (node_position(
        nodes,
        #[trigger] outputs[k],
    ) matches Some(i) && 0 <= i < slots.len() && slots[i] is Some) by {
        law_requested_outputs_stay_scheduled(
            prepared.lowering_plan,
            prepared.plan,
            prepared.rewriting,
            prepared.arithmetic,
            prepared.grouping,
            k,
        );
        let p = choose|p: int|
            0 <= p < prepared.lowering_plan.operations@.len() && (
            #[trigger] prepared.lowering_plan.operations@[p])@.output() == outputs[k];
        let i = prepared.lemma_operation_position(p);
        prepared.lemma_position(i);
        assert(outputs.contains(outputs[k]));
        lemma_occurrences_bound(outputs, outputs[k]);
        assert(counts[i] == occurrences(outputs, nodes[i].value));
        assert(slots[i] is Some);
    }
    assert forall|i: int|
        0 <= i < slots.len() && !outputs.contains(nodes[i].value) && prepared.use_counts@[i]
            > 0 implies (#[trigger] slots[i]) is None by {
        lemma_occurrences_bound(outputs, nodes[i].value);
        if prepared.operation_at(i) is Some {
            assert(counts[i] == occurrences(outputs, nodes[i].value));
        }
    }
}

impl<'graph> RocmPreparedTensorGraph<'graph> {
    proof fn lemma_nothing_is_missing(&self, values: Seq<ValueId>)
        requires
            forall|i: int|
                0 <= i < values.len() ==> node_position(self.nodes(), #[trigger] values[i]) is Some,
        ensures
            self.missing_node(values) is None,
        decreases values.len(),
    {
        if values.len() > 0 {
            let rest = values.drop_last();
            assert forall|i: int| 0 <= i < rest.len() implies node_position(
                self.nodes(),
                #[trigger] rest[i],
            ) is Some by {
                assert(rest[i] == values[i]);
            }
            self.lemma_nothing_is_missing(rest);
            assert(node_position(self.nodes(), values[values.len() - 1]) is Some);
        }
    }
}

/// Every node of a plan that a session runs can be planned, once its inputs are handed in: what
/// can still fail is up to the device.
pub proof fn law_accepted_nodes_can_be_planned(
    prepared: RocmPreparedTensorGraph<'_>,
    assessor: RocmTensorAssessor,
    host: Seq<(ValueId, Tensor)>,
    inputs: Seq<(ValueId, &RocmTensorInput)>,
    at: int,
    error: RocmTensorExecutionError,
)
    requires
        prepared.wf(),
        0 <= at < prepared.nodes().len(),
        prepared.operation_at(at) is Some,
        assessor.runs(*prepared.graph, prepared.nodes()[at]),
        prepared.nodes()[at].op is Input ==> supplied(host, prepared.nodes()[at].value) || resident(
            inputs,
            prepared.nodes()[at].value,
        ),
    ensures
        !node_fails(prepared, host, inputs, at, prepared.operation_at(at)->Some_0, error),
        prepared.request_for(prepared.operation_at(at)->Some_0) is Ok,
{
    let operation = prepared.operation_at(at)->Some_0;
    let node = prepared.nodes()[at];
    let nodes = prepared.nodes();
    lemma_group_node(
        prepared.lowering_plan,
        prepared.plan,
        prepared.rewriting,
        prepared.arithmetic,
        prepared.grouping,
        at,
    );
    let bound = bound_values(operation);
    assert forall|i: int| 0 <= i < bound.len() implies node_position(
        nodes,
        #[trigger] bound[i],
    ) is Some by {
        assert(bound.contains(bound[i]));
        law_values_are_located(prepared, at, bound[i]);
    }
    prepared.lemma_nothing_is_missing(bound);
    law_smaller_unit_fits(1, 4, node.shape@);
}

} // verus!
