//! What holds of every group of a selection.
use vstd::prelude::*;

use super::closed_operations::{
    lemma_bounded_chain, lemma_link, lemma_links_are_binary, lemma_mul_chain,
};
use super::descriptor::{consumes, node_models, node_steps, NodeModel};
use super::error::ValueId;
use super::graph::node_wf;
use super::groups::{
    assembled, bounded_wf, lemma_assembled, mul_wf, refers_back, resolved, ChainKind,
    TensorPointwiseGroupingPolicy, TensorPointwiseMulStep, TensorPointwiseOperand,
    MAX_BOUNDED_POINTWISE_LEAVES, MAX_BOUNDED_POINTWISE_STEPS,
};
use super::lowering::{
    bounded_hides, hidden, mul_hides, mul_pairs, operation_for, operation_models, step_pairs,
    TensorSelectedLoweringPlan,
};
use super::lowering_laws::{lemma_operation_output, lemma_requested_is_not_hidden};
use super::plan::TensorExecutionPlan;
use super::rewrite::{
    lemma_rewritten_sound, lemma_without_orphans_sound, orphaned, rewritten, rewritten_node,
    TensorArithmeticCapability, TensorArithmeticRewritePolicy,
};
use super::schedule::{lemma_occurrences_bound, read_count, use_count};

verus! {

/// The operand at a place, when the two operands of each instruction are read in order.
pub open spec fn operand_at(
    pairs: Seq<(TensorPointwiseOperand, TensorPointwiseOperand)>,
    place: int,
) -> TensorPointwiseOperand {
    if place % 2 == 0 {
        pairs[place / 2].0
    } else {
        pairs[place / 2].1
    }
}

/// A leaf is read before a place.
pub open spec fn read_before(
    pairs: Seq<(TensorPointwiseOperand, TensorPointwiseOperand)>,
    leaf: int,
    end: int,
) -> bool {
    exists|place: int|
        0 <= place < end && #[trigger] operand_at(pairs, place) == TensorPointwiseOperand::Leaf(
            leaf as usize,
        )
}

/// Leaves are numbered in the order in which they are first used, and all of them are used.
pub open spec fn in_first_use_order(
    pairs: Seq<(TensorPointwiseOperand, TensorPointwiseOperand)>,
    leaves: nat,
) -> bool {
    let end = 2 * pairs.len() as int;
    &&& forall|leaf: int| 0 <= leaf < leaves ==> #[trigger] read_before(pairs, leaf, end)
    &&& forall|place: int|
        0 <= place < end ==> (#[trigger] operand_at(
            pairs,
            place,
        ) matches TensorPointwiseOperand::Leaf(leaf) ==> leaf < leaves && (leaf > 0 ==> read_before(
            pairs,
            leaf - 1,
            place,
        )))
}

/// What was read before one place was read before a later one, also in a longer list.
proof fn lemma_still_read(
    pairs: Seq<(TensorPointwiseOperand, TensorPointwiseOperand)>,
    grown: Seq<(TensorPointwiseOperand, TensorPointwiseOperand)>,
    leaf: int,
    end: int,
    later: int,
)
    requires
        read_before(pairs, leaf, end),
        0 <= end <= later,
        end <= 2 * pairs.len(),
        pairs.len() <= grown.len(),
        forall|i: int| 0 <= i < pairs.len() ==> #[trigger] grown[i] == pairs[i],
    ensures
        read_before(grown, leaf, later),
{
    let place = choose|place: int|
        0 <= place < end && #[trigger] operand_at(pairs, place) == TensorPointwiseOperand::Leaf(
            leaf as usize,
        );
    assert(grown[place / 2] == pairs[place / 2]);
    assert(operand_at(grown, place) == operand_at(pairs, place));
}

/// The leaves of a chain are numbered in the order in which its links first use them.
proof fn lemma_first_use_order(
    nodes: Seq<NodeModel<'_>>,
    table: Seq<usize>,
    links: Seq<usize>,
    count: int,
)
    requires
        0 <= count <= links.len() <= MAX_BOUNDED_POINTWISE_STEPS,
        forall|i: int|
            0 <= i < links.len() ==> consumes(nodes[(#[trigger] links[i]) as int].op).len() == 2,
    ensures
        assembled(nodes, table, links, count) matches Some((leaves, steps))
            ==> in_first_use_order(mul_pairs(steps), leaves.len()) && (count > 0 ==> leaves.len()
            > 0),
    decreases count,
{
    if count > 0 {
        lemma_first_use_order(nodes, table, links, count - 1);
        lemma_assembled(nodes, table, links, count - 1);
        if let Some((leaves, steps)) = assembled(nodes, table, links, count - 1) {
            let node = nodes[links[count - 1] as int];
            let done = links.take(count - 1);
            let (left, more) = resolved(table, done, leaves, consumes(node.op)[0]);
            let (right, most) = resolved(table, done, more, consumes(node.op)[1]);
            if most.len() <= MAX_BOUNDED_POINTWISE_LEAVES {
                let grown = steps.push(
                    TensorPointwiseMulStep { output: node.value, left, right },
                );
                let (pairs, longer) = (mul_pairs(steps), mul_pairs(grown));
                let first = 2 * pairs.len() as int;
                let second = first + 1;
                let end = 2 * longer.len() as int;
                assert(longer.len() == pairs.len() + 1);
                assert forall|i: int| 0 <= i < pairs.len() implies #[trigger] longer[i]
                    == pairs[i] by {}
                assert(longer[pairs.len() as int] == (left, right));
                assert(first / 2 == pairs.len() && first % 2 == 0);
                assert((second) / 2 == pairs.len() && (second) % 2 == 1);
                assert(operand_at(longer, first) == left);
                assert(operand_at(longer, second) == right);
                if count == 1 {
                    assert(done.len() == 0);
                }
                assert forall|leaf: int| 0 <= leaf < leaves.len() implies #[trigger] read_before(
                    longer,
                    leaf,
                    first,
                ) by {
                    assert(read_before(pairs, leaf, 2 * pairs.len() as int));
                    lemma_still_read(pairs, longer, leaf, first, first);
                }
                assert forall|leaf: int| 0 <= leaf < more.len() implies #[trigger] read_before(
                    longer,
                    leaf,
                    second,
                ) by {
                    if leaf < leaves.len() {
                        assert(read_before(longer, leaf, first));
                        lemma_still_read(longer, longer, leaf, first, second);
                    } else {
                        assert(operand_at(longer, first) == TensorPointwiseOperand::Leaf(
                            leaf as usize,
                        ));
                    }
                }
                assert forall|leaf: int| 0 <= leaf < most.len() implies #[trigger] read_before(
                    longer,
                    leaf,
                    end,
                ) by {
                    if leaf < more.len() {
                        assert(read_before(longer, leaf, second));
                        lemma_still_read(longer, longer, leaf, second, end);
                    } else {
                        assert(operand_at(longer, second) == TensorPointwiseOperand::Leaf(
                            leaf as usize,
                        ));
                    }
                }
                assert forall|place: int| 0 <= place < end implies (
                #[trigger] operand_at(
                    longer,
                    place,
                ) matches TensorPointwiseOperand::Leaf(leaf) ==> leaf < most.len() && (leaf > 0
                    ==> read_before(longer, leaf - 1, place))) by {
                    if let TensorPointwiseOperand::Leaf(leaf) = operand_at(longer, place) {
                        if place < first {
                            assert(longer[place / 2] == pairs[place / 2]);
                            assert(operand_at(pairs, place) == operand_at(longer, place));
                            if leaf > 0 {
                                lemma_still_read(pairs, longer, leaf - 1, place, place);
                            }
                        } else if place == first {
                            if leaf > 0 {
                                assert(read_before(longer, leaf - 1, first));
                            }
                        } else {
                            if leaf > 0 {
                                assert(read_before(longer, leaf - 1, second));
                            }
                        }
                    }
                }
            }
        }
    }
}

/// A node of the selection computes `value` in this shape.
pub open spec fn computed_in_shape(
    lowering: TensorSelectedLoweringPlan<'_>,
    value: ValueId,
    shape: Seq<usize>,
) -> bool {
    exists|p: int|
        0 <= p < lowering.nodes@.len() && (#[trigger] lowering.nodes@[p]).value == value
            && lowering.nodes@[p].shape@ == shape
}

/// The value exists only inside a group: it is not requested, one operand reads it, and no
/// operation of the schedule produces it.
pub open spec fn kept_inside(lowering: TensorSelectedLoweringPlan<'_>, value: ValueId) -> bool {
    &&& !lowering.output_values@.contains(value)
    &&& read_count(lowering.steps(), value) == 1
    &&& forall|p: int|
        0 <= p < lowering.operation_steps().len() ==> (
        #[trigger] lowering.operation_steps()[p]).value != value
}

/// The operands of an Add, Sub or Mul of the selection have its shape.
proof fn lemma_operand_shapes(
    plan: TensorExecutionPlan<'_>,
    policy: TensorArithmeticRewritePolicy,
    target: TensorArithmeticCapability,
    p: int,
    k: int,
)
    requires
        plan.wf(),
        0 <= p < plan.selected_nodes(policy, target).len(),
        ({
            let op = plan.selected_nodes(policy, target)[p].op;
            (op is Add || op is Sub || op is Mul) && 0 <= k < consumes(op).len()
        }),
    ensures
        plan.graph.shape_of(consumes(plan.selected_nodes(policy, target)[p].op)[k])
            == plan.selected_nodes(policy, target)[p].shape,
{
    let nodes = plan.node_models();
    let candidates = plan.candidates(policy, target);
    let kept = rewritten(candidates, nodes);
    let node = plan.selected_nodes(policy, target)[p];
    assert(plan.selected_nodes(policy, target).contains(node));
    if candidates.len() > 0 {
        let keep = |node: NodeModel<'_>|
            if orphaned(kept, plan.output_values@, node) {
                None
            } else {
                Some(node)
            };
        kept.lemma_filter_map_contains(keep, node);
    }
    assert(kept.contains(node));
    let change = |node: NodeModel<'_>| rewritten_node(candidates, node);
    nodes.lemma_filter_map_contains(change, node);
    let source = choose|source: NodeModel<'_>| #[trigger]
        nodes.contains(source) && change(source) == Some(node);
    let at = nodes.index_of(source);
    assert(source == node);
    let graph = *plan.graph;
    let place = plan.node_order@[at].index as int;
    assert(graph.knows(plan.node_order@[at]));
    assert(node == graph.node_at(place));
    assert(node_wf(graph.id, graph.nodes@, place));
}

/// What a link of a chain computes stays inside its group, unless it is the group's result.
proof fn lemma_kept_inside(
    lowering: TensorSelectedLoweringPlan<'_>,
    plan: TensorExecutionPlan<'_>,
    policy: TensorArithmeticRewritePolicy,
    target: TensorArithmeticCapability,
    grouping: TensorPointwiseGroupingPolicy,
    at: int,
)
    requires
        plan.wf(),
        lowering.wf(),
        lowering.selects(plan, policy, target, grouping),
        0 <= at < lowering.nodes@.len(),
        lowering.use_counts@[at] == 1,
        hidden(lowering.groups(), lowering.nodes@[at].value),
    ensures
        kept_inside(lowering, lowering.nodes@[at].value),
{
    let graph = *plan.graph;
    let nodes = plan.selected_nodes(policy, target);
    let groups = lowering.groups();
    let candidates = plan.candidates(policy, target);
    lemma_rewritten_sound(plan, policy, target);
    lemma_without_orphans_sound(
        graph,
        candidates,
        rewritten(candidates, plan.node_models()),
        plan.output_values@,
    );
    assert(nodes[at] == lowering.nodes@[at]@);
    let value = nodes[at].value;
    if lowering.output_values@.contains(value) {
        lemma_requested_is_not_hidden(
            graph,
            nodes,
            lowering.index_by_value@,
            lowering.use_counts@,
            plan.output_values@,
            grouping,
            value,
        );
    }
    let steps = node_steps(nodes);
    assert(steps[at].value == value);
    assert(lowering.use_counts@[at] == use_count(steps, plan.output_values@, value));
    lemma_occurrences_bound(plan.output_values@, value);
    let operations = operation_models(lowering.operations@);
    let choice = |node: NodeModel<'_>| operation_for(groups, node);
    assert forall|p: int| 0 <= p < lowering.operation_steps().len() implies (
    #[trigger] lowering.operation_steps()[p]).value != value by {
        let operation = operations[p];
        assert(operations.contains(operation));
        nodes.lemma_filter_map_contains(choice, operation);
        let node = choose|node: NodeModel<'_>| #[trigger]
            nodes.contains(node) && choice(node) == Some(operation);
        lemma_operation_output(groups, node);
    }
}

/// The invariant of the Add/Sub groups of a selection.
///
/// A group has as many instructions as its policy allows and at most four different leaves, which
/// are numbered in the order of their first use. Instructions refer to leaves and to earlier
/// instructions only. Every leaf, every instruction's result and the group's result have the
/// group's shape. What an instruction computes on the way to the result is not requested, is read
/// once, and is not scheduled.
pub proof fn law_add_sub_groups_are_self_contained(
    lowering: TensorSelectedLoweringPlan<'_>,
    plan: TensorExecutionPlan<'_>,
    policy: TensorArithmeticRewritePolicy,
    target: TensorArithmeticCapability,
    grouping: TensorPointwiseGroupingPolicy,
    g: int,
)
    requires
        plan.wf(),
        lowering.wf(),
        lowering.selects(plan, policy, target, grouping),
        0 <= g < lowering.groups().bounded.len(),
    ensures
        ({
            let group = lowering.groups().bounded[g];
            &&& bounded_wf(group)
            &&& 0 < group.leaves.len()
            &&& in_first_use_order(step_pairs(group.steps), group.leaves.len())
            &&& computed_in_shape(lowering, group.output, group.shape)
            &&& forall|l: int|
                0 <= l < group.leaves.len() ==> plan.graph.shape_of(#[trigger] group.leaves[l])
                    == group.shape
            &&& forall|i: int|
                0 <= i < group.steps.len() ==> computed_in_shape(
                    lowering,
                    (#[trigger] group.steps[i]).output,
                    group.shape,
                )
            &&& forall|i: int|
                0 <= i < group.steps.len() && (#[trigger] group.steps[i]).output != group.output
                    ==> kept_inside(lowering, group.steps[i].output)
        }),
{
    let graph = *plan.graph;
    let nodes = plan.selected_nodes(policy, target);
    let (table, counts) = (lowering.index_by_value@, lowering.use_counts@);
    let outputs = plan.output_values@;
    let groups = lowering.groups();
    let candidates = plan.candidates(policy, target);
    lemma_rewritten_sound(plan, policy, target);
    lemma_without_orphans_sound(
        graph,
        candidates,
        rewritten(candidates, plan.node_models()),
        outputs,
    );
    let group = groups.bounded[g];
    assert(groups.bounded.contains(group));
    let (r, root, links) = lemma_bounded_chain(
        graph,
        nodes,
        table,
        counts,
        outputs,
        grouping,
        group,
    );
    let kind = ChainKind::AddSub;
    lemma_links_are_binary(kind, nodes, table, counts, group.shape, root, links);
    lemma_assembled(nodes, table, links, links.len() as int);
    lemma_first_use_order(nodes, table, links, links.len() as int);
    let steps = assembled(nodes, table, links, links.len() as int)->Some_0.1;
    assert(nodes[r] == lowering.nodes@[r]@);
    assert forall|i: int| 0 <= i < group.steps.len() implies refers_back(
        (#[trigger] group.steps[i]).left,
        group.leaves.len(),
        i as nat,
    ) && refers_back(group.steps[i].right, group.leaves.len(), i as nat) by {
        assert(step_pairs(group.steps)[i] == mul_pairs(steps)[i]);
        assert(steps[i].output == nodes[links[i] as int].value);
    }
    assert forall|l: int| 0 <= l < group.leaves.len() implies plan.graph.shape_of(
        #[trigger] group.leaves[l],
    ) == group.shape by {
        let i = choose|i: int|
            0 <= i < links.len() && consumes(nodes[(#[trigger] links[i]) as int].op).contains(
                group.leaves[l],
            );
        lemma_link(kind, nodes, table, counts, group.shape, root, links, i);
        let k = consumes(nodes[links[i] as int].op).index_of(group.leaves[l]);
        lemma_operand_shapes(plan, policy, target, links[i] as int, k);
    }
    assert forall|i: int| 0 <= i < group.steps.len() implies computed_in_shape(
        lowering,
        (#[trigger] group.steps[i]).output,
        group.shape,
    ) by {
        lemma_link(kind, nodes, table, counts, group.shape, root, links, i);
        assert(nodes[links[i] as int] == lowering.nodes@[links[i] as int]@);
    }
    assert forall|i: int|
        0 <= i < group.steps.len() && (#[trigger] group.steps[i]).output
            != group.output implies kept_inside(lowering, group.steps[i].output) by {
        lemma_link(kind, nodes, table, counts, group.shape, root, links, i);
        assert(nodes[links[i] as int] == lowering.nodes@[links[i] as int]@);
        assert(bounded_hides(groups.bounded[g], group.steps[i].output));
        assert(counts[links[i] as int] == 1);
        lemma_kept_inside(lowering, plan, policy, target, grouping, links[i] as int);
    }
    assert(bounded_wf(group));
}

/// The invariant of the Mul groups of a selection, which is that of the Add/Sub groups.
pub proof fn law_mul_groups_are_self_contained(
    lowering: TensorSelectedLoweringPlan<'_>,
    plan: TensorExecutionPlan<'_>,
    policy: TensorArithmeticRewritePolicy,
    target: TensorArithmeticCapability,
    grouping: TensorPointwiseGroupingPolicy,
    g: int,
)
    requires
        plan.wf(),
        lowering.wf(),
        lowering.selects(plan, policy, target, grouping),
        0 <= g < lowering.groups().muls.len(),
    ensures
        ({
            let group = lowering.groups().muls[g];
            &&& mul_wf(group)
            &&& 0 < group.leaves.len()
            &&& in_first_use_order(mul_pairs(group.steps), group.leaves.len())
            &&& computed_in_shape(lowering, group.output, group.shape)
            &&& forall|l: int|
                0 <= l < group.leaves.len() ==> plan.graph.shape_of(#[trigger] group.leaves[l])
                    == group.shape
            &&& forall|i: int|
                0 <= i < group.steps.len() ==> computed_in_shape(
                    lowering,
                    (#[trigger] group.steps[i]).output,
                    group.shape,
                )
            &&& forall|i: int|
                0 <= i < group.steps.len() && (#[trigger] group.steps[i]).output != group.output
                    ==> kept_inside(lowering, group.steps[i].output)
        }),
{
    let graph = *plan.graph;
    let nodes = plan.selected_nodes(policy, target);
    let (table, counts) = (lowering.index_by_value@, lowering.use_counts@);
    let outputs = plan.output_values@;
    let groups = lowering.groups();
    let candidates = plan.candidates(policy, target);
    lemma_rewritten_sound(plan, policy, target);
    lemma_without_orphans_sound(
        graph,
        candidates,
        rewritten(candidates, plan.node_models()),
        outputs,
    );
    let group = groups.muls[g];
    assert(groups.muls.contains(group));
    let links = lemma_mul_chain(graph, nodes, table, counts, outputs, grouping, group);
    let kind = ChainKind::Mul;
    lemma_links_are_binary(kind, nodes, table, counts, group.shape, group.output, links);
    lemma_assembled(nodes, table, links, links.len() as int);
    lemma_first_use_order(nodes, table, links, links.len() as int);
    let last = links.len() - 1;
    lemma_link(kind, nodes, table, counts, group.shape, group.output, links, last);
    assert(nodes[links[last] as int] == lowering.nodes@[links[last] as int]@);
    assert forall|l: int| 0 <= l < group.leaves.len() implies plan.graph.shape_of(
        #[trigger] group.leaves[l],
    ) == group.shape by {
        let i = choose|i: int|
            0 <= i < links.len() && consumes(nodes[(#[trigger] links[i]) as int].op).contains(
                group.leaves[l],
            );
        lemma_link(kind, nodes, table, counts, group.shape, group.output, links, i);
        let k = consumes(nodes[links[i] as int].op).index_of(group.leaves[l]);
        lemma_operand_shapes(plan, policy, target, links[i] as int, k);
    }
    assert forall|i: int| 0 <= i < group.steps.len() implies computed_in_shape(
        lowering,
        (#[trigger] group.steps[i]).output,
        group.shape,
    ) by {
        lemma_link(kind, nodes, table, counts, group.shape, group.output, links, i);
        assert(nodes[links[i] as int] == lowering.nodes@[links[i] as int]@);
    }
    assert forall|i: int|
        0 <= i < group.steps.len() && (#[trigger] group.steps[i]).output
            != group.output implies kept_inside(lowering, group.steps[i].output) by {
        lemma_link(kind, nodes, table, counts, group.shape, group.output, links, i);
        assert(nodes[links[i] as int] == lowering.nodes@[links[i] as int]@);
        assert(mul_hides(groups.muls[g], group.steps[i].output));
        lemma_kept_inside(lowering, plan, policy, target, grouping, links[i] as int);
    }
}

} // verus!
