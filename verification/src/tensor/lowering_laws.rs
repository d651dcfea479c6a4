//! What holds of every selected lowering.
use vstd::prelude::*;

use super::descriptor::{consumes, node_models, node_steps, NodeModel};
use super::error::ValueId;
use super::graph::Graph;
use super::groups::{
    add_relu_group, assembled, chain, group_links, groups_of, identity_group, inner_link,
    lemma_assembled, lemma_chain_falls, lookup, mul_group, relu_group, searchable, ChainKind,
    GroupsModel, TensorPointwiseGroupingPolicy, MAX_BOUNDED_POINTWISE_STEPS,
};
use super::lowering::{
    bounded_hides, hidden, mul_hides, operation_for, operation_models, operation_steps, scheduled,
    tabulated, OperationModel, TensorSelectedLoweringPlan,
};
use super::plan::{law_outputs_are_pinned, liveness_at, TensorExecutionPlan};
use super::rewrite::{
    lemma_rewritten_sound, lemma_without_orphans_sound, omitted, orphaned, rewrites_enabled,
    rewritten, rewritten_node, sound_nodes, TensorArithmeticCapability,
    TensorArithmeticRewritePolicy,
};
use super::schedule::{indexes, lemma_occurrences_bound, read_count, use_count, StepModel};

verus! {

/// What a selection makes of a kept item is in its result.
pub proof fn lemma_filter_map_holds<A, B>(items: Seq<A>, f: spec_fn(A) -> Option<B>, at: int)
    requires
        0 <= at < items.len(),
        f(items[at]) is Some,
    ensures
        items.filter_map(f).contains(f(items[at])->Some_0),
    decreases items.len(),
{
    let rest = items.drop_last();
    let all = items.filter_map(f);
    if at == items.len() - 1 {
        assert(all.last() == f(items[at])->Some_0);
    } else {
        lemma_filter_map_holds(rest, f, at);
        let wanted = f(items[at])->Some_0;
        assert(rest[at] == items[at]);
        let k = rest.filter_map(f).index_of(wanted);
        assert(all[k] == wanted);
    }
}

/// A selection that keeps everything as it is changes nothing.
proof fn lemma_filter_map_keeps<A>(items: Seq<A>, f: spec_fn(A) -> Option<A>)
    requires
        forall|i: int| 0 <= i < items.len() ==> #[trigger] f(items[i]) == Some(items[i]),
    ensures
        items.filter_map(f) == items,
    decreases items.len(),
{
    if items.len() > 0 {
        let rest = items.drop_last();
        assert forall|i: int| 0 <= i < rest.len() implies #[trigger] f(rest[i]) == Some(
            rest[i],
        ) by {
            assert(rest[i] == items[i]);
        }
        lemma_filter_map_keeps(rest, f);
        assert(f(items[items.len() - 1]) == Some(items[items.len() - 1]));
        assert(items.filter_map(f) =~= items);
    } else {
        assert(items.filter_map(f) =~= items);
    }
}

/// Without rewriting, the selected nodes are the planned ones and nothing is suppressed.
pub proof fn law_disabled_rewriting_keeps_every_node(
    plan: TensorExecutionPlan<'_>,
    policy: TensorArithmeticRewritePolicy,
    target: TensorArithmeticCapability,
)
    requires
        !rewrites_enabled(policy, target),
    ensures
        plan.candidates(policy, target).len() == 0,
        plan.suppressed(policy, target).len() == 0,
        plan.selected_nodes(policy, target) == plan.node_models(),
{
    let candidates = plan.candidates(policy, target);
    let nodes = plan.node_models();
    let change = |node: NodeModel<'_>| rewritten_node(candidates, node);
    assert(omitted(candidates).len() == 0);
    assert forall|i: int| 0 <= i < nodes.len() implies #[trigger] change(nodes[i]) == Some(
        nodes[i],
    ) by {}
    lemma_filter_map_keeps(nodes, change);
}

/// Without grouping, every selected node is an operation of its own.
pub proof fn law_disabled_grouping_schedules_every_node(
    lowering: TensorSelectedLoweringPlan<'_>,
    plan: TensorExecutionPlan<'_>,
    policy: TensorArithmeticRewritePolicy,
    target: TensorArithmeticCapability,
)
    requires
        lowering.selects(plan, policy, target, TensorPointwiseGroupingPolicy::Disabled),
    ensures
        lowering.operations@.len() == lowering.nodes@.len(),
        forall|p: int|
            0 <= p < lowering.nodes@.len() ==> (#[trigger] lowering.operations@[p])@
                == OperationModel::Node(lowering.nodes@[p]@),
        lowering.operation_steps() == lowering.steps(),
{
    let groups = lowering.groups();
    let nodes = node_models(lowering.nodes@);
    lemma_ungrouped(groups, nodes);
    let operations = operation_models(lowering.operations@);
    assert(operations.len() == nodes.len());
    assert forall|p: int| 0 <= p < nodes.len() implies (#[trigger] lowering.operations@[p])@
        == OperationModel::Node(lowering.nodes@[p]@) by {
        assert(operations[p] == OperationModel::Node(nodes[p]));
        assert(operations[p] == lowering.operations@[p]@);
        assert(nodes[p] == lowering.nodes@[p]@);
    }
    assert forall|p: int| 0 <= p < nodes.len() implies operation_steps(operations)[p]
        == node_steps(nodes)[p] by {
        assert(operations[p] == OperationModel::Node(nodes[p]));
    }
    assert(operation_steps(operations) =~= node_steps(nodes));
}

proof fn lemma_ungrouped<'a>(groups: GroupsModel, nodes: Seq<NodeModel<'a>>)
    requires
        groups.pointwise.len() == 0,
        groups.bounded.len() == 0,
        groups.muls.len() == 0,
    ensures
        scheduled(groups, nodes) == nodes.map_values(
            |node: NodeModel<'a>| OperationModel::Node(node),
        ),
    decreases nodes.len(),
{
    let alone = |node: NodeModel<'a>| OperationModel::Node(node);
    if nodes.len() > 0 {
        lemma_ungrouped(groups, nodes.drop_last());
        assert(operation_for(groups, nodes.last()) == Some(alone(nodes.last())));
        assert(nodes.map_values(alone) =~= nodes.drop_last().map_values(alone) + seq![
            alone(nodes.last()),
        ]);
    } else {
        assert(scheduled(groups, nodes) =~= nodes.map_values(alone));
    }
}

/// Without rewriting, the selected schedule has the storage requirements of the plan.
pub proof fn law_strict_schedule_keeps_storage_requirements(
    lowering: TensorSelectedLoweringPlan<'_>,
    plan: TensorExecutionPlan<'_>,
    policy: TensorArithmeticRewritePolicy,
    target: TensorArithmeticCapability,
    grouping: TensorPointwiseGroupingPolicy,
)
    requires
        plan.wf(),
        lowering.selects(plan, policy, target, grouping),
        !rewrites_enabled(policy, target),
    ensures
        lowering.live_values() == plan.live_values(),
{
    law_disabled_rewriting_keeps_every_node(plan, policy, target);
    let nodes = plan.node_models();
    assert(node_models(lowering.nodes@) == nodes);
    assert(lowering.steps() == plan.steps());
    assert(plan.graph.nodes.len() == plan.graph.nodes@.len());
    assert forall|p: int| 0 <= p < nodes.len() implies #[trigger] lowering.live_values()[p]
        == plan.live_values()[p] by {
        assert(node_models(lowering.nodes@)[p] == lowering.nodes@[p]@);
        assert(plan.graph.knows(plan.node_order@[p]));
        assert(plan.value_liveness@[p] == liveness_at(
            *plan.graph,
            plan.node_order@,
            plan.steps(),
            plan.output_values@,
            p,
        ));
    }
    assert(lowering.nodes@.len() == node_models(lowering.nodes@).len());
    assert(lowering.live_values() =~= plan.live_values());
}

/// A value that some step reads is counted as read.
pub proof fn lemma_reader_counts(steps: Seq<StepModel>, at: int, value: ValueId)
    requires
        0 <= at < steps.len(),
        steps[at].reads.contains(value),
    ensures
        read_count(steps, value) >= 1,
    decreases steps.len(),
{
    lemma_occurrences_bound(steps.last().reads, value);
    if at < steps.len() - 1 {
        assert(steps.drop_last()[at] == steps[at]);
        lemma_reader_counts(steps.drop_last(), at, value);
    }
}

/// A value with one use that some step reads is not requested.
proof fn lemma_single_use_is_not_requested(
    steps: Seq<StepModel>,
    outputs: Seq<ValueId>,
    at: int,
    value: ValueId,
)
    requires
        0 <= at < steps.len(),
        steps[at].reads.contains(value),
        use_count(steps, outputs, value) == 1,
    ensures
        !outputs.contains(value),
{
    lemma_reader_counts(steps, at, value);
    lemma_occurrences_bound(outputs, value);
}

/// A requested value is not the product that a replacement omits.
proof fn lemma_requested_is_not_omitted(
    plan: TensorExecutionPlan<'_>,
    policy: TensorArithmeticRewritePolicy,
    target: TensorArithmeticCapability,
    value: ValueId,
)
    requires
        plan.wf(),
        plan.output_values@.contains(value),
    ensures
        !omitted(plan.candidates(policy, target)).contains(value),
{
    let candidates = plan.candidates(policy, target);
    if omitted(candidates).contains(value) {
        let k = omitted(candidates).index_of(value);
        let candidate = candidates[k];
        assert(candidates.contains(candidate));
        let choice = |value: ValueId| plan.candidate_for(value);
        plan.node_order@.lemma_filter_map_contains(choice, candidate);
        let source = choose|source: ValueId| #[trigger]
            plan.node_order@.contains(source) && choice(source) == Some(candidate);
        let p = plan.node_order@.index_of(source);
        assert(plan.graph.knows(plan.node_order@[p]));
        assert(plan.graph.nodes.len() == plan.graph.nodes@.len());
        let reads = plan.steps()[p].reads;
        assert(reads[1] == candidate.multiply);
        assert(reads.contains(candidate.multiply));
        lemma_single_use_is_not_requested(
            plan.steps(),
            plan.output_values@,
            p,
            candidate.multiply,
        );
    }
}

/// Arithmetic rewriting keeps every requested output.
pub proof fn law_rewriting_keeps_requested_outputs(
    plan: TensorExecutionPlan<'_>,
    policy: TensorArithmeticRewritePolicy,
    target: TensorArithmeticCapability,
    k: int,
)
    requires
        plan.wf(),
        0 <= k < plan.output_values@.len(),
    ensures
        exists|p: int|
            0 <= p < plan.selected_nodes(policy, target).len() && (
            #[trigger] plan.selected_nodes(policy, target)[p]).value == plan.output_values@[k],
{
    let output = plan.output_values@[k];
    let candidates = plan.candidates(policy, target);
    let planned = plan.node_models();
    let changed = rewritten(candidates, planned);
    let selected = plan.selected_nodes(policy, target);
    let outputs = plan.output_values@;
    law_outputs_are_pinned(plan, k);
    assert(outputs.contains(output));
    lemma_requested_is_not_omitted(plan, policy, target, output);
    let p = plan.index_by_value@[output.index as int] as int;
    assert(plan.graph.nodes.len() == plan.graph.nodes@.len());
    assert(planned[p].value == output);
    let change = |node: NodeModel<'_>| rewritten_node(candidates, node);
    lemma_filter_map_holds(planned, change, p);
    let node = change(planned[p])->Some_0;
    assert(node.value == output);
    assert(changed.contains(node));
    if candidates.len() > 0 {
        let q = changed.index_of(node);
        lemma_occurrences_bound(outputs, output);
        assert(!orphaned(changed, outputs, node));
        let keep = |node: NodeModel<'_>|
            if orphaned(changed, outputs, node) {
                None
            } else {
                Some(node)
            };
        assert(keep(changed[q]) == Some(node));
        lemma_filter_map_holds(changed, keep, q);
    }
    assert(selected.contains(node));
    let r = selected.index_of(node);
    assert(selected[r].value == output);
}

/// The node at position `q` has one use, and some node of the list reads it.
spec fn single_read(
    nodes: Seq<NodeModel<'_>>,
    table: Seq<usize>,
    counts: Seq<usize>,
    q: usize,
) -> bool {
    &&& counts[q as int] == 1
    &&& exists|r: int, j: int|
        0 <= r < nodes.len() && 0 <= j < consumes(nodes[r].op).len() && lookup(
            table,
            #[trigger] consumes(nodes[r].op)[j],
        ) == Some(q)
}

/// Every link of a chain but the first has one use, by another link.
proof fn lemma_chain_links_are_read(
    kind: ChainKind,
    nodes: Seq<NodeModel<'_>>,
    table: Seq<usize>,
    counts: Seq<usize>,
    shape: Seq<usize>,
    value: ValueId,
    single_use: bool,
    included: Seq<usize>,
)
    requires
        searchable(nodes, table, counts),
        included.len() > 0 ==> (lookup(table, value) matches Some(q) ==> single_read(
            nodes,
            table,
            counts,
            q,
        )),
        forall|i: int|
            0 < i < included.len() ==> single_read(nodes, table, counts, #[trigger] included[i]),
    ensures
        chain(kind, nodes, table, counts, shape, value, single_use, included) matches Some(links)
            ==> forall|i: int|
            0 < i < links.len() ==> single_read(nodes, table, counts, #[trigger] links[i]),
    decreases 9 - included.len(),
{
    if let Some(links) = chain(kind, nodes, table, counts, shape, value, single_use, included) {
        let at = lookup(table, value)->Some_0;
        let node = nodes[at as int];
        let grown = included.push(at);
        let left = consumes(node.op)[0];
        let right = consumes(node.op)[1];
        let left_link = inner_link(kind, nodes, table, shape, left);
        let left_free = left_link && counts[lookup(table, left)->Some_0 as int] == 1;
        let right_link = inner_link(kind, nodes, table, shape, right);
        let right_free = right_link && counts[lookup(table, right)->Some_0 as int] == 1;
        assert forall|i: int| 0 < i < grown.len() implies single_read(
            nodes,
            table,
            counts,
            #[trigger] grown[i],
        ) by {
            if i < included.len() {
                assert(grown[i] == included[i]);
            }
        }
        if left_free {
            assert(lookup(table, consumes(nodes[at as int].op)[0]) == lookup(table, left));
            assert(single_read(nodes, table, counts, lookup(table, left)->Some_0));
            lemma_chain_links_are_read(kind, nodes, table, counts, shape, left, true, grown);
        } else if right_free {
            assert(lookup(table, consumes(nodes[at as int].op)[1]) == lookup(table, right));
            assert(single_read(nodes, table, counts, lookup(table, right)->Some_0));
            lemma_chain_links_are_read(kind, nodes, table, counts, shape, right, true, grown);
        }
    }
}

/// The links of a group but its last have one use, by another link; the last one computes the
/// chain's root.
proof fn lemma_group_links_are_read(
    kind: ChainKind,
    nodes: Seq<NodeModel<'_>>,
    table: Seq<usize>,
    counts: Seq<usize>,
    shape: Seq<usize>,
    root: ValueId,
)
    requires
        searchable(nodes, table, counts),
    ensures
        group_links(kind, nodes, table, counts, shape, root) matches Some(links) ==> {
            &&& 1 <= links.len() <= MAX_BOUNDED_POINTWISE_STEPS
            &&& Some(links.last()) == lookup(table, root)
            &&& forall|i: int|
                0 <= i < links.len() - 1 ==> single_read(nodes, table, counts, #[trigger] links[i])
            &&& forall|i: int|
                0 <= i < links.len() ==> (#[trigger] links[i]) < nodes.len() && consumes(
                    nodes[links[i] as int].op,
                ).len() == 2
        },
{
    lemma_chain_falls(kind, nodes, table, counts, shape, root, false, Seq::empty());
    lemma_chain_links_are_read(kind, nodes, table, counts, shape, root, false, Seq::empty());
    if let Some(links) = group_links(kind, nodes, table, counts, shape, root) {
        let fallen = chain(
            kind,
            nodes,
            table,
            counts,
            shape,
            root,
            false,
            Seq::empty(),
        )->Some_0;
        assert(links == fallen.reverse());
        assert forall|i: int| 0 <= i < links.len() implies #[trigger] links[i] == fallen[
        fallen.len() - 1 - i] by {}
        assert forall|i: int| 0 <= i < links.len() - 1 implies single_read(
            nodes,
            table,
            counts,
            #[trigger] links[i],
        ) by {
            assert(single_read(nodes, table, counts, fallen[fallen.len() - 1 - i]));
        }
    }
}

/// Some step of the list of instructions computes `value` at a link of the chain.
pub proof fn lemma_step_is_link(
    nodes: Seq<NodeModel<'_>>,
    table: Seq<usize>,
    links: Seq<usize>,
    i: int,
)
    requires
        links.len() <= MAX_BOUNDED_POINTWISE_STEPS,
        forall|i: int|
            0 <= i < links.len() ==> consumes(nodes[(#[trigger] links[i]) as int].op).len() == 2,
        assembled(nodes, table, links, links.len() as int) is Some,
        0 <= i < links.len(),
    ensures
        assembled(nodes, table, links, links.len() as int)->Some_0.1.len() == links.len(),
        assembled(nodes, table, links, links.len() as int)->Some_0.1[i].output
            == nodes[links[i] as int].value,
{
    lemma_assembled(nodes, table, links, links.len() as int);
    let steps = assembled(nodes, table, links, links.len() as int)->Some_0.1;
    assert(steps[i].output == nodes[links[i] as int].value);
}

/// A node that a table finds is the one that was looked up.
pub proof fn lemma_found_value(graph: Graph, nodes: Seq<NodeModel<'_>>, table: Seq<usize>, value: ValueId)
    requires
        sound_nodes(graph, nodes),
        indexes(table, node_steps(nodes)),
        value.graph_id == graph.id,
        lookup(table, value) is Some,
    ensures
        nodes[lookup(table, value)->Some_0 as int].value == value,
{
    let q = lookup(table, value)->Some_0 as int;
    assert(table[value.index as int] == q);
    assert(node_steps(nodes)[q].value.index == value.index);
    assert(graph.knows(nodes[q].value));
}

/// A value whose node has one use that is a read is not requested.
proof fn lemma_single_read_is_not_requested(
    graph: Graph,
    nodes: Seq<NodeModel<'_>>,
    table: Seq<usize>,
    counts: Seq<usize>,
    outputs: Seq<ValueId>,
    q: usize,
)
    requires
        sound_nodes(graph, nodes),
        tabulated(node_steps(nodes), outputs, graph.id, table, counts),
        single_read(nodes, table, counts, q),
    ensures
        q < nodes.len(),
        !outputs.contains(nodes[q as int].value),
{
    let steps = node_steps(nodes);
    let (r, j) = choose|r: int, j: int|
        0 <= r < nodes.len() && 0 <= j < consumes(nodes[r].op).len() && lookup(
            table,
            #[trigger] consumes(nodes[r].op)[j],
        ) == Some(q);
    let operand = consumes(nodes[r].op)[j];
    assert(super::graph::precedes(graph.id, nodes[r].value.index as int, operand));
    lemma_found_value(graph, nodes, table, operand);
    assert(table[operand.index as int] == q);
    assert(steps[q as int].value.index == operand.index);
    assert(steps[r].reads[j] == operand);
    assert(steps[r].reads.contains(operand));
    assert(counts[q as int] == use_count(steps, outputs, steps[q as int].value));
    lemma_single_use_is_not_requested(steps, outputs, r, operand);
}

/// No group hides a requested value.
pub proof fn lemma_requested_is_not_hidden(
    graph: Graph,
    nodes: Seq<NodeModel<'_>>,
    table: Seq<usize>,
    counts: Seq<usize>,
    outputs: Seq<ValueId>,
    policy: TensorPointwiseGroupingPolicy,
    value: ValueId,
)
    requires
        sound_nodes(graph, nodes),
        tabulated(node_steps(nodes), outputs, graph.id, table, counts),
        outputs.contains(value),
    ensures
        !hidden(groups_of(nodes, table, counts, outputs, policy), value),
{
    super::groups::lemma_searchable(graph, nodes, table, counts);
    let groups = groups_of(nodes, table, counts, outputs, policy);
    assert forall|g: int| 0 <= g < groups.pointwise.len() implies (
    #[trigger] groups.pointwise[g]).add_output != value by {
        let group = groups.pointwise[g];
        let choice = |node: NodeModel<'_>| add_relu_group(nodes, table, counts, node);
        assert(groups.pointwise.contains(group));
        nodes.lemma_filter_map_contains(choice, group);
        let node = choose|node: NodeModel<'_>| #[trigger]
            nodes.contains(node) && choice(node) == Some(group);
        let r = nodes.index_of(node);
        assert(consumes(nodes[r].op)[0] == group.add_output);
        let q = lookup(table, group.add_output)->Some_0;
        assert(single_read(nodes, table, counts, q));
        lemma_single_read_is_not_requested(graph, nodes, table, counts, outputs, q);
        assert(super::graph::precedes(
            graph.id,
            nodes[r].value.index as int,
            consumes(nodes[r].op)[0],
        ));
        lemma_found_value(graph, nodes, table, group.add_output);
    }
    assert forall|g: int| 0 <= g < groups.bounded.len() implies !bounded_hides(
        #[trigger] groups.bounded[g],
        value,
    ) by {
        let group = groups.bounded[g];
        assert(groups.bounded.contains(group));
        if bounded_hides(group, value) {
            let i = choose|i: int|
                0 <= i < group.steps.len() && (#[trigger] group.steps[i]).output == value;
            if policy == TensorPointwiseGroupingPolicy::BoundedAddSubRelu {
                let choice = |node: NodeModel<'_>| relu_group(nodes, table, counts, node);
                nodes.lemma_filter_map_contains(choice, group);
                let node = choose|node: NodeModel<'_>| #[trigger]
                    nodes.contains(node) && choice(node) == Some(group);
                let root = node.op->Relu_input;
                lemma_group_links_are_read(
                    ChainKind::AddSub,
                    nodes,
                    table,
                    counts,
                    node.shape,
                    root,
                );
                let links = group_links(
                    ChainKind::AddSub,
                    nodes,
                    table,
                    counts,
                    node.shape,
                    root,
                )->Some_0;
                lemma_assembled(nodes, table, links, links.len() as int);
                lemma_step_is_link(nodes, table, links, i);
                let r = nodes.index_of(node);
                assert(consumes(nodes[r].op)[0] == root);
                if i == links.len() - 1 {
                    assert(single_read(nodes, table, counts, links[i]));
                }
                lemma_single_read_is_not_requested(graph, nodes, table, counts, outputs, links[i]);
            } else {
                let choice = |node: NodeModel<'_>|
                    identity_group(nodes, table, counts, outputs, node);
                nodes.lemma_filter_map_contains(choice, group);
                let node = choose|node: NodeModel<'_>| #[trigger]
                    nodes.contains(node) && choice(node) == Some(group);
                lemma_group_links_are_read(
                    ChainKind::AddSub,
                    nodes,
                    table,
                    counts,
                    node.shape,
                    node.value,
                );
                let links = group_links(
                    ChainKind::AddSub,
                    nodes,
                    table,
                    counts,
                    node.shape,
                    node.value,
                )->Some_0;
                lemma_assembled(nodes, table, links, links.len() as int);
                lemma_step_is_link(nodes, table, links, i);
                let r = nodes.index_of(node);
                assert(graph.knows(nodes[r].value));
                lemma_found_value(graph, nodes, table, node.value);
                if i < links.len() - 1 {
                    lemma_single_read_is_not_requested(
                        graph,
                        nodes,
                        table,
                        counts,
                        outputs,
                        links[i],
                    );
                }
            }
        }
    }
    assert forall|g: int| 0 <= g < groups.muls.len() implies !mul_hides(
        #[trigger] groups.muls[g],
        value,
    ) by {
        let group = groups.muls[g];
        assert(groups.muls.contains(group));
        if mul_hides(group, value) {
            let i = choose|i: int|
                0 <= i < group.steps.len() && (#[trigger] group.steps[i]).output == value;
            let choice = |node: NodeModel<'_>| mul_group(nodes, table, counts, outputs, node);
            nodes.lemma_filter_map_contains(choice, group);
            let node = choose|node: NodeModel<'_>| #[trigger]
                nodes.contains(node) && choice(node) == Some(group);
            lemma_group_links_are_read(
                ChainKind::Mul,
                nodes,
                table,
                counts,
                node.shape,
                node.value,
            );
            let links = group_links(
                ChainKind::Mul,
                nodes,
                table,
                counts,
                node.shape,
                node.value,
            )->Some_0;
            lemma_assembled(nodes, table, links, links.len() as int);
            lemma_step_is_link(nodes, table, links, i);
            let r = nodes.index_of(node);
            assert(graph.knows(nodes[r].value));
            lemma_found_value(graph, nodes, table, node.value);
            if i < links.len() - 1 {
                lemma_single_read_is_not_requested(graph, nodes, table, counts, outputs, links[i]);
            }
        }
    }
}

/// Every requested output is produced by an operation of the selected schedule, whatever the
/// policies.
pub proof fn law_requested_outputs_stay_scheduled(
    lowering: TensorSelectedLoweringPlan<'_>,
    plan: TensorExecutionPlan<'_>,
    policy: TensorArithmeticRewritePolicy,
    target: TensorArithmeticCapability,
    grouping: TensorPointwiseGroupingPolicy,
    k: int,
)
    requires
        plan.wf(),
        lowering.wf(),
        lowering.selects(plan, policy, target, grouping),
        0 <= k < plan.output_values@.len(),
    ensures
        exists|p: int|
            0 <= p < lowering.operations@.len() && (#[trigger] lowering.operations@[p])@.output()
                == plan.output_values@[k],
{
    let nodes = plan.selected_nodes(policy, target);
    let output = plan.output_values@[k];
    let candidates = plan.candidates(policy, target);
    lemma_rewritten_sound(plan, policy, target);
    lemma_without_orphans_sound(
        *plan.graph,
        candidates,
        rewritten(candidates, plan.node_models()),
        plan.output_values@,
    );
    law_rewriting_keeps_requested_outputs(plan, policy, target, k);
    let p = choose|p: int| 0 <= p < nodes.len() && (#[trigger] nodes[p]).value == output;
    assert(plan.output_values@.contains(output));
    lemma_requested_is_not_hidden(
        *plan.graph,
        nodes,
        lowering.index_by_value@,
        lowering.use_counts@,
        plan.output_values@,
        grouping,
        output,
    );
    let groups = lowering.groups();
    let choice = |node: NodeModel<'_>| operation_for(groups, node);
    lemma_filter_map_holds(nodes, choice, p);
    let operation = choice(nodes[p])->Some_0;
    lemma_operation_output(groups, nodes[p]);
    let operations = operation_models(lowering.operations@);
    assert(operations.contains(operation));
    let q = operations.index_of(operation);
    assert(operations[q] == lowering.operations@[q]@);
}

pub proof fn lemma_operation_output(groups: GroupsModel, node: NodeModel<'_>)
    requires
        operation_for(groups, node) is Some,
    ensures
        operation_for(groups, node)->Some_0.output() == node.value,
{
    super::lowering::lemma_found_groups(groups, node.value);
}

} // verus!
