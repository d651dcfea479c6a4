//! Selected lowerings are closed: whatever they read, they compute before.
use vstd::prelude::*;

use super::descriptor::{consumes, node_steps, NodeModel, OpDescriptor};
use super::error::ValueId;
use super::lowering_laws::{lemma_filter_map_holds, lemma_reader_counts};
use super::plan::{law_plan_is_closed, TensorExecutionPlan};
use super::rewrite::{
    lemma_rewrite_is_candidate, omitted, orphaned, rewrite_of, rewritten, rewritten_node,
    without_orphans, TensorArithmeticCapability, TensorArithmeticRewritePolicy,
    TensorSgdRewriteCandidate,
};
use super::schedule::{lemma_occurrences_bound, occurrences, read_count, use_count, StepModel};

verus! {

/// Some node computes `value`.
pub open spec fn computed(nodes: Seq<NodeModel<'_>>, value: ValueId) -> bool {
    exists|q: int| 0 <= q < nodes.len() && (#[trigger] nodes[q]).value == value
}

/// Whatever a node reads, some node computes.
pub open spec fn closed_nodes(nodes: Seq<NodeModel<'_>>) -> bool {
    forall|p: int, k: int|
        0 <= p < nodes.len() && 0 <= k < consumes(nodes[p].op).len() ==> computed(
            nodes,
            #[trigger] consumes(nodes[p].op)[k],
        )
}

/// Two operands of one step that are `value` count twice.
proof fn lemma_two_operands(values: Seq<ValueId>, k: int, l: int, value: ValueId)
    requires
        0 <= k < l < values.len(),
        values[k] == value,
        values[l] == value,
    ensures
        occurrences(values, value) >= 2,
    decreases values.len(),
{
    let rest = values.drop_last();
    if l < values.len() - 1 {
        lemma_two_operands(rest, k, l, value);
    } else {
        assert(rest[k] == value);
        assert(rest.contains(value));
        lemma_occurrences_bound(rest, value);
    }
}

/// A value that two operands of a schedule are counts twice.
proof fn lemma_two_reads(steps: Seq<StepModel>, p: int, k: int, q: int, l: int, value: ValueId)
    requires
        0 <= p <= q < steps.len(),
        0 <= k < steps[p].reads.len(),
        0 <= l < steps[q].reads.len(),
        steps[p].reads[k] == value,
        steps[q].reads[l] == value,
        p < q || k < l,
    ensures
        read_count(steps, value) >= 2,
    decreases steps.len(),
{
    let rest = steps.drop_last();
    if q < steps.len() - 1 {
        assert(rest[p] == steps[p]);
        assert(rest[q] == steps[q]);
        lemma_two_reads(rest, p, k, q, l, value);
    } else if p < q {
        assert(rest[p] == steps[p]);
        assert(rest[p].reads.contains(value));
        lemma_reader_counts(rest, p, value);
        assert(steps.last().reads[l] == value);
        assert(steps.last().reads.contains(value));
        lemma_occurrences_bound(steps.last().reads, value);
    } else {
        lemma_two_operands(steps.last().reads, k, l, value);
    }
}

/// A value with one use is read in one place at most.
pub proof fn lemma_one_reader(
    steps: Seq<StepModel>,
    outputs: Seq<ValueId>,
    p: int,
    k: int,
    q: int,
    l: int,
    value: ValueId,
)
    requires
        use_count(steps, outputs, value) == 1,
        0 <= p < steps.len(),
        0 <= q < steps.len(),
        0 <= k < steps[p].reads.len(),
        0 <= l < steps[q].reads.len(),
        steps[p].reads[k] == value,
        steps[q].reads[l] == value,
    ensures
        p == q,
        k == l,
{
    if p < q || (p == q && k < l) {
        lemma_two_reads(steps, p, k, q, l, value);
    } else if q < p || l < k {
        lemma_two_reads(steps, q, l, p, k, value);
    }
}

/// The candidates of a plan, by the planned value that each replaces.
proof fn lemma_candidate_source(
    plan: TensorExecutionPlan<'_>,
    policy: TensorArithmeticRewritePolicy,
    target: TensorArithmeticCapability,
    candidate: TensorSgdRewriteCandidate,
) -> (p: int)
    requires
        plan.wf(),
        plan.candidates(policy, target).contains(candidate),
    ensures
        0 <= p < plan.node_order@.len(),
        plan.node_order@[p] == candidate.output,
        plan.candidate_for(candidate.output) == Some(candidate),
        plan.steps()[p].reads == seq![candidate.weights, candidate.multiply],
        plan.node_models()[p].op == (OpDescriptor::Sub {
            left: candidate.weights,
            right: candidate.multiply,
        }),
        use_count(plan.steps(), plan.output_values@, candidate.multiply) == 1,
{
    let choice = |value: ValueId| plan.candidate_for(value);
    plan.node_order@.lemma_filter_map_contains(choice, candidate);
    let source = choose|source: ValueId| #[trigger]
        plan.node_order@.contains(source) && choice(source) == Some(candidate);
    let p = plan.node_order@.index_of(source);
    assert(plan.graph.knows(plan.node_order@[p]));
    assert(plan.graph.nodes.len() == plan.graph.nodes@.len());
    assert(plan.steps()[p].reads =~= seq![candidate.weights, candidate.multiply]);
    p
}

/// A plan is closed.
proof fn lemma_planned_nodes_closed(plan: TensorExecutionPlan<'_>)
    requires
        plan.wf(),
    ensures
        closed_nodes(plan.node_models()),
{
    let nodes = plan.node_models();
    assert forall|p: int, k: int|
        0 <= p < nodes.len() && 0 <= k < consumes(nodes[p].op).len() implies computed(
        nodes,
        #[trigger] consumes(nodes[p].op)[k],
    ) by {
        let value = consumes(nodes[p].op)[k];
        assert(plan.steps()[p].reads[k] == value);
        law_plan_is_closed(plan, p, k);
        let q = plan.node_order@.index_of(value);
        assert(plan.graph.knows(plan.node_order@[q]));
        assert(plan.graph.nodes.len() == plan.graph.nodes@.len());
        assert(nodes[q].value == value);
    }
}

/// A planned value that no replacement omits stays computed.
proof fn lemma_kept_is_computed<'a>(
    candidates: Seq<TensorSgdRewriteCandidate>,
    nodes: Seq<NodeModel<'a>>,
    value: ValueId,
)
    requires
        computed(nodes, value),
        !omitted(candidates).contains(value),
    ensures
        computed(rewritten(candidates, nodes), value),
{
    let q = choose|q: int| 0 <= q < nodes.len() && (#[trigger] nodes[q]).value == value;
    let change = |node: NodeModel<'a>| rewritten_node(candidates, node);
    lemma_filter_map_holds(nodes, change, q);
    let kept = change(nodes[q])->Some_0;
    assert(kept.value == value);
    let r = rewritten(candidates, nodes).index_of(kept);
    assert(rewritten(candidates, nodes)[r].value == value);
}

/// What the replacements read is computed, and what they omit is read no more.
proof fn lemma_rewritten_nodes_closed(
    plan: TensorExecutionPlan<'_>,
    policy: TensorArithmeticRewritePolicy,
    target: TensorArithmeticCapability,
)
    requires
        plan.wf(),
    ensures
        closed_nodes(rewritten(plan.candidates(policy, target), plan.node_models())),
{
    let candidates = plan.candidates(policy, target);
    let nodes = plan.node_models();
    let steps = plan.steps();
    let changed = rewritten(candidates, nodes);
    let change = |node: NodeModel<'_>| rewritten_node(candidates, node);
    lemma_planned_nodes_closed(plan);
    assert forall|r: int, k: int|
        0 <= r < changed.len() && 0 <= k < consumes(changed[r].op).len() implies computed(
        changed,
        #[trigger] consumes(changed[r].op)[k],
    ) by {
        let value = consumes(changed[r].op)[k];
        let made = changed[r];
        assert(changed.contains(made));
        nodes.lemma_filter_map_contains(change, made);
        let node = choose|node: NodeModel<'_>| #[trigger]
            nodes.contains(node) && change(node) == Some(made);
        let p = nodes.index_of(node);
        assert(plan.graph.knows(plan.node_order@[p]));
        assert(plan.graph.nodes.len() == plan.graph.nodes@.len());
        assert(plan.node_order@[p] == node.value);
        lemma_rewrite_is_candidate(candidates, node.value);
        // The place in the plan at which the value is read.
        let (q, l): (int, int) = match rewrite_of(candidates, node.value) {
            Some(found) => {
                let source = lemma_candidate_source(plan, policy, target, found);
                if source < p {
                    assert(plan.node_order@[source].index < plan.node_order@[p].index);
                } else if p < source {
                    assert(plan.node_order@[p].index < plan.node_order@[source].index);
                }
                if k == 0 {
                    (p, 0)
                } else {
                    law_plan_is_closed(plan, p, 1);
                    let product = plan.node_order@.index_of(found.multiply);
                    assert(plan.graph.knows(plan.node_order@[product]));
                    assert(consumes(nodes[product].op) =~= seq![
                        consumes(nodes[product].op)[0],
                        found.gradient,
                    ]);
                    (product, 1)
                }
            },
            None => (p, k),
        };
        assert(steps[q].reads[l] == value);
        assert(consumes(nodes[q].op)[l] == value);
        assert(computed(nodes, value));
        if omitted(candidates).contains(value) {
            let c = omitted(candidates).index_of(value);
            let omitting = candidates[c];
            assert(candidates.contains(omitting));
            let s = lemma_candidate_source(plan, policy, target, omitting);
            assert(steps[s].reads[1] == value);
            lemma_one_reader(steps, plan.output_values@, q, l, s, 1, value);
            assert(q == s && l == 1);
            lemma_first_rewrite(candidates, c, node.value);
            assert(false);
        }
        lemma_kept_is_computed(candidates, nodes, value);
    }
}

/// A result of some replacement has a first replacement.
proof fn lemma_first_rewrite(candidates: Seq<TensorSgdRewriteCandidate>, c: int, value: ValueId)
    requires
        0 <= c < candidates.len(),
        candidates[c].output == value,
    ensures
        rewrite_of(candidates, value) is Some,
    decreases candidates.len(),
{
    if candidates[0].output != value {
        assert(candidates.drop_first()[c - 1] == candidates[c]);
        lemma_first_rewrite(candidates.drop_first(), c - 1, value);
    }
}

/// Nothing reads a constant that is taken out.
proof fn lemma_remaining_nodes_closed<'a>(
    candidates: Seq<TensorSgdRewriteCandidate>,
    nodes: Seq<NodeModel<'a>>,
    outputs: Seq<ValueId>,
)
    requires
        closed_nodes(nodes),
    ensures
        closed_nodes(without_orphans(candidates, nodes, outputs)),
{
    let kept = without_orphans(candidates, nodes, outputs);
    let keep = |node: NodeModel<'a>|
        if orphaned(nodes, outputs, node) {
            None
        } else {
            Some(node)
        };
    if candidates.len() > 0 {
        assert forall|r: int, k: int|
            0 <= r < kept.len() && 0 <= k < consumes(kept[r].op).len() implies computed(
            kept,
            #[trigger] consumes(kept[r].op)[k],
        ) by {
            let value = consumes(kept[r].op)[k];
            let reader = kept[r];
            assert(kept.contains(reader));
            nodes.lemma_filter_map_contains(keep, reader);
            let node = choose|node: NodeModel<'_>| #[trigger]
                nodes.contains(node) && keep(node) == Some(reader);
            let p = nodes.index_of(node);
            assert(consumes(nodes[p].op)[k] == value);
            assert(computed(nodes, value));
            let q = choose|q: int| 0 <= q < nodes.len() && (#[trigger] nodes[q]).value == value;
            let steps = node_steps(nodes);
            assert(steps[p].reads[k] == value);
            assert(steps[p].reads.contains(value));
            lemma_reader_counts(steps, p, value);
            assert(keep(nodes[q]) == Some(nodes[q]));
            lemma_filter_map_holds(nodes, keep, q);
            let s = kept.index_of(nodes[q]);
            assert(kept[s].value == value);
        }
    }
}

/// Whatever a selected node reads, some selected node computes.
pub proof fn lemma_selected_nodes_closed(
    plan: TensorExecutionPlan<'_>,
    policy: TensorArithmeticRewritePolicy,
    target: TensorArithmeticCapability,
)
    requires
        plan.wf(),
    ensures
        closed_nodes(plan.selected_nodes(policy, target)),
{
    let candidates = plan.candidates(policy, target);
    lemma_rewritten_nodes_closed(plan, policy, target);
    lemma_remaining_nodes_closed(
        candidates,
        rewritten(candidates, plan.node_models()),
        plan.output_values@,
    );
}

} // verus!
