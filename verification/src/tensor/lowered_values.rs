//! Lowering changes no value. A group computes, element by element, what the operations that it
//! was made of compute one after the other, and a replaced update computes what the product and the
//! difference did, unless the target contracts the two.
use vstd::prelude::*;

use super::arithmetic::{differs, maximizes, multiplies, sums, F32Arithmetic};
use super::bits::ZERO_BITS;
use super::closed_operations::{
    bounded_chain, grouped_nodes, lemma_add_relu_reader, lemma_bounded_chain, lemma_link,
    lemma_links_are_binary, lemma_mul_chain, linked, mul_chain,
};
use super::descriptor::{consumes, node_steps, NodeModel, OpDescriptor};
use super::error::ValueId;
use super::evaluate::{computes, evaluation_answer, Execution};
use super::graph::{node_wf, precedes, reads, Graph, Op};
use super::groups::{
    assembled, lemma_assembled, lookup, refers_back, resolved, BoundedModel, ChainKind, MulModel,
    TensorPointwiseArithmeticOp, TensorPointwiseEpilogue, TensorPointwiseGroupingPolicy,
    TensorPointwiseMulStep, TensorPointwiseOperand, TensorPointwiseStep,
    MAX_BOUNDED_POINTWISE_LEAVES, MAX_BOUNDED_POINTWISE_STEPS,
};
use super::lowering::{
    add_relu_for, lemma_found_groups, mul_pairs, operation_for, operation_models, step_pairs,
    OperationModel, TensorSelectedLoweringPlan,
};
use super::lowering_laws::lemma_found_value;
use super::plan::{law_plan_is_closed, TensorExecutionPlan};
use super::rewrite::{
    lemma_rewrite_is_candidate, lemma_rewritten_sound, lemma_without_orphans_sound, orphaned,
    rewrite_of, rewritten, rewritten_node, sound_nodes, uniform_rate, TensorArithmeticCapability,
    TensorArithmeticRewritePolicy,
};
use super::schedule::indexes;
use super::value::Tensor;

verus! {

/// How single elements are added, subtracted, multiplied and rectified, each with its own
/// rounding.
pub ghost struct ElementRules {
    pub sum: spec_fn(u32, u32) -> u32,
    pub difference: spec_fn(u32, u32) -> u32,
    pub product: spec_fn(u32, u32) -> u32,
    pub rectified: spec_fn(u32) -> u32,
}

/// The element that an operand stands for.
pub open spec fn operand_element(
    leaves: Seq<u32>,
    steps: Seq<u32>,
    operand: TensorPointwiseOperand,
) -> u32 {
    match operand {
        TensorPointwiseOperand::Leaf(at) => leaves[at as int],
        TensorPointwiseOperand::Step(at) => steps[at as int],
    }
}

/// The elements that the first `count` instructions compute, one after the other.
pub open spec fn step_elements(
    apply: spec_fn(int, u32, u32) -> u32,
    leaves: Seq<u32>,
    pairs: Seq<(TensorPointwiseOperand, TensorPointwiseOperand)>,
    count: nat,
) -> Seq<u32>
    decreases count,
{
    if count == 0 {
        Seq::empty()
    } else {
        let done = step_elements(apply, leaves, pairs, (count - 1) as nat);
        done.push(
            apply(
                count - 1,
                operand_element(leaves, done, pairs[count - 1].0),
                operand_element(leaves, done, pairs[count - 1].1),
            ),
        )
    }
}

impl ElementRules {
    /// One Add/Sub instruction.
    pub open spec fn arithmetic(self, op: TensorPointwiseArithmeticOp, left: u32, right: u32) -> u32 {
        match op {
            TensorPointwiseArithmeticOp::Add => (self.sum)(left, right),
            TensorPointwiseArithmeticOp::Sub => (self.difference)(left, right),
        }
    }

    /// What Add/Sub instructions do.
    pub open spec fn sums_of(self, steps: Seq<TensorPointwiseStep>) -> spec_fn(int, u32, u32) -> u32 {
        |i: int, left: u32, right: u32| self.arithmetic(steps[i].op, left, right)
    }

    /// What Mul instructions do.
    pub open spec fn products_of(self) -> spec_fn(int, u32, u32) -> u32 {
        |i: int, left: u32, right: u32| (self.product)(left, right)
    }

    /// The element that an Add/Sub group computes from the elements of its leaves.
    pub open spec fn bounded(self, group: BoundedModel, leaves: Seq<u32>) -> u32 {
        let total = step_elements(
            self.sums_of(group.steps),
            leaves,
            step_pairs(group.steps),
            group.steps.len(),
        ).last();
        match group.epilogue {
            TensorPointwiseEpilogue::Identity => total,
            TensorPointwiseEpilogue::Relu => (self.rectified)(total),
        }
    }

    /// The element that a Mul group computes from the elements of its leaves.
    pub open spec fn multiplied(self, group: MulModel, leaves: Seq<u32>) -> u32 {
        step_elements(
            self.products_of(),
            leaves,
            mul_pairs(group.steps),
            group.steps.len(),
        ).last()
    }

    /// The element of a node follows from the elements of its operands, or from the one value of
    /// a constant. An update multiplies and subtracts, and rounds after both.
    pub open spec fn agrees(self, elements: spec_fn(ValueId) -> u32, node: NodeModel<'_>) -> bool {
        match node.op {
            OpDescriptor::Add { left, right } => elements(node.value) == (self.sum)(
                elements(left),
                elements(right),
            ),
            OpDescriptor::Sub { left, right } => elements(node.value) == (self.difference)(
                elements(left),
                elements(right),
            ),
            OpDescriptor::Mul { left, right } => elements(node.value) == (self.product)(
                elements(left),
                elements(right),
            ),
            OpDescriptor::Relu { input } => elements(node.value) == (self.rectified)(
                elements(input),
            ),
            OpDescriptor::SgdUpdate { weights, gradient, learning_rate } => elements(node.value)
                == (self.difference)(
                elements(weights),
                (self.product)(learning_rate, elements(gradient)),
            ),
            OpDescriptor::Constant(tensor) => uniform_rate(
                Op::Constant(*tensor),
            ) matches Some(value) ==> elements(node.value) == value,
            OpDescriptor::Uniform { value } => elements(node.value) == value,
            _ => true,
        }
    }
}

impl ElementRules {
    /// The rules say what the operations of `A` return.
    pub open spec fn describe<A: F32Arithmetic>(self) -> bool {
        &&& forall|x: u32, y: u32, z: u32| #[trigger] sums::<A>(x, y, z) ==> z == (self.sum)(x, y)
        &&& forall|x: u32, y: u32, z: u32| #[trigger]
            differs::<A>(x, y, z) ==> z == (self.difference)(x, y)
        &&& forall|x: u32, y: u32, z: u32| #[trigger]
            multiplies::<A>(x, y, z) ==> z == (self.product)(x, y)
        &&& forall|x: u32, z: u32| #[trigger]
            maximizes::<A>(x, ZERO_BITS, z) ==> z == (self.rectified)(x)
    }
}

/// The element at `k` of each evaluated value. Where a value has fewer elements, they are counted
/// over again.
pub open spec fn evaluated_elements(values: Seq<Tensor>, k: nat) -> spec_fn(ValueId) -> u32 {
    |value: ValueId|
        {
            let data = values[value.index as int]@.data;
            data[(k % data.len()) as int]
        }
}

/// The reference evaluator agrees with its own rules at every element, so that what follows from
/// agreeing nodes holds of its values.
pub proof fn law_evaluations_agree<A: F32Arithmetic>(
    graph: Graph,
    inputs: Seq<(ValueId, Tensor)>,
    execution: Execution,
    k: nat,
    at: int,
    rules: ElementRules,
)
    requires
        graph.wf(),
        evaluation_answer::<A>(graph, inputs, Ok(execution)),
        forall|i: int|
            0 <= i < execution.values@.len() ==> (#[trigger] execution.values@[i])@.data.len() > 0,
        rules.describe::<A>(),
        0 <= at < graph.nodes@.len(),
    ensures
        rules.agrees(evaluated_elements(execution.values@, k), graph.node_at(at)),
{
    let values = execution.values@;
    let node = graph.nodes@[at];
    let result = values[at]@;
    assert(node_wf(graph.id, graph.nodes@, at));
    assert(computes::<A>(graph, inputs, values.take(at), at, result));
    assert(values[at].wf());
    assert forall|j: int| 0 <= j < reads(node.op).len() implies values.take(at)[(
    #[trigger] reads(node.op)[j]).index as int] == values[reads(node.op)[j].index as int] && values[
    reads(node.op)[j].index as int].wf() && values[reads(node.op)[j].index as int]@.shape
        == graph.nodes@[reads(node.op)[j].index as int].shape@ by {
        assert(precedes(graph.id, at, reads(node.op)[j]));
    }
    let place = (k % result.data.len()) as int;
    assert(0 <= place < result.data.len());
    match node.op {
        Op::Add(a, b) | Op::Sub(a, b) | Op::Mul(a, b) | Op::SgdUpdate(a, b, _) => {
            assert(reads(node.op)[0] == a && reads(node.op)[1] == b);
        },
        Op::Relu(x) => {
            assert(reads(node.op)[0] == x);
        },
        _ => {},
    }
}

/// The value that an operand refers to.
spec fn named(
    leaves: Seq<ValueId>,
    steps: Seq<TensorPointwiseMulStep>,
    operand: TensorPointwiseOperand,
) -> ValueId {
    match operand {
        TensorPointwiseOperand::Leaf(at) => leaves[at as int],
        TensorPointwiseOperand::Step(at) => steps[at as int].output,
    }
}

/// An operand of a link is referred to by what it is.
proof fn lemma_resolved(
    graph: Graph,
    nodes: Seq<NodeModel<'_>>,
    table: Seq<usize>,
    links: Seq<usize>,
    count: int,
    leaves: Seq<ValueId>,
    steps: Seq<TensorPointwiseMulStep>,
    value: ValueId,
)
    requires
        sound_nodes(graph, nodes),
        indexes(table, node_steps(nodes)),
        0 <= count < links.len() <= MAX_BOUNDED_POINTWISE_STEPS,
        leaves.len() <= MAX_BOUNDED_POINTWISE_LEAVES + 1,
        steps.len() == count,
        forall|i: int| 0 <= i < count ==> (#[trigger] steps[i]).output == nodes[links[i] as int].value,
        value.graph_id == graph.id,
    ensures
        ({
            let (operand, more) = resolved(table, links.take(count), leaves, value);
            &&& named(more, steps, operand) == value
            &&& refers_back(operand, more.len(), count as nat)
            &&& leaves.len() <= more.len() <= leaves.len() + 1
            &&& forall|l: int| 0 <= l < leaves.len() ==> #[trigger] more[l] == leaves[l]
        }),
{
    let done = links.take(count);
    if lookup(table, value) matches Some(q) && done.contains(q) {
        let q = lookup(table, value)->Some_0;
        let at = done.index_of(q);
        assert(done[at] == q);
        lemma_found_value(graph, nodes, table, value);
        assert(steps[at].output == nodes[links[at] as int].value);
    }
}

/// An operand keeps referring to the same value when leaves and instructions are added.
proof fn lemma_still_named(
    leaves: Seq<ValueId>,
    steps: Seq<TensorPointwiseMulStep>,
    more_leaves: Seq<ValueId>,
    more_steps: Seq<TensorPointwiseMulStep>,
    operand: TensorPointwiseOperand,
)
    requires
        refers_back(operand, leaves.len(), steps.len()),
        leaves.len() <= more_leaves.len(),
        steps.len() <= more_steps.len(),
        forall|l: int| 0 <= l < leaves.len() ==> #[trigger] more_leaves[l] == leaves[l],
        forall|i: int| 0 <= i < steps.len() ==> #[trigger] more_steps[i] == steps[i],
    ensures
        named(more_leaves, more_steps, operand) == named(leaves, steps, operand),
{
}

/// The instructions of a group refer to the operands of the links they were made of.
proof fn lemma_assembled_names(
    graph: Graph,
    nodes: Seq<NodeModel<'_>>,
    table: Seq<usize>,
    links: Seq<usize>,
    count: int,
)
    requires
        sound_nodes(graph, nodes),
        indexes(table, node_steps(nodes)),
        0 <= count <= links.len() <= MAX_BOUNDED_POINTWISE_STEPS,
        forall|i: int|
            0 <= i < links.len() ==> (#[trigger] links[i]) < nodes.len() && consumes(
                nodes[links[i] as int].op,
            ).len() == 2,
    ensures
        assembled(nodes, table, links, count) matches Some((leaves, steps)) ==> {
            &&& steps.len() == count
            &&& forall|i: int|
                0 <= i < count ==> {
                    let op = nodes[links[i] as int].op;
                    &&& named(leaves, steps, (#[trigger] steps[i]).left) == consumes(op)[0]
                    &&& named(leaves, steps, steps[i].right) == consumes(op)[1]
                }
        },
    decreases count,
{
    lemma_assembled(nodes, table, links, count);
    if count > 0 && assembled(nodes, table, links, count) is Some {
        lemma_assembled_names(graph, nodes, table, links, count - 1);
        lemma_assembled(nodes, table, links, count - 1);
        let (leaves, steps) = assembled(nodes, table, links, count - 1)->Some_0;
        let node = nodes[links[count - 1] as int];
        let done = links.take(count - 1);
        let first = consumes(node.op)[0];
        let second = consumes(node.op)[1];
        let (left, more) = resolved(table, done, leaves, first);
        let (right, most) = resolved(table, done, more, second);
        let grown = steps.push(TensorPointwiseMulStep { output: node.value, left, right });
        assert(assembled(nodes, table, links, count) == Some((most, grown)));
        assert(precedes(graph.id, node.value.index as int, first));
        assert(precedes(graph.id, node.value.index as int, second));
        lemma_resolved(graph, nodes, table, links, count - 1, leaves, steps, first);
        lemma_resolved(graph, nodes, table, links, count - 1, more, steps, second);
        assert forall|i: int| 0 <= i < count implies {
            let op = nodes[links[i] as int].op;
            &&& named(most, grown, (#[trigger] grown[i]).left) == consumes(op)[0]
            &&& named(most, grown, grown[i].right) == consumes(op)[1]
        } by {
            if i < count - 1 {
                assert(grown[i] == steps[i]);
                lemma_still_named(leaves, steps, most, grown, steps[i].left);
                lemma_still_named(leaves, steps, most, grown, steps[i].right);
            } else {
                lemma_still_named(more, steps, most, grown, left);
                lemma_still_named(most, steps, most, grown, right);
            }
        }
    }
}

/// Instructions that agree with the elements of the values they name compute those elements.
proof fn lemma_step_elements(
    apply: spec_fn(int, u32, u32) -> u32,
    elements: spec_fn(ValueId) -> u32,
    leaves: Seq<ValueId>,
    steps: Seq<TensorPointwiseMulStep>,
    count: int,
)
    requires
        0 <= count <= steps.len(),
        forall|i: int|
            0 <= i < steps.len() ==> {
                &&& refers_back((#[trigger] steps[i]).left, leaves.len(), i as nat)
                &&& refers_back(steps[i].right, leaves.len(), i as nat)
                &&& elements(steps[i].output) == apply(
                    i,
                    elements(named(leaves, steps, steps[i].left)),
                    elements(named(leaves, steps, steps[i].right)),
                )
            },
    ensures
        ({
            let computed = step_elements(
                apply,
                leaves.map_values(elements),
                mul_pairs(steps),
                count as nat,
            );
            &&& computed.len() == count
            &&& forall|i: int| 0 <= i < count ==> #[trigger] computed[i] == elements(steps[i].output)
        }),
    decreases count,
{
    if count > 0 {
        lemma_step_elements(apply, elements, leaves, steps, count - 1);
        let done = step_elements(
            apply,
            leaves.map_values(elements),
            mul_pairs(steps),
            (count - 1) as nat,
        );
        let step = steps[count - 1];
        assert(operand_element(leaves.map_values(elements), done, step.left) == elements(
            named(leaves, steps, step.left),
        ));
        assert(operand_element(leaves.map_values(elements), done, step.right) == elements(
            named(leaves, steps, step.right),
        ));
    }
}

/// The instructions that a chain was assembled to compute the elements of its links.
proof fn lemma_chain_elements(
    graph: Graph,
    nodes: Seq<NodeModel<'_>>,
    table: Seq<usize>,
    counts: Seq<usize>,
    outputs: Seq<ValueId>,
    kind: ChainKind,
    shape: Seq<usize>,
    root: ValueId,
    links: Seq<usize>,
    apply: spec_fn(int, u32, u32) -> u32,
    elements: spec_fn(ValueId) -> u32,
)
    requires
        grouped_nodes(graph, nodes, table, counts, outputs),
        linked(kind, nodes, table, counts, shape, root, links),
        links.len() > 0,
        assembled(nodes, table, links, links.len() as int) is Some,
        forall|i: int|
            0 <= i < links.len() ==> {
                let node = nodes[(#[trigger] links[i]) as int];
                elements(node.value) == apply(
                    i,
                    elements(consumes(node.op)[0]),
                    elements(consumes(node.op)[1]),
                )
            },
    ensures
        ({
            let (leaves, steps) = assembled(nodes, table, links, links.len() as int)->Some_0;
            let computed = step_elements(
                apply,
                leaves.map_values(elements),
                mul_pairs(steps),
                links.len(),
            );
            &&& computed.len() == links.len()
            &&& computed.last() == elements(nodes[links.last() as int].value)
        }),
{
    let (leaves, steps) = assembled(nodes, table, links, links.len() as int)->Some_0;
    lemma_links_are_binary(kind, nodes, table, counts, shape, root, links);
    assert forall|i: int| 0 <= i < links.len() implies (#[trigger] links[i]) < nodes.len() by {
        lemma_link(kind, nodes, table, counts, shape, root, links, i);
    }
    lemma_assembled(nodes, table, links, links.len() as int);
    lemma_assembled_names(graph, nodes, table, links, links.len() as int);
    assert forall|i: int| 0 <= i < steps.len() implies elements((#[trigger] steps[i]).output)
        == apply(
        i,
        elements(named(leaves, steps, steps[i].left)),
        elements(named(leaves, steps, steps[i].right)),
    ) by {
        let node = nodes[links[i] as int];
        assert(steps[i].output == node.value);
    }
    lemma_step_elements(apply, elements, leaves, steps, steps.len() as int);
    let computed = step_elements(
        apply,
        leaves.map_values(elements),
        mul_pairs(steps),
        links.len(),
    );
    assert(computed[steps.len() - 1] == elements(steps[steps.len() - 1].output));
}

/// An Add/Sub group computes the element of its output.
proof fn lemma_bounded_elements(
    graph: Graph,
    nodes: Seq<NodeModel<'_>>,
    table: Seq<usize>,
    counts: Seq<usize>,
    outputs: Seq<ValueId>,
    group: BoundedModel,
    r: int,
    root: ValueId,
    links: Seq<usize>,
    rules: ElementRules,
    elements: spec_fn(ValueId) -> u32,
)
    requires
        grouped_nodes(graph, nodes, table, counts, outputs),
        bounded_chain(nodes, table, counts, group, r, root, links),
        forall|q: int| 0 <= q < nodes.len() ==> rules.agrees(elements, #[trigger] nodes[q]),
    ensures
        elements(group.output) == rules.bounded(group, group.leaves.map_values(elements)),
{
    let apply = rules.sums_of(group.steps);
    let kind = ChainKind::AddSub;
    assert forall|i: int| 0 <= i < links.len() implies {
        let node = nodes[(#[trigger] links[i]) as int];
        elements(node.value) == apply(
            i,
            elements(consumes(node.op)[0]),
            elements(consumes(node.op)[1]),
        )
    } by {
        lemma_link(kind, nodes, table, counts, group.shape, root, links, i);
        assert(rules.agrees(elements, nodes[links[i] as int]));
        assert(group.steps[i].output == nodes[links[i] as int].value);
    }
    lemma_chain_elements(
        graph,
        nodes,
        table,
        counts,
        outputs,
        kind,
        group.shape,
        root,
        links,
        apply,
        elements,
    );
    if group.epilogue == TensorPointwiseEpilogue::Relu {
        assert(rules.agrees(elements, nodes[r]));
        assert(consumes(nodes[r].op)[0] == root);
        assert(precedes(graph.id, nodes[r].value.index as int, consumes(nodes[r].op)[0]));
        lemma_link(kind, nodes, table, counts, group.shape, root, links, 0);
        lemma_found_value(graph, nodes, table, root);
    }
}

/// A Mul group computes the element of its output.
proof fn lemma_mul_elements(
    graph: Graph,
    nodes: Seq<NodeModel<'_>>,
    table: Seq<usize>,
    counts: Seq<usize>,
    outputs: Seq<ValueId>,
    group: MulModel,
    links: Seq<usize>,
    rules: ElementRules,
    elements: spec_fn(ValueId) -> u32,
)
    requires
        grouped_nodes(graph, nodes, table, counts, outputs),
        mul_chain(nodes, table, counts, group, links),
        forall|q: int| 0 <= q < nodes.len() ==> rules.agrees(elements, #[trigger] nodes[q]),
    ensures
        elements(group.output) == rules.multiplied(group, group.leaves.map_values(elements)),
{
    let apply = rules.products_of();
    let kind = ChainKind::Mul;
    assert forall|i: int| 0 <= i < links.len() implies {
        let node = nodes[(#[trigger] links[i]) as int];
        elements(node.value) == apply(
            i,
            elements(consumes(node.op)[0]),
            elements(consumes(node.op)[1]),
        )
    } by {
        lemma_link(kind, nodes, table, counts, group.shape, group.output, links, i);
        assert(rules.agrees(elements, nodes[links[i] as int]));
    }
    lemma_chain_elements(
        graph,
        nodes,
        table,
        counts,
        outputs,
        kind,
        group.shape,
        group.output,
        links,
        apply,
        elements,
    );
}

/// A replaced node is a candidate's result.
proof fn lemma_replaced(
    plan: TensorExecutionPlan<'_>,
    policy: TensorArithmeticRewritePolicy,
    target: TensorArithmeticCapability,
    value: ValueId,
) -> (p: int)
    requires
        plan.wf(),
        rewrite_of(plan.candidates(policy, target), value) is Some,
    ensures
        0 <= p < plan.node_order@.len(),
        plan.node_order@[p] == value,
        rewrite_of(plan.candidates(policy, target), value) == plan.candidate_for(value),
{
    let candidates = plan.candidates(policy, target);
    lemma_rewrite_is_candidate(candidates, value);
    let found = rewrite_of(candidates, value)->Some_0;
    let choice = |value: ValueId| plan.candidate_for(value);
    plan.node_order@.lemma_filter_map_contains(choice, found);
    let source = choose|source: ValueId| #[trigger]
        plan.node_order@.contains(source) && choice(source) == Some(found);
    assert(found.output == source);
    plan.node_order@.index_of(source)
}

/// A planned value's operand is planned too, and stands before it.
proof fn lemma_planned_operand(plan: TensorExecutionPlan<'_>, p: int, k: int) -> (q: int)
    requires
        plan.wf(),
        0 <= p < plan.node_order@.len(),
        0 <= k < consumes(plan.node_models()[p].op).len(),
    ensures
        0 <= q < plan.node_order@.len(),
        plan.node_models()[q].value == consumes(plan.node_models()[p].op)[k],
        plan.node_order@[q] == consumes(plan.node_models()[p].op)[k],
{
    law_plan_is_closed(plan, p, k);
    let operand = plan.steps()[p].reads[k];
    assert(operand == consumes(plan.node_models()[p].op)[k]);
    let q = plan.node_order@.index_of(operand);
    assert(plan.graph.knows(plan.node_order@[q]));
    q
}

/// Replacing updates changes no value as long as the target does not contract them. Whatever
/// single elements do, where every planned node agrees with its operands, every selected node does.
pub proof fn law_rewriting_keeps_values(
    lowering: TensorSelectedLoweringPlan<'_>,
    plan: TensorExecutionPlan<'_>,
    policy: TensorArithmeticRewritePolicy,
    target: TensorArithmeticCapability,
    grouping: TensorPointwiseGroupingPolicy,
    q: int,
    rules: ElementRules,
    elements: spec_fn(ValueId) -> u32,
)
    requires
        plan.wf(),
        lowering.wf(),
        lowering.selects(plan, policy, target, grouping),
        0 <= q < lowering.nodes@.len(),
        forall|p: int|
            0 <= p < plan.node_order@.len() ==> rules.agrees(
                elements,
                #[trigger] plan.node_models()[p],
            ),
    ensures
        rules.agrees(elements, lowering.nodes@[q]@),
{
    let nodes = plan.node_models();
    let candidates = plan.candidates(policy, target);
    let kept = rewritten(candidates, nodes);
    let selected = plan.selected_nodes(policy, target);
    let node = selected[q];
    assert(node == lowering.nodes@[q]@);
    assert(selected.contains(node));
    if candidates.len() > 0 {
        let keep = |node: NodeModel<'_>|
            if orphaned(kept, plan.output_values@, node) {
                None
            } else {
                Some(node)
            };
        kept.lemma_filter_map_contains(keep, node);
    }
    assert(kept.contains(node));
    let change = |node: NodeModel<'_>| rewritten_node(candidates, node);
    nodes.lemma_filter_map_contains(change, node);
    let source = choose|source: NodeModel<'_>| #[trigger]
        nodes.contains(source) && change(source) == Some(node);
    let at = nodes.index_of(source);
    assert(rules.agrees(elements, nodes[at]));
    if rewrite_of(candidates, source.value) is Some {
        let p = lemma_replaced(plan, policy, target, source.value);
        let found = plan.candidate_for(source.value)->Some_0;
        assert(plan.graph.knows(plan.node_order@[p]));
        assert(nodes[p].op == (OpDescriptor::Sub { left: found.weights, right: found.multiply }));
        assert(rules.agrees(elements, nodes[p]));
        let m = lemma_planned_operand(plan, p, 1);
        assert(rules.agrees(elements, nodes[m]));
        let r = lemma_planned_operand(plan, m, 0);
        assert(rules.agrees(elements, nodes[r]));
    }
}

/// Grouping changes no value. Whatever single elements do, as long as every selected node agrees
/// with its operands, a group computes from its leaves exactly the element of the value that it
/// was scheduled for: no operation is left out, added or reordered, and every intermediate result
/// is rounded as it was.
pub proof fn law_groups_compute_their_source(
    lowering: TensorSelectedLoweringPlan<'_>,
    plan: TensorExecutionPlan<'_>,
    policy: TensorArithmeticRewritePolicy,
    target: TensorArithmeticCapability,
    grouping: TensorPointwiseGroupingPolicy,
    p: int,
    rules: ElementRules,
    elements: spec_fn(ValueId) -> u32,
)
    requires
        plan.wf(),
        lowering.wf(),
        lowering.selects(plan, policy, target, grouping),
        0 <= p < lowering.operations@.len(),
        forall|q: int|
            0 <= q < lowering.nodes@.len() ==> rules.agrees(
                elements,
                (#[trigger] lowering.nodes@[q])@,
            ),
    ensures
        match lowering.operations@[p]@ {
            OperationModel::Node(node) => rules.agrees(elements, node),
            OperationModel::FusedAddRelu { group } => elements(group.relu_output) == (
            rules.rectified)((rules.sum)(elements(group.left), elements(group.right))),
            OperationModel::FusedAddSub { group } => elements(group.output) == rules.bounded(
                group,
                group.leaves.map_values(elements),
            ),
            OperationModel::FusedMul { group } => elements(group.output) == rules.multiplied(
                group,
                group.leaves.map_values(elements),
            ),
        },
{
    let graph = *plan.graph;
    let nodes = plan.selected_nodes(policy, target);
    let (table, counts) = (lowering.index_by_value@, lowering.use_counts@);
    let outputs = plan.output_values@;
    let groups = lowering.groups();
    let candidates = plan.candidates(policy, target);
    lemma_rewritten_sound(plan, policy, target);
    lemma_without_orphans_sound(
        graph,
        candidates,
        rewritten(candidates, plan.node_models()),
        outputs,
    );
    assert forall|q: int| 0 <= q < nodes.len() implies rules.agrees(
        elements,
        #[trigger] nodes[q],
    ) by {
        assert(nodes[q] == lowering.nodes@[q]@);
    }
    let operations = operation_models(lowering.operations@);
    let operation = operations[p];
    assert(operation == lowering.operations@[p]@);
    let choice = |node: NodeModel<'_>| operation_for(groups, node);
    assert(operations.contains(operation));
    nodes.lemma_filter_map_contains(choice, operation);
    let node = choose|node: NodeModel<'_>| #[trigger]
        nodes.contains(node) && choice(node) == Some(operation);
    lemma_found_groups(groups, node.value);
    match operation {
        OperationModel::Node(kept) => {
            assert(nodes[nodes.index_of(node)] == node);
        },
        OperationModel::FusedAddRelu { group } => {
            let found = add_relu_for(groups.pointwise, node.value)->Some_0;
            let (a, r) = lemma_add_relu_reader(
                graph,
                nodes,
                table,
                counts,
                outputs,
                grouping,
                found,
            );
            assert(rules.agrees(elements, nodes[a]));
            assert(rules.agrees(elements, nodes[r]));
        },
        OperationModel::FusedAddSub { group } => {
            let (r, root, links) = lemma_bounded_chain(
                graph,
                nodes,
                table,
                counts,
                outputs,
                grouping,
                group,
            );
            lemma_bounded_elements(
                graph,
                nodes,
                table,
                counts,
                outputs,
                group,
                r,
                root,
                links,
                rules,
                elements,
            );
        },
        OperationModel::FusedMul { group } => {
            let links = lemma_mul_chain(graph, nodes, table, counts, outputs, grouping, group);
            lemma_mul_elements(
                graph,
                nodes,
                table,
                counts,
                outputs,
                group,
                links,
                rules,
                elements,
            );
        },
    }
}

} // verus!
