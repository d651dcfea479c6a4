//! Lowering-only replacement of `weights - rate * gradient` by one SGD update.
use vstd::prelude::*;

use super::bits::{finite, is_finite};
use super::descriptor::{
    consumes, lemma_described_reads, node_models, node_steps, NodeDescriptor, NodeModel,
    OpDescriptor,
};
use super::error::{contains_value, ValueId};
use super::graph::{node_wf, precedes, reads, Graph, Op};
use super::plan::TensorExecutionPlan;
use super::schedule::{distinct_steps, narrow, of_one_graph, use_count};

verus! {

/// Whether a lowering plan may replace a multiply followed by a subtraction with the fused SGD
/// operation. It never changes graph construction or the reference evaluator.
#[derive(Clone, Copy, Debug, Default, PartialEq, Eq, Structural)]
pub enum TensorArithmeticRewritePolicy {
    /// Preserve the graph's operation boundaries in every lowering plan.
    #[default]
    Disabled,
    /// Permit SGD recognition when the selected target declares support for contracted arithmetic.
    AllowContractedArithmetic,
}

/// Numerical behavior the selected target explicitly accepts for one lowered operation.
#[derive(Clone, Copy, Debug, Default, PartialEq, Eq, Structural)]
pub enum TensorArithmeticCapability {
    /// The target has not proved that contracted arithmetic is acceptable.
    #[default]
    Strict,
    /// The selected target accepts a fused multiply-add with one final rounding.
    ContractedMultiplyAdd,
}

/// An inspectable lowering-only replacement for `Sub(weights, Mul(rate, gradient))`.
///
/// Consuming a candidate authorizes a different floating-point result whenever contraction
/// changes rounding. It does not modify the graph or authorize in-place storage reuse.
#[derive(Clone, Copy, Debug, PartialEq, Structural)]
pub struct TensorSgdRewriteCandidate {
    /// Value produced by the subtraction in the graph.
    pub output: ValueId,
    /// The multiplication intermediate that the lowering may omit.
    pub multiply: ValueId,
    pub weights: ValueId,
    pub gradient: ValueId,
    pub learning_rate: u32,
}

/// Rewrites need both the user's permission and the target's.
pub open spec fn rewrites_enabled(
    policy: TensorArithmeticRewritePolicy,
    target: TensorArithmeticCapability,
) -> bool {
    policy == TensorArithmeticRewritePolicy::AllowContractedArithmetic && target
        == TensorArithmeticCapability::ContractedMultiplyAdd
}

/// The one value that every element of a constant has. An empty constant has none.
pub open spec fn uniform_rate(op: Op) -> Option<u32> {
    match op {
        Op::Constant(tensor) => {
            if tensor@.uniform is Some {
                tensor@.uniform
            } else if tensor@.data.len() > 0 && forall|i: int|
                0 <= i < tensor@.data.len() ==> #[trigger] tensor@.data[i] == tensor@.data.first() {
                Some(tensor@.data.first())
            } else {
                None
            }
        },
        Op::Uniform(value) => Some(value),
        _ => None,
    }
}

impl<'a> TensorExecutionPlan<'a> {
    /// The replacement that starts at a planned value: it subtracts a product that nothing else
    /// uses, whose first factor is a finite uniform constant.
    pub open spec fn candidate_for(&self, value: ValueId) -> Option<TensorSgdRewriteCandidate> {
        let nodes = self.graph.nodes@;
        match nodes[value.index as int].op {
            Op::Sub(weights, product) => match nodes[product.index as int].op {
                Op::Mul(rate, gradient) => match uniform_rate(nodes[rate.index as int].op) {
                    Some(bits) => if finite(bits) && use_count(
                        self.steps(),
                        self.output_values@,
                        product,
                    ) == 1 {
                        Some(
                            TensorSgdRewriteCandidate {
                                output: value,
                                multiply: product,
                                weights,
                                gradient,
                                learning_rate: bits,
                            },
                        )
                    } else {
                        None
                    },
                    None => None,
                },
                _ => None,
            },
            _ => None,
        }
    }

    /// All replacements in this plan, in node order.
    pub open spec fn candidates(
        &self,
        policy: TensorArithmeticRewritePolicy,
        target: TensorArithmeticCapability,
    ) -> Seq<TensorSgdRewriteCandidate> {
        if rewrites_enabled(policy, target) {
            self.node_order@.filter_map(|value: ValueId| self.candidate_for(value))
        } else {
            Seq::empty()
        }
    }

    /// Finds the SGD replacements in this plan's dependency closure.
    ///
    /// There are none unless `policy` opts into altered rounding and the target declares that it
    /// accepts contracted arithmetic. This only describes replacements.
    pub fn sgd_rewrite_candidates(
        &self,
        policy: TensorArithmeticRewritePolicy,
        target_arithmetic: TensorArithmeticCapability,
    ) -> (found: Vec<TensorSgdRewriteCandidate>)
        requires
            self.wf(),
        ensures
            found@ == self.candidates(policy, target_arithmetic),
    {
        let mut found: Vec<TensorSgdRewriteCandidate> = Vec::new();
        if policy != TensorArithmeticRewritePolicy::AllowContractedArithmetic || target_arithmetic
            != TensorArithmeticCapability::ContractedMultiplyAdd {
            return found;
        }
        let ghost choice = |value: ValueId| self.candidate_for(value);
        let mut at: usize = 0;
        proof {
            assert(self.node_order@.take(0).filter_map(choice) =~= Seq::empty());
        }
        while at < self.node_order.len()
            invariant
                self.wf(),
                at <= self.node_order@.len(),
                choice == (|value: ValueId| self.candidate_for(value)),
                found@ == self.node_order@.take(at as int).filter_map(choice),
            decreases self.node_order@.len() - at,
        {
            let candidate: Option<TensorSgdRewriteCandidate> = self.find_candidate(at);
            proof {
                self.node_order@.lemma_filter_map_take_succ(choice, at as int);
            }
            if let Some(candidate) = candidate {
                found.push(candidate);
            }
            at += 1;
        }
        assert(self.node_order@.take(at as int) =~= self.node_order@);
        found
    }

    /// The replacement that starts at a plan position.
    fn find_candidate(&self, at: usize) -> (candidate: Option<TensorSgdRewriteCandidate>)
        requires
            self.wf(),
            at < self.node_order@.len(),
        ensures
            candidate == self.candidate_for(self.node_order@[at as int]),
    {
        let output: ValueId = self.node_order[at];
        let graph: &Graph = self.graph;
        proof {
            assert(graph.knows(output));
            assert(node_wf(graph.id, graph.nodes@, output.index as int));
            lemma_described_reads(&graph.nodes@[output.index as int].op);
        }
        let (weights, product): (ValueId, ValueId) = match graph.nodes[output.index].op {
            Op::Sub(left, right) => (left, right),
            _ => {
                return None;
            },
        };
        proof {
            let op = graph.nodes@[output.index as int].op;
            assert(reads(op)[1] == product);
            assert(precedes(graph.id, output.index as int, reads(op)[1]));
            super::plan::law_plan_is_closed(*self, at as int, 1);
            assert(node_wf(graph.id, graph.nodes@, product.index as int));
        }
        let position: usize = match self.index_of(product) {
            Some(position) => position,
            None => {
                return None;
            },
        };
        assert(self.use_counts@[position as int] == use_count(
            self.steps(),
            self.output_values@,
            product,
        ));
        // A requested product is pinned and therefore has another use.
        if self.use_counts[position] != 1 {
            return None;
        }
        let (rate, gradient): (ValueId, ValueId) = match graph.nodes[product.index].op {
            Op::Mul(left, right) => (left, right),
            _ => {
                return None;
            },
        };
        proof {
            let op = graph.nodes@[product.index as int].op;
            assert(reads(op)[0] == rate);
            assert(precedes(graph.id, product.index as int, reads(op)[0]));
            assert(node_wf(graph.id, graph.nodes@, rate.index as int));
        }
        match find_uniform_rate(&graph.nodes[rate.index].op) {
            Some(learning_rate) => {
                if !is_finite(learning_rate) {
                    return None;
                }
                Some(
                    TensorSgdRewriteCandidate {
                        output,
                        multiply: product,
                        weights,
                        gradient,
                        learning_rate,
                    },
                )
            },
            None => None,
        }
    }
}

/// Whether every element has these bits.
fn all_are(data: &[u32], value: u32) -> (same: bool)
    ensures
        same == forall|i: int| 0 <= i < data@.len() ==> #[trigger] data@[i] == value,
{
    let mut at: usize = 0;
    while at < data.len()
        invariant
            at <= data@.len(),
            forall|i: int| 0 <= i < at ==> #[trigger] data@[i] == value,
        decreases data@.len() - at,
    {
        if data[at] != value {
            assert(data@[at as int] != value);
            return false;
        }
        at += 1;
    }
    true
}

/// The one value that every element of a constant has, by its bits.
fn find_uniform_rate(op: &Op) -> (rate: Option<u32>)
    ensures
        rate == uniform_rate(*op),
{
    match op {
        Op::Constant(tensor) => {
            if let Some(value) = tensor.known_uniform_value {
                return Some(value);
            }
            if tensor.data.len() == 0 {
                return None;
            }
            let first: u32 = tensor.data[0];
            if !all_are(tensor.data.as_slice(), first) {
                return None;
            }
            assert(first == tensor@.data.first());
            Some(first)
        },
        Op::Uniform(value) => Some(*value),
        _ => None,
    }
}

/// The first replacement whose result is `value`.
pub open spec fn rewrite_of(candidates: Seq<TensorSgdRewriteCandidate>, value: ValueId) -> Option<
    TensorSgdRewriteCandidate,
>
    decreases candidates.len(),
{
    if candidates.len() == 0 {
        None
    } else if candidates[0].output == value {
        Some(candidates[0])
    } else {
        rewrite_of(candidates.drop_first(), value)
    }
}

fn find_rewrite(candidates: &[TensorSgdRewriteCandidate], value: ValueId) -> (found: Option<
    TensorSgdRewriteCandidate,
>)
    ensures
        found == rewrite_of(candidates@, value),
{
    let mut at: usize = 0;
    assert(candidates@.skip(0) =~= candidates@);
    while at < candidates.len()
        invariant
            at <= candidates@.len(),
            rewrite_of(candidates@, value) == rewrite_of(candidates@.skip(at as int), value),
        decreases candidates@.len() - at,
    {
        assert(candidates@.skip(at as int)[0] == candidates@[at as int]);
        assert(candidates@.skip(at as int).drop_first() =~= candidates@.skip(at + 1));
        if candidates[at].output == value {
            return Some(candidates[at]);
        }
        at += 1;
    }
    None
}

/// The intermediate products that the replacements omit.
pub open spec fn omitted(candidates: Seq<TensorSgdRewriteCandidate>) -> Seq<ValueId> {
    candidates.map_values(|candidate: TensorSgdRewriteCandidate| candidate.multiply)
}

/// What becomes of a planned node: it is omitted, replaced, or kept.
pub open spec fn rewritten_node<'a>(
    candidates: Seq<TensorSgdRewriteCandidate>,
    node: NodeModel<'a>,
) -> Option<NodeModel<'a>> {
    if omitted(candidates).contains(node.value) {
        None
    } else {
        match rewrite_of(candidates, node.value) {
            Some(candidate) => Some(
                NodeModel {
                    op: OpDescriptor::SgdUpdate {
                        weights: candidate.weights,
                        gradient: candidate.gradient,
                        learning_rate: candidate.learning_rate,
                    },
                    ..node
                },
            ),
            None => Some(node),
        }
    }
}

/// The planned nodes after the replacements.
pub open spec fn rewritten<'a>(
    candidates: Seq<TensorSgdRewriteCandidate>,
    nodes: Seq<NodeModel<'a>>,
) -> Seq<NodeModel<'a>> {
    nodes.filter_map(|node: NodeModel<'a>| rewritten_node(candidates, node))
}

/// A constant that the schedule neither reads nor hands out.
pub open spec fn orphaned(
    nodes: Seq<NodeModel<'_>>,
    outputs: Seq<ValueId>,
    node: NodeModel<'_>,
) -> bool {
    (node.op is Constant || node.op is Uniform) && use_count(
        node_steps(nodes),
        outputs,
        node.value,
    ) == 0
}

/// The nodes that are left when orphaned constants are taken out. Without replacements there is
/// nothing to take out.
pub open spec fn without_orphans<'a>(
    candidates: Seq<TensorSgdRewriteCandidate>,
    nodes: Seq<NodeModel<'a>>,
    outputs: Seq<ValueId>,
) -> Seq<NodeModel<'a>> {
    if candidates.len() == 0 {
        nodes
    } else {
        nodes.filter_map(
            |node: NodeModel<'a>|
                if orphaned(nodes, outputs, node) {
                    None
                } else {
                    Some(node)
                },
        )
    }
}

/// The orphaned constants that were taken out.
pub open spec fn orphans(
    candidates: Seq<TensorSgdRewriteCandidate>,
    nodes: Seq<NodeModel<'_>>,
    outputs: Seq<ValueId>,
) -> Seq<ValueId> {
    if candidates.len() == 0 {
        Seq::empty()
    } else {
        nodes.filter_map(
            |node: NodeModel<'_>|
                if orphaned(nodes, outputs, node) {
                    Some(node.value)
                } else {
                    None
                },
        )
    }
}

/// A list of nodes of `graph` in append order, each reading only earlier values and having the
/// shape that the graph gives its value.
pub open spec fn sound_nodes(graph: Graph, nodes: Seq<NodeModel<'_>>) -> bool {
    &&& forall|p: int|
        0 <= p < nodes.len() ==> graph.knows((#[trigger] nodes[p]).value) && nodes[p].shape
            == graph.shape_of(nodes[p].value)
    &&& forall|p: int, q: int|
        0 <= p < q < nodes.len() ==> (#[trigger] nodes[p]).value.index < (
        #[trigger] nodes[q]).value.index
    &&& forall|p: int, k: int|
        0 <= p < nodes.len() && 0 <= k < consumes(nodes[p].op).len() ==> precedes(
            graph.id,
            nodes[p].value.index as int,
            #[trigger] consumes(nodes[p].op)[k],
        )
}

/// A sound list of nodes is a narrow schedule of different values of one graph.
pub proof fn lemma_sound_steps(graph: Graph, nodes: Seq<NodeModel<'_>>, outputs: Seq<ValueId>)
    requires
        sound_nodes(graph, nodes),
        graph.outputs_valid(outputs),
    ensures
        of_one_graph(node_steps(nodes), outputs, graph.id),
        narrow(node_steps(nodes), 2),
        distinct_steps(node_steps(nodes)),
        nodes.len() <= graph.nodes@.len(),
{
    let steps = node_steps(nodes);
    assert forall|p: int, k: int| 0 <= p < steps.len() && 0 <= k < steps[p].reads.len() implies (
    #[trigger] steps[p].reads[k]).graph_id == graph.id by {
        assert(precedes(graph.id, nodes[p].value.index as int, consumes(nodes[p].op)[k]));
    }
    assert forall|p: int| 0 <= p < steps.len() implies (#[trigger] steps[p]).value.graph_id
        == graph.id by {
        assert(graph.knows(nodes[p].value));
    }
    assert forall|k: int| 0 <= k < outputs.len() implies (#[trigger] outputs[k]).graph_id
        == graph.id by {
        assert(graph.output_fault(outputs, k) is None);
    }
    assert forall|p: int, q: int| 0 <= p < q < steps.len() implies (
    #[trigger] steps[p]).value.index != (#[trigger] steps[q]).value.index by {
        assert(nodes[p].value.index < nodes[q].value.index);
    }
    if nodes.len() > 0 {
        lemma_sound_index(graph, nodes, nodes.len() - 1);
        assert(graph.knows(nodes[nodes.len() - 1].value));
    }
}

proof fn lemma_sound_index(graph: Graph, nodes: Seq<NodeModel<'_>>, p: int)
    requires
        sound_nodes(graph, nodes),
        0 <= p < nodes.len(),
    ensures
        p <= nodes[p].value.index,
    decreases p,
{
    if p > 0 {
        lemma_sound_index(graph, nodes, p - 1);
        assert(nodes[p - 1].value.index < nodes[p].value.index);
    }
}

/// Taking nodes out of a sound list, and changing operations within what they may read, keeps it
/// sound.
pub proof fn lemma_sound_filter_map<'a>(
    graph: Graph,
    nodes: Seq<NodeModel<'a>>,
    change: spec_fn(NodeModel<'a>) -> Option<NodeModel<'a>>,
)
    requires
        sound_nodes(graph, nodes),
        forall|p: int|
            0 <= p < nodes.len() ==> match #[trigger] change(nodes[p]) {
                Some(node) => {
                    &&& node.value == nodes[p].value
                    &&& node.shape == nodes[p].shape
                    &&& forall|k: int|
                        0 <= k < consumes(node.op).len() ==> precedes(
                            graph.id,
                            node.value.index as int,
                            #[trigger] consumes(node.op)[k],
                        )
                },
                None => true,
            },
    ensures
        sound_nodes(graph, nodes.filter_map(change)),
        nodes.len() > 0 && nodes.filter_map(change).len() > 0 ==> nodes.filter_map(
            change,
        ).last().value.index <= nodes.last().value.index,
    decreases nodes.len(),
{
    if nodes.len() > 0 {
        let rest = nodes.drop_last();
        assert forall|p: int, q: int| 0 <= p < q < rest.len() implies (
        #[trigger] rest[p]).value.index < (#[trigger] rest[q]).value.index by {
            assert(nodes[p].value.index < nodes[q].value.index);
        }
        assert forall|p: int, k: int|
            0 <= p < rest.len() && 0 <= k < consumes(rest[p].op).len() implies precedes(
            graph.id,
            rest[p].value.index as int,
            #[trigger] consumes(rest[p].op)[k],
        ) by {
            assert(precedes(graph.id, nodes[p].value.index as int, consumes(nodes[p].op)[k]));
        }
        assert forall|p: int| 0 <= p < rest.len() implies graph.knows(
            (#[trigger] rest[p]).value,
        ) && rest[p].shape == graph.shape_of(rest[p].value) by {
            assert(graph.knows(nodes[p].value));
        }
        assert forall|p: int| 0 <= p < rest.len() implies match #[trigger] change(rest[p]) {
            Some(node) => {
                &&& node.value == rest[p].value
                &&& node.shape == rest[p].shape
                &&& forall|k: int|
                    0 <= k < consumes(node.op).len() ==> precedes(
                        graph.id,
                        node.value.index as int,
                        #[trigger] consumes(node.op)[k],
                    )
            },
            None => true,
        } by {
            let _ = change(nodes[p]);
            assert(rest[p] == nodes[p]);
        }
        lemma_sound_filter_map(graph, rest, change);
        let last = nodes.len() - 1;
        assert(nodes.last() == nodes[last]);
        assert(graph.knows(nodes[last].value));
        let kept = rest.filter_map(change);
        if rest.len() > 0 {
            assert(nodes[last - 1].value.index < nodes[last].value.index);
        }
        match change(nodes[last]) {
            Some(node) => {
                let all = kept + seq![node];
                assert(nodes.filter_map(change) == all);
                assert forall|p: int, q: int| 0 <= p < q < all.len() implies (
                #[trigger] all[p]).value.index < (#[trigger] all[q]).value.index by {
                    if q == kept.len() {
                        if p < kept.len() - 1 {
                            assert(kept[p].value.index < kept[kept.len() - 1].value.index);
                        }
                        assert(kept.last() == kept[kept.len() - 1]);
                        assert(rest.last() == nodes[last - 1]);
                    } else {
                        assert(kept[p].value.index < kept[q].value.index);
                    }
                }
                assert forall|p: int, k: int|
                    0 <= p < all.len() && 0 <= k < consumes(all[p].op).len() implies precedes(
                    graph.id,
                    all[p].value.index as int,
                    #[trigger] consumes(all[p].op)[k],
                ) by {
                    if p < kept.len() {
                        assert(precedes(
                            graph.id,
                            kept[p].value.index as int,
                            consumes(kept[p].op)[k],
                        ));
                    }
                }
                assert forall|p: int| 0 <= p < all.len() implies graph.knows(
                    (#[trigger] all[p]).value,
                ) && all[p].shape == graph.shape_of(all[p].value) by {
                    if p < kept.len() {
                        assert(graph.knows(kept[p].value));
                    }
                }
            },
            None => {
                assert(nodes.filter_map(change) == kept);
            },
        }
    }
}

/// The nodes of a plan are sound.
pub proof fn lemma_plan_nodes_sound(plan: TensorExecutionPlan<'_>)
    requires
        plan.wf(),
    ensures
        sound_nodes(*plan.graph, plan.node_models()),
{
    let graph = *plan.graph;
    let nodes = plan.node_models();
    assert(graph.nodes.len() == graph.nodes@.len());
    assert forall|p: int| 0 <= p < nodes.len() implies graph.knows((#[trigger] nodes[p]).value)
        && nodes[p].shape == graph.shape_of(nodes[p].value) && nodes[p].value
        == plan.node_order@[p] by {
        assert(graph.knows(plan.node_order@[p]));
    }
    assert forall|p: int, k: int|
        0 <= p < nodes.len() && 0 <= k < consumes(nodes[p].op).len() implies precedes(
        graph.id,
        nodes[p].value.index as int,
        #[trigger] consumes(nodes[p].op)[k],
    ) by {
        let at = plan.node_order@[p].index as int;
        assert(graph.knows(plan.node_order@[p]));
        lemma_described_reads(&graph.nodes@[at].op);
        assert(node_wf(graph.id, graph.nodes@, at));
        assert(precedes(graph.id, at, reads(graph.nodes@[at].op)[k]));
    }
    assert forall|p: int, q: int| 0 <= p < q < nodes.len() implies (
    #[trigger] nodes[p]).value.index < (#[trigger] nodes[q]).value.index by {
        assert(graph.knows(plan.node_order@[p]));
        assert(graph.knows(plan.node_order@[q]));
        assert(plan.node_order@[p].index < plan.node_order@[q].index);
    }
}

/// What a replacement reads stands before its result.
proof fn lemma_candidate_reads(plan: TensorExecutionPlan<'_>, value: ValueId)
    requires
        plan.wf(),
        plan.graph.knows(value),
        plan.candidate_for(value) is Some,
    ensures
        ({
            let candidate = plan.candidate_for(value)->Some_0;
            &&& candidate.output == value
            &&& precedes(plan.graph.id, value.index as int, candidate.weights)
            &&& precedes(plan.graph.id, value.index as int, candidate.gradient)
        }),
{
    let nodes = plan.graph.nodes@;
    let candidate = plan.candidate_for(value)->Some_0;
    let op = nodes[value.index as int].op;
    assert(node_wf(plan.graph.id, nodes, value.index as int));
    assert(reads(op)[0] == candidate.weights && reads(op)[1] == candidate.multiply);
    assert(precedes(plan.graph.id, value.index as int, reads(op)[0]));
    assert(precedes(plan.graph.id, value.index as int, reads(op)[1]));
    let inner = nodes[candidate.multiply.index as int].op;
    assert(node_wf(plan.graph.id, nodes, candidate.multiply.index as int));
    assert(reads(inner)[1] == candidate.gradient);
    assert(precedes(plan.graph.id, candidate.multiply.index as int, reads(inner)[1]));
}

/// A found rewrite is one of the candidates.
pub proof fn lemma_rewrite_is_candidate(candidates: Seq<TensorSgdRewriteCandidate>, value: ValueId)
    ensures
        rewrite_of(candidates, value) matches Some(found) ==> candidates.contains(found)
            && found.output == value,
    decreases candidates.len(),
{
    if candidates.len() > 0 && candidates[0].output != value {
        lemma_rewrite_is_candidate(candidates.drop_first(), value);
        if let Some(found) = rewrite_of(candidates.drop_first(), value) {
            let k = candidates.drop_first().index_of(found);
            assert(candidates[k + 1] == found);
        }
    }
}

/// The rewritten nodes of a plan are sound.
pub proof fn lemma_rewritten_sound(
    plan: TensorExecutionPlan<'_>,
    policy: TensorArithmeticRewritePolicy,
    target: TensorArithmeticCapability,
)
    requires
        plan.wf(),
    ensures
        sound_nodes(*plan.graph, rewritten(plan.candidates(policy, target), plan.node_models())),
{
    let candidates = plan.candidates(policy, target);
    let nodes = plan.node_models();
    let graph = *plan.graph;
    lemma_plan_nodes_sound(plan);
    let change = |node: NodeModel<'_>| rewritten_node(candidates, node);
    assert forall|p: int| 0 <= p < nodes.len() implies match #[trigger] change(nodes[p]) {
        Some(node) => {
            &&& node.value == nodes[p].value
            &&& node.shape == nodes[p].shape
            &&& forall|k: int|
                0 <= k < consumes(node.op).len() ==> precedes(
                    graph.id,
                    node.value.index as int,
                    #[trigger] consumes(node.op)[k],
                )
        },
        None => true,
    } by {
        let value = nodes[p].value;
        assert(graph.knows(value));
        lemma_rewrite_is_candidate(candidates, value);
        match rewrite_of(candidates, value) {
            Some(found) => {
                let choice = |value: ValueId| plan.candidate_for(value);
                plan.node_order@.lemma_filter_map_contains(choice, found);
                let source = choose|source: ValueId| #[trigger]
                    plan.node_order@.contains(source) && choice(source) == Some(found);
                let q = plan.node_order@.index_of(source);
                assert(graph.knows(plan.node_order@[q]));
                lemma_candidate_reads(plan, source);
            },
            None => {
                assert forall|k: int| 0 <= k < consumes(nodes[p].op).len() implies precedes(
                    graph.id,
                    nodes[p].value.index as int,
                    #[trigger] consumes(nodes[p].op)[k],
                ) by {}
            },
        }
    }
    lemma_sound_filter_map(graph, nodes, change);
}

/// Taking out orphans keeps the nodes sound.
pub proof fn lemma_without_orphans_sound<'a>(
    graph: Graph,
    candidates: Seq<TensorSgdRewriteCandidate>,
    nodes: Seq<NodeModel<'a>>,
    outputs: Seq<ValueId>,
)
    requires
        sound_nodes(graph, nodes),
    ensures
        sound_nodes(graph, without_orphans(candidates, nodes, outputs)),
{
    let keep = |node: NodeModel<'a>|
        if orphaned(nodes, outputs, node) {
            None
        } else {
            Some(node)
        };
    assert forall|p: int| 0 <= p < nodes.len() implies match #[trigger] keep(nodes[p]) {
        Some(node) => {
            &&& node.value == nodes[p].value
            &&& node.shape == nodes[p].shape
            &&& forall|k: int|
                0 <= k < consumes(node.op).len() ==> precedes(
                    graph.id,
                    node.value.index as int,
                    #[trigger] consumes(node.op)[k],
                )
        },
        None => true,
    } by {
        assert forall|k: int| 0 <= k < consumes(nodes[p].op).len() implies precedes(
            graph.id,
            nodes[p].value.index as int,
            #[trigger] consumes(nodes[p].op)[k],
        ) by {}
    }
    lemma_sound_filter_map(graph, nodes, keep);
}

/// Applies the replacements to the nodes of a plan.
pub fn rewrite_nodes<'a>(
    candidates: &[TensorSgdRewriteCandidate],
    nodes: &[NodeDescriptor<'a>],
) -> (changed: Vec<NodeDescriptor<'a>>)
    ensures
        node_models(changed@) == rewritten(candidates@, node_models(nodes@)),
{
    let ghost models = node_models(nodes@);
    let ghost change = |node: NodeModel<'a>| rewritten_node(candidates@, node);
    let mut omit: Vec<ValueId> = Vec::with_capacity(candidates.len());
    while omit.len() < candidates.len()
        invariant
            omit@.len() <= candidates@.len(),
            forall|i: int| 0 <= i < omit@.len() ==> #[trigger] omit@[i] == candidates@[i].multiply,
        decreases candidates@.len() - omit@.len(),
    {
        omit.push(candidates[omit.len()].multiply);
    }
    assert(omit@ =~= omitted(candidates@));
    let mut changed: Vec<NodeDescriptor<'a>> = Vec::with_capacity(nodes.len());
    let mut at: usize = 0;
    proof {
        assert(models.take(0).filter_map(change) =~= Seq::empty());
        assert(node_models(changed@) =~= Seq::empty());
    }
    while at < nodes.len()
        invariant
            at <= nodes@.len(),
            models == node_models(nodes@),
            change == (|node: NodeModel<'a>| rewritten_node(candidates@, node)),
            omit@ == omitted(candidates@),
            node_models(changed@) == models.take(at as int).filter_map(change),
        decreases nodes@.len() - at,
    {
        let mut node: NodeDescriptor<'a> = nodes[at];
        let ghost before = changed@;
        proof {
            models.lemma_filter_map_take_succ(change, at as int);
            assert(models[at as int] == node@);
        }
        if !contains_value(omit.as_slice(), node.value) {
            if let Some(candidate) = find_rewrite(candidates, node.value) {
                node.op =
                OpDescriptor::SgdUpdate {
                    weights: candidate.weights,
                    gradient: candidate.gradient,
                    learning_rate: candidate.learning_rate,
                };
            }
            assert(change(models[at as int]) == Some(node@));
            changed.push(node);
            assert(node_models(changed@) =~= node_models(before).push(node@));
        }
        at += 1;
    }
    assert(models.take(at as int) =~= models);
    changed
}

} // verus!
