//! Execution plans: the dependency closure of the requested outputs in stable append order, with
//! use counts, lifetimes and storage facts.
use vstd::prelude::*;
use vstd::slice::slice_to_vec;

use super::closure::{closed_under_reads, lemma_reaches_operand, needed, reaches};
use super::descriptor::{
    lemma_described_reads, node_models, node_steps, read_only, schedule_nodes, NodeDescriptor,
    NodeModel,
};
use super::error::{contains_value, TensorError, ValueId};
use super::graph::{node_wf, operands, precedes, reads, Graph, Op};
use super::peak::{in_order, peak_bytes, peak_of};
use super::schedule::{
    constrain, constraints_answer, count_uses, distinct_steps, index_steps, indexes, last_live,
    last_read, last_uses, narrow, of_one_graph, step_models, use_count, LiveValue, ScheduleStep,
    StepModel, ABSENT,
};
use super::storage::{node_output_bytes, output_bytes, TensorStorageConstraint, TensorValueLiveness};

verus! {

/// Stable execution order and checked storage and liveness facts for a graph.
///
/// Lifetimes are inclusive: an operand remains live through its final reader. The peak is absent
/// when a value extent or an accumulation overflows.
#[derive(Debug)]
pub struct TensorExecutionPlan<'a> {
    pub graph: &'a Graph,
    pub node_order: Vec<ValueId>,
    pub input_values: Vec<ValueId>,
    pub output_values: Vec<ValueId>,
    pub value_liveness: Vec<TensorValueLiveness>,
    pub index_by_value: Vec<usize>,
    pub use_counts: Vec<usize>,
    pub peak_live_bytes: Option<usize>,
}

impl Graph {
    /// Every use of every value can be counted in a `usize`. A node takes more than eighteen
    /// bytes, so every graph that fits in memory is countable.
    pub open spec fn countable(self) -> bool {
        18 * self.nodes@.len() <= usize::MAX
    }

    /// Why the request for the output at `k` is refused, if it is.
    pub open spec fn output_fault(self, outputs: Seq<ValueId>, k: int) -> Option<TensorError> {
        if !self.knows(outputs[k]) {
            Some(TensorError::UnknownValue(outputs[k]))
        } else if outputs.take(k).contains(outputs[k]) {
            Some(TensorError::DuplicateOutput(outputs[k]))
        } else {
            None
        }
    }

    /// All requested outputs are different values of this graph.
    pub open spec fn outputs_valid(self, outputs: Seq<ValueId>) -> bool {
        forall|k: int| 0 <= k < outputs.len() ==> #[trigger] self.output_fault(outputs, k) is None
    }

    /// The node at `at` is an input.
    pub open spec fn is_input(self, value: ValueId) -> bool {
        self.nodes@[value.index as int].op is Input
    }
}

/// The facts about one planned value.
pub open spec fn liveness_at(graph: Graph, order: Seq<ValueId>, steps: Seq<StepModel>, outputs: Seq<ValueId>, p: int) -> TensorValueLiveness {
    TensorValueLiveness {
        value: order[p],
        output_bytes: output_bytes(graph.shape_of(order[p])),
        first_live_node: p as usize,
        last_live_node: last_live(steps, outputs, p) as usize,
    }
}

impl<'a> TensorExecutionPlan<'a> {
    /// The planned nodes, in order.
    pub open spec fn node_models(&self) -> Seq<NodeModel<'a>> {
        Seq::new(
            self.node_order@.len(),
            |p: int| self.graph.node_at(self.node_order@[p].index as int),
        )
    }

    /// The plan as a schedule.
    pub open spec fn steps(&self) -> Seq<StepModel> {
        node_steps(self.node_models())
    }

    /// The value is in the plan's dependency closure.
    pub open spec fn includes(&self, value: ValueId) -> bool {
        self.graph.knows(value) && needed(
            self.graph.nodes@,
            self.output_values@,
            value.index as int,
        )
    }

    /// The order holds exactly the needed nodes, as they were appended, and the table finds them.
    pub open spec fn ordered(&self) -> bool {
        let graph = *self.graph;
        let order = self.node_order@;
        let table = self.index_by_value@;
        &&& forall|p: int| 0 <= p < order.len() ==> graph.knows(#[trigger] order[p])
        &&& forall|p: int, q: int|
            0 <= p < q < order.len() ==> (#[trigger] order[p]).index < (#[trigger] order[q]).index
        &&& table.len() == graph.nodes@.len()
        &&& indexes(table, self.steps())
        &&& forall|i: int|
            0 <= i < table.len() ==> (#[trigger] table[i] != ABSENT <==> needed(
                graph.nodes@,
                self.output_values@,
                i,
            ))
    }

    /// Everything that the plan records follows from the graph and the requested outputs.
    pub open spec fn wf(&self) -> bool {
        let graph = *self.graph;
        let order = self.node_order@;
        let outputs = self.output_values@;
        &&& graph.wf()
        &&& graph.countable()
        &&& graph.outputs_valid(outputs)
        &&& outputs.len() <= graph.nodes@.len()
        &&& self.ordered()
        &&& self.input_values@ == order.filter(|value: ValueId| graph.is_input(value))
        &&& self.use_counts@.len() == order.len()
        &&& forall|p: int|
            0 <= p < order.len() ==> #[trigger] self.use_counts@[p] == use_count(
                self.steps(),
                outputs,
                order[p],
            )
        &&& self.value_liveness@.len() == order.len()
        &&& forall|p: int|
            0 <= p < order.len() ==> #[trigger] self.value_liveness@[p] == liveness_at(
                graph,
                order,
                self.steps(),
                outputs,
                p,
            )
        &&& self.peak_live_bytes == peak_of(self.value_liveness@)
    }
}

/// Steps of graph nodes belong to the graph and are narrow.
proof fn lemma_plan_steps(graph: Graph, order: Seq<ValueId>, steps: Seq<StepModel>)
    requires
        graph.wf(),
        forall|p: int| 0 <= p < order.len() ==> graph.knows(#[trigger] order[p]),
        forall|p: int, q: int|
            0 <= p < q < order.len() ==> (#[trigger] order[p]).index < (#[trigger] order[q]).index,
        steps.len() == order.len(),
        forall|p: int|
            0 <= p < order.len() ==> #[trigger] steps[p] == graph.node_at(
                order[p].index as int,
            ).step(),
    ensures
        of_one_graph(steps, Seq::empty(), graph.id),
        narrow(steps, 2),
        distinct_steps(steps),
        forall|p: int| 0 <= p < order.len() ==> (#[trigger] steps[p]).value == order[p],
        forall|p: int, k: int|
            0 <= p < steps.len() && 0 <= k < steps[p].reads.len() ==> (
            #[trigger] steps[p].reads[k]).index < order[p].index,
{
    assert forall|p: int| 0 <= p < order.len() implies {
        &&& (#[trigger] steps[p]).value == order[p]
        &&& steps[p].reads.len() <= 2
        &&& steps[p].reads == reads(graph.nodes@[order[p].index as int].op)
    } by {
        let at = order[p].index as int;
        assert(graph.knows(order[p]));
        assert(steps[p] == graph.node_at(at).step());
        lemma_described_reads(&graph.nodes@[at].op);
    }
    assert forall|p: int, k: int| 0 <= p < steps.len() && 0 <= k < steps[p].reads.len() implies (
    #[trigger] steps[p].reads[k]).graph_id == graph.id && steps[p].reads[k].index
        < order[p].index by {
        let at = order[p].index as int;
        assert(graph.knows(order[p]));
        assert(steps[p].reads == reads(graph.nodes@[at].op));
        assert(node_wf(graph.id, graph.nodes@, at));
        assert(precedes(graph.id, at, reads(graph.nodes@[at].op)[k]));
    }
}

/// In a topologically ordered schedule no value is read before it is produced.
pub proof fn lemma_last_live_range(steps: Seq<StepModel>, outputs: Seq<ValueId>, own: int)
    requires
        0 <= own < steps.len(),
        forall|p: int| 0 <= p <= own ==> !(#[trigger] steps[p]).reads.contains(steps[own].value),
    ensures
        own <= last_live(steps, outputs, own) < steps.len(),
{
    lemma_last_read_range(steps, steps[own].value, own);
}

proof fn lemma_last_read_range(steps: Seq<StepModel>, value: ValueId, own: int)
    requires
        0 <= own,
        forall|p: int|
            0 <= p <= own && p < steps.len() ==> !(#[trigger] steps[p]).reads.contains(value),
    ensures
        own <= last_read(steps, value, own),
        last_read(steps, value, own) == own || last_read(steps, value, own) < steps.len(),
    decreases steps.len(),
{
    if steps.len() > 0 {
        let rest = steps.drop_last();
        if steps.last().reads.contains(value) {
            assert(steps[steps.len() - 1].reads.contains(value));
        } else {
            assert forall|p: int| 0 <= p <= own && p < rest.len() implies !(
            #[trigger] rest[p]).reads.contains(value) by {
                assert(rest[p] == steps[p]);
            }
            lemma_last_read_range(rest, value, own);
        }
    }
}

/// Distinct values of a graph are at most as many as its nodes.
proof fn lemma_distinct_outputs_bounded(graph: Graph, outputs: Seq<ValueId>)
    requires
        graph.outputs_valid(outputs),
    ensures
        outputs.len() <= graph.nodes@.len(),
{
    let places = outputs.map_values(|v: ValueId| v.index as int);
    assert forall|j: int, k: int| 0 <= j < k < places.len() implies places[j] != places[k] by {
        assert(graph.output_fault(outputs, j) is None);
        assert(graph.output_fault(outputs, k) is None);
        if places[j] == places[k] {
            assert(outputs[j] == outputs[k]);
            assert(outputs.take(k)[j] == outputs[k]);
        }
    }
    assert(places.no_duplicates());
    places.unique_seq_to_set();
    let all = vstd::set_lib::set_int_range(0, graph.nodes@.len() as int);
    vstd::set_lib::lemma_int_range(0, graph.nodes@.len() as int);
    assert forall|i: int| places.to_set().contains(i) implies all.contains(i) by {
        let k = choose|k: int| 0 <= k < places.len() && places[k] == i;
        assert(graph.output_fault(outputs, k) is None);
    }
    vstd::set_lib::lemma_len_subset(places.to_set(), all);
}

impl Graph {
    /// Builds a plan for the dependency closure of the requested outputs.
    ///
    /// Node order is stable append order, output order matches the request, and requested outputs
    /// remain live through the end of the plan. Unrelated graph nodes are omitted.
    ///
    /// # Errors
    ///
    /// `EmptyOutputs`, or the first refused output: `UnknownValue` for one of another graph,
    /// `DuplicateOutput` for a repeated one.
    pub fn execution_plan_for_outputs(&self, outputs: &[ValueId]) -> (answer: Result<
        TensorExecutionPlan<'_>,
        TensorError,
    >)
        requires
            self.wf(),
            self.countable(),
        ensures
            match answer {
                Ok(plan) => {
                    &&& outputs@.len() > 0
                    &&& self.outputs_valid(outputs@)
                    &&& plan.graph == self
                    &&& plan.output_values@ == outputs@
                    &&& plan.wf()
                },
                Err(e) => {
                    ||| outputs@.len() == 0 && e == TensorError::EmptyOutputs
                    ||| exists|k: int|
                        {
                            &&& 0 <= k < outputs@.len()
                            &&& #[trigger] self.output_fault(outputs@, k) == Some(e)
                            &&& forall|j: int|
                                0 <= j < k ==> #[trigger] self.output_fault(outputs@, j) is None
                        }
                },
            },
    {
        if outputs.len() == 0 {
            return Err(TensorError::EmptyOutputs);
        }
        self.check_outputs(outputs)?;
        proof {
            lemma_distinct_outputs_bounded(*self, outputs@);
        }
        let marked: Vec<bool> = self.mark_outputs(outputs);
        Ok(self.plan_marked(outputs, marked.as_slice()))
    }

    /// Checks that all requested outputs are different values of this graph.
    fn check_outputs(&self, outputs: &[ValueId]) -> (answer: Result<(), TensorError>)
        ensures
            match answer {
                Ok(()) => self.outputs_valid(outputs@),
                Err(e) => exists|k: int|
                    {
                        &&& 0 <= k < outputs@.len()
                        &&& #[trigger] self.output_fault(outputs@, k) == Some(e)
                        &&& forall|j: int|
                            0 <= j < k ==> #[trigger] self.output_fault(outputs@, j) is None
                    },
            },
    {
        let mut requested: Vec<ValueId> = Vec::with_capacity(outputs.len());
        let mut k: usize = 0;
        while k < outputs.len()
            invariant
                k <= outputs@.len(),
                requested@ == outputs@.take(k as int),
                forall|j: int| 0 <= j < k ==> #[trigger] self.output_fault(outputs@, j) is None,
            decreases outputs@.len() - k,
        {
            let output: ValueId = outputs[k];
            if output.graph_id != self.id || output.index >= self.nodes.len() {
                assert(self.output_fault(outputs@, k as int) == Some(
                    TensorError::UnknownValue(output),
                ));
                return Err(TensorError::UnknownValue(output));
            }
            if contains_value(requested.as_slice(), output) {
                assert(self.output_fault(outputs@, k as int) == Some(
                    TensorError::DuplicateOutput(output),
                ));
                return Err(TensorError::DuplicateOutput(output));
            }
            requested.push(output);
            assert(requested@ =~= outputs@.take(k + 1));
            k += 1;
        }
        Ok(())
    }

    /// Marks what the requested outputs need.
    fn mark_outputs(&self, outputs: &[ValueId]) -> (marked: Vec<bool>)
        requires
            self.wf(),
            self.outputs_valid(outputs@),
        ensures
            marked@.len() == self.nodes@.len(),
            forall|i: int|
                0 <= i < marked@.len() ==> (#[trigger] marked@[i] <==> needed(
                    self.nodes@,
                    outputs@,
                    i,
                )),
    {
        let ghost nodes = self.nodes@;
        let mut marked: Vec<bool> = Vec::with_capacity(self.nodes.len());
        while marked.len() < self.nodes.len()
            invariant
                marked@.len() <= self.nodes@.len(),
                forall|i: int| 0 <= i < marked@.len() ==> !marked@[i],
            decreases self.nodes@.len() - marked@.len(),
        {
            marked.push(false);
        }
        let mut k: usize = 0;
        while k < outputs.len()
            invariant
                self.wf(),
                self.outputs_valid(outputs@),
                nodes == self.nodes@,
                k <= outputs@.len(),
                marked@.len() == nodes.len(),
                closed_under_reads(nodes, marked@),
                forall|i: int|
                    0 <= i < marked@.len() ==> (#[trigger] marked@[i] <==> needed(
                        nodes,
                        outputs@.take(k as int),
                        i,
                    )),
            decreases outputs@.len() - k,
        {
            let output: ValueId = outputs[k];
            assert(self.output_fault(outputs@, k as int) is None);
            let ghost before = marked@;
            self.mark_needed(output.index, &mut marked);
            proof {
                let done = outputs@.take(k as int);
                let more = outputs@.take(k + 1);
                assert forall|i: int| 0 <= i < marked@.len() implies (#[trigger] marked@[i]
                    <==> needed(nodes, more, i)) by {
                    assert(before[i] <==> needed(nodes, done, i));
                    if needed(nodes, done, i) {
                        let j = choose|j: int|
                            0 <= j < done.len() && reaches(
                                nodes,
                                (#[trigger] done[j]).index as int,
                                i,
                            );
                        assert(more[j] == done[j]);
                    }
                    if reaches(nodes, output.index as int, i) {
                        assert(more[k as int] == output);
                    }
                    if needed(nodes, more, i) {
                        let j = choose|j: int|
                            0 <= j < more.len() && reaches(
                                nodes,
                                (#[trigger] more[j]).index as int,
                                i,
                            );
                        if j < k {
                            assert(done[j] == more[j]);
                        }
                    }
                }
            }
            k += 1;
        }
        assert(outputs@.take(k as int) =~= outputs@);
        marked
    }

    /// Assembles the plan of a checked request.
    fn plan_marked(&self, outputs: &[ValueId], marked: &[bool]) -> (plan: TensorExecutionPlan<'_>)
        requires
            self.wf(),
            self.countable(),
            self.outputs_valid(outputs@),
            outputs@.len() <= self.nodes@.len(),
            marked@.len() == self.nodes@.len(),
            forall|i: int|
                0 <= i < marked@.len() ==> (#[trigger] marked@[i] <==> needed(
                    self.nodes@,
                    outputs@,
                    i,
                )),
        ensures
            plan.graph == self,
            plan.output_values@ == outputs@,
            plan.wf(),
    {
        let ghost nodes = self.nodes@;
        let mut node_order: Vec<ValueId> = Vec::new();
        let mut described: Vec<NodeDescriptor<'_>> = Vec::new();
        let mut index: usize = 0;
        while index < marked.len()
            invariant
                nodes == self.nodes@,
                marked@.len() == nodes.len(),
                index <= marked@.len(),
                node_order@.len() <= index,
                described@.len() == node_order@.len(),
                forall|p: int|
                    0 <= p < node_order@.len() ==> self.knows(#[trigger] node_order@[p])
                        && node_order@[p].index < index,
                forall|p: int|
                    0 <= p < node_order@.len() ==> (#[trigger] described@[p])@ == self.node_at(
                        node_order@[p].index as int,
                    ),
                forall|p: int, q: int|
                    0 <= p < q < node_order@.len() ==> (#[trigger] node_order@[p]).index < (
                    #[trigger] node_order@[q]).index,
                forall|p: int| 0 <= p < node_order@.len() ==> marked@[(
                #[trigger] node_order@[p]).index as int],
                forall|i: int|
                    0 <= i < index && #[trigger] marked@[i] ==> node_order@.contains(
                        self.value_at(i),
                    ),
            decreases marked@.len() - index,
        {
            if marked[index] {
                let ghost before = node_order@;
                node_order.push(ValueId { graph_id: self.id, index });
                described.push(self.node_descriptor(index));
                proof {
                    assert(node_order@[before.len() as int] == self.value_at(index as int));
                    assert forall|i: int| 0 <= i <= index && #[trigger] marked@[i] implies
                        node_order@.contains(self.value_at(i)) by {
                        if i < index {
                            assert(before.contains(self.value_at(i)));
                            let p = before.index_of(self.value_at(i));
                            assert(node_order@[p] == self.value_at(i));
                        }
                    }
                }
            }
            index += 1;
        }
        let steps: Vec<ScheduleStep> = schedule_nodes(described.as_slice());
        let ghost models = step_models(steps@);
        proof {
            assert forall|p: int| 0 <= p < node_order@.len() implies #[trigger] models[p]
                == self.node_at(node_order@[p].index as int).step() by {
                assert(described@[p]@ == self.node_at(node_order@[p].index as int));
            }
            lemma_plan_steps(*self, node_order@, models);
            assert forall|p: int| 0 <= p < steps@.len() implies (#[trigger] steps@[p]).value.index
                < nodes.len() by {
                assert(self.knows(node_order@[p]));
                assert(models[p].value == node_order@[p]);
            }
            assert forall|k: int| 0 <= k < outputs@.len() implies (
            #[trigger] outputs@[k]).graph_id == self.id by {
                assert(self.output_fault(outputs@, k) is None);
            }
            assert(of_one_graph(models, outputs@, self.id));
        }
        let table: Vec<usize> = index_steps(steps.as_slice(), self.nodes.len());
        let use_counts: Vec<usize> = count_uses(
            steps.as_slice(),
            outputs,
            table.as_slice(),
            Ghost(self.id),
            Ghost(2),
        );
        let last: Vec<usize> = last_uses(
            steps.as_slice(),
            outputs,
            table.as_slice(),
            Ghost(self.id),
        );
        let mut input_values: Vec<ValueId> = Vec::new();
        let mut value_liveness: Vec<TensorValueLiveness> = Vec::with_capacity(node_order.len());
        let ghost is_input = |value: ValueId| self.is_input(value);
        let mut at: usize = 0;
        proof {
            reveal_with_fuel(Seq::filter, 1);
            assert(node_order@.take(0).filter(is_input) =~= Seq::empty());
        }
        while at < node_order.len()
            invariant
                at <= node_order@.len(),
                nodes == self.nodes@,
                is_input == (|value: ValueId| self.is_input(value)),
                forall|p: int| 0 <= p < node_order@.len() ==> self.knows(#[trigger] node_order@[p]),
                input_values@ == node_order@.take(at as int).filter(is_input),
                last@.len() == node_order@.len(),
                value_liveness@.len() == at,
                forall|p: int|
                    0 <= p < at ==> #[trigger] value_liveness@[p] == (TensorValueLiveness {
                        value: node_order@[p],
                        output_bytes: output_bytes(self.shape_of(node_order@[p])),
                        first_live_node: p as usize,
                        last_live_node: last@[p],
                    }),
            decreases node_order@.len() - at,
        {
            let value: ValueId = node_order[at];
            assert(self.knows(value));
            proof {
                node_order@.take(at + 1).lemma_filter_push(value, is_input);
                assert(node_order@.take(at + 1) =~= node_order@.take(at as int).push(value));
                node_order@.take(at as int).lemma_filter_push(value, is_input);
            }
            if let Op::Input = self.nodes[value.index].op {
                input_values.push(value);
            }
            value_liveness.push(
                TensorValueLiveness {
                    value,
                    output_bytes: node_output_bytes(self.nodes[value.index].shape.as_slice()),
                    first_live_node: at,
                    last_live_node: last[at],
                },
            );
            at += 1;
        }
        proof {
            assert(node_order@.take(at as int) =~= node_order@);
            assert forall|p: int| 0 <= p < value_liveness@.len() implies {
                &&& (#[trigger] value_liveness@[p]).first_live_node == p
                &&& p <= value_liveness@[p].last_live_node < value_liveness@.len()
            } by {
                assert forall|q: int| 0 <= q <= p implies !(#[trigger] models[q]).reads.contains(
                    models[p].value,
                ) by {
                    if models[q].reads.contains(models[p].value) {
                        let k = models[q].reads.index_of(models[p].value);
                        assert(models[q].reads[k].index < node_order@[q].index);
                        assert(models[p].value == node_order@[p]);
                        if q < p {
                            assert(node_order@[q].index < node_order@[p].index);
                        }
                    }
                }
                lemma_last_live_range(models, outputs@, p);
                assert(last@[p] == last_live(models, outputs@, p));
            }
            assert(in_order(value_liveness@));
        }
        let peak_live_bytes: Option<usize> = peak_bytes(value_liveness.as_slice());
        let plan = TensorExecutionPlan {
            graph: self,
            node_order,
            input_values,
            output_values: slice_to_vec(outputs),
            value_liveness,
            index_by_value: table,
            use_counts,
            peak_live_bytes,
        };
        proof {
            assert(plan.steps() =~= models);
            assert forall|i: int| 0 <= i < plan.index_by_value@.len() implies (
            #[trigger] plan.index_by_value@[i] != ABSENT <==> needed(nodes, outputs@, i)) by {
                assert(marked@[i] <==> needed(nodes, outputs@, i));
                if marked@[i] {
                    let p = plan.node_order@.index_of(self.value_at(i));
                    assert(plan.node_order@[p] == self.value_at(i));
                    assert(models[p].value == plan.node_order@[p]);
                }
                if plan.index_by_value@[i] != ABSENT {
                    let p = plan.index_by_value@[i] as int;
                    assert(models[p].value == plan.node_order@[p]);
                }
            }
            assert(plan.ordered());
            assert forall|p: int| 0 <= p < plan.node_order@.len() implies
                #[trigger] plan.use_counts@[p] == use_count(
                plan.steps(),
                outputs@,
                plan.node_order@[p],
            ) by {
                assert(models[p].value == plan.node_order@[p]);
                assert(steps@[p].value == models[p].value);
            }
            assert forall|p: int| 0 <= p < plan.node_order@.len() implies
                #[trigger] plan.value_liveness@[p] == liveness_at(
                *self,
                plan.node_order@,
                plan.steps(),
                outputs@,
                p,
            ) by {
                assert(last@[p] == last_live(models, outputs@, p));
            }
        }
        plan
    }
}

impl Graph {
    /// No node reads `value`.
    pub open spec fn terminal(self, value: ValueId) -> bool {
        forall|j: int|
            0 <= j < self.nodes@.len() ==> !reads((#[trigger] self.nodes@[j]).op).contains(value)
    }

    /// All values, in append order.
    pub open spec fn values(self) -> Seq<ValueId> {
        Seq::new(self.nodes@.len(), |i: int| self.value_at(i))
    }

    /// The values that no node reads, in append order.
    pub open spec fn terminals(self) -> Seq<ValueId> {
        self.values().filter(|value: ValueId| self.terminal(value))
    }

    /// Whether no node reads `value`.
    fn is_terminal(&self, value: ValueId) -> (answer: bool)
        ensures
            answer == self.terminal(value),
    {
        let mut at: usize = 0;
        while at < self.nodes.len()
            invariant
                at <= self.nodes@.len(),
                forall|j: int|
                    0 <= j < at ==> !reads((#[trigger] self.nodes@[j]).op).contains(value),
            decreases self.nodes@.len() - at,
        {
            let read: Vec<ValueId> = operands(&self.nodes[at].op);
            if contains_value(read.as_slice(), value) {
                assert(reads(self.nodes@[at as int].op).contains(value));
                return false;
            }
            at += 1;
        }
        true
    }

    /// Builds a plan for every value that no node reads.
    pub fn execution_plan(&self) -> (plan: TensorExecutionPlan<'_>)
        requires
            self.wf(),
            self.countable(),
        ensures
            plan.graph == self,
            plan.output_values@ == self.terminals(),
            plan.wf(),
    {
        let ghost chosen = |value: ValueId| self.terminal(value);
        let mut outputs: Vec<ValueId> = Vec::new();
        let mut at: usize = 0;
        proof {
            assert(self.values().take(0).filter(chosen) =~= Seq::empty());
        }
        while at < self.nodes.len()
            invariant
                at <= self.nodes@.len(),
                chosen == (|value: ValueId| self.terminal(value)),
                outputs@ == self.values().take(at as int).filter(chosen),
                outputs@.len() <= at,
                forall|k: int|
                    0 <= k < outputs@.len() ==> self.knows(#[trigger] outputs@[k])
                        && outputs@[k].index < at,
                forall|j: int, k: int| 0 <= j < k < outputs@.len() ==> outputs@[j] != outputs@[k],
            decreases self.nodes@.len() - at,
        {
            let value: ValueId = ValueId { graph_id: self.id, index: at };
            proof {
                let values = self.values();
                assert(values[at as int] == value);
                assert(values.take(at + 1) =~= values.take(at as int).push(value));
                values.take(at as int).lemma_filter_push(value, chosen);
            }
            if self.is_terminal(value) {
                outputs.push(value);
            }
            at += 1;
        }
        proof {
            assert(self.values().take(at as int) =~= self.values());
            assert forall|k: int| 0 <= k < outputs@.len() implies #[trigger] self.output_fault(
                outputs@,
                k,
            ) is None by {
                assert(self.knows(outputs@[k]));
                if outputs@.take(k).contains(outputs@[k]) {
                    let j = outputs@.take(k).index_of(outputs@[k]);
                    assert(outputs@[j] == outputs@[k]);
                }
            }
        }
        let marked: Vec<bool> = self.mark_outputs(outputs.as_slice());
        self.plan_marked(outputs.as_slice(), marked.as_slice())
    }
}

impl<'a> TensorExecutionPlan<'a> {
    /// The planned values, in append order.
    pub fn node_order(&self) -> (order: &[ValueId])
        ensures
            order@ == self.node_order@,
    {
        self.node_order.as_slice()
    }

    /// Borrowed descriptors for the nodes in this plan's dependency closure.
    pub fn nodes(&self) -> (nodes: Vec<NodeDescriptor<'a>>)
        requires
            self.wf(),
        ensures
            node_models(nodes@) == self.node_models(),
    {
        let mut nodes: Vec<NodeDescriptor<'a>> = Vec::with_capacity(self.node_order.len());
        while nodes.len() < self.node_order.len()
            invariant
                self.wf(),
                nodes@.len() <= self.node_order@.len(),
                forall|p: int|
                    0 <= p < nodes@.len() ==> (#[trigger] nodes@[p])@ == self.node_models()[p],
            decreases self.node_order@.len() - nodes@.len(),
        {
            let value: ValueId = self.node_order[nodes.len()];
            assert(self.graph.knows(value));
            nodes.push(self.graph.node_descriptor(value.index));
        }
        assert(node_models(nodes@) =~= self.node_models());
        nodes
    }

    pub fn input_values(&self) -> (values: &[ValueId])
        ensures
            values@ == self.input_values@,
    {
        self.input_values.as_slice()
    }

    pub fn output_values(&self) -> (values: &[ValueId])
        ensures
            values@ == self.output_values@,
    {
        self.output_values.as_slice()
    }

    /// The plan position of a graph value, if it is in the dependency closure.
    pub fn index_of(&self, value: ValueId) -> (position: Option<usize>)
        requires
            self.wf(),
        ensures
            match position {
                Some(p) => {
                    &&& self.includes(value)
                    &&& p < self.node_order@.len()
                    &&& self.node_order@[p as int] == value
                },
                None => !self.includes(value),
            },
    {
        if value.graph_id != self.graph.id {
            return None;
        }
        let position: Option<usize> = super::schedule::position_in(
            self.index_by_value.as_slice(),
            value.index,
        );
        proof {
            if let Some(p) = position {
                assert(self.steps()[p as int].value == self.graph.value_at(
                    self.node_order@[p as int].index as int,
                ));
                assert(self.graph.knows(self.node_order@[p as int]));
            }
        }
        position
    }

    /// Operand-reader counts aligned with the node order. Requested outputs each receive one
    /// extra count, so a backend can keep them alive after their final graph consumer.
    pub fn use_counts(&self) -> (counts: &[usize])
        ensures
            counts@ == self.use_counts@,
    {
        self.use_counts.as_slice()
    }

    pub fn value_liveness(&self) -> (facts: &[TensorValueLiveness])
        ensures
            facts@ == self.value_liveness@,
    {
        self.value_liveness.as_slice()
    }

    pub fn peak_live_bytes(&self) -> (peak: Option<usize>)
        ensures
            peak == self.peak_live_bytes,
    {
        self.peak_live_bytes
    }

    /// What storage planning is told of the plan's values.
    pub open spec fn live_values(&self) -> Seq<LiveValue> {
        Seq::new(
            self.node_order@.len(),
            |p: int|
                LiveValue {
                    value: self.node_order@[p],
                    bytes: self.value_liveness@[p].output_bytes,
                    last: self.value_liveness@[p].last_live_node,
                    read_only: read_only(self.node_models()[p].op),
                },
        )
    }

    /// All pairwise storage disjointness requirements implied by live writable values.
    ///
    /// Lifetimes are inclusive, so values whose intervals touch at a node are both live there.
    /// Pairs of inputs and constants are omitted; every computed value has storage of its own.
    ///
    /// # Errors
    ///
    /// `ShapeOverflow` if a selected value's byte extent cannot be represented.
    pub fn storage_constraints(&self) -> (answer: Result<Vec<TensorStorageConstraint>, TensorError>)
        requires
            self.wf(),
        ensures
            constraints_answer(self.live_values(), answer),
    {
        let mut values: Vec<LiveValue> = Vec::with_capacity(self.node_order.len());
        while values.len() < self.node_order.len()
            invariant
                self.wf(),
                values@.len() <= self.node_order@.len(),
                forall|p: int|
                    0 <= p < values@.len() ==> #[trigger] values@[p] == self.live_values()[p],
            decreases self.node_order@.len() - values@.len(),
        {
            let at: usize = values.len();
            let value: ValueId = self.node_order[at];
            assert(self.graph.knows(value));
            let life: TensorValueLiveness = self.value_liveness[at];
            values.push(
                LiveValue {
                    value,
                    bytes: life.output_bytes,
                    last: life.last_live_node,
                    read_only: !self.is_writable_value(value),
                },
            );
        }
        assert(values@ =~= self.live_values());
        constrain(values.as_slice())
    }

    /// Whether a step computes the value.
    fn is_writable_value(&self, value: ValueId) -> (answer: bool)
        requires
            self.graph.knows(value),
        ensures
            answer == !read_only(self.graph.node_at(value.index as int).op),
    {
        match self.graph.nodes[value.index].op {
            Op::Input => false,
            Op::Constant(_) => false,
            Op::Uniform(_) => false,
            _ => true,
        }
    }
}

/// What a planned node reads is planned, at an earlier position.
pub proof fn law_plan_is_closed(plan: TensorExecutionPlan<'_>, p: int, k: int)
    requires
        plan.wf(),
        0 <= p < plan.node_order@.len(),
        0 <= k < plan.steps()[p].reads.len(),
    ensures
        plan.includes(plan.steps()[p].reads[k]),
        plan.node_order@.contains(plan.steps()[p].reads[k]),
        plan.index_by_value@[plan.steps()[p].reads[k].index as int] < p,
{
    let graph = *plan.graph;
    let at = plan.node_order@[p].index as int;
    let operand = plan.steps()[p].reads[k];
    assert(graph.knows(plan.node_order@[p]));
    lemma_described_reads(&graph.nodes@[at].op);
    assert(node_wf(graph.id, graph.nodes@, at));
    assert(precedes(graph.id, at, reads(graph.nodes@[at].op)[k]));
    assert(plan.steps()[p].value == graph.value_at(at));
    assert(plan.index_by_value@[at] == p);
    assert(plan.node_order.len() == plan.node_order@.len());
    assert(needed(graph.nodes@, plan.output_values@, at));
    let j = choose|j: int|
        0 <= j < plan.output_values@.len() && reaches(
            graph.nodes@,
            (#[trigger] plan.output_values@[j]).index as int,
            at,
        );
    lemma_reaches_operand(graph.nodes@, plan.output_values@[j].index as int, at, k);
    assert(needed(graph.nodes@, plan.output_values@, operand.index as int));
    let q = plan.index_by_value@[operand.index as int];
    assert(q != ABSENT);
    assert(plan.steps()[q as int].value.index == operand.index);
    assert(graph.knows(plan.node_order@[q as int]));
    assert(plan.node_order@[q as int] == operand);
    if q > p {
        assert(plan.node_order@[p].index < plan.node_order@[q as int].index);
    }
}

/// Requested outputs are planned, counted as used, and live to the end of the plan.
pub proof fn law_outputs_are_pinned(plan: TensorExecutionPlan<'_>, k: int)
    requires
        plan.wf(),
        0 <= k < plan.output_values@.len(),
    ensures
        plan.includes(plan.output_values@[k]),
        ({
            let p = plan.index_by_value@[plan.output_values@[k].index as int] as int;
            &&& 0 <= p < plan.node_order@.len()
            &&& plan.node_order@[p] == plan.output_values@[k]
            &&& plan.use_counts@[p] >= 1
            &&& plan.value_liveness@[p].last_live_node == plan.node_order@.len() - 1
        }),
{
    let graph = *plan.graph;
    let output = plan.output_values@[k];
    assert(graph.output_fault(plan.output_values@, k) is None);
    assert(reaches(graph.nodes@, output.index as int, output.index as int));
    assert(needed(graph.nodes@, plan.output_values@, output.index as int));
    let p = plan.index_by_value@[output.index as int] as int;
    assert(plan.steps()[p].value.index == output.index);
    assert(graph.knows(plan.node_order@[p]));
    super::schedule::lemma_occurrences_bound(plan.output_values@, output);
    assert(plan.output_values@.contains(output));
    assert(plan.use_counts@[p] == use_count(plan.steps(), plan.output_values@, output));
    assert(plan.value_liveness@[p] == liveness_at(
        graph,
        plan.node_order@,
        plan.steps(),
        plan.output_values@,
        p,
    ));
    assert(plan.node_order.len() == plan.node_order@.len());
}

/// A value is live at every position that reads it.
pub proof fn law_readers_are_within_lifetimes(plan: TensorExecutionPlan<'_>, p: int, k: int)
    requires
        plan.wf(),
        0 <= p < plan.node_order@.len(),
        0 <= k < plan.steps()[p].reads.len(),
    ensures
        ({
            let q = plan.index_by_value@[plan.steps()[p].reads[k].index as int] as int;
            plan.value_liveness@[q].first_live_node < p <= plan.value_liveness@[q].last_live_node
        }),
{
    law_plan_is_closed(plan, p, k);
    let operand = plan.steps()[p].reads[k];
    let q = plan.index_by_value@[operand.index as int] as int;
    assert(plan.steps()[q].value.index == operand.index);
    assert(plan.graph.knows(plan.node_order@[q]));
    assert(plan.value_liveness@[q] == liveness_at(
        *plan.graph,
        plan.node_order@,
        plan.steps(),
        plan.output_values@,
        q,
    ));
    lemma_last_read_at_least(plan.steps(), operand, q, p);
    lemma_last_read_below(plan.steps(), operand, q);
    assert(plan.node_order.len() == plan.node_order@.len());
}

proof fn lemma_last_read_at_least(steps: Seq<StepModel>, value: ValueId, own: int, p: int)
    requires
        0 <= p < steps.len(),
        steps[p].reads.contains(value),
    ensures
        p <= last_read(steps, value, own),
    decreases steps.len(),
{
    if !steps.last().reads.contains(value) {
        assert(steps.drop_last()[p] == steps[p]);
        lemma_last_read_at_least(steps.drop_last(), value, own, p);
    }
}

proof fn lemma_last_read_below(steps: Seq<StepModel>, value: ValueId, own: int)
    requires
        0 <= own < steps.len(),
    ensures
        0 <= last_read(steps, value, own) < steps.len(),
    decreases steps.len(),
{
    if !steps.last().reads.contains(value) {
        if own < steps.len() - 1 {
            lemma_last_read_below(steps.drop_last(), value, own);
        } else {
            lemma_last_read_own(steps.drop_last(), value, own);
        }
    }
}

proof fn lemma_last_read_own(steps: Seq<StepModel>, value: ValueId, own: int)
    requires
        steps.len() <= own,
    ensures
        0 <= last_read(steps, value, own) <= own,
    decreases steps.len(),
{
    if steps.len() > 0 && !steps.last().reads.contains(value) {
        lemma_last_read_own(steps.drop_last(), value, own);
    }
}

/// The plan of all terminal values holds every node of the graph, in append order.
pub proof fn law_whole_plan_holds_every_node(plan: TensorExecutionPlan<'_>)
    requires
        plan.wf(),
        plan.output_values@ == plan.graph.terminals(),
    ensures
        plan.node_order@ == plan.graph.values(),
{
    let graph = *plan.graph;
    let nodes = graph.nodes@;
    assert forall|i: int| 0 <= i < nodes.len() implies #[trigger] needed(
        nodes,
        plan.output_values@,
        i,
    ) by {
        lemma_every_node_is_needed(graph, i);
    }
    let order = plan.node_order@;
    assert forall|i: int| 0 <= i < nodes.len() implies {
        &&& 0 <= #[trigger] plan.index_by_value@[i] < order.len()
        &&& order[plan.index_by_value@[i] as int] == graph.value_at(i)
    } by {
        assert(needed(nodes, plan.output_values@, i));
        let p = plan.index_by_value@[i] as int;
        assert(plan.steps()[p].value.index == i);
        assert(graph.knows(order[p]));
    }
    lemma_order_is_dense(plan, nodes.len() as int);
    assert forall|p: int| 0 <= p < order.len() implies order[p] == graph.values()[p] by {
        assert(graph.knows(order[p]));
        lemma_order_index(plan, p);
    }
    assert(graph.nodes.len() == nodes.len());
    assert(order.len() == nodes.len()) by {
        if order.len() < nodes.len() {
            assert(plan.index_by_value@[order.len() as int] < order.len());
        }
        if order.len() > nodes.len() {
            lemma_order_index(plan, nodes.len() as int);
            assert(graph.knows(order[nodes.len() as int]));
        }
    }
    assert(order =~= graph.values());
}

/// The planned indices grow at least as fast as the positions.
proof fn lemma_order_index_low(plan: TensorExecutionPlan<'_>, p: int)
    requires
        plan.ordered(),
        0 <= p < plan.node_order@.len(),
    ensures
        p <= plan.node_order@[p].index,
    decreases p,
{
    if p > 0 {
        lemma_order_index_low(plan, p - 1);
        assert(plan.node_order@[p - 1].index < plan.node_order@[p].index);
    }
}

/// Where the table knows every node, position and index agree.
proof fn lemma_order_is_dense(plan: TensorExecutionPlan<'_>, count: int)
    requires
        plan.ordered(),
        0 <= count <= plan.graph.nodes@.len(),
        forall|i: int|
            0 <= i < plan.graph.nodes@.len() ==> {
                &&& 0 <= #[trigger] plan.index_by_value@[i] < plan.node_order@.len()
                &&& plan.node_order@[plan.index_by_value@[i] as int] == plan.graph.value_at(i)
            },
    ensures
        forall|i: int| 0 <= i < count ==> #[trigger] plan.index_by_value@[i] == i,
    decreases count,
{
    if count > 0 {
        lemma_order_is_dense(plan, count - 1);
        assert(plan.graph.nodes.len() == plan.graph.nodes@.len());
        let i = count - 1;
        let p = plan.index_by_value@[i] as int;
        assert(plan.node_order@[p] == plan.graph.value_at(i));
        lemma_order_index_low(plan, p);
        if p < i {
            assert(plan.index_by_value@[p] == p);
            assert(plan.node_order@[plan.index_by_value@[p] as int] == plan.graph.value_at(p));
        }
    }
}

proof fn lemma_order_index(plan: TensorExecutionPlan<'_>, p: int)
    requires
        plan.ordered(),
        0 <= p < plan.node_order@.len(),
        forall|i: int|
            0 <= i < plan.graph.nodes@.len() ==> #[trigger] plan.index_by_value@[i] == i,
    ensures
        plan.node_order@[p].index == p,
{
    assert(plan.graph.knows(plan.node_order@[p]));
    assert(plan.steps()[p].value == plan.graph.value_at(plan.node_order@[p].index as int));
    assert(plan.index_by_value@[plan.node_order@[p].index as int] == p);
}

proof fn lemma_every_node_is_needed(graph: Graph, i: int)
    requires
        graph.wf(),
        0 <= i < graph.nodes@.len(),
    ensures
        needed(graph.nodes@, graph.terminals(), i),
    decreases graph.nodes@.len() - i,
{
    let nodes = graph.nodes@;
    let value = graph.value_at(i);
    let chosen = |value: ValueId| graph.terminal(value);
    assert(nodes.len() <= usize::MAX) by {
        assert(graph.nodes.len() == nodes.len());
    }
    if graph.terminal(value) {
        graph.values().lemma_filter_contains(chosen, i);
        assert(graph.values()[i] == value);
        assert(graph.terminals().contains(value));
        let k = graph.terminals().index_of(value);
        assert(graph.terminals()[k] == value);
        assert(reaches(nodes, i, i));
    } else {
        let j = choose|j: int|
            0 <= j < nodes.len() && reads((#[trigger] nodes[j]).op).contains(value);
        let k = reads(nodes[j].op).index_of(value);
        assert(node_wf(graph.id, nodes, j));
        assert(precedes(graph.id, j, reads(nodes[j].op)[k]));
        lemma_every_node_is_needed(graph, j);
        let t = choose|t: int|
            0 <= t < graph.terminals().len() && reaches(
                nodes,
                (#[trigger] graph.terminals()[t]).index as int,
                j,
            );
        lemma_reaches_operand(nodes, graph.terminals()[t].index as int, j, k);
    }
}

} // verus!
