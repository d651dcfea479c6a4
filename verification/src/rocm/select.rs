//! Preparation for an opened ROCm session.
use vstd::prelude::*;

use super::assess::{assessment, needs_library, representable, RocmTensorAssessor};
use super::error::RocmTensorExecutionError;
use super::prepare::{
    answered, assessed, compact_answer, compactable, expected_route, lowering_fails,
    planning_fails, prepare_graph_outputs_plan_with_policies, refused, runnable, selection_fails,
    taken, turned_down, RocmPreparedTensorGraph,
};
use super::sizes::allocatable;
use crate::tensor::descriptor::{
    consumes, NodeDescriptor, TensorOperandRepresentation, TensorOperationSupport,
    TensorUnsupportedReason,
};
use crate::tensor::error::ValueId;
use crate::tensor::graph::Graph;
use crate::tensor::groups::TensorPointwiseGroupingPolicy;
use crate::tensor::lowering::TensorSelectedLoweringPlan;
use crate::tensor::plan::TensorExecutionPlan;
use crate::tensor::rewrite::{TensorArithmeticCapability, TensorArithmeticRewritePolicy};

verus! {

/// The arithmetic that the backend declares: it contracts a product and a sum only where that was
/// allowed.
pub open spec fn declared_arithmetic(policy: TensorArithmeticRewritePolicy) -> TensorArithmeticCapability {
    if policy == TensorArithmeticRewritePolicy::AllowContractedArithmetic {
        TensorArithmeticCapability::ContractedMultiplyAdd
    } else {
        TensorArithmeticCapability::Strict
    }
}

/// Every node that reads `value` takes one scalar in place of a filled tensor.
pub open spec fn read_elementwise(nodes: Seq<NodeDescriptor<'_>>, value: ValueId) -> bool {
    forall|q: int|
        0 <= q < nodes.len() && consumes((#[trigger] nodes[q]).op).contains(value)
            ==> representable(nodes[q].op, TensorOperandRepresentation::UniformScalar)
}

impl RocmTensorAssessor {
    /// The session runs the node.
    pub open spec fn runs(&self, graph: Graph, node: NodeDescriptor<'_>) -> bool {
        &&& needs_library(node.op) ==> self.library_usable
        &&& assessment(graph, node@) is Supported
        &&& allocatable(node.shape@)
    }

    /// Why the session does not run the node.
    pub open spec fn refuses(
        &self,
        graph: Graph,
        node: NodeDescriptor<'_>,
        error: RocmTensorExecutionError,
    ) -> bool {
        if needs_library(node.op) && !self.library_usable {
            error matches RocmTensorExecutionError::Unsupported {
                value,
                reason: TensorUnsupportedReason::Other(text),
            } && value == node.value && text@
                == "rocBLAS completion is uncertain; selected handle cannot run more work"@
        } else {
            match assessment(graph, node@) {
                TensorOperationSupport::Unsupported { reason } => error == (
                RocmTensorExecutionError::Unsupported { value: node.value, reason }),
                TensorOperationSupport::Supported { .. } => !allocatable(node.shape@) && error
                    == RocmTensorExecutionError::SizeOverflow,
            }
        }
    }

    /// The first node of the selected lowering that does not run is refused.
    pub open spec fn lowering_refused(
        &self,
        graph: Graph,
        lowering: TensorSelectedLoweringPlan<'_>,
        error: RocmTensorExecutionError,
    ) -> bool {
        let nodes = lowering.nodes@;
        exists|i: int|
            0 <= i < nodes.len() && self.refuses(graph, #[trigger] nodes[i], error) && forall|
                j: int,
            |
                0 <= j < i ==> self.runs(graph, #[trigger] nodes[j])
    }

    /// The selected lowering of the requested outputs is refused.
    pub open spec fn selection_refused(
        &self,
        graph: &Graph,
        outputs: Seq<ValueId>,
        policy: TensorArithmeticRewritePolicy,
        grouping: TensorPointwiseGroupingPolicy,
        error: RocmTensorExecutionError,
    ) -> bool {
        exists|plan: TensorExecutionPlan<'_>, lowering: TensorSelectedLoweringPlan<'_>|
            #![trigger lowering.selects(plan, policy, declared_arithmetic(policy), grouping)]
            {
                &&& plan.wf()
                &&& plan.graph == graph
                &&& plan.output_values@ == outputs
                &&& lowering.wf()
                &&& lowering.selects(plan, policy, declared_arithmetic(policy), grouping)
                &&& self.lowering_refused(*graph, lowering, error)
            }
    }

    /// What preparing requested outputs gives.
    pub open spec fn preparation(
        &self,
        graph: &Graph,
        outputs: Seq<ValueId>,
        policy: TensorArithmeticRewritePolicy,
        grouping: TensorPointwiseGroupingPolicy,
        answer: Result<RocmPreparedTensorGraph<'_>, RocmTensorExecutionError>,
    ) -> bool {
        match answer {
            Ok(prepared) => {
                &&& prepared.wf()
                &&& prepared.graph == graph
                &&& prepared.outputs@ == outputs
                &&& prepared.rewriting == policy
                &&& prepared.arithmetic == declared_arithmetic(policy)
                &&& prepared.grouping == grouping
                &&& graph.outputs_valid(outputs)
                &&& forall|i: int|
                    0 <= i < prepared.nodes().len() ==> self.runs(
                        *graph,
                        #[trigger] prepared.nodes()[i],
                    )
                &&& forall|i: int|
                    0 <= i < prepared.nodes().len() ==> (#[trigger] prepared.is_compact(i) <==> (
                    compactable(prepared.nodes()[i], outputs) && read_elementwise(
                        prepared.nodes(),
                        prepared.nodes()[i].value,
                    )))
            },
            Err(error) => planning_fails(*graph, outputs, error) || self.selection_refused(
                graph,
                outputs,
                policy,
                grouping,
                error,
            ),
        }
    }

    proof fn lemma_taken(&self, graph: &Graph, node: NodeDescriptor<'_>)
        requires
            taken(self, graph, node),
        ensures
            self.runs(*graph, node),
    {
        let support = choose|support: TensorOperationSupport| #[trigger]
            assessed(self, graph, node, support) && runnable(node, support);
        assert(assessed(self, graph, node, support));
    }

    proof fn lemma_turned_down(
        &self,
        graph: &Graph,
        node: NodeDescriptor<'_>,
        error: RocmTensorExecutionError,
    )
        requires
            turned_down(self, graph, node, error),
        ensures
            self.refuses(*graph, node, error),
    {
        let support = choose|support: TensorOperationSupport| #[trigger]
            assessed(self, graph, node, support) && refused(node, support, error);
        assert(assessed(self, graph, node, support));
        assert(assessment(*graph, node@) matches TensorOperationSupport::Supported { route, .. }
            ==> route == expected_route(node.op));
    }

    proof fn lemma_compact(
        &self,
        graph: &Graph,
        nodes: Seq<NodeDescriptor<'_>>,
        outputs: Seq<ValueId>,
        at: int,
        compact: bool,
    )
        requires
            0 <= at < nodes.len(),
            compact_answer(self, graph, nodes, outputs, at, compact),
        ensures
            compact <==> compactable(nodes[at], outputs) && read_elementwise(
                nodes,
                nodes[at].value,
            ),
    {
        let value = nodes[at].value;
        if compact {
            assert forall|q: int|
                0 <= q < nodes.len() && consumes((#[trigger] nodes[q]).op).contains(
                    value,
                ) implies representable(
                nodes[q].op,
                TensorOperandRepresentation::UniformScalar,
            ) by {
                assert(answered(self, graph, nodes[q], value, true));
            }
        } else if compactable(nodes[at], outputs) {
            let q = choose|q: int|
                0 <= q < nodes.len() && consumes((#[trigger] nodes[q]).op).contains(value)
                    && answered(self, graph, nodes[q], value, false);
            assert(answered(self, graph, nodes[q], value, false));
            assert(!representable(nodes[q].op, TensorOperandRepresentation::UniformScalar));
        }
    }

    proof fn lemma_selection(
        &self,
        graph: &Graph,
        outputs: Seq<ValueId>,
        policy: TensorArithmeticRewritePolicy,
        grouping: TensorPointwiseGroupingPolicy,
        error: RocmTensorExecutionError,
    )
        requires
            selection_fails(
                self,
                graph,
                outputs,
                (policy, declared_arithmetic(policy), grouping),
                error,
            ),
        ensures
            self.selection_refused(graph, outputs, policy, grouping, error),
    {
        let policies = (policy, declared_arithmetic(policy), grouping);
        let (plan, lowering) = choose|
            plan: TensorExecutionPlan<'_>,
            lowering: TensorSelectedLoweringPlan<'_>,
        |
            #![trigger lowering.selects(plan, policies.0, policies.1, policies.2)]
            {
                &&& plan.wf()
                &&& plan.graph == graph
                &&& plan.output_values@ == outputs
                &&& lowering.wf()
                &&& lowering.selects(plan, policies.0, policies.1, policies.2)
                &&& lowering_fails(self, graph, lowering, error)
            };
        let nodes = lowering.nodes@;
        assert forall|i: int|
            0 <= i < nodes.len() && taken(self, graph, #[trigger] nodes[i]) implies self.runs(
            *graph,
            nodes[i],
        ) by {
            self.lemma_taken(graph, nodes[i]);
        }
        assert forall|i: int|
            0 <= i < nodes.len() && turned_down(
                self,
                graph,
                #[trigger] nodes[i],
                error,
            ) implies self.refuses(*graph, nodes[i], error) by {
            self.lemma_turned_down(graph, nodes[i], error);
        }
        assert(self.lowering_refused(*graph, lowering, error));
        assert(lowering.selects(plan, policy, declared_arithmetic(policy), grouping));
    }

    /// Prepares the dependency closure of one requested output.
    ///
    /// # Errors
    ///
    /// As for several requested outputs.
    pub fn prepare_graph<'graph>(&self, graph: &'graph Graph, output: ValueId) -> (answer: Result<
        RocmPreparedTensorGraph<'graph>,
        RocmTensorExecutionError,
    >)
        requires
            graph.wf(),
            graph.countable(),
        ensures
            self.preparation(
                graph,
                seq![output],
                TensorArithmeticRewritePolicy::Disabled,
                TensorPointwiseGroupingPolicy::Disabled,
                answer,
            ),
    {
        let outputs: [ValueId; 1] = [output];
        assert(outputs@ =~= seq![output]);
        self.prepare_graph_outputs(graph, outputs.as_slice())
    }

    /// Prepares the union of the dependency closures of the requested outputs, in their order.
    ///
    /// # Errors
    ///
    /// The requested outputs are empty, repeated or unknown; or the first node that the session
    /// does not run.
    pub fn prepare_graph_outputs<'graph>(&self, graph: &'graph Graph, outputs: &[ValueId]) -> (answer:
        Result<RocmPreparedTensorGraph<'graph>, RocmTensorExecutionError>)
        requires
            graph.wf(),
            graph.countable(),
        ensures
            self.preparation(
                graph,
                outputs@,
                TensorArithmeticRewritePolicy::Disabled,
                TensorPointwiseGroupingPolicy::Disabled,
                answer,
            ),
    {
        self.prepare_graph_outputs_with_policy(
            graph,
            outputs,
            TensorArithmeticRewritePolicy::Disabled,
        )
    }

    /// Prepares requested outputs under an explicit arithmetic rewrite policy.
    ///
    /// Contracted updates are selected only where contracted arithmetic is allowed. Otherwise the
    /// separate roundings of the graph's operations are kept.
    ///
    /// # Errors
    ///
    /// As without a policy.
    pub fn prepare_graph_outputs_with_policy<'graph>(
        &self,
        graph: &'graph Graph,
        outputs: &[ValueId],
        policy: TensorArithmeticRewritePolicy,
    ) -> (answer: Result<RocmPreparedTensorGraph<'graph>, RocmTensorExecutionError>)
        requires
            graph.wf(),
            graph.countable(),
        ensures
            self.preparation(
                graph,
                outputs@,
                policy,
                TensorPointwiseGroupingPolicy::Disabled,
                answer,
            ),
    {
        self.prepare_graph_outputs_with_policies(
            graph,
            outputs,
            policy,
            TensorPointwiseGroupingPolicy::Disabled,
        )
    }

    /// Prepares requested outputs under an explicit arithmetic rewrite policy and an explicit
    /// pointwise grouping.
    ///
    /// # Errors
    ///
    /// As without policies.
    pub fn prepare_graph_outputs_with_policies<'graph>(
        &self,
        graph: &'graph Graph,
        outputs: &[ValueId],
        policy: TensorArithmeticRewritePolicy,
        grouping: TensorPointwiseGroupingPolicy,
    ) -> (answer: Result<RocmPreparedTensorGraph<'graph>, RocmTensorExecutionError>)
        requires
            graph.wf(),
            graph.countable(),
        ensures
            self.preparation(graph, outputs@, policy, grouping, answer),
    {
        let arithmetic: TensorArithmeticCapability = if policy
            == TensorArithmeticRewritePolicy::AllowContractedArithmetic {
            TensorArithmeticCapability::ContractedMultiplyAdd
        } else {
            TensorArithmeticCapability::Strict
        };
        match prepare_graph_outputs_plan_with_policies(
            graph,
            outputs,
            self,
            policy,
            arithmetic,
            grouping,
        ) {
            Ok(prepared) => {
                proof {
                    let nodes = prepared.nodes();
                    assert forall|i: int| 0 <= i < nodes.len() implies self.runs(
                        *graph,
                        #[trigger] nodes[i],
                    ) by {
                        assert(taken(self, prepared.graph, prepared.nodes()[i]));
                        self.lemma_taken(graph, nodes[i]);
                    }
                    assert forall|i: int| 0 <= i < nodes.len() implies (
                    #[trigger] prepared.is_compact(i) <==> (compactable(nodes[i], outputs@)
                        && read_elementwise(nodes, nodes[i].value))) by {
                        self.lemma_compact(graph, nodes, outputs@, i, prepared.is_compact(i));
                    }
                }
                Ok(prepared)
            },
            Err(error) => {
                proof {
                    if !planning_fails(*graph, outputs@, error) {
                        self.lemma_selection(graph, outputs@, policy, grouping, error);
                    }
                }
                Err(error)
            },
        }
    }
}

} // verus!
