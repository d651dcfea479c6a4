//! What building on a graph means for the values of the graph.
use vstd::prelude::*;

use super::arithmetic::F32Arithmetic;
use super::backward::op_sketch;
use super::deterministic::{lemma_computed_result, tensor_models, ArithmeticRules};
use super::error::{TensorError, ValueId};
use super::evaluate::{computes, evaluation_answer, Execution};
use super::evaluation_laws::{
    element_by_element, law_values_mean_what_nodes_say, matrix_product,
};
use super::graph::{node_wf, precedes, reads, Graph, Op};
use super::value::Tensor;

verus! {

/// Every input of the shorter graph is supplied with the same tensor in both evaluations.
pub open spec fn supplied_alike(
    graph: Graph,
    execution: Execution,
    other: Execution,
) -> bool {
    forall|i: int|
        0 <= i < graph.nodes@.len() && (#[trigger] graph.nodes@[i]).op is Input
            ==> execution.values@[i]@ == other.values@[i]@
}

/// Appending to a graph changes none of its values: an evaluation of the longer graph, supplied
/// with the same inputs, gives every earlier node the value that an evaluation of the shorter graph
/// gives it.
pub proof fn law_appending_keeps_values<A: F32Arithmetic>(
    rules: ArithmeticRules,
    before: Graph,
    inputs: Seq<(ValueId, Tensor)>,
    execution: Execution,
    after: Graph,
    op: Op,
    shape: Seq<usize>,
    other_inputs: Seq<(ValueId, Tensor)>,
    other: Execution,
    at: int,
)
    requires
        before.wf(),
        after.wf(),
        after.extends(before, op, shape),
        rules.describe::<A>(),
        evaluation_answer::<A>(before, inputs, Ok(execution)),
        evaluation_answer::<A>(after, other_inputs, Ok(other)),
        supplied_alike(before, execution, other),
        0 <= at < before.nodes@.len(),
    ensures
        other.values@[at]@ == execution.values@[at]@,
    decreases at,
{
    let (values, later) = (execution.values@, other.values@);
    let node = before.nodes@[at];
    assert(after.nodes@.drop_last()[at] == after.nodes@[at]);
    if !(node.op is Input) {
        assert(computes::<A>(before, inputs, values.take(at), at, values[at]@));
        assert(computes::<A>(after, other_inputs, later.take(at), at, later[at]@));
        lemma_computed_result::<A>(before, inputs, values, at, rules);
        lemma_computed_result::<A>(after, other_inputs, later, at, rules);
        assert(node_wf(before.id, before.nodes@, at));
        assert forall|j: int| 0 <= j < reads(node.op).len() implies tensor_models(values)[(
        #[trigger] reads(node.op)[j]).index as int] == tensor_models(later)[reads(
            node.op,
        )[j].index as int] by {
            assert(precedes(before.id, at, reads(node.op)[j]));
            law_appending_keeps_values::<A>(
                rules,
                before,
                inputs,
                execution,
                after,
                op,
                shape,
                other_inputs,
                other,
                reads(node.op)[j].index as int,
            );
        }
        match node.op {
            Op::Add(a, b)
            | Op::Sub(a, b)
            | Op::Mul(a, b)
            | Op::SgdUpdate(a, b, _)
            | Op::MatMul(a, b, _, _)
            | Op::ReluBackward(a, b)
            | Op::MeanSquaredError(a, b) => {
                assert(reads(node.op)[0] == a && reads(node.op)[1] == b);
            },
            Op::Relu(a) => {
                assert(reads(node.op)[0] == a);
            },
            _ => {},
        }
        assert(rules.result(op_sketch(node.op), node.shape@, tensor_models(values))
            == rules.result(op_sketch(node.op), node.shape@, tensor_models(later)));
    }
}

/// A value that was built from two values of one shape is what its operation makes of them, element
/// by element and in the order in which they were named.
pub proof fn law_built_values_combine_their_operands<A: F32Arithmetic>(
    rules: ArithmeticRules,
    before: Graph,
    after: Graph,
    left: ValueId,
    right: ValueId,
    op: Op,
    made: ValueId,
    inputs: Seq<(ValueId, Tensor)>,
    execution: Execution,
)
    requires
        before.wf(),
        after.wf(),
        before.same_shape_outcome(after, left, right, op, Ok::<ValueId, TensorError>(made)),
        rules.describe::<A>(),
        evaluation_answer::<A>(after, inputs, Ok(execution)),
    ensures
        made.graph_id == before.id,
        made.index == before.nodes@.len(),
        after.nodes@.len() == before.nodes@.len() + 1,
        ({
            let x = execution.values@[left.index as int]@;
            let y = execution.values@[right.index as int]@;
            let out = execution.values@[made.index as int]@;
            &&& op == Op::Add(left, right) ==> element_by_element(
                x,
                y,
                |p: u32, q: u32| (rules.sum)(p, q),
                out,
            )
            &&& op == Op::Sub(left, right) ==> element_by_element(
                x,
                y,
                |p: u32, q: u32| (rules.difference)(p, q),
                out,
            )
            &&& op == Op::Mul(left, right) ==> element_by_element(
                x,
                y,
                |p: u32, q: u32| (rules.product)(p, q),
                out,
            )
            &&& op == Op::ReluBackward(left, right) ==> element_by_element(
                x,
                y,
                |p: u32, q: u32|
                    if 0 < p <= 0x7f80_0000 {
                        q
                    } else {
                        0
                    },
                out,
            )
            &&& op matches Op::SgdUpdate(weights, gradient, rate) ==> (weights == left && gradient
                == right ==> element_by_element(
                x,
                y,
                |w: u32, g: u32| (rules.difference)(w, (rules.product)(rate, g)),
                out,
            ))
        }),
{
    law_values_mean_what_nodes_say::<A>(rules, after, inputs, execution, made.index as int);
    assert(after.nodes@[made.index as int] == after.nodes@.last());
}

/// A matrix product that was built from two values is their product, as the transposes say.
pub proof fn law_built_products_multiply_their_factors<A: F32Arithmetic>(
    rules: ArithmeticRules,
    before: Graph,
    after: Graph,
    left: ValueId,
    right: ValueId,
    transpose_left: bool,
    transpose_right: bool,
    made: ValueId,
    inputs: Seq<(ValueId, Tensor)>,
    execution: Execution,
)
    requires
        before.wf(),
        after.wf(),
        before.matmul_outcome(
            after,
            left,
            right,
            transpose_left,
            transpose_right,
            Ok::<ValueId, TensorError>(made),
        ),
        rules.describe::<A>(),
        evaluation_answer::<A>(after, inputs, Ok(execution)),
    ensures
        made.graph_id == before.id,
        made.index == before.nodes@.len(),
        matrix_product(
            rules,
            execution.values@[left.index as int]@,
            execution.values@[right.index as int]@,
            transpose_left,
            transpose_right,
            execution.values@[made.index as int]@,
        ),
{
    law_values_mean_what_nodes_say::<A>(rules, after, inputs, execution, made.index as int);
    assert(after.nodes@[made.index as int] == after.nodes@.last());
}

} // verus!
