//! What the reference evaluator computes, element by element.
use vstd::arithmetic::div_mod::lemma_fundamental_div_mod_converse;
use vstd::prelude::*;

use super::arithmetic::F32Arithmetic;
use super::deterministic::{lemma_computed_result, tensor_models, ArithmeticRules};
use super::error::ValueId;
use super::evaluate::{
    computes, evaluation_answer, input_accepted, lemma_matrix_place, supplied_at, Execution,
};
use super::graph::{node_wf, precedes, reads, Graph, Op};
use super::value::{Tensor, TensorModel};

verus! {

/// The element in this row and column of a matrix, or of its transpose. A matrix is kept row by
/// row.
pub open spec fn entry(matrix: TensorModel, transposed: bool, row: int, column: int) -> u32 {
    if transposed {
        matrix.data[column * matrix.shape[1] + row]
    } else {
        matrix.data[row * matrix.shape[1] + column]
    }
}

/// How many rows a matrix has, or its transpose.
pub open spec fn height(matrix: TensorModel, transposed: bool) -> usize {
    if transposed {
        matrix.shape[1]
    } else {
        matrix.shape[0]
    }
}

/// How many columns a matrix has, or its transpose.
pub open spec fn width(matrix: TensorModel, transposed: bool) -> usize {
    if transposed {
        matrix.shape[0]
    } else {
        matrix.shape[1]
    }
}

/// Numbers are added one after the other, from the left, to positive zero.
pub open spec fn summed(rules: ArithmeticRules, numbers: Seq<u32>) -> u32 {
    numbers.fold_left(0u32, |partial: u32, number: u32| (rules.sum)(partial, number))
}

/// One element for every element of two tensors of one shape.
pub open spec fn element_by_element(
    left: TensorModel,
    right: TensorModel,
    each: spec_fn(u32, u32) -> u32,
    result: TensorModel,
) -> bool {
    &&& result.shape == left.shape
    &&& result.shape == right.shape
    &&& result.data.len() == left.data.len()
    &&& result.data.len() == right.data.len()
    &&& forall|k: int|
        0 <= k < result.data.len() ==> #[trigger] result.data[k] == each(
            left.data[k],
            right.data[k],
        )
}

/// The matrix product: every element is the sum of the products along a row of the left factor and
/// a column of the right one.
pub open spec fn matrix_product(
    rules: ArithmeticRules,
    left: TensorModel,
    right: TensorModel,
    transpose_left: bool,
    transpose_right: bool,
    result: TensorModel,
) -> bool {
    let (rows, columns) = (height(left, transpose_left), width(right, transpose_right));
    let inner = width(left, transpose_left);
    &&& inner == height(right, transpose_right)
    &&& result.shape == seq![rows, columns]
    &&& result.data.len() == rows * columns
    &&& forall|i: int, j: int|
        0 <= i < rows && 0 <= j < columns ==> #[trigger] entry(result, false, i, j) == summed(
            rules,
            Seq::new(
                inner as nat,
                |l: int|
                    (rules.product)(
                        entry(left, transpose_left, i, l),
                        entry(right, transpose_right, l, j),
                    ),
            ),
        )
}

/// The mean of the squared differences over all elements, however they are arranged.
pub open spec fn mean_squared_difference(
    rules: ArithmeticRules,
    left: Seq<u32>,
    right: Seq<u32>,
) -> u32 {
    (rules.quotient)(
        summed(
            rules,
            Seq::new(
                left.len(),
                |k: int|
                    (rules.product)(
                        (rules.difference)(left[k], right[k]),
                        (rules.difference)(left[k], right[k]),
                    ),
            ),
        ),
        (rules.from_count)(left.len() as usize),
    )
}

/// Adding one product after the other is the fold.
proof fn lemma_dot_is_fold(
    rules: ArithmeticRules,
    left: TensorModel,
    right: TensorModel,
    transpose_left: bool,
    transpose_right: bool,
    row: int,
    column: int,
    count: nat,
)
    ensures
        rules.dot_product(left, right, transpose_left, transpose_right, row, column, count)
            == summed(
            rules,
            Seq::new(
                count,
                |l: int|
                    (rules.product)(
                        entry(left, transpose_left, row, l),
                        entry(right, transpose_right, l, column),
                    ),
            ),
        ),
    decreases count,
{
    let all = Seq::new(
        count,
        |l: int|
            (rules.product)(
                entry(left, transpose_left, row, l),
                entry(right, transpose_right, l, column),
            ),
    );
    if count > 0 {
        let fewer = (count - 1) as nat;
        lemma_dot_is_fold(
            rules,
            left,
            right,
            transpose_left,
            transpose_right,
            row,
            column,
            fewer,
        );
        assert(all.drop_last() =~= Seq::new(
            fewer,
            |l: int|
                (rules.product)(
                    entry(left, transpose_left, row, l),
                    entry(right, transpose_right, l, column),
                ),
        ));
    }
}

/// Adding one square after the other is the fold.
proof fn lemma_error_is_fold(
    rules: ArithmeticRules,
    left: Seq<u32>,
    right: Seq<u32>,
    count: nat,
)
    ensures
        rules.error_sum(left, right, count) == summed(
            rules,
            Seq::new(
                count,
                |k: int|
                    (rules.product)(
                        (rules.difference)(left[k], right[k]),
                        (rules.difference)(left[k], right[k]),
                    ),
            ),
        ),
    decreases count,
{
    let all = Seq::new(
        count,
        |k: int|
            (rules.product)(
                (rules.difference)(left[k], right[k]),
                (rules.difference)(left[k], right[k]),
            ),
    );
    if count > 0 {
        let fewer = (count - 1) as nat;
        lemma_error_is_fold(rules, left, right, fewer);
        assert(all.drop_last() =~= Seq::new(
            fewer,
            |k: int|
                (rules.product)(
                    (rules.difference)(left[k], right[k]),
                    (rules.difference)(left[k], right[k]),
                ),
        ));
    }
}

/// The last supply is the only one where no earlier one was for the same value.
proof fn lemma_supply(inputs: Seq<(ValueId, Tensor)>, value: ValueId, k: int)
    requires
        0 <= k < inputs.len(),
        inputs[k].0 == value,
    ensures
        supplied_at(inputs, value) matches Some(last) && k <= last < inputs.len()
            && inputs[last].0 == value,
    decreases inputs.len(),
{
    if inputs.last().0 != value {
        lemma_supply(inputs.drop_last(), value, k);
    }
}

proof fn lemma_supplied(inputs: Seq<(ValueId, Tensor)>, value: ValueId)
    ensures
        supplied_at(inputs, value) matches Some(last) ==> 0 <= last < inputs.len()
            && inputs[last].0 == value,
    decreases inputs.len(),
{
    if inputs.len() > 0 && inputs.last().0 != value {
        lemma_supplied(inputs.drop_last(), value);
    }
}

/// What the value of a node has to be, given the values of the nodes that it names.
pub open spec fn node_meaning(
    rules: ArithmeticRules,
    inputs: Seq<(ValueId, Tensor)>,
    graph: Graph,
    values: Seq<Tensor>,
    at: int,
) -> bool {
    let result = values[at]@;
    match graph.nodes@[at].op {
        Op::Input => {
            &&& exists|k: int|
                0 <= k < inputs.len() && (#[trigger] inputs[k]).0.graph_id == graph.id
                    && inputs[k].0.index == at
            &&& forall|k: int|
                0 <= k < inputs.len() && (#[trigger] inputs[k]).0.graph_id == graph.id
                    && inputs[k].0.index == at ==> inputs[k].1@ == result
        },
        Op::Constant(tensor) => result == tensor@,
        Op::Uniform(value) => {
            &&& result.shape == graph.nodes@[at].shape@
            &&& forall|k: int| 0 <= k < result.data.len() ==> #[trigger] result.data[k] == value
        },
        Op::Add(left, right) => element_by_element(
            values[left.index as int]@,
            values[right.index as int]@,
            |x: u32, y: u32| (rules.sum)(x, y),
            result,
        ),
        Op::Sub(left, right) => element_by_element(
            values[left.index as int]@,
            values[right.index as int]@,
            |x: u32, y: u32| (rules.difference)(x, y),
            result,
        ),
        Op::Mul(left, right) => element_by_element(
            values[left.index as int]@,
            values[right.index as int]@,
            |x: u32, y: u32| (rules.product)(x, y),
            result,
        ),
        Op::SgdUpdate(weights, gradient, rate) => element_by_element(
            values[weights.index as int]@,
            values[gradient.index as int]@,
            |w: u32, g: u32| (rules.difference)(w, (rules.product)(rate, g)),
            result,
        ),
        Op::MatMul(left, right, transpose_left, transpose_right) => matrix_product(
            rules,
            values[left.index as int]@,
            values[right.index as int]@,
            transpose_left,
            transpose_right,
            result,
        ),
        Op::Relu(input) => element_by_element(
            values[input.index as int]@,
            values[input.index as int]@,
            |x: u32, y: u32| (rules.maximum)(x, 0),
            result,
        ),
        Op::ReluBackward(input, upstream) => element_by_element(
            values[input.index as int]@,
            values[upstream.index as int]@,
            |x: u32, u: u32|
                if 0 < x <= 0x7f80_0000 {
                    u
                } else {
                    0
                },
            result,
        ),
        Op::MeanSquaredError(left, right) => {
            &&& result.shape == Seq::<usize>::empty()
            &&& result.data == seq![
                mean_squared_difference(
                    rules,
                    values[left.index as int]@.data,
                    values[right.index as int]@.data,
                ),
            ]
        },
    }
}

/// Every value of an evaluation means what its node says, with arithmetic that always rounds
/// alike. Sums, differences, products and updates go element by element. Element (i, j) of a
/// matrix product is the sum over l, from the left, of element (i, l) times element (l, j). A mean
/// squared error divides the sum of the squares by the number of all elements, whatever the shape.
/// A `ReLU` gate lets through what stands at positive elements.
pub proof fn law_values_mean_what_nodes_say<A: F32Arithmetic>(
    rules: ArithmeticRules,
    graph: Graph,
    inputs: Seq<(ValueId, Tensor)>,
    execution: Execution,
    at: int,
)
    requires
        graph.wf(),
        rules.describe::<A>(),
        evaluation_answer::<A>(graph, inputs, Ok(execution)),
        0 <= at < graph.nodes@.len(),
    ensures
        execution.values@.len() == graph.nodes@.len(),
        execution.values@[at]@.shape == graph.nodes@[at].shape@,
        node_meaning(rules, inputs, graph, execution.values@, at),
{
    let values = execution.values@;
    let node = graph.nodes@[at];
    let result = values[at]@;
    assert(node_wf(graph.id, graph.nodes@, at));
    assert(values[at].wf());
    assert(computes::<A>(graph, inputs, values.take(at), at, values[at]@));
    assert forall|j: int| 0 <= j < reads(node.op).len() implies {
        let operand = (#[trigger] reads(node.op)[j]).index as int;
        &&& operand < at
        &&& values[operand].wf()
        &&& values[operand]@.shape == graph.nodes@[operand].shape@
    } by {
        assert(precedes(graph.id, at, reads(node.op)[j]));
        assert(values[reads(node.op)[j].index as int].wf());
    }
    if !(node.op is Input) {
        lemma_computed_result::<A>(graph, inputs, values, at, rules);
    }
    match node.op {
        Op::Input => {
            let value = graph.value_at(at);
            lemma_supplied(inputs, value);
            let last = supplied_at(inputs, value)->Some_0;
            assert(inputs[last].0.index == at);
            assert forall|k: int|
                0 <= k < inputs.len() && (#[trigger] inputs[k]).0.graph_id == graph.id
                    && inputs[k].0.index == at implies inputs[k].1@ == result by {
                lemma_supply(inputs, value, k);
                if k < last {
                    assert(input_accepted(graph, inputs, last));
                    assert(inputs.take(last)[k] == inputs[k]);
                    lemma_supply(inputs.take(last), value, k);
                }
            }
        },
        Op::Add(a, b) | Op::Sub(a, b) | Op::Mul(a, b) | Op::SgdUpdate(a, b, _) | Op::ReluBackward(
            a,
            b,
        ) => {
            assert(reads(node.op)[0] == a && reads(node.op)[1] == b);
        },
        Op::Relu(a) => {
            assert(reads(node.op)[0] == a);
        },
        Op::MatMul(a, b, tl, tr) => {
            assert(reads(node.op)[0] == a && reads(node.op)[1] == b);
            let (left, right) = (values[a.index as int]@, values[b.index as int]@);
            let (rows, columns) = (height(left, tl), width(right, tr));
            let inner = width(left, tl);
            assert(tensor_models(values)[a.index as int] == left);
            assert(tensor_models(values)[b.index as int] == right);
            assert(rows as nat * columns as nat == rows * columns) by (nonlinear_arith);
            assert forall|i: int, j: int|
                0 <= i < rows && 0 <= j < columns implies #[trigger] entry(result, false, i, j)
                == summed(
                rules,
                Seq::new(
                    inner as nat,
                    |l: int| (rules.product)(entry(left, tl, i, l), entry(right, tr, l, j)),
                ),
            ) by {
                let q = i * columns + j;
                lemma_matrix_place(rows as int, columns as int, i, j);
                lemma_fundamental_div_mod_converse(q, columns as int, i, j);
                lemma_dot_is_fold(rules, left, right, tl, tr, i, j, inner as nat);
                assert(result.data[q] == rules.dot_product(
                    left,
                    right,
                    tl,
                    tr,
                    i,
                    j,
                    inner as nat,
                ));
            }
        },
        Op::MeanSquaredError(a, b) => {
            assert(reads(node.op)[0] == a && reads(node.op)[1] == b);
            let (left, right) = (values[a.index as int]@, values[b.index as int]@);
            lemma_error_is_fold(rules, left.data, right.data, left.data.len());
        },
        Op::Constant(_) | Op::Uniform(_) => {},
    }
}

/// A mean squared error depends on the elements alone: two evaluations whose operands hold the same
/// elements, in whatever shapes, give the same loss.
pub proof fn law_loss_ignores_shapes<A: F32Arithmetic>(
    rules: ArithmeticRules,
    graph: Graph,
    inputs: Seq<(ValueId, Tensor)>,
    execution: Execution,
    at: int,
    other_graph: Graph,
    other_inputs: Seq<(ValueId, Tensor)>,
    other_execution: Execution,
    other_at: int,
)
    requires
        graph.wf(),
        other_graph.wf(),
        rules.describe::<A>(),
        evaluation_answer::<A>(graph, inputs, Ok(execution)),
        evaluation_answer::<A>(other_graph, other_inputs, Ok(other_execution)),
        0 <= at < graph.nodes@.len(),
        0 <= other_at < other_graph.nodes@.len(),
        graph.nodes@[at].op matches Op::MeanSquaredError(a, b) && (
        other_graph.nodes@[other_at].op matches Op::MeanSquaredError(c, d) && {
            &&& execution.values@[a.index as int]@.data
                == other_execution.values@[c.index as int]@.data
            &&& execution.values@[b.index as int]@.data
                == other_execution.values@[d.index as int]@.data
        }),
    ensures
        execution.values@[at]@.data == other_execution.values@[other_at]@.data,
{
    law_values_mean_what_nodes_say::<A>(rules, graph, inputs, execution, at);
    law_values_mean_what_nodes_say::<A>(
        rules,
        other_graph,
        other_inputs,
        other_execution,
        other_at,
    );
}

} // verus!
