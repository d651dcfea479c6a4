//! Evaluation with arithmetic that always rounds alike is a function of the graph and its inputs.
use vstd::prelude::*;

use super::arithmetic::{counts, differs, divides, maximizes, multiplies, sums, F32Arithmetic};
use super::backward::{op_sketch, OpSketch};
use super::bits::ZERO_BITS;
use super::error::ValueId;
use super::evaluate::{
    computes, dot, evaluation_answer, gated, left_at, right_at, squared_error, squares, Execution,
};
use super::graph::{left_dims, node_wf, precedes, product_shape, reads, right_dims, Graph};
use super::value::{Tensor, TensorModel};

verus! {

/// What the operations of some arithmetic return.
pub ghost struct ArithmeticRules {
    pub sum: spec_fn(u32, u32) -> u32,
    pub difference: spec_fn(u32, u32) -> u32,
    pub product: spec_fn(u32, u32) -> u32,
    pub quotient: spec_fn(u32, u32) -> u32,
    pub maximum: spec_fn(u32, u32) -> u32,
    pub from_count: spec_fn(usize) -> u32,
}

impl ArithmeticRules {
    /// The operations of `A` return nothing else.
    pub open spec fn describe<A: F32Arithmetic>(self) -> bool {
        &&& forall|x: u32, y: u32, z: u32| #[trigger] sums::<A>(x, y, z) ==> z == (self.sum)(x, y)
        &&& forall|x: u32, y: u32, z: u32| #[trigger]
            differs::<A>(x, y, z) ==> z == (self.difference)(x, y)
        &&& forall|x: u32, y: u32, z: u32| #[trigger]
            multiplies::<A>(x, y, z) ==> z == (self.product)(x, y)
        &&& forall|x: u32, y: u32, z: u32| #[trigger]
            divides::<A>(x, y, z) ==> z == (self.quotient)(x, y)
        &&& forall|x: u32, y: u32, z: u32| #[trigger]
            maximizes::<A>(x, y, z) ==> z == (self.maximum)(x, y)
        &&& forall|n: usize, z: u32| #[trigger] counts::<A>(n, z) ==> z == (self.from_count)(n)
    }

    /// The sum of the first `count` products of one row and one column.
    pub open spec fn dot_product(
        self,
        left: TensorModel,
        right: TensorModel,
        transpose_left: bool,
        transpose_right: bool,
        row: int,
        column: int,
        count: nat,
    ) -> u32
        decreases count,
    {
        if count == 0 {
            ZERO_BITS
        } else {
            (self.sum)(
                self.dot_product(
                    left,
                    right,
                    transpose_left,
                    transpose_right,
                    row,
                    column,
                    (count - 1) as nat,
                ),
                (self.product)(
                    left.data[left_at(left.shape, transpose_left, row, count - 1)],
                    right.data[right_at(right.shape, transpose_right, count - 1, column)],
                ),
            )
        }
    }

    /// The sum of the first `count` squared differences.
    pub open spec fn error_sum(self, left: Seq<u32>, right: Seq<u32>, count: nat) -> u32
        decreases count,
    {
        if count == 0 {
            ZERO_BITS
        } else {
            let difference = (self.difference)(left[count - 1], right[count - 1]);
            (self.sum)(
                self.error_sum(left, right, (count - 1) as nat),
                (self.product)(difference, difference),
            )
        }
    }

    /// A tensor made of pairs of elements.
    pub open spec fn zipped(
        self,
        apply: spec_fn(u32, u32) -> u32,
        left: TensorModel,
        right: TensorModel,
    ) -> TensorModel {
        TensorModel::plain(
            left.shape,
            Seq::new(left.data.len(), |k: int| apply(left.data[k], right.data[k])),
        )
    }

    /// What an operation computes from the values before it. Of an input nothing is said.
    pub open spec fn result(self, op: OpSketch, shape: Seq<usize>, values: Seq<TensorModel>) -> TensorModel {
        match op {
            OpSketch::Input => TensorModel::plain(shape, Seq::empty()),
            OpSketch::Constant(tensor) => tensor,
            OpSketch::Uniform(value) => TensorModel::splat(shape, value),
            OpSketch::Add(a, b) => self.zipped(
                self.sum,
                values[a.index as int],
                values[b.index as int],
            ),
            OpSketch::Sub(a, b) => self.zipped(
                self.difference,
                values[a.index as int],
                values[b.index as int],
            ),
            OpSketch::Mul(a, b) => self.zipped(
                self.product,
                values[a.index as int],
                values[b.index as int],
            ),
            OpSketch::SgdUpdate(weights, gradient, rate) => self.zipped(
                |w: u32, g: u32| (self.difference)(w, (self.product)(rate, g)),
                values[weights.index as int],
                values[gradient.index as int],
            ),
            OpSketch::MatMul(a, b, tl, tr) => {
                let (left, right) = (values[a.index as int], values[b.index as int]);
                let (rows, inner) = left_dims(left.shape, tl);
                let columns = right_dims(right.shape, tr).1;
                TensorModel::plain(
                    product_shape(left.shape, right.shape, tl, tr),
                    Seq::new(
                        rows as nat * columns as nat,
                        |q: int|
                            self.dot_product(
                                left,
                                right,
                                tl,
                                tr,
                                q / columns as int,
                                q % columns as int,
                                inner as nat,
                            ),
                    ),
                )
            },
            OpSketch::Relu(x) => TensorModel::plain(
                values[x.index as int].shape,
                values[x.index as int].data.map_values(
                    |value: u32| (self.maximum)(value, ZERO_BITS),
                ),
            ),
            OpSketch::ReluBackward(input, upstream) => gated(
                values[input.index as int],
                values[upstream.index as int],
            ),
            OpSketch::MeanSquaredError(a, b) => {
                let (left, right) = (values[a.index as int], values[b.index as int]);
                TensorModel::scalar(
                    (self.quotient)(
                        self.error_sum(left.data, right.data, left.data.len()),
                        (self.from_count)(left.data.len() as usize),
                    ),
                )
            },
        }
    }
}

/// The models of a list of tensors.
pub open spec fn tensor_models(tensors: Seq<Tensor>) -> Seq<TensorModel> {
    tensors.map_values(|tensor: Tensor| tensor@)
}

proof fn lemma_dot<A: F32Arithmetic>(
    rules: ArithmeticRules,
    left: TensorModel,
    right: TensorModel,
    transpose_left: bool,
    transpose_right: bool,
    row: int,
    column: int,
    count: nat,
    total: u32,
)
    requires
        rules.describe::<A>(),
        dot::<A>(left, right, transpose_left, transpose_right, row, column, count, total),
    ensures
        total == rules.dot_product(
            left,
            right,
            transpose_left,
            transpose_right,
            row,
            column,
            count,
        ),
    decreases count,
{
    if count > 0 {
        let (partial, product) = choose|partial: u32, product: u32|
            {
                &&& dot::<A>(
                    left,
                    right,
                    transpose_left,
                    transpose_right,
                    row,
                    column,
                    (count - 1) as nat,
                    partial,
                )
                &&& #[trigger] multiplies::<A>(
                    left.data[left_at(left.shape, transpose_left, row, count - 1)],
                    right.data[right_at(right.shape, transpose_right, count - 1, column)],
                    product,
                )
                &&& #[trigger] sums::<A>(partial, product, total)
            };
        lemma_dot::<A>(
            rules,
            left,
            right,
            transpose_left,
            transpose_right,
            row,
            column,
            (count - 1) as nat,
            partial,
        );
    }
}

proof fn lemma_error_sum<A: F32Arithmetic>(
    rules: ArithmeticRules,
    left: Seq<u32>,
    right: Seq<u32>,
    count: nat,
    total: u32,
)
    requires
        rules.describe::<A>(),
        squared_error::<A>(left, right, count, total),
    ensures
        total == rules.error_sum(left, right, count),
    decreases count,
{
    if count > 0 {
        let (partial, square) = choose|partial: u32, square: u32|
            {
                &&& squared_error::<A>(left, right, (count - 1) as nat, partial)
                &&& #[trigger] squares::<A>(left[count - 1], right[count - 1], square)
                &&& #[trigger] sums::<A>(partial, square, total)
            };
        lemma_error_sum::<A>(rules, left, right, (count - 1) as nat, partial);
    }
}

/// What a node computes is the result of its operation.
pub proof fn lemma_computed_result<A: F32Arithmetic>(
    graph: Graph,
    inputs: Seq<(ValueId, Tensor)>,
    values: Seq<Tensor>,
    at: int,
    rules: ArithmeticRules,
)
    requires
        graph.wf(),
        rules.describe::<A>(),
        0 <= at < graph.nodes@.len() <= values.len(),
        computes::<A>(graph, inputs, values.take(at), at, values[at]@),
        !(graph.nodes@[at].op is Input),
    ensures
        values[at]@ == rules.result(
            op_sketch(graph.nodes@[at].op),
            graph.nodes@[at].shape@,
            tensor_models(values),
        ),
{
    let node = graph.nodes@[at];
    let op = op_sketch(node.op);
    let models = tensor_models(values);
    let made = values[at]@;
    let wanted = rules.result(op, node.shape@, models);
    assert(node_wf(graph.id, graph.nodes@, at));
    assert forall|j: int| 0 <= j < reads(node.op).len() implies values.take(at)[(
    #[trigger] reads(node.op)[j]).index as int]@ == models[reads(node.op)[j].index as int] by {
        assert(precedes(graph.id, at, reads(node.op)[j]));
    }
    match op {
        OpSketch::MatMul(a, b, tl, tr) => {
            assert(reads(node.op)[0] == a && reads(node.op)[1] == b);
            let (left, right) = (models[a.index as int], models[b.index as int]);
            let (rows, inner) = left_dims(left.shape, tl);
            let columns = right_dims(right.shape, tr).1;
            assert forall|q: int| 0 <= q < made.data.len() implies #[trigger] made.data[q]
                == wanted.data[q] by {
                lemma_dot::<A>(
                    rules,
                    left,
                    right,
                    tl,
                    tr,
                    q / columns as int,
                    q % columns as int,
                    inner as nat,
                    made.data[q],
                );
            }
            assert(made.data.len() == wanted.data.len()) by (nonlinear_arith)
                requires
                    made.data.len() == rows * columns,
                    wanted.data.len() == rows as nat * columns as nat,
            ;
            assert(made.data =~= wanted.data);
        },
        OpSketch::MeanSquaredError(a, b) => {
            assert(reads(node.op)[0] == a && reads(node.op)[1] == b);
            let (left, right) = (models[a.index as int], models[b.index as int]);
            let (total, divisor, mean) = choose|total: u32, divisor: u32, mean: u32|
                {
                    &&& squared_error::<A>(left.data, right.data, left.data.len(), total)
                    &&& #[trigger] counts::<A>(left.data.len() as usize, divisor)
                    &&& #[trigger] divides::<A>(total, divisor, mean)
                    &&& made == TensorModel::scalar(mean)
                };
            lemma_error_sum::<A>(rules, left.data, right.data, left.data.len(), total);
        },
        OpSketch::Add(a, b) => {
            assert(reads(node.op)[0] == a && reads(node.op)[1] == b);
            assert(made.data =~= wanted.data);
        },
        OpSketch::Sub(a, b) => {
            assert(reads(node.op)[0] == a && reads(node.op)[1] == b);
            assert(made.data =~= wanted.data);
        },
        OpSketch::Mul(a, b) => {
            assert(reads(node.op)[0] == a && reads(node.op)[1] == b);
            assert(made.data =~= wanted.data);
        },
        OpSketch::SgdUpdate(a, b, _) => {
            assert(reads(node.op)[0] == a && reads(node.op)[1] == b);
            assert(made.data =~= wanted.data);
        },
        OpSketch::Relu(x) => {
            assert(reads(node.op)[0] == x);
            assert(made.data =~= wanted.data);
        },
        OpSketch::ReluBackward(a, b) => {
            assert(reads(node.op)[0] == a && reads(node.op)[1] == b);
        },
        _ => {},
    }
}

/// The values that a sketched operation reads.
pub open spec fn sketch_reads(op: OpSketch) -> Seq<ValueId> {
    match op {
        OpSketch::Input | OpSketch::Constant(_) | OpSketch::Uniform(_) => Seq::empty(),
        OpSketch::Add(a, b) => seq![a, b],
        OpSketch::Sub(a, b) => seq![a, b],
        OpSketch::Mul(a, b) => seq![a, b],
        OpSketch::SgdUpdate(a, b, _) => seq![a, b],
        OpSketch::MatMul(a, b, _, _) => seq![a, b],
        OpSketch::Relu(x) => seq![x],
        OpSketch::ReluBackward(a, b) => seq![a, b],
        OpSketch::MeanSquaredError(a, b) => seq![a, b],
    }
}

/// A result depends on nothing but the values that the operation reads.
proof fn lemma_same_result(
    rules: ArithmeticRules,
    op: OpSketch,
    shape: Seq<usize>,
    one: Seq<TensorModel>,
    other: Seq<TensorModel>,
)
    requires
        forall|j: int|
            0 <= j < sketch_reads(op).len() ==> one[(#[trigger] sketch_reads(op)[j]).index as int]
                == other[sketch_reads(op)[j].index as int],
    ensures
        rules.result(op, shape, one) == rules.result(op, shape, other),
{
    let reads = sketch_reads(op);
    if reads.len() > 0 {
        assert(one[reads[0].index as int] == other[reads[0].index as int]);
    }
    if reads.len() > 1 {
        assert(one[reads[1].index as int] == other[reads[1].index as int]);
    }
}

/// The evaluator is deterministic: with arithmetic that always rounds alike, two evaluations from
/// the same inputs have the same values. So have an evaluation of a graph and one of what the graph
/// has grown into, as far as the first one goes.
pub proof fn law_evaluation_is_deterministic<A: F32Arithmetic>(
    graph: Graph,
    grown: Graph,
    inputs: Seq<(ValueId, Tensor)>,
    execution: Execution,
    other: Execution,
    rules: ArithmeticRules,
    at: int,
)
    requires
        graph.wf(),
        grown.wf(),
        grown.id == graph.id,
        graph.nodes@.len() <= grown.nodes@.len(),
        grown.nodes@.take(graph.nodes@.len() as int) == graph.nodes@,
        rules.describe::<A>(),
        evaluation_answer::<A>(graph, inputs, Ok(execution)),
        evaluation_answer::<A>(grown, inputs, Ok(other)),
        0 <= at < graph.nodes@.len(),
    ensures
        execution.values@[at]@ == other.values@[at]@,
    decreases at,
{
    let node = graph.nodes@[at];
    assert(grown.nodes@.take(graph.nodes@.len() as int)[at] == node);
    assert(computes::<A>(graph, inputs, execution.values@.take(at), at, execution.values@[at]@));
    assert(computes::<A>(grown, inputs, other.values@.take(at), at, other.values@[at]@));
    if !(node.op is Input) {
        let op = op_sketch(node.op);
        let (one, two) = (tensor_models(execution.values@), tensor_models(other.values@));
        lemma_computed_result::<A>(graph, inputs, execution.values@, at, rules);
        lemma_computed_result::<A>(grown, inputs, other.values@, at, rules);
        assert(node_wf(graph.id, graph.nodes@, at));
        assert(sketch_reads(op) =~= reads(node.op));
        assert forall|j: int| 0 <= j < sketch_reads(op).len() implies one[(
        #[trigger] sketch_reads(op)[j]).index as int] == two[sketch_reads(op)[j].index as int] by {
            assert(precedes(graph.id, at, reads(node.op)[j]));
            law_evaluation_is_deterministic::<A>(
                graph,
                grown,
                inputs,
                execution,
                other,
                rules,
                reads(node.op)[j].index as int,
            );
        }
        lemma_same_result(rules, op, node.shape@, one, two);
    }
}

} // verus!
