//! The deterministic reference evaluator.
use vstd::arithmetic::div_mod::lemma_fundamental_div_mod_converse;
use vstd::prelude::*;
use vstd::slice::slice_to_vec;

use super::arithmetic::{
    counts, differs, divides, maximizes, multiplies, sums, F32Arithmetic,
};
use super::bits::{is_positive, magnitude, nan, positive, INFINITY_BITS, SIGN_BIT, ZERO_BITS};
use super::error::{TensorError, ValueId};
use super::graph::{
    left_dims, multipliable, node_wf, precedes, product_shape, reads, right_dims, Graph, Op,
};
use super::plan::TensorExecutionPlan;
use super::value::{extent, extent_fits, same_shape, Tensor, TensorModel};

verus! {

/// Every element of `result` is the sum of the elements of its operands.
pub open spec fn adds<A: F32Arithmetic>(
    left: TensorModel,
    right: TensorModel,
    result: TensorModel,
) -> bool {
    &&& result == TensorModel::plain(left.shape, result.data)
    &&& result.data.len() == left.data.len()
    &&& forall|k: int|
        0 <= k < result.data.len() ==> sums::<A>(
            left.data[k],
            right.data[k],
            #[trigger] result.data[k],
        )
}

/// Every element of `result` is the difference of the elements of its operands.
pub open spec fn subtracts<A: F32Arithmetic>(
    left: TensorModel,
    right: TensorModel,
    result: TensorModel,
) -> bool {
    &&& result == TensorModel::plain(left.shape, result.data)
    &&& result.data.len() == left.data.len()
    &&& forall|k: int|
        0 <= k < result.data.len() ==> differs::<A>(
            left.data[k],
            right.data[k],
            #[trigger] result.data[k],
        )
}

/// Every element of `result` is the product of the elements of its operands.
pub open spec fn scales<A: F32Arithmetic>(
    left: TensorModel,
    right: TensorModel,
    result: TensorModel,
) -> bool {
    &&& result == TensorModel::plain(left.shape, result.data)
    &&& result.data.len() == left.data.len()
    &&& forall|k: int|
        0 <= k < result.data.len() ==> multiplies::<A>(
            left.data[k],
            right.data[k],
            #[trigger] result.data[k],
        )
}

/// `result` is `weight - rate * gradient`, rounded after the product and after the difference.
pub open spec fn descends<A: F32Arithmetic>(weight: u32, gradient: u32, rate: u32, result: u32) -> bool {
    exists|scaled: u32|
        multiplies::<A>(rate, gradient, scaled) && #[trigger] differs::<A>(weight, scaled, result)
}

/// Every element of `result` is an SGD update of the elements of its operands.
pub open spec fn updates<A: F32Arithmetic>(
    weights: TensorModel,
    gradient: TensorModel,
    rate: u32,
    result: TensorModel,
) -> bool {
    &&& result == TensorModel::plain(weights.shape, result.data)
    &&& result.data.len() == weights.data.len()
    &&& forall|k: int|
        0 <= k < result.data.len() ==> descends::<A>(
            weights.data[k],
            gradient.data[k],
            rate,
            #[trigger] result.data[k],
        )
}

/// Every element of `result` is the larger of its operand's element and zero.
pub open spec fn rectifies<A: F32Arithmetic>(input: TensorModel, result: TensorModel) -> bool {
    &&& result == TensorModel::plain(input.shape, result.data)
    &&& result.data.len() == input.data.len()
    &&& forall|k: int|
        0 <= k < result.data.len() ==> maximizes::<A>(
            input.data[k],
            ZERO_BITS,
            #[trigger] result.data[k],
        )
}

/// The upstream elements where the input is positive, and zero elsewhere.
pub open spec fn gated(input: TensorModel, upstream: TensorModel) -> TensorModel {
    TensorModel::plain(
        input.shape,
        Seq::new(
            input.data.len(),
            |k: int|
                if positive(input.data[k]) {
                    upstream.data[k]
                } else {
                    ZERO_BITS
                },
        ),
    )
}

/// A derivative passes a `ReLU` only where the input is positive: zeros of either sign, negative
/// values and NaNs all stop it. Reverse-mode differentiation and the generated backward operation
/// share this gate.
pub proof fn law_gate_passes_positive_inputs_only(input: TensorModel, upstream: TensorModel, k: int)
    requires
        0 <= k < input.data.len(),
    ensures
        magnitude(input.data[k]) == 0 ==> gated(input, upstream).data[k] == ZERO_BITS,
        nan(input.data[k]) ==> gated(input, upstream).data[k] == ZERO_BITS,
        input.data[k] >= SIGN_BIT ==> gated(input, upstream).data[k] == ZERO_BITS,
        0 < input.data[k] <= INFINITY_BITS ==> gated(input, upstream).data[k] == upstream.data[k],
{
}

/// Where the left factor keeps the element of this logical row and inner index.
pub open spec fn left_at(shape: Seq<usize>, transposed: bool, row: int, inner: int) -> int {
    if transposed {
        inner * shape[1] + row
    } else {
        row * shape[1] + inner
    }
}

/// Where the right factor keeps the element of this logical inner index and column.
pub open spec fn right_at(shape: Seq<usize>, transposed: bool, inner: int, column: int) -> int {
    if transposed {
        column * shape[1] + inner
    } else {
        inner * shape[1] + column
    }
}

/// `total` is the sum of the first `count` products of one row and one column, added from the
/// left to zero and rounded after every step.
pub open spec fn dot<A: F32Arithmetic>(
    left: TensorModel,
    right: TensorModel,
    transpose_left: bool,
    transpose_right: bool,
    row: int,
    column: int,
    count: nat,
    total: u32,
) -> bool
    decreases count,
{
    if count == 0 {
        total == ZERO_BITS
    } else {
        exists|partial: u32, product: u32|
            {
                &&& dot::<A>(
                    left,
                    right,
                    transpose_left,
                    transpose_right,
                    row,
                    column,
                    (count - 1) as nat,
                    partial,
                )
                &&& #[trigger] multiplies::<A>(
                    left.data[left_at(left.shape, transpose_left, row, count - 1)],
                    right.data[right_at(right.shape, transpose_right, count - 1, column)],
                    product,
                )
                &&& #[trigger] sums::<A>(partial, product, total)
            }
    }
}

/// `result` is the matrix product of its operands under these transposes.
pub open spec fn multiplies_matrices<A: F32Arithmetic>(
    left: TensorModel,
    right: TensorModel,
    transpose_left: bool,
    transpose_right: bool,
    result: TensorModel,
) -> bool {
    let (rows, inner) = left_dims(left.shape, transpose_left);
    let columns = right_dims(right.shape, transpose_right).1;
    &&& result == TensorModel::plain(
        product_shape(left.shape, right.shape, transpose_left, transpose_right),
        result.data,
    )
    &&& result.data.len() == rows * columns
    &&& forall|q: int|
        0 <= q < result.data.len() ==> dot::<A>(
            left,
            right,
            transpose_left,
            transpose_right,
            q / columns as int,
            q % columns as int,
            inner as nat,
            #[trigger] result.data[q],
        )
}

/// `square` is the squared difference of two elements.
pub open spec fn squares<A: F32Arithmetic>(left: u32, right: u32, square: u32) -> bool {
    exists|one: u32, other: u32|
        {
            &&& #[trigger] differs::<A>(left, right, one)
            &&& differs::<A>(left, right, other)
            &&& #[trigger] multiplies::<A>(one, other, square)
        }
}

/// `total` is the sum of the first `count` squared differences, added from the left to zero.
pub open spec fn squared_error<A: F32Arithmetic>(
    left: Seq<u32>,
    right: Seq<u32>,
    count: nat,
    total: u32,
) -> bool
    decreases count,
{
    if count == 0 {
        total == ZERO_BITS
    } else {
        exists|partial: u32, square: u32|
            {
                &&& squared_error::<A>(left, right, (count - 1) as nat, partial)
                &&& #[trigger] squares::<A>(left[count - 1], right[count - 1], square)
                &&& #[trigger] sums::<A>(partial, square, total)
            }
    }
}

/// `result` is the mean of the squared differences of two tensors.
pub open spec fn averages<A: F32Arithmetic>(
    left: TensorModel,
    right: TensorModel,
    result: TensorModel,
) -> bool {
    exists|total: u32, divisor: u32, mean: u32|
        {
            &&& squared_error::<A>(left.data, right.data, left.data.len(), total)
            &&& #[trigger] counts::<A>(left.data.len() as usize, divisor)
            &&& #[trigger] divides::<A>(total, divisor, mean)
            &&& result == TensorModel::scalar(mean)
        }
}

/// The place of the last input that is supplied for `value`.
pub open spec fn supplied_at(inputs: Seq<(ValueId, Tensor)>, value: ValueId) -> Option<int>
    decreases inputs.len(),
{
    if inputs.len() == 0 {
        None
    } else if inputs.last().0 == value {
        Some(inputs.len() - 1)
    } else {
        supplied_at(inputs.drop_last(), value)
    }
}

/// `result` is what the node computes from the values of the nodes before it.
pub open spec fn computes<A: F32Arithmetic>(
    graph: Graph,
    inputs: Seq<(ValueId, Tensor)>,
    values: Seq<Tensor>,
    at: int,
    result: TensorModel,
) -> bool {
    let node = graph.nodes@[at];
    match node.op {
        Op::Input => supplied_at(inputs, graph.value_at(at)) matches Some(k) && result
            == inputs[k].1@,
        Op::Constant(tensor) => result == tensor@,
        Op::Uniform(value) => result == TensorModel::splat(node.shape@, value),
        Op::Add(a, b) => adds::<A>(values[a.index as int]@, values[b.index as int]@, result),
        Op::Sub(a, b) => subtracts::<A>(values[a.index as int]@, values[b.index as int]@, result),
        Op::Mul(a, b) => scales::<A>(values[a.index as int]@, values[b.index as int]@, result),
        Op::SgdUpdate(weights, gradient, rate) => updates::<A>(
            values[weights.index as int]@,
            values[gradient.index as int]@,
            rate,
            result,
        ),
        Op::MatMul(a, b, tl, tr) => multiplies_matrices::<A>(
            values[a.index as int]@,
            values[b.index as int]@,
            tl,
            tr,
            result,
        ),
        Op::Relu(x) => rectifies::<A>(values[x.index as int]@, result),
        Op::ReluBackward(input, upstream) => result == gated(
            values[input.index as int]@,
            values[upstream.index as int]@,
        ),
        Op::MeanSquaredError(a, b) => averages::<A>(
            values[a.index as int]@,
            values[b.index as int]@,
            result,
        ),
    }
}

/// The supplied input at `k` is refused with this error.
pub open spec fn input_refused(
    graph: Graph,
    inputs: Seq<(ValueId, Tensor)>,
    k: int,
    error: TensorError,
) -> bool {
    if !graph.knows(inputs[k].0) || !graph.is_input(inputs[k].0) {
        error == TensorError::ExtraInput(inputs[k].0)
    } else {
        &&& supplied_at(inputs.take(k), inputs[k].0) is Some
        &&& error == TensorError::DuplicateInput(inputs[k].0)
    }
}

/// The supplied input at `k` is an input of the graph that no earlier one supplies.
pub open spec fn input_accepted(graph: Graph, inputs: Seq<(ValueId, Tensor)>, k: int) -> bool {
    &&& graph.knows(inputs[k].0)
    &&& graph.is_input(inputs[k].0)
    &&& supplied_at(inputs.take(k), inputs[k].0) is None
}

/// The graph input at `at` is not supplied, or with another shape.
pub open spec fn node_refused(
    graph: Graph,
    inputs: Seq<(ValueId, Tensor)>,
    at: int,
    error: TensorError,
) -> bool {
    &&& graph.nodes@[at].op is Input
    &&& match supplied_at(inputs, graph.value_at(at)) {
        None => error == TensorError::MissingInput(graph.value_at(at)),
        Some(k) => {
            &&& inputs[k].1@.shape != graph.nodes@[at].shape@
            &&& error.reports_mismatch(inputs[k].1@.shape, graph.nodes@[at].shape@)
        },
    }
}

/// A node that is an input is supplied with its shape.
pub open spec fn node_accepted(graph: Graph, inputs: Seq<(ValueId, Tensor)>, at: int) -> bool {
    graph.nodes@[at].op is Input ==> (supplied_at(inputs, graph.value_at(at)) matches Some(k)
        && inputs[k].1@.shape == graph.nodes@[at].shape@)
}

/// The values of one evaluation.
#[derive(Debug)]
pub struct Execution {
    pub graph_id: u64,
    pub node_count: usize,
    pub values: Vec<Tensor>,
}

impl Execution {
    /// This execution is one of `graph` as it stands.
    pub open spec fn covers(self, graph: Graph) -> bool {
        &&& self.graph_id == graph.id
        &&& self.node_count == graph.nodes@.len()
        &&& self.values@.len() == graph.nodes@.len()
    }

    /// Where the execution covers the graph, it holds a whole tensor of the right shape for every
    /// value.
    pub open spec fn fits(self, graph: Graph) -> bool {
        self.covers(graph) ==> forall|i: int|
            0 <= i < graph.nodes@.len() ==> (#[trigger] self.values@[i]).wf()
                && self.values@[i]@.shape == graph.nodes@[i].shape@
    }

    /// The evaluated tensor for a graph value.
    ///
    /// # Errors
    ///
    /// `UnknownValue` if `id` does not belong to this execution.
    pub fn value(&self, id: ValueId) -> (value: Result<&Tensor, TensorError>)
        ensures
            match value {
                Ok(tensor) => id.graph_id == self.graph_id && id.index < self.values@.len()
                    && *tensor == self.values@[id.index as int],
                Err(e) => !(id.graph_id == self.graph_id && id.index < self.values@.len()) && e
                    == TensorError::UnknownValue(id),
            },
    {
        if id.graph_id == self.graph_id && id.index < self.values.len() {
            Ok(&self.values[id.index])
        } else {
            Err(TensorError::UnknownValue(id))
        }
    }
}

/// The number of elements of a matrix.
pub proof fn lemma_matrix_extent(shape: Seq<usize>)
    requires
        shape.len() == 2,
    ensures
        extent(1, shape) == shape[0] * shape[1],
{
    reveal_with_fuel(extent, 3);
    assert(shape.drop_last().last() == shape[0]);
    assert(shape.last() == shape[1]);
    assert(extent(1, shape.drop_last()) == 1 * shape[0] as nat);
}

/// An element of a matrix lies within it.
pub proof fn lemma_matrix_place(rows: int, columns: int, row: int, column: int)
    requires
        0 <= row < rows,
        0 <= column < columns,
    ensures
        0 <= row * columns,
        row * columns + column < rows * columns,
        0 <= row * columns + column,
{
    assert(0 <= row * columns) by (nonlinear_arith)
        requires
            0 <= row,
            0 <= columns,
    ;
    assert((row + 1) * columns <= rows * columns) by (nonlinear_arith)
        requires
            row + 1 <= rows,
            0 <= columns,
    ;
    assert((row + 1) * columns == row * columns + columns) by (nonlinear_arith);
}

/// Both factors hold every element that a product of multipliable matrices reads.
pub proof fn lemma_factor_places(
    left: Seq<usize>,
    right: Seq<usize>,
    transpose_left: bool,
    transpose_right: bool,
    row: int,
    inner: int,
    column: int,
)
    requires
        multipliable(left, right, transpose_left, transpose_right),
        0 <= row < left_dims(left, transpose_left).0,
        0 <= inner < left_dims(left, transpose_left).1,
        0 <= column < right_dims(right, transpose_right).1,
    ensures
        0 <= left_at(left, transpose_left, row, inner) < extent(1, left),
        0 <= right_at(right, transpose_right, inner, column) < extent(1, right),
        0 <= row * left[1],
        0 <= inner * left[1],
        0 <= inner * right[1],
        0 <= column * right[1],
        transpose_left ==> inner * left[1] < extent(1, left),
        !transpose_left ==> row * left[1] < extent(1, left),
        transpose_right ==> column * right[1] < extent(1, right),
        !transpose_right ==> inner * right[1] < extent(1, right),
{
    lemma_matrix_extent(left);
    lemma_matrix_extent(right);
    if transpose_left {
        lemma_matrix_place(left[0] as int, left[1] as int, inner, row);
    } else {
        lemma_matrix_place(left[0] as int, left[1] as int, row, inner);
    }
    if transpose_right {
        lemma_matrix_place(right[0] as int, right[1] as int, column, inner);
    } else {
        lemma_matrix_place(right[0] as int, right[1] as int, inner, column);
    }
    assert(0 <= row * left[1]) by (nonlinear_arith)
        requires
            0 <= row,
            0 <= left[1],
    ;
    assert(0 <= inner * left[1]) by (nonlinear_arith)
        requires
            0 <= inner,
            0 <= left[1],
    ;
    assert(0 <= inner * right[1]) by (nonlinear_arith)
        requires
            0 <= inner,
            0 <= right[1],
    ;
    assert(0 <= column * right[1]) by (nonlinear_arith)
        requires
            0 <= column,
            0 <= right[1],
    ;
}

proof fn lemma_dot_step<A: F32Arithmetic>(
    left: TensorModel,
    right: TensorModel,
    transpose_left: bool,
    transpose_right: bool,
    row: int,
    column: int,
    count: nat,
    partial: u32,
    product: u32,
    total: u32,
)
    requires
        dot::<A>(left, right, transpose_left, transpose_right, row, column, count, partial),
        multiplies::<A>(
            left.data[left_at(left.shape, transpose_left, row, count as int)],
            right.data[right_at(right.shape, transpose_right, count as int, column)],
            product,
        ),
        sums::<A>(partial, product, total),
    ensures
        dot::<A>(left, right, transpose_left, transpose_right, row, column, count + 1, total),
{
    let more: nat = count + 1;
    assert((more - 1) as nat == count);
    assert(multiplies::<A>(
        left.data[left_at(left.shape, transpose_left, row, more - 1)],
        right.data[right_at(right.shape, transpose_right, more - 1, column)],
        product,
    ));
}

proof fn lemma_error_step<A: F32Arithmetic>(
    left: Seq<u32>,
    right: Seq<u32>,
    count: nat,
    partial: u32,
    square: u32,
    total: u32,
)
    requires
        squared_error::<A>(left, right, count, partial),
        squares::<A>(left[count as int], right[count as int], square),
        sums::<A>(partial, square, total),
    ensures
        squared_error::<A>(left, right, count + 1, total),
{
    let more: nat = count + 1;
    assert((more - 1) as nat == count);
    assert(squares::<A>(left[more - 1], right[more - 1], square));
}

/// Adds two equally shaped tensors.
pub fn add_tensors<A: F32Arithmetic>(left: &Tensor, right: &Tensor) -> (result: Tensor)
    requires
        left.wf(),
        right.wf(),
        left@.shape == right@.shape,
    ensures
        result.wf(),
        adds::<A>(left@, right@, result@),
{
    let mut data: Vec<u32> = Vec::with_capacity(left.data.len());
    while data.len() < left.data.len()
        invariant
            data@.len() <= left.data@.len() == right.data@.len(),
            forall|k: int|
                0 <= k < data@.len() ==> sums::<A>(
                    left.data@[k],
                    right.data@[k],
                    #[trigger] data@[k],
                ),
        decreases left.data@.len() - data@.len(),
    {
        let at: usize = data.len();
        data.push(A::sum(left.data[at], right.data[at]));
    }
    Tensor { shape: slice_to_vec(left.shape.as_slice()), data, known_uniform_value: None }
}

/// Subtracts two equally shaped tensors.
pub fn subtract_tensors<A: F32Arithmetic>(left: &Tensor, right: &Tensor) -> (result: Tensor)
    requires
        left.wf(),
        right.wf(),
        left@.shape == right@.shape,
    ensures
        result.wf(),
        subtracts::<A>(left@, right@, result@),
{
    let mut data: Vec<u32> = Vec::with_capacity(left.data.len());
    while data.len() < left.data.len()
        invariant
            data@.len() <= left.data@.len() == right.data@.len(),
            forall|k: int|
                0 <= k < data@.len() ==> differs::<A>(
                    left.data@[k],
                    right.data@[k],
                    #[trigger] data@[k],
                ),
        decreases left.data@.len() - data@.len(),
    {
        let at: usize = data.len();
        data.push(A::difference(left.data[at], right.data[at]));
    }
    Tensor { shape: slice_to_vec(left.shape.as_slice()), data, known_uniform_value: None }
}

/// Multiplies two equally shaped tensors elementwise.
pub fn multiply_tensors<A: F32Arithmetic>(left: &Tensor, right: &Tensor) -> (result: Tensor)
    requires
        left.wf(),
        right.wf(),
        left@.shape == right@.shape,
    ensures
        result.wf(),
        scales::<A>(left@, right@, result@),
{
    let mut data: Vec<u32> = Vec::with_capacity(left.data.len());
    while data.len() < left.data.len()
        invariant
            data@.len() <= left.data@.len() == right.data@.len(),
            forall|k: int|
                0 <= k < data@.len() ==> multiplies::<A>(
                    left.data@[k],
                    right.data@[k],
                    #[trigger] data@[k],
                ),
        decreases left.data@.len() - data@.len(),
    {
        let at: usize = data.len();
        data.push(A::product(left.data[at], right.data[at]));
    }
    Tensor { shape: slice_to_vec(left.shape.as_slice()), data, known_uniform_value: None }
}

/// Takes one SGD step, without contraction.
fn update_tensor<A: F32Arithmetic>(weights: &Tensor, gradient: &Tensor, rate: u32) -> (result:
    Tensor)
    requires
        weights.wf(),
        gradient.wf(),
        weights@.shape == gradient@.shape,
    ensures
        result.wf(),
        updates::<A>(weights@, gradient@, rate, result@),
{
    let mut data: Vec<u32> = Vec::with_capacity(weights.data.len());
    while data.len() < weights.data.len()
        invariant
            data@.len() <= weights.data@.len() == gradient.data@.len(),
            forall|k: int|
                0 <= k < data@.len() ==> descends::<A>(
                    weights.data@[k],
                    gradient.data@[k],
                    rate,
                    #[trigger] data@[k],
                ),
        decreases weights.data@.len() - data@.len(),
    {
        let at: usize = data.len();
        let scaled: u32 = A::product(rate, gradient.data[at]);
        let updated: u32 = A::difference(weights.data[at], scaled);
        assert(multiplies::<A>(rate, gradient.data@[at as int], scaled));
        assert(differs::<A>(weights.data@[at as int], scaled, updated));
        data.push(updated);
    }
    Tensor { shape: slice_to_vec(weights.shape.as_slice()), data, known_uniform_value: None }
}

/// Replaces negative elements by zero.
fn rectify_tensor<A: F32Arithmetic>(input: &Tensor) -> (result: Tensor)
    requires
        input.wf(),
    ensures
        result.wf(),
        rectifies::<A>(input@, result@),
{
    let mut data: Vec<u32> = Vec::with_capacity(input.data.len());
    while data.len() < input.data.len()
        invariant
            data@.len() <= input.data@.len(),
            forall|k: int|
                0 <= k < data@.len() ==> maximizes::<A>(
                    input.data@[k],
                    ZERO_BITS,
                    #[trigger] data@[k],
                ),
        decreases input.data@.len() - data@.len(),
    {
        let at: usize = data.len();
        data.push(A::maximum(input.data[at], ZERO_BITS));
    }
    Tensor { shape: slice_to_vec(input.shape.as_slice()), data, known_uniform_value: None }
}

/// Passes the upstream elements on where the input is positive.
pub fn gate_tensor(input: &Tensor, upstream: &Tensor) -> (result: Tensor)
    requires
        input.wf(),
        upstream.wf(),
        input@.shape == upstream@.shape,
    ensures
        result.wf(),
        result@ == gated(input@, upstream@),
{
    let mut data: Vec<u32> = Vec::with_capacity(input.data.len());
    while data.len() < input.data.len()
        invariant
            data@.len() <= input.data@.len() == upstream.data@.len(),
            forall|k: int|
                0 <= k < data@.len() ==> #[trigger] data@[k] == gated(input@, upstream@).data[k],
        decreases input.data@.len() - data@.len(),
    {
        let at: usize = data.len();
        let kept: u32 = if is_positive(input.data[at]) {
            upstream.data[at]
        } else {
            ZERO_BITS
        };
        data.push(kept);
    }
    assert(data@ =~= gated(input@, upstream@).data);
    Tensor { shape: slice_to_vec(input.shape.as_slice()), data, known_uniform_value: None }
}

/// Multiplies two matrices, rounding after every product and every sum.
pub fn matmul<A: F32Arithmetic>(
    left: &Tensor,
    right: &Tensor,
    transpose_left: bool,
    transpose_right: bool,
) -> (result: Tensor)
    requires
        left.wf(),
        right.wf(),
        multipliable(left@.shape, right@.shape, transpose_left, transpose_right),
        extent_fits(1, product_shape(left@.shape, right@.shape, transpose_left, transpose_right)),
    ensures
        result.wf(),
        multiplies_matrices::<A>(left@, right@, transpose_left, transpose_right, result@),
{
    let (rows, inner): (usize, usize) = if transpose_left {
        (left.shape[1], left.shape[0])
    } else {
        (left.shape[0], left.shape[1])
    };
    let columns: usize = if transpose_right {
        right.shape[0]
    } else {
        right.shape[1]
    };
    let ghost shape = product_shape(left@.shape, right@.shape, transpose_left, transpose_right);
    proof {
        lemma_matrix_extent(shape);
    }
    let mut data: Vec<u32> = Vec::new();
    let mut row: usize = 0;
    while row < rows
        invariant
            left.wf(),
            right.wf(),
            multipliable(left@.shape, right@.shape, transpose_left, transpose_right),
            left_dims(left@.shape, transpose_left) == (rows, inner),
            right_dims(right@.shape, transpose_right).1 == columns,
            row <= rows,
            rows * columns <= usize::MAX,
            data@.len() == row * columns,
            forall|q: int|
                0 <= q < data@.len() ==> dot::<A>(
                    left@,
                    right@,
                    transpose_left,
                    transpose_right,
                    q / columns as int,
                    q % columns as int,
                    inner as nat,
                    #[trigger] data@[q],
                ),
        decreases rows - row,
    {
        let mut column: usize = 0;
        while column < columns
            invariant
                left.wf(),
                right.wf(),
                multipliable(left@.shape, right@.shape, transpose_left, transpose_right),
                left_dims(left@.shape, transpose_left) == (rows, inner),
                right_dims(right@.shape, transpose_right).1 == columns,
                row < rows,
                column <= columns,
                rows * columns <= usize::MAX,
                data@.len() == row * columns + column,
                forall|q: int|
                    0 <= q < data@.len() ==> dot::<A>(
                        left@,
                        right@,
                        transpose_left,
                        transpose_right,
                        q / columns as int,
                        q % columns as int,
                        inner as nat,
                        #[trigger] data@[q],
                    ),
            decreases columns - column,
        {
            let mut total: u32 = ZERO_BITS;
            let mut at: usize = 0;
            while at < inner
                invariant
                    left.wf(),
                    right.wf(),
                    multipliable(left@.shape, right@.shape, transpose_left, transpose_right),
                    left_dims(left@.shape, transpose_left) == (rows, inner),
                    right_dims(right@.shape, transpose_right).1 == columns,
                    row < rows,
                    column < columns,
                    at <= inner,
                    dot::<A>(
                        left@,
                        right@,
                        transpose_left,
                        transpose_right,
                        row as int,
                        column as int,
                        at as nat,
                        total,
                    ),
                decreases inner - at,
            {
                proof {
                    lemma_factor_places(
                        left@.shape,
                        right@.shape,
                        transpose_left,
                        transpose_right,
                        row as int,
                        at as int,
                        column as int,
                    );
                    assert(left.data.len() == left.data@.len());
                    assert(right.data.len() == right.data@.len());
                }
                let left_index: usize = if transpose_left {
                    at * left.shape[1] + row
                } else {
                    row * left.shape[1] + at
                };
                let right_index: usize = if transpose_right {
                    column * right.shape[1] + at
                } else {
                    at * right.shape[1] + column
                };
                let product: u32 = A::product(left.data[left_index], right.data[right_index]);
                let next: u32 = A::sum(total, product);
                proof {
                    assert(multiplies::<A>(
                        left@.data[left_at(left@.shape, transpose_left, row as int, at as int)],
                        right@.data[right_at(
                            right@.shape,
                            transpose_right,
                            at as int,
                            column as int,
                        )],
                        product,
                    ));
                    assert(sums::<A>(total, product, next));
                    lemma_dot_step::<A>(
                        left@,
                        right@,
                        transpose_left,
                        transpose_right,
                        row as int,
                        column as int,
                        at as nat,
                        total,
                        product,
                        next,
                    );
                }
                total = next;
                at += 1;
            }
            proof {
                let q = data@.len() as int;
                lemma_fundamental_div_mod_converse(
                    q,
                    columns as int,
                    row as int,
                    column as int,
                );
                lemma_matrix_place(rows as int, columns as int, row as int, column as int);
            }
            data.push(total);
            column += 1;
        }
        assert((row + 1) * columns == row * columns + columns) by (nonlinear_arith);
        row += 1;
    }
    let mut result_shape: Vec<usize> = Vec::new();
    result_shape.push(rows);
    result_shape.push(columns);
    assert(result_shape@ =~= shape);
    Tensor { shape: result_shape, data, known_uniform_value: None }
}

/// Averages the squared differences of two tensors.
fn mean_squared_error_of<A: F32Arithmetic>(left: &Tensor, right: &Tensor) -> (result: Tensor)
    requires
        left.wf(),
        right.wf(),
        left@.shape == right@.shape,
    ensures
        result.wf(),
        averages::<A>(left@, right@, result@),
{
    let divisor: u32 = A::from_count(left.data.len());
    let mut total: u32 = ZERO_BITS;
    let mut at: usize = 0;
    while at < left.data.len()
        invariant
            at <= left.data@.len() == right.data@.len(),
            squared_error::<A>(left.data@, right.data@, at as nat, total),
        decreases left.data@.len() - at,
    {
        let one: u32 = A::difference(left.data[at], right.data[at]);
        let other: u32 = A::difference(left.data[at], right.data[at]);
        let square: u32 = A::product(one, other);
        let next: u32 = A::sum(total, square);
        proof {
            assert(differs::<A>(left.data@[at as int], right.data@[at as int], one));
            assert(differs::<A>(left.data@[at as int], right.data@[at as int], other));
            assert(multiplies::<A>(one, other, square));
            assert(squares::<A>(left.data@[at as int], right.data@[at as int], square));
            assert(sums::<A>(total, square, next));
            lemma_error_step::<A>(left.data@, right.data@, at as nat, total, square, next);
        }
        total = next;
        at += 1;
    }
    let mean: u32 = A::quotient(total, divisor);
    assert(counts::<A>(left@.data.len() as usize, divisor));
    assert(divides::<A>(total, divisor, mean));
    Tensor::scalar(mean)
}

proof fn lemma_supplied_before(inputs: Seq<(ValueId, Tensor)>, k: int, value: ValueId)
    requires
        0 <= k < inputs.len(),
    ensures
        supplied_at(inputs.take(k + 1), value) == if inputs[k].0 == value {
            Some(k)
        } else {
            supplied_at(inputs.take(k), value)
        },
{
    assert(inputs.take(k + 1).drop_last() =~= inputs.take(k));
    assert(inputs.take(k + 1).last() == inputs[k]);
}

proof fn lemma_supplied_place(inputs: Seq<(ValueId, Tensor)>, value: ValueId)
    ensures
        supplied_at(inputs, value) matches Some(k) ==> 0 <= k < inputs.len() && inputs[k].0 == value,
    decreases inputs.len(),
{
    if inputs.len() > 0 && inputs.last().0 != value {
        lemma_supplied_place(inputs.drop_last(), value);
    }
}

impl Graph {
    /// Files the supplied tensors by the graph input that they are for.
    fn file_inputs(&self, inputs: &[(ValueId, Tensor)]) -> (answer: Result<
        Vec<Option<usize>>,
        TensorError,
    >)
        ensures
            match answer {
                Ok(filed) => {
                    &&& forall|k: int|
                        0 <= k < inputs@.len() ==> #[trigger] input_accepted(*self, inputs@, k)
                    &&& filed@.len() == self.nodes@.len()
                    &&& forall|i: int|
                        0 <= i < filed@.len() ==> match #[trigger] filed@[i] {
                            Some(k) => supplied_at(inputs@, self.value_at(i)) == Some(k as int),
                            None => supplied_at(inputs@, self.value_at(i)) is None,
                        }
                },
                Err(error) => exists|k: int|
                    {
                        &&& 0 <= k < inputs@.len()
                        &&& #[trigger] input_refused(*self, inputs@, k, error)
                        &&& forall|j: int|
                            0 <= j < k ==> #[trigger] input_accepted(*self, inputs@, j)
                    },
            },
    {
        let mut filed: Vec<Option<usize>> = Vec::with_capacity(self.nodes.len());
        while filed.len() < self.nodes.len()
            invariant
                filed@.len() <= self.nodes@.len(),
                forall|i: int| 0 <= i < filed@.len() ==> filed@[i] is None,
            decreases self.nodes@.len() - filed@.len(),
        {
            filed.push(None);
        }
        let mut k: usize = 0;
        assert(inputs@.take(0).len() == 0);
        while k < inputs.len()
            invariant
                k <= inputs@.len(),
                filed@.len() == self.nodes@.len(),
                self.nodes@.len() <= usize::MAX,
                forall|j: int| 0 <= j < k ==> #[trigger] input_accepted(*self, inputs@, j),
                forall|i: int|
                    0 <= i < filed@.len() ==> match #[trigger] filed@[i] {
                        Some(j) => supplied_at(inputs@.take(k as int), self.value_at(i)) == Some(
                            j as int,
                        ),
                        None => supplied_at(inputs@.take(k as int), self.value_at(i)) is None,
                    },
            decreases inputs@.len() - k,
        {
            let id: ValueId = inputs[k].0;
            let known: bool = if id.graph_id == self.id && id.index < self.nodes.len() {
                match self.nodes[id.index].op {
                    Op::Input => true,
                    _ => false,
                }
            } else {
                false
            };
            if !known {
                assert(input_refused(*self, inputs@, k as int, TensorError::ExtraInput(id)));
                return Err(TensorError::ExtraInput(id));
            }
            assert(self.value_at(id.index as int) == id);
            if filed[id.index].is_some() {
                assert(filed@[id.index as int] is Some);
                assert(input_refused(*self, inputs@, k as int, TensorError::DuplicateInput(id)));
                return Err(TensorError::DuplicateInput(id));
            }
            assert(filed@[id.index as int] is None);
            assert(input_accepted(*self, inputs@, k as int));
            let ghost before = filed@;
            filed.set(id.index, Some(k));
            proof {
                assert forall|i: int| 0 <= i < filed@.len() implies match #[trigger] filed@[i] {
                    Some(j) => supplied_at(inputs@.take(k + 1), self.value_at(i)) == Some(j as int),
                    None => supplied_at(inputs@.take(k + 1), self.value_at(i)) is None,
                } by {
                    lemma_supplied_before(inputs@, k as int, self.value_at(i));
                    if i != id.index {
                        assert(filed@[i] == before[i]);
                        assert(self.value_at(i) != id);
                    }
                }
            }
            k += 1;
        }
        assert(inputs@.take(k as int) =~= inputs@);
        Ok(filed)
    }

    /// Computes one node from the values of the nodes before it.
    fn evaluate_node<A: F32Arithmetic>(
        &self,
        inputs: &[(ValueId, Tensor)],
        filed: &[Option<usize>],
        values: &[Tensor],
        index: usize,
    ) -> (answer: Result<Tensor, TensorError>)
        requires
            self.wf(),
            index < self.nodes@.len(),
            values@.len() == index,
            forall|i: int|
                0 <= i < index ==> (#[trigger] values@[i]).wf() && values@[i]@.shape
                    == self.nodes@[i].shape@,
            forall|k: int| 0 <= k < inputs@.len() ==> (#[trigger] inputs@[k]).1.wf(),
            filed@.len() == self.nodes@.len(),
            match filed@[index as int] {
                Some(k) => supplied_at(inputs@, self.value_at(index as int)) == Some(k as int),
                None => supplied_at(inputs@, self.value_at(index as int)) is None,
            },
        ensures
            match answer {
                Ok(tensor) => {
                    &&& tensor.wf()
                    &&& tensor@.shape == self.nodes@[index as int].shape@
                    &&& computes::<A>(*self, inputs@, values@, index as int, tensor@)
                    &&& node_accepted(*self, inputs@, index as int)
                },
                Err(error) => node_refused(*self, inputs@, index as int, error),
            },
    {
        let node = &self.nodes[index];
        proof {
            let op = node.op;
            assert(node_wf(self.id, self.nodes@, index as int));
            lemma_supplied_place(inputs@, self.value_at(index as int));
            assert forall|j: int| 0 <= j < reads(op).len() implies (#[trigger] reads(
                op,
            )[j]).index < index by {
                assert(precedes(self.id, index as int, reads(op)[j]));
            }
            match op {
                Op::Add(a, b) => { assert(reads(op)[0] == a && reads(op)[1] == b); },
                Op::Sub(a, b) => { assert(reads(op)[0] == a && reads(op)[1] == b); },
                Op::Mul(a, b) => { assert(reads(op)[0] == a && reads(op)[1] == b); },
                Op::SgdUpdate(a, b, _) => { assert(reads(op)[0] == a && reads(op)[1] == b); },
                Op::MatMul(a, b, _, _) => { assert(reads(op)[0] == a && reads(op)[1] == b); },
                Op::ReluBackward(a, b) => { assert(reads(op)[0] == a && reads(op)[1] == b); },
                Op::MeanSquaredError(a, b) => { assert(reads(op)[0] == a && reads(op)[1] == b); },
                Op::Relu(x) => { assert(reads(op)[0] == x); },
                _ => {},
            }
        }
        match &node.op {
            Op::Input => {
                match filed[index] {
                    None => Err(TensorError::MissingInput(ValueId { graph_id: self.id, index })),
                    Some(k) => {
                        let tensor: &Tensor = &inputs[k].1;
                        assert(inputs@[k as int].1.wf());
                        if !same_shape(tensor.shape.as_slice(), node.shape.as_slice()) {
                            return Err(
                                TensorError::ShapeMismatch {
                                    left: slice_to_vec(tensor.shape.as_slice()),
                                    right: slice_to_vec(node.shape.as_slice()),
                                },
                            );
                        }
                        Ok(tensor.clone())
                    },
                }
            },
            Op::Constant(tensor) => Ok(tensor.clone()),
            Op::Uniform(value) => {
                match Tensor::splat(slice_to_vec(node.shape.as_slice()), *value) {
                    Ok(tensor) => Ok(tensor),
                    Err(error) => Err(error),
                }
            },
            Op::Add(a, b) => Ok(add_tensors::<A>(&values[a.index], &values[b.index])),
            Op::Sub(a, b) => Ok(subtract_tensors::<A>(&values[a.index], &values[b.index])),
            Op::Mul(a, b) => Ok(multiply_tensors::<A>(&values[a.index], &values[b.index])),
            Op::SgdUpdate(weights, gradient, rate) => Ok(
                update_tensor::<A>(&values[weights.index], &values[gradient.index], *rate),
            ),
            Op::MatMul(a, b, transpose_left, transpose_right) => Ok(
                matmul::<A>(
                    &values[a.index],
                    &values[b.index],
                    *transpose_left,
                    *transpose_right,
                ),
            ),
            Op::Relu(x) => Ok(rectify_tensor::<A>(&values[x.index])),
            Op::ReluBackward(input, upstream) => Ok(
                gate_tensor(&values[input.index], &values[upstream.index]),
            ),
            Op::MeanSquaredError(a, b) => Ok(
                mean_squared_error_of::<A>(&values[a.index], &values[b.index]),
            ),
        }
    }

    /// Evaluates the graph with the supplied input tensors.
    ///
    /// # Errors
    ///
    /// The first supplied tensor that is extra (`ExtraInput`) or repeated (`DuplicateInput`); then
    /// the first graph input that is missing (`MissingInput`) or has another shape
    /// (`ShapeMismatch`).
    pub fn evaluate<A: F32Arithmetic>(&self, inputs: &[(ValueId, Tensor)]) -> (answer: Result<
        Execution,
        TensorError,
    >)
        requires
            self.wf(),
            forall|k: int| 0 <= k < inputs@.len() ==> (#[trigger] inputs@[k]).1.wf(),
        ensures
            evaluation_answer::<A>(*self, inputs@, answer),
    {
        let filed: Vec<Option<usize>> = self.file_inputs(inputs)?;
        let mut values: Vec<Tensor> = Vec::with_capacity(self.nodes.len());
        while values.len() < self.nodes.len()
            invariant
                self.wf(),
                forall|k: int| 0 <= k < inputs@.len() ==> (#[trigger] inputs@[k]).1.wf(),
                forall|k: int|
                    0 <= k < inputs@.len() ==> #[trigger] input_accepted(*self, inputs@, k),
                filed@.len() == self.nodes@.len(),
                forall|i: int|
                    0 <= i < filed@.len() ==> match #[trigger] filed@[i] {
                        Some(k) => supplied_at(inputs@, self.value_at(i)) == Some(k as int),
                        None => supplied_at(inputs@, self.value_at(i)) is None,
                    },
                values@.len() <= self.nodes@.len(),
                forall|i: int|
                    0 <= i < values@.len() ==> (#[trigger] values@[i]).wf() && values@[i]@.shape
                        == self.nodes@[i].shape@ && computes::<A>(
                        *self,
                        inputs@,
                        values@.take(i),
                        i,
                        values@[i]@,
                    ) && node_accepted(*self, inputs@, i),
            decreases self.nodes@.len() - values@.len(),
        {
            let index: usize = values.len();
            assert(filed@[index as int] is Some || filed@[index as int] is None);
            let ghost before = values@;
            assert(before.take(index as int) =~= before);
            let value: Tensor = match self.evaluate_node::<A>(
                inputs,
                filed.as_slice(),
                values.as_slice(),
                index,
            ) {
                Ok(value) => value,
                Err(error) => {
                    proof {
                        assert(node_refused(*self, inputs@, index as int, error));
                        assert forall|i: int| 0 <= i < index implies #[trigger] node_accepted(
                            *self,
                            inputs@,
                            i,
                        ) by {
                            assert(values@[i].wf());
                        }
                    }
                    return Err(error);
                },
            };
            values.push(value);
            proof {
                assert forall|i: int| 0 <= i < values@.len() implies (#[trigger] values@[i]).wf()
                    && values@[i]@.shape == self.nodes@[i].shape@ && computes::<A>(
                    *self,
                    inputs@,
                    values@.take(i),
                    i,
                    values@[i]@,
                ) && node_accepted(*self, inputs@, i) by {
                    assert(values@.take(i) =~= before.take(i));
                    if i < index {
                        assert(values@[i] == before[i]);
                        assert(before[i].wf());
                    }
                }
            }
        }
        proof {
            assert forall|i: int| 0 <= i < self.nodes@.len() implies #[trigger] node_accepted(
                *self,
                inputs@,
                i,
            ) by {
                assert(values@[i].wf());
            }
        }
        Ok(Execution { graph_id: self.id, node_count: self.nodes.len(), values })
    }
}

/// What evaluating a graph answers.
pub open spec fn evaluation_answer<A: F32Arithmetic>(
    graph: Graph,
    inputs: Seq<(ValueId, Tensor)>,
    answer: Result<Execution, TensorError>,
) -> bool {
    match answer {
        Ok(execution) => {
            &&& forall|k: int| 0 <= k < inputs.len() ==> #[trigger] input_accepted(graph, inputs, k)
            &&& forall|i: int|
                0 <= i < graph.nodes@.len() ==> #[trigger] node_accepted(graph, inputs, i)
            &&& execution.covers(graph)
            &&& execution.fits(graph)
            &&& forall|i: int|
                0 <= i < graph.nodes@.len() ==> computes::<A>(
                    graph,
                    inputs,
                    execution.values@.take(i),
                    i,
                    (#[trigger] execution.values@[i])@,
                )
        },
        Err(error) => {
            ||| exists|k: int|
                {
                    &&& 0 <= k < inputs.len()
                    &&& #[trigger] input_refused(graph, inputs, k, error)
                    &&& forall|j: int| 0 <= j < k ==> #[trigger] input_accepted(graph, inputs, j)
                }
            ||| {
                &&& forall|k: int|
                    0 <= k < inputs.len() ==> #[trigger] input_accepted(graph, inputs, k)
                &&& exists|i: int|
                    {
                        &&& 0 <= i < graph.nodes@.len()
                        &&& #[trigger] node_refused(graph, inputs, i, error)
                        &&& forall|j: int|
                            0 <= j < i ==> #[trigger] node_accepted(graph, inputs, j)
                    }
            }
        },
    }
}

impl<'a> TensorExecutionPlan<'a> {
    /// Executes the planned graph with the reference evaluator.
    ///
    /// # Errors
    ///
    /// Missing, duplicate, extra, or wrongly shaped inputs.
    pub fn execute_reference<A: F32Arithmetic>(&self, inputs: &[(ValueId, Tensor)]) -> (answer:
        Result<Execution, TensorError>)
        requires
            self.wf(),
            forall|k: int| 0 <= k < inputs@.len() ==> (#[trigger] inputs@[k]).1.wf(),
        ensures
            evaluation_answer::<A>(*self.graph, inputs@, answer),
    {
        self.graph.evaluate::<A>(inputs)
    }
}

} // verus!
