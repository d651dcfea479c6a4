//! Reverse-mode derivatives of one evaluation.
use vstd::arithmetic::div_mod::{lemma_fundamental_div_mod, lemma_mod_bound};
use vstd::prelude::*;
use vstd::slice::slice_to_vec;

use super::arithmetic::{counts, differs, divides, multiplies, sums, F32Arithmetic};
use super::bits::{negate, negated, ONE_BITS, TWO_BITS, ZERO_BITS};
use super::closure::{
    closed_under_reads, lemma_closed_holds_needs, lemma_reaches_operand, reaches,
};
use super::error::{TensorError, ValueId};
use super::evaluate::{
    add_tensors, adds, gate_tensor, gated, left_at, lemma_factor_places, lemma_matrix_extent,
    lemma_matrix_place, multiply_tensors, right_at, scales, Execution,
};
use super::graph::{
    left_dims, multipliable, node_wf, precedes, product_shape, reads, right_dims, Graph, Op,
};
use super::value::{extent, Tensor, TensorModel};

verus! {

/// What a list of derivatives holds.
pub open spec fn gradient_models(gradients: Seq<Option<Tensor>>) -> Seq<Option<TensorModel>> {
    gradients.map_values(
        |gradient: Option<Tensor>|
            match gradient {
                Some(tensor) => Some(tensor@),
                None => None,
            },
    )
}

/// `after` is `before` with `addition` added to it. The first contribution is taken as it is.
pub open spec fn accumulated<A: F32Arithmetic>(
    before: Option<TensorModel>,
    addition: TensorModel,
    after: TensorModel,
) -> bool {
    match before {
        None => after == addition,
        Some(current) => adds::<A>(current, addition, after),
    }
}

/// `after` is `before` with `addition` added to the derivative of `value`.
pub open spec fn contributes<A: F32Arithmetic>(
    before: Seq<Option<TensorModel>>,
    value: ValueId,
    addition: TensorModel,
    after: Seq<Option<TensorModel>>,
) -> bool {
    exists|sum: TensorModel|
        {
            &&& #[trigger] accumulated::<A>(before[value.index as int], addition, sum)
            &&& after == before.update(value.index as int, Some(sum))
        }
}

/// `after` is `before` with one contribution to each of two operands, in this order.
pub open spec fn contributes_pair<A: F32Arithmetic>(
    before: Seq<Option<TensorModel>>,
    first: ValueId,
    first_addition: TensorModel,
    second: ValueId,
    second_addition: TensorModel,
    after: Seq<Option<TensorModel>>,
) -> bool {
    exists|between: Seq<Option<TensorModel>>|
        {
            &&& #[trigger] contributes::<A>(before, first, first_addition, between)
            &&& contributes::<A>(between, second, second_addition, after)
        }
}

/// The tensor with every sign flipped.
pub open spec fn flipped(tensor: TensorModel) -> TensorModel {
    TensorModel::plain(tensor.shape, tensor.data.map_values(|value: u32| negated(value)))
}

/// Every element of `result` is `factor` times the element of `tensor`.
pub open spec fn scaled_by<A: F32Arithmetic>(
    factor: u32,
    tensor: TensorModel,
    result: TensorModel,
) -> bool {
    &&& result == TensorModel::plain(tensor.shape, result.data)
    &&& result.data.len() == tensor.data.len()
    &&& forall|k: int|
        0 <= k < result.data.len() ==> multiplies::<A>(
            factor,
            tensor.data[k],
            #[trigger] result.data[k],
        )
}

/// `result` is `2 * (from - to) / divisor * upstream`, rounded after every operation.
pub open spec fn slope<A: F32Arithmetic>(
    from: u32,
    to: u32,
    divisor: u32,
    upstream: u32,
    result: u32,
) -> bool {
    exists|difference: u32, twice: u32, mean: u32|
        {
            &&& #[trigger] differs::<A>(from, to, difference)
            &&& #[trigger] multiplies::<A>(TWO_BITS, difference, twice)
            &&& divides::<A>(twice, divisor, mean)
            &&& #[trigger] multiplies::<A>(mean, upstream, result)
        }
}

/// Every element of `result` is the slope of the mean squared error at the element of `from`.
pub open spec fn slopes<A: F32Arithmetic>(
    from: TensorModel,
    to: TensorModel,
    divisor: u32,
    upstream: u32,
    result: TensorModel,
) -> bool {
    &&& result == TensorModel::plain(from.shape, result.data)
    &&& result.data.len() == from.data.len()
    &&& forall|k: int|
        0 <= k < result.data.len() ==> slope::<A>(
            from.data[k],
            to.data[k],
            divisor,
            upstream,
            #[trigger] result.data[k],
        )
}

/// The logical row and inner index of a place in the left factor.
pub open spec fn left_place(shape: Seq<usize>, transposed: bool, at: int) -> (int, int) {
    if transposed {
        (at % shape[1] as int, at / shape[1] as int)
    } else {
        (at / shape[1] as int, at % shape[1] as int)
    }
}

/// The logical inner index and column of a place in the right factor.
pub open spec fn right_place(shape: Seq<usize>, transposed: bool, at: int) -> (int, int) {
    if transposed {
        (at % shape[1] as int, at / shape[1] as int)
    } else {
        (at / shape[1] as int, at % shape[1] as int)
    }
}

/// `total` is the sum over the first `count` columns of the upstream derivative times the right
/// factor.
pub open spec fn left_slope<A: F32Arithmetic>(
    upstream: TensorModel,
    right: TensorModel,
    transpose_right: bool,
    columns: int,
    row: int,
    inner: int,
    count: nat,
    total: u32,
) -> bool
    decreases count,
{
    if count == 0 {
        total == ZERO_BITS
    } else {
        exists|partial: u32, product: u32|
            {
                &&& left_slope::<A>(
                    upstream,
                    right,
                    transpose_right,
                    columns,
                    row,
                    inner,
                    (count - 1) as nat,
                    partial,
                )
                &&& #[trigger] multiplies::<A>(
                    upstream.data[row * columns + (count - 1)],
                    right.data[right_at(right.shape, transpose_right, inner, count - 1)],
                    product,
                )
                &&& #[trigger] sums::<A>(partial, product, total)
            }
    }
}

/// `total` is the sum over the first `count` rows of the left factor times the upstream
/// derivative.
pub open spec fn right_slope<A: F32Arithmetic>(
    left: TensorModel,
    upstream: TensorModel,
    transpose_left: bool,
    columns: int,
    inner: int,
    column: int,
    count: nat,
    total: u32,
) -> bool
    decreases count,
{
    if count == 0 {
        total == ZERO_BITS
    } else {
        exists|partial: u32, product: u32|
            {
                &&& right_slope::<A>(
                    left,
                    upstream,
                    transpose_left,
                    columns,
                    inner,
                    column,
                    (count - 1) as nat,
                    partial,
                )
                &&& #[trigger] multiplies::<A>(
                    left.data[left_at(left.shape, transpose_left, count - 1, inner)],
                    upstream.data[(count - 1) * columns + column],
                    product,
                )
                &&& #[trigger] sums::<A>(partial, product, total)
            }
    }
}

/// `result` is the derivative of a matrix product by its left factor.
pub open spec fn left_derivative<A: F32Arithmetic>(
    left: TensorModel,
    right: TensorModel,
    upstream: TensorModel,
    transpose_left: bool,
    transpose_right: bool,
    result: TensorModel,
) -> bool {
    let columns = right_dims(right.shape, transpose_right).1;
    &&& result == TensorModel::plain(left.shape, result.data)
    &&& result.data.len() == left.data.len()
    &&& forall|k: int|
        0 <= k < result.data.len() ==> left_slope::<A>(
            upstream,
            right,
            transpose_right,
            columns as int,
            left_place(left.shape, transpose_left, k).0,
            left_place(left.shape, transpose_left, k).1,
            columns as nat,
            #[trigger] result.data[k],
        )
}

/// `result` is the derivative of a matrix product by its right factor.
pub open spec fn right_derivative<A: F32Arithmetic>(
    left: TensorModel,
    right: TensorModel,
    upstream: TensorModel,
    transpose_left: bool,
    transpose_right: bool,
    result: TensorModel,
) -> bool {
    let rows = left_dims(left.shape, transpose_left).0;
    let columns = right_dims(right.shape, transpose_right).1;
    &&& result == TensorModel::plain(right.shape, result.data)
    &&& result.data.len() == right.data.len()
    &&& forall|k: int|
        0 <= k < result.data.len() ==> right_slope::<A>(
            left,
            upstream,
            transpose_left,
            columns as int,
            right_place(right.shape, transpose_right, k).0,
            right_place(right.shape, transpose_right, k).1,
            rows as nat,
            #[trigger] result.data[k],
        )
}

/// `after` is `before` with the derivative of the node at `at` passed on to its operands.
pub open spec fn passes_on<A: F32Arithmetic>(
    graph: Graph,
    values: Seq<Tensor>,
    before: Seq<Option<TensorModel>>,
    at: int,
    after: Seq<Option<TensorModel>>,
) -> bool {
    match before[at] {
        None => after == before,
        Some(upstream) => match graph.nodes@[at].op {
            Op::Input | Op::Constant(_) | Op::Uniform(_) => after == before,
            Op::Add(a, b) => contributes_pair::<A>(before, a, upstream, b, upstream, after),
            Op::Sub(a, b) => contributes_pair::<A>(
                before,
                a,
                upstream,
                b,
                flipped(upstream),
                after,
            ),
            Op::Mul(a, b) => exists|left: TensorModel, right: TensorModel|
                {
                    &&& #[trigger] scales::<A>(upstream, values[b.index as int]@, left)
                    &&& #[trigger] scales::<A>(upstream, values[a.index as int]@, right)
                    &&& contributes_pair::<A>(before, a, left, b, right, after)
                },
            Op::SgdUpdate(weights, gradient, rate) => exists|scaled: TensorModel|
                {
                    &&& #[trigger] scaled_by::<A>(negated(rate), upstream, scaled)
                    &&& contributes_pair::<A>(before, weights, upstream, gradient, scaled, after)
                },
            Op::Relu(x) => contributes::<A>(
                before,
                x,
                gated(values[x.index as int]@, upstream),
                after,
            ),
            Op::ReluBackward(_, _) => after == before,
            Op::MeanSquaredError(a, b) => exists|
                divisor: u32,
                left: TensorModel,
                right: TensorModel,
            |
                {
                    &&& #[trigger] counts::<A>(values[a.index as int].data@.len() as usize, divisor)
                    &&& #[trigger] slopes::<A>(
                        values[a.index as int]@,
                        values[b.index as int]@,
                        divisor,
                        upstream.data[0],
                        left,
                    )
                    &&& #[trigger] slopes::<A>(
                        values[b.index as int]@,
                        values[a.index as int]@,
                        divisor,
                        upstream.data[0],
                        right,
                    )
                    &&& contributes_pair::<A>(before, a, left, b, right, after)
                },
            Op::MatMul(a, b, tl, tr) => exists|left: TensorModel, right: TensorModel|
                {
                    &&& #[trigger] left_derivative::<A>(
                        values[a.index as int]@,
                        values[b.index as int]@,
                        upstream,
                        tl,
                        tr,
                        left,
                    )
                    &&& #[trigger] right_derivative::<A>(
                        values[a.index as int]@,
                        values[b.index as int]@,
                        upstream,
                        tl,
                        tr,
                        right,
                    )
                    &&& contributes_pair::<A>(before, a, left, b, right, after)
                },
        },
    }
}

/// The derivatives before the sweep: one for the output, none for anything else.
pub open spec fn seeded(count: nat, output: int) -> Seq<Option<TensorModel>> {
    Seq::new(
        count,
        |i: int|
            if i == output {
                Some(TensorModel::scalar(ONE_BITS))
            } else {
                None
            },
    )
}

/// `state` is what the sweep holds once it has passed on the derivatives of the nodes from
/// `output` down to `at`.
pub open spec fn swept<A: F32Arithmetic>(
    graph: Graph,
    values: Seq<Tensor>,
    output: int,
    at: int,
    state: Seq<Option<TensorModel>>,
) -> bool
    decreases output + 1 - at,
{
    if at > output {
        state == seeded(graph.nodes@.len(), output)
    } else {
        exists|before: Seq<Option<TensorModel>>|
            {
                &&& swept::<A>(graph, values, output, at + 1, before)
                &&& #[trigger] passes_on::<A>(graph, values, before, at, state)
            }
    }
}

/// Every derivative is a whole tensor of its value's shape, and belongs to a value that the output
/// needs.
pub open spec fn derivatives_fit(
    graph: Graph,
    output: int,
    gradients: Seq<Option<TensorModel>>,
) -> bool {
    &&& gradients.len() == graph.nodes@.len()
    &&& forall|i: int|
        0 <= i < gradients.len() ==> (#[trigger] gradients[i] matches Some(tensor) ==> tensor.wf()
            && tensor.shape == graph.nodes@[i].shape@ && reaches(graph.nodes@, output, i))
}

/// What is known of the operands of a node, as far as differentiating it goes.
proof fn lemma_operands(graph: Graph, at: int)
    requires
        graph.wf(),
        0 <= at < graph.nodes@.len(),
    ensures
        forall|k: int|
            0 <= k < reads(graph.nodes@[at].op).len() ==> (#[trigger] reads(
                graph.nodes@[at].op,
            )[k]).index < at && reads(graph.nodes@[at].op)[k].graph_id == graph.id,
        node_wf(graph.id, graph.nodes@, at),
{
    assert(node_wf(graph.id, graph.nodes@, at));
    assert forall|k: int| 0 <= k < reads(graph.nodes@[at].op).len() implies (#[trigger] reads(
        graph.nodes@[at].op,
    )[k]).index < at && reads(graph.nodes@[at].op)[k].graph_id == graph.id by {
        assert(precedes(graph.id, at, reads(graph.nodes@[at].op)[k]));
    }
}

/// Adds a contribution to the derivative of a value.
fn accumulate<A: F32Arithmetic>(gradients: &mut Vec<Option<Tensor>>, value: ValueId, addition: Tensor)
    requires
        value.index < old(gradients)@.len(),
        addition.wf(),
        old(gradients)@[value.index as int] matches Some(current) ==> current.wf()
            && current@.shape == addition@.shape,
    ensures
        final(gradients)@.len() == old(gradients)@.len(),
        contributes::<A>(
            gradient_models(old(gradients)@),
            value,
            addition@,
            gradient_models(final(gradients)@),
        ),
        final(gradients)@[value.index as int] matches Some(sum) && sum.wf() && sum@.shape
            == addition@.shape,
        forall|i: int|
            0 <= i < old(gradients)@.len() && i != value.index ==> final(gradients)@[i] == old(gradients)@[i],
{
    let ghost before = gradients@;
    let sum: Tensor = match &gradients[value.index] {
        Some(current) => add_tensors::<A>(current, &addition),
        None => addition,
    };
    assert(accumulated::<A>(gradient_models(before)[value.index as int], addition@, sum@));
    gradients.set(value.index, Some(sum));
    assert(gradient_models(gradients@) =~= gradient_models(before).update(
        value.index as int,
        Some(sum@),
    ));
}

/// Adds one contribution to each of two operands.
fn accumulate_pair<A: F32Arithmetic>(
    gradients: &mut Vec<Option<Tensor>>,
    first: ValueId,
    first_addition: Tensor,
    second: ValueId,
    second_addition: Tensor,
)
    requires
        first.index < old(gradients)@.len(),
        second.index < old(gradients)@.len(),
        first_addition.wf(),
        second_addition.wf(),
        first.index == second.index ==> first_addition@.shape == second_addition@.shape,
        old(gradients)@[first.index as int] matches Some(current) ==> current.wf()
            && current@.shape == first_addition@.shape,
        old(gradients)@[second.index as int] matches Some(current) ==> current.wf()
            && current@.shape == second_addition@.shape,
    ensures
        final(gradients)@.len() == old(gradients)@.len(),
        contributes_pair::<A>(
            gradient_models(old(gradients)@),
            first,
            first_addition@,
            second,
            second_addition@,
            gradient_models(final(gradients)@),
        ),
        final(gradients)@[first.index as int] matches Some(sum) && sum.wf() && sum@.shape
            == first_addition@.shape,
        final(gradients)@[second.index as int] matches Some(sum) && sum.wf() && sum@.shape
            == second_addition@.shape,
        forall|i: int|
            0 <= i < old(gradients)@.len() && i != first.index && i != second.index ==> final(gradients)@[i] == old(gradients)@[i],
{
    accumulate::<A>(gradients, first, first_addition);
    let ghost between = gradient_models(gradients@);
    accumulate::<A>(gradients, second, second_addition);
    assert(contributes::<A>(gradient_models(old(gradients)@), first, first_addition@, between));
}

/// Flips every sign.
fn flip_tensor(tensor: &Tensor) -> (result: Tensor)
    requires
        tensor.wf(),
    ensures
        result.wf(),
        result@ == flipped(tensor@),
{
    let mut data: Vec<u32> = Vec::with_capacity(tensor.data.len());
    while data.len() < tensor.data.len()
        invariant
            data@.len() <= tensor.data@.len(),
            forall|k: int|
                0 <= k < data@.len() ==> #[trigger] data@[k] == negated(tensor.data@[k]),
        decreases tensor.data@.len() - data@.len(),
    {
        let at: usize = data.len();
        data.push(negate(tensor.data[at]));
    }
    assert(data@ =~= flipped(tensor@).data);
    Tensor { shape: slice_to_vec(tensor.shape.as_slice()), data, known_uniform_value: None }
}

/// Multiplies every element by one factor.
fn scale_tensor<A: F32Arithmetic>(factor: u32, tensor: &Tensor) -> (result: Tensor)
    requires
        tensor.wf(),
    ensures
        result.wf(),
        scaled_by::<A>(factor, tensor@, result@),
{
    let mut data: Vec<u32> = Vec::with_capacity(tensor.data.len());
    while data.len() < tensor.data.len()
        invariant
            data@.len() <= tensor.data@.len(),
            forall|k: int|
                0 <= k < data@.len() ==> multiplies::<A>(
                    factor,
                    tensor.data@[k],
                    #[trigger] data@[k],
                ),
        decreases tensor.data@.len() - data@.len(),
    {
        let at: usize = data.len();
        data.push(A::product(factor, tensor.data[at]));
    }
    Tensor { shape: slice_to_vec(tensor.shape.as_slice()), data, known_uniform_value: None }
}

/// The slope of the mean squared error at one of its operands.
fn slope_tensor<A: F32Arithmetic>(from: &Tensor, to: &Tensor, divisor: u32, upstream: u32) -> (result:
    Tensor)
    requires
        from.wf(),
        to.wf(),
        from@.shape == to@.shape,
    ensures
        result.wf(),
        slopes::<A>(from@, to@, divisor, upstream, result@),
{
    let mut data: Vec<u32> = Vec::with_capacity(from.data.len());
    while data.len() < from.data.len()
        invariant
            data@.len() <= from.data@.len() == to.data@.len(),
            forall|k: int|
                0 <= k < data@.len() ==> slope::<A>(
                    from.data@[k],
                    to.data@[k],
                    divisor,
                    upstream,
                    #[trigger] data@[k],
                ),
        decreases from.data@.len() - data@.len(),
    {
        let at: usize = data.len();
        let difference: u32 = A::difference(from.data[at], to.data[at]);
        let twice: u32 = A::product(TWO_BITS, difference);
        let mean: u32 = A::quotient(twice, divisor);
        let result: u32 = A::product(mean, upstream);
        proof {
            assert(differs::<A>(from.data@[at as int], to.data@[at as int], difference));
            assert(multiplies::<A>(TWO_BITS, difference, twice));
            assert(divides::<A>(twice, divisor, mean));
            assert(multiplies::<A>(mean, upstream, result));
        }
        data.push(result);
    }
    Tensor { shape: slice_to_vec(from.shape.as_slice()), data, known_uniform_value: None }
}

proof fn lemma_left_slope_step<A: F32Arithmetic>(
    upstream: TensorModel,
    right: TensorModel,
    transpose_right: bool,
    columns: int,
    row: int,
    inner: int,
    count: nat,
    partial: u32,
    product: u32,
    total: u32,
)
    requires
        left_slope::<A>(upstream, right, transpose_right, columns, row, inner, count, partial),
        multiplies::<A>(
            upstream.data[row * columns + count],
            right.data[right_at(right.shape, transpose_right, inner, count as int)],
            product,
        ),
        sums::<A>(partial, product, total),
    ensures
        left_slope::<A>(upstream, right, transpose_right, columns, row, inner, count + 1, total),
{
    let more: nat = count + 1;
    assert((more - 1) as nat == count);
    assert(multiplies::<A>(
        upstream.data[row * columns + (more - 1)],
        right.data[right_at(right.shape, transpose_right, inner, more - 1)],
        product,
    ));
}

proof fn lemma_right_slope_step<A: F32Arithmetic>(
    left: TensorModel,
    upstream: TensorModel,
    transpose_left: bool,
    columns: int,
    inner: int,
    column: int,
    count: nat,
    partial: u32,
    product: u32,
    total: u32,
)
    requires
        right_slope::<A>(left, upstream, transpose_left, columns, inner, column, count, partial),
        multiplies::<A>(
            left.data[left_at(left.shape, transpose_left, count as int, inner)],
            upstream.data[count * columns + column],
            product,
        ),
        sums::<A>(partial, product, total),
    ensures
        right_slope::<A>(left, upstream, transpose_left, columns, inner, column, count + 1, total),
{
    let more: nat = count + 1;
    assert((more - 1) as nat == count);
    assert(multiplies::<A>(
        left.data[left_at(left.shape, transpose_left, more - 1, inner)],
        upstream.data[(more - 1) * columns + column],
        product,
    ));
}

/// A place in a matrix decomposes into a row and a column.
proof fn lemma_place_splits(rows: int, columns: int, at: int)
    requires
        0 <= at < rows * columns,
        0 <= rows,
        0 <= columns,
    ensures
        columns > 0,
        0 <= at / columns < rows,
        0 <= at % columns < columns,
{
    assert(columns > 0) by (nonlinear_arith)
        requires
            0 <= at < rows * columns,
            0 <= rows,
            0 <= columns,
    ;
    lemma_fundamental_div_mod(at, columns);
    lemma_mod_bound(at, columns);
    let q = at / columns;
    assert(q < rows) by (nonlinear_arith)
        requires
            at == columns * q + at % columns,
            0 <= at % columns,
            at < rows * columns,
            columns > 0,
    ;
    assert(0 <= q) by (nonlinear_arith)
        requires
            at == columns * q + at % columns,
            at % columns < columns,
            at >= 0,
            columns > 0,
    ;
}

/// The derivative of a matrix product by its left factor.
fn left_gradient<A: F32Arithmetic>(
    left: &Tensor,
    right: &Tensor,
    upstream: &Tensor,
    transpose_left: bool,
    transpose_right: bool,
) -> (result: Tensor)
    requires
        left.wf(),
        right.wf(),
        upstream.wf(),
        multipliable(left@.shape, right@.shape, transpose_left, transpose_right),
        upstream@.shape == product_shape(
            left@.shape,
            right@.shape,
            transpose_left,
            transpose_right,
        ),
    ensures
        result.wf(),
        left_derivative::<A>(
            left@,
            right@,
            upstream@,
            transpose_left,
            transpose_right,
            result@,
        ),
{
    let columns: usize = if transpose_right {
        right.shape[0]
    } else {
        right.shape[1]
    };
    let width: usize = left.shape[1];
    let ghost rows = left_dims(left@.shape, transpose_left).0;
    let ghost inner = left_dims(left@.shape, transpose_left).1;
    proof {
        lemma_matrix_extent(left@.shape);
        lemma_matrix_extent(upstream@.shape);
    }
    let mut data: Vec<u32> = Vec::with_capacity(left.data.len());
    while data.len() < left.data.len()
        invariant
            left.wf(),
            right.wf(),
            upstream.wf(),
            multipliable(left@.shape, right@.shape, transpose_left, transpose_right),
            columns == right_dims(right@.shape, transpose_right).1,
            (rows, inner) == left_dims(left@.shape, transpose_left),
            width == left@.shape[1],
            left.data@.len() == left@.shape[0] * left@.shape[1],
            upstream.data@.len() == rows * columns,
            data@.len() <= left.data@.len(),
            forall|k: int|
                0 <= k < data@.len() ==> left_slope::<A>(
                    upstream@,
                    right@,
                    transpose_right,
                    columns as int,
                    left_place(left@.shape, transpose_left, k).0,
                    left_place(left@.shape, transpose_left, k).1,
                    columns as nat,
                    #[trigger] data@[k],
                ),
        decreases left.data@.len() - data@.len(),
    {
        let at: usize = data.len();
        proof {
            lemma_place_splits(left@.shape[0] as int, left@.shape[1] as int, at as int);
        }
        let (row, middle): (usize, usize) = if transpose_left {
            (at % width, at / width)
        } else {
            (at / width, at % width)
        };
        let mut total: u32 = ZERO_BITS;
        let mut column: usize = 0;
        while column < columns
            invariant
                left.wf(),
                right.wf(),
                upstream.wf(),
                multipliable(left@.shape, right@.shape, transpose_left, transpose_right),
                columns == right_dims(right@.shape, transpose_right).1,
                (rows, inner) == left_dims(left@.shape, transpose_left),
                upstream.data@.len() == rows * columns,
                row < rows,
                middle < inner,
                column <= columns,
                left_slope::<A>(
                    upstream@,
                    right@,
                    transpose_right,
                    columns as int,
                    row as int,
                    middle as int,
                    column as nat,
                    total,
                ),
            decreases columns - column,
        {
            proof {
                lemma_factor_places(
                    left@.shape,
                    right@.shape,
                    transpose_left,
                    transpose_right,
                    row as int,
                    middle as int,
                    column as int,
                );
                lemma_matrix_place(rows as int, columns as int, row as int, column as int);
                assert(right.data.len() == right.data@.len());
                assert(upstream.data.len() == upstream.data@.len());
            }
            let right_index: usize = if transpose_right {
                column * right.shape[1] + middle
            } else {
                middle * right.shape[1] + column
            };
            let product: u32 = A::product(
                upstream.data[row * columns + column],
                right.data[right_index],
            );
            let next: u32 = A::sum(total, product);
            proof {
                assert(multiplies::<A>(
                    upstream@.data[row * columns + column],
                    right@.data[right_at(
                        right@.shape,
                        transpose_right,
                        middle as int,
                        column as int,
                    )],
                    product,
                ));
                assert(sums::<A>(total, product, next));
                lemma_left_slope_step::<A>(
                    upstream@,
                    right@,
                    transpose_right,
                    columns as int,
                    row as int,
                    middle as int,
                    column as nat,
                    total,
                    product,
                    next,
                );
            }
            total = next;
            column += 1;
        }
        data.push(total);
    }
    Tensor { shape: slice_to_vec(left.shape.as_slice()), data, known_uniform_value: None }
}

/// The derivative of a matrix product by its right factor.
fn right_gradient<A: F32Arithmetic>(
    left: &Tensor,
    right: &Tensor,
    upstream: &Tensor,
    transpose_left: bool,
    transpose_right: bool,
) -> (result: Tensor)
    requires
        left.wf(),
        right.wf(),
        upstream.wf(),
        multipliable(left@.shape, right@.shape, transpose_left, transpose_right),
        upstream@.shape == product_shape(
            left@.shape,
            right@.shape,
            transpose_left,
            transpose_right,
        ),
    ensures
        result.wf(),
        right_derivative::<A>(
            left@,
            right@,
            upstream@,
            transpose_left,
            transpose_right,
            result@,
        ),
{
    let rows: usize = if transpose_left {
        left.shape[1]
    } else {
        left.shape[0]
    };
    let columns: usize = if transpose_right {
        right.shape[0]
    } else {
        right.shape[1]
    };
    let width: usize = right.shape[1];
    let ghost inner = left_dims(left@.shape, transpose_left).1;
    proof {
        lemma_matrix_extent(right@.shape);
        lemma_matrix_extent(upstream@.shape);
    }
    let mut data: Vec<u32> = Vec::with_capacity(right.data.len());
    while data.len() < right.data.len()
        invariant
            left.wf(),
            right.wf(),
            upstream.wf(),
            multipliable(left@.shape, right@.shape, transpose_left, transpose_right),
            columns == right_dims(right@.shape, transpose_right).1,
            (rows, inner) == left_dims(left@.shape, transpose_left),
            width == right@.shape[1],
            right.data@.len() == right@.shape[0] * right@.shape[1],
            upstream.data@.len() == rows * columns,
            data@.len() <= right.data@.len(),
            forall|k: int|
                0 <= k < data@.len() ==> right_slope::<A>(
                    left@,
                    upstream@,
                    transpose_left,
                    columns as int,
                    right_place(right@.shape, transpose_right, k).0,
                    right_place(right@.shape, transpose_right, k).1,
                    rows as nat,
                    #[trigger] data@[k],
                ),
        decreases right.data@.len() - data@.len(),
    {
        let at: usize = data.len();
        proof {
            lemma_place_splits(right@.shape[0] as int, right@.shape[1] as int, at as int);
        }
        let (middle, column): (usize, usize) = if transpose_right {
            (at % width, at / width)
        } else {
            (at / width, at % width)
        };
        let mut total: u32 = ZERO_BITS;
        let mut row: usize = 0;
        while row < rows
            invariant
                left.wf(),
                right.wf(),
                upstream.wf(),
                multipliable(left@.shape, right@.shape, transpose_left, transpose_right),
                columns == right_dims(right@.shape, transpose_right).1,
                (rows, inner) == left_dims(left@.shape, transpose_left),
                upstream.data@.len() == rows * columns,
                middle < inner,
                column < columns,
                row <= rows,
                right_slope::<A>(
                    left@,
                    upstream@,
                    transpose_left,
                    columns as int,
                    middle as int,
                    column as int,
                    row as nat,
                    total,
                ),
            decreases rows - row,
        {
            proof {
                lemma_factor_places(
                    left@.shape,
                    right@.shape,
                    transpose_left,
                    transpose_right,
                    row as int,
                    middle as int,
                    column as int,
                );
                lemma_matrix_place(rows as int, columns as int, row as int, column as int);
                assert(left.data.len() == left.data@.len());
                assert(upstream.data.len() == upstream.data@.len());
            }
            let left_index: usize = if transpose_left {
                middle * left.shape[1] + row
            } else {
                row * left.shape[1] + middle
            };
            let product: u32 = A::product(
                left.data[left_index],
                upstream.data[row * columns + column],
            );
            let next: u32 = A::sum(total, product);
            proof {
                assert(multiplies::<A>(
                    left@.data[left_at(left@.shape, transpose_left, row as int, middle as int)],
                    upstream@.data[row * columns + column],
                    product,
                ));
                assert(sums::<A>(total, product, next));
                lemma_right_slope_step::<A>(
                    left@,
                    upstream@,
                    transpose_left,
                    columns as int,
                    middle as int,
                    column as int,
                    row as nat,
                    total,
                    product,
                    next,
                );
            }
            total = next;
            row += 1;
        }
        data.push(total);
    }
    Tensor { shape: slice_to_vec(right.shape.as_slice()), data, known_uniform_value: None }
}

/// Nothing that `output` needs is itself a generated backward node, which has no second
/// derivative.
pub open spec fn differentiable(graph: Graph, output: ValueId) -> bool {
    forall|i: int|
        0 <= i < graph.nodes@.len() && #[trigger] reaches(graph.nodes@, output.index as int, i)
            ==> !(graph.nodes@[i].op is ReluBackward)
}

/// `at` is the latest generated backward node that `output` needs.
pub open spec fn backward_operation(graph: Graph, output: ValueId, at: int) -> bool {
    &&& 0 <= at < graph.nodes@.len()
    &&& graph.nodes@[at].op is ReluBackward
    &&& reaches(graph.nodes@, output.index as int, at)
    &&& forall|i: int|
        at < i < graph.nodes@.len() && #[trigger] reaches(graph.nodes@, output.index as int, i)
            ==> !(graph.nodes@[i].op is ReluBackward)
}

impl Graph {
    /// The latest generated backward node that a value needs: the first that differentiating from
    /// the value would meet.
    pub fn find_backward_operation(&self, output: ValueId) -> (found: Option<usize>)
        requires
            self.wf(),
            self.knows(output),
        ensures
            match found {
                Some(at) => backward_operation(*self, output, at as int),
                None => differentiable(*self, output),
            },
    {
        let count: usize = self.nodes.len();
        let mut marked: Vec<bool> = Vec::new();
        while marked.len() < count
            invariant
                marked@.len() <= count == self.nodes@.len(),
                forall|i: int| 0 <= i < marked@.len() ==> !#[trigger] marked@[i],
            decreases count - marked@.len(),
        {
            marked.push(false);
        }
        self.mark_needed(output.index, &mut marked);
        let mut at: usize = count;
        while at > 0
            invariant
                at <= count == self.nodes@.len() == marked@.len(),
                forall|i: int|
                    0 <= i < count ==> (#[trigger] marked@[i] <==> reaches(
                        self.nodes@,
                        output.index as int,
                        i,
                    )),
                forall|i: int|
                    at <= i < count && #[trigger] reaches(self.nodes@, output.index as int, i)
                        ==> !(self.nodes@[i].op is ReluBackward),
            decreases at,
        {
            at -= 1;
            let backward: bool = match self.nodes[at].op {
                Op::ReluBackward(_, _) => true,
                _ => false,
            };
            assert(marked@[at as int] <==> reaches(self.nodes@, output.index as int, at as int));
            if marked[at] && backward {
                return Some(at);
            }
        }
        None
    }

    /// Whether differentiating from a value meets no generated backward node.
    pub fn is_differentiable(&self, output: ValueId) -> (answer: bool)
        requires
            self.wf(),
            self.knows(output),
        ensures
            answer == differentiable(*self, output),
    {
        self.find_backward_operation(output).is_none()
    }
}

/// What differentiating an evaluation by one of its values gives.
pub open spec fn gradients_answer<A: F32Arithmetic>(
    execution: Execution,
    graph: Graph,
    output: ValueId,
    answer: Result<Vec<Option<Tensor>>, TensorError>,
) -> bool {
    if execution.graph_id != graph.id {
        answer == Err::<Vec<Option<Tensor>>, TensorError>(TensorError::WrongGraph)
    } else if !execution.covers(graph) {
        answer == Err::<Vec<Option<Tensor>>, TensorError>(TensorError::GraphChanged)
    } else if !graph.knows(output) {
        answer == Err::<Vec<Option<Tensor>>, TensorError>(TensorError::UnknownValue(output))
    } else if graph.shape_of(output).len() != 0 {
        answer matches Err(TensorError::LossMustBeScalar(shape)) && shape@ == graph.shape_of(output)
    } else {
        &&& answer matches Ok(gradients)
        &&& swept::<A>(
            graph,
            execution.values@,
            output.index as int,
            0,
            gradient_models(gradients@),
        )
        &&& derivatives_fit(graph, output.index as int, gradient_models(gradients@))
        &&& forall|i: int|
            0 <= i < gradients@.len() ==> ((#[trigger] gradients@[i]) is Some <==> reaches(
                graph.nodes@,
                output.index as int,
                i,
            ))
    }
}

impl Execution {
    /// Passes the derivative of one node on to what it reads.
    fn pass_on<A: F32Arithmetic>(
        &self,
        graph: &Graph,
        gradients: &mut Vec<Option<Tensor>>,
        at: usize,
        upstream: Tensor,
    )
        requires
            graph.wf(),
            self.fits(*graph),
            self.covers(*graph),
            at < graph.nodes@.len(),
            old(gradients)@.len() == graph.nodes@.len(),
            old(gradients)@[at as int] matches Some(held) && held@ == upstream@,
            upstream.wf(),
            upstream@.shape == graph.nodes@[at as int].shape@,
            !(graph.nodes@[at as int].op is ReluBackward),
            forall|i: int|
                0 <= i < at ==> (#[trigger] old(gradients)@[i] matches Some(tensor) ==> tensor.wf()
                    && tensor@.shape == graph.nodes@[i].shape@),
        ensures
            final(gradients)@.len() == graph.nodes@.len(),
            passes_on::<A>(
                *graph,
                self.values@,
                gradient_models(old(gradients)@),
                at as int,
                gradient_models(final(gradients)@),
            ),
            forall|i: int|
                0 <= i < at && !reads(graph.nodes@[at as int].op).contains(graph.value_at(i))
                    ==> #[trigger] final(gradients)@[i] == old(gradients)@[i],
            forall|i: int|
                at <= i < graph.nodes@.len() ==> #[trigger] final(gradients)@[i] == old(gradients)@[i],
            forall|i: int|
                0 <= i < at ==> (#[trigger] final(gradients)@[i] matches Some(tensor)
                    ==> tensor.wf() && tensor@.shape == graph.nodes@[i].shape@),
            forall|k: int|
                0 <= k < reads(graph.nodes@[at as int].op).len() ==> final(gradients)@[(
                #[trigger] reads(graph.nodes@[at as int].op)[k]).index as int] is Some,
    {
        let ghost before = gradients@;
        let ghost op = graph.nodes@[at as int].op;
        proof {
            lemma_operands(*graph, at as int);
            assert forall|k: int| 0 <= k < reads(op).len() implies (#[trigger] reads(op)[k])
                == graph.value_at(reads(op)[k].index as int) by {}
        }
        match &graph.nodes[at].op {
            Op::Input | Op::Constant(_) | Op::Uniform(_) | Op::ReluBackward(_, _) => {},
            Op::Add(a, b) => {
                assert(reads(op) =~= seq![*a, *b]);
                assert(reads(op)[0] == *a && reads(op)[1] == *b);
                let again = upstream.clone();
                accumulate_pair::<A>(gradients, *a, upstream, *b, again);
            },
            Op::Sub(a, b) => {
                assert(reads(op)[0] == *a && reads(op)[1] == *b);
                let negative = flip_tensor(&upstream);
                accumulate_pair::<A>(gradients, *a, upstream, *b, negative);
            },
            Op::Mul(a, b) => {
                assert(reads(op)[0] == *a && reads(op)[1] == *b);
                let left = multiply_tensors::<A>(&upstream, &self.values[b.index]);
                let right = multiply_tensors::<A>(&upstream, &self.values[a.index]);
                let ghost pair = (left@, right@);
                accumulate_pair::<A>(gradients, *a, left, *b, right);
                assert(scales::<A>(upstream@, self.values@[b.index as int]@, pair.0));
                assert(scales::<A>(upstream@, self.values@[a.index as int]@, pair.1));
            },
            Op::SgdUpdate(weights, gradient, rate) => {
                assert(reads(op)[0] == *weights && reads(op)[1] == *gradient);
                let scaled = scale_tensor::<A>(negate(*rate), &upstream);
                let ghost kept = (upstream@, scaled@);
                accumulate_pair::<A>(gradients, *weights, upstream, *gradient, scaled);
                assert(scaled_by::<A>(negated(*rate), kept.0, kept.1));
            },
            Op::Relu(x) => {
                assert(reads(op)[0] == *x);
                let gated_upstream = gate_tensor(&self.values[x.index], &upstream);
                accumulate::<A>(gradients, *x, gated_upstream);
            },
            Op::MeanSquaredError(a, b) => {
                assert(reads(op)[0] == *a && reads(op)[1] == *b);
                let prediction = &self.values[a.index];
                let target = &self.values[b.index];
                assert(extent(1, upstream@.shape) == 1);
                let slope: u32 = upstream.data[0];
                let divisor: u32 = A::from_count(prediction.data.len());
                let left = slope_tensor::<A>(prediction, target, divisor, slope);
                let right = slope_tensor::<A>(target, prediction, divisor, slope);
                let ghost pair = (left@, right@);
                accumulate_pair::<A>(gradients, *a, left, *b, right);
                proof {
                    assert(counts::<A>(prediction.data@.len() as usize, divisor));
                    assert(slopes::<A>(prediction@, target@, divisor, slope, pair.0));
                    assert(slopes::<A>(target@, prediction@, divisor, slope, pair.1));
                }
            },
            Op::MatMul(a, b, transpose_left, transpose_right) => {
                assert(reads(op)[0] == *a && reads(op)[1] == *b);
                let (left_factor, right_factor) = (&self.values[a.index], &self.values[b.index]);
                let left = left_gradient::<A>(
                    left_factor,
                    right_factor,
                    &upstream,
                    *transpose_left,
                    *transpose_right,
                );
                let right = right_gradient::<A>(
                    left_factor,
                    right_factor,
                    &upstream,
                    *transpose_left,
                    *transpose_right,
                );
                let ghost pair = (left@, right@);
                accumulate_pair::<A>(gradients, *a, left, *b, right);
                proof {
                    assert(left_derivative::<A>(
                        left_factor@,
                        right_factor@,
                        upstream@,
                        *transpose_left,
                        *transpose_right,
                        pair.0,
                    ));
                    assert(right_derivative::<A>(
                        left_factor@,
                        right_factor@,
                        upstream@,
                        *transpose_left,
                        *transpose_right,
                        pair.1,
                    ));
                }
            },
        }
    }

    /// Reverse-mode derivative of the selected scalar output with respect to every graph value.
    ///
    /// # Errors
    ///
    /// `WrongGraph` for another graph, `GraphChanged` if the graph grew since the evaluation,
    /// `UnknownValue` for an unknown output, `LossMustBeScalar` if the output has dimensions.
    pub fn gradients<A: F32Arithmetic>(&self, graph: &Graph, output: ValueId) -> (answer: Result<
        Vec<Option<Tensor>>,
        TensorError,
    >)
        requires
            graph.wf(),
            self.fits(*graph),
            self.covers(*graph) && graph.knows(output) && graph.shape_of(output).len() == 0
                ==> differentiable(*graph, output),
        ensures
            gradients_answer::<A>(*self, *graph, output, answer),
    {
        if self.graph_id != graph.id {
            return Err(TensorError::WrongGraph);
        }
        if self.node_count != graph.nodes.len() || self.values.len() != graph.nodes.len() {
            return Err(TensorError::GraphChanged);
        }
        if output.graph_id != graph.id || output.index >= graph.nodes.len() {
            return Err(TensorError::UnknownValue(output));
        }
        let shape = &graph.nodes[output.index].shape;
        if shape.len() != 0 {
            return Err(TensorError::LossMustBeScalar(slice_to_vec(shape.as_slice())));
        }
        let ghost nodes = graph.nodes@;
        let ghost root = output.index as int;
        let count: usize = graph.nodes.len();
        let mut gradients: Vec<Option<Tensor>> = Vec::with_capacity(count);
        while gradients.len() < count
            invariant
                gradients@.len() <= count,
                forall|i: int|
                    0 <= i < gradients@.len() ==> (if i == output.index {
                        (#[trigger] gradients@[i]) matches Some(tensor) && tensor@
                            == TensorModel::scalar(ONE_BITS)
                    } else {
                        gradients@[i] is None
                    }),
            decreases count - gradients@.len(),
        {
            if gradients.len() == output.index {
                gradients.push(Some(Tensor::scalar(ONE_BITS)));
            } else {
                gradients.push(None);
            }
        }
        proof {
            assert(gradient_models(gradients@) =~= seeded(nodes.len(), root));
            assert(reaches(nodes, root, root));
            assert(extent(1, nodes[root].shape@) == 1);
            assert(nodes[root].shape@ =~= Seq::<usize>::empty());
        }
        let mut at: usize = output.index + 1;
        while at > 0
            invariant
                graph.wf(),
                self.fits(*graph),
                self.covers(*graph),
                differentiable(*graph, output),
                nodes == graph.nodes@,
                root == output.index,
                0 <= root < nodes.len(),
                at <= root + 1,
                gradients@.len() == nodes.len(),
                swept::<A>(*graph, self.values@, root, at as int, gradient_models(gradients@)),
                gradients@[root] is Some,
                forall|i: int|
                    0 <= i < nodes.len() ==> (#[trigger] gradients@[i] matches Some(tensor)
                        ==> tensor.wf() && tensor@.shape == nodes[i].shape@ && reaches(
                        nodes,
                        root,
                        i,
                    )),
                forall|i: int, k: int|
                    at <= i < nodes.len() && gradients@[i] is Some && 0 <= k < reads(
                        nodes[i].op,
                    ).len() ==> gradients@[(#[trigger] reads(nodes[i].op)[k]).index as int] is Some,
            decreases at,
        {
            at = at - 1;
            let ghost before = gradients@;
            proof {
                assert(before[at as int] is Some ==> reaches(nodes, root, at as int));
                lemma_operands(*graph, at as int);
            }
            let held: Option<Tensor> = match &gradients[at] {
                Some(tensor) => Some(tensor.clone()),
                None => None,
            };
            match held {
                None => {
                    assert(passes_on::<A>(
                        *graph,
                        self.values@,
                        gradient_models(before),
                        at as int,
                        gradient_models(before),
                    ));
                },
                Some(upstream) => {
                    self.pass_on::<A>(graph, &mut gradients, at, upstream);
                    proof {
                        assert forall|i: int| 0 <= i < nodes.len() implies (
                        #[trigger] gradients@[i] matches Some(tensor) ==> reaches(nodes, root, i))
                            by {
                            if i < at && gradients@[i] is Some && before[i] is None {
                                let value = graph.value_at(i);
                                assert(reads(nodes[at as int].op).contains(value));
                                let k = reads(nodes[at as int].op).index_of(value);
                                assert(reads(nodes[at as int].op)[k] == value);
                                assert(value.index == i);
                                lemma_reaches_operand(nodes, root, at as int, k);
                            }
                        }
                        assert forall|i: int, k: int|
                            at <= i < nodes.len() && gradients@[i] is Some && 0 <= k < reads(
                                nodes[i].op,
                            ).len() implies gradients@[(#[trigger] reads(
                            nodes[i].op,
                        )[k]).index as int] is Some by {
                            lemma_operands(*graph, i);
                            let operand = reads(nodes[i].op)[k];
                            if i > at {
                                assert(before[operand.index as int] is Some);
                                if operand.index < at && gradients@[operand.index as int] is None {
                                    let value = graph.value_at(operand.index as int);
                                    let j = reads(nodes[at as int].op).index_of(value);
                                    if reads(nodes[at as int].op).contains(value) {
                                        assert(reads(nodes[at as int].op)[j] == value);
                                    }
                                }
                            }
                        }
                    }
                },
            }
        }
        proof {
            let marked = Seq::new(nodes.len(), |i: int| gradients@[i] is Some);
            assert forall|i: int, k: int|
                0 <= i < nodes.len() && marked[i] && 0 <= k < reads(
                    nodes[i].op,
                ).len() implies marked[(#[trigger] reads(nodes[i].op)[k]).index as int] by {
                lemma_operands(*graph, i);
            }
            assert(closed_under_reads(nodes, marked));
            assert forall|i: int| 0 <= i < gradients@.len() implies ((
            #[trigger] gradients@[i]) is Some <==> reaches(nodes, root, i)) by {
                if reaches(nodes, root, i) {
                    lemma_closed_holds_needs(nodes, marked, root, i);
                }
            }
        }
        Ok(gradients)
    }
}

} // verus!
