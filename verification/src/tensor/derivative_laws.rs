//! The derivative of a value that one node reads, bit by bit.
use vstd::arithmetic::div_mod::lemma_fundamental_div_mod_converse;
use vstd::prelude::*;

use super::arithmetic::{counts, differs, divides, multiplies, sums, F32Arithmetic};
use super::bits::{negated, TWO_BITS};
use super::deterministic::ArithmeticRules;
use super::directional::opposite;
use super::error::ValueId;
use super::evaluate::{evaluation_answer, lemma_matrix_extent, lemma_matrix_place, Execution};
use super::evaluation_laws::{entry, height, summed, width};
use super::gradients::{
    accumulated, contributes, contributes_pair, gradient_models, gradients_answer, left_derivative,
    left_place, left_slope, passes_on, right_derivative, right_place, right_slope, scaled_by,
    slope, slopes, swept,
};
use super::graph::{multipliable, node_wf, precedes, reads, Graph, Op};
use super::value::{Tensor, TensorModel};

verus! {

/// The only node up to `output` that reads the value at `value` is the one at `reader`, and the
/// value is not the output.
pub open spec fn read_once(graph: Graph, output: int, value: int, reader: int) -> bool {
    &&& 0 <= value < reader <= output < graph.nodes@.len()
    &&& forall|i: int, j: int|
        #![trigger reads(graph.nodes@[i].op)[j]]
        0 <= i <= output && i != reader && 0 <= j < reads(graph.nodes@[i].op).len() ==> reads(
            graph.nodes@[i].op,
        )[j].index != value
}

/// A node changes the derivatives of what it reads, and no others.
proof fn lemma_untouched<A: F32Arithmetic>(
    graph: Graph,
    values: Seq<Tensor>,
    before: Seq<Option<TensorModel>>,
    at: int,
    after: Seq<Option<TensorModel>>,
    value: int,
)
    requires
        graph.wf(),
        0 <= at < graph.nodes@.len() == before.len(),
        passes_on::<A>(graph, values, before, at, after),
        0 <= value < before.len(),
        forall|j: int|
            0 <= j < reads(graph.nodes@[at].op).len() ==> (
            #[trigger] reads(graph.nodes@[at].op)[j]).index != value,
    ensures
        after.len() == before.len(),
        after[value] == before[value],
{
    assert(node_wf(graph.id, graph.nodes@, at));
    let op = graph.nodes@[at].op;
    match op {
        Op::Add(a, b)
        | Op::Sub(a, b)
        | Op::Mul(a, b)
        | Op::SgdUpdate(a, b, _)
        | Op::MeanSquaredError(a, b)
        | Op::MatMul(a, b, _, _) => {
            assert(reads(op)[0] == a && reads(op)[1] == b);
            assert(precedes(graph.id, at, reads(op)[0]));
            assert(precedes(graph.id, at, reads(op)[1]));
        },
        Op::Relu(a) => {
            assert(reads(op)[0] == a);
            assert(precedes(graph.id, at, reads(op)[0]));
        },
        _ => {},
    }
}

/// A node keeps the number of derivatives, and those from itself on.
proof fn lemma_later_stay<A: F32Arithmetic>(
    graph: Graph,
    values: Seq<Tensor>,
    before: Seq<Option<TensorModel>>,
    at: int,
    after: Seq<Option<TensorModel>>,
)
    requires
        graph.wf(),
        0 <= at < graph.nodes@.len() == before.len(),
        passes_on::<A>(graph, values, before, at, after),
    ensures
        after.len() == before.len(),
        forall|i: int| at <= i < before.len() ==> #[trigger] after[i] == before[i],
{
    assert(node_wf(graph.id, graph.nodes@, at));
    assert forall|i: int| at <= i < before.len() implies #[trigger] after[i] == before[i] by {
        assert forall|j: int| 0 <= j < reads(graph.nodes@[at].op).len() implies (
        #[trigger] reads(graph.nodes@[at].op)[j]).index != i by {
            assert(precedes(graph.id, at, reads(graph.nodes@[at].op)[j]));
        }
        lemma_untouched::<A>(graph, values, before, at, after, i);
    }
    assert(after.len() == before.len()) by {
        assert forall|j: int| 0 <= j < reads(graph.nodes@[at].op).len() implies (
        #[trigger] reads(graph.nodes@[at].op)[j]).index != at by {
            assert(precedes(graph.id, at, reads(graph.nodes@[at].op)[j]));
        }
        lemma_untouched::<A>(graph, values, before, at, after, at);
    }
}

/// The sweep has not reached the only reader: there is no derivative yet.
proof fn lemma_not_yet<A: F32Arithmetic>(
    graph: Graph,
    values: Seq<Tensor>,
    output: int,
    at: int,
    state: Seq<Option<TensorModel>>,
    value: int,
    reader: int,
)
    requires
        graph.wf(),
        read_once(graph, output, value, reader),
        reader < at,
        swept::<A>(graph, values, output, at, state),
    ensures
        state.len() == graph.nodes@.len(),
        state[value] is None,
    decreases output + 1 - at,
{
    if at <= output {
        let before = choose|before: Seq<Option<TensorModel>>|
            {
                &&& swept::<A>(graph, values, output, at + 1, before)
                &&& #[trigger] passes_on::<A>(graph, values, before, at, state)
            };
        lemma_not_yet::<A>(graph, values, output, at + 1, before, value, reader);
        lemma_untouched::<A>(graph, values, before, at, state, value);
    }
}

/// The derivatives of a value and of its only reader, once the sweep has passed the reader, are
/// those right after the reader.
proof fn lemma_passed<A: F32Arithmetic>(
    graph: Graph,
    values: Seq<Tensor>,
    output: int,
    at: int,
    state: Seq<Option<TensorModel>>,
    value: int,
    reader: int,
) -> (found: (Seq<Option<TensorModel>>, Seq<Option<TensorModel>>))
    requires
        graph.wf(),
        read_once(graph, output, value, reader),
        0 <= at <= reader,
        swept::<A>(graph, values, output, at, state),
    ensures
        state.len() == graph.nodes@.len(),
        found.0.len() == graph.nodes@.len(),
        found.0[value] is None,
        passes_on::<A>(graph, values, found.0, reader, found.1),
        state[value] == found.1[value],
        state[reader] == found.0[reader],
    decreases output + 1 - at,
{
    let before = choose|before: Seq<Option<TensorModel>>|
        {
            &&& swept::<A>(graph, values, output, at + 1, before)
            &&& #[trigger] passes_on::<A>(graph, values, before, at, state)
        };
    if at == reader {
        lemma_not_yet::<A>(graph, values, output, at + 1, before, value, reader);
        lemma_later_stay::<A>(graph, values, before, at, state);
        (before, state)
    } else {
        let found = lemma_passed::<A>(graph, values, output, at + 1, before, value, reader);
        lemma_untouched::<A>(graph, values, before, at, state, value);
        lemma_later_stay::<A>(graph, values, before, at, state);
        found
    }
}

/// The sum along a column of the right factor.
proof fn lemma_left_fold<A: F32Arithmetic>(
    rules: ArithmeticRules,
    upstream: TensorModel,
    right: TensorModel,
    transpose_right: bool,
    columns: int,
    row: int,
    inner: int,
    count: nat,
    made: u32,
    products: Seq<u32>,
)
    requires
        rules.describe::<A>(),
        left_slope::<A>(upstream, right, transpose_right, columns, row, inner, count, made),
        products.len() == count,
        forall|j: int|
            0 <= j < count ==> #[trigger] products[j] == (rules.product)(
                upstream.data[row * columns + j],
                entry(right, transpose_right, inner, j),
            ),
    ensures
        made == summed(rules, products),
    decreases count,
{
    if count > 0 {
        let (partial, product) = choose|partial: u32, product: u32|
            {
                &&& left_slope::<A>(
                    upstream,
                    right,
                    transpose_right,
                    columns,
                    row,
                    inner,
                    (count - 1) as nat,
                    partial,
                )
                &&& #[trigger] multiplies::<A>(
                    upstream.data[row * columns + (count - 1)],
                    right.data[super::evaluate::right_at(
                        right.shape,
                        transpose_right,
                        inner,
                        count - 1,
                    )],
                    product,
                )
                &&& #[trigger] sums::<A>(partial, product, made)
            };
        lemma_left_fold::<A>(
            rules,
            upstream,
            right,
            transpose_right,
            columns,
            row,
            inner,
            (count - 1) as nat,
            partial,
            products.drop_last(),
        );
        assert(products[count - 1] == product);
    }
}

/// The sum along a row of the left factor.
proof fn lemma_right_fold<A: F32Arithmetic>(
    rules: ArithmeticRules,
    left: TensorModel,
    upstream: TensorModel,
    transpose_left: bool,
    columns: int,
    inner: int,
    column: int,
    count: nat,
    made: u32,
    products: Seq<u32>,
)
    requires
        rules.describe::<A>(),
        right_slope::<A>(left, upstream, transpose_left, columns, inner, column, count, made),
        products.len() == count,
        forall|i: int|
            0 <= i < count ==> #[trigger] products[i] == (rules.product)(
                entry(left, transpose_left, i, inner),
                upstream.data[i * columns + column],
            ),
    ensures
        made == summed(rules, products),
    decreases count,
{
    if count > 0 {
        let (partial, product) = choose|partial: u32, product: u32|
            {
                &&& right_slope::<A>(
                    left,
                    upstream,
                    transpose_left,
                    columns,
                    inner,
                    column,
                    (count - 1) as nat,
                    partial,
                )
                &&& #[trigger] multiplies::<A>(
                    left.data[super::evaluate::left_at(
                        left.shape,
                        transpose_left,
                        count - 1,
                        inner,
                    )],
                    upstream.data[(count - 1) * columns + column],
                    product,
                )
                &&& #[trigger] sums::<A>(partial, product, made)
            };
        lemma_right_fold::<A>(
            rules,
            left,
            upstream,
            transpose_left,
            columns,
            inner,
            column,
            (count - 1) as nat,
            partial,
            products.drop_last(),
        );
        assert(products[count - 1] == product);
    }
}

/// What the reader of a value makes of its own derivative. The operands are those of the reader,
/// and the value that is asked about is the first one or the second one.
pub open spec fn derivative_through(
    rules: ArithmeticRules,
    op: Op,
    values: Seq<Tensor>,
    first: bool,
    upstream: TensorModel,
    derivative: TensorModel,
) -> bool {
    match op {
        Op::Add(_, _) => derivative.data == upstream.data,
        Op::Sub(_, _) => {
            &&& derivative.data.len() == upstream.data.len()
            &&& forall|k: int|
                0 <= k < derivative.data.len() ==> #[trigger] derivative.data[k] == if first {
                    upstream.data[k]
                } else {
                    opposite(upstream.data[k])
                }
        },
        Op::Mul(left, right) => {
            let other = if first {
                values[right.index as int]@
            } else {
                values[left.index as int]@
            };
            &&& derivative.data.len() == upstream.data.len()
            &&& forall|k: int|
                0 <= k < derivative.data.len() ==> #[trigger] derivative.data[k] == (rules.product)(
                    upstream.data[k],
                    other.data[k],
                )
        },
        Op::SgdUpdate(_, _, rate) => {
            &&& derivative.data.len() == upstream.data.len()
            &&& forall|k: int|
                0 <= k < derivative.data.len() ==> #[trigger] derivative.data[k] == if first {
                    upstream.data[k]
                } else {
                    (rules.product)(opposite(rate), upstream.data[k])
                }
        },
        Op::Relu(input) => {
            let x = values[input.index as int]@;
            &&& derivative.data.len() == x.data.len()
            &&& forall|k: int|
                0 <= k < derivative.data.len() ==> #[trigger] derivative.data[k] == if 0 < x.data[k]
                    <= 0x7f80_0000 {
                    upstream.data[k]
                } else {
                    0
                }
        },
        Op::MeanSquaredError(left, right) => {
            let (from, to) = if first {
                (values[left.index as int]@, values[right.index as int]@)
            } else {
                (values[right.index as int]@, values[left.index as int]@)
            };
            &&& derivative.data.len() == from.data.len()
            &&& forall|k: int|
                0 <= k < derivative.data.len() ==> #[trigger] derivative.data[k] == (rules.product)(
                    (rules.quotient)(
                        (rules.product)(
                            0x4000_0000,
                            (rules.difference)(from.data[k], to.data[k]),
                        ),
                        (rules.from_count)(from.data.len() as usize),
                    ),
                    upstream.data[0],
                )
        },
        Op::MatMul(left, right, transpose_left, transpose_right) => {
            let (x, y) = (values[left.index as int]@, values[right.index as int]@);
            let (rows, inner) = (height(x, transpose_left), width(x, transpose_left));
            let columns = width(y, transpose_right);
            if first {
                &&& derivative.shape == x.shape
                &&& derivative.data.len() == x.data.len()
                &&& forall|i: int, l: int|
                    0 <= i < rows && 0 <= l < inner ==> #[trigger] entry(
                        derivative,
                        transpose_left,
                        i,
                        l,
                    ) == summed(
                        rules,
                        Seq::new(
                            columns as nat,
                            |j: int|
                                (rules.product)(
                                    upstream.data[i * columns + j],
                                    entry(y, transpose_right, l, j),
                                ),
                        ),
                    )
            } else {
                &&& derivative.shape == y.shape
                &&& derivative.data.len() == y.data.len()
                &&& forall|l: int, j: int|
                    0 <= l < inner && 0 <= j < columns ==> #[trigger] entry(
                        derivative,
                        transpose_right,
                        l,
                        j,
                    ) == summed(
                        rules,
                        Seq::new(
                            rows as nat,
                            |i: int|
                                (rules.product)(
                                    entry(x, transpose_left, i, l),
                                    upstream.data[i * columns + j],
                                ),
                        ),
                    )
            }
        },
        _ => false,
    }
}

/// The derivatives of a matrix product, element by element.
proof fn lemma_matmul_through<A: F32Arithmetic>(
    rules: ArithmeticRules,
    left: ValueId,
    right: ValueId,
    transpose_left: bool,
    transpose_right: bool,
    values: Seq<Tensor>,
    upstream: TensorModel,
    by_left: TensorModel,
    by_right: TensorModel,
)
    requires
        rules.describe::<A>(),
        multipliable(
            values[left.index as int]@.shape,
            values[right.index as int]@.shape,
            transpose_left,
            transpose_right,
        ),
        values[left.index as int].wf(),
        values[right.index as int].wf(),
        left_derivative::<A>(
            values[left.index as int]@,
            values[right.index as int]@,
            upstream,
            transpose_left,
            transpose_right,
            by_left,
        ),
        right_derivative::<A>(
            values[left.index as int]@,
            values[right.index as int]@,
            upstream,
            transpose_left,
            transpose_right,
            by_right,
        ),
    ensures
        derivative_through(
            rules,
            Op::MatMul(left, right, transpose_left, transpose_right),
            values,
            true,
            upstream,
            by_left,
        ),
        derivative_through(
            rules,
            Op::MatMul(left, right, transpose_left, transpose_right),
            values,
            false,
            upstream,
            by_right,
        ),
{
    let (x, y) = (values[left.index as int]@, values[right.index as int]@);
    let (rows, inner) = (height(x, transpose_left), width(x, transpose_left));
    let columns = width(y, transpose_right);
    lemma_matrix_extent(x.shape);
    lemma_matrix_extent(y.shape);
    assert forall|i: int, l: int| 0 <= i < rows && 0 <= l < inner implies #[trigger] entry(
        by_left,
        transpose_left,
        i,
        l,
    ) == summed(
        rules,
        Seq::new(
            columns as nat,
            |j: int|
                (rules.product)(upstream.data[i * columns + j], entry(y, transpose_right, l, j)),
        ),
    ) by {
        let k = if transpose_left {
            l * x.shape[1] + i
        } else {
            i * x.shape[1] + l
        };
        if transpose_left {
            lemma_matrix_place(inner as int, rows as int, l, i);
            lemma_fundamental_div_mod_converse(k, rows as int, l, i);
        } else {
            lemma_matrix_place(rows as int, inner as int, i, l);
            lemma_fundamental_div_mod_converse(k, inner as int, i, l);
        }
        assert(left_place(x.shape, transpose_left, k) == (i, l));
        lemma_left_fold::<A>(
            rules,
            upstream,
            y,
            transpose_right,
            columns as int,
            i,
            l,
            columns as nat,
            by_left.data[k],
            Seq::new(
                columns as nat,
                |j: int|
                    (rules.product)(
                        upstream.data[i * columns + j],
                        entry(y, transpose_right, l, j),
                    ),
            ),
        );
    }
    assert forall|l: int, j: int| 0 <= l < inner && 0 <= j < columns implies #[trigger] entry(
        by_right,
        transpose_right,
        l,
        j,
    ) == summed(
        rules,
        Seq::new(
            rows as nat,
            |i: int|
                (rules.product)(entry(x, transpose_left, i, l), upstream.data[i * columns + j]),
        ),
    ) by {
        let k = if transpose_right {
            j * y.shape[1] + l
        } else {
            l * y.shape[1] + j
        };
        if transpose_right {
            lemma_matrix_place(columns as int, inner as int, j, l);
            lemma_fundamental_div_mod_converse(k, inner as int, j, l);
        } else {
            lemma_matrix_place(inner as int, columns as int, l, j);
            lemma_fundamental_div_mod_converse(k, columns as int, l, j);
        }
        assert(right_place(y.shape, transpose_right, k) == (l, j));
        lemma_right_fold::<A>(
            rules,
            x,
            upstream,
            transpose_left,
            columns as int,
            l,
            j,
            rows as nat,
            by_right.data[k],
            Seq::new(
                rows as nat,
                |i: int|
                    (rules.product)(
                        entry(x, transpose_left, i, l),
                        upstream.data[i * columns + j],
                    ),
            ),
        );
    }
}

/// One contribution to each of two different operands, of which one had none yet.
proof fn lemma_pair_first<A: F32Arithmetic>(
    before: Seq<Option<TensorModel>>,
    first: ValueId,
    first_addition: TensorModel,
    second: ValueId,
    second_addition: TensorModel,
    after: Seq<Option<TensorModel>>,
)
    requires
        contributes_pair::<A>(before, first, first_addition, second, second_addition, after),
        first.index != second.index,
        first.index < before.len(),
        second.index < before.len(),
    ensures
        before[first.index as int] is None ==> after[first.index as int] == Some(first_addition),
        before[second.index as int] is None ==> after[second.index as int] == Some(
            second_addition,
        ),
{
    let between = choose|between: Seq<Option<TensorModel>>|
        {
            &&& #[trigger] contributes::<A>(before, first, first_addition, between)
            &&& contributes::<A>(between, second, second_addition, after)
        };
    let sum = choose|sum: TensorModel|
        {
            &&& #[trigger] accumulated::<A>(before[first.index as int], first_addition, sum)
            &&& between == before.update(first.index as int, Some(sum))
        };
    let total = choose|total: TensorModel|
        {
            &&& #[trigger] accumulated::<A>(between[second.index as int], second_addition, total)
            &&& after == between.update(second.index as int, Some(total))
        };
    assert(between[first.index as int] == Some(sum));
}

/// What a node with two different operands hands to one that had no derivative yet.
proof fn lemma_handed<A: F32Arithmetic>(
    rules: ArithmeticRules,
    graph: Graph,
    inputs: Seq<(ValueId, Tensor)>,
    execution: Execution,
    before: Seq<Option<TensorModel>>,
    reader: int,
    after: Seq<Option<TensorModel>>,
    first: bool,
)
    requires
        graph.wf(),
        rules.describe::<A>(),
        evaluation_answer::<A>(graph, inputs, Ok(execution)),
        0 <= reader < graph.nodes@.len() == before.len(),
        passes_on::<A>(graph, execution.values@, before, reader, after),
        before[reader] is Some,
        before[reader]->Some_0.wf(),
        before[reader]->Some_0.shape == graph.nodes@[reader].shape@,
        reads(graph.nodes@[reader].op).len() == 2,
        !(graph.nodes@[reader].op is ReluBackward),
        reads(graph.nodes@[reader].op)[0].index != reads(graph.nodes@[reader].op)[1].index,
        before[reads(graph.nodes@[reader].op)[if first {
            0
        } else {
            1
        }].index as int] is None,
    ensures
        after[reads(graph.nodes@[reader].op)[if first {
            0
        } else {
            1
        }].index as int] matches Some(derivative) && derivative_through(
            rules,
            graph.nodes@[reader].op,
            execution.values@,
            first,
            before[reader]->Some_0,
            derivative,
        ),
{
    let values = execution.values@;
    let op = graph.nodes@[reader].op;
    let u = before[reader]->Some_0;
    assert(node_wf(graph.id, graph.nodes@, reader));
    assert(precedes(graph.id, reader, reads(op)[0]));
    assert(precedes(graph.id, reader, reads(op)[1]));
    let (a, b) = (reads(op)[0], reads(op)[1]);
    assert(values[a.index as int].wf() && values[b.index as int].wf());
    let (x, y) = (values[a.index as int]@, values[b.index as int]@);
    match op {
        Op::Add(_, _) => {
            lemma_pair_first::<A>(before, a, u, b, u, after);
        },
        Op::Sub(_, _) => {
            let turned = super::gradients::flipped(u);
            lemma_pair_first::<A>(before, a, u, b, turned, after);
            assert forall|k: int| 0 <= k < turned.data.len() implies #[trigger] turned.data[k]
                == opposite(u.data[k]) by {}
        },
        Op::Mul(_, _) => {
            let (left, right) = choose|left: TensorModel, right: TensorModel|
                {
                    &&& #[trigger] super::evaluate::scales::<A>(u, y, left)
                    &&& #[trigger] super::evaluate::scales::<A>(u, x, right)
                    &&& contributes_pair::<A>(before, a, left, b, right, after)
                };
            lemma_pair_first::<A>(before, a, left, b, right, after);
        },
        Op::SgdUpdate(_, _, rate) => {
            let scaled = choose|scaled: TensorModel|
                {
                    &&& #[trigger] scaled_by::<A>(negated(rate), u, scaled)
                    &&& contributes_pair::<A>(before, a, u, b, scaled, after)
                };
            lemma_pair_first::<A>(before, a, u, b, scaled, after);
            assert(negated(rate) == opposite(rate));
        },
        Op::MeanSquaredError(_, _) => {
            let (divisor, left, right) = choose|
                divisor: u32,
                left: TensorModel,
                right: TensorModel,
            |
                {
                    &&& #[trigger] counts::<A>(values[a.index as int].data@.len() as usize, divisor)
                    &&& #[trigger] slopes::<A>(x, y, divisor, u.data[0], left)
                    &&& #[trigger] slopes::<A>(y, x, divisor, u.data[0], right)
                    &&& contributes_pair::<A>(before, a, left, b, right, after)
                };
            lemma_pair_first::<A>(before, a, left, b, right, after);
            assert(x.data.len() == y.data.len());
            lemma_slopes::<A>(rules, x, y, divisor, u.data[0], left);
            lemma_slopes::<A>(rules, y, x, divisor, u.data[0], right);
        },
        Op::MatMul(_, _, tl, tr) => {
            let (left, right) = choose|left: TensorModel, right: TensorModel|
                {
                    &&& #[trigger] left_derivative::<A>(x, y, u, tl, tr, left)
                    &&& #[trigger] right_derivative::<A>(x, y, u, tl, tr, right)
                    &&& contributes_pair::<A>(before, a, left, b, right, after)
                };
            lemma_pair_first::<A>(before, a, left, b, right, after);
            lemma_matmul_through::<A>(rules, a, b, tl, tr, values, u, left, right);
        },
        _ => {},
    }
}

/// The slopes of a mean squared error.
proof fn lemma_slopes<A: F32Arithmetic>(
    rules: ArithmeticRules,
    from: TensorModel,
    to: TensorModel,
    divisor: u32,
    upstream: u32,
    result: TensorModel,
)
    requires
        rules.describe::<A>(),
        slopes::<A>(from, to, divisor, upstream, result),
    ensures
        forall|k: int|
            0 <= k < result.data.len() ==> #[trigger] result.data[k] == (rules.product)(
                (rules.quotient)(
                    (rules.product)(0x4000_0000, (rules.difference)(from.data[k], to.data[k])),
                    divisor,
                ),
                upstream,
            ),
{
    assert forall|k: int| 0 <= k < result.data.len() implies #[trigger] result.data[k] == (
    rules.product)(
        (rules.quotient)(
            (rules.product)(0x4000_0000, (rules.difference)(from.data[k], to.data[k])),
            divisor,
        ),
        upstream,
    ) by {
        assert(slope::<A>(from.data[k], to.data[k], divisor, upstream, result.data[k]));
        let (difference, twice, mean) = choose|difference: u32, twice: u32, mean: u32|
            {
                &&& #[trigger] differs::<A>(from.data[k], to.data[k], difference)
                &&& #[trigger] multiplies::<A>(TWO_BITS, difference, twice)
                &&& divides::<A>(twice, divisor, mean)
                &&& #[trigger] multiplies::<A>(mean, upstream, result.data[k])
            };
        assert(divides::<A>(twice, divisor, mean));
    }
}

/// The derivative of a value that one node reads follows from that node's derivative, with every
/// operation rounded where the formula has it: a sum passes its derivative on, a difference turns
/// the sign for its second operand, a product multiplies by the other operand, an update multiplies
/// by the turned rate for its gradient, a `ReLU` keeps what stands at positive inputs, a mean
/// squared error multiplies twice the difference, divided by the number of elements, and a matrix
/// product adds up the products with the other factor.
pub proof fn law_derivatives_follow_their_reader<A: F32Arithmetic>(
    rules: ArithmeticRules,
    graph: Graph,
    inputs: Seq<(ValueId, Tensor)>,
    execution: Execution,
    output: ValueId,
    derivatives: Vec<Option<Tensor>>,
    value: int,
    reader: int,
    first: bool,
)
    requires
        graph.wf(),
        rules.describe::<A>(),
        evaluation_answer::<A>(graph, inputs, Ok(execution)),
        gradients_answer::<A>(execution, graph, output, Ok(derivatives)),
        read_once(graph, output.index as int, value, reader),
        ({
            let operands = reads(graph.nodes@[reader].op);
            let place = if first {
                0
            } else {
                1int
            };
            &&& place < operands.len()
            &&& operands[place].index == value
            &&& operands.len() == 2 ==> operands[0].index != operands[1].index
        }),
        derivatives@[reader] is Some,
        !(graph.nodes@[reader].op is ReluBackward),
    ensures
        derivatives@[value] matches Some(derivative) && derivative_through(
            rules,
            graph.nodes@[reader].op,
            execution.values@,
            first,
            derivatives@[reader]->Some_0@,
            derivative@,
        ),
{
    let values = execution.values@;
    let state = gradient_models(derivatives@);
    let op = graph.nodes@[reader].op;
    let (before, after) = lemma_passed::<A>(
        graph,
        values,
        output.index as int,
        0,
        state,
        value,
        reader,
    );
    let u = derivatives@[reader]->Some_0@;
    assert(state[reader] == Some(u));
    assert(u.wf() && u.shape == graph.nodes@[reader].shape@);
    assert(node_wf(graph.id, graph.nodes@, reader));
    if reads(op).len() == 2 {
        lemma_handed::<A>(rules, graph, inputs, execution, before, reader, after, first);
    } else if let Op::Relu(input) = op {
        assert(reads(op)[0] == input);
        assert(precedes(graph.id, reader, reads(op)[0]));
        let gate = super::evaluate::gated(values[input.index as int]@, u);
        let sum = choose|sum: TensorModel|
            {
                &&& #[trigger] accumulated::<A>(before[value], gate, sum)
                &&& after == before.update(value, Some(sum))
            };
        assert(after[value] == Some(gate));
    }
}

/// Nothing up to an output reads it, so that the sweep keeps its derivative.
proof fn lemma_output_stays<A: F32Arithmetic>(
    graph: Graph,
    values: Seq<Tensor>,
    output: int,
    at: int,
    state: Seq<Option<TensorModel>>,
)
    requires
        graph.wf(),
        0 <= output < graph.nodes@.len(),
        0 <= at <= output + 1,
        swept::<A>(graph, values, output, at, state),
    ensures
        state.len() == graph.nodes@.len(),
        state[output] == Some(TensorModel::scalar(0x3f80_0000)),
    decreases output + 1 - at,
{
    if at <= output {
        let before = choose|before: Seq<Option<TensorModel>>|
            {
                &&& swept::<A>(graph, values, output, at + 1, before)
                &&& #[trigger] passes_on::<A>(graph, values, before, at, state)
            };
        lemma_output_stays::<A>(graph, values, output, at + 1, before);
        lemma_later_stay::<A>(graph, values, before, at, state);
    }
}

/// The derivative of an output by itself is one.
pub proof fn law_outputs_have_derivative_one<A: F32Arithmetic>(
    graph: Graph,
    execution: Execution,
    output: ValueId,
    derivatives: Vec<Option<Tensor>>,
)
    requires
        graph.wf(),
        gradients_answer::<A>(execution, graph, output, Ok(derivatives)),
    ensures
        derivatives@[output.index as int] matches Some(derivative) && derivative.shape@.len() == 0
            && derivative.data@ == seq![0x3f80_0000u32],
{
    let state = gradient_models(derivatives@);
    lemma_output_stays::<A>(graph, execution.values@, output.index as int, 0, state);
    assert(state[output.index as int] == Some(derivatives@[output.index as int]->Some_0@));
}

} // verus!
