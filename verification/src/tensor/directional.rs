//! What derivatives are for: they say how a value changes when the leaves of its graph do.
//!
//! Elements are read as dual numbers, each with a value and a direction. The evaluator carries
//! directions forward by its own operations, so the direction of a result is its directional
//! derivative. The reference derivatives have to give the same by pairing with the directions of
//! the leaves.
use vstd::arithmetic::div_mod::lemma_fundamental_div_mod_converse;
use vstd::prelude::*;

use super::arithmetic::{counts, differs, divides, maximizes, multiplies, sums, F32Arithmetic};
use super::bits::{negated, ONE_BITS, TWO_BITS, ZERO_BITS};
use super::closure::reaches;
use super::error::ValueId;
use super::evaluate::{
    adds, averages, computes, descends, dot, evaluation_answer, left_at, lemma_matrix_extent,
    lemma_matrix_place, multiplies_matrices, rectifies, right_at, scales, squared_error, squares,
    subtracts, updates, Execution,
};
use super::gradients::{
    accumulated, contributes, contributes_pair, gradient_models, gradients_answer, left_derivative,
    left_place, left_slope, passes_on, right_derivative, right_place, right_slope, scaled_by,
    slope, slopes, swept,
};
use super::graph::{left_dims, multipliable, node_wf, precedes, reads, right_dims};
use super::graph::{Graph, Node, Op};
use super::residues::{
    lemma_bilinear, lemma_grid, lemma_same_add, lemma_same_mul, lemma_same_refl, lemma_same_swap,
    lemma_same_trans, lemma_table_equal, lemma_table_exchange, lemma_table_same, lemma_total_add,
    lemma_total_equal, lemma_total_same, lemma_total_scale, lemma_total_zero, same, table, total,
};
use super::value::{extent, Tensor, TensorModel};

verus! {

/// The bit pattern with the other sign.
pub open spec fn opposite(element: u32) -> u32 {
    if element < 0x8000_0000 {
        (element + 0x8000_0000) as u32
    } else {
        (element - 0x8000_0000) as u32
    }
}

/// A reading of elements as dual numbers: a value and a direction, up to multiples of a modulus.
pub ghost struct DualNumbers {
    pub modulus: int,
    pub value: spec_fn(u32) -> int,
    pub direction: spec_fn(u32) -> int,
}

impl DualNumbers {
    /// An element stands for this value and this direction.
    pub open spec fn stands(self, element: u32, value: int, direction: int) -> bool {
        &&& same(self.modulus, (self.value)(element), value)
        &&& same(self.modulus, (self.direction)(element), direction)
    }

    /// The arithmetic does not round dual numbers: sums, differences and products are those of
    /// dual numbers, flipping the sign bit negates, and the larger of a number and zero is the
    /// number where it is positive.
    pub open spec fn exact<A: F32Arithmetic>(self) -> bool {
        let (v, d) = (self.value, self.direction);
        &&& self.stands(0, 0, 0)
        &&& self.stands(0x3f80_0000, 1, 0)
        &&& self.stands(0x4000_0000, 2, 0)
        &&& forall|x: u32| self.stands(#[trigger] opposite(x), -v(x), -d(x))
        &&& forall|x: u32, y: u32, z: u32| #[trigger]
            sums::<A>(x, y, z) ==> self.stands(z, v(x) + v(y), d(x) + d(y))
        &&& forall|x: u32, y: u32, z: u32| #[trigger]
            differs::<A>(x, y, z) ==> self.stands(z, v(x) - v(y), d(x) - d(y))
        &&& forall|x: u32, y: u32, z: u32| #[trigger]
            multiplies::<A>(x, y, z) ==> self.stands(z, v(x) * v(y), v(x) * d(y) + d(x) * v(y))
        &&& forall|x: u32, z: u32| #[trigger]
            maximizes::<A>(x, 0, z) ==> if 0 < x <= 0x7f80_0000 {
                self.stands(z, v(x), d(x))
            } else {
                self.stands(z, 0, 0)
            }
    }

    /// The arithmetic divides by this count without rounding, which can be undone.
    pub open spec fn divides_by<A: F32Arithmetic>(self, count: nat) -> bool {
        let n = count as int;
        &&& forall|x: u32, y: u32, z: u32|
            #[trigger] counts::<A>(count as usize, y) && #[trigger] divides::<A>(x, y, z) ==> same(
                self.modulus,
                n * (self.value)(z),
                (self.value)(x),
            ) && same(self.modulus, n * (self.direction)(z), (self.direction)(x))
        &&& forall|z: int| #[trigger] same(self.modulus, n * z, 0) ==> same(self.modulus, z, 0)
    }

    /// The pairing of a derivative with the directions of a value: the sum of the products of their
    /// elements.
    pub open spec fn paired(self, derivative: TensorModel, value: TensorModel) -> int {
        total(
            value.data.len(),
            |k: int| (self.value)(derivative.data[k]) * (self.direction)(value.data[k]),
        )
    }

    /// The pairing, where there is a derivative.
    pub open spec fn paired_at(self, derivative: Option<TensorModel>, value: TensorModel) -> int {
        match derivative {
            Some(tensor) => self.paired(tensor, value),
            None => 0,
        }
    }
}

/// The node is where a graph begins: an input or a constant.
pub open spec fn is_leaf(node: Node) -> bool {
    node.op is Input || node.op is Constant || node.op is Uniform
}

/// What the derivatives of the leaves say of the directions of the leaves.
pub open spec fn paired_leaves(
    numbers: DualNumbers,
    graph: Graph,
    execution: Execution,
    derivatives: Seq<Option<Tensor>>,
) -> int {
    total(
        graph.nodes@.len(),
        |i: int|
            match derivatives[i] {
                Some(derivative) => if is_leaf(graph.nodes@[i]) {
                    numbers.paired(derivative@, execution.values@[i]@)
                } else {
                    0
                },
                None => 0,
            },
    )
}

/// What the sweep still has to account for, once it has passed the nodes from `at` on.
spec fn open_at(
    numbers: DualNumbers,
    nodes: Seq<Node>,
    values: Seq<Tensor>,
    state: Seq<Option<TensorModel>>,
    at: int,
) -> int {
    total(
        nodes.len(),
        |i: int|
            if i < at || is_leaf(nodes[i]) {
                numbers.paired_at(state[i], values[i]@)
            } else {
                0
            },
    )
}

/// Every derivative has as many elements as its value.
spec fn fitted(values: Seq<Tensor>, state: Seq<Option<TensorModel>>) -> bool {
    &&& state.len() == values.len()
    &&& forall|i: int|
        0 <= i < state.len() ==> (#[trigger] state[i] matches Some(tensor) ==> tensor.data.len()
            == values[i]@.data.len())
}

/// A list that changes at one place changes its sum by as much.
proof fn lemma_total_update(
    count: nat,
    each: spec_fn(int) -> int,
    other: spec_fn(int) -> int,
    at: int,
)
    requires
        0 <= at < count,
        forall|k: int| 0 <= k < count && k != at ==> #[trigger] each(k) == other(k),
    ensures
        total(count, other) == total(count, each) - each(at) + other(at),
    decreases count,
{
    if at == count - 1 {
        lemma_total_equal((count - 1) as nat, each, other);
    } else {
        lemma_total_update((count - 1) as nat, each, other, at);
        assert(each(count - 1) == other(count - 1));
    }
}

/// A contribution adds its pairing.
proof fn lemma_contribution<A: F32Arithmetic>(
    numbers: DualNumbers,
    nodes: Seq<Node>,
    values: Seq<Tensor>,
    at: int,
    before: Seq<Option<TensorModel>>,
    target: ValueId,
    addition: TensorModel,
    after: Seq<Option<TensorModel>>,
)
    requires
        numbers.exact::<A>(),
        nodes.len() == values.len(),
        fitted(values, before),
        target.index < at <= nodes.len(),
        addition.data.len() == values[target.index as int]@.data.len(),
        contributes::<A>(before, target, addition, after),
    ensures
        fitted(values, after),
        same(
            numbers.modulus,
            open_at(numbers, nodes, values, after, at),
            open_at(numbers, nodes, values, before, at) + numbers.paired(
                addition,
                values[target.index as int]@,
            ),
        ),
{
    let m = numbers.modulus;
    let place = target.index as int;
    let value = values[place]@;
    let sum = choose|sum: TensorModel|
        {
            &&& #[trigger] accumulated::<A>(before[place], addition, sum)
            &&& after == before.update(place, Some(sum))
        };
    let now = numbers.paired(sum, value);
    let was = numbers.paired_at(before[place], value);
    let more = numbers.paired(addition, value);
    assert(sum.data.len() == value.data.len() && same(m, now, was + more)) by {
        match before[place] {
            None => {
                lemma_same_refl(m, more);
            },
            Some(current) => {
                assert(adds::<A>(current, addition, sum));
                let d = |k: int| (numbers.direction)(value.data[k]);
                let v = |tensor: TensorModel, k: int| (numbers.value)(tensor.data[k]);
                let made = |k: int| v(sum, k) * d(k);
                let one = |k: int| v(current, k) * d(k);
                let two = |k: int| v(addition, k) * d(k);
                let both = |k: int| one(k) + two(k);
                assert forall|k: int| 0 <= k < value.data.len() implies same(
                    m,
                    #[trigger] made(k),
                    both(k),
                ) by {
                    assert(sums::<A>(current.data[k], addition.data[k], sum.data[k]));
                    lemma_same_refl(m, d(k));
                    lemma_same_mul(m, v(sum, k), v(current, k) + v(addition, k), d(k), d(k));
                    let (x, y, z) = (v(current, k), v(addition, k), d(k));
                    assert((x + y) * z == x * z + y * z) by (nonlinear_arith);
                }
                lemma_total_same(m, value.data.len(), made, both);
                lemma_total_add(value.data.len(), one, two, both);
                lemma_total_equal(
                    value.data.len(),
                    made,
                    |k: int| (numbers.value)(sum.data[k]) * (numbers.direction)(value.data[k]),
                );
                lemma_total_equal(
                    value.data.len(),
                    one,
                    |k: int| (numbers.value)(current.data[k]) * (numbers.direction)(value.data[k]),
                );
                lemma_total_equal(
                    value.data.len(),
                    two,
                    |k: int| (numbers.value)(addition.data[k]) * (numbers.direction)(value.data[k]),
                );
            },
        }
    }
    let each = |i: int|
        if i < at || is_leaf(nodes[i]) {
            numbers.paired_at(before[i], values[i]@)
        } else {
            0
        };
    let other = |i: int|
        if i < at || is_leaf(nodes[i]) {
            numbers.paired_at(after[i], values[i]@)
        } else {
            0
        };
    lemma_total_update(nodes.len(), each, other, place);
    let rest = open_at(numbers, nodes, values, before, at) - was;
    lemma_same_refl(m, rest);
    lemma_same_add(m, rest, rest, now, was + more);
}

/// Two contributions add both their pairings.
proof fn lemma_contributions<A: F32Arithmetic>(
    numbers: DualNumbers,
    nodes: Seq<Node>,
    values: Seq<Tensor>,
    at: int,
    before: Seq<Option<TensorModel>>,
    first: (ValueId, TensorModel),
    second: (ValueId, TensorModel),
    after: Seq<Option<TensorModel>>,
)
    requires
        numbers.exact::<A>(),
        nodes.len() == values.len(),
        fitted(values, before),
        first.0.index < at <= nodes.len(),
        second.0.index < at,
        first.1.data.len() == values[first.0.index as int]@.data.len(),
        second.1.data.len() == values[second.0.index as int]@.data.len(),
        contributes_pair::<A>(before, first.0, first.1, second.0, second.1, after),
    ensures
        fitted(values, after),
        same(
            numbers.modulus,
            open_at(numbers, nodes, values, after, at),
            open_at(numbers, nodes, values, before, at) + (numbers.paired(
                first.1,
                values[first.0.index as int]@,
            ) + numbers.paired(second.1, values[second.0.index as int]@)),
        ),
{
    let m = numbers.modulus;
    let between = choose|between: Seq<Option<TensorModel>>|
        {
            &&& #[trigger] contributes::<A>(before, first.0, first.1, between)
            &&& contributes::<A>(between, second.0, second.1, after)
        };
    lemma_contribution::<A>(numbers, nodes, values, at, before, first.0, first.1, between);
    lemma_contribution::<A>(numbers, nodes, values, at, between, second.0, second.1, after);
    let start = open_at(numbers, nodes, values, before, at);
    let middle = open_at(numbers, nodes, values, between, at);
    let one = numbers.paired(first.1, values[first.0.index as int]@);
    let two = numbers.paired(second.1, values[second.0.index as int]@);
    lemma_same_refl(m, two);
    lemma_same_add(m, middle, start + one, two, two);
    lemma_same_trans(
        m,
        open_at(numbers, nodes, values, after, at),
        middle + two,
        (start + one) + two,
    );
}

/// Elements whose pairings agree one by one agree in sum, here with two operands.
proof fn lemma_pairs(
    numbers: DualNumbers,
    upstream: TensorModel,
    out: TensorModel,
    left: TensorModel,
    a: TensorModel,
    right: TensorModel,
    b: TensorModel,
)
    requires
        a.data.len() == out.data.len(),
        b.data.len() == out.data.len(),
        forall|k: int|
            #![trigger out.data[k]]
            0 <= k < out.data.len() ==> same(
                numbers.modulus,
                (numbers.value)(upstream.data[k]) * (numbers.direction)(out.data[k]),
                (numbers.value)(left.data[k]) * (numbers.direction)(a.data[k]) + (numbers.value)(
                    right.data[k],
                ) * (numbers.direction)(b.data[k]),
            ),
    ensures
        same(
            numbers.modulus,
            numbers.paired(upstream, out),
            numbers.paired(left, a) + numbers.paired(right, b),
        ),
{
    let n = out.data.len();
    let each = |k: int| (numbers.value)(upstream.data[k]) * (numbers.direction)(out.data[k]);
    let one = |k: int| (numbers.value)(left.data[k]) * (numbers.direction)(a.data[k]);
    let two = |k: int| (numbers.value)(right.data[k]) * (numbers.direction)(b.data[k]);
    let both = |k: int| one(k) + two(k);
    assert forall|k: int| 0 <= k < n implies same(numbers.modulus, #[trigger] each(k), both(k)) by {
        let _ = out.data[k];
    }
    lemma_total_same(numbers.modulus, n, each, both);
    lemma_total_add(n, one, two, both);
}

/// Passing a node closes what it pairs, unless it is a leaf.
proof fn lemma_open_step(
    numbers: DualNumbers,
    nodes: Seq<Node>,
    values: Seq<Tensor>,
    state: Seq<Option<TensorModel>>,
    at: int,
)
    requires
        0 <= at < nodes.len(),
    ensures
        open_at(numbers, nodes, values, state, at + 1) == open_at(
            numbers,
            nodes,
            values,
            state,
            at,
        ) + if is_leaf(nodes[at]) {
            0
        } else {
            numbers.paired_at(state[at], values[at]@)
        },
{
    let each = |i: int|
        if i < at || is_leaf(nodes[i]) {
            numbers.paired_at(state[i], values[i]@)
        } else {
            0
        };
    let other = |i: int|
        if i < at + 1 || is_leaf(nodes[i]) {
            numbers.paired_at(state[i], values[i]@)
        } else {
            0
        };
    lemma_total_update(nodes.len(), each, other, at);
}

/// The product rule for one element.
proof fn lemma_product_rule(
    m: int,
    u: int,
    x: int,
    dx: int,
    y: int,
    dy: int,
    out: int,
    left: int,
    right: int,
)
    requires
        same(m, out, x * dy + dx * y),
        same(m, left, u * y),
        same(m, right, u * x),
    ensures
        same(m, u * out, left * dx + right * dy),
{
    lemma_same_refl(m, u);
    lemma_same_refl(m, dx);
    lemma_same_refl(m, dy);
    lemma_same_mul(m, u, u, out, x * dy + dx * y);
    lemma_same_mul(m, left, u * y, dx, dx);
    lemma_same_mul(m, right, u * x, dy, dy);
    lemma_same_add(m, left * dx, (u * y) * dx, right * dy, (u * x) * dy);
    assert((u * y) * dx + (u * x) * dy == u * (x * dy + dx * y)) by (nonlinear_arith);
    lemma_same_swap(m, left * dx + right * dy, (u * y) * dx + (u * x) * dy);
    lemma_same_trans(m, u * out, u * (x * dy + dx * y), left * dx + right * dy);
}

/// The rule for a combination with fixed factors, for one element.
proof fn lemma_linear_rule(
    m: int,
    u: int,
    dx: int,
    dy: int,
    factor: int,
    out: int,
    right: int,
)
    requires
        same(m, out, dx + factor * dy),
        same(m, right, factor * u),
    ensures
        same(m, u * out, u * dx + right * dy),
{
    lemma_same_refl(m, u);
    lemma_same_refl(m, dy);
    lemma_same_refl(m, u * dx);
    lemma_same_mul(m, u, u, out, dx + factor * dy);
    lemma_same_mul(m, right, factor * u, dy, dy);
    lemma_same_add(m, u * dx, u * dx, right * dy, (factor * u) * dy);
    assert(u * dx + (factor * u) * dy == u * (dx + factor * dy)) by (nonlinear_arith);
    lemma_same_swap(m, u * dx + right * dy, u * dx + (factor * u) * dy);
    lemma_same_trans(m, u * out, u * (dx + factor * dy), u * dx + right * dy);
}

/// The sweep stands at a node that it passes on, and the node was evaluated.
spec fn passing<A: F32Arithmetic>(
    numbers: DualNumbers,
    graph: Graph,
    inputs: Seq<(ValueId, Tensor)>,
    values: Seq<Tensor>,
    before: Seq<Option<TensorModel>>,
    at: int,
    after: Seq<Option<TensorModel>>,
) -> bool {
    &&& numbers.exact::<A>()
    &&& graph.wf()
    &&& values.len() == graph.nodes@.len()
    &&& forall|i: int|
        0 <= i < graph.nodes@.len() ==> (#[trigger] values[i]).wf() && values[i]@.shape
            == graph.nodes@[i].shape@
    &&& 0 <= at < graph.nodes@.len()
    &&& computes::<A>(graph, inputs, values.take(at), at, values[at]@)
    &&& fitted(values, before)
    &&& before[at] is Some
    &&& passes_on::<A>(graph, values, before, at, after)
}

/// What the node paired is what its operands gained.
spec fn handed_on(
    numbers: DualNumbers,
    graph: Graph,
    values: Seq<Tensor>,
    before: Seq<Option<TensorModel>>,
    at: int,
    after: Seq<Option<TensorModel>>,
) -> bool {
    &&& fitted(values, after)
    &&& same(
        numbers.modulus,
        open_at(numbers, graph.nodes@, values, after, at),
        open_at(numbers, graph.nodes@, values, before, at) + numbers.paired(
            before[at]->Some_0,
            values[at]@,
        ),
    )
}

/// Closes a step with two operands.
proof fn lemma_close_pair<A: F32Arithmetic>(
    numbers: DualNumbers,
    graph: Graph,
    inputs: Seq<(ValueId, Tensor)>,
    values: Seq<Tensor>,
    before: Seq<Option<TensorModel>>,
    at: int,
    after: Seq<Option<TensorModel>>,
    first: (ValueId, TensorModel),
    second: (ValueId, TensorModel),
)
    requires
        passing::<A>(numbers, graph, inputs, values, before, at, after),
        first.0.index < at,
        second.0.index < at,
        first.1.data.len() == values[first.0.index as int]@.data.len(),
        second.1.data.len() == values[second.0.index as int]@.data.len(),
        contributes_pair::<A>(before, first.0, first.1, second.0, second.1, after),
        same(
            numbers.modulus,
            numbers.paired(before[at]->Some_0, values[at]@),
            numbers.paired(first.1, values[first.0.index as int]@) + numbers.paired(
                second.1,
                values[second.0.index as int]@,
            ),
        ),
    ensures
        handed_on(numbers, graph, values, before, at, after),
{
    let m = numbers.modulus;
    let start = open_at(numbers, graph.nodes@, values, before, at);
    let own = numbers.paired(before[at]->Some_0, values[at]@);
    let gained = numbers.paired(first.1, values[first.0.index as int]@) + numbers.paired(
        second.1,
        values[second.0.index as int]@,
    );
    lemma_contributions::<A>(
        numbers,
        graph.nodes@,
        values,
        at,
        before,
        first,
        second,
        after,
    );
    lemma_same_refl(m, start);
    lemma_same_swap(m, own, gained);
    lemma_same_add(m, start, start, gained, own);
    lemma_same_trans(
        m,
        open_at(numbers, graph.nodes@, values, after, at),
        start + gained,
        start + own,
    );
}

/// The operands of a node are earlier, whole, and what the evaluator read.
proof fn lemma_operands<A: F32Arithmetic>(
    numbers: DualNumbers,
    graph: Graph,
    inputs: Seq<(ValueId, Tensor)>,
    values: Seq<Tensor>,
    before: Seq<Option<TensorModel>>,
    at: int,
    after: Seq<Option<TensorModel>>,
)
    requires
        passing::<A>(numbers, graph, inputs, values, before, at, after),
    ensures
        node_wf(graph.id, graph.nodes@, at),
        values[at].wf(),
        values[at]@.shape == graph.nodes@[at].shape@,
        before[at]->Some_0.data.len() == values[at]@.data.len(),
        forall|j: int|
            0 <= j < reads(graph.nodes@[at].op).len() ==> {
                let operand = (#[trigger] reads(graph.nodes@[at].op)[j]).index as int;
                &&& operand < at
                &&& values[operand].wf()
                &&& values[operand]@.shape == graph.nodes@[operand].shape@
                &&& values.take(at)[operand] == values[operand]
            },
{
    assert(node_wf(graph.id, graph.nodes@, at));
    assert(values[at].wf());
    assert forall|j: int| 0 <= j < reads(graph.nodes@[at].op).len() implies {
        let operand = (#[trigger] reads(graph.nodes@[at].op)[j]).index as int;
        &&& operand < at
        &&& values[operand].wf()
        &&& values[operand]@.shape == graph.nodes@[operand].shape@
        &&& values.take(at)[operand] == values[operand]
    } by {
        assert(precedes(graph.id, at, reads(graph.nodes@[at].op)[j]));
        assert(values[reads(graph.nodes@[at].op)[j].index as int].wf());
    }
}

/// Sums, differences, products, updates and rectified values.
proof fn lemma_elementwise_step<A: F32Arithmetic>(
    numbers: DualNumbers,
    graph: Graph,
    inputs: Seq<(ValueId, Tensor)>,
    values: Seq<Tensor>,
    before: Seq<Option<TensorModel>>,
    at: int,
    after: Seq<Option<TensorModel>>,
)
    requires
        passing::<A>(numbers, graph, inputs, values, before, at, after),
        graph.nodes@[at].op is Add || graph.nodes@[at].op is Sub || graph.nodes@[at].op is Mul,
    ensures
        handed_on(numbers, graph, values, before, at, after),
{
    lemma_operands::<A>(numbers, graph, inputs, values, before, at, after);
    let m = numbers.modulus;
    let op = graph.nodes@[at].op;
    let u = before[at]->Some_0;
    let out = values[at]@;
    let (v, d) = (numbers.value, numbers.direction);
    match op {
        Op::Add(a, b) => {
            assert(reads(op)[0] == a && reads(op)[1] == b);
            let (x, y) = (values[a.index as int]@, values[b.index as int]@);
            assert(adds::<A>(x, y, out));
            assert forall|k: int|
                #![trigger out.data[k]]
                0 <= k < out.data.len() implies same(
                m,
                v(u.data[k]) * d(out.data[k]),
                v(u.data[k]) * d(x.data[k]) + v(u.data[k]) * d(y.data[k]),
            ) by {
                assert(sums::<A>(x.data[k], y.data[k], out.data[k]));
                let (w, dx, dy) = (v(u.data[k]), d(x.data[k]), d(y.data[k]));
                lemma_same_refl(m, w);
                lemma_same_mul(m, w, w, d(out.data[k]), dx + dy);
                assert(w * (dx + dy) == w * dx + w * dy) by (nonlinear_arith);
            }
            lemma_pairs(numbers, u, out, u, x, u, y);
            lemma_close_pair::<A>(
                numbers,
                graph,
                inputs,
                values,
                before,
                at,
                after,
                (a, u),
                (b, u),
            );
        },
        Op::Sub(a, b) => {
            assert(reads(op)[0] == a && reads(op)[1] == b);
            let (x, y) = (values[a.index as int]@, values[b.index as int]@);
            assert(subtracts::<A>(x, y, out));
            let turned = super::gradients::flipped(u);
            assert forall|k: int|
                #![trigger out.data[k]]
                0 <= k < out.data.len() implies same(
                m,
                v(u.data[k]) * d(out.data[k]),
                v(u.data[k]) * d(x.data[k]) + v(turned.data[k]) * d(y.data[k]),
            ) by {
                assert(differs::<A>(x.data[k], y.data[k], out.data[k]));
                assert(turned.data[k] == opposite(u.data[k]));
                let (w, dx, dy) = (v(u.data[k]), d(x.data[k]), d(y.data[k]));
                assert(dx - dy == dx + (-1) * dy) by (nonlinear_arith);
                assert((-1) * w == -w) by (nonlinear_arith);
                lemma_linear_rule(m, w, dx, dy, -1, d(out.data[k]), v(turned.data[k]));
            }
            lemma_pairs(numbers, u, out, u, x, turned, y);
            lemma_close_pair::<A>(
                numbers,
                graph,
                inputs,
                values,
                before,
                at,
                after,
                (a, u),
                (b, turned),
            );
        },
        Op::Mul(a, b) => {
            assert(reads(op)[0] == a && reads(op)[1] == b);
            let (x, y) = (values[a.index as int]@, values[b.index as int]@);
            assert(scales::<A>(x, y, out));
            let (left, right) = choose|left: TensorModel, right: TensorModel|
                {
                    &&& #[trigger] scales::<A>(u, values[b.index as int]@, left)
                    &&& #[trigger] scales::<A>(u, values[a.index as int]@, right)
                    &&& contributes_pair::<A>(before, a, left, b, right, after)
                };
            assert forall|k: int|
                #![trigger out.data[k]]
                0 <= k < out.data.len() implies same(
                m,
                v(u.data[k]) * d(out.data[k]),
                v(left.data[k]) * d(x.data[k]) + v(right.data[k]) * d(y.data[k]),
            ) by {
                assert(multiplies::<A>(x.data[k], y.data[k], out.data[k]));
                assert(multiplies::<A>(u.data[k], y.data[k], left.data[k]));
                assert(multiplies::<A>(u.data[k], x.data[k], right.data[k]));
                lemma_product_rule(
                    m,
                    v(u.data[k]),
                    v(x.data[k]),
                    d(x.data[k]),
                    v(y.data[k]),
                    d(y.data[k]),
                    d(out.data[k]),
                    v(left.data[k]),
                    v(right.data[k]),
                );
            }
            lemma_pairs(numbers, u, out, left, x, right, y);
            lemma_close_pair::<A>(
                numbers,
                graph,
                inputs,
                values,
                before,
                at,
                after,
                (a, left),
                (b, right),
            );
        },
        _ => {},
    }
}

/// An update hands on its derivative, and the negated rate times it to the gradient.
proof fn lemma_sgd_step<A: F32Arithmetic>(
    numbers: DualNumbers,
    graph: Graph,
    inputs: Seq<(ValueId, Tensor)>,
    values: Seq<Tensor>,
    before: Seq<Option<TensorModel>>,
    at: int,
    after: Seq<Option<TensorModel>>,
)
    requires
        passing::<A>(numbers, graph, inputs, values, before, at, after),
        graph.nodes@[at].op matches Op::SgdUpdate(_, _, rate) && same(
            numbers.modulus,
            (numbers.direction)(rate),
            0,
        ),
    ensures
        handed_on(numbers, graph, values, before, at, after),
{
    lemma_operands::<A>(numbers, graph, inputs, values, before, at, after);
    let m = numbers.modulus;
    let op = graph.nodes@[at].op;
    let u = before[at]->Some_0;
    let out = values[at]@;
    let (v, d) = (numbers.value, numbers.direction);
    if let Op::SgdUpdate(a, b, rate) = op {
        assert(reads(op)[0] == a && reads(op)[1] == b);
        let (x, y) = (values[a.index as int]@, values[b.index as int]@);
        assert(updates::<A>(x, y, rate, out));
        let scaled = choose|scaled: TensorModel|
            {
                &&& #[trigger] scaled_by::<A>(negated(rate), u, scaled)
                &&& contributes_pair::<A>(before, a, u, b, scaled, after)
            };
        assert forall|k: int|
            #![trigger out.data[k]]
            0 <= k < out.data.len() implies same(
            m,
            v(u.data[k]) * d(out.data[k]),
            v(u.data[k]) * d(x.data[k]) + v(scaled.data[k]) * d(y.data[k]),
        ) by {
            assert(descends::<A>(x.data[k], y.data[k], rate, out.data[k]));
            let step = choose|step: u32|
                multiplies::<A>(rate, y.data[k], step) && #[trigger] differs::<A>(
                    x.data[k],
                    step,
                    out.data[k],
                );
            assert(multiplies::<A>(negated(rate), u.data[k], scaled.data[k]));
            assert(negated(rate) == opposite(rate));
            let (w, dx, dy) = (v(u.data[k]), d(x.data[k]), d(y.data[k]));
            let (r, dr, g) = (v(rate), d(rate), v(y.data[k]));
            // The direction of the step is that of the gradient, times the rate.
            lemma_same_refl(m, g);
            lemma_same_mul(m, dr, 0, g, g);
            lemma_same_refl(m, r * dy);
            lemma_same_add(m, r * dy, r * dy, dr * g, 0 * g);
            assert(0 * g == 0) by (nonlinear_arith);
            lemma_same_trans(m, d(step), r * dy + dr * g, r * dy);
            lemma_same_refl(m, dx);
            lemma_same_add(m, dx, dx, d(step), r * dy);
            assert(dx - r * dy == dx + (-r) * dy) by (nonlinear_arith);
            lemma_same_trans(m, d(out.data[k]), dx - d(step), dx + (-r) * dy);
            lemma_same_refl(m, w);
            lemma_same_mul(m, v(negated(rate)), -r, w, w);
            lemma_same_trans(m, v(scaled.data[k]), v(negated(rate)) * w, (-r) * w);
            lemma_linear_rule(m, w, dx, dy, -r, d(out.data[k]), v(scaled.data[k]));
        }
        lemma_pairs(numbers, u, out, u, x, scaled, y);
        lemma_close_pair::<A>(
            numbers,
            graph,
            inputs,
            values,
            before,
            at,
            after,
            (a, u),
            (b, scaled),
        );
    }
}

/// A rectified value hands its derivative on where its operand is positive.
proof fn lemma_relu_step<A: F32Arithmetic>(
    numbers: DualNumbers,
    graph: Graph,
    inputs: Seq<(ValueId, Tensor)>,
    values: Seq<Tensor>,
    before: Seq<Option<TensorModel>>,
    at: int,
    after: Seq<Option<TensorModel>>,
)
    requires
        passing::<A>(numbers, graph, inputs, values, before, at, after),
        graph.nodes@[at].op is Relu,
    ensures
        handed_on(numbers, graph, values, before, at, after),
{
    lemma_operands::<A>(numbers, graph, inputs, values, before, at, after);
    let m = numbers.modulus;
    let op = graph.nodes@[at].op;
    let u = before[at]->Some_0;
    let out = values[at]@;
    let (v, d) = (numbers.value, numbers.direction);
    if let Op::Relu(a) = op {
        assert(reads(op)[0] == a);
        let x = values[a.index as int]@;
        assert(rectifies::<A>(x, out));
        let gate = super::evaluate::gated(x, u);
        let each = |k: int| v(u.data[k]) * d(out.data[k]);
        let other = |k: int| v(gate.data[k]) * d(x.data[k]);
        assert forall|k: int| 0 <= k < out.data.len() implies same(
            m,
            #[trigger] each(k),
            other(k),
        ) by {
            assert(maximizes::<A>(x.data[k], ZERO_BITS, out.data[k]));
            let (w, dx) = (v(u.data[k]), d(x.data[k]));
            lemma_same_refl(m, w);
            lemma_same_refl(m, dx);
            if 0 < x.data[k] <= 0x7f80_0000 {
                lemma_same_mul(m, w, w, d(out.data[k]), dx);
            } else {
                lemma_same_mul(m, w, w, d(out.data[k]), 0);
                lemma_same_mul(m, v(ZERO_BITS), 0, dx, dx);
                assert(w * 0 == 0 * dx) by (nonlinear_arith);
                lemma_same_swap(m, v(ZERO_BITS) * dx, 0 * dx);
                lemma_same_trans(m, each(k), w * 0, other(k));
            }
        }
        lemma_total_same(m, out.data.len(), each, other);
        lemma_contribution::<A>(numbers, graph.nodes@, values, at, before, a, gate, after);
        let start = open_at(numbers, graph.nodes@, values, before, at);
        let (own, gained) = (numbers.paired(u, out), numbers.paired(gate, x));
        lemma_same_refl(m, start);
        lemma_same_swap(m, own, gained);
        lemma_same_add(m, start, start, gained, own);
        lemma_same_trans(
            m,
            open_at(numbers, graph.nodes@, values, after, at),
            start + gained,
            start + own,
        );
    }
}

/// The direction of a dot product, by the product rule.
proof fn lemma_dot_direction<A: F32Arithmetic>(
    numbers: DualNumbers,
    left: TensorModel,
    right: TensorModel,
    transpose_left: bool,
    transpose_right: bool,
    row: int,
    column: int,
    count: nat,
    made: u32,
    each: spec_fn(int) -> int,
)
    requires
        numbers.exact::<A>(),
        dot::<A>(left, right, transpose_left, transpose_right, row, column, count, made),
        forall|l: int|
            0 <= l < count ==> #[trigger] each(l) == {
                let one = left.data[left_at(left.shape, transpose_left, row, l)];
                let other = right.data[right_at(right.shape, transpose_right, l, column)];
                (numbers.value)(one) * (numbers.direction)(other) + (numbers.direction)(one) * (
                numbers.value)(other)
            },
    ensures
        same(numbers.modulus, (numbers.direction)(made), total(count, each)),
    decreases count,
{
    if count > 0 {
        let m = numbers.modulus;
        let d = numbers.direction;
        let last = (count - 1) as nat;
        let one = left.data[left_at(left.shape, transpose_left, row, count - 1)];
        let other = right.data[right_at(right.shape, transpose_right, count - 1, column)];
        let (partial, product) = choose|partial: u32, product: u32|
            {
                &&& dot::<A>(
                    left,
                    right,
                    transpose_left,
                    transpose_right,
                    row,
                    column,
                    (count - 1) as nat,
                    partial,
                )
                &&& #[trigger] multiplies::<A>(one, other, product)
                &&& #[trigger] sums::<A>(partial, product, made)
            };
        lemma_dot_direction::<A>(
            numbers,
            left,
            right,
            transpose_left,
            transpose_right,
            row,
            column,
            last,
            partial,
            each,
        );
        assert(same(m, d(product), each(count - 1)));
        lemma_same_add(m, d(partial), total(last, each), d(product), each(count - 1));
        lemma_same_trans(m, d(made), d(partial) + d(product), total(count, each));
    }
}

/// The value of a derivative by the left factor.
proof fn lemma_left_slope<A: F32Arithmetic>(
    numbers: DualNumbers,
    upstream: TensorModel,
    right: TensorModel,
    transpose_right: bool,
    columns: int,
    row: int,
    inner: int,
    count: nat,
    made: u32,
    each: spec_fn(int) -> int,
)
    requires
        numbers.exact::<A>(),
        left_slope::<A>(upstream, right, transpose_right, columns, row, inner, count, made),
        forall|j: int|
            0 <= j < count ==> #[trigger] each(j) == (numbers.value)(
                upstream.data[row * columns + j],
            ) * (numbers.value)(right.data[right_at(right.shape, transpose_right, inner, j)]),
    ensures
        same(numbers.modulus, (numbers.value)(made), total(count, each)),
    decreases count,
{
    if count > 0 {
        let m = numbers.modulus;
        let v = numbers.value;
        let last = (count - 1) as nat;
        let one = upstream.data[row * columns + (count - 1)];
        let other = right.data[right_at(right.shape, transpose_right, inner, count - 1)];
        let (partial, product) = choose|partial: u32, product: u32|
            {
                &&& left_slope::<A>(
                    upstream,
                    right,
                    transpose_right,
                    columns,
                    row,
                    inner,
                    (count - 1) as nat,
                    partial,
                )
                &&& #[trigger] multiplies::<A>(one, other, product)
                &&& #[trigger] sums::<A>(partial, product, made)
            };
        lemma_left_slope::<A>(
            numbers,
            upstream,
            right,
            transpose_right,
            columns,
            row,
            inner,
            last,
            partial,
            each,
        );
        assert(same(m, v(product), each(count - 1)));
        lemma_same_add(m, v(partial), total(last, each), v(product), each(count - 1));
        lemma_same_trans(m, v(made), v(partial) + v(product), total(count, each));
    }
}

/// The value of a derivative by the right factor.
proof fn lemma_right_slope<A: F32Arithmetic>(
    numbers: DualNumbers,
    left: TensorModel,
    upstream: TensorModel,
    transpose_left: bool,
    columns: int,
    inner: int,
    column: int,
    count: nat,
    made: u32,
    each: spec_fn(int) -> int,
)
    requires
        numbers.exact::<A>(),
        right_slope::<A>(left, upstream, transpose_left, columns, inner, column, count, made),
        forall|i: int|
            0 <= i < count ==> #[trigger] each(i) == (numbers.value)(
                left.data[left_at(left.shape, transpose_left, i, inner)],
            ) * (numbers.value)(upstream.data[i * columns + column]),
    ensures
        same(numbers.modulus, (numbers.value)(made), total(count, each)),
    decreases count,
{
    if count > 0 {
        let m = numbers.modulus;
        let v = numbers.value;
        let last = (count - 1) as nat;
        let one = left.data[left_at(left.shape, transpose_left, count - 1, inner)];
        let other = upstream.data[(count - 1) * columns + column];
        let (partial, product) = choose|partial: u32, product: u32|
            {
                &&& right_slope::<A>(
                    left,
                    upstream,
                    transpose_left,
                    columns,
                    inner,
                    column,
                    (count - 1) as nat,
                    partial,
                )
                &&& #[trigger] multiplies::<A>(one, other, product)
                &&& #[trigger] sums::<A>(partial, product, made)
            };
        lemma_right_slope::<A>(
            numbers,
            left,
            upstream,
            transpose_left,
            columns,
            inner,
            column,
            last,
            partial,
            each,
        );
        assert(same(m, v(product), each(count - 1)));
        lemma_same_add(m, v(partial), total(last, each), v(product), each(count - 1));
        lemma_same_trans(m, v(made), v(partial) + v(product), total(count, each));
    }
}

/// A matrix, kept by rows or by columns, sums to the sum of its cells.
proof fn lemma_spread(
    m: int,
    first: nat,
    second: nat,
    turned: bool,
    flat: spec_fn(int) -> int,
    cells: spec_fn(int, int) -> int,
)
    requires
        forall|i: int, l: int|
            0 <= i < first && 0 <= l < second ==> same(
                m,
                flat(
                    if turned {
                        l * first + i
                    } else {
                        i * second + l
                    },
                ),
                #[trigger] cells(i, l),
            ),
    ensures
        same(m, total(first * second, flat), table(first, second, cells)),
{
    if turned {
        let each = |l: int, i: int| flat(l * first + i);
        let across = |l: int, i: int| cells(i, l);
        lemma_grid(second, first, flat, each);
        assert forall|l: int, i: int| 0 <= l < second && 0 <= i < first implies same(
            m,
            #[trigger] each(l, i),
            across(l, i),
        ) by {
            assert(same(m, flat(l * first + i), cells(i, l)));
        }
        lemma_table_same(m, second, first, each, across);
        lemma_table_exchange(first, second, cells);
        lemma_table_equal(second, first, across, |j: int, i: int| cells(i, j));
        assert(second * first == first * second) by (nonlinear_arith);
    } else {
        let each = |i: int, l: int| flat(i * second + l);
        lemma_grid(first, second, flat, each);
        assert forall|i: int, l: int| 0 <= i < first && 0 <= l < second implies same(
            m,
            #[trigger] each(i, l),
            cells(i, l),
        ) by {
            assert(same(m, flat(i * second + l), cells(i, l)));
        }
        lemma_table_same(m, first, second, each, cells);
    }
}

/// A matrix product hands on its derivative to both factors.
proof fn lemma_matmul_pairs<A: F32Arithmetic>(
    numbers: DualNumbers,
    x: TensorModel,
    y: TensorModel,
    transpose_left: bool,
    transpose_right: bool,
    out: TensorModel,
    u: TensorModel,
    left: TensorModel,
    right: TensorModel,
)
    requires
        numbers.exact::<A>(),
        multipliable(x.shape, y.shape, transpose_left, transpose_right),
        x.data.len() == extent(1, x.shape),
        y.data.len() == extent(1, y.shape),
        u.data.len() == out.data.len(),
        multiplies_matrices::<A>(x, y, transpose_left, transpose_right, out),
        left_derivative::<A>(x, y, u, transpose_left, transpose_right, left),
        right_derivative::<A>(x, y, u, transpose_left, transpose_right, right),
    ensures
        same(
            numbers.modulus,
            numbers.paired(u, out),
            numbers.paired(left, x) + numbers.paired(right, y),
        ),
{
    let m = numbers.modulus;
    let (v, d) = (numbers.value, numbers.direction);
    let rows = left_dims(x.shape, transpose_left).0 as nat;
    let inner = left_dims(x.shape, transpose_left).1 as nat;
    let columns = right_dims(y.shape, transpose_right).1 as nat;
    lemma_matrix_extent(x.shape);
    lemma_matrix_extent(y.shape);
    assert(rows * inner == inner * rows) by (nonlinear_arith);
    assert(inner * columns == columns * inner) by (nonlinear_arith);
    let weight = |i: int, j: int| v(u.data[i * columns + j]);
    let a = |i: int, l: int| v(x.data[left_at(x.shape, transpose_left, i, l)]);
    let da = |i: int, l: int| d(x.data[left_at(x.shape, transpose_left, i, l)]);
    let b = |l: int, j: int| v(y.data[right_at(y.shape, transpose_right, l, j)]);
    let db = |l: int, j: int| d(y.data[right_at(y.shape, transpose_right, l, j)]);
    let whole = |i: int, j: int|
        weight(i, j) * total(inner, |l: int| a(i, l) * db(l, j) + da(i, l) * b(l, j));
    let by_left = |i: int, l: int| total(columns, |j: int| weight(i, j) * b(l, j)) * da(i, l);
    let by_right = |l: int, j: int| total(rows, |i: int| a(i, l) * weight(i, j)) * db(l, j);
    let out_flat = |k: int| v(u.data[k]) * d(out.data[k]);
    assert forall|i: int, j: int| 0 <= i < rows && 0 <= j < columns implies same(
        m,
        out_flat(i * columns + j),
        #[trigger] whole(i, j),
    ) by {
        let q = i * columns + j;
        lemma_matrix_place(rows as int, columns as int, i, j);
        lemma_fundamental_div_mod_converse(q, columns as int, i, j);
        let each = |l: int| a(i, l) * db(l, j) + da(i, l) * b(l, j);
        lemma_dot_direction::<A>(
            numbers,
            x,
            y,
            transpose_left,
            transpose_right,
            i,
            j,
            inner,
            out.data[q],
            each,
        );
        lemma_same_refl(m, weight(i, j));
        lemma_same_mul(m, weight(i, j), weight(i, j), d(out.data[q]), total(inner, each));
        lemma_total_equal(inner, each, |l: int| a(i, l) * db(l, j) + da(i, l) * b(l, j));
    }
    lemma_spread(m, rows, columns, false, out_flat, whole);
    let left_flat = |k: int| v(left.data[k]) * d(x.data[k]);
    assert forall|i: int, l: int| 0 <= i < rows && 0 <= l < inner implies same(
        m,
        left_flat(
            if transpose_left {
                l * rows + i
            } else {
                i * inner + l
            },
        ),
        #[trigger] by_left(i, l),
    ) by {
        let k = left_at(x.shape, transpose_left, i, l);
        if transpose_left {
            lemma_matrix_place(inner as int, rows as int, l, i);
            lemma_fundamental_div_mod_converse(k, rows as int, l, i);
        } else {
            lemma_matrix_place(rows as int, inner as int, i, l);
            lemma_fundamental_div_mod_converse(k, inner as int, i, l);
        }
        assert(left_place(x.shape, transpose_left, k) == (i, l));
        let each = |j: int| weight(i, j) * b(l, j);
        lemma_left_slope::<A>(
            numbers,
            u,
            y,
            transpose_right,
            columns as int,
            i,
            l,
            columns,
            left.data[k],
            each,
        );
        lemma_same_refl(m, da(i, l));
        lemma_same_mul(m, v(left.data[k]), total(columns, each), da(i, l), da(i, l));
        lemma_total_equal(columns, each, |j: int| weight(i, j) * b(l, j));
    }
    lemma_spread(m, rows, inner, transpose_left, left_flat, by_left);
    let right_flat = |k: int| v(right.data[k]) * d(y.data[k]);
    assert forall|l: int, j: int| 0 <= l < inner && 0 <= j < columns implies same(
        m,
        right_flat(
            if transpose_right {
                j * inner + l
            } else {
                l * columns + j
            },
        ),
        #[trigger] by_right(l, j),
    ) by {
        let k = right_at(y.shape, transpose_right, l, j);
        if transpose_right {
            lemma_matrix_place(columns as int, inner as int, j, l);
            lemma_fundamental_div_mod_converse(k, inner as int, j, l);
        } else {
            lemma_matrix_place(inner as int, columns as int, l, j);
            lemma_fundamental_div_mod_converse(k, columns as int, l, j);
        }
        assert(right_place(y.shape, transpose_right, k) == (l, j));
        let each = |i: int| a(i, l) * weight(i, j);
        lemma_right_slope::<A>(
            numbers,
            x,
            u,
            transpose_left,
            columns as int,
            l,
            j,
            rows,
            right.data[k],
            each,
        );
        lemma_same_refl(m, db(l, j));
        lemma_same_mul(m, v(right.data[k]), total(rows, each), db(l, j), db(l, j));
        lemma_total_equal(rows, each, |i: int| a(i, l) * weight(i, j));
    }
    lemma_spread(m, inner, columns, transpose_right, right_flat, by_right);
    lemma_bilinear(rows, columns, inner, weight, a, da, b, db);
    lemma_table_equal(
        rows,
        columns,
        whole,
        |i: int, j: int|
            weight(i, j) * total(inner, |l: int| a(i, l) * db(l, j) + da(i, l) * b(l, j)),
    );
    lemma_table_equal(
        rows,
        inner,
        by_left,
        |i: int, l: int| total(columns, |j: int| weight(i, j) * b(l, j)) * da(i, l),
    );
    lemma_table_equal(
        inner,
        columns,
        by_right,
        |l: int, j: int| total(rows, |i: int| a(i, l) * weight(i, j)) * db(l, j),
    );
    let (p, q, r) = (numbers.paired(u, out), numbers.paired(left, x), numbers.paired(right, y));
    let (cells_left, cells_right) = (
        table(rows, inner, by_left),
        table(inner, columns, by_right),
    );
    assert(same(m, p, cells_left + cells_right));
    lemma_same_add(m, q, cells_left, r, cells_right);
    lemma_same_swap(m, q + r, cells_left + cells_right);
    lemma_same_trans(m, p, cells_left + cells_right, q + r);
}

/// The step of a matrix product.
proof fn lemma_matmul_step<A: F32Arithmetic>(
    numbers: DualNumbers,
    graph: Graph,
    inputs: Seq<(ValueId, Tensor)>,
    values: Seq<Tensor>,
    before: Seq<Option<TensorModel>>,
    at: int,
    after: Seq<Option<TensorModel>>,
)
    requires
        passing::<A>(numbers, graph, inputs, values, before, at, after),
        graph.nodes@[at].op is MatMul,
    ensures
        handed_on(numbers, graph, values, before, at, after),
{
    lemma_operands::<A>(numbers, graph, inputs, values, before, at, after);
    let op = graph.nodes@[at].op;
    let u = before[at]->Some_0;
    if let Op::MatMul(a, b, tl, tr) = op {
        assert(reads(op)[0] == a && reads(op)[1] == b);
        let (x, y) = (values[a.index as int]@, values[b.index as int]@);
        let (left, right) = choose|left: TensorModel, right: TensorModel|
            {
                &&& #[trigger] left_derivative::<A>(x, y, u, tl, tr, left)
                &&& #[trigger] right_derivative::<A>(x, y, u, tl, tr, right)
                &&& contributes_pair::<A>(before, a, left, b, right, after)
            };
        lemma_matmul_pairs::<A>(numbers, x, y, tl, tr, values[at]@, u, left, right);
        lemma_close_pair::<A>(
            numbers,
            graph,
            inputs,
            values,
            before,
            at,
            after,
            (a, left),
            (b, right),
        );
    }
}

/// The direction of a sum of squared differences.
proof fn lemma_squared_direction<A: F32Arithmetic>(
    numbers: DualNumbers,
    left: Seq<u32>,
    right: Seq<u32>,
    count: nat,
    made: u32,
    each: spec_fn(int) -> int,
)
    requires
        numbers.exact::<A>(),
        squared_error::<A>(left, right, count, made),
        forall|k: int|
            0 <= k < count ==> #[trigger] each(k) == 2 * (((numbers.value)(left[k])
                - (numbers.value)(right[k])) * ((numbers.direction)(left[k]) - (numbers.direction)(
                right[k],
            ))),
    ensures
        same(numbers.modulus, (numbers.direction)(made), total(count, each)),
    decreases count,
{
    if count > 0 {
        let m = numbers.modulus;
        let (v, d) = (numbers.value, numbers.direction);
        let last = (count - 1) as nat;
        let (x, y) = (left[count - 1], right[count - 1]);
        let (partial, square) = choose|partial: u32, square: u32|
            {
                &&& squared_error::<A>(left, right, (count - 1) as nat, partial)
                &&& #[trigger] squares::<A>(x, y, square)
                &&& #[trigger] sums::<A>(partial, square, made)
            };
        let (one, other) = choose|one: u32, other: u32|
            {
                &&& #[trigger] differs::<A>(x, y, one)
                &&& differs::<A>(x, y, other)
                &&& #[trigger] multiplies::<A>(one, other, square)
            };
        lemma_squared_direction::<A>(numbers, left, right, last, partial, each);
        let (e, de) = (v(x) - v(y), d(x) - d(y));
        lemma_same_mul(m, v(one), e, d(other), de);
        lemma_same_mul(m, d(one), de, v(other), e);
        lemma_same_add(m, v(one) * d(other), e * de, d(one) * v(other), de * e);
        assert(e * de + de * e == 2 * (e * de)) by (nonlinear_arith);
        lemma_same_trans(
            m,
            d(square),
            v(one) * d(other) + d(one) * v(other),
            each(count - 1),
        );
        lemma_same_add(m, d(partial), total(last, each), d(square), each(count - 1));
        lemma_same_trans(m, d(made), d(partial) + d(square), total(count, each));
    }
}

/// A slope of the mean squared error, times the number of elements.
proof fn lemma_slope<A: F32Arithmetic>(
    numbers: DualNumbers,
    count: nat,
    from: u32,
    to: u32,
    divisor: u32,
    upstream: u32,
    result: u32,
)
    requires
        numbers.exact::<A>(),
        numbers.divides_by::<A>(count),
        counts::<A>(count as usize, divisor),
        slope::<A>(from, to, divisor, upstream, result),
    ensures
        same(
            numbers.modulus,
            count * (numbers.value)(result),
            2 * ((numbers.value)(from) - (numbers.value)(to)) * (numbers.value)(upstream),
        ),
{
    let m = numbers.modulus;
    let v = numbers.value;
    let n = count as int;
    let (difference, twice, mean) = choose|difference: u32, twice: u32, mean: u32|
        {
            &&& #[trigger] differs::<A>(from, to, difference)
            &&& #[trigger] multiplies::<A>(TWO_BITS, difference, twice)
            &&& divides::<A>(twice, divisor, mean)
            &&& #[trigger] multiplies::<A>(mean, upstream, result)
        };
    let e = v(from) - v(to);
    lemma_same_mul(m, v(TWO_BITS), 2, v(difference), e);
    lemma_same_trans(m, v(twice), v(TWO_BITS) * v(difference), 2 * e);
    lemma_same_trans(m, n * v(mean), v(twice), 2 * e);
    lemma_same_refl(m, n);
    lemma_same_refl(m, v(upstream));
    lemma_same_mul(m, n, n, v(result), v(mean) * v(upstream));
    lemma_same_mul(m, n * v(mean), 2 * e, v(upstream), v(upstream));
    let (p, q) = (v(mean), v(upstream));
    assert(n * (p * q) == (n * p) * q) by (nonlinear_arith);
    lemma_same_trans(m, n * v(result), n * (p * q), 2 * e * q);
}

/// A mean squared error hands on its derivative to both operands.
proof fn lemma_error_pairs<A: F32Arithmetic>(
    numbers: DualNumbers,
    x: TensorModel,
    y: TensorModel,
    out: TensorModel,
    u: TensorModel,
    divisor: u32,
    left: TensorModel,
    right: TensorModel,
)
    requires
        numbers.exact::<A>(),
        numbers.divides_by::<A>(x.data.len()),
        x.data.len() == y.data.len(),
        averages::<A>(x, y, out),
        counts::<A>(x.data.len() as usize, divisor),
        slopes::<A>(x, y, divisor, u.data[0], left),
        slopes::<A>(y, x, divisor, u.data[0], right),
    ensures
        same(
            numbers.modulus,
            numbers.paired(u, out),
            numbers.paired(left, x) + numbers.paired(right, y),
        ),
{
    let m = numbers.modulus;
    let (v, d) = (numbers.value, numbers.direction);
    let count = x.data.len();
    let n = count as int;
    let (sum, by, mean) = choose|sum: u32, by: u32, mean: u32|
        {
            &&& squared_error::<A>(x.data, y.data, x.data.len(), sum)
            &&& #[trigger] counts::<A>(x.data.len() as usize, by)
            &&& #[trigger] divides::<A>(sum, by, mean)
            &&& out == TensorModel::scalar(mean)
        };
    let w = v(u.data[0]);
    let own = numbers.paired(u, out);
    assert(own == w * d(mean)) by {
        reveal_with_fuel(total, 2);
    }
    let each = |k: int| 2 * ((v(x.data[k]) - v(y.data[k])) * (d(x.data[k]) - d(y.data[k])));
    lemma_squared_direction::<A>(numbers, x.data, y.data, count, sum, each);
    lemma_same_trans(m, n * d(mean), d(sum), total(count, each));
    lemma_same_refl(m, w);
    lemma_same_mul(m, w, w, n * d(mean), total(count, each));
    assert(w * (n * d(mean)) == n * own) by (nonlinear_arith)
        requires
            own == w * d(mean),
    ;
    // As much for the slopes.
    let one = |k: int| v(left.data[k]) * d(x.data[k]);
    let two = |k: int| v(right.data[k]) * d(y.data[k]);
    let both = |k: int| one(k) + two(k);
    let many = |k: int| n * both(k);
    let scaled = |k: int| w * each(k);
    assert forall|k: int| 0 <= k < count implies same(m, #[trigger] many(k), scaled(k)) by {
        assert(slope::<A>(x.data[k], y.data[k], divisor, u.data[0], left.data[k]));
        assert(slope::<A>(y.data[k], x.data[k], divisor, u.data[0], right.data[k]));
        lemma_slope::<A>(
            numbers,
            count,
            x.data[k],
            y.data[k],
            divisor,
            u.data[0],
            left.data[k],
        );
        lemma_slope::<A>(
            numbers,
            count,
            y.data[k],
            x.data[k],
            divisor,
            u.data[0],
            right.data[k],
        );
        let (p, q, dp, dq) = (v(x.data[k]), v(y.data[k]), d(x.data[k]), d(y.data[k]));
        let (l, r) = (v(left.data[k]), v(right.data[k]));
        lemma_same_refl(m, dp);
        lemma_same_refl(m, dq);
        lemma_same_mul(m, n * l, 2 * (p - q) * w, dp, dp);
        lemma_same_mul(m, n * r, 2 * (q - p) * w, dq, dq);
        lemma_same_add(m, (n * l) * dp, (2 * (p - q) * w) * dp, (n * r) * dq, (2 * (q - p) * w) * dq);
        assert((n * l) * dp + (n * r) * dq == n * (l * dp + r * dq)) by (nonlinear_arith);
        assert((2 * (p - q) * w) * dp + (2 * (q - p) * w) * dq == w * (2 * ((p - q) * (dp - dq))))
            by (nonlinear_arith);
    }
    lemma_total_same(m, count, many, scaled);
    lemma_total_scale(count, n, both, many);
    lemma_total_scale(count, w, each, scaled);
    lemma_total_add(count, one, two, both);
    let gained = numbers.paired(left, x) + numbers.paired(right, y);
    assert(gained == total(count, both));
    lemma_same_swap(m, n * gained, w * total(count, each));
    lemma_same_trans(m, n * own, w * total(count, each), n * gained);
    lemma_same_refl(m, n * gained);
    lemma_same_add(m, n * own, n * gained, n * gained, n * gained);
    assert(n * own - n * gained == n * (own - gained)) by (nonlinear_arith);
    assert(same(m, own - gained, 0));
    lemma_same_refl(m, gained);
    lemma_same_add(m, own - gained, 0, gained, gained);
}

/// The step of a mean squared error.
proof fn lemma_error_step<A: F32Arithmetic>(
    numbers: DualNumbers,
    graph: Graph,
    inputs: Seq<(ValueId, Tensor)>,
    values: Seq<Tensor>,
    before: Seq<Option<TensorModel>>,
    at: int,
    after: Seq<Option<TensorModel>>,
)
    requires
        passing::<A>(numbers, graph, inputs, values, before, at, after),
        graph.nodes@[at].op matches Op::MeanSquaredError(prediction, _) && numbers.divides_by::<A>(
            values[prediction.index as int]@.data.len(),
        ),
    ensures
        handed_on(numbers, graph, values, before, at, after),
{
    lemma_operands::<A>(numbers, graph, inputs, values, before, at, after);
    let op = graph.nodes@[at].op;
    let u = before[at]->Some_0;
    if let Op::MeanSquaredError(a, b) = op {
        assert(reads(op)[0] == a && reads(op)[1] == b);
        let (x, y) = (values[a.index as int]@, values[b.index as int]@);
        let (divisor, left, right) = choose|divisor: u32, left: TensorModel, right: TensorModel|
            {
                &&& #[trigger] counts::<A>(values[a.index as int].data@.len() as usize, divisor)
                &&& #[trigger] slopes::<A>(x, y, divisor, u.data[0], left)
                &&& #[trigger] slopes::<A>(y, x, divisor, u.data[0], right)
                &&& contributes_pair::<A>(before, a, left, b, right, after)
            };
        lemma_error_pairs::<A>(numbers, x, y, values[at]@, u, divisor, left, right);
        lemma_close_pair::<A>(
            numbers,
            graph,
            inputs,
            values,
            before,
            at,
            after,
            (a, left),
            (b, right),
        );
    }
}

/// What the reading has to know of a graph and its values: it divides by the number of elements of
/// every mean, and rates have no direction of their own.
pub open spec fn reads_graph<A: F32Arithmetic>(
    numbers: DualNumbers,
    graph: Graph,
    execution: Execution,
) -> bool {
    &&& numbers.exact::<A>()
    &&& forall|i: int|
        0 <= i < graph.nodes@.len() ==> match (#[trigger] graph.nodes@[i]).op {
            Op::MeanSquaredError(prediction, _) => numbers.divides_by::<A>(
                execution.values@[prediction.index as int]@.data.len(),
            ),
            Op::SgdUpdate(_, _, rate) => same(numbers.modulus, (numbers.direction)(rate), 0),
            _ => true,
        }
}

/// A derivative that is there stays there.
proof fn lemma_kept<A: F32Arithmetic>(
    graph: Graph,
    values: Seq<Tensor>,
    before: Seq<Option<TensorModel>>,
    at: int,
    after: Seq<Option<TensorModel>>,
)
    requires
        graph.wf(),
        0 <= at < graph.nodes@.len() == before.len(),
        passes_on::<A>(graph, values, before, at, after),
    ensures
        after.len() == before.len(),
        forall|i: int|
            0 <= i < before.len() && (#[trigger] before[i]) is Some ==> after[i] is Some,
{
    assert(node_wf(graph.id, graph.nodes@, at));
    let op = graph.nodes@[at].op;
    match op {
        Op::Add(a, b)
        | Op::Sub(a, b)
        | Op::Mul(a, b)
        | Op::SgdUpdate(a, b, _)
        | Op::MeanSquaredError(a, b)
        | Op::MatMul(a, b, _, _) => {
            assert(reads(op)[0] == a && reads(op)[1] == b);
            assert(precedes(graph.id, at, reads(op)[0]));
            assert(precedes(graph.id, at, reads(op)[1]));
        },
        Op::Relu(a) => {
            assert(reads(op)[0] == a);
            assert(precedes(graph.id, at, reads(op)[0]));
        },
        _ => {},
    }
}

/// The step of any node that is no leaf and no generated backward node.
proof fn lemma_step<A: F32Arithmetic>(
    numbers: DualNumbers,
    graph: Graph,
    inputs: Seq<(ValueId, Tensor)>,
    values: Seq<Tensor>,
    before: Seq<Option<TensorModel>>,
    at: int,
    after: Seq<Option<TensorModel>>,
)
    requires
        passing::<A>(numbers, graph, inputs, values, before, at, after),
        !is_leaf(graph.nodes@[at]),
        match graph.nodes@[at].op {
            Op::MeanSquaredError(prediction, _) => numbers.divides_by::<A>(
                values[prediction.index as int]@.data.len(),
            ),
            Op::SgdUpdate(_, _, rate) => same(numbers.modulus, (numbers.direction)(rate), 0),
            Op::ReluBackward(_, _) => false,
            _ => true,
        },
    ensures
        handed_on(numbers, graph, values, before, at, after),
{
    match graph.nodes@[at].op {
        Op::Add(_, _) | Op::Sub(_, _) | Op::Mul(_, _) => {
            lemma_elementwise_step::<A>(numbers, graph, inputs, values, before, at, after);
        },
        Op::SgdUpdate(_, _, _) => {
            lemma_sgd_step::<A>(numbers, graph, inputs, values, before, at, after);
        },
        Op::Relu(_) => {
            lemma_relu_step::<A>(numbers, graph, inputs, values, before, at, after);
        },
        Op::MatMul(_, _, _, _) => {
            lemma_matmul_step::<A>(numbers, graph, inputs, values, before, at, after);
        },
        Op::MeanSquaredError(_, _) => {
            lemma_error_step::<A>(numbers, graph, inputs, values, before, at, after);
        },
        _ => {},
    }
}

/// The sweep loses nothing: what it still has to account for is the direction of the output.
proof fn lemma_sweep<A: F32Arithmetic>(
    numbers: DualNumbers,
    graph: Graph,
    inputs: Seq<(ValueId, Tensor)>,
    execution: Execution,
    output: int,
    at: int,
    state: Seq<Option<TensorModel>>,
)
    requires
        graph.wf(),
        evaluation_answer::<A>(graph, inputs, Ok(execution)),
        reads_graph::<A>(numbers, graph, execution),
        0 <= output < graph.nodes@.len(),
        graph.nodes@[output].shape@.len() == 0,
        0 <= at <= output + 1,
        swept::<A>(graph, execution.values@, output, at, state),
        forall|i: int|
            0 <= i < graph.nodes@.len() && (#[trigger] state[i]) is Some
                ==> !(graph.nodes@[i].op is ReluBackward),
    ensures
        fitted(execution.values@, state),
        same(
            numbers.modulus,
            open_at(numbers, graph.nodes@, execution.values@, state, at),
            (numbers.direction)(execution.values@[output]@.data[0]),
        ),
    decreases output + 1 - at,
{
    let m = numbers.modulus;
    let nodes = graph.nodes@;
    let values = execution.values@;
    let end = (numbers.direction)(values[output]@.data[0]);
    if at > output {
        let seed = TensorModel::scalar(ONE_BITS);
        assert(values[output].wf());
        assert(extent(1, values[output]@.shape) == 1);
        let each = |i: int|
            if i < at || is_leaf(nodes[i]) {
                numbers.paired_at(state[i], values[i]@)
            } else {
                0
            };
        let none = |i: int| 0int;
        lemma_total_zero(nodes.len(), none);
        assert forall|k: int| 0 <= k < nodes.len() && k != output implies #[trigger] none(k)
            == each(k) by {
            assert(state[k] is None);
        }
        lemma_total_update(nodes.len(), none, each, output);
        assert(each(output) == (numbers.value)(ONE_BITS) * end) by {
            reveal_with_fuel(total, 2);
        }
        lemma_same_refl(m, end);
        lemma_same_mul(m, (numbers.value)(ONE_BITS), 1, end, end);
    } else {
        let before = choose|before: Seq<Option<TensorModel>>|
            {
                &&& swept::<A>(graph, values, output, at + 1, before)
                &&& #[trigger] passes_on::<A>(graph, values, before, at, state)
            };
        lemma_swept_len::<A>(graph, values, output, at + 1, before);
        lemma_kept::<A>(graph, values, before, at, state);
        assert forall|i: int|
            0 <= i < nodes.len() && (#[trigger] before[i]) is Some implies !(nodes[i].op is ReluBackward) by {
            assert(state[i] is Some);
        }
        lemma_sweep::<A>(numbers, graph, inputs, execution, output, at + 1, before);
        lemma_open_step(numbers, nodes, values, before, at);
        let start = open_at(numbers, nodes, values, before, at + 1);
        let now = open_at(numbers, nodes, values, state, at);
        if before[at] is Some && !is_leaf(nodes[at]) {
            assert(computes::<A>(graph, inputs, values.take(at), at, values[at]@));
            lemma_step::<A>(numbers, graph, inputs, values, before, at, state);
        } else {
            lemma_same_refl(m, now);
        }
        lemma_same_trans(m, now, start, end);
    }
}

/// The sweep keeps one entry for every node.
proof fn lemma_swept_len<A: F32Arithmetic>(
    graph: Graph,
    values: Seq<Tensor>,
    output: int,
    at: int,
    state: Seq<Option<TensorModel>>,
)
    requires
        graph.wf(),
        0 <= at,
        output < graph.nodes@.len(),
        swept::<A>(graph, values, output, at, state),
    ensures
        state.len() == graph.nodes@.len(),
    decreases output + 1 - at,
{
    if at <= output {
        let before = choose|before: Seq<Option<TensorModel>>|
            {
                &&& swept::<A>(graph, values, output, at + 1, before)
                &&& #[trigger] passes_on::<A>(graph, values, before, at, state)
            };
        lemma_swept_len::<A>(graph, values, output, at + 1, before);
        lemma_kept::<A>(graph, values, before, at, state);
    }
}

/// Differentiating an evaluation gives its directional derivatives. Let every element of the
/// leaves move in some direction. Evaluation carries the directions to the output, by the same
/// operations that compute its value. What arrives there is the sum, over all elements of all
/// leaves, of the derivative of the output by the element times the direction of the element.
///
/// The law speaks of arithmetic that does not round dual numbers, and of outputs that need no
/// generated backward node.
pub proof fn law_derivatives_are_directional<A: F32Arithmetic>(
    numbers: DualNumbers,
    graph: Graph,
    inputs: Seq<(ValueId, Tensor)>,
    execution: Execution,
    output: ValueId,
    derivatives: Vec<Option<Tensor>>,
)
    requires
        graph.wf(),
        evaluation_answer::<A>(graph, inputs, Ok(execution)),
        gradients_answer::<A>(execution, graph, output, Ok(derivatives)),
        reads_graph::<A>(numbers, graph, execution),
        forall|i: int|
            0 <= i < graph.nodes@.len() && #[trigger] reaches(
                graph.nodes@,
                output.index as int,
                i,
            ) ==> !(graph.nodes@[i].op is ReluBackward),
    ensures
        same(
            numbers.modulus,
            (numbers.direction)(execution.values@[output.index as int]@.data[0]),
            paired_leaves(numbers, graph, execution, derivatives@),
        ),
{
    let m = numbers.modulus;
    let nodes = graph.nodes@;
    let values = execution.values@;
    let at = output.index as int;
    let state = gradient_models(derivatives@);
    assert forall|i: int| 0 <= i < nodes.len() && (#[trigger] state[i]) is Some implies !(
    nodes[i].op is ReluBackward) by {
        assert(derivatives@[i] is Some);
        assert(reaches(nodes, at, i));
    }
    lemma_sweep::<A>(numbers, graph, inputs, execution, at, 0, state);
    let each = |i: int|
        if i < 0 || is_leaf(nodes[i]) {
            numbers.paired_at(state[i], values[i]@)
        } else {
            0
        };
    let other = |i: int|
        match derivatives@[i] {
            Some(derivative) => if is_leaf(nodes[i]) {
                numbers.paired(derivative@, values[i]@)
            } else {
                0
            },
            None => 0,
        };
    lemma_total_equal(nodes.len(), each, other);
    lemma_same_swap(
        m,
        open_at(numbers, nodes, values, state, 0),
        (numbers.direction)(values[at]@.data[0]),
    );
}

} // verus!
