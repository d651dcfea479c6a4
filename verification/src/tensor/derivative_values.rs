//! A generated backward graph computes the reference derivatives, as far as rounding lets it.
//!
//! Everything is proved for any closeness of elements that the operations keep.
use vstd::prelude::*;

use super::arithmetic::{counts, divides, multiplies, sums, F32Arithmetic};
use super::backward::{
    averaged_over, backward_answer, flooded, law_nested_losses_block, nested_loss, op_sketch,
    sketches, tape_of, NodeSketch, OpSketch, Tape,
};
use super::bits::{nan, negated, MINUS_ONE_BITS, ONE_BITS, TWO_BITS};
use super::closure::{lemma_reaches_operand, reaches};
use super::deterministic::{
    law_evaluation_is_deterministic, lemma_computed_result, tensor_models, ArithmeticRules,
};
use super::error::ValueId;
use super::evaluate::{
    adds, computes, evaluation_answer, gated, left_at, lemma_matrix_extent, right_at, scales,
    Execution,
};
use super::gradients::{
    accumulated, contributes, contributes_pair, flipped, gradient_models, gradients_answer,
    left_derivative, left_place, left_slope, passes_on, right_derivative, right_place, right_slope,
    scaled_by, seeded, slope, slopes, swept,
};
use super::graph::{
    left_dims, multipliable, node_wf, precedes, product_shape, reads, right_dims, Graph, Node, Op,
};
use super::value::{extent, Tensor, TensorModel};

verus! {

/// Two elements are close to each other, in a sense of closeness that the reader chooses.
pub open spec fn near(close: spec_fn(u32, u32) -> bool, one: u32, other: u32) -> bool {
    close(one, other)
}

/// Closeness is an equivalence that the operations keep: close operands have close sums and
/// products. Products do not depend on the order of their factors, and a factor of minus one
/// negates, both up to closeness.
pub open spec fn keeps(close: spec_fn(u32, u32) -> bool, rules: ArithmeticRules) -> bool {
    &&& forall|x: u32| #[trigger] near(close, x, x)
    &&& forall|x: u32, y: u32, z: u32|
        #[trigger] near(close, x, y) && #[trigger] near(close, y, z) ==> near(close, x, z)
    &&& forall|x: u32, y: u32|
        near(close, #[trigger] (rules.product)(x, y), (rules.product)(y, x))
    &&& forall|x: u32| near(close, (rules.product)(x, MINUS_ONE_BITS), #[trigger] negated(x))
    &&& forall|x: u32, y: u32, z: u32, w: u32|
        near(close, x, z) && near(close, y, w) ==> near(
            close,
            #[trigger] (rules.sum)(x, y),
            #[trigger] (rules.sum)(z, w),
        )
    &&& forall|x: u32, y: u32, z: u32, w: u32|
        near(close, x, z) && near(close, y, w) ==> near(
            close,
            #[trigger] (rules.product)(x, y),
            #[trigger] (rules.product)(z, w),
        )
}

/// Scaling the difference of two elements by two over the count comes close to doubling it and
/// dividing by the count.
pub open spec fn scaling_agrees(
    close: spec_fn(u32, u32) -> bool,
    rules: ArithmeticRules,
    from: u32,
    to: u32,
    count: usize,
) -> bool {
    let difference = (rules.difference)(from, to);
    let divisor = (rules.from_count)(count);
    near(
        close,
        (rules.product)(difference, (rules.quotient)(TWO_BITS, divisor)),
        (rules.product)(
            (rules.quotient)((rules.product)(TWO_BITS, difference), divisor),
            ONE_BITS,
        ),
    )
}

/// Two tensors of one shape with close elements.
pub open spec fn near_tensors(
    close: spec_fn(u32, u32) -> bool,
    one: TensorModel,
    other: TensorModel,
) -> bool {
    &&& one.shape == other.shape
    &&& one.data.len() == other.data.len()
    &&& forall|k: int|
        #![trigger one.data[k]]
        #![trigger other.data[k]]
        0 <= k < one.data.len() ==> near(close, one.data[k], other.data[k])
}

/// The values of nodes follow from the values before them.
spec fn evaluated(rules: ArithmeticRules, nodes: Seq<NodeSketch>, values: Seq<TensorModel>) -> bool {
    &&& values.len() == nodes.len() <= usize::MAX
    &&& forall|i: int|
        0 <= i < nodes.len() ==> {
            &&& (#[trigger] values[i]).wf()
            &&& values[i].shape == nodes[i].shape
            &&& !(nodes[i].op is Input) ==> values[i] == rules.result(
                nodes[i].op,
                nodes[i].shape,
                values,
            )
        }
}

/// The tape holds the first of some nodes.
spec fn begins(tape: Tape, nodes: Seq<NodeSketch>) -> bool {
    &&& tape.nodes.len() <= nodes.len()
    &&& forall|i: int| 0 <= i < tape.nodes.len() ==> #[trigger] tape.nodes[i] == nodes[i]
}

/// The value on the tape is that of a derivative.
spec fn stands_for(
    close: spec_fn(u32, u32) -> bool,
    tape: Tape,
    nodes: Seq<NodeSketch>,
    values: Seq<TensorModel>,
    at: int,
    derivative: Option<TensorModel>,
) -> bool {
    match (tape.gradients[at], derivative) {
        (None, None) => true,
        (Some(value), Some(tensor)) => {
            &&& value.index < tape.nodes.len()
            &&& near_tensors(close, values[value.index as int], tensor)
            &&& tensor.shape == nodes[at].shape
        },
        _ => false,
    }
}

/// The tape names exactly the derivatives that the sweep holds.
spec fn in_step(
    close: spec_fn(u32, u32) -> bool,
    tape: Tape,
    nodes: Seq<NodeSketch>,
    values: Seq<TensorModel>,
    state: Seq<Option<TensorModel>>,
) -> bool {
    &&& begins(tape, nodes)
    &&& tape.gradients.len() == state.len() <= tape.nodes.len()
    &&& forall|i: int|
        0 <= i < state.len() ==> stands_for(close, tape, nodes, values, i, #[trigger] state[i])
}

/// A recorded node is the next of the nodes, and its value is its result.
proof fn lemma_recorded(
    rules: ArithmeticRules,
    nodes: Seq<NodeSketch>,
    values: Seq<TensorModel>,
    tape: Tape,
    op: OpSketch,
    shape: Seq<usize>,
)
    requires
        evaluated(rules, nodes, values),
        begins(tape.recorded(op, shape), nodes),
        !(op is Input),
    ensures
        begins(tape, nodes),
        tape.nodes.len() < nodes.len(),
        tape.recorded(op, shape).nodes.len() == tape.nodes.len() + 1,
        tape.recorded(op, shape).latest().index == tape.nodes.len(),
        tape.recorded(op, shape).gradients == tape.gradients,
        values[tape.nodes.len() as int] == rules.result(op, shape, values),
        values[tape.nodes.len() as int].wf(),
        values[tape.nodes.len() as int].shape == shape,
{
    let grown = tape.recorded(op, shape);
    let at = tape.nodes.len() as int;
    assert(grown.nodes[at] == nodes[at]);
    assert(values[at].wf());
    assert forall|i: int| 0 <= i < tape.nodes.len() implies #[trigger] tape.nodes[i] == nodes[i] by {
        assert(grown.nodes[i] == nodes[i]);
    }
}

/// Recording a node keeps the tape in step.
proof fn lemma_still_in_step(
    close: spec_fn(u32, u32) -> bool,
    nodes: Seq<NodeSketch>,
    values: Seq<TensorModel>,
    tape: Tape,
    grown: Tape,
    state: Seq<Option<TensorModel>>,
)
    requires
        in_step(close, tape, nodes, values, state),
        begins(grown, nodes),
        grown.gradients == tape.gradients,
        grown.nodes.len() >= tape.nodes.len(),
    ensures
        in_step(close, grown, nodes, values, state),
{
    assert forall|i: int| 0 <= i < state.len() implies stands_for(
        close,
        grown,
        nodes,
        values,
        i,
        #[trigger] state[i],
    ) by {
        assert(stands_for(close, tape, nodes, values, i, state[i]));
    }
}

/// The tape before a contribution begins the nodes where the tape after it does.
proof fn lemma_accumulation_begins(
    nodes: Seq<NodeSketch>,
    tape: Tape,
    target: ValueId,
    addition: ValueId,
)
    requires
        begins(tape.accumulated(target, addition), nodes),
    ensures
        begins(tape, nodes),
        tape.nodes.len() <= tape.accumulated(target, addition).nodes.len(),
{
    let after = tape.accumulated(target, addition);
    assert forall|i: int| 0 <= i < tape.nodes.len() implies #[trigger] tape.nodes[i] == nodes[i] by {
        assert(after.nodes[i] == nodes[i]);
    }
}

/// A contribution to the derivative of one value keeps the tape in step.
proof fn lemma_contribution<A: F32Arithmetic>(
    close: spec_fn(u32, u32) -> bool,
    rules: ArithmeticRules,
    nodes: Seq<NodeSketch>,
    values: Seq<TensorModel>,
    tape: Tape,
    state: Seq<Option<TensorModel>>,
    target: ValueId,
    addition: ValueId,
    tensor: TensorModel,
    after: Seq<Option<TensorModel>>,
)
    requires
        rules.describe::<A>(),
        keeps(close, rules),
        evaluated(rules, nodes, values),
        in_step(close, tape, nodes, values, state),
        target.index < state.len(),
        addition.index < tape.nodes.len(),
        near_tensors(close, values[addition.index as int], tensor),
        tensor.shape == nodes[target.index as int].shape,
        contributes::<A>(state, target, tensor, after),
        begins(tape.accumulated(target, addition), nodes),
    ensures
        in_step(close, tape.accumulated(target, addition), nodes, values, after),
{
    let at = target.index as int;
    let sum = choose|sum: TensorModel|
        {
            &&& #[trigger] accumulated::<A>(state[at], tensor, sum)
            &&& after == state.update(at, Some(sum))
        };
    let grown = tape.accumulated(target, addition);
    assert(stands_for(close, tape, nodes, values, at, state[at]));
    if let Some(existing) = tape.gradients[at] {
        let current = state[at]->Some_0;
        let op = OpSketch::Add(existing, addition);
        let shape = tape.shape_of(existing);
        let next = tape.recorded(op, shape);
        assert(begins(next, nodes)) by {
            assert(next.nodes == grown.nodes);
        }
        lemma_recorded(rules, nodes, values, tape, op, shape);
        let made = values[tape.nodes.len() as int];
        let one = values[existing.index as int];
        let other = values[addition.index as int];
        assert(one.wf() && other.wf());
        assert(adds::<A>(current, tensor, sum));
        assert forall|k: int| 0 <= k < sum.data.len() implies near(
            close,
            made.data[k],
            #[trigger] sum.data[k],
        ) by {
            assert(sums::<A>(current.data[k], tensor.data[k], sum.data[k]));
            assert(made.data[k] == (rules.sum)(one.data[k], other.data[k]));
        }
        assert(nodes[existing.index as int] == tape.nodes[existing.index as int]);
        assert(near_tensors(close, made, sum));
        assert(grown.gradients[at] == Some(grown.latest()));
    }
    assert forall|i: int| 0 <= i < after.len() implies stands_for(
        close,
        grown,
        nodes,
        values,
        i,
        #[trigger] after[i],
    ) by {
        assert(stands_for(close, tape, nodes, values, i, state[i]));
        if i != at {
            assert(after[i] == state[i]);
            assert(grown.gradients[i] == tape.gradients[i]);
        }
    }
}

/// Contributions to two operands keep the tape in step.
proof fn lemma_contributions<A: F32Arithmetic>(
    close: spec_fn(u32, u32) -> bool,
    rules: ArithmeticRules,
    nodes: Seq<NodeSketch>,
    values: Seq<TensorModel>,
    tape: Tape,
    state: Seq<Option<TensorModel>>,
    first: (ValueId, ValueId, TensorModel),
    second: (ValueId, ValueId, TensorModel),
    after: Seq<Option<TensorModel>>,
)
    requires
        rules.describe::<A>(),
        keeps(close, rules),
        evaluated(rules, nodes, values),
        in_step(close, tape, nodes, values, state),
        first.0.index < state.len(),
        second.0.index < state.len(),
        first.1.index < tape.nodes.len(),
        second.1.index < tape.nodes.len(),
        near_tensors(close, values[first.1.index as int], first.2),
        near_tensors(close, values[second.1.index as int], second.2),
        first.2.shape == nodes[first.0.index as int].shape,
        second.2.shape == nodes[second.0.index as int].shape,
        contributes_pair::<A>(state, first.0, first.2, second.0, second.2, after),
        begins(tape.accumulated_pair(first.0, first.1, second.0, second.1), nodes),
    ensures
        in_step(
            close,
            tape.accumulated_pair(first.0, first.1, second.0, second.1),
            nodes,
            values,
            after,
        ),
{
    let between = choose|between: Seq<Option<TensorModel>>|
        {
            &&& #[trigger] contributes::<A>(state, first.0, first.2, between)
            &&& contributes::<A>(between, second.0, second.2, after)
        };
    let middle = tape.accumulated(first.0, first.1);
    lemma_accumulation_begins(nodes, middle, second.0, second.1);
    lemma_accumulation_begins(nodes, tape, first.0, first.1);
    lemma_contribution::<A>(
        close,
        rules,
        nodes,
        values,
        tape,
        state,
        first.0,
        first.1,
        first.2,
        between,
    );
    lemma_contribution::<A>(
        close,
        rules,
        nodes,
        values,
        middle,
        between,
        second.0,
        second.1,
        second.2,
        after,
    );
}

/// The nodes begin with those of a graph, which was evaluated to the same values.
spec fn grown_from(
    rules: ArithmeticRules,
    graph: Graph,
    originals: Seq<Tensor>,
    nodes: Seq<NodeSketch>,
    values: Seq<TensorModel>,
) -> bool {
    &&& evaluated(rules, nodes, values)
    &&& graph.wf()
    &&& originals.len() == graph.nodes@.len() <= nodes.len()
    &&& forall|i: int|
        0 <= i < graph.nodes@.len() ==> {
            &&& (#[trigger] nodes[i]).op == op_sketch(graph.nodes@[i].op)
            &&& nodes[i].shape == graph.nodes@[i].shape@
            &&& originals[i]@ == values[i]
        }
}

/// The sweep stands at a node with a derivative, and the tape is in step with it.
spec fn stands_at<A: F32Arithmetic>(
    close: spec_fn(u32, u32) -> bool,
    rules: ArithmeticRules,
    graph: Graph,
    originals: Seq<Tensor>,
    nodes: Seq<NodeSketch>,
    values: Seq<TensorModel>,
    tape: Tape,
    state: Seq<Option<TensorModel>>,
    at: int,
) -> bool {
    &&& rules.describe::<A>()
    &&& keeps(close, rules)
    &&& grown_from(rules, graph, originals, nodes, values)
    &&& in_step(close, tape, nodes, values, state)
    &&& state.len() == graph.nodes@.len()
    &&& 0 <= at < state.len()
    &&& state[at] is Some
}

/// The sweep stands at a node with a derivative, and passes it on.
spec fn at_node<A: F32Arithmetic>(
    close: spec_fn(u32, u32) -> bool,
    rules: ArithmeticRules,
    graph: Graph,
    originals: Seq<Tensor>,
    nodes: Seq<NodeSketch>,
    values: Seq<TensorModel>,
    tape: Tape,
    state: Seq<Option<TensorModel>>,
    at: int,
    after: Seq<Option<TensorModel>>,
) -> bool {
    &&& stands_at::<A>(close, rules, graph, originals, nodes, values, tape, state, at)
    &&& passes_on::<A>(graph, originals, state, at, after)
}

/// What is known of the operands of the node that the sweep stands at.
proof fn lemma_node_operands<A: F32Arithmetic>(
    close: spec_fn(u32, u32) -> bool,
    rules: ArithmeticRules,
    graph: Graph,
    originals: Seq<Tensor>,
    nodes: Seq<NodeSketch>,
    values: Seq<TensorModel>,
    tape: Tape,
    state: Seq<Option<TensorModel>>,
    at: int,
)
    requires
        stands_at::<A>(close, rules, graph, originals, nodes, values, tape, state, at),
    ensures
        tape.gradients[at] is Some,
        tape.gradients[at]->Some_0.index < tape.nodes.len(),
        near_tensors(
            close,
            values[tape.gradients[at]->Some_0.index as int],
            state[at]->Some_0,
        ),
        state[at]->Some_0.shape == graph.nodes@[at].shape@,
        state[at]->Some_0.data.len() == extent(1, graph.nodes@[at].shape@),
        tape.nodes[at] == nodes[at],
        node_wf(graph.id, graph.nodes@, at),
        values[at].wf(),
        forall|j: int|
            0 <= j < reads(graph.nodes@[at].op).len() ==> {
                let operand = (#[trigger] reads(graph.nodes@[at].op)[j]).index as int;
                &&& operand < at
                &&& values[operand].wf()
                &&& values[operand].shape == graph.nodes@[operand].shape@
                &&& nodes[operand].shape == graph.nodes@[operand].shape@
                &&& originals[operand]@ == values[operand]
                &&& tape.nodes[operand] == nodes[operand]
            },
{
    let node = graph.nodes@[at];
    assert(stands_for(close, tape, nodes, values, at, state[at]));
    assert(node_wf(graph.id, graph.nodes@, at));
    assert(nodes[at].shape == node.shape@);
    assert(values[at].wf());
    let gradient = tape.gradients[at]->Some_0.index as int;
    assert(values[gradient].wf());
    assert forall|j: int| 0 <= j < reads(node.op).len() implies {
        let operand = (#[trigger] reads(node.op)[j]).index as int;
        &&& operand < at
        &&& values[operand].wf()
        &&& values[operand].shape == graph.nodes@[operand].shape@
        &&& nodes[operand].shape == graph.nodes@[operand].shape@
        &&& originals[operand]@ == values[operand]
        &&& tape.nodes[operand] == nodes[operand]
    } by {
        assert(precedes(graph.id, at, reads(node.op)[j]));
        let operand = reads(node.op)[j].index as int;
        assert(nodes[operand].shape == graph.nodes@[operand].shape@);
        assert(values[operand].wf());
    }
}

/// An addition hands its derivative on.
proof fn lemma_add_step<A: F32Arithmetic>(
    close: spec_fn(u32, u32) -> bool,
    rules: ArithmeticRules,
    graph: Graph,
    originals: Seq<Tensor>,
    nodes: Seq<NodeSketch>,
    values: Seq<TensorModel>,
    tape: Tape,
    state: Seq<Option<TensorModel>>,
    at: int,
    after: Seq<Option<TensorModel>>,
    scale: u32,
)
    requires
        at_node::<A>(close, rules, graph, originals, nodes, values, tape, state, at, after),
        graph.nodes@[at].op is Add,
        begins(tape.backed(nodes[at].op, tape.gradients[at]->Some_0, scale), nodes),
    ensures
        in_step(
            close,
            tape.backed(nodes[at].op, tape.gradients[at]->Some_0, scale),
            nodes,
            values,
            after,
        ),
{
    lemma_node_operands::<A>(close, rules, graph, originals, nodes, values, tape, state, at);
    if let Op::Add(a, b) = graph.nodes@[at].op {
        let op = graph.nodes@[at].op;
        assert(reads(op)[0] == a && reads(op)[1] == b);
        let gradient = tape.gradients[at]->Some_0;
        let upstream = state[at]->Some_0;
        lemma_contributions::<A>(
            close,
            rules,
            nodes,
            values,
            tape,
            state,
            (a, gradient, upstream),
            (b, gradient, upstream),
            after,
        );
    }
}

/// A subtraction hands its derivative on, negated to the second operand.
proof fn lemma_sub_step<A: F32Arithmetic>(
    close: spec_fn(u32, u32) -> bool,
    rules: ArithmeticRules,
    graph: Graph,
    originals: Seq<Tensor>,
    nodes: Seq<NodeSketch>,
    values: Seq<TensorModel>,
    tape: Tape,
    state: Seq<Option<TensorModel>>,
    at: int,
    after: Seq<Option<TensorModel>>,
    scale: u32,
)
    requires
        at_node::<A>(close, rules, graph, originals, nodes, values, tape, state, at, after),
        graph.nodes@[at].op is Sub,
        begins(tape.backed(nodes[at].op, tape.gradients[at]->Some_0, scale), nodes),
    ensures
        in_step(
            close,
            tape.backed(nodes[at].op, tape.gradients[at]->Some_0, scale),
            nodes,
            values,
            after,
        ),
{
    lemma_node_operands::<A>(close, rules, graph, originals, nodes, values, tape, state, at);
    if let Op::Sub(a, b) = graph.nodes@[at].op {
        let op = graph.nodes@[at].op;
        assert(reads(op)[0] == a && reads(op)[1] == b);
        let gradient = tape.gradients[at]->Some_0;
        let upstream = state[at]->Some_0;
        let between = choose|between: Seq<Option<TensorModel>>|
            {
                &&& #[trigger] contributes::<A>(state, a, upstream, between)
                &&& contributes::<A>(between, b, flipped(upstream), after)
            };
        let left = tape.accumulated(a, gradient);
        let negative = left.with_filled(b, MINUS_ONE_BITS);
        let product = negative.with_product(gradient, negative.latest());
        lemma_accumulation_begins(nodes, product, b, product.latest());
        lemma_recorded(
            rules,
            nodes,
            values,
            negative,
            OpSketch::Mul(gradient, negative.latest()),
            negative.shape_of(gradient),
        );
        lemma_recorded(
            rules,
            nodes,
            values,
            left,
            OpSketch::Constant(flooded(left.shape_of(b), MINUS_ONE_BITS)),
            left.shape_of(b),
        );
        lemma_accumulation_begins(nodes, tape, a, gradient);
        lemma_contribution::<A>(
            close,
            rules,
            nodes,
            values,
            tape,
            state,
            a,
            gradient,
            upstream,
            between,
        );
        lemma_still_in_step(close, nodes, values, left, product, between);
        let made = values[negative.nodes.len() as int];
        let filled = values[left.nodes.len() as int];
        let wanted = flipped(upstream);
        assert(left.shape_of(b) == nodes[b.index as int].shape);
        let passed = values[gradient.index as int];
        assert forall|k: int| 0 <= k < wanted.data.len() implies near(
            close,
            made.data[k],
            #[trigger] wanted.data[k],
        ) by {
            assert(filled.data[k] == MINUS_ONE_BITS);
            assert(made.data[k] == (rules.product)(passed.data[k], MINUS_ONE_BITS));
            assert(near(close, made.data[k], negated(passed.data[k])));
            assert(near(close, passed.data[k], upstream.data[k]));
            assert(near(
                close,
                (rules.product)(passed.data[k], MINUS_ONE_BITS),
                (rules.product)(upstream.data[k], MINUS_ONE_BITS),
            ));
            assert(near(
                close,
                (rules.product)(upstream.data[k], MINUS_ONE_BITS),
                negated(upstream.data[k]),
            ));
        }
        lemma_contribution::<A>(
            close,
            rules,
            nodes,
            values,
            product,
            between,
            b,
            product.latest(),
            wanted,
            after,
        );
    }
}

/// A product hands its derivative on, scaled by the other factor.
proof fn lemma_mul_step<A: F32Arithmetic>(
    close: spec_fn(u32, u32) -> bool,
    rules: ArithmeticRules,
    graph: Graph,
    originals: Seq<Tensor>,
    nodes: Seq<NodeSketch>,
    values: Seq<TensorModel>,
    tape: Tape,
    state: Seq<Option<TensorModel>>,
    at: int,
    after: Seq<Option<TensorModel>>,
    scale: u32,
)
    requires
        at_node::<A>(close, rules, graph, originals, nodes, values, tape, state, at, after),
        graph.nodes@[at].op is Mul,
        begins(tape.backed(nodes[at].op, tape.gradients[at]->Some_0, scale), nodes),
    ensures
        in_step(
            close,
            tape.backed(nodes[at].op, tape.gradients[at]->Some_0, scale),
            nodes,
            values,
            after,
        ),
{
    lemma_node_operands::<A>(close, rules, graph, originals, nodes, values, tape, state, at);
    if let Op::Mul(a, b) = graph.nodes@[at].op {
        let op = graph.nodes@[at].op;
        assert(reads(op)[0] == a && reads(op)[1] == b);
        let gradient = tape.gradients[at]->Some_0;
        let upstream = state[at]->Some_0;
        let (left, right) = choose|left: TensorModel, right: TensorModel|
            {
                &&& #[trigger] scales::<A>(upstream, originals[b.index as int]@, left)
                &&& #[trigger] scales::<A>(upstream, originals[a.index as int]@, right)
                &&& contributes_pair::<A>(state, a, left, b, right, after)
            };
        let one = tape.with_product(gradient, b);
        let two = one.with_product(gradient, a);
        lemma_pair_begins(nodes, two, a, one.latest(), b, two.latest());
        lemma_recorded(
            rules,
            nodes,
            values,
            one,
            OpSketch::Mul(gradient, a),
            one.shape_of(gradient),
        );
        lemma_recorded(
            rules,
            nodes,
            values,
            tape,
            OpSketch::Mul(gradient, b),
            tape.shape_of(gradient),
        );
        lemma_still_in_step(close, nodes, values, tape, two, state);
        let (first, second) = (
            values[tape.nodes.len() as int],
            values[one.nodes.len() as int],
        );
        let passed = values[gradient.index as int];
        let (factor, other) = (values[b.index as int], values[a.index as int]);
        assert forall|k: int| 0 <= k < left.data.len() implies near(
            close,
            first.data[k],
            #[trigger] left.data[k],
        ) by {
            assert(first.data[k] == (rules.product)(passed.data[k], factor.data[k]));
            assert(multiplies::<A>(upstream.data[k], factor.data[k], left.data[k]));
        }
        assert forall|k: int| 0 <= k < right.data.len() implies near(
            close,
            second.data[k],
            #[trigger] right.data[k],
        ) by {
            assert(second.data[k] == (rules.product)(passed.data[k], other.data[k]));
            assert(multiplies::<A>(upstream.data[k], other.data[k], right.data[k]));
        }
        lemma_contributions::<A>(
            close,
            rules,
            nodes,
            values,
            two,
            state,
            (a, one.latest(), left),
            (b, two.latest(), right),
            after,
        );
    }
}

/// The tape before two contributions begins the nodes where the tape after them does.
proof fn lemma_pair_begins(
    nodes: Seq<NodeSketch>,
    tape: Tape,
    first: ValueId,
    first_addition: ValueId,
    second: ValueId,
    second_addition: ValueId,
)
    requires
        begins(
            tape.accumulated_pair(first, first_addition, second, second_addition),
            nodes,
        ),
    ensures
        begins(tape, nodes),
{
    lemma_accumulation_begins(
        nodes,
        tape.accumulated(first, first_addition),
        second,
        second_addition,
    );
    lemma_accumulation_begins(nodes, tape, first, first_addition);
}

/// Scaling one element comes close in both directions.
pub open spec fn scales_closely_at(
    close: spec_fn(u32, u32) -> bool,
    rules: ArithmeticRules,
    from: Seq<u32>,
    to: Seq<u32>,
    k: int,
) -> bool {
    &&& scaling_agrees(close, rules, from[k], to[k], from.len() as usize)
    &&& scaling_agrees(close, rules, to[k], from[k], from.len() as usize)
}

/// Scaling comes close at every element of the operands of a loss.
pub open spec fn scales_closely(
    close: spec_fn(u32, u32) -> bool,
    rules: ArithmeticRules,
    graph: Graph,
    values: Seq<TensorModel>,
    loss: int,
) -> bool {
    match graph.nodes@[loss].op {
        Op::MeanSquaredError(a, b) => forall|k: int|
            0 <= k < values[a.index as int].data.len() ==> #[trigger] scales_closely_at(
                close,
                rules,
                values[a.index as int].data,
                values[b.index as int].data,
                k,
            ),
        _ => true,
    }
}

/// An SGD update hands its derivative on, scaled by the negated rate to the gradient.
proof fn lemma_sgd_step<A: F32Arithmetic>(
    close: spec_fn(u32, u32) -> bool,
    rules: ArithmeticRules,
    graph: Graph,
    originals: Seq<Tensor>,
    nodes: Seq<NodeSketch>,
    values: Seq<TensorModel>,
    tape: Tape,
    state: Seq<Option<TensorModel>>,
    at: int,
    after: Seq<Option<TensorModel>>,
    scale: u32,
)
    requires
        at_node::<A>(close, rules, graph, originals, nodes, values, tape, state, at, after),
        graph.nodes@[at].op is SgdUpdate,
        begins(tape.backed(nodes[at].op, tape.gradients[at]->Some_0, scale), nodes),
    ensures
        in_step(
            close,
            tape.backed(nodes[at].op, tape.gradients[at]->Some_0, scale),
            nodes,
            values,
            after,
        ),
{
    lemma_node_operands::<A>(close, rules, graph, originals, nodes, values, tape, state, at);
    if let Op::SgdUpdate(a, b, rate) = graph.nodes@[at].op {
        let op = graph.nodes@[at].op;
        assert(reads(op)[0] == a && reads(op)[1] == b);
        let gradient = tape.gradients[at]->Some_0;
        let upstream = state[at]->Some_0;
        let factor = negated(rate);
        let scaled = choose|scaled: TensorModel|
            {
                &&& #[trigger] scaled_by::<A>(factor, upstream, scaled)
                &&& contributes_pair::<A>(state, a, upstream, b, scaled, after)
            };
        let fill = tape.with_filled(b, factor);
        let product = fill.with_product(gradient, fill.latest());
        lemma_pair_begins(nodes, product, a, gradient, b, product.latest());
        lemma_recorded(
            rules,
            nodes,
            values,
            fill,
            OpSketch::Mul(gradient, fill.latest()),
            fill.shape_of(gradient),
        );
        lemma_recorded(
            rules,
            nodes,
            values,
            tape,
            OpSketch::Constant(flooded(tape.shape_of(b), factor)),
            tape.shape_of(b),
        );
        lemma_still_in_step(close, nodes, values, tape, product, state);
        let passed = values[gradient.index as int];
        let filled = values[tape.nodes.len() as int];
        let made = values[fill.nodes.len() as int];
        assert forall|k: int| 0 <= k < scaled.data.len() implies near(
            close,
            made.data[k],
            #[trigger] scaled.data[k],
        ) by {
            assert(filled.data[k] == factor);
            assert(made.data[k] == (rules.product)(passed.data[k], factor));
            assert(near(close, passed.data[k], upstream.data[k]));
            assert(near(
                close,
                (rules.product)(passed.data[k], factor),
                (rules.product)(upstream.data[k], factor),
            ));
            assert(multiplies::<A>(factor, upstream.data[k], scaled.data[k]));
        }
        lemma_contributions::<A>(
            close,
            rules,
            nodes,
            values,
            product,
            state,
            (a, gradient, upstream),
            (b, product.latest(), scaled),
            after,
        );
    }
}

/// A rectifier hands its derivative on where its input is positive.
proof fn lemma_relu_step<A: F32Arithmetic>(
    close: spec_fn(u32, u32) -> bool,
    rules: ArithmeticRules,
    graph: Graph,
    originals: Seq<Tensor>,
    nodes: Seq<NodeSketch>,
    values: Seq<TensorModel>,
    tape: Tape,
    state: Seq<Option<TensorModel>>,
    at: int,
    after: Seq<Option<TensorModel>>,
    scale: u32,
)
    requires
        at_node::<A>(close, rules, graph, originals, nodes, values, tape, state, at, after),
        graph.nodes@[at].op is Relu,
        begins(tape.backed(nodes[at].op, tape.gradients[at]->Some_0, scale), nodes),
    ensures
        in_step(
            close,
            tape.backed(nodes[at].op, tape.gradients[at]->Some_0, scale),
            nodes,
            values,
            after,
        ),
{
    lemma_node_operands::<A>(close, rules, graph, originals, nodes, values, tape, state, at);
    if let Op::Relu(x) = graph.nodes@[at].op {
        let op = graph.nodes@[at].op;
        assert(reads(op)[0] == x);
        let gradient = tape.gradients[at]->Some_0;
        let upstream = state[at]->Some_0;
        let gate = tape.recorded(OpSketch::ReluBackward(x, gradient), tape.shape_of(x));
        lemma_accumulation_begins(nodes, gate, x, gate.latest());
        lemma_recorded(
            rules,
            nodes,
            values,
            tape,
            OpSketch::ReluBackward(x, gradient),
            tape.shape_of(x),
        );
        lemma_still_in_step(close, nodes, values, tape, gate, state);
        let wanted = gated(values[x.index as int], upstream);
        let made = values[tape.nodes.len() as int];
        assert forall|k: int| 0 <= k < wanted.data.len() implies near(
            close,
            made.data[k],
            #[trigger] wanted.data[k],
        ) by {
            assert(near(close, values[gradient.index as int].data[k], upstream.data[k]));
        }
        lemma_contribution::<A>(
            close,
            rules,
            nodes,
            values,
            gate,
            state,
            x,
            gate.latest(),
            wanted,
            after,
        );
    }
}

/// `result` comes close to the difference of two elements times two over the count, the factor that
/// a backward graph fills a tensor with.
pub open spec fn factored_slopes(
    close: spec_fn(u32, u32) -> bool,
    rules: ArithmeticRules,
    from: TensorModel,
    to: TensorModel,
    result: TensorModel,
) -> bool {
    let factor = (rules.quotient)(TWO_BITS, (rules.from_count)(from.data.len() as usize));
    &&& result == TensorModel::plain(from.shape, result.data)
    &&& result.data.len() == from.data.len()
    &&& forall|k: int|
        0 <= k < result.data.len() ==> near(
            close,
            (rules.product)((rules.difference)(from.data[k], to.data[k]), factor),
            #[trigger] result.data[k],
        )
}

/// A mean squared error hands on its scaled differences.
proof fn lemma_loss_pair<A: F32Arithmetic>(
    close: spec_fn(u32, u32) -> bool,
    rules: ArithmeticRules,
    graph: Graph,
    originals: Seq<Tensor>,
    nodes: Seq<NodeSketch>,
    values: Seq<TensorModel>,
    tape: Tape,
    state: Seq<Option<TensorModel>>,
    at: int,
    after: Seq<Option<TensorModel>>,
    scale: u32,
    a: ValueId,
    b: ValueId,
    left: TensorModel,
    right: TensorModel,
)
    requires
        stands_at::<A>(close, rules, graph, originals, nodes, values, tape, state, at),
        graph.nodes@[at].op == Op::MeanSquaredError(a, b),
        scale == (rules.quotient)(
            TWO_BITS,
            (rules.from_count)(averaged_over(graph, at) as usize),
        ),
        begins(tape.backed(nodes[at].op, tape.gradients[at]->Some_0, scale), nodes),
        factored_slopes(close, rules, values[a.index as int], values[b.index as int], left),
        factored_slopes(close, rules, values[b.index as int], values[a.index as int], right),
        contributes_pair::<A>(state, a, left, b, right, after),
    ensures
        in_step(
            close,
            tape.backed(nodes[at].op, tape.gradients[at]->Some_0, scale),
            nodes,
            values,
            after,
        ),
{
    lemma_node_operands::<A>(close, rules, graph, originals, nodes, values, tape, state, at);
    assert(nodes[at].op == op_sketch(graph.nodes@[at].op));
    let op = graph.nodes@[at].op;
    assert(reads(op)[0] == a && reads(op)[1] == b);
    let (from, to) = (values[a.index as int], values[b.index as int]);
    let fill = tape.with_filled(a, scale);
    let forward = fill.with_difference(a, b);
    let reverse = forward.with_difference(b, a);
    let one = reverse.with_product(forward.latest(), fill.latest());
    let two = one.with_product(reverse.latest(), fill.latest());
    lemma_pair_begins(nodes, two, a, one.latest(), b, two.latest());
    lemma_recorded(
        rules,
        nodes,
        values,
        one,
        OpSketch::Mul(reverse.latest(), fill.latest()),
        one.shape_of(reverse.latest()),
    );
    lemma_recorded(
        rules,
        nodes,
        values,
        reverse,
        OpSketch::Mul(forward.latest(), fill.latest()),
        reverse.shape_of(forward.latest()),
    );
    lemma_recorded(rules, nodes, values, forward, OpSketch::Sub(b, a), forward.shape_of(b));
    lemma_recorded(rules, nodes, values, fill, OpSketch::Sub(a, b), fill.shape_of(a));
    lemma_recorded(
        rules,
        nodes,
        values,
        tape,
        OpSketch::Constant(flooded(tape.shape_of(a), scale)),
        tape.shape_of(a),
    );
    lemma_still_in_step(close, nodes, values, tape, two, state);
    let filled = values[tape.nodes.len() as int];
    let (ahead, behind) = (values[fill.nodes.len() as int], values[forward.nodes.len() as int]);
    let (first, second) = (values[reverse.nodes.len() as int], values[one.nodes.len() as int]);
    assert forall|k: int| 0 <= k < left.data.len() implies near(
        close,
        first.data[k],
        #[trigger] left.data[k],
    ) by {
        assert(filled.data[k] == scale);
        assert(ahead.data[k] == (rules.difference)(from.data[k], to.data[k]));
        assert(first.data[k] == (rules.product)(ahead.data[k], scale));
    }
    assert forall|k: int| 0 <= k < right.data.len() implies near(
        close,
        second.data[k],
        #[trigger] right.data[k],
    ) by {
        assert(filled.data[k] == scale);
        assert(behind.data[k] == (rules.difference)(to.data[k], from.data[k]));
        assert(second.data[k] == (rules.product)(behind.data[k], scale));
    }
    lemma_contributions::<A>(
        close,
        rules,
        nodes,
        values,
        two,
        state,
        (a, one.latest(), left),
        (b, two.latest(), right),
        after,
    );
}

/// A mean squared error hands on the slopes of its elements.
proof fn lemma_loss_step<A: F32Arithmetic>(
    close: spec_fn(u32, u32) -> bool,
    rules: ArithmeticRules,
    graph: Graph,
    originals: Seq<Tensor>,
    nodes: Seq<NodeSketch>,
    values: Seq<TensorModel>,
    tape: Tape,
    state: Seq<Option<TensorModel>>,
    at: int,
    after: Seq<Option<TensorModel>>,
    scale: u32,
)
    requires
        at_node::<A>(close, rules, graph, originals, nodes, values, tape, state, at, after),
        graph.nodes@[at].op is MeanSquaredError,
        state[at] == Some(TensorModel::scalar(ONE_BITS)),
        scales_closely(close, rules, graph, values, at),
        scale == (rules.quotient)(
            TWO_BITS,
            (rules.from_count)(averaged_over(graph, at) as usize),
        ),
        begins(tape.backed(nodes[at].op, tape.gradients[at]->Some_0, scale), nodes),
    ensures
        in_step(
            close,
            tape.backed(nodes[at].op, tape.gradients[at]->Some_0, scale),
            nodes,
            values,
            after,
        ),
{
    lemma_node_operands::<A>(close, rules, graph, originals, nodes, values, tape, state, at);
    if let Op::MeanSquaredError(a, b) = graph.nodes@[at].op {
        let op = graph.nodes@[at].op;
        assert(reads(op)[0] == a && reads(op)[1] == b);
        let (from, to) = (values[a.index as int], values[b.index as int]);
        let (divisor, left, right) = choose|divisor: u32, left: TensorModel, right: TensorModel|
            {
                &&& #[trigger] counts::<A>(originals[a.index as int].data@.len() as usize, divisor)
                &&& #[trigger] slopes::<A>(
                    originals[a.index as int]@,
                    originals[b.index as int]@,
                    divisor,
                    ONE_BITS,
                    left,
                )
                &&& #[trigger] slopes::<A>(
                    originals[b.index as int]@,
                    originals[a.index as int]@,
                    divisor,
                    ONE_BITS,
                    right,
                )
                &&& contributes_pair::<A>(state, a, left, b, right, after)
            };
        assert forall|k: int| 0 <= k < left.data.len() implies near(
            close,
            (rules.product)((rules.difference)(from.data[k], to.data[k]), scale),
            #[trigger] left.data[k],
        ) by {
            assert(slope::<A>(from.data[k], to.data[k], divisor, ONE_BITS, left.data[k]));
            assert(scales_closely_at(close, rules, from.data, to.data, k));
        }
        assert forall|k: int| 0 <= k < right.data.len() implies near(
            close,
            (rules.product)((rules.difference)(to.data[k], from.data[k]), scale),
            #[trigger] right.data[k],
        ) by {
            assert(slope::<A>(to.data[k], from.data[k], divisor, ONE_BITS, right.data[k]));
            assert(scales_closely_at(close, rules, from.data, to.data, k));
        }
        lemma_loss_pair::<A>(
            close,
            rules,
            graph,
            originals,
            nodes,
            values,
            tape,
            state,
            at,
            after,
            scale,
            a,
            b,
            left,
            right,
        );
    }
}

/// The derivative by an element of a left factor is an element of a matrix product, whichever way
/// round it is written.
proof fn lemma_left_slope<A: F32Arithmetic>(
    close: spec_fn(u32, u32) -> bool,
    rules: ArithmeticRules,
    passed: TensorModel,
    upstream: TensorModel,
    right: TensorModel,
    tr: bool,
    columns: int,
    row: int,
    inner: int,
    count: nat,
    total: u32,
)
    requires
        rules.describe::<A>(),
        keeps(close, rules),
        near_tensors(close, passed, upstream),
        left_slope::<A>(upstream, right, tr, columns, row, inner, count, total),
        passed.shape[1] == columns,
        0 <= row * columns,
        row * columns + count <= passed.data.len(),
    ensures
        near(close, rules.dot_product(passed, right, false, !tr, row, inner, count), total),
        near(close, rules.dot_product(right, passed, tr, true, inner, row, count), total),
    decreases count,
{
    if count > 0 {
        let j = count - 1;
        let place = right_at(right.shape, tr, inner, j);
        let (partial, product) = choose|partial: u32, product: u32|
            {
                &&& left_slope::<A>(upstream, right, tr, columns, row, inner, j as nat, partial)
                &&& #[trigger] multiplies::<A>(
                    upstream.data[row * columns + j],
                    right.data[place],
                    product,
                )
                &&& #[trigger] sums::<A>(partial, product, total)
            };
        lemma_left_slope::<A>(
            close,
            rules,
            passed,
            upstream,
            right,
            tr,
            columns,
            row,
            inner,
            j as nat,
            partial,
        );
        let (x, y) = (passed.data[row * columns + j], right.data[place]);
        assert(near(close, x, upstream.data[row * columns + j]));
        assert(product == (rules.product)(upstream.data[row * columns + j], y));
        assert(near(close, (rules.product)(x, y), product));
        assert(near(close, (rules.product)(x, y), (rules.product)(y, x)));
        assert(total == (rules.sum)(partial, product));
        assert(left_at(passed.shape, false, row, j) == row * columns + j);
        assert(right_at(right.shape, !tr, j, inner) == place);
        assert(left_at(right.shape, tr, inner, j) == place);
        assert(right_at(passed.shape, true, j, row) == row * columns + j);
    }
}

/// The derivative by an element of a right factor is an element of a matrix product, whichever way
/// round it is written.
proof fn lemma_right_slope<A: F32Arithmetic>(
    close: spec_fn(u32, u32) -> bool,
    rules: ArithmeticRules,
    passed: TensorModel,
    upstream: TensorModel,
    left: TensorModel,
    tl: bool,
    columns: int,
    inner: int,
    column: int,
    count: nat,
    total: u32,
)
    requires
        rules.describe::<A>(),
        keeps(close, rules),
        near_tensors(close, passed, upstream),
        right_slope::<A>(left, upstream, tl, columns, inner, column, count, total),
        passed.shape[1] == columns,
        0 <= column < columns,
        count * columns <= passed.data.len(),
    ensures
        near(close, rules.dot_product(passed, left, true, tl, column, inner, count), total),
        near(close, rules.dot_product(left, passed, !tl, false, inner, column, count), total),
    decreases count,
{
    if count > 0 {
        let j = count - 1;
        let place = left_at(left.shape, tl, j, inner);
        let (partial, product) = choose|partial: u32, product: u32|
            {
                &&& right_slope::<A>(left, upstream, tl, columns, inner, column, j as nat, partial)
                &&& #[trigger] multiplies::<A>(
                    left.data[place],
                    upstream.data[j * columns + column],
                    product,
                )
                &&& #[trigger] sums::<A>(partial, product, total)
            };
        assert(j * columns + columns == count * columns) by (nonlinear_arith)
            requires
                j == count - 1,
        ;
        assert(0 <= j * columns) by (nonlinear_arith)
            requires
                0 <= j,
                0 <= columns,
        ;
        lemma_right_slope::<A>(
            close,
            rules,
            passed,
            upstream,
            left,
            tl,
            columns,
            inner,
            column,
            j as nat,
            partial,
        );
        let (x, y) = (left.data[place], passed.data[j * columns + column]);
        assert(near(close, y, upstream.data[j * columns + column]));
        assert(product == (rules.product)(x, upstream.data[j * columns + column]));
        assert(near(close, (rules.product)(x, y), product));
        assert(near(close, (rules.product)(x, y), (rules.product)(y, x)));
        assert(total == (rules.sum)(partial, product));
        assert(left_at(passed.shape, true, column, j) == j * columns + column);
        assert(right_at(left.shape, tl, j, inner) == place);
        assert(left_at(left.shape, !tl, inner, j) == place);
        assert(right_at(passed.shape, false, j, column) == j * columns + column);
    }
}

/// The matrix product of two models.
spec fn matrix_product(
    rules: ArithmeticRules,
    left: TensorModel,
    right: TensorModel,
    tl: bool,
    tr: bool,
) -> TensorModel {
    let (rows, inner) = left_dims(left.shape, tl);
    let columns = right_dims(right.shape, tr).1;
    TensorModel::plain(
        product_shape(left.shape, right.shape, tl, tr),
        Seq::new(
            rows as nat * columns as nat,
            |q: int|
                rules.dot_product(
                    left,
                    right,
                    tl,
                    tr,
                    q / columns as int,
                    q % columns as int,
                    inner as nat,
                ),
        ),
    )
}

/// A recorded matrix product is the next of the nodes, and its value is the product.
proof fn lemma_product_recorded(
    rules: ArithmeticRules,
    nodes: Seq<NodeSketch>,
    values: Seq<TensorModel>,
    tape: Tape,
    left: ValueId,
    right: ValueId,
    tl: bool,
    tr: bool,
)
    requires
        evaluated(rules, nodes, values),
        begins(tape.with_matmul(left, right, tl, tr), nodes),
        left.index < tape.nodes.len(),
        right.index < tape.nodes.len(),
    ensures
        begins(tape, nodes),
        tape.nodes.len() < nodes.len(),
        tape.with_matmul(left, right, tl, tr).nodes.len() == tape.nodes.len() + 1,
        tape.with_matmul(left, right, tl, tr).latest().index == tape.nodes.len(),
        tape.with_matmul(left, right, tl, tr).gradients == tape.gradients,
        values[tape.nodes.len() as int] == matrix_product(
            rules,
            values[left.index as int],
            values[right.index as int],
            tl,
            tr,
        ),
{
    let shape = product_shape(tape.shape_of(left), tape.shape_of(right), tl, tr);
    lemma_recorded(rules, nodes, values, tape, OpSketch::MatMul(left, right, tl, tr), shape);
}

/// The derivative by a left factor is a matrix product.
proof fn lemma_left_derivative<A: F32Arithmetic>(
    close: spec_fn(u32, u32) -> bool,
    rules: ArithmeticRules,
    left: TensorModel,
    right: TensorModel,
    passed: TensorModel,
    upstream: TensorModel,
    tl: bool,
    tr: bool,
    wanted: TensorModel,
    made: TensorModel,
)
    requires
        rules.describe::<A>(),
        keeps(close, rules),
        left.wf(),
        right.wf(),
        passed.wf(),
        near_tensors(close, passed, upstream),
        multipliable(left.shape, right.shape, tl, tr),
        passed.shape == product_shape(left.shape, right.shape, tl, tr),
        left_derivative::<A>(left, right, upstream, tl, tr, wanted),
        made == if tl {
            matrix_product(rules, right, passed, tr, true)
        } else {
            matrix_product(rules, passed, right, false, !tr)
        },
    ensures
        near_tensors(close, made, wanted),
{
    let columns = right_dims(right.shape, tr).1 as int;
    let rows = left_dims(left.shape, tl).0 as int;
    let width = left.shape[1] as int;
    lemma_matrix_extent(left.shape);
    lemma_matrix_extent(passed.shape);
    assert(made.shape =~= left.shape);
    assert(made.data.len() == left.shape[0] * left.shape[1]) by {
        assert(left.shape[0] as nat * left.shape[1] as nat == left.shape[0] * left.shape[1]);
    }
    assert forall|k: int| 0 <= k < made.data.len() implies near(
        close,
        made.data[k],
        #[trigger] wanted.data[k],
    ) by {
        let (row, inner) = left_place(left.shape, tl, k);
        lemma_place_within(left.shape[0] as int, width, k);
        lemma_matrix_row(rows, columns, row);
        lemma_left_slope::<A>(
            close,
            rules,
            passed,
            upstream,
            right,
            tr,
            columns,
            row,
            inner,
            columns as nat,
            wanted.data[k],
        );
    }
}

/// The derivative by a right factor is a matrix product.
proof fn lemma_right_derivative<A: F32Arithmetic>(
    close: spec_fn(u32, u32) -> bool,
    rules: ArithmeticRules,
    left: TensorModel,
    right: TensorModel,
    passed: TensorModel,
    upstream: TensorModel,
    tl: bool,
    tr: bool,
    wanted: TensorModel,
    made: TensorModel,
)
    requires
        rules.describe::<A>(),
        keeps(close, rules),
        left.wf(),
        right.wf(),
        passed.wf(),
        near_tensors(close, passed, upstream),
        multipliable(left.shape, right.shape, tl, tr),
        passed.shape == product_shape(left.shape, right.shape, tl, tr),
        right_derivative::<A>(left, right, upstream, tl, tr, wanted),
        made == if tr {
            matrix_product(rules, passed, left, true, tl)
        } else {
            matrix_product(rules, left, passed, !tl, false)
        },
    ensures
        near_tensors(close, made, wanted),
{
    let columns = right_dims(right.shape, tr).1 as int;
    let rows = left_dims(left.shape, tl).0 as int;
    let width = right.shape[1] as int;
    lemma_matrix_extent(right.shape);
    lemma_matrix_extent(passed.shape);
    assert(made.shape =~= right.shape);
    assert(made.data.len() == right.shape[0] * right.shape[1]) by {
        assert(right.shape[0] as nat * right.shape[1] as nat == right.shape[0] * right.shape[1]);
    }
    assert forall|k: int| 0 <= k < made.data.len() implies near(
        close,
        made.data[k],
        #[trigger] wanted.data[k],
    ) by {
        let (inner, column) = right_place(right.shape, tr, k);
        lemma_place_within(right.shape[0] as int, width, k);
        lemma_right_slope::<A>(
            close,
            rules,
            passed,
            upstream,
            left,
            tl,
            columns,
            inner,
            column,
            rows as nat,
            wanted.data[k],
        );
    }
}

/// A place in a matrix has a row and a column of it.
proof fn lemma_place_within(rows: int, columns: int, at: int)
    requires
        0 <= at < rows * columns,
        0 <= rows,
        0 <= columns,
    ensures
        0 <= at / columns < rows,
        0 <= at % columns < columns,
{
    assert(columns > 0) by (nonlinear_arith)
        requires
            0 <= at < rows * columns,
            0 <= columns,
    ;
    assert(0 <= at / columns < rows) by (nonlinear_arith)
        requires
            0 <= at < rows * columns,
            columns > 0,
    ;
}

/// A row of a matrix lies within it.
proof fn lemma_matrix_row(rows: int, columns: int, row: int)
    requires
        0 <= row < rows,
        0 <= columns,
    ensures
        0 <= row * columns,
        row * columns + columns <= rows * columns,
{
    assert(0 <= row * columns && row * columns + columns <= rows * columns) by (nonlinear_arith)
        requires
            0 <= row < rows,
            0 <= columns,
    ;
}

/// A matrix product hands on the products of its derivative with the other factor.
proof fn lemma_matmul_step<A: F32Arithmetic>(
    close: spec_fn(u32, u32) -> bool,
    rules: ArithmeticRules,
    graph: Graph,
    originals: Seq<Tensor>,
    nodes: Seq<NodeSketch>,
    values: Seq<TensorModel>,
    tape: Tape,
    state: Seq<Option<TensorModel>>,
    at: int,
    after: Seq<Option<TensorModel>>,
    scale: u32,
)
    requires
        at_node::<A>(close, rules, graph, originals, nodes, values, tape, state, at, after),
        graph.nodes@[at].op is MatMul,
        begins(tape.backed(nodes[at].op, tape.gradients[at]->Some_0, scale), nodes),
    ensures
        in_step(
            close,
            tape.backed(nodes[at].op, tape.gradients[at]->Some_0, scale),
            nodes,
            values,
            after,
        ),
{
    lemma_node_operands::<A>(close, rules, graph, originals, nodes, values, tape, state, at);
    if let Op::MatMul(a, b, tl, tr) = graph.nodes@[at].op {
        let op = graph.nodes@[at].op;
        assert(reads(op)[0] == a && reads(op)[1] == b);
        let gradient = tape.gradients[at]->Some_0;
        let upstream = state[at]->Some_0;
        let passed = values[gradient.index as int];
        let (one, two) = (values[a.index as int], values[b.index as int]);
        let (left, right) = choose|left: TensorModel, right: TensorModel|
            {
                &&& #[trigger] left_derivative::<A>(
                    originals[a.index as int]@,
                    originals[b.index as int]@,
                    upstream,
                    tl,
                    tr,
                    left,
                )
                &&& #[trigger] right_derivative::<A>(
                    originals[a.index as int]@,
                    originals[b.index as int]@,
                    upstream,
                    tl,
                    tr,
                    right,
                )
                &&& contributes_pair::<A>(state, a, left, b, right, after)
            };
        let by_left = if tl {
            tape.with_matmul(b, gradient, tr, true)
        } else {
            tape.with_matmul(gradient, b, false, !tr)
        };
        let by_right = if tr {
            by_left.with_matmul(gradient, a, true, tl)
        } else {
            by_left.with_matmul(a, gradient, !tl, false)
        };
        lemma_pair_begins(nodes, by_right, a, by_left.latest(), b, by_right.latest());
        if tr {
            lemma_product_recorded(rules, nodes, values, by_left, gradient, a, true, tl);
        } else {
            lemma_product_recorded(rules, nodes, values, by_left, a, gradient, !tl, false);
        }
        if tl {
            lemma_product_recorded(rules, nodes, values, tape, b, gradient, tr, true);
        } else {
            lemma_product_recorded(rules, nodes, values, tape, gradient, b, false, !tr);
        }
        lemma_still_in_step(close, nodes, values, tape, by_right, state);
        lemma_left_derivative::<A>(
            close,
            rules,
            one,
            two,
            passed,
            upstream,
            tl,
            tr,
            left,
            values[tape.nodes.len() as int],
        );
        lemma_right_derivative::<A>(
            close,
            rules,
            one,
            two,
            passed,
            upstream,
            tl,
            tr,
            right,
            values[by_left.nodes.len() as int],
        );
        lemma_contributions::<A>(
            close,
            rules,
            nodes,
            values,
            by_right,
            state,
            (a, by_left.latest(), left),
            (b, by_right.latest(), right),
            after,
        );
    }
}

/// The node that the sweep stands at hands its derivative on.
proof fn lemma_node_step<A: F32Arithmetic>(
    close: spec_fn(u32, u32) -> bool,
    rules: ArithmeticRules,
    graph: Graph,
    originals: Seq<Tensor>,
    nodes: Seq<NodeSketch>,
    values: Seq<TensorModel>,
    tape: Tape,
    state: Seq<Option<TensorModel>>,
    at: int,
    after: Seq<Option<TensorModel>>,
    scale: u32,
)
    requires
        at_node::<A>(close, rules, graph, originals, nodes, values, tape, state, at, after),
        graph.nodes@[at].op is MeanSquaredError ==> {
            &&& state[at] == Some(TensorModel::scalar(ONE_BITS))
            &&& scales_closely(close, rules, graph, values, at)
            &&& scale == (rules.quotient)(
                TWO_BITS,
                (rules.from_count)(averaged_over(graph, at) as usize),
            )
        },
        begins(tape.backed(nodes[at].op, tape.gradients[at]->Some_0, scale), nodes),
    ensures
        in_step(
            close,
            tape.backed(nodes[at].op, tape.gradients[at]->Some_0, scale),
            nodes,
            values,
            after,
        ),
{
    assert(nodes[at].op == op_sketch(graph.nodes@[at].op));
    match graph.nodes@[at].op {
        Op::Add(_, _) => {
            lemma_add_step::<A>(
                close,
                rules,
                graph,
                originals,
                nodes,
                values,
                tape,
                state,
                at,
                after,
                scale,
            );
        },
        Op::Sub(_, _) => {
            lemma_sub_step::<A>(
                close,
                rules,
                graph,
                originals,
                nodes,
                values,
                tape,
                state,
                at,
                after,
                scale,
            );
        },
        Op::Mul(_, _) => {
            lemma_mul_step::<A>(
                close,
                rules,
                graph,
                originals,
                nodes,
                values,
                tape,
                state,
                at,
                after,
                scale,
            );
        },
        Op::SgdUpdate(_, _, _) => {
            lemma_sgd_step::<A>(
                close,
                rules,
                graph,
                originals,
                nodes,
                values,
                tape,
                state,
                at,
                after,
                scale,
            );
        },
        Op::MatMul(_, _, _, _) => {
            lemma_matmul_step::<A>(
                close,
                rules,
                graph,
                originals,
                nodes,
                values,
                tape,
                state,
                at,
                after,
                scale,
            );
        },
        Op::Relu(_) => {
            lemma_relu_step::<A>(
                close,
                rules,
                graph,
                originals,
                nodes,
                values,
                tape,
                state,
                at,
                after,
                scale,
            );
        },
        Op::MeanSquaredError(_, _) => {
            lemma_loss_step::<A>(
                close,
                rules,
                graph,
                originals,
                nodes,
                values,
                tape,
                state,
                at,
                after,
                scale,
            );
        },
        _ => {},
    }
}

/// A tape before one more node begins the nodes where the tape after it does.
proof fn lemma_recording_begins(nodes: Seq<NodeSketch>, tape: Tape, op: OpSketch, shape: Seq<usize>)
    requires
        begins(tape.recorded(op, shape), nodes),
    ensures
        begins(tape, nodes),
{
    let grown = tape.recorded(op, shape);
    assert forall|i: int| 0 <= i < tape.nodes.len() implies #[trigger] tape.nodes[i] == nodes[i] by {
        assert(grown.nodes[i] == nodes[i]);
    }
}

/// The tape before a derivative is handed on begins the nodes where the tape after it does.
proof fn lemma_backing_begins(
    nodes: Seq<NodeSketch>,
    tape: Tape,
    op: OpSketch,
    gradient: ValueId,
    scale: u32,
)
    requires
        begins(tape.backed(op, gradient, scale), nodes),
    ensures
        begins(tape, nodes),
{
    match op {
        OpSketch::Add(a, b) => {
            lemma_pair_begins(nodes, tape, a, gradient, b, gradient);
        },
        OpSketch::Sub(a, b) => {
            let left = tape.accumulated(a, gradient);
            let negative = left.with_filled(b, MINUS_ONE_BITS);
            let product = negative.with_product(gradient, negative.latest());
            lemma_accumulation_begins(nodes, product, b, product.latest());
            lemma_recording_begins(
                nodes,
                negative,
                OpSketch::Mul(gradient, negative.latest()),
                negative.shape_of(gradient),
            );
            lemma_recording_begins(
                nodes,
                left,
                OpSketch::Constant(flooded(left.shape_of(b), MINUS_ONE_BITS)),
                left.shape_of(b),
            );
            lemma_accumulation_begins(nodes, tape, a, gradient);
        },
        OpSketch::Mul(a, b) => {
            let left = tape.with_product(gradient, b);
            let right = left.with_product(gradient, a);
            lemma_pair_begins(nodes, right, a, left.latest(), b, right.latest());
            lemma_recording_begins(
                nodes,
                left,
                OpSketch::Mul(gradient, a),
                left.shape_of(gradient),
            );
            lemma_recording_begins(
                nodes,
                tape,
                OpSketch::Mul(gradient, b),
                tape.shape_of(gradient),
            );
        },
        OpSketch::SgdUpdate(weights, update, rate) => {
            let factor = tape.with_filled(update, negated(rate));
            let product = factor.with_product(gradient, factor.latest());
            lemma_pair_begins(nodes, product, weights, gradient, update, product.latest());
            lemma_recording_begins(
                nodes,
                factor,
                OpSketch::Mul(gradient, factor.latest()),
                factor.shape_of(gradient),
            );
            lemma_recording_begins(
                nodes,
                tape,
                OpSketch::Constant(flooded(tape.shape_of(update), negated(rate))),
                tape.shape_of(update),
            );
        },
        OpSketch::MatMul(a, b, tl, tr) => {
            let left = if tl {
                tape.with_matmul(b, gradient, tr, true)
            } else {
                tape.with_matmul(gradient, b, false, !tr)
            };
            let right = if tr {
                left.with_matmul(gradient, a, true, tl)
            } else {
                left.with_matmul(a, gradient, !tl, false)
            };
            lemma_pair_begins(nodes, right, a, left.latest(), b, right.latest());
            let (one, two) = (left.nodes.last(), right.nodes.last());
            assert(right == left.recorded(two.op, two.shape));
            assert(left == tape.recorded(one.op, one.shape));
            lemma_recording_begins(nodes, left, two.op, two.shape);
            lemma_recording_begins(nodes, tape, one.op, one.shape);
        },
        OpSketch::MeanSquaredError(a, b) => {
            let factor = tape.with_filled(a, scale);
            let forward = factor.with_difference(a, b);
            let reverse = forward.with_difference(b, a);
            let left = reverse.with_product(forward.latest(), factor.latest());
            let right = left.with_product(reverse.latest(), factor.latest());
            lemma_pair_begins(nodes, right, a, left.latest(), b, right.latest());
            lemma_recording_begins(
                nodes,
                left,
                OpSketch::Mul(reverse.latest(), factor.latest()),
                left.shape_of(reverse.latest()),
            );
            lemma_recording_begins(
                nodes,
                reverse,
                OpSketch::Mul(forward.latest(), factor.latest()),
                reverse.shape_of(forward.latest()),
            );
            lemma_recording_begins(nodes, forward, OpSketch::Sub(b, a), forward.shape_of(b));
            lemma_recording_begins(nodes, factor, OpSketch::Sub(a, b), factor.shape_of(a));
            lemma_recording_begins(
                nodes,
                tape,
                OpSketch::Constant(flooded(tape.shape_of(a), scale)),
                tape.shape_of(a),
            );
        },
        OpSketch::Relu(x) => {
            let gate = tape.recorded(OpSketch::ReluBackward(x, gradient), tape.shape_of(x));
            lemma_accumulation_begins(nodes, gate, x, gate.latest());
            lemma_recording_begins(
                nodes,
                tape,
                OpSketch::ReluBackward(x, gradient),
                tape.shape_of(x),
            );
        },
        _ => {},
    }
}

/// The tape once the derivatives of the nodes from `root` down to `at` have been handed on.
spec fn wound_back(start: Tape, root: int, at: int, scale: u32) -> Tape
    decreases root + 1 - at,
{
    if at > root {
        start
    } else {
        let before = wound_back(start, root, at + 1, scale);
        match before.gradients[at] {
            None => before,
            Some(gradient) => before.backed(before.nodes[at].op, gradient, scale),
        }
    }
}

/// Winding back node by node ends where rewinding the whole tape does.
proof fn lemma_wound_back(start: Tape, root: int, at: int, scale: u32)
    requires
        0 <= at <= root + 1,
    ensures
        start.rewound((root + 1) as nat, scale) == wound_back(start, root, at, scale).rewound(
            at as nat,
            scale,
        ),
    decreases root + 1 - at,
{
    if at <= root {
        lemma_wound_back(start, root, at + 1, scale);
        assert(((at + 1) as nat - 1) as nat == at as nat);
    }
}

/// Every stage of the winding begins the nodes where the last one does.
proof fn lemma_stages_begin(nodes: Seq<NodeSketch>, start: Tape, root: int, at: int, scale: u32)
    requires
        0 <= at <= root + 1,
        begins(wound_back(start, root, 0, scale), nodes),
    ensures
        begins(wound_back(start, root, at, scale), nodes),
    decreases at,
{
    if at > 0 {
        lemma_stages_begin(nodes, start, root, at - 1, scale);
        let before = wound_back(start, root, at, scale);
        if let Some(gradient) = before.gradients[at - 1] {
            lemma_backing_begins(nodes, before, before.nodes[at - 1].op, gradient, scale);
        }
    }
}

/// A derivative that the sweep holds is never dropped.
proof fn lemma_passing_keeps<A: F32Arithmetic>(
    graph: Graph,
    originals: Seq<Tensor>,
    before: Seq<Option<TensorModel>>,
    at: int,
    after: Seq<Option<TensorModel>>,
)
    requires
        graph.wf(),
        0 <= at < graph.nodes@.len(),
        before.len() == graph.nodes@.len(),
        passes_on::<A>(graph, originals, before, at, after),
    ensures
        after.len() == before.len(),
        forall|i: int|
            0 <= i < before.len() && (#[trigger] before[i]) is Some ==> after[i] is Some,
{
    let op = graph.nodes@[at].op;
    assert(node_wf(graph.id, graph.nodes@, at));
    if reads(op).len() > 0 {
        assert(precedes(graph.id, at, reads(op)[0]));
    }
    if reads(op).len() > 1 {
        assert(precedes(graph.id, at, reads(op)[1]));
    }
}

proof fn lemma_swept_length<A: F32Arithmetic>(
    graph: Graph,
    originals: Seq<Tensor>,
    root: int,
    at: int,
    state: Seq<Option<TensorModel>>,
)
    requires
        graph.wf(),
        0 <= at <= root + 1 <= graph.nodes@.len(),
        swept::<A>(graph, originals, root, at, state),
    ensures
        state.len() == graph.nodes@.len(),
    decreases root + 1 - at,
{
    if at <= root {
        let before = choose|before: Seq<Option<TensorModel>>|
            {
                &&& swept::<A>(graph, originals, root, at + 1, before)
                &&& #[trigger] passes_on::<A>(graph, originals, before, at, state)
            };
        lemma_swept_length::<A>(graph, originals, root, at + 1, before);
        lemma_passing_keeps::<A>(graph, originals, before, at, state);
    }
}

/// Tape and sweep start in step.
proof fn lemma_start(
    close: spec_fn(u32, u32) -> bool,
    rules: ArithmeticRules,
    graph: Graph,
    originals: Seq<Tensor>,
    nodes: Seq<NodeSketch>,
    values: Seq<TensorModel>,
    root: int,
)
    requires
        keeps(close, rules),
        grown_from(rules, graph, originals, nodes, values),
        0 <= root < graph.nodes@.len(),
        graph.nodes@[root].shape@.len() == 0,
        begins(Tape::begun(graph, root), nodes),
    ensures
        in_step(
            close,
            Tape::begun(graph, root),
            nodes,
            values,
            seeded(graph.nodes@.len(), root),
        ),
{
    let start = Tape::begun(graph, root);
    let state = seeded(graph.nodes@.len(), root);
    let n = graph.nodes@.len() as int;
    assert(start.nodes[n] == nodes[n]);
    assert(values[n].wf());
    assert(values[n] == TensorModel::scalar(ONE_BITS));
    assert(nodes[root].shape == graph.nodes@[root].shape@);
    assert(nodes[root].shape =~= Seq::<usize>::empty());
    assert forall|i: int| 0 <= i < state.len() implies stands_for(
        close,
        start,
        nodes,
        values,
        i,
        #[trigger] state[i],
    ) by {}
}

/// Tape and sweep stay in step from node to node.
proof fn lemma_sweep<A: F32Arithmetic>(
    close: spec_fn(u32, u32) -> bool,
    rules: ArithmeticRules,
    graph: Graph,
    originals: Seq<Tensor>,
    nodes: Seq<NodeSketch>,
    values: Seq<TensorModel>,
    root: int,
    at: int,
    state: Seq<Option<TensorModel>>,
    scale: u32,
)
    requires
        rules.describe::<A>(),
        keeps(close, rules),
        grown_from(rules, graph, originals, nodes, values),
        0 <= root < graph.nodes@.len(),
        0 <= at <= root + 1,
        graph.nodes@[root].op is MeanSquaredError,
        scales_closely(close, rules, graph, values, root),
        scale == (rules.quotient)(
            TWO_BITS,
            (rules.from_count)(averaged_over(graph, root) as usize),
        ),
        begins(wound_back(Tape::begun(graph, root), root, 0, scale), nodes),
        swept::<A>(graph, originals, root, at, state),
        forall|i: int|
            0 <= i < state.len() && (#[trigger] state[i]) is Some ==> !nested_loss(
                graph.nodes@,
                root,
                i,
            ),
    ensures
        in_step(
            close,
            wound_back(Tape::begun(graph, root), root, at, scale),
            nodes,
            values,
            state,
        ),
    decreases root + 1 - at,
{
    let start = Tape::begun(graph, root);
    lemma_stages_begin(nodes, start, root, at, scale);
    if at > root {
        assert(node_wf(graph.id, graph.nodes@, root));
        lemma_start(close, rules, graph, originals, nodes, values, root);
    } else {
        let before = choose|before: Seq<Option<TensorModel>>|
            {
                &&& swept::<A>(graph, originals, root, at + 1, before)
                &&& #[trigger] passes_on::<A>(graph, originals, before, at, state)
            };
        lemma_swept_length::<A>(graph, originals, root, at + 1, before);
        lemma_passing_keeps::<A>(graph, originals, before, at, state);
        assert forall|i: int|
            0 <= i < before.len() && (#[trigger] before[i]) is Some implies !nested_loss(
            graph.nodes@,
            root,
            i,
        ) by {
            assert(state[i] is Some);
        }
        lemma_sweep::<A>(
            close,
            rules,
            graph,
            originals,
            nodes,
            values,
            root,
            at + 1,
            before,
            scale,
        );
        let tape = wound_back(start, root, at + 1, scale);
        assert(stands_for(close, tape, nodes, values, at, before[at]));
        if before[at] is Some {
            assert(tape.nodes[at] == nodes[at]);
            assert(!nested_loss(graph.nodes@, root, at));
            lemma_node_step::<A>(
                close,
                rules,
                graph,
                originals,
                nodes,
                values,
                tape,
                before,
                at,
                state,
                scale,
            );
        }
    }
}

/// The values of an evaluation follow from the values before them.
proof fn lemma_evaluated<A: F32Arithmetic>(
    rules: ArithmeticRules,
    after: Graph,
    inputs: Seq<(ValueId, Tensor)>,
    grown: Execution,
)
    requires
        after.wf(),
        evaluation_answer::<A>(after, inputs, Ok(grown)),
        rules.describe::<A>(),
    ensures
        evaluated(rules, sketches(after.nodes@), tensor_models(grown.values@)),
{
    let nodes = sketches(after.nodes@);
    let values = tensor_models(grown.values@);
    assert forall|i: int| 0 <= i < nodes.len() implies {
        &&& (#[trigger] values[i]).wf()
        &&& values[i].shape == nodes[i].shape
        &&& !(nodes[i].op is Input) ==> values[i] == rules.result(
            nodes[i].op,
            nodes[i].shape,
            values,
        )
    } by {
        assert(grown.values@[i].wf());
        if !(after.nodes@[i].op is Input) {
            assert(computes::<A>(after, inputs, grown.values@.take(i), i, grown.values@[i]@));
            lemma_computed_result::<A>(after, inputs, grown.values@, i, rules);
        }
    }
}

/// Two evaluations from the same inputs, one of a graph and one of what it has grown into.
proof fn lemma_grown<A: F32Arithmetic>(
    rules: ArithmeticRules,
    before: Graph,
    after: Graph,
    inputs: Seq<(ValueId, Tensor)>,
    execution: Execution,
    grown: Execution,
)
    requires
        before.wf(),
        after.wf(),
        after.id == before.id,
        before.nodes@.len() <= after.nodes@.len(),
        after.nodes@.take(before.nodes@.len() as int) == before.nodes@,
        evaluation_answer::<A>(before, inputs, Ok(execution)),
        evaluation_answer::<A>(after, inputs, Ok(grown)),
        rules.describe::<A>(),
    ensures
        grown_from(
            rules,
            before,
            execution.values@,
            sketches(after.nodes@),
            tensor_models(grown.values@),
        ),
{
    let n = before.nodes@.len() as int;
    let nodes = sketches(after.nodes@);
    let values = tensor_models(grown.values@);
    let originals = execution.values@;
    lemma_evaluated::<A>(rules, after, inputs, grown);
    assert forall|i: int| 0 <= i < n implies {
        &&& (#[trigger] nodes[i]).op == op_sketch(before.nodes@[i].op)
        &&& nodes[i].shape == before.nodes@[i].shape@
        &&& originals[i]@ == values[i]
    } by {
        assert(after.nodes@.take(n)[i] == before.nodes@[i]);
        law_evaluation_is_deterministic::<A>(before, after, inputs, execution, grown, rules, i);
    }
}

/// Scaling comes close on the values of the grown graph where it does on those of the first one.
proof fn lemma_still_close(
    close: spec_fn(u32, u32) -> bool,
    rules: ArithmeticRules,
    graph: Graph,
    originals: Seq<Tensor>,
    nodes: Seq<NodeSketch>,
    values: Seq<TensorModel>,
    loss: int,
)
    requires
        grown_from(rules, graph, originals, nodes, values),
        0 <= loss < graph.nodes@.len(),
        scales_closely(close, rules, graph, tensor_models(originals), loss),
    ensures
        scales_closely(close, rules, graph, values, loss),
{
    assert(node_wf(graph.id, graph.nodes@, loss));
    let models = tensor_models(originals);
    let op = graph.nodes@[loss].op;
    if let Op::MeanSquaredError(a, b) = op {
        assert(reads(op)[0] == a && reads(op)[1] == b);
        assert(precedes(graph.id, loss, reads(op)[0]) && precedes(graph.id, loss, reads(op)[1]));
        let (left, right) = (a.index as int, b.index as int);
        assert(nodes[left].op == op_sketch(graph.nodes@[left].op));
        assert(nodes[right].op == op_sketch(graph.nodes@[right].op));
        assert(models[left] == values[left] && models[right] == values[right]);
        assert forall|k: int|
            0 <= k < values[left].data.len() implies #[trigger] scales_closely_at(
            close,
            rules,
            values[left].data,
            values[right].data,
            k,
        ) by {
            assert(scales_closely_at(close, rules, models[left].data, models[right].data, k));
        }
    }
}

/// Tape and sweep end in step.
proof fn lemma_derivatives_in_step<A: F32Arithmetic>(
    close: spec_fn(u32, u32) -> bool,
    rules: ArithmeticRules,
    before: Graph,
    loss: ValueId,
    after: Graph,
    gradients: Vec<Option<ValueId>>,
    originals: Seq<Tensor>,
    values: Seq<TensorModel>,
    state: Seq<Option<TensorModel>>,
)
    requires
        before.wf(),
        backward_answer::<A>(before, loss, after, Ok(gradients)),
        grown_from(rules, before, originals, sketches(after.nodes@), values),
        rules.describe::<A>(),
        keeps(close, rules),
        scales_closely(close, rules, before, values, loss.index as int),
        swept::<A>(before, originals, loss.index as int, 0, state),
        forall|i: int|
            0 <= i < state.len() && (#[trigger] state[i]) is Some ==> reaches(
                before.nodes@,
                loss.index as int,
                i,
            ),
    ensures
        in_step(close, tape_of(after, gradients@), sketches(after.nodes@), values, state),
        state.len() == before.nodes@.len(),
{
    let root = loss.index as int;
    let nodes = sketches(after.nodes@);
    let (denominator, scale) = choose|denominator: u32, scale: u32|
        {
            &&& #[trigger] counts::<A>(averaged_over(before, root) as usize, denominator)
            &&& #[trigger] divides::<A>(TWO_BITS, denominator, scale)
            &&& tape_of(after, gradients@) == Tape::begun(before, root).rewound(
                (root + 1) as nat,
                scale,
            )
        };
    let start = Tape::begun(before, root);
    lemma_wound_back(start, root, 0, scale);
    assert(wound_back(start, root, 0, scale) == tape_of(after, gradients@));
    lemma_swept_length::<A>(before, originals, root, 0, state);
    law_nested_losses_block(before, loss.index);
    assert forall|i: int| 0 <= i < state.len() && (#[trigger] state[i]) is Some implies !nested_loss(
        before.nodes@,
        root,
        i,
    ) by {
        assert(reaches(before.nodes@, root, i));
    }
    lemma_sweep::<A>(close, rules, before, originals, nodes, values, root, 0, state, scale);
}

/// A contribution to one of the first derivatives is one to the shorter list of them.
proof fn lemma_shorter_contribution<A: F32Arithmetic>(
    before: Seq<Option<TensorModel>>,
    target: ValueId,
    addition: TensorModel,
    after: Seq<Option<TensorModel>>,
    count: int,
)
    requires
        target.index < count <= before.len(),
        contributes::<A>(before, target, addition, after),
    ensures
        after.len() == before.len(),
        contributes::<A>(before.take(count), target, addition, after.take(count)),
{
    let at = target.index as int;
    let sum = choose|sum: TensorModel|
        {
            &&& #[trigger] accumulated::<A>(before[at], addition, sum)
            &&& after == before.update(at, Some(sum))
        };
    assert(accumulated::<A>(before.take(count)[at], addition, sum));
    assert(after.take(count) =~= before.take(count).update(at, Some(sum)));
}

proof fn lemma_shorter_contributions<A: F32Arithmetic>(
    before: Seq<Option<TensorModel>>,
    first: (ValueId, TensorModel),
    second: (ValueId, TensorModel),
    after: Seq<Option<TensorModel>>,
    count: int,
)
    requires
        first.0.index < count <= before.len(),
        second.0.index < count,
        contributes_pair::<A>(before, first.0, first.1, second.0, second.1, after),
    ensures
        after.len() == before.len(),
        contributes_pair::<A>(
            before.take(count),
            first.0,
            first.1,
            second.0,
            second.1,
            after.take(count),
        ),
{
    let between = choose|between: Seq<Option<TensorModel>>|
        {
            &&& #[trigger] contributes::<A>(before, first.0, first.1, between)
            &&& contributes::<A>(between, second.0, second.1, after)
        };
    lemma_shorter_contribution::<A>(before, first.0, first.1, between, count);
    lemma_shorter_contribution::<A>(between, second.0, second.1, after, count);
}

/// A node of the first graph hands its derivative on alike in the grown one.
proof fn lemma_shorter_step<A: F32Arithmetic>(
    graph: Graph,
    grown: Graph,
    values: Seq<Tensor>,
    before: Seq<Option<TensorModel>>,
    at: int,
    after: Seq<Option<TensorModel>>,
)
    requires
        graph.wf(),
        graph.nodes@.len() <= grown.nodes@.len(),
        grown.nodes@.take(graph.nodes@.len() as int) == graph.nodes@,
        values.len() == before.len() == grown.nodes@.len(),
        0 <= at < graph.nodes@.len(),
        passes_on::<A>(grown, values, before, at, after),
    ensures
        after.len() == before.len(),
        passes_on::<A>(
            graph,
            values.take(graph.nodes@.len() as int),
            before.take(graph.nodes@.len() as int),
            at,
            after.take(graph.nodes@.len() as int),
        ),
{
    let n = graph.nodes@.len() as int;
    let op = graph.nodes@[at].op;
    let short = values.take(n);
    assert(grown.nodes@.take(n)[at] == grown.nodes@[at]);
    assert(node_wf(graph.id, graph.nodes@, at));
    if reads(op).len() > 0 {
        assert(precedes(graph.id, at, reads(op)[0]));
    }
    if reads(op).len() > 1 {
        assert(precedes(graph.id, at, reads(op)[1]));
    }
    if let Some(upstream) = before[at] {
        match op {
            Op::Add(a, b) => {
                lemma_shorter_contributions::<A>(before, (a, upstream), (b, upstream), after, n);
            },
            Op::Sub(a, b) => {
                lemma_shorter_contributions::<A>(
                    before,
                    (a, upstream),
                    (b, flipped(upstream)),
                    after,
                    n,
                );
            },
            Op::Mul(a, b) => {
                let (left, right) = choose|left: TensorModel, right: TensorModel|
                    {
                        &&& #[trigger] scales::<A>(upstream, values[b.index as int]@, left)
                        &&& #[trigger] scales::<A>(upstream, values[a.index as int]@, right)
                        &&& contributes_pair::<A>(before, a, left, b, right, after)
                    };
                lemma_shorter_contributions::<A>(before, (a, left), (b, right), after, n);
                assert(scales::<A>(upstream, short[b.index as int]@, left));
                assert(scales::<A>(upstream, short[a.index as int]@, right));
            },
            Op::SgdUpdate(a, b, rate) => {
                let scaled = choose|scaled: TensorModel|
                    {
                        &&& #[trigger] scaled_by::<A>(negated(rate), upstream, scaled)
                        &&& contributes_pair::<A>(before, a, upstream, b, scaled, after)
                    };
                lemma_shorter_contributions::<A>(before, (a, upstream), (b, scaled), after, n);
            },
            Op::Relu(x) => {
                lemma_shorter_contribution::<A>(
                    before,
                    x,
                    gated(values[x.index as int]@, upstream),
                    after,
                    n,
                );
            },
            Op::MeanSquaredError(a, b) => {
                let (divisor, left, right) = choose|
                    divisor: u32,
                    left: TensorModel,
                    right: TensorModel,
                |
                    {
                        &&& #[trigger] counts::<A>(
                            values[a.index as int].data@.len() as usize,
                            divisor,
                        )
                        &&& #[trigger] slopes::<A>(
                            values[a.index as int]@,
                            values[b.index as int]@,
                            divisor,
                            upstream.data[0],
                            left,
                        )
                        &&& #[trigger] slopes::<A>(
                            values[b.index as int]@,
                            values[a.index as int]@,
                            divisor,
                            upstream.data[0],
                            right,
                        )
                        &&& contributes_pair::<A>(before, a, left, b, right, after)
                    };
                lemma_shorter_contributions::<A>(before, (a, left), (b, right), after, n);
                let (one, two) = (short[a.index as int], short[b.index as int]);
                assert(counts::<A>(one.data@.len() as usize, divisor));
                assert(slopes::<A>(one@, two@, divisor, upstream.data[0], left));
                assert(slopes::<A>(two@, one@, divisor, upstream.data[0], right));
            },
            Op::MatMul(a, b, tl, tr) => {
                let (left, right) = choose|left: TensorModel, right: TensorModel|
                    {
                        &&& #[trigger] left_derivative::<A>(
                            values[a.index as int]@,
                            values[b.index as int]@,
                            upstream,
                            tl,
                            tr,
                            left,
                        )
                        &&& #[trigger] right_derivative::<A>(
                            values[a.index as int]@,
                            values[b.index as int]@,
                            upstream,
                            tl,
                            tr,
                            right,
                        )
                        &&& contributes_pair::<A>(before, a, left, b, right, after)
                    };
                lemma_shorter_contributions::<A>(before, (a, left), (b, right), after, n);
                let (one, two) = (short[a.index as int], short[b.index as int]);
                assert(left_derivative::<A>(one@, two@, upstream, tl, tr, left));
                assert(right_derivative::<A>(one@, two@, upstream, tl, tr, right));
            },
            _ => {},
        }
    }
}

/// What a node of the first graph needs in the grown one it needs in the first.
proof fn lemma_prefix_reaches(nodes: Seq<Node>, grown: Seq<Node>, from: int, to: int)
    requires
        nodes.len() <= grown.len(),
        grown.take(nodes.len() as int) == nodes,
        0 <= from < nodes.len(),
        reaches(grown, from, to),
    ensures
        reaches(nodes, from, to),
    decreases from,
{
    assert(grown.take(nodes.len() as int)[from] == grown[from]);
    if from != to {
        let read = reads(nodes[from].op);
        let k = choose|k: int|
            0 <= k < read.len() && 0 <= (#[trigger] read[k]).index < from && reaches(
                grown,
                read[k].index as int,
                to,
            );
        lemma_prefix_reaches(nodes, grown, read[k].index as int, to);
    }
}

/// What a node of the first graph needs there it needs in the grown one.
proof fn lemma_grown_reaches(nodes: Seq<Node>, grown: Seq<Node>, from: int, to: int)
    requires
        nodes.len() <= grown.len(),
        grown.take(nodes.len() as int) == nodes,
        0 <= from < nodes.len(),
        reaches(nodes, from, to),
    ensures
        reaches(grown, from, to),
    decreases from,
{
    assert(grown.take(nodes.len() as int)[from] == grown[from]);
    if from != to {
        let read = reads(nodes[from].op);
        let k = choose|k: int|
            0 <= k < read.len() && 0 <= (#[trigger] read[k]).index < from && reaches(
                nodes,
                read[k].index as int,
                to,
            );
        lemma_grown_reaches(nodes, grown, read[k].index as int, to);
        assert(reads(grown[from].op)[k] == read[k]);
    }
}

/// Whatever the arithmetic, a generated backward graph names a derivative exactly where the
/// reference has one, and the value that it names has the derivative's shape.
pub proof fn law_backward_graphs_name_every_derivative<A: F32Arithmetic>(
    before: Graph,
    loss: ValueId,
    after: Graph,
    gradients: Vec<Option<ValueId>>,
    grown: Execution,
    derivatives: Vec<Option<Tensor>>,
    at: int,
)
    requires
        before.wf(),
        backward_answer::<A>(before, loss, after, Ok(gradients)),
        gradients_answer::<A>(grown, after, loss, Ok(derivatives)),
        0 <= at < before.nodes@.len(),
    ensures
        match (gradients@[at], derivatives@[at]) {
            (None, None) => true,
            (Some(value), Some(derivative)) => after.knows(value) && after.shape_of(value)
                == derivative@.shape,
            _ => false,
        },
{
    let (nodes, root) = (before.nodes@, loss.index as int);
    let n = nodes.len() as int;
    assert(gradients@.len() == n);
    assert(gradient_models(derivatives@).len() == derivatives@.len());
    assert(after.nodes@.take(n)[at] == after.nodes@[at]);
    if reaches(nodes, root, at) {
        lemma_grown_reaches(nodes, after.nodes@, root, at);
    }
    if reaches(after.nodes@, root, at) {
        lemma_prefix_reaches(nodes, after.nodes@, root, at);
    }
    assert(gradients@[at] is Some <==> reaches(nodes, root, at));
    assert(derivatives@[at] is Some <==> reaches(after.nodes@, root, at));
    assert(gradient_models(derivatives@)[at] is Some <==> derivatives@[at] is Some);
}

/// Differentiating the grown graph sweeps its first nodes as differentiating the first graph does.
proof fn lemma_shorter_sweep<A: F32Arithmetic>(
    graph: Graph,
    grown: Graph,
    values: Seq<Tensor>,
    root: int,
    at: int,
    state: Seq<Option<TensorModel>>,
)
    requires
        graph.wf(),
        graph.nodes@.len() <= grown.nodes@.len(),
        grown.nodes@.take(graph.nodes@.len() as int) == graph.nodes@,
        values.len() == grown.nodes@.len(),
        0 <= at <= root + 1 <= graph.nodes@.len(),
        swept::<A>(grown, values, root, at, state),
    ensures
        state.len() == grown.nodes@.len(),
        swept::<A>(
            graph,
            values.take(graph.nodes@.len() as int),
            root,
            at,
            state.take(graph.nodes@.len() as int),
        ),
    decreases root + 1 - at,
{
    let n = graph.nodes@.len() as int;
    if at > root {
        assert(state.take(n) =~= seeded(graph.nodes@.len(), root));
    } else {
        let before = choose|before: Seq<Option<TensorModel>>|
            {
                &&& swept::<A>(grown, values, root, at + 1, before)
                &&& #[trigger] passes_on::<A>(grown, values, before, at, state)
            };
        lemma_shorter_sweep::<A>(graph, grown, values, root, at + 1, before);
        lemma_shorter_step::<A>(graph, grown, values, before, at, state);
    }
}

/// The value that a generated backward graph names comes close to the derivative. Where there is no
/// derivative, none is named.
pub open spec fn derivative_matches(
    close: spec_fn(u32, u32) -> bool,
    named: Option<ValueId>,
    grown: Execution,
    derivative: Option<Tensor>,
) -> bool {
    match (named, derivative) {
        (None, None) => true,
        (Some(value), Some(tensor)) => near_tensors(
            close,
            grown.values@[value.index as int]@,
            tensor@,
        ),
        _ => false,
    }
}

/// A generated backward graph stays close to the reference: it names a derivative exactly where the
/// reference has one, of the same shape, and evaluating it gives elements that are close to those
/// of the reference. Closeness may be anything that the operations keep, as long as scaling the
/// loss in the one order comes close to scaling it in the other.
pub proof fn law_backward_graphs_stay_close<A: F32Arithmetic>(
    close: spec_fn(u32, u32) -> bool,
    before: Graph,
    loss: ValueId,
    after: Graph,
    gradients: Vec<Option<ValueId>>,
    inputs: Seq<(ValueId, Tensor)>,
    execution: Execution,
    grown: Execution,
    derivatives: Vec<Option<Tensor>>,
    rules: ArithmeticRules,
    at: int,
)
    requires
        before.wf(),
        backward_answer::<A>(before, loss, after, Ok(gradients)),
        evaluation_answer::<A>(before, inputs, Ok(execution)),
        evaluation_answer::<A>(after, inputs, Ok(grown)),
        gradients_answer::<A>(execution, before, loss, Ok(derivatives)),
        rules.describe::<A>(),
        keeps(close, rules),
        scales_closely(close, rules, before, tensor_models(execution.values@), loss.index as int),
        0 <= at < before.nodes@.len(),
    ensures
        derivative_matches(close, gradients@[at], grown, derivatives@[at]),
{
    let nodes = sketches(after.nodes@);
    let values = tensor_models(grown.values@);
    let originals = execution.values@;
    let state = gradient_models(derivatives@);
    lemma_grown::<A>(rules, before, after, inputs, execution, grown);
    lemma_still_close(close, rules, before, originals, nodes, values, loss.index as int);
    lemma_derivatives_in_step::<A>(
        close,
        rules,
        before,
        loss,
        after,
        gradients,
        originals,
        values,
        state,
    );
    assert(stands_for(close, tape_of(after, gradients@), nodes, values, at, state[at]));
}

/// The same of the grown graph itself: one evaluation of it holds the values that the backward
/// graph computes, and differentiating that evaluation gives the reference derivatives.
pub proof fn law_grown_graphs_stay_close<A: F32Arithmetic>(
    close: spec_fn(u32, u32) -> bool,
    before: Graph,
    loss: ValueId,
    after: Graph,
    gradients: Vec<Option<ValueId>>,
    inputs: Seq<(ValueId, Tensor)>,
    grown: Execution,
    derivatives: Vec<Option<Tensor>>,
    rules: ArithmeticRules,
    at: int,
)
    requires
        before.wf(),
        backward_answer::<A>(before, loss, after, Ok(gradients)),
        evaluation_answer::<A>(after, inputs, Ok(grown)),
        gradients_answer::<A>(grown, after, loss, Ok(derivatives)),
        rules.describe::<A>(),
        keeps(close, rules),
        scales_closely(close, rules, before, tensor_models(grown.values@), loss.index as int),
        0 <= at < before.nodes@.len(),
    ensures
        derivative_matches(close, gradients@[at], grown, derivatives@[at]),
{
    let n = before.nodes@.len() as int;
    let nodes = sketches(after.nodes@);
    let values = tensor_models(grown.values@);
    let originals = grown.values@.take(n);
    let whole = gradient_models(derivatives@);
    let state = whole.take(n);
    lemma_evaluated::<A>(rules, after, inputs, grown);
    assert forall|i: int| 0 <= i < n implies {
        &&& (#[trigger] nodes[i]).op == op_sketch(before.nodes@[i].op)
        &&& nodes[i].shape == before.nodes@[i].shape@
        &&& originals[i]@ == values[i]
    } by {
        assert(after.nodes@.take(n)[i] == before.nodes@[i]);
    }
    lemma_shorter_sweep::<A>(before, after, grown.values@, loss.index as int, 0, whole);
    assert forall|i: int| 0 <= i < state.len() && (#[trigger] state[i]) is Some implies reaches(
        before.nodes@,
        loss.index as int,
        i,
    ) by {
        assert(whole[i] is Some);
        assert(reaches(after.nodes@, loss.index as int, i));
        lemma_prefix_reaches(before.nodes@, after.nodes@, loss.index as int, i);
    }
    lemma_derivatives_in_step::<A>(
        close,
        rules,
        before,
        loss,
        after,
        gradients,
        originals,
        values,
        state,
    );
    assert(stands_for(close, tape_of(after, gradients@), nodes, values, at, state[at]));
}

/// The same bits, or two NaNs.
pub open spec fn alike(one: u32, other: u32) -> bool {
    one == other || (nan(one) && nan(other))
}

/// Elements are close if they are alike.
pub open spec fn same_bits() -> spec_fn(u32, u32) -> bool {
    |one: u32, other: u32| alike(one, other)
}

/// NaNs aside, products do not depend on the order of their factors, and a factor of minus one
/// negates. The payload of a NaN makes no difference but to the payload of another.
pub open spec fn well_behaved(rules: ArithmeticRules) -> bool {
    &&& forall|x: u32, y: u32| alike(#[trigger] (rules.product)(x, y), (rules.product)(y, x))
    &&& forall|x: u32| alike((rules.product)(x, MINUS_ONE_BITS), #[trigger] negated(x))
    &&& forall|x: u32, y: u32, z: u32, w: u32|
        alike(x, z) && alike(y, w) ==> alike(
            #[trigger] (rules.sum)(x, y),
            #[trigger] (rules.sum)(z, w),
        )
    &&& forall|x: u32, y: u32, z: u32, w: u32|
        alike(x, z) && alike(y, w) ==> alike(
            #[trigger] (rules.product)(x, y),
            #[trigger] (rules.product)(z, w),
        )
}

/// Being alike is kept by arithmetic that is well behaved.
pub proof fn law_well_behaved_arithmetic_keeps_bits(rules: ArithmeticRules)
    requires
        well_behaved(rules),
    ensures
        keeps(same_bits(), rules),
{
    let close = same_bits();
    assert forall|x: u32, y: u32| near(
        close,
        #[trigger] (rules.product)(x, y),
        (rules.product)(y, x),
    ) by {
        assert(alike((rules.product)(x, y), (rules.product)(y, x)));
    }
}

/// A generated backward graph computes the reference derivatives: it names a derivative exactly
/// where the reference has one, and evaluating it gives the elements of the reference. Only the
/// factor of the mean squared error is rounded in another order, so this holds wherever scaling by
/// it is exact.
pub proof fn law_backward_graphs_compute_derivatives<A: F32Arithmetic>(
    before: Graph,
    loss: ValueId,
    after: Graph,
    gradients: Vec<Option<ValueId>>,
    inputs: Seq<(ValueId, Tensor)>,
    execution: Execution,
    grown: Execution,
    derivatives: Vec<Option<Tensor>>,
    rules: ArithmeticRules,
    at: int,
)
    requires
        before.wf(),
        backward_answer::<A>(before, loss, after, Ok(gradients)),
        evaluation_answer::<A>(before, inputs, Ok(execution)),
        evaluation_answer::<A>(after, inputs, Ok(grown)),
        gradients_answer::<A>(execution, before, loss, Ok(derivatives)),
        rules.describe::<A>(),
        well_behaved(rules),
        scales_closely(
            same_bits(),
            rules,
            before,
            tensor_models(execution.values@),
            loss.index as int,
        ),
        0 <= at < before.nodes@.len(),
    ensures
        derivative_matches(same_bits(), gradients@[at], grown, derivatives@[at]),
{
    law_well_behaved_arithmetic_keeps_bits(rules);
    law_backward_graphs_stay_close::<A>(
        same_bits(),
        before,
        loss,
        after,
        gradients,
        inputs,
        execution,
        grown,
        derivatives,
        rules,
        at,
    );
}

/// The same of the grown graph itself.
pub proof fn law_grown_graphs_hold_their_derivatives<A: F32Arithmetic>(
    before: Graph,
    loss: ValueId,
    after: Graph,
    gradients: Vec<Option<ValueId>>,
    inputs: Seq<(ValueId, Tensor)>,
    grown: Execution,
    derivatives: Vec<Option<Tensor>>,
    rules: ArithmeticRules,
    at: int,
)
    requires
        before.wf(),
        backward_answer::<A>(before, loss, after, Ok(gradients)),
        evaluation_answer::<A>(after, inputs, Ok(grown)),
        gradients_answer::<A>(grown, after, loss, Ok(derivatives)),
        rules.describe::<A>(),
        well_behaved(rules),
        scales_closely(
            same_bits(),
            rules,
            before,
            tensor_models(grown.values@),
            loss.index as int,
        ),
        0 <= at < before.nodes@.len(),
    ensures
        derivative_matches(same_bits(), gradients@[at], grown, derivatives@[at]),
{
    law_well_behaved_arithmetic_keeps_bits(rules);
    law_grown_graphs_stay_close::<A>(
        same_bits(),
        before,
        loss,
        after,
        gradients,
        inputs,
        grown,
        derivatives,
        rules,
        at,
    );
}

/// The arithmetic does not round, as far as a backward graph can tell: products may be taken in any
/// order and put before or after a quotient, and factors of one and minus one do what they should.
pub open spec fn unrounded(rules: ArithmeticRules) -> bool {
    &&& forall|x: u32, y: u32| #[trigger] (rules.product)(x, y) == (rules.product)(y, x)
    &&& forall|x: u32| #[trigger] (rules.product)(x, ONE_BITS) == x
    &&& forall|x: u32| (rules.product)(x, MINUS_ONE_BITS) == #[trigger] negated(x)
    &&& forall|x: u32, y: u32, z: u32|
        (rules.product)(x, #[trigger] (rules.quotient)(y, z)) == (rules.quotient)(
            #[trigger] (rules.product)(y, x),
            z,
        )
}

/// But for rounding, a generated backward graph and the reference are the same: with arithmetic
/// that does not round, the values that the graph names are the derivatives, bit for bit.
pub proof fn law_backward_graphs_agree_but_for_rounding<A: F32Arithmetic>(
    before: Graph,
    loss: ValueId,
    after: Graph,
    gradients: Vec<Option<ValueId>>,
    inputs: Seq<(ValueId, Tensor)>,
    grown: Execution,
    derivatives: Vec<Option<Tensor>>,
    rules: ArithmeticRules,
    at: int,
)
    requires
        before.wf(),
        backward_answer::<A>(before, loss, after, Ok(gradients)),
        evaluation_answer::<A>(after, inputs, Ok(grown)),
        gradients_answer::<A>(grown, after, loss, Ok(derivatives)),
        rules.describe::<A>(),
        unrounded(rules),
        0 <= at < before.nodes@.len(),
    ensures
        match (gradients@[at], derivatives@[at]) {
            (None, None) => true,
            (Some(value), Some(derivative)) => {
                let computed = grown.values@[value.index as int]@;
                computed.shape == derivative@.shape && computed.data == derivative@.data
            },
            _ => false,
        },
{
    let close = |one: u32, other: u32| one == other;
    let values = tensor_models(grown.values@);
    assert(keeps(close, rules));
    if let Op::MeanSquaredError(a, b) = before.nodes@[loss.index as int].op {
        let (from, to) = (values[a.index as int].data, values[b.index as int].data);
        assert forall|k: int| 0 <= k < from.len() implies #[trigger] scales_closely_at(
            close,
            rules,
            from,
            to,
            k,
        ) by {
            let divisor = (rules.from_count)(from.len() as usize);
            lemma_scaling_commutes(rules, (rules.difference)(from[k], to[k]), divisor);
            lemma_scaling_commutes(rules, (rules.difference)(to[k], from[k]), divisor);
        }
    }
    law_grown_graphs_stay_close::<A>(
        close,
        before,
        loss,
        after,
        gradients,
        inputs,
        grown,
        derivatives,
        rules,
        at,
    );
    if let (Some(value), Some(derivative)) = (gradients@[at], derivatives@[at]) {
        let computed = grown.values@[value.index as int]@;
        assert forall|k: int| 0 <= k < computed.data.len() implies computed.data[k]
            == derivative@.data[k] by {
            assert(near(close, computed.data[k], derivative@.data[k]));
        }
        assert(computed.data =~= derivative@.data);
    }
}

/// Without rounding, scaling commutes with dividing.
proof fn lemma_scaling_commutes(rules: ArithmeticRules, difference: u32, divisor: u32)
    requires
        unrounded(rules),
    ensures
        (rules.product)(difference, (rules.quotient)(TWO_BITS, divisor)) == (rules.product)(
            (rules.quotient)((rules.product)(TWO_BITS, difference), divisor),
            ONE_BITS,
        ),
{
    let doubled = (rules.product)(TWO_BITS, difference);
    assert((rules.product)(difference, (rules.quotient)(TWO_BITS, divisor)) == (rules.quotient)(
        doubled,
        divisor,
    ));
}

/// `state` is what the sweep holds once it has passed on the derivatives of the nodes before `from`
/// down to `at`, having held `begun` at first.
pub open spec fn swept_below<A: F32Arithmetic>(
    graph: Graph,
    values: Seq<Tensor>,
    from: int,
    at: int,
    begun: Seq<Option<TensorModel>>,
    state: Seq<Option<TensorModel>>,
) -> bool
    decreases from - at,
{
    if at >= from {
        state == begun
    } else {
        exists|before: Seq<Option<TensorModel>>|
            {
                &&& swept_below::<A>(graph, values, from, at + 1, begun, before)
                &&& #[trigger] passes_on::<A>(graph, values, before, at, state)
            }
    }
}

/// `derivatives` is what the sweep from a loss ends with, if the loss hands `left` and `right` on
/// to its operands.
pub open spec fn swept_from_loss<A: F32Arithmetic>(
    graph: Graph,
    values: Seq<Tensor>,
    loss: int,
    left: TensorModel,
    right: TensorModel,
    derivatives: Seq<Option<TensorModel>>,
) -> bool {
    graph.nodes@[loss].op matches Op::MeanSquaredError(a, b) && exists|
        begun: Seq<Option<TensorModel>>,
    |
        {
            &&& #[trigger] contributes_pair::<A>(
                seeded(graph.nodes@.len(), loss),
                a,
                left,
                b,
                right,
                begun,
            )
            &&& swept_below::<A>(graph, values, loss, 0, begun, derivatives)
        }
}

/// Passing a derivative on gives one to the operands of the node, and to nothing else.
proof fn lemma_passing_reaches<A: F32Arithmetic>(
    graph: Graph,
    originals: Seq<Tensor>,
    root: int,
    before: Seq<Option<TensorModel>>,
    at: int,
    after: Seq<Option<TensorModel>>,
)
    requires
        graph.wf(),
        0 <= at < graph.nodes@.len(),
        before.len() == graph.nodes@.len(),
        passes_on::<A>(graph, originals, before, at, after),
        forall|i: int|
            0 <= i < before.len() && (#[trigger] before[i]) is Some ==> reaches(
                graph.nodes@,
                root,
                i,
            ),
    ensures
        after.len() == before.len(),
        forall|i: int|
            0 <= i < after.len() && (#[trigger] after[i]) is Some ==> reaches(
                graph.nodes@,
                root,
                i,
            ),
{
    let nodes = graph.nodes@;
    let op = nodes[at].op;
    assert(node_wf(graph.id, nodes, at));
    if reads(op).len() > 0 {
        assert(precedes(graph.id, at, reads(op)[0]));
    }
    if reads(op).len() > 1 {
        assert(precedes(graph.id, at, reads(op)[1]));
    }
    assert forall|i: int| 0 <= i < after.len() && (#[trigger] after[i]) is Some implies reaches(
        nodes,
        root,
        i,
    ) by {
        if before[i] is None {
            assert(before[at] is Some);
            if reads(op).len() > 0 && reads(op)[0].index == i {
                lemma_reaches_operand(nodes, root, at, 0);
            } else {
                assert(reads(op).len() > 1 && reads(op)[1].index == i);
                lemma_reaches_operand(nodes, root, at, 1);
            }
        }
    }
}

/// Below a loss, tape and sweep stay in step from node to node.
proof fn lemma_sweep_below<A: F32Arithmetic>(
    close: spec_fn(u32, u32) -> bool,
    rules: ArithmeticRules,
    graph: Graph,
    originals: Seq<Tensor>,
    nodes: Seq<NodeSketch>,
    values: Seq<TensorModel>,
    root: int,
    at: int,
    begun: Seq<Option<TensorModel>>,
    state: Seq<Option<TensorModel>>,
    scale: u32,
)
    requires
        rules.describe::<A>(),
        keeps(close, rules),
        grown_from(rules, graph, originals, nodes, values),
        0 <= root < graph.nodes@.len(),
        0 <= at <= root,
        begins(wound_back(Tape::begun(graph, root), root, 0, scale), nodes),
        in_step(
            close,
            wound_back(Tape::begun(graph, root), root, root, scale),
            nodes,
            values,
            begun,
        ),
        begun.len() == graph.nodes@.len(),
        forall|i: int|
            0 <= i < begun.len() && (#[trigger] begun[i]) is Some ==> reaches(
                graph.nodes@,
                root,
                i,
            ),
        forall|i: int|
            0 <= i < graph.nodes@.len() && #[trigger] reaches(graph.nodes@, root, i)
                ==> !nested_loss(graph.nodes@, root, i),
        swept_below::<A>(graph, originals, root, at, begun, state),
    ensures
        state.len() == graph.nodes@.len(),
        forall|i: int|
            0 <= i < state.len() && (#[trigger] state[i]) is Some ==> reaches(
                graph.nodes@,
                root,
                i,
            ),
        in_step(close, wound_back(Tape::begun(graph, root), root, at, scale), nodes, values, state),
    decreases root - at,
{
    let start = Tape::begun(graph, root);
    lemma_stages_begin(nodes, start, root, at, scale);
    if at < root {
        let before = choose|before: Seq<Option<TensorModel>>|
            {
                &&& swept_below::<A>(graph, originals, root, at + 1, begun, before)
                &&& #[trigger] passes_on::<A>(graph, originals, before, at, state)
            };
        lemma_sweep_below::<A>(
            close,
            rules,
            graph,
            originals,
            nodes,
            values,
            root,
            at + 1,
            begun,
            before,
            scale,
        );
        lemma_passing_reaches::<A>(graph, originals, root, before, at, state);
        let tape = wound_back(start, root, at + 1, scale);
        assert(stands_for(close, tape, nodes, values, at, before[at]));
        if before[at] is Some {
            assert(tape.nodes[at] == nodes[at]);
            assert(!nested_loss(graph.nodes@, root, at));
            lemma_node_step::<A>(
                close,
                rules,
                graph,
                originals,
                nodes,
                values,
                tape,
                before,
                at,
                state,
                scale,
            );
        }
    }
}

/// Tape and sweep are in step once the loss has handed its scaled differences on.
proof fn lemma_begun<A: F32Arithmetic>(
    close: spec_fn(u32, u32) -> bool,
    rules: ArithmeticRules,
    graph: Graph,
    originals: Seq<Tensor>,
    nodes: Seq<NodeSketch>,
    values: Seq<TensorModel>,
    root: int,
    a: ValueId,
    b: ValueId,
    left: TensorModel,
    right: TensorModel,
    begun: Seq<Option<TensorModel>>,
    scale: u32,
)
    requires
        rules.describe::<A>(),
        keeps(close, rules),
        grown_from(rules, graph, originals, nodes, values),
        0 <= root < graph.nodes@.len(),
        graph.nodes@[root].op == Op::MeanSquaredError(a, b),
        scale == (rules.quotient)(
            TWO_BITS,
            (rules.from_count)(averaged_over(graph, root) as usize),
        ),
        begins(wound_back(Tape::begun(graph, root), root, 0, scale), nodes),
        factored_slopes(close, rules, values[a.index as int], values[b.index as int], left),
        factored_slopes(close, rules, values[b.index as int], values[a.index as int], right),
        contributes_pair::<A>(
            seeded(graph.nodes@.len(), root),
            a,
            left,
            b,
            right,
            begun,
        ),
    ensures
        begun.len() == graph.nodes@.len(),
        in_step(
            close,
            wound_back(Tape::begun(graph, root), root, root, scale),
            nodes,
            values,
            begun,
        ),
        forall|i: int|
            0 <= i < begun.len() && (#[trigger] begun[i]) is Some ==> reaches(
                graph.nodes@,
                root,
                i,
            ),
{
    let start = Tape::begun(graph, root);
    let seed = seeded(graph.nodes@.len(), root);
    let op = graph.nodes@[root].op;
    assert(node_wf(graph.id, graph.nodes@, root));
    assert(reads(op)[0] == a && reads(op)[1] == b);
    assert(precedes(graph.id, root, reads(op)[0]));
    assert(precedes(graph.id, root, reads(op)[1]));
    assert(nodes[root].op == op_sketch(op));
    lemma_stages_begin(nodes, start, root, root + 1, scale);
    lemma_stages_begin(nodes, start, root, root, scale);
    lemma_start(close, rules, graph, originals, nodes, values, root);
    assert(stands_for(close, start, nodes, values, root, seed[root]));
    assert(start.nodes[root] == nodes[root]);
    assert(wound_back(start, root, root + 1, scale) == start);
    lemma_loss_pair::<A>(
        close,
        rules,
        graph,
        originals,
        nodes,
        values,
        start,
        seed,
        root,
        begun,
        scale,
        a,
        b,
        left,
        right,
    );
    assert(reaches(graph.nodes@, root, root));
    assert forall|i: int| 0 <= i < begun.len() && (#[trigger] begun[i]) is Some implies reaches(
        graph.nodes@,
        root,
        i,
    ) by {
        if i == a.index {
            lemma_reaches_operand(graph.nodes@, root, root, 0);
        } else if i == b.index {
            lemma_reaches_operand(graph.nodes@, root, root, 1);
        } else {
            assert(seed[i] is Some);
        }
    }
}

/// Whatever the inputs, a generated backward graph computes, up to any closeness that the
/// operations keep, the derivatives that the reference sweep ends with once the loss hands on its
/// differences times the factor two over the count. That the reference doubles and divides each
/// difference instead is all that sets the two apart.
#[verifier::rlimit(40)]
pub proof fn law_backward_graphs_sweep_from_scaled_differences<A: F32Arithmetic>(
    close: spec_fn(u32, u32) -> bool,
    before: Graph,
    loss: ValueId,
    after: Graph,
    gradients: Vec<Option<ValueId>>,
    inputs: Seq<(ValueId, Tensor)>,
    execution: Execution,
    grown: Execution,
    rules: ArithmeticRules,
    left: TensorModel,
    right: TensorModel,
    derivatives: Seq<Option<TensorModel>>,
    at: int,
)
    requires
        before.wf(),
        backward_answer::<A>(before, loss, after, Ok(gradients)),
        evaluation_answer::<A>(before, inputs, Ok(execution)),
        evaluation_answer::<A>(after, inputs, Ok(grown)),
        rules.describe::<A>(),
        keeps(close, rules),
        before.nodes@[loss.index as int].op matches Op::MeanSquaredError(a, b) && factored_slopes(
            close,
            rules,
            execution.values@[a.index as int]@,
            execution.values@[b.index as int]@,
            left,
        ) && factored_slopes(
            close,
            rules,
            execution.values@[b.index as int]@,
            execution.values@[a.index as int]@,
            right,
        ),
        swept_from_loss::<A>(
            before,
            execution.values@,
            loss.index as int,
            left,
            right,
            derivatives,
        ),
        0 <= at < before.nodes@.len(),
    ensures
        derivatives.len() == before.nodes@.len(),
        match (gradients@[at], derivatives[at]) {
            (None, None) => true,
            (Some(value), Some(derivative)) => near_tensors(
                close,
                grown.values@[value.index as int]@,
                derivative,
            ),
            _ => false,
        },
{
    let root = loss.index as int;
    let nodes = sketches(after.nodes@);
    let values = tensor_models(grown.values@);
    let originals = execution.values@;
    let start = Tape::begun(before, root);
    lemma_grown::<A>(rules, before, after, inputs, execution, grown);
    let (denominator, scale) = choose|denominator: u32, scale: u32|
        {
            &&& #[trigger] counts::<A>(averaged_over(before, root) as usize, denominator)
            &&& #[trigger] divides::<A>(TWO_BITS, denominator, scale)
            &&& tape_of(after, gradients@) == start.rewound((root + 1) as nat, scale)
        };
    lemma_wound_back(start, root, 0, scale);
    assert(wound_back(start, root, 0, scale) == tape_of(after, gradients@));
    law_nested_losses_block(before, loss.index);
    let op = before.nodes@[root].op;
    if let Op::MeanSquaredError(a, b) = op {
        let seed = seeded(before.nodes@.len(), root);
        let begun = choose|begun: Seq<Option<TensorModel>>|
            {
                &&& #[trigger] contributes_pair::<A>(seed, a, left, b, right, begun)
                &&& swept_below::<A>(before, originals, root, 0, begun, derivatives)
            };
        assert(node_wf(before.id, before.nodes@, root));
        assert(reads(op)[0] == a && reads(op)[1] == b);
        assert(precedes(before.id, root, reads(op)[0]));
        assert(precedes(before.id, root, reads(op)[1]));
        assert(nodes[a.index as int].shape == before.nodes@[a.index as int].shape@);
        assert(nodes[b.index as int].shape == before.nodes@[b.index as int].shape@);
        lemma_begun::<A>(
            close,
            rules,
            before,
            originals,
            nodes,
            values,
            root,
            a,
            b,
            left,
            right,
            begun,
            scale,
        );
        lemma_sweep_below::<A>(
            close,
            rules,
            before,
            originals,
            nodes,
            values,
            root,
            0,
            begun,
            derivatives,
            scale,
        );
        assert(stands_for(close, tape_of(after, gradients@), nodes, values, at, derivatives[at]));
    }
}

/// The reference derivatives are those that the same sweep ends with once the loss hands on its
/// slopes.
pub proof fn law_reference_derivatives_sweep_from_slopes<A: F32Arithmetic>(
    graph: Graph,
    loss: ValueId,
    execution: Execution,
    derivatives: Vec<Option<Tensor>>,
) -> (handed_on: (u32, TensorModel, TensorModel))
    requires
        graph.wf(),
        graph.knows(loss),
        gradients_answer::<A>(execution, graph, loss, Ok(derivatives)),
        graph.nodes@[loss.index as int].op is MeanSquaredError,
    ensures
        graph.nodes@[loss.index as int].op matches Op::MeanSquaredError(a, b) && {
            let (from, to) = (
                execution.values@[a.index as int]@,
                execution.values@[b.index as int]@,
            );
            let (divisor, left, right) = handed_on;
            &&& counts::<A>(from.data.len() as usize, divisor)
            &&& slopes::<A>(from, to, divisor, ONE_BITS, left)
            &&& slopes::<A>(to, from, divisor, ONE_BITS, right)
            &&& swept_from_loss::<A>(
                graph,
                execution.values@,
                loss.index as int,
                left,
                right,
                gradient_models(derivatives@),
            )
        },
{
    let root = loss.index as int;
    let values = execution.values@;
    let begun = lemma_swept_splits::<A>(graph, values, root, 0, gradient_models(derivatives@));
    let seed = seeded(graph.nodes@.len(), root);
    assert(seed[root] == Some(TensorModel::scalar(ONE_BITS)));
    match graph.nodes@[root].op {
        Op::MeanSquaredError(a, b) => choose|divisor: u32, left: TensorModel, right: TensorModel|
            {
                &&& #[trigger] counts::<A>(values[a.index as int].data@.len() as usize, divisor)
                &&& #[trigger] slopes::<A>(
                    values[a.index as int]@,
                    values[b.index as int]@,
                    divisor,
                    ONE_BITS,
                    left,
                )
                &&& #[trigger] slopes::<A>(
                    values[b.index as int]@,
                    values[a.index as int]@,
                    divisor,
                    ONE_BITS,
                    right,
                )
                &&& contributes_pair::<A>(seed, a, left, b, right, begun)
            },
        _ => (0, TensorModel::scalar(0), TensorModel::scalar(0)),
    }
}

/// A whole sweep passes the root, and then what is below it.
proof fn lemma_swept_splits<A: F32Arithmetic>(
    graph: Graph,
    values: Seq<Tensor>,
    root: int,
    at: int,
    state: Seq<Option<TensorModel>>,
) -> (begun: Seq<Option<TensorModel>>)
    requires
        0 <= at <= root,
        swept::<A>(graph, values, root, at, state),
    ensures
        passes_on::<A>(graph, values, seeded(graph.nodes@.len(), root), root, begun),
        swept_below::<A>(graph, values, root, at, begun, state),
    decreases root - at,
{
    let before = choose|before: Seq<Option<TensorModel>>|
        {
            &&& swept::<A>(graph, values, root, at + 1, before)
            &&& #[trigger] passes_on::<A>(graph, values, before, at, state)
        };
    if at == root {
        assert(before == seeded(graph.nodes@.len(), root));
        state
    } else {
        lemma_swept_splits::<A>(graph, values, root, at + 1, before)
    }
}

} // verus!
