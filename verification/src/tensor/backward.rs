//! Reverse-mode differentiation of a mean-squared-error root into more graph nodes.
use vstd::prelude::*;
use vstd::slice::slice_to_vec;

use super::arithmetic::{counts, divides, F32Arithmetic};
use super::bits::{negate, negated, MINUS_ONE_BITS, ONE_BITS, TWO_BITS};
use super::closure::{
    closed_under_reads, lemma_closed_holds_needs, lemma_marking_counts, lemma_reaches_operand,
    reaches, unmarked,
};
use super::error::{TensorError, ValueId};
use super::gradients::{backward_operation, differentiable};
use super::graph::{
    multipliable, node_wf, operands, precedes, product_shape, reads, Graph, Node, Op,
};
use super::value::{element_count, extent, extent_fits, filled, Tensor, TensorModel};

verus! {

/// The places of values.
pub open spec fn places(values: Seq<ValueId>) -> Seq<usize> {
    values.map_values(|value: ValueId| value.index)
}

/// A loss other than the root.
pub open spec fn nested_loss(nodes: Seq<Node>, root: int, at: int) -> bool {
    at != root && nodes[at].op is MeanSquaredError
}

/// The first nested loss that a depth-first walk from `pending` meets. The walk takes the latest
/// pending place first, and an operation's last operand before its first.
pub open spec fn first_nested_loss(
    nodes: Seq<Node>,
    root: int,
    visited: Seq<bool>,
    pending: Seq<usize>,
) -> Option<usize>
    decreases unmarked(visited), pending.len(),
{
    if pending.len() == 0 {
        None
    } else {
        let at = pending.last();
        if at >= visited.len() || visited[at as int] {
            first_nested_loss(nodes, root, visited, pending.drop_last())
        } else if nested_loss(nodes, root, at as int) {
            Some(at)
        } else {
            proof {
                lemma_marking_counts(visited, at as int);
            }
            first_nested_loss(
                nodes,
                root,
                visited.update(at as int, true),
                pending.drop_last() + places(reads(nodes[at as int].op)),
            )
        }
    }
}

/// The places that the walk has visited when it ends.
spec fn explored(nodes: Seq<Node>, root: int, visited: Seq<bool>, pending: Seq<usize>) -> Seq<bool>
    decreases unmarked(visited), pending.len(),
{
    if pending.len() == 0 {
        visited
    } else {
        let at = pending.last();
        if at >= visited.len() || visited[at as int] {
            explored(nodes, root, visited, pending.drop_last())
        } else if nested_loss(nodes, root, at as int) {
            visited
        } else {
            proof {
                lemma_marking_counts(visited, at as int);
            }
            explored(
                nodes,
                root,
                visited.update(at as int, true),
                pending.drop_last() + places(reads(nodes[at as int].op)),
            )
        }
    }
}

/// What a place newly explored reads is explored, and it is no nested loss.
spec fn settled(nodes: Seq<Node>, root: int, before: Seq<bool>, after: Seq<bool>) -> bool {
    &&& forall|i: int, k: int|
        0 <= i < nodes.len() && after[i] && !before[i] && 0 <= k < reads(nodes[i].op).len()
            ==> after[(#[trigger] reads(nodes[i].op)[k]).index as int]
    &&& forall|i: int|
        0 <= i < nodes.len() && #[trigger] after[i] && !before[i] ==> !nested_loss(nodes, root, i)
}

proof fn lemma_walk_explores(
    graph: Graph,
    root: int,
    visited: Seq<bool>,
    pending: Seq<usize>,
)
    requires
        graph.wf(),
        visited.len() == graph.nodes@.len(),
        forall|s: int| 0 <= s < pending.len() ==> (#[trigger] pending[s]) < visited.len(),
        first_nested_loss(graph.nodes@, root, visited, pending) is None,
    ensures
        explored(graph.nodes@, root, visited, pending).len() == visited.len(),
        forall|i: int|
            0 <= i < visited.len() && visited[i] ==> #[trigger] explored(
                graph.nodes@,
                root,
                visited,
                pending,
            )[i],
        forall|s: int|
            0 <= s < pending.len() ==> explored(
                graph.nodes@,
                root,
                visited,
                pending,
            )[#[trigger] pending[s] as int],
        settled(
            graph.nodes@,
            root,
            visited,
            explored(graph.nodes@, root, visited, pending),
        ),
    decreases unmarked(visited), pending.len(),
{
    let nodes = graph.nodes@;
    if pending.len() > 0 {
        let at = pending.last();
        let end = explored(nodes, root, visited, pending);
        if visited[at as int] {
            lemma_walk_explores(graph, root, visited, pending.drop_last());
            assert forall|s: int| 0 <= s < pending.len() implies end[
            #[trigger] pending[s] as int] by {
                if s < pending.len() - 1 {
                    assert(pending.drop_last()[s] == pending[s]);
                }
            }
        } else {
            let marked = visited.update(at as int, true);
            let read = reads(nodes[at as int].op);
            let rest = pending.drop_last();
            let more = rest + places(read);
            lemma_marking_counts(visited, at as int);
            assert(node_wf(graph.id, nodes, at as int));
            assert forall|s: int| 0 <= s < more.len() implies (#[trigger] more[s])
                < marked.len() by {
                if s >= rest.len() {
                    assert(precedes(graph.id, at as int, read[s - rest.len()]));
                }
            }
            lemma_walk_explores(graph, root, marked, more);
            assert(marked[at as int]);
            assert forall|s: int| 0 <= s < pending.len() implies end[
            #[trigger] pending[s] as int] by {
                if s < pending.len() - 1 {
                    assert(more[s] == pending[s]);
                }
            }
            assert forall|i: int| 0 <= i < visited.len() && visited[i] implies #[trigger] end[i] by {
                assert(marked[i]);
            }
            assert forall|i: int, k: int|
                0 <= i < nodes.len() && end[i] && !visited[i] && 0 <= k < reads(
                    nodes[i].op,
                ).len() implies end[(#[trigger] reads(nodes[i].op)[k]).index as int] by {
                if i == at {
                    assert(more[rest.len() + k] == read[k].index);
                } else {
                    assert(!marked[i]);
                }
            }
            assert forall|i: int|
                0 <= i < nodes.len() && #[trigger] end[i] && !visited[i] implies !nested_loss(
                nodes,
                root,
                i,
            ) by {
                if i != at {
                    assert(!marked[i]);
                }
            }
        }
    }
}

proof fn lemma_walk_stays_reachable(
    graph: Graph,
    root: int,
    visited: Seq<bool>,
    pending: Seq<usize>,
)
    requires
        graph.wf(),
        visited.len() == graph.nodes@.len(),
        forall|s: int|
            0 <= s < pending.len() ==> (#[trigger] pending[s]) < visited.len() && reaches(
                graph.nodes@,
                root,
                pending[s] as int,
            ),
    ensures
        first_nested_loss(graph.nodes@, root, visited, pending) matches Some(at) ==> at
            < graph.nodes@.len() && nested_loss(graph.nodes@, root, at as int) && reaches(
            graph.nodes@,
            root,
            at as int,
        ),
    decreases unmarked(visited), pending.len(),
{
    let nodes = graph.nodes@;
    if pending.len() > 0 {
        let at = pending.last();
        let rest = pending.drop_last();
        assert(pending[pending.len() - 1] == at);
        if visited[at as int] {
            lemma_walk_stays_reachable(graph, root, visited, rest);
        } else if !nested_loss(nodes, root, at as int) {
            let marked = visited.update(at as int, true);
            let read = reads(nodes[at as int].op);
            let more = rest + places(read);
            lemma_marking_counts(visited, at as int);
            assert(node_wf(graph.id, nodes, at as int));
            assert forall|s: int| 0 <= s < more.len() implies (#[trigger] more[s]) < marked.len()
                && reaches(nodes, root, more[s] as int) by {
                if s >= rest.len() {
                    let k = s - rest.len();
                    assert(precedes(graph.id, at as int, read[k]));
                    lemma_reaches_operand(nodes, root, at as int, k);
                } else {
                    assert(more[s] == pending[s]);
                }
            }
            lemma_walk_stays_reachable(graph, root, marked, more);
        }
    }
}

/// The nested loss that differentiating from `root` stops at.
pub open spec fn blocking_loss(graph: Graph, root: usize) -> Option<usize> {
    first_nested_loss(
        graph.nodes@,
        root as int,
        Seq::new(graph.nodes@.len(), |i: int| false),
        seq![root],
    )
}

/// The walk stops at a nested loss exactly where the root needs one, and at one that it needs.
pub proof fn law_nested_losses_block(graph: Graph, root: usize)
    requires
        graph.wf(),
        root < graph.nodes@.len(),
    ensures
        match blocking_loss(graph, root) {
            Some(at) => at < graph.nodes@.len() && nested_loss(graph.nodes@, root as int, at as int)
                && reaches(graph.nodes@, root as int, at as int),
            None => forall|i: int|
                0 <= i < graph.nodes@.len() && #[trigger] reaches(graph.nodes@, root as int, i)
                    ==> !nested_loss(graph.nodes@, root as int, i),
        },
{
    let nodes = graph.nodes@;
    let fresh = Seq::new(nodes.len(), |i: int| false);
    let pending = seq![root];
    assert(reaches(nodes, root as int, root as int));
    lemma_walk_stays_reachable(graph, root as int, fresh, pending);
    if blocking_loss(graph, root) is None {
        lemma_walk_explores(graph, root as int, fresh, pending);
        let end = explored(nodes, root as int, fresh, pending);
        assert(pending[0] == root);
        assert(end[root as int]);
        assert(closed_under_reads(nodes, end));
        assert forall|i: int|
            0 <= i < nodes.len() && #[trigger] reaches(nodes, root as int, i) implies !nested_loss(
            nodes,
            root as int,
            i,
        ) by {
            lemma_closed_holds_needs(nodes, end, root as int, i);
            assert(end[i]);
        }
    }
}

impl Graph {
    /// Finds the nested loss that differentiating from `root` stops at.
    pub fn find_nested_loss(&self, root: usize) -> (found: Option<usize>)
        requires
            self.wf(),
            root < self.nodes@.len(),
        ensures
            found == blocking_loss(*self, root),
    {
        let count: usize = self.nodes.len();
        let mut visited: Vec<bool> = Vec::with_capacity(count);
        while visited.len() < count
            invariant
                visited@.len() <= count,
                forall|i: int| 0 <= i < visited@.len() ==> !#[trigger] visited@[i],
            decreases count - visited@.len(),
        {
            visited.push(false);
        }
        let mut pending: Vec<usize> = Vec::new();
        pending.push(root);
        proof {
            assert(visited@ =~= Seq::new(self.nodes@.len(), |i: int| false));
            assert(pending@ =~= seq![root]);
        }
        while pending.len() > 0
            invariant
                self.wf(),
                root < self.nodes@.len(),
                visited@.len() == self.nodes@.len(),
                forall|s: int| 0 <= s < pending@.len() ==> (#[trigger] pending@[s]) < visited@.len(),
                first_nested_loss(self.nodes@, root as int, visited@, pending@) == blocking_loss(
                    *self,
                    root,
                ),
            decreases unmarked(visited@), pending@.len(),
        {
            let ghost full = pending@;
            let at: usize = pending.pop().unwrap();
            assert(pending@ == full.drop_last());
            assert(full[full.len() - 1] == at);
            if visited[at] {
                continue;
            }
            let nested: bool = match &self.nodes[at].op {
                Op::MeanSquaredError(_, _) => at != root,
                _ => false,
            };
            if nested {
                return Some(at);
            }
            proof {
                lemma_marking_counts(visited@, at as int);
                assert(node_wf(self.id, self.nodes@, at as int));
            }
            visited.set(at, true);
            let ghost rest = pending@;
            let read: Vec<ValueId> = operands(&self.nodes[at].op);
            let mut k: usize = 0;
            while k < read.len()
                invariant
                    self.wf(),
                    at < self.nodes@.len(),
                    node_wf(self.id, self.nodes@, at as int),
                    read@ == reads(self.nodes@[at as int].op),
                    k <= read@.len(),
                    pending@ == rest + places(read@.take(k as int)),
                    forall|s: int|
                        0 <= s < pending@.len() ==> (#[trigger] pending@[s]) < self.nodes@.len(),
                decreases read@.len() - k,
            {
                proof {
                    assert(precedes(self.id, at as int, read@[k as int]));
                    assert(places(read@.take(k + 1)) =~= places(read@.take(k as int)).push(
                        read@[k as int].index,
                    ));
                }
                pending.push(read[k].index);
                k += 1;
            }
            assert(read@.take(k as int) =~= read@);
        }
        None
    }
}

/// A graph operation, with what its constant holds.
#[verifier::ext_equal]
pub ghost enum OpSketch {
    Input,
    Constant(TensorModel),
    Uniform(u32),
    Add(ValueId, ValueId),
    Sub(ValueId, ValueId),
    Mul(ValueId, ValueId),
    SgdUpdate(ValueId, ValueId, u32),
    MatMul(ValueId, ValueId, bool, bool),
    Relu(ValueId),
    ReluBackward(ValueId, ValueId),
    MeanSquaredError(ValueId, ValueId),
}

/// A node: what it computes and the shape of its value.
#[verifier::ext_equal]
pub ghost struct NodeSketch {
    pub op: OpSketch,
    pub shape: Seq<usize>,
}

/// What an operation computes.
pub open spec fn op_sketch(op: Op) -> OpSketch {
    match op {
        Op::Input => OpSketch::Input,
        Op::Constant(tensor) => OpSketch::Constant(tensor@),
        Op::Uniform(value) => OpSketch::Uniform(value),
        Op::Add(a, b) => OpSketch::Add(a, b),
        Op::Sub(a, b) => OpSketch::Sub(a, b),
        Op::Mul(a, b) => OpSketch::Mul(a, b),
        Op::SgdUpdate(a, b, rate) => OpSketch::SgdUpdate(a, b, rate),
        Op::MatMul(a, b, tl, tr) => OpSketch::MatMul(a, b, tl, tr),
        Op::Relu(x) => OpSketch::Relu(x),
        Op::ReluBackward(a, b) => OpSketch::ReluBackward(a, b),
        Op::MeanSquaredError(a, b) => OpSketch::MeanSquaredError(a, b),
    }
}

/// What nodes compute, and their shapes.
pub open spec fn sketches(nodes: Seq<Node>) -> Seq<NodeSketch> {
    nodes.map_values(|node: Node| NodeSketch { op: op_sketch(node.op), shape: node.shape@ })
}

/// A tensor filled with one value that nobody recorded to be uniform.
pub open spec fn flooded(shape: Seq<usize>, value: u32) -> TensorModel {
    TensorModel::plain(shape, Seq::new(extent(1, shape), |i: int| value))
}

/// The nodes of a graph that is being differentiated, and the value that holds the derivative of
/// each node that was there before.
#[verifier::ext_equal]
pub ghost struct Tape {
    pub id: u64,
    pub nodes: Seq<NodeSketch>,
    pub gradients: Seq<Option<ValueId>>,
}

impl Tape {
    /// The tape with one more node.
    pub open spec fn recorded(self, op: OpSketch, shape: Seq<usize>) -> Tape {
        Tape { nodes: self.nodes.push(NodeSketch { op, shape }), ..self }
    }

    /// The value of the latest node.
    pub open spec fn latest(self) -> ValueId {
        ValueId { graph_id: self.id, index: (self.nodes.len() - 1) as usize }
    }

    pub open spec fn shape_of(self, value: ValueId) -> Seq<usize> {
        self.nodes[value.index as int].shape
    }

    /// The tape with `addition` added to the derivative of `target`.
    pub open spec fn accumulated(self, target: ValueId, addition: ValueId) -> Tape {
        match self.gradients[target.index as int] {
            None => Tape {
                gradients: self.gradients.update(target.index as int, Some(addition)),
                ..self
            },
            Some(existing) => {
                let grown = self.recorded(
                    OpSketch::Add(existing, addition),
                    self.shape_of(existing),
                );
                Tape {
                    gradients: self.gradients.update(target.index as int, Some(grown.latest())),
                    ..grown
                }
            },
        }
    }

    /// The tape with one contribution to each of two operands, in this order.
    pub open spec fn accumulated_pair(
        self,
        first: ValueId,
        first_addition: ValueId,
        second: ValueId,
        second_addition: ValueId,
    ) -> Tape {
        self.accumulated(first, first_addition).accumulated(second, second_addition)
    }

    /// The tape with a constant of the shape of `like`, filled with `value`.
    pub open spec fn with_filled(self, like: ValueId, value: u32) -> Tape {
        self.recorded(
            OpSketch::Constant(flooded(self.shape_of(like), value)),
            self.shape_of(like),
        )
    }

    /// The tape with an elementwise product.
    pub open spec fn with_product(self, left: ValueId, right: ValueId) -> Tape {
        self.recorded(OpSketch::Mul(left, right), self.shape_of(left))
    }

    /// The tape with an elementwise difference.
    pub open spec fn with_difference(self, left: ValueId, right: ValueId) -> Tape {
        self.recorded(OpSketch::Sub(left, right), self.shape_of(left))
    }

    /// The tape with a matrix product.
    pub open spec fn with_matmul(
        self,
        left: ValueId,
        right: ValueId,
        transpose_left: bool,
        transpose_right: bool,
    ) -> Tape {
        self.recorded(
            OpSketch::MatMul(left, right, transpose_left, transpose_right),
            product_shape(
                self.shape_of(left),
                self.shape_of(right),
                transpose_left,
                transpose_right,
            ),
        )
    }

    /// The tape after the derivative `gradient` of a node has been passed on to what the node
    /// reads. `scale` is the factor of the mean squared error's derivative.
    pub open spec fn backed(self, op: OpSketch, gradient: ValueId, scale: u32) -> Tape {
        match op {
            OpSketch::Input | OpSketch::Constant(_) | OpSketch::Uniform(_) => self,
            OpSketch::Add(a, b) => self.accumulated_pair(a, gradient, b, gradient),
            OpSketch::Sub(a, b) => {
                let left = self.accumulated(a, gradient);
                let negative = left.with_filled(b, MINUS_ONE_BITS);
                let product = negative.with_product(gradient, negative.latest());
                product.accumulated(b, product.latest())
            },
            OpSketch::Mul(a, b) => {
                let left = self.with_product(gradient, b);
                let right = left.with_product(gradient, a);
                right.accumulated_pair(a, left.latest(), b, right.latest())
            },
            OpSketch::SgdUpdate(weights, update, rate) => {
                let factor = self.with_filled(update, negated(rate));
                let product = factor.with_product(gradient, factor.latest());
                product.accumulated_pair(weights, gradient, update, product.latest())
            },
            OpSketch::MatMul(a, b, tl, tr) => {
                let left = if tl {
                    self.with_matmul(b, gradient, tr, true)
                } else {
                    self.with_matmul(gradient, b, false, !tr)
                };
                let right = if tr {
                    left.with_matmul(gradient, a, true, tl)
                } else {
                    left.with_matmul(a, gradient, !tl, false)
                };
                right.accumulated_pair(a, left.latest(), b, right.latest())
            },
            OpSketch::MeanSquaredError(a, b) => {
                let factor = self.with_filled(a, scale);
                let forward = factor.with_difference(a, b);
                let reverse = forward.with_difference(b, a);
                let left = reverse.with_product(forward.latest(), factor.latest());
                let right = left.with_product(reverse.latest(), factor.latest());
                right.accumulated_pair(a, left.latest(), b, right.latest())
            },
            OpSketch::Relu(x) => {
                let gate = self.recorded(
                    OpSketch::ReluBackward(x, gradient),
                    self.shape_of(x),
                );
                gate.accumulated(x, gate.latest())
            },
            OpSketch::ReluBackward(_, _) => self,
        }
    }

    /// The tape after the derivatives of the first `count` nodes have been passed on, the latest
    /// node first.
    pub open spec fn rewound(self, count: nat, scale: u32) -> Tape
        decreases count,
    {
        if count == 0 {
            self
        } else {
            let at = count - 1;
            match self.gradients[at] {
                None => self.rewound((count - 1) as nat, scale),
                Some(gradient) => self.backed(self.nodes[at].op, gradient, scale).rewound(
                    (count - 1) as nat,
                    scale,
                ),
            }
        }
    }

    /// The tape before the sweep: the root's derivative is a fresh constant one.
    pub open spec fn begun(graph: Graph, root: int) -> Tape {
        let blank = Tape {
            id: graph.id,
            nodes: sketches(graph.nodes@),
            gradients: Seq::new(graph.nodes@.len(), |i: int| None),
        };
        let one = blank.recorded(
            OpSketch::Constant(TensorModel::scalar(ONE_BITS)),
            Seq::empty(),
        );
        Tape { gradients: one.gradients.update(root, Some(one.latest())), ..one }
    }
}

/// The tape that a graph and its derivatives stand for.
pub open spec fn tape_of(graph: Graph, gradients: Seq<Option<ValueId>>) -> Tape {
    Tape { id: graph.id, nodes: sketches(graph.nodes@), gradients }
}

/// The graph still begins with `origin`, and every derivative is a value of it with the shape of
/// the node it belongs to.
pub open spec fn taped(origin: Graph, graph: Graph, gradients: Seq<Option<ValueId>>) -> bool {
    &&& graph.wf()
    &&& graph.id == origin.id
    &&& graph.nodes@.len() >= origin.nodes@.len()
    &&& graph.nodes@.take(origin.nodes@.len() as int) == origin.nodes@
    &&& gradients.len() == origin.nodes@.len()
    &&& forall|i: int|
        0 <= i < gradients.len() ==> (#[trigger] gradients[i] matches Some(value) ==> graph.knows(
            value,
        ) && graph.shape_of(value) == origin.nodes@[i].shape@)
}

/// Appending one node to a taped graph.
proof fn lemma_append(
    origin: Graph,
    before: Graph,
    after: Graph,
    gradients: Seq<Option<ValueId>>,
    op: Op,
    shape: Seq<usize>,
)
    requires
        taped(origin, before, gradients),
        after.wf(),
        after.extends(before, op, shape),
        before.nodes@.len() < usize::MAX,
    ensures
        taped(origin, after, gradients),
        tape_of(after, gradients) == tape_of(before, gradients).recorded(op_sketch(op), shape),
        tape_of(after, gradients).latest() == before.next_value(),
        after.knows(before.next_value()),
        after.shape_of(before.next_value()) == shape,
        forall|value: ValueId|
            before.knows(value) ==> #[trigger] after.knows(value) && after.shape_of(value)
                == before.shape_of(value),
{
    let n = before.nodes@.len();
    assert(after.nodes@ =~= before.nodes@.push(after.nodes@.last()));
    assert(after.nodes@.take(origin.nodes@.len() as int) =~= before.nodes@.take(
        origin.nodes@.len() as int,
    ));
    assert(sketches(after.nodes@) =~= sketches(before.nodes@).push(
        NodeSketch { op: op_sketch(op), shape },
    ));
    assert forall|i: int| 0 <= i < gradients.len() implies (
    #[trigger] gradients[i] matches Some(value) ==> after.knows(value) && after.shape_of(value)
        == origin.nodes@[i].shape@) by {}
}

/// Every value of `before` is one of `after`, with the same shape.
spec fn keeps(before: Graph, after: Graph) -> bool {
    &&& after.id == before.id
    &&& forall|value: ValueId|
        #![trigger after.knows(value)]
        #![trigger after.shape_of(value)]
        before.knows(value) ==> after.knows(value) && after.shape_of(value) == before.shape_of(value)
}

/// The shapes of a node's operands, as those of a graph that begins with the node's own.
proof fn lemma_taped_operands(
    origin: Graph,
    graph: Graph,
    gradients: Seq<Option<ValueId>>,
    at: int,
)
    requires
        origin.wf(),
        taped(origin, graph, gradients),
        0 <= at < origin.nodes@.len(),
    ensures
        node_wf(origin.id, origin.nodes@, at),
        graph.nodes@[at] == origin.nodes@[at],
        forall|k: int|
            0 <= k < reads(origin.nodes@[at].op).len() ==> (#[trigger] reads(
                origin.nodes@[at].op,
            )[k]).index < at && graph.knows(reads(origin.nodes@[at].op)[k]) && graph.shape_of(
                reads(origin.nodes@[at].op)[k],
            ) == origin.shape_of(reads(origin.nodes@[at].op)[k]),
{
    let read = reads(origin.nodes@[at].op);
    assert(node_wf(origin.id, origin.nodes@, at));
    assert(graph.nodes@.take(origin.nodes@.len() as int)[at] == graph.nodes@[at]);
    assert forall|k: int| 0 <= k < read.len() implies (#[trigger] read[k]).index < at
        && graph.knows(read[k]) && graph.shape_of(read[k]) == origin.shape_of(read[k]) by {
        assert(precedes(origin.id, at, read[k]));
        assert(graph.nodes@.take(origin.nodes@.len() as int)[read[k].index as int]
            == graph.nodes@[read[k].index as int]);
    }
}

/// Adds a constant of the shape of `like`, filled with one value.
fn append_filled(
    graph: &mut Graph,
    like: ValueId,
    value: u32,
    Ghost(origin): Ghost<Graph>,
    Ghost(gradients): Ghost<Seq<Option<ValueId>>>,
) -> (made: ValueId)
    requires
        taped(origin, *old(graph), gradients),
        old(graph).knows(like),
    ensures
        taped(origin, *final(graph), gradients),
        keeps(*old(graph), *final(graph)),
        tape_of(*final(graph), gradients) == tape_of(*old(graph), gradients).with_filled(
            like,
            value,
        ),
        made == tape_of(*final(graph), gradients).latest(),
        final(graph).knows(made),
        final(graph).shape_of(made) == old(graph).shape_of(like),
{
    let ghost before = *graph;
    assert(node_wf(graph.id, graph.nodes@, like.index as int));
    let shape: Vec<usize> = slice_to_vec(graph.nodes[like.index].shape.as_slice());
    let count: usize = match element_count(shape.as_slice()) {
        Ok(n) => n,
        Err(_) => 0,
    };
    let tensor: Tensor = Tensor {
        shape,
        data: filled(value, count),
        known_uniform_value: None,
    };
    assert(tensor@ == flooded(before.shape_of(like), value));
    let made: ValueId = graph.constant(tensor);
    proof {
        assert(graph.nodes.len() == graph.nodes@.len());
        let kept = graph.nodes@.last().op;
        lemma_append(origin, before, *graph, gradients, kept, tensor@.shape);
    }
    made
}

/// Adds an elementwise operation on two values of one shape.
fn append_binary(
    graph: &mut Graph,
    left: ValueId,
    right: ValueId,
    product: bool,
    Ghost(origin): Ghost<Graph>,
    Ghost(gradients): Ghost<Seq<Option<ValueId>>>,
) -> (made: ValueId)
    requires
        taped(origin, *old(graph), gradients),
        old(graph).knows(left),
        old(graph).knows(right),
        old(graph).shape_of(left) == old(graph).shape_of(right),
    ensures
        taped(origin, *final(graph), gradients),
        keeps(*old(graph), *final(graph)),
        tape_of(*final(graph), gradients) == (if product {
            tape_of(*old(graph), gradients).with_product(left, right)
        } else {
            tape_of(*old(graph), gradients).with_difference(left, right)
        }),
        made == tape_of(*final(graph), gradients).latest(),
        final(graph).knows(made),
        final(graph).shape_of(made) == old(graph).shape_of(left),
{
    let ghost before = *graph;
    let answer: Result<ValueId, TensorError> = if product {
        graph.mul(left, right)
    } else {
        graph.sub(left, right)
    };
    proof {
        assert(graph.nodes.len() == graph.nodes@.len());
        let op = if product {
            Op::Mul(left, right)
        } else {
            Op::Sub(left, right)
        };
        lemma_append(origin, before, *graph, gradients, op, before.shape_of(left));
    }
    answer.unwrap()
}

/// Adds a matrix product whose shape is known to fit.
fn append_matmul(
    graph: &mut Graph,
    left: ValueId,
    right: ValueId,
    transpose_left: bool,
    transpose_right: bool,
    Ghost(origin): Ghost<Graph>,
    Ghost(gradients): Ghost<Seq<Option<ValueId>>>,
) -> (made: ValueId)
    requires
        taped(origin, *old(graph), gradients),
        old(graph).knows(left),
        old(graph).knows(right),
        multipliable(
            old(graph).shape_of(left),
            old(graph).shape_of(right),
            transpose_left,
            transpose_right,
        ),
        extent_fits(
            1,
            product_shape(
                old(graph).shape_of(left),
                old(graph).shape_of(right),
                transpose_left,
                transpose_right,
            ),
        ),
    ensures
        taped(origin, *final(graph), gradients),
        keeps(*old(graph), *final(graph)),
        tape_of(*final(graph), gradients) == tape_of(*old(graph), gradients).with_matmul(
            left,
            right,
            transpose_left,
            transpose_right,
        ),
        made == tape_of(*final(graph), gradients).latest(),
        final(graph).knows(made),
        final(graph).shape_of(made) == product_shape(
            old(graph).shape_of(left),
            old(graph).shape_of(right),
            transpose_left,
            transpose_right,
        ),
{
    let ghost before = *graph;
    let answer: Result<ValueId, TensorError> = graph.matmul_transposed(
        left,
        right,
        transpose_left,
        transpose_right,
    );
    proof {
        assert(graph.nodes.len() == graph.nodes@.len());
        lemma_append(
            origin,
            before,
            *graph,
            gradients,
            Op::MatMul(left, right, transpose_left, transpose_right),
            product_shape(
                before.shape_of(left),
                before.shape_of(right),
                transpose_left,
                transpose_right,
            ),
        );
    }
    answer.unwrap()
}

/// Adds a contribution to the derivative of a node.
fn accumulate_gradient(
    graph: &mut Graph,
    gradients: &mut Vec<Option<ValueId>>,
    target: ValueId,
    addition: ValueId,
    Ghost(origin): Ghost<Graph>,
)
    requires
        taped(origin, *old(graph), old(gradients)@),
        target.index < origin.nodes@.len(),
        old(graph).knows(addition),
        old(graph).shape_of(addition) == origin.shape_of(target),
    ensures
        taped(origin, *final(graph), final(gradients)@),
        keeps(*old(graph), *final(graph)),
        tape_of(*final(graph), final(gradients)@) == tape_of(
            *old(graph),
            old(gradients)@,
        ).accumulated(target, addition),
        final(gradients)@[target.index as int] is Some,
        forall|i: int|
            0 <= i < old(gradients)@.len() && i != target.index ==> final(gradients)@[i]
                == old(gradients)@[i],
{
    let ghost before = *graph;
    let ghost known = gradients@;
    let sum: ValueId = match gradients[target.index] {
        Some(existing) => {
            let answer: Result<ValueId, TensorError> = graph.add(existing, addition);
            proof {
                assert(known[target.index as int] == Some(existing));
                assert(graph.nodes.len() == graph.nodes@.len());
                lemma_append(
                    origin,
                    before,
                    *graph,
                    known,
                    Op::Add(existing, addition),
                    before.shape_of(existing),
                );
            }
            answer.unwrap()
        },
        None => addition,
    };
    gradients.set(target.index, Some(sum));
    proof {
        assert(taped(origin, *graph, gradients@)) by {
            assert forall|i: int| 0 <= i < gradients@.len() implies (
            #[trigger] gradients@[i] matches Some(value) ==> graph.knows(value)
                && graph.shape_of(value) == origin.nodes@[i].shape@) by {
                if i != target.index {
                    assert(gradients@[i] == known[i]);
                }
            }
        }
        assert(tape_of(*graph, gradients@) =~= tape_of(before, known).accumulated(
            target,
            addition,
        ));
    }
}

/// Adds one contribution to each of two operands.
fn accumulate_gradients(
    graph: &mut Graph,
    gradients: &mut Vec<Option<ValueId>>,
    first: ValueId,
    first_addition: ValueId,
    second: ValueId,
    second_addition: ValueId,
    Ghost(origin): Ghost<Graph>,
)
    requires
        taped(origin, *old(graph), old(gradients)@),
        first.index < origin.nodes@.len(),
        second.index < origin.nodes@.len(),
        old(graph).knows(first_addition),
        old(graph).knows(second_addition),
        old(graph).shape_of(first_addition) == origin.shape_of(first),
        old(graph).shape_of(second_addition) == origin.shape_of(second),
    ensures
        taped(origin, *final(graph), final(gradients)@),
        tape_of(*final(graph), final(gradients)@) == tape_of(
            *old(graph),
            old(gradients)@,
        ).accumulated_pair(first, first_addition, second, second_addition),
        final(gradients)@[first.index as int] is Some,
        final(gradients)@[second.index as int] is Some,
        forall|i: int|
            0 <= i < old(gradients)@.len() && i != first.index && i != second.index
                ==> final(gradients)@[i] == old(gradients)@[i],
{
    accumulate_gradient(graph, gradients, first, first_addition, Ghost(origin));
    accumulate_gradient(graph, gradients, second, second_addition, Ghost(origin));
}

/// What a sweep over the node at `at` may assume and what it leaves of the derivatives.
spec fn passed_down(
    origin: Graph,
    at: int,
    before: Seq<Option<ValueId>>,
    after: Seq<Option<ValueId>>,
) -> bool {
    &&& after.len() == before.len()
    &&& forall|i: int|
        0 <= i < before.len() && !reads(origin.nodes@[at].op).contains(origin.value_at(i))
            ==> #[trigger] after[i] == before[i]
    &&& forall|k: int|
        0 <= k < reads(origin.nodes@[at].op).len() ==> after[(#[trigger] reads(
            origin.nodes@[at].op,
        )[k]).index as int] is Some
}

/// Derivatives that change at two operands only.
proof fn lemma_passed_down(
    origin: Graph,
    at: int,
    before: Seq<Option<ValueId>>,
    after: Seq<Option<ValueId>>,
)
    requires
        origin.wf(),
        0 <= at < origin.nodes@.len(),
        before.len() == origin.nodes@.len(),
        after.len() == before.len(),
        forall|k: int|
            0 <= k < reads(origin.nodes@[at].op).len() ==> after[(#[trigger] reads(
                origin.nodes@[at].op,
            )[k]).index as int] is Some,
        forall|i: int|
            0 <= i < before.len() && (forall|k: int|
                0 <= k < reads(origin.nodes@[at].op).len() ==> (#[trigger] reads(
                    origin.nodes@[at].op,
                )[k]).index != i) ==> #[trigger] after[i] == before[i],
    ensures
        passed_down(origin, at, before, after),
{
    let read = reads(origin.nodes@[at].op);
    assert(node_wf(origin.id, origin.nodes@, at));
    assert forall|i: int|
        0 <= i < before.len() && !read.contains(origin.value_at(i)) implies #[trigger] after[i]
        == before[i] by {
        assert forall|k: int| 0 <= k < read.len() implies (#[trigger] read[k]).index != i by {
            assert(precedes(origin.id, at, read[k]));
            if read[k].index == i {
                assert(read[k] == origin.value_at(i));
            }
        }
    }
}

/// Appends the nodes that pass the derivative of a matrix product on to its factors.
fn append_matmul_gradients(
    graph: &mut Graph,
    gradients: &mut Vec<Option<ValueId>>,
    at: usize,
    gradient: ValueId,
    left: ValueId,
    right: ValueId,
    transpose_left: bool,
    transpose_right: bool,
    Ghost(origin): Ghost<Graph>,
    Ghost(scale): Ghost<u32>,
)
    requires
        origin.wf(),
        taped(origin, *old(graph), old(gradients)@),
        at < origin.nodes@.len(),
        origin.nodes@[at as int].op == Op::MatMul(left, right, transpose_left, transpose_right),
        old(graph).knows(gradient),
        old(graph).shape_of(gradient) == origin.nodes@[at as int].shape@,
    ensures
        taped(origin, *final(graph), final(gradients)@),
        tape_of(*final(graph), final(gradients)@) == tape_of(
            *old(graph),
            old(gradients)@,
        ).backed(OpSketch::MatMul(left, right, transpose_left, transpose_right), gradient, scale),
        passed_down(origin, at as int, old(gradients)@, final(gradients)@),
{
    let ghost known = gradients@;
    let ghost read = reads(origin.nodes@[at as int].op);
    proof {
        lemma_taped_operands(origin, *graph, known, at as int);
        assert(read[0] == left && read[1] == right);
        assert(node_wf(origin.id, origin.nodes@, left.index as int));
        assert(node_wf(origin.id, origin.nodes@, right.index as int));
        let l = graph.shape_of(left);
        let r = graph.shape_of(right);
        assert(l =~= seq![l[0], l[1]]);
        assert(r =~= seq![r[0], r[1]]);
    }
    let left_gradient: ValueId = if transpose_left {
        append_matmul(
            graph,
            right,
            gradient,
            transpose_right,
            true,
            Ghost(origin),
            Ghost(known),
        )
    } else {
        append_matmul(
            graph,
            gradient,
            right,
            false,
            !transpose_right,
            Ghost(origin),
            Ghost(known),
        )
    };
    let right_gradient: ValueId = if transpose_right {
        append_matmul(graph, gradient, left, true, transpose_left, Ghost(origin), Ghost(known))
    } else {
        append_matmul(
            graph,
            left,
            gradient,
            !transpose_left,
            false,
            Ghost(origin),
            Ghost(known),
        )
    };
    accumulate_gradients(
        graph,
        gradients,
        left,
        left_gradient,
        right,
        right_gradient,
        Ghost(origin),
    );
    proof {
        lemma_passed_down(origin, at as int, known, gradients@);
    }
}

/// Appends the nodes that pass the derivative of the loss on to its operands.
fn append_mse_gradients(
    graph: &mut Graph,
    gradients: &mut Vec<Option<ValueId>>,
    at: usize,
    gradient: ValueId,
    prediction: ValueId,
    target: ValueId,
    scale: u32,
    Ghost(origin): Ghost<Graph>,
)
    requires
        origin.wf(),
        taped(origin, *old(graph), old(gradients)@),
        at < origin.nodes@.len(),
        origin.nodes@[at as int].op == Op::MeanSquaredError(prediction, target),
    ensures
        taped(origin, *final(graph), final(gradients)@),
        tape_of(*final(graph), final(gradients)@) == tape_of(
            *old(graph),
            old(gradients)@,
        ).backed(OpSketch::MeanSquaredError(prediction, target), gradient, scale),
        passed_down(origin, at as int, old(gradients)@, final(gradients)@),
{
    let ghost known = gradients@;
    let ghost read = reads(origin.nodes@[at as int].op);
    proof {
        lemma_taped_operands(origin, *graph, known, at as int);
        assert(read[0] == prediction && read[1] == target);
    }
    let factor: ValueId = append_filled(graph, prediction, scale, Ghost(origin), Ghost(known));
    let forward: ValueId = append_binary(
        graph,
        prediction,
        target,
        false,
        Ghost(origin),
        Ghost(known),
    );
    let reverse: ValueId = append_binary(
        graph,
        target,
        prediction,
        false,
        Ghost(origin),
        Ghost(known),
    );
    let prediction_gradient: ValueId = append_binary(
        graph,
        forward,
        factor,
        true,
        Ghost(origin),
        Ghost(known),
    );
    let target_gradient: ValueId = append_binary(
        graph,
        reverse,
        factor,
        true,
        Ghost(origin),
        Ghost(known),
    );
    accumulate_gradients(
        graph,
        gradients,
        prediction,
        prediction_gradient,
        target,
        target_gradient,
        Ghost(origin),
    );
    proof {
        lemma_passed_down(origin, at as int, known, gradients@);
    }
}

/// Appends the nodes that pass the derivative of one node on to what it reads.
fn append_node_gradients(
    graph: &mut Graph,
    gradients: &mut Vec<Option<ValueId>>,
    at: usize,
    gradient: ValueId,
    scale: u32,
    Ghost(origin): Ghost<Graph>,
)
    requires
        origin.wf(),
        taped(origin, *old(graph), old(gradients)@),
        at < origin.nodes@.len(),
        old(graph).knows(gradient),
        old(graph).shape_of(gradient) == origin.nodes@[at as int].shape@,
        !(origin.nodes@[at as int].op is ReluBackward),
    ensures
        taped(origin, *final(graph), final(gradients)@),
        tape_of(*final(graph), final(gradients)@) == tape_of(
            *old(graph),
            old(gradients)@,
        ).backed(op_sketch(origin.nodes@[at as int].op), gradient, scale),
        passed_down(origin, at as int, old(gradients)@, final(gradients)@),
{
    let ghost known = gradients@;
    let ghost read = reads(origin.nodes@[at as int].op);
    proof {
        lemma_taped_operands(origin, *graph, known, at as int);
    }
    match &graph.nodes[at].op {
        Op::Input | Op::Constant(_) | Op::Uniform(_) | Op::ReluBackward(_, _) => {},
        Op::Add(left, right) => {
            let (left, right): (ValueId, ValueId) = (*left, *right);
            assert(read[0] == left && read[1] == right);
            accumulate_gradients(
                graph,
                gradients,
                left,
                gradient,
                right,
                gradient,
                Ghost(origin),
            );
        },
        Op::Sub(left, right) => {
            let (left, right): (ValueId, ValueId) = (*left, *right);
            assert(read[0] == left && read[1] == right);
            accumulate_gradient(graph, gradients, left, gradient, Ghost(origin));
            let negative: ValueId = append_filled(
                graph,
                right,
                MINUS_ONE_BITS,
                Ghost(origin),
                Ghost(gradients@),
            );
            let right_gradient: ValueId = append_binary(
                graph,
                gradient,
                negative,
                true,
                Ghost(origin),
                Ghost(gradients@),
            );
            accumulate_gradient(graph, gradients, right, right_gradient, Ghost(origin));
        },
        Op::Mul(left, right) => {
            let (left, right): (ValueId, ValueId) = (*left, *right);
            assert(read[0] == left && read[1] == right);
            let left_gradient: ValueId = append_binary(
                graph,
                gradient,
                right,
                true,
                Ghost(origin),
                Ghost(known),
            );
            let right_gradient: ValueId = append_binary(
                graph,
                gradient,
                left,
                true,
                Ghost(origin),
                Ghost(known),
            );
            accumulate_gradients(
                graph,
                gradients,
                left,
                left_gradient,
                right,
                right_gradient,
                Ghost(origin),
            );
        },
        Op::SgdUpdate(weights, update, rate) => {
            let (weights, update, rate): (ValueId, ValueId, u32) = (*weights, *update, *rate);
            assert(read[0] == weights && read[1] == update);
            let factor: ValueId = append_filled(
                graph,
                update,
                negate(rate),
                Ghost(origin),
                Ghost(known),
            );
            let update_gradient: ValueId = append_binary(
                graph,
                gradient,
                factor,
                true,
                Ghost(origin),
                Ghost(known),
            );
            accumulate_gradients(
                graph,
                gradients,
                weights,
                gradient,
                update,
                update_gradient,
                Ghost(origin),
            );
        },
        Op::MatMul(left, right, transpose_left, transpose_right) => {
            let (left, right): (ValueId, ValueId) = (*left, *right);
            let (transpose_left, transpose_right): (bool, bool) = (
                *transpose_left,
                *transpose_right,
            );
            append_matmul_gradients(
                graph,
                gradients,
                at,
                gradient,
                left,
                right,
                transpose_left,
                transpose_right,
                Ghost(origin),
                Ghost(scale),
            );
        },
        Op::MeanSquaredError(prediction, target) => {
            let (prediction, target): (ValueId, ValueId) = (*prediction, *target);
            append_mse_gradients(
                graph,
                gradients,
                at,
                gradient,
                prediction,
                target,
                scale,
                Ghost(origin),
            );
        },
        Op::Relu(input) => {
            let input: ValueId = *input;
            assert(read[0] == input);
            let ghost before = *graph;
            let answer: Result<ValueId, TensorError> = graph.relu_backward(input, gradient);
            proof {
                assert(graph.nodes.len() == graph.nodes@.len());
                lemma_append(
                    origin,
                    before,
                    *graph,
                    known,
                    Op::ReluBackward(input, gradient),
                    before.shape_of(input),
                );
            }
            let input_gradient: ValueId = answer.unwrap();
            accumulate_gradient(graph, gradients, input, input_gradient, Ghost(origin));
        },
    }
    proof {
        lemma_passed_down(origin, at as int, known, gradients@);
    }
}

/// Only what the root needs has a derivative, the root has one, and what the nodes from `at` on
/// read has one where they do.
spec fn sweep_holds(origin: Graph, root: int, at: int, gradients: Seq<Option<ValueId>>) -> bool {
    &&& gradients.len() == origin.nodes@.len()
    &&& gradients[root] is Some
    &&& forall|i: int|
        0 <= i < gradients.len() && (#[trigger] gradients[i]) is Some ==> reaches(
            origin.nodes@,
            root,
            i,
        )
    &&& forall|i: int, k: int|
        at <= i < gradients.len() && gradients[i] is Some && 0 <= k < reads(
            origin.nodes@[i].op,
        ).len() ==> gradients[(#[trigger] reads(origin.nodes@[i].op)[k]).index as int] is Some
}

proof fn lemma_sweep_step(
    origin: Graph,
    root: int,
    at: int,
    before: Seq<Option<ValueId>>,
    after: Seq<Option<ValueId>>,
)
    requires
        origin.wf(),
        origin.nodes@.len() <= usize::MAX,
        0 <= at <= root < origin.nodes@.len(),
        before[at] is Some,
        sweep_holds(origin, root, at + 1, before),
        passed_down(origin, at, before, after),
    ensures
        sweep_holds(origin, root, at, after),
{
    let nodes = origin.nodes@;
    let read = reads(nodes[at].op);
    assert(node_wf(origin.id, nodes, at));
    assert(reaches(nodes, root, at));
    assert forall|i: int| 0 <= i < after.len() && before[i] is Some implies (
    #[trigger] after[i]) is Some by {
        let value = origin.value_at(i);
        if read.contains(value) {
            let k = read.index_of(value);
            assert(read[k] == value);
            assert(value.index == i);
        }
    }
    assert forall|i: int| 0 <= i < after.len() && (#[trigger] after[i]) is Some implies reaches(
        nodes,
        root,
        i,
    ) by {
        if before[i] is None {
            let value = origin.value_at(i);
            assert(read.contains(value));
            let k = read.index_of(value);
            assert(read[k] == value);
            assert(value.index == i);
            assert(precedes(origin.id, at, read[k]));
            lemma_reaches_operand(nodes, root, at, k);
        }
    }
    assert forall|i: int, k: int|
        at <= i < after.len() && after[i] is Some && 0 <= k < reads(
            nodes[i].op,
        ).len() implies after[(#[trigger] reads(nodes[i].op)[k]).index as int] is Some by {
        assert(node_wf(origin.id, nodes, i));
        assert(precedes(origin.id, i, reads(nodes[i].op)[k]));
        if i > at {
            if before[i] is None {
                let value = origin.value_at(i);
                assert(read.contains(value));
                let j = read.index_of(value);
                assert(read[j] == value);
                assert(value.index == i);
                assert(precedes(origin.id, at, read[j]));
            }
            assert(before[reads(nodes[i].op)[k].index as int] is Some);
        }
    }
}

proof fn lemma_rewound_step(before: Tape, after: Tape, at: nat, gradient: ValueId, scale: u32)
    requires
        before.gradients[at as int] == Some(gradient),
        after == before.backed(before.nodes[at as int].op, gradient, scale),
    ensures
        before.rewound(at + 1, scale) == after.rewound(at, scale),
{
    assert(((at + 1) - 1) as nat == at);
}

/// How many elements a loss averages over.
pub open spec fn averaged_over(graph: Graph, loss: int) -> nat {
    match graph.nodes@[loss].op {
        Op::MeanSquaredError(prediction, _) => extent(1, graph.shape_of(prediction)),
        _ => 0,
    }
}

/// `after` is `before` with the derivatives of `root` appended, and `gradients` names them.
pub open spec fn differentiates<A: F32Arithmetic>(
    before: Graph,
    root: usize,
    after: Graph,
    gradients: Seq<Option<ValueId>>,
) -> bool {
    exists|denominator: u32, scale: u32|
        {
            &&& #[trigger] counts::<A>(averaged_over(before, root as int) as usize, denominator)
            &&& #[trigger] divides::<A>(TWO_BITS, denominator, scale)
            &&& tape_of(after, gradients) == Tape::begun(before, root as int).rewound(
                (root + 1) as nat,
                scale,
            )
        }
}

/// What differentiating a graph from a loss answers, and what it leaves.
pub open spec fn backward_answer<A: F32Arithmetic>(
    before: Graph,
    loss: ValueId,
    after: Graph,
    answer: Result<Vec<Option<ValueId>>, TensorError>,
) -> bool {
    if !before.knows(loss) {
        &&& answer == Err::<Vec<Option<ValueId>>, TensorError>(TensorError::UnknownValue(loss))
        &&& after == before
    } else if !(before.nodes@[loss.index as int].op is MeanSquaredError) {
        &&& answer == Err::<Vec<Option<ValueId>>, TensorError>(
            TensorError::GradientRootNotMse(loss),
        )
        &&& after == before
    } else {
        match blocking_loss(before, loss.index) {
            Some(at) => {
                &&& answer == Err::<Vec<Option<ValueId>>, TensorError>(
                    TensorError::UnsupportedGradient(before.value_at(at as int)),
                )
                &&& after == before
            },
            None => match answer {
                Ok(gradients) => {
                    &&& differentiable(before, loss)
                    &&& differentiates::<A>(before, loss.index, after, gradients@)
                    &&& taped(before, after, gradients@)
                    &&& forall|i: int|
                        0 <= i < gradients@.len() ==> ((#[trigger] gradients@[i]) is Some
                            <==> reaches(before.nodes@, loss.index as int, i))
                },
                Err(error) => {
                    &&& exists|at: int| #[trigger]
                        backward_operation(before, loss, at) && error
                            == TensorError::UnsupportedGradient(before.value_at(at))
                    &&& after == before
                },
            },
        }
    }
}

impl Graph {
    /// Appends a bounded reverse-mode graph for a scalar mean-squared-error root.
    ///
    /// The returned vector has one entry per node that existed before this call; each entry is the
    /// graph value holding that node's gradient, if the node contributes to `loss`. The resulting
    /// graph is ordinary tensor IR. A nested loss and a generated backward operation are rejected
    /// before any node is appended.
    ///
    /// # Errors
    ///
    /// `UnknownValue`, `GradientRootNotMse` and `UnsupportedGradient`, none of which changes the
    /// graph.
    pub fn backward_mse<A: F32Arithmetic>(&mut self, loss: ValueId) -> (answer: Result<
        Vec<Option<ValueId>>,
        TensorError,
    >)
        requires
            old(self).wf(),
        ensures
            final(self).wf(),
            backward_answer::<A>(*old(self), loss, *final(self), answer),
    {
        let ghost origin = *self;
        if loss.graph_id != self.id || loss.index >= self.nodes.len() {
            return Err(TensorError::UnknownValue(loss));
        }
        let prediction: ValueId = match &self.nodes[loss.index].op {
            Op::MeanSquaredError(prediction, _) => *prediction,
            _ => {
                return Err(TensorError::GradientRootNotMse(loss));
            },
        };
        if let Some(index) = self.find_nested_loss(loss.index) {
            return Err(TensorError::UnsupportedGradient(ValueId { graph_id: self.id, index }));
        }
        if let Some(index) = self.find_backward_operation(loss) {
            assert(backward_operation(*self, loss, index as int));
            return Err(TensorError::UnsupportedGradient(ValueId { graph_id: self.id, index }));
        }
        let ghost root = loss.index as int;
        let ghost nodes = self.nodes@;
        proof {
            assert(node_wf(self.id, nodes, root));
            assert(reads(nodes[root].op)[0] == prediction);
            assert(precedes(self.id, root, prediction));
            assert(node_wf(self.id, nodes, prediction.index as int));
        }
        let count: usize = match element_count(self.nodes[prediction.index].shape.as_slice()) {
            Ok(n) => n,
            Err(_) => 0,
        };
        let denominator: u32 = A::from_count(count);
        let scale: u32 = A::quotient(TWO_BITS, denominator);
        proof {
            assert(counts::<A>(averaged_over(origin, root) as usize, denominator));
            assert(divides::<A>(TWO_BITS, denominator, scale));
        }
        let width: usize = self.nodes.len();
        let mut gradients: Vec<Option<ValueId>> = Vec::with_capacity(width);
        while gradients.len() < width
            invariant
                gradients@.len() <= width,
                forall|i: int| 0 <= i < gradients@.len() ==> (#[trigger] gradients@[i]) is None,
            decreases width - gradients@.len(),
        {
            gradients.push(None);
        }
        let ghost blank = gradients@;
        assert(blank =~= Seq::new(nodes.len(), |i: int| None));
        assert(self.nodes@.take(nodes.len() as int) =~= nodes);
        let one: ValueId = self.constant(Tensor::scalar(ONE_BITS));
        proof {
            assert(self.nodes.len() == self.nodes@.len());
            let kept = self.nodes@.last().op;
            lemma_append(origin, origin, *self, blank, kept, Seq::empty());
        }
        gradients.set(loss.index, Some(one));
        let ghost start = Tape::begun(origin, root);
        proof {
            assert(tape_of(*self, gradients@) =~= start);
            assert(nodes[root].shape@ =~= Seq::<usize>::empty());
            assert(reaches(nodes, root, root));
        }
        let mut at: usize = loss.index + 1;
        while at > 0
            invariant
                origin.wf(),
                nodes == origin.nodes@,
                root == loss.index,
                0 <= root < nodes.len(),
                at <= root + 1,
                differentiable(origin, loss),
                taped(origin, *self, gradients@),
                tape_of(*self, gradients@).rewound(at as nat, scale) == start.rewound(
                    (root + 1) as nat,
                    scale,
                ),
                sweep_holds(origin, root, at as int, gradients@),
            decreases at,
        {
            at = at - 1;
            let ghost before = gradients@;
            let ghost tape = tape_of(*self, before);
            proof {
                assert(before[at as int] is Some ==> reaches(nodes, root, at as int));
                lemma_taped_operands(origin, *self, before, at as int);
            }
            if let Some(gradient) = gradients[at] {
                assert(before[at as int] == Some(gradient));
                append_node_gradients(self, &mut gradients, at, gradient, scale, Ghost(origin));
                proof {
                    assert(gradients.len() == gradients@.len());
                    lemma_sweep_step(origin, root, at as int, before, gradients@);
                    lemma_rewound_step(tape, tape_of(*self, gradients@), at as nat, gradient, scale);
                }
            } else {
                proof {
                    assert(gradients@ == before);
                    assert(sweep_holds(origin, root, at as int, gradients@));
                }
            }
        }
        proof {
            let marked = Seq::new(nodes.len(), |i: int| gradients@[i] is Some);
            assert forall|i: int, k: int|
                0 <= i < nodes.len() && marked[i] && 0 <= k < reads(
                    nodes[i].op,
                ).len() implies marked[(#[trigger] reads(nodes[i].op)[k]).index as int] by {
                lemma_taped_operands(origin, *self, gradients@, i);
            }
            assert(closed_under_reads(nodes, marked));
            assert forall|i: int| 0 <= i < gradients@.len() implies ((
            #[trigger] gradients@[i]) is Some <==> reaches(nodes, root, i)) by {
                if reaches(nodes, root, i) {
                    lemma_closed_holds_needs(nodes, marked, root, i);
                }
            }
            assert(differentiates::<A>(origin, loss.index, *self, gradients@));
        }
        Ok(gradients)
    }
}

} // verus!
