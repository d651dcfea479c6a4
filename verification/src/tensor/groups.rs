//! Pointwise groups: narrow chains of elementwise nodes that a backend may run as one operation.
use vstd::prelude::*;
use vstd::slice::slice_to_vec;

use super::descriptor::{
    consumes, descriptor_reads, node_models, node_steps, NodeDescriptor, NodeModel, OpDescriptor,
};
use super::error::{contains_value, ValueId};
use super::graph::{precedes, Graph};
use super::rewrite::sound_nodes;
use super::schedule::{indexes, position_in, ABSENT};
use super::value::same_shape;

verus! {

/// Whether selected-plan metadata may group a narrow pointwise operation chain.
///
/// This policy is independent from arithmetic rewriting: grouping retains every rounding point
/// and does not permit reassociation.
#[derive(Clone, Copy, Debug, Default, PartialEq, Eq, Structural)]
pub enum TensorPointwiseGroupingPolicy {
    /// Keep each selected graph operation as a separate scheduled operation.
    #[default]
    Disabled,
    /// Group a same-shape Add -> `ReLU` chain when Add has exactly one reader, that `ReLU`.
    SingleUseAddRelu,
    /// Group a same-shape Add/Sub expression with one to eight single-use arithmetic nodes and at
    /// most four external operands, followed by a terminal `ReLU`.
    BoundedAddSubRelu,
    /// Group a same-shape Add/Sub expression with up to eight single-use arithmetic nodes and at
    /// most four external operands, retaining the terminal arithmetic result as its output. A
    /// single operation stays as it is.
    BoundedAddSubIdentity,
    /// Group a same-shape Mul expression with up to eight single-use nodes and at most four
    /// external operands, retaining its terminal multiplication result. A single operation stays
    /// as it is.
    BoundedMulIdentity,
}

/// Epilogue applied after an ordered Add/Sub pointwise expression.
#[derive(Clone, Copy, Debug, PartialEq, Eq, Structural)]
pub enum TensorPointwiseEpilogue {
    /// Return the final arithmetic result without another operation.
    Identity,
    /// Apply `max(value, 0)` after the final arithmetic result.
    Relu,
}

/// Arithmetic operation in a bounded pointwise expression.
#[derive(Clone, Copy, Debug, PartialEq, Eq, Structural)]
pub enum TensorPointwiseArithmeticOp {
    /// Addition in source order.
    Add,
    /// Subtraction in source order.
    Sub,
}

/// Operand reference in a bounded pointwise expression.
#[derive(Clone, Copy, Debug, PartialEq, Eq, Structural)]
pub enum TensorPointwiseOperand {
    /// Index into the group's leaves.
    Leaf(usize),
    /// Index into the preceding steps of the group.
    Step(usize),
}

/// One ordered arithmetic instruction in a bounded pointwise expression.
#[derive(Clone, Copy, Debug, PartialEq, Eq, Structural)]
pub struct TensorPointwiseStep {
    /// Result produced by the corresponding source graph operation.
    pub output: ValueId,
    /// Source arithmetic operation.
    pub op: TensorPointwiseArithmeticOp,
    /// First source operand, preserving operand order.
    pub left: TensorPointwiseOperand,
    /// Second source operand, preserving operand order.
    pub right: TensorPointwiseOperand,
}

/// One ordered multiplication instruction in a bounded Mul expression.
#[derive(Clone, Copy, Debug, PartialEq, Eq, Structural)]
pub struct TensorPointwiseMulStep {
    /// Result produced by the corresponding source graph operation.
    pub output: ValueId,
    /// First source operand.
    pub left: TensorPointwiseOperand,
    /// Second source operand.
    pub right: TensorPointwiseOperand,
}

/// What a bounded Add/Sub group is.
#[verifier::ext_equal]
pub struct BoundedModel {
    pub output: ValueId,
    pub epilogue: TensorPointwiseEpilogue,
    pub leaves: Seq<ValueId>,
    pub steps: Seq<TensorPointwiseStep>,
    pub shape: Seq<usize>,
}

/// Bounded straight-line Add/Sub expression with an explicit terminal epilogue.
#[derive(Debug, PartialEq, Eq)]
pub struct TensorBoundedPointwiseFusionGroup {
    /// Value produced by the selected terminal operation.
    pub output: ValueId,
    /// Operation applied after the ordered arithmetic steps.
    pub epilogue: TensorPointwiseEpilogue,
    /// Unique external values in stable first-use order. Uniforms remain ordinary leaves.
    pub leaves: Vec<ValueId>,
    /// Arithmetic nodes in source topological order. Each node keeps its original operand order.
    pub steps: Vec<TensorPointwiseStep>,
    /// Common logical shape of every leaf, arithmetic node, and terminal `ReLU`.
    pub shape: Vec<usize>,
}

impl View for TensorBoundedPointwiseFusionGroup {
    type V = BoundedModel;

    open spec fn view(&self) -> BoundedModel {
        BoundedModel {
            output: self.output,
            epilogue: self.epilogue,
            leaves: self.leaves@,
            steps: self.steps@,
            shape: self.shape@,
        }
    }
}

impl Clone for TensorBoundedPointwiseFusionGroup {
    fn clone(&self) -> (copy: Self)
        ensures
            copy@ == self@,
    {
        TensorBoundedPointwiseFusionGroup {
            output: self.output,
            epilogue: self.epilogue,
            leaves: slice_to_vec(self.leaves.as_slice()),
            steps: slice_to_vec(self.steps.as_slice()),
            shape: slice_to_vec(self.shape.as_slice()),
        }
    }
}

/// What a bounded Mul group is.
#[verifier::ext_equal]
pub struct MulModel {
    pub output: ValueId,
    pub leaves: Seq<ValueId>,
    pub steps: Seq<TensorPointwiseMulStep>,
    pub shape: Seq<usize>,
}

/// Bounded straight-line Mul expression retaining the terminal result.
#[derive(Debug, PartialEq, Eq)]
pub struct TensorBoundedMulFusionGroup {
    /// Value produced by the selected terminal operation.
    pub output: ValueId,
    /// Unique external values in stable first-use order. Uniforms remain ordinary leaves.
    pub leaves: Vec<ValueId>,
    /// Multiplication nodes in source topological order.
    pub steps: Vec<TensorPointwiseMulStep>,
    /// Common logical shape of every leaf and multiplication node.
    pub shape: Vec<usize>,
}

impl View for TensorBoundedMulFusionGroup {
    type V = MulModel;

    open spec fn view(&self) -> MulModel {
        MulModel {
            output: self.output,
            leaves: self.leaves@,
            steps: self.steps@,
            shape: self.shape@,
        }
    }
}

impl Clone for TensorBoundedMulFusionGroup {
    fn clone(&self) -> (copy: Self)
        ensures
            copy@ == self@,
    {
        TensorBoundedMulFusionGroup {
            output: self.output,
            leaves: slice_to_vec(self.leaves.as_slice()),
            steps: slice_to_vec(self.steps.as_slice()),
            shape: slice_to_vec(self.shape.as_slice()),
        }
    }
}

/// What an Add -> `ReLU` group is.
#[verifier::ext_equal]
pub struct AddReluModel {
    pub add_output: ValueId,
    pub relu_output: ValueId,
    pub left: ValueId,
    pub right: ValueId,
    pub shape: Seq<usize>,
}

/// Source provenance for a grouped Add -> `ReLU` selected operation.
#[derive(Debug, PartialEq, Eq)]
pub struct TensorPointwiseFusionGroup {
    /// Add result suppressed as a separate scheduled operation.
    pub add_output: ValueId,
    /// `ReLU` result and selected output of the group.
    pub relu_output: ValueId,
    /// First Add operand.
    pub left: ValueId,
    /// Second Add operand.
    pub right: ValueId,
    /// Common logical shape of both Add inputs, Add result, and `ReLU` result.
    pub shape: Vec<usize>,
}

impl View for TensorPointwiseFusionGroup {
    type V = AddReluModel;

    open spec fn view(&self) -> AddReluModel {
        AddReluModel {
            add_output: self.add_output,
            relu_output: self.relu_output,
            left: self.left,
            right: self.right,
            shape: self.shape@,
        }
    }
}

/// The most steps that a bounded group may have.
pub const MAX_BOUNDED_POINTWISE_STEPS: usize = 8;

/// The most leaves that a bounded group may have.
pub const MAX_BOUNDED_POINTWISE_LEAVES: usize = 4;

/// The position of a value in a position table.
pub open spec fn lookup(table: Seq<usize>, value: ValueId) -> Option<usize> {
    if value.index < table.len() && table[value.index as int] != ABSENT {
        Some(table[value.index as int])
    } else {
        None
    }
}

/// The position of a value in a position table.
fn find_position(table: &[usize], value: ValueId) -> (position: Option<usize>)
    ensures
        position == lookup(table@, value),
{
    position_in(table, value.index)
}

/// The table finds every node, counts are there for all, and operands stand before their readers.
pub open spec fn searchable(nodes: Seq<NodeModel<'_>>, table: Seq<usize>, counts: Seq<usize>) -> bool {
    &&& indexes(table, node_steps(nodes))
    &&& counts.len() == nodes.len()
    &&& forall|v: ValueId| #[trigger] lookup(table, v) is Some ==> lookup(table, v)->Some_0 < nodes.len()
    &&& forall|p: int, k: int|
        0 <= p < nodes.len() && 0 <= k < consumes(nodes[p].op).len() ==> (lookup(
            table,
            #[trigger] consumes(nodes[p].op)[k],
        ) matches Some(q) ==> q < p)
}

/// A sound list of nodes with its own table is searchable.
pub proof fn lemma_searchable(
    graph: Graph,
    nodes: Seq<NodeModel<'_>>,
    table: Seq<usize>,
    counts: Seq<usize>,
)
    requires
        sound_nodes(graph, nodes),
        indexes(table, node_steps(nodes)),
        counts.len() == nodes.len(),
    ensures
        searchable(nodes, table, counts),
{
    let steps = node_steps(nodes);
    assert forall|v: ValueId| #[trigger] lookup(table, v) is Some implies lookup(table, v)->Some_0
        < nodes.len() && nodes[lookup(table, v)->Some_0 as int].value.index == v.index by {
        let q = table[v.index as int];
        assert(steps[q as int].value.index == v.index);
    }
    assert forall|p: int, k: int|
        0 <= p < nodes.len() && 0 <= k < consumes(nodes[p].op).len() implies (lookup(
        table,
        #[trigger] consumes(nodes[p].op)[k],
    ) matches Some(q) ==> q < p) by {
        let operand = consumes(nodes[p].op)[k];
        assert(precedes(graph.id, nodes[p].value.index as int, operand));
        if let Some(q) = lookup(table, operand) {
            assert(nodes[q as int].value.index == operand.index);
            if q > p {
                assert(nodes[p].value.index < nodes[q as int].value.index);
            }
        }
    }
}

/// The operations that a bounded chain is made of.
#[derive(Clone, Copy, Debug, PartialEq, Eq, Structural)]
pub enum ChainKind {
    AddSub,
    Mul,
}

impl ChainKind {
    /// The operation may be a link of the chain.
    pub open spec fn admits(self, op: OpDescriptor<'_>) -> bool {
        match self {
            ChainKind::AddSub => op is Add || op is Sub,
            ChainKind::Mul => op is Mul,
        }
    }

    /// Whether the operation may be a link of the chain.
    fn accepts(self, op: OpDescriptor<'_>) -> (answer: bool)
        ensures
            answer == self.admits(op),
    {
        match self {
            ChainKind::AddSub => match op {
                OpDescriptor::Add { .. } => true,
                OpDescriptor::Sub { .. } => true,
                _ => false,
            },
            ChainKind::Mul => match op {
                OpDescriptor::Mul { .. } => true,
                _ => false,
            },
        }
    }
}

/// The two operands of a chain link.
fn link_operands(op: OpDescriptor<'_>) -> (pair: Option<(ValueId, ValueId)>)
    ensures
        pair is Some <==> (op is Add || op is Sub || op is Mul),
        pair matches Some((left, right)) ==> consumes(op).len() == 2 && left == consumes(op)[0]
            && right == consumes(op)[1],
{
    match op {
        OpDescriptor::Add { left, right } => Some((left, right)),
        OpDescriptor::Sub { left, right } => Some((left, right)),
        OpDescriptor::Mul { left, right } => Some((left, right)),
        _ => None,
    }
}

/// `value` is produced by a node of this shape that could be a link.
pub open spec fn inner_link(
    kind: ChainKind,
    nodes: Seq<NodeModel<'_>>,
    table: Seq<usize>,
    shape: Seq<usize>,
    value: ValueId,
) -> bool {
    lookup(table, value) matches Some(q) && nodes[q as int].shape == shape && kind.admits(
        nodes[q as int].op,
    )
}

/// Follows a chain from `value` towards its operands and collects the positions of its links.
///
/// A link has the chain's shape. At most one operand of a link is a link itself. An operand that
/// could be a link but has another use cuts the chain, and then there is no chain.
pub open spec fn chain(
    kind: ChainKind,
    nodes: Seq<NodeModel<'_>>,
    table: Seq<usize>,
    counts: Seq<usize>,
    shape: Seq<usize>,
    value: ValueId,
    single_use: bool,
    included: Seq<usize>,
) -> Option<Seq<usize>>
    decreases 9 - included.len(),
{
    match lookup(table, value) {
        None => None,
        Some(at) => {
            let node = nodes[at as int];
            if node.shape != shape || (single_use && counts[at as int] != 1) || !kind.admits(
                node.op,
            ) || included.contains(at) || included.len() >= MAX_BOUNDED_POINTWISE_STEPS {
                None
            } else {
                let left = consumes(node.op)[0];
                let right = consumes(node.op)[1];
                let left_link = inner_link(kind, nodes, table, shape, left);
                let right_link = inner_link(kind, nodes, table, shape, right);
                let left_free = left_link && counts[lookup(table, left)->Some_0 as int] == 1;
                let right_free = right_link && counts[lookup(table, right)->Some_0 as int] == 1;
                if (left_link && !left_free) || (right_link && !right_free) || (left_free
                    && right_free) {
                    None
                } else if left_free {
                    chain(kind, nodes, table, counts, shape, left, true, included.push(at))
                } else if right_free {
                    chain(kind, nodes, table, counts, shape, right, true, included.push(at))
                } else {
                    Some(included.push(at))
                }
            }
        },
    }
}

/// Positions that fall from link to link.
pub open spec fn falling(included: Seq<usize>) -> bool {
    forall|i: int, j: int| 0 <= i < j < included.len() ==> included[i] > included[j]
}

/// A chain runs from later nodes to earlier ones, and all of its links are of its kind and shape.
pub proof fn lemma_chain_falls(
    kind: ChainKind,
    nodes: Seq<NodeModel<'_>>,
    table: Seq<usize>,
    counts: Seq<usize>,
    shape: Seq<usize>,
    value: ValueId,
    single_use: bool,
    included: Seq<usize>,
)
    requires
        searchable(nodes, table, counts),
        falling(included),
        included.len() > 0 ==> (lookup(table, value) matches Some(q) ==> q < included.last()),
        forall|i: int|
            0 <= i < included.len() ==> (#[trigger] included[i]) < nodes.len() && kind.admits(
                nodes[included[i] as int].op,
            ) && nodes[included[i] as int].shape == shape,
    ensures
        chain(kind, nodes, table, counts, shape, value, single_use, included) matches Some(links)
            ==> {
            &&& falling(links)
            &&& included.len() < links.len() <= MAX_BOUNDED_POINTWISE_STEPS
            &&& links.take(included.len() as int) == included
            &&& Some(links[included.len() as int]) == lookup(table, value)
            &&& forall|i: int|
                0 <= i < links.len() ==> (#[trigger] links[i]) < nodes.len() && kind.admits(
                    nodes[links[i] as int].op,
                ) && nodes[links[i] as int].shape == shape
        },
    decreases 9 - included.len(),
{
    if let Some(links) = chain(kind, nodes, table, counts, shape, value, single_use, included) {
        let at = lookup(table, value)->Some_0;
        let node = nodes[at as int];
        let grown = included.push(at);
        assert(falling(grown)) by {
            assert forall|i: int, j: int| 0 <= i < j < grown.len() implies grown[i] > grown[j] by {
                if j == included.len() {
                    assert(included.last() == included[included.len() - 1]);
                }
            }
        }
        let left = consumes(node.op)[0];
        let right = consumes(node.op)[1];
        let left_link = inner_link(kind, nodes, table, shape, left);
        let left_free = left_link && counts[lookup(table, left)->Some_0 as int] == 1;
        let right_link = inner_link(kind, nodes, table, shape, right);
        let right_free = right_link && counts[lookup(table, right)->Some_0 as int] == 1;
        assert(grown.take(included.len() as int) =~= included);
        if left_free {
            lemma_chain_falls(kind, nodes, table, counts, shape, left, true, grown);
        } else if right_free {
            lemma_chain_falls(kind, nodes, table, counts, shape, right, true, grown);
        }
        assert(links.take(grown.len() as int) == grown);
        assert(links.take(included.len() as int) =~= grown.take(included.len() as int));
        assert(links.take(grown.len() as int)[included.len() as int] == at);
    }
}

/// Follows a chain and collects the positions of its links.
fn collect_bounded(
    kind: ChainKind,
    value: ValueId,
    shape: &[usize],
    nodes: &[NodeDescriptor<'_>],
    table: &[usize],
    counts: &[usize],
    included: &mut Vec<usize>,
    require_single_use: bool,
) -> (complete: bool)
    requires
        searchable(node_models(nodes@), table@, counts@),
    ensures
        ({
            let links = chain(
                kind,
                node_models(nodes@),
                table@,
                counts@,
                shape@,
                value,
                require_single_use,
                old(included)@,
            );
            &&& complete == (links is Some)
            &&& complete ==> final(included)@ == links->Some_0
        }),
    decreases 9 - old(included)@.len(),
{
    let ghost models = node_models(nodes@);
    let index: usize = match find_position(table, value) {
        Some(index) => index,
        None => {
            return false;
        },
    };
    let node: NodeDescriptor<'_> = nodes[index];
    assert(models[index as int] == node@);
    if !same_shape(node.shape, shape) || (require_single_use && counts[index] != 1)
        || !kind.accepts(node.op) {
        return false;
    }
    if contains_position(included.as_slice(), index) || included.len()
        >= MAX_BOUNDED_POINTWISE_STEPS {
        return false;
    }
    included.push(index);
    let (left, right): (ValueId, ValueId) = match link_operands(node.op) {
        Some(pair) => pair,
        None => {
            return false;
        },
    };
    let left_link: bool = is_inner_link(kind, left, shape, nodes, table);
    let right_link: bool = is_inner_link(kind, right, shape, nodes, table);
    let left_free: bool = left_link && has_one_use(left, table, counts);
    let right_free: bool = right_link && has_one_use(right, table, counts);
    // A link with another reader or an output pin cuts the chain: it is not passed off as an
    // external operand. Branched expressions stay separate.
    if (left_link && !left_free) || (right_link && !right_free) || (left_free && right_free) {
        return false;
    }
    if left_free {
        return collect_bounded(kind, left, shape, nodes, table, counts, included, true);
    }
    if right_free {
        return collect_bounded(kind, right, shape, nodes, table, counts, included, true);
    }
    true
}

fn contains_position(positions: &[usize], position: usize) -> (found: bool)
    ensures
        found == positions@.contains(position),
{
    let mut at: usize = 0;
    while at < positions.len()
        invariant
            at <= positions@.len(),
            forall|i: int| 0 <= i < at ==> positions@[i] != position,
        decreases positions@.len() - at,
    {
        if positions[at] == position {
            assert(positions@[at as int] == position);
            return true;
        }
        at += 1;
    }
    false
}

fn is_inner_link(
    kind: ChainKind,
    value: ValueId,
    shape: &[usize],
    nodes: &[NodeDescriptor<'_>],
    table: &[usize],
) -> (answer: bool)
    requires
        forall|v: ValueId| #[trigger] lookup(table@, v) is Some ==> lookup(table@, v)->Some_0 < nodes@.len(),
    ensures
        answer == inner_link(kind, node_models(nodes@), table@, shape@, value),
{
    match find_position(table, value) {
        Some(position) => {
            assert(node_models(nodes@)[position as int] == nodes@[position as int]@);
            same_shape(nodes[position].shape, shape) && kind.accepts(nodes[position].op)
        },
        None => false,
    }
}

fn has_one_use(value: ValueId, table: &[usize], counts: &[usize]) -> (answer: bool)
    requires
        lookup(table@, value) matches Some(q) && q < counts@.len(),
    ensures
        answer == (counts@[lookup(table@, value)->Some_0 as int] == 1),
{
    match find_position(table, value) {
        Some(position) => counts[position] == 1,
        None => false,
    }
}

/// How an operand of a link is referred to, and the leaves after it has been.
pub open spec fn resolved(
    table: Seq<usize>,
    done: Seq<usize>,
    leaves: Seq<ValueId>,
    value: ValueId,
) -> (TensorPointwiseOperand, Seq<ValueId>) {
    if lookup(table, value) matches Some(q) && done.contains(q) {
        (TensorPointwiseOperand::Step(done.index_of(lookup(table, value)->Some_0) as usize), leaves)
    } else if leaves.contains(value) {
        (TensorPointwiseOperand::Leaf(leaves.index_of(value) as usize), leaves)
    } else {
        (TensorPointwiseOperand::Leaf(leaves.len() as usize), leaves.push(value))
    }
}

/// The leaves and instructions of the first `count` links, in node order. There are none when
/// there are too many leaves.
pub open spec fn assembled(
    nodes: Seq<NodeModel<'_>>,
    table: Seq<usize>,
    links: Seq<usize>,
    count: int,
) -> Option<(Seq<ValueId>, Seq<TensorPointwiseMulStep>)>
    decreases count,
{
    if count <= 0 {
        Some((Seq::empty(), Seq::empty()))
    } else {
        match assembled(nodes, table, links, count - 1) {
            None => None,
            Some((leaves, steps)) => {
                let node = nodes[links[count - 1] as int];
                let done = links.take(count - 1);
                let (left, more) = resolved(table, done, leaves, consumes(node.op)[0]);
                let (right, most) = resolved(table, done, more, consumes(node.op)[1]);
                if most.len() > MAX_BOUNDED_POINTWISE_LEAVES {
                    None
                } else {
                    Some(
                        (
                            most,
                            steps.push(TensorPointwiseMulStep { output: node.value, left, right }),
                        ),
                    )
                }
            },
        }
    }
}

/// An operand refers to one of `leaves` leaves or of `steps` steps.
pub open spec fn refers_back(operand: TensorPointwiseOperand, leaves: nat, steps: nat) -> bool {
    match operand {
        TensorPointwiseOperand::Leaf(at) => at < leaves,
        TensorPointwiseOperand::Step(at) => at < steps,
    }
}

/// Leaves are few and unique, every instruction refers to leaves and to earlier instructions, and
/// every leaf is read by some link.
pub proof fn lemma_assembled(
    nodes: Seq<NodeModel<'_>>,
    table: Seq<usize>,
    links: Seq<usize>,
    count: int,
)
    requires
        0 <= count <= links.len() <= MAX_BOUNDED_POINTWISE_STEPS,
        forall|i: int|
            0 <= i < links.len() ==> consumes(nodes[(#[trigger] links[i]) as int].op).len() == 2,
    ensures
        assembled(nodes, table, links, count) matches Some((leaves, steps)) ==> {
            &&& leaves.no_duplicates()
            &&& leaves.len() <= MAX_BOUNDED_POINTWISE_LEAVES
            &&& steps.len() == count
            &&& forall|i: int|
                0 <= i < count ==> {
                    &&& (#[trigger] steps[i]).output == nodes[links[i] as int].value
                    &&& refers_back(steps[i].left, leaves.len(), i as nat)
                    &&& refers_back(steps[i].right, leaves.len(), i as nat)
                }
            &&& forall|l: int|
                0 <= l < leaves.len() ==> exists|i: int|
                    0 <= i < count && consumes(nodes[(#[trigger] links[i]) as int].op).contains(
                        #[trigger] leaves[l],
                    )
        },
    decreases count,
{
    if count > 0 {
        lemma_assembled(nodes, table, links, count - 1);
        if let Some((leaves, steps)) = assembled(nodes, table, links, count - 1) {
            let node = nodes[links[count - 1] as int];
            let done = links.take(count - 1);
            let (left, more) = resolved(table, done, leaves, consumes(node.op)[0]);
            let (right, most) = resolved(table, done, more, consumes(node.op)[1]);
            if most.len() <= MAX_BOUNDED_POINTWISE_LEAVES {
                let grown = steps.push(
                    TensorPointwiseMulStep { output: node.value, left, right },
                );
                assert(consumes(node.op).contains(consumes(node.op)[0]));
                assert(consumes(node.op).contains(consumes(node.op)[1]));
                assert(most.no_duplicates());
                assert forall|i: int| 0 <= i < count implies {
                    &&& (#[trigger] grown[i]).output == nodes[links[i] as int].value
                    &&& refers_back(grown[i].left, most.len(), i as nat)
                    &&& refers_back(grown[i].right, most.len(), i as nat)
                } by {
                    if i < count - 1 {
                        assert(grown[i] == steps[i]);
                    }
                }
                assert forall|l: int| 0 <= l < most.len() implies exists|i: int|
                    0 <= i < count && consumes(nodes[(#[trigger] links[i]) as int].op).contains(
                        #[trigger] most[l],
                    ) by {
                    if l < leaves.len() {
                        assert(most[l] == leaves[l]);
                        let i = choose|i: int|
                            0 <= i < count - 1 && consumes(
                                nodes[(#[trigger] links[i]) as int].op,
                            ).contains(leaves[l]);
                        assert(consumes(nodes[links[i] as int].op).contains(most[l]));
                    } else {
                        assert(consumes(nodes[links[count - 1] as int].op).contains(most[l]));
                    }
                }
            }
        }
    }
}

/// Refers to an operand of a link, adding it to the leaves where it is a new one.
fn resolve(table: &[usize], done: &[usize], leaves: &mut Vec<ValueId>, value: ValueId) -> (operand:
    TensorPointwiseOperand)
    requires
        done@.no_duplicates(),
        old(leaves)@.no_duplicates(),
    ensures
        (operand, final(leaves)@) == resolved(table@, done@, old(leaves)@, value),
        final(leaves)@.no_duplicates(),
{
    if let Some(producer) = find_position(table, value) {
        let mut at: usize = 0;
        while at < done.len()
            invariant
                at <= done@.len(),
                done@.no_duplicates(),
                lookup(table@, value) == Some(producer),
                leaves@ == old(leaves)@,
                leaves@.no_duplicates(),
                forall|i: int| 0 <= i < at ==> done@[i] != producer,
            decreases done@.len() - at,
        {
            if done[at] == producer {
                assert(done@[at as int] == producer);
                assert(done@.contains(producer));
                assert(done@.index_of(producer) == at);
                return TensorPointwiseOperand::Step(at);
            }
            at += 1;
        }
    }
    let mut at: usize = 0;
    while at < leaves.len()
        invariant
            at <= leaves@.len(),
            leaves@ == old(leaves)@,
            leaves@.no_duplicates(),
            !(lookup(table@, value) matches Some(q) && done@.contains(q)),
            forall|i: int| 0 <= i < at ==> leaves@[i] != value,
        decreases leaves@.len() - at,
    {
        if leaves[at] == value {
            assert(leaves@[at as int] == value);
            assert(leaves@.contains(value));
            assert(leaves@.index_of(value) == at);
            return TensorPointwiseOperand::Leaf(at);
        }
        at += 1;
    }
    let fresh: usize = leaves.len();
    leaves.push(value);
    TensorPointwiseOperand::Leaf(fresh)
}

/// Makes the leaves and instructions of a chain, whose links stand in node order.
fn assemble(links: &[usize], nodes: &[NodeDescriptor<'_>], table: &[usize]) -> (parts: Option<
    (Vec<ValueId>, Vec<TensorPointwiseMulStep>),
>)
    requires
        links@.no_duplicates(),
        forall|i: int|
            0 <= i < links@.len() ==> (#[trigger] links@[i]) < nodes@.len() && {
                let op = nodes@[links@[i] as int].op;
                op is Add || op is Sub || op is Mul
            },
    ensures
        match parts {
            Some((leaves, steps)) => assembled(
                node_models(nodes@),
                table@,
                links@,
                links@.len() as int,
            ) == Some((leaves@, steps@)),
            None => assembled(node_models(nodes@), table@, links@, links@.len() as int) is None,
        },
{
    let ghost models = node_models(nodes@);
    let mut leaves: Vec<ValueId> = Vec::new();
    let mut steps: Vec<TensorPointwiseMulStep> = Vec::new();
    let mut done: Vec<usize> = Vec::with_capacity(links.len());
    let mut at: usize = 0;
    while at < links.len()
        invariant
            at <= links@.len(),
            models == node_models(nodes@),
            links@.no_duplicates(),
            forall|i: int|
                0 <= i < links@.len() ==> (#[trigger] links@[i]) < nodes@.len() && {
                    let op = nodes@[links@[i] as int].op;
                    op is Add || op is Sub || op is Mul
                },
            done@ == links@.take(at as int),
            leaves@.no_duplicates(),
            assembled(models, table@, links@, at as int) == Some((leaves@, steps@)),
        decreases links@.len() - at,
    {
        let node: NodeDescriptor<'_> = nodes[links[at]];
        assert(models[links@[at as int] as int] == node@);
        let (left_value, right_value): (ValueId, ValueId) = match link_operands(node.op) {
            Some(pair) => pair,
            None => {
                return None;
            },
        };
        let left: TensorPointwiseOperand = resolve(table, done.as_slice(), &mut leaves, left_value);
        let right: TensorPointwiseOperand = resolve(
            table,
            done.as_slice(),
            &mut leaves,
            right_value,
        );
        if leaves.len() > MAX_BOUNDED_POINTWISE_LEAVES {
            proof {
                assert(assembled(models, table@, links@, at + 1) is None);
                lemma_assembly_fails(models, table@, links@, at + 1, links@.len() as int);
            }
            return None;
        }
        steps.push(TensorPointwiseMulStep { output: node.value, left, right });
        done.push(links[at]);
        assert(done@ =~= links@.take(at + 1));
        at += 1;
    }
    Some((leaves, steps))
}

proof fn lemma_assembly_fails(
    nodes: Seq<NodeModel<'_>>,
    table: Seq<usize>,
    links: Seq<usize>,
    early: int,
    count: int,
)
    requires
        assembled(nodes, table, links, early) is None,
        early <= count,
    ensures
        assembled(nodes, table, links, count) is None,
    decreases count - early,
{
    if early < count {
        lemma_assembly_fails(nodes, table, links, early, count - 1);
    }
}

/// The instructions with the arithmetic operations of their links.
pub open spec fn with_ops(
    nodes: Seq<NodeModel<'_>>,
    links: Seq<usize>,
    steps: Seq<TensorPointwiseMulStep>,
) -> Seq<TensorPointwiseStep> {
    Seq::new(
        steps.len(),
        |i: int|
            TensorPointwiseStep {
                output: steps[i].output,
                op: if nodes[links[i] as int].op is Add {
                    TensorPointwiseArithmeticOp::Add
                } else {
                    TensorPointwiseArithmeticOp::Sub
                },
                left: steps[i].left,
                right: steps[i].right,
            },
    )
}

/// The links of a chain in node order, if it is short enough to be grouped.
pub open spec fn group_links(
    kind: ChainKind,
    nodes: Seq<NodeModel<'_>>,
    table: Seq<usize>,
    counts: Seq<usize>,
    shape: Seq<usize>,
    root: ValueId,
) -> Option<Seq<usize>> {
    match chain(kind, nodes, table, counts, shape, root, false, Seq::empty()) {
        Some(links) => if 1 <= links.len() <= MAX_BOUNDED_POINTWISE_STEPS {
            Some(links.reverse())
        } else {
            None
        },
        None => None,
    }
}

/// A chain of this many operations is worth a group. A single operation is, if another one follows
/// it.
pub open spec fn worth_grouping(epilogue: TensorPointwiseEpilogue, count: nat) -> bool {
    match epilogue {
        TensorPointwiseEpilogue::Identity => 2 <= count,
        TensorPointwiseEpilogue::Relu => 1 <= count,
    }
}

/// The group of the Add/Sub chain that computes `root`.
pub open spec fn add_sub_group(
    nodes: Seq<NodeModel<'_>>,
    table: Seq<usize>,
    counts: Seq<usize>,
    root: ValueId,
    output: ValueId,
    shape: Seq<usize>,
    epilogue: TensorPointwiseEpilogue,
) -> Option<BoundedModel> {
    match group_links(ChainKind::AddSub, nodes, table, counts, shape, root) {
        Some(links) => match assembled(nodes, table, links, links.len() as int) {
            Some((leaves, steps)) => if worth_grouping(epilogue, links.len()) {
                Some(
                    BoundedModel {
                        output,
                        epilogue,
                        leaves,
                        steps: with_ops(nodes, links, steps),
                        shape,
                    },
                )
            } else {
                None
            },
            None => None,
        },
        None => None,
    }
}

/// The group that ends in a `ReLU` of a single-use Add/Sub chain.
pub open spec fn relu_group(
    nodes: Seq<NodeModel<'_>>,
    table: Seq<usize>,
    counts: Seq<usize>,
    node: NodeModel<'_>,
) -> Option<BoundedModel> {
    match node.op {
        OpDescriptor::Relu { input } => match lookup(table, input) {
            Some(q) => if node.shape == nodes[q as int].shape && ChainKind::AddSub.admits(
                nodes[q as int].op,
            ) && counts[q as int] == 1 {
                add_sub_group(
                    nodes,
                    table,
                    counts,
                    input,
                    node.value,
                    node.shape,
                    TensorPointwiseEpilogue::Relu,
                )
            } else {
                None
            },
            None => None,
        },
        _ => None,
    }
}

/// A node that reads `value`.
pub open spec fn consumer(nodes: Seq<NodeModel<'_>>, at: int, value: ValueId) -> bool {
    0 <= at < nodes.len() && consumes(nodes[at].op).contains(value)
}

/// The value must be preserved: it is requested, some reader is neither Add, Sub nor `ReLU`, or
/// several nodes read it.
pub open spec fn identity_boundary(
    nodes: Seq<NodeModel<'_>>,
    outputs: Seq<ValueId>,
    value: ValueId,
) -> bool {
    ||| outputs.contains(value)
    ||| exists|c: int| #[trigger]
        consumer(nodes, c, value) && !(nodes[c].op is Add || nodes[c].op is Sub
            || nodes[c].op is Relu)
    ||| exists|c: int, d: int|
        c < d && #[trigger] consumer(nodes, c, value) && #[trigger] consumer(nodes, d, value)
}

/// The group that ends in an Add or Sub whose result must be preserved.
pub open spec fn identity_group(
    nodes: Seq<NodeModel<'_>>,
    table: Seq<usize>,
    counts: Seq<usize>,
    outputs: Seq<ValueId>,
    node: NodeModel<'_>,
) -> Option<BoundedModel> {
    if ChainKind::AddSub.admits(node.op) && identity_boundary(nodes, outputs, node.value) {
        add_sub_group(
            nodes,
            table,
            counts,
            node.value,
            node.value,
            node.shape,
            TensorPointwiseEpilogue::Identity,
        )
    } else {
        None
    }
}

/// The product must be preserved: it is requested, something that is no Mul reads it, or it has
/// several uses.
pub open spec fn mul_boundary(
    nodes: Seq<NodeModel<'_>>,
    table: Seq<usize>,
    counts: Seq<usize>,
    outputs: Seq<ValueId>,
    value: ValueId,
) -> bool {
    ||| outputs.contains(value)
    ||| exists|c: int| #[trigger]
        consumer(nodes, c, value) && nodes[c].value != value && !(nodes[c].op is Mul)
    ||| counts[lookup(table, value)->Some_0 as int] > 1
}

/// The group that ends in a Mul whose result must be preserved.
pub open spec fn mul_group(
    nodes: Seq<NodeModel<'_>>,
    table: Seq<usize>,
    counts: Seq<usize>,
    outputs: Seq<ValueId>,
    node: NodeModel<'_>,
) -> Option<MulModel> {
    if node.op is Mul && mul_boundary(nodes, table, counts, outputs, node.value) {
        match group_links(ChainKind::Mul, nodes, table, counts, node.shape, node.value) {
            Some(links) => match assembled(nodes, table, links, links.len() as int) {
                Some((leaves, steps)) => if 2 <= links.len() {
                    Some(MulModel { output: node.value, leaves, steps, shape: node.shape })
                } else {
                    None
                },
                None => None,
            },
            None => None,
        }
    } else {
        None
    }
}

/// The group of a `ReLU` with the single-use Add of the same shape that it reads.
pub open spec fn add_relu_group(
    nodes: Seq<NodeModel<'_>>,
    table: Seq<usize>,
    counts: Seq<usize>,
    node: NodeModel<'_>,
) -> Option<AddReluModel> {
    match node.op {
        OpDescriptor::Relu { input } => match lookup(table, input) {
            Some(q) => match nodes[q as int].op {
                OpDescriptor::Add { left, right } => if counts[q as int] == 1 && node.shape
                    == nodes[q as int].shape && scheduled_with_shape(
                    nodes,
                    table,
                    left,
                    node.shape,
                ) && scheduled_with_shape(nodes, table, right, node.shape) {
                    Some(
                        AddReluModel {
                            add_output: input,
                            relu_output: node.value,
                            left,
                            right,
                            shape: node.shape,
                        },
                    )
                } else {
                    None
                },
                _ => None,
            },
            None => None,
        },
        _ => None,
    }
}

/// `value` is scheduled and has this shape.
pub open spec fn scheduled_with_shape(
    nodes: Seq<NodeModel<'_>>,
    table: Seq<usize>,
    value: ValueId,
    shape: Seq<usize>,
) -> bool {
    lookup(table, value) matches Some(q) && nodes[q as int].shape == shape
}

/// The groups that a policy selects.
#[verifier::ext_equal]
pub struct GroupsModel {
    pub pointwise: Seq<AddReluModel>,
    pub bounded: Seq<BoundedModel>,
    pub muls: Seq<MulModel>,
}

/// The groups that a policy selects, each kind in node order.
pub open spec fn groups_of(
    nodes: Seq<NodeModel<'_>>,
    table: Seq<usize>,
    counts: Seq<usize>,
    outputs: Seq<ValueId>,
    policy: TensorPointwiseGroupingPolicy,
) -> GroupsModel {
    GroupsModel {
        pointwise: if policy == TensorPointwiseGroupingPolicy::SingleUseAddRelu {
            nodes.filter_map(|node: NodeModel<'_>| add_relu_group(nodes, table, counts, node))
        } else {
            Seq::empty()
        },
        bounded: if policy == TensorPointwiseGroupingPolicy::BoundedAddSubRelu {
            nodes.filter_map(|node: NodeModel<'_>| relu_group(nodes, table, counts, node))
        } else if policy == TensorPointwiseGroupingPolicy::BoundedAddSubIdentity {
            nodes.filter_map(
                |node: NodeModel<'_>| identity_group(nodes, table, counts, outputs, node),
            )
        } else {
            Seq::empty()
        },
        muls: if policy == TensorPointwiseGroupingPolicy::BoundedMulIdentity {
            nodes.filter_map(|node: NodeModel<'_>| mul_group(nodes, table, counts, outputs, node))
        } else {
            Seq::empty()
        },
    }
}

/// The links of a groupable chain, in node order.
fn find_links(
    kind: ChainKind,
    root: ValueId,
    shape: &[usize],
    nodes: &[NodeDescriptor<'_>],
    table: &[usize],
    counts: &[usize],
) -> (links: Option<Vec<usize>>)
    requires
        searchable(node_models(nodes@), table@, counts@),
    ensures
        ({
            let expected = group_links(
                kind,
                node_models(nodes@),
                table@,
                counts@,
                shape@,
                root,
            );
            match links {
                Some(l) => {
                    &&& expected == Some(l@)
                    &&& l@.no_duplicates()
                    &&& 1 <= l@.len() <= MAX_BOUNDED_POINTWISE_STEPS
                    &&& forall|i: int|
                        0 <= i < l@.len() ==> (#[trigger] l@[i]) < nodes@.len() && kind.admits(
                            nodes@[l@[i] as int].op,
                        )
                },
                None => expected is None,
            }
        }),
{
    let ghost models = node_models(nodes@);
    let mut included: Vec<usize> = Vec::new();
    proof {
        lemma_chain_falls(
            kind,
            models,
            table@,
            counts@,
            shape@,
            root,
            false,
            Seq::empty(),
        );
    }
    assert(included@ =~= Seq::<usize>::empty());
    if !collect_bounded(kind, root, shape, nodes, table, counts, &mut included, false) {
        return None;
    }
    if included.len() < 1 || included.len() > MAX_BOUNDED_POINTWISE_STEPS {
        return None;
    }
    // A chain falls from link to link, so turning it round puts it in node order.
    let mut links: Vec<usize> = Vec::with_capacity(included.len());
    while links.len() < included.len()
        invariant
            links@.len() <= included@.len(),
            forall|i: int|
                0 <= i < links@.len() ==> #[trigger] links@[i] == included@[included@.len() - 1
                    - i],
        decreases included@.len() - links@.len(),
    {
        let back: usize = included.len() - 1 - links.len();
        links.push(included[back]);
    }
    proof {
        assert(links@ =~= included@.reverse());
        assert forall|i: int| 0 <= i < links@.len() implies (#[trigger] links@[i]) < nodes@.len()
            && kind.admits(nodes@[links@[i] as int].op) by {
            assert(links@[i] == included@[included@.len() - 1 - i]);
            assert(models[links@[i] as int] == nodes@[links@[i] as int]@);
        }
        assert(links@.no_duplicates());
    }
    Some(links)
}

/// Makes the group of the Add/Sub chain that computes `root`.
fn make_bounded_pointwise_group(
    root: ValueId,
    output: ValueId,
    shape: &[usize],
    epilogue: TensorPointwiseEpilogue,
    nodes: &[NodeDescriptor<'_>],
    table: &[usize],
    counts: &[usize],
) -> (group: Option<TensorBoundedPointwiseFusionGroup>)
    requires
        searchable(node_models(nodes@), table@, counts@),
    ensures
        ({
            let expected = add_sub_group(
                node_models(nodes@),
                table@,
                counts@,
                root,
                output,
                shape@,
                epilogue,
            );
            match group {
                Some(g) => expected == Some(g@),
                None => expected is None,
            }
        }),
{
    let ghost models = node_models(nodes@);
    let links: Vec<usize> = find_links(ChainKind::AddSub, root, shape, nodes, table, counts)?;
    let least: usize = match epilogue {
        TensorPointwiseEpilogue::Identity => 2,
        TensorPointwiseEpilogue::Relu => 1,
    };
    if links.len() < least {
        return None;
    }
    let (leaves, parts): (Vec<ValueId>, Vec<TensorPointwiseMulStep>) = assemble(
        links.as_slice(),
        nodes,
        table,
    )?;
    let mut steps: Vec<TensorPointwiseStep> = Vec::with_capacity(parts.len());
    proof {
        assert forall|i: int| 0 <= i < links@.len() implies consumes(
            models[(#[trigger] links@[i]) as int].op,
        ).len() == 2 by {
            assert(models[links@[i] as int] == nodes@[links@[i] as int]@);
        }
        lemma_assembled(models, table@, links@, links@.len() as int);
    }
    while steps.len() < parts.len()
        invariant
            models == node_models(nodes@),
            steps@.len() <= parts@.len() == links@.len(),
            forall|i: int|
                0 <= i < links@.len() ==> (#[trigger] links@[i]) < nodes@.len()
                    && ChainKind::AddSub.admits(nodes@[links@[i] as int].op),
            forall|i: int|
                0 <= i < steps@.len() ==> #[trigger] steps@[i] == with_ops(
                    models,
                    links@,
                    parts@,
                )[i],
        decreases parts@.len() - steps@.len(),
    {
        let at: usize = steps.len();
        let part: TensorPointwiseMulStep = parts[at];
        assert(models[links@[at as int] as int] == nodes@[links@[at as int] as int]@);
        let op: TensorPointwiseArithmeticOp = match nodes[links[at]].op {
            OpDescriptor::Add { .. } => TensorPointwiseArithmeticOp::Add,
            _ => TensorPointwiseArithmeticOp::Sub,
        };
        steps.push(
            TensorPointwiseStep { output: part.output, op, left: part.left, right: part.right },
        );
    }
    assert(steps@ =~= with_ops(models, links@, parts@));
    Some(
        TensorBoundedPointwiseFusionGroup {
            output,
            epilogue,
            leaves,
            steps,
            shape: slice_to_vec(shape),
        },
    )
}

/// Makes the group that ends in a `ReLU`.
fn identify_bounded_pointwise_relu_group(
    relu: &NodeDescriptor<'_>,
    nodes: &[NodeDescriptor<'_>],
    table: &[usize],
    counts: &[usize],
) -> (group: Option<TensorBoundedPointwiseFusionGroup>)
    requires
        searchable(node_models(nodes@), table@, counts@),
    ensures
        match group {
            Some(g) => relu_group(node_models(nodes@), table@, counts@, relu@) == Some(g@),
            None => relu_group(node_models(nodes@), table@, counts@, relu@) is None,
        },
{
    let input: ValueId = match relu.op {
        OpDescriptor::Relu { input } => input,
        _ => {
            return None;
        },
    };
    let root: usize = find_position(table, input)?;
    assert(node_models(nodes@)[root as int] == nodes@[root as int]@);
    if !same_shape(relu.shape, nodes[root].shape) || !ChainKind::AddSub.accepts(nodes[root].op)
        || counts[root] != 1 {
        return None;
    }
    make_bounded_pointwise_group(
        input,
        relu.value,
        relu.shape,
        TensorPointwiseEpilogue::Relu,
        nodes,
        table,
        counts,
    )
}

/// Whether an Add or Sub result must be preserved.
fn is_identity_group_boundary(
    value: ValueId,
    nodes: &[NodeDescriptor<'_>],
    outputs: &[ValueId],
) -> (answer: bool)
    ensures
        answer == identity_boundary(node_models(nodes@), outputs@, value),
{
    let ghost models = node_models(nodes@);
    if contains_value(outputs, value) {
        return true;
    }
    let mut seen: Option<usize> = None;
    let mut at: usize = 0;
    while at < nodes.len()
        invariant
            at <= nodes@.len(),
            models == node_models(nodes@),
            !outputs@.contains(value),
            match seen {
                Some(first) => first < at && consumer(models, first as int, value),
                None => true,
            },
            forall|c: int|
                0 <= c < at && #[trigger] consumer(models, c, value) ==> seen == Some(c as usize)
                    && (models[c].op is Add || models[c].op is Sub || models[c].op is Relu),
        decreases nodes@.len() - at,
    {
        let node: NodeDescriptor<'_> = nodes[at];
        assert(models[at as int] == node@);
        if descriptor_reads(node.op, value) {
            assert(consumer(models, at as int, value));
            match node.op {
                OpDescriptor::Add { .. } => {},
                OpDescriptor::Sub { .. } => {},
                OpDescriptor::Relu { .. } => {},
                _ => {
                    return true;
                },
            }
            if let Some(first) = seen {
                assert(consumer(models, first as int, value) && consumer(models, at as int, value));
                return true;
            }
            seen = Some(at);
        }
        at += 1;
    }
    false
}

/// Makes the group that ends in an Add or Sub whose result must be preserved.
fn identify_bounded_pointwise_identity_group(
    terminal: &NodeDescriptor<'_>,
    nodes: &[NodeDescriptor<'_>],
    table: &[usize],
    counts: &[usize],
    outputs: &[ValueId],
) -> (group: Option<TensorBoundedPointwiseFusionGroup>)
    requires
        searchable(node_models(nodes@), table@, counts@),
    ensures
        match group {
            Some(g) => identity_group(
                node_models(nodes@),
                table@,
                counts@,
                outputs@,
                terminal@,
            ) == Some(g@),
            None => identity_group(
                node_models(nodes@),
                table@,
                counts@,
                outputs@,
                terminal@,
            ) is None,
        },
{
    if !ChainKind::AddSub.accepts(terminal.op) || !is_identity_group_boundary(
        terminal.value,
        nodes,
        outputs,
    ) {
        return None;
    }
    make_bounded_pointwise_group(
        terminal.value,
        terminal.value,
        terminal.shape,
        TensorPointwiseEpilogue::Identity,
        nodes,
        table,
        counts,
    )
}

/// Whether a product must be preserved.
fn is_mul_group_boundary(
    value: ValueId,
    nodes: &[NodeDescriptor<'_>],
    table: &[usize],
    counts: &[usize],
    outputs: &[ValueId],
) -> (answer: bool)
    requires
        lookup(table@, value) matches Some(q) && q < counts@.len(),
    ensures
        answer == mul_boundary(node_models(nodes@), table@, counts@, outputs@, value),
{
    let ghost models = node_models(nodes@);
    if contains_value(outputs, value) {
        return true;
    }
    let mut at: usize = 0;
    while at < nodes.len()
        invariant
            at <= nodes@.len(),
            models == node_models(nodes@),
            forall|c: int|
                0 <= c < at && #[trigger] consumer(models, c, value) ==> models[c].value == value
                    || models[c].op is Mul,
        decreases nodes@.len() - at,
    {
        let node: NodeDescriptor<'_> = nodes[at];
        assert(models[at as int] == node@);
        if node.value != value && !ChainKind::Mul.accepts(node.op) && descriptor_reads(
            node.op,
            value,
        ) {
            assert(consumer(models, at as int, value));
            return true;
        }
        at += 1;
    }
    match find_position(table, value) {
        Some(position) => counts[position] > 1,
        None => false,
    }
}

/// Makes the group that ends in a Mul whose result must be preserved.
fn make_bounded_mul_group(
    terminal: &NodeDescriptor<'_>,
    nodes: &[NodeDescriptor<'_>],
    table: &[usize],
    counts: &[usize],
    outputs: &[ValueId],
) -> (group: Option<TensorBoundedMulFusionGroup>)
    requires
        searchable(node_models(nodes@), table@, counts@),
        lookup(table@, terminal.value) is Some,
    ensures
        match group {
            Some(g) => mul_group(node_models(nodes@), table@, counts@, outputs@, terminal@)
                == Some(g@),
            None => mul_group(
                node_models(nodes@),
                table@,
                counts@,
                outputs@,
                terminal@,
            ) is None,
        },
{
    if !ChainKind::Mul.accepts(terminal.op) || !is_mul_group_boundary(
        terminal.value,
        nodes,
        table,
        counts,
        outputs,
    ) {
        return None;
    }
    let links: Vec<usize> = find_links(
        ChainKind::Mul,
        terminal.value,
        terminal.shape,
        nodes,
        table,
        counts,
    )?;
    if links.len() < 2 {
        return None;
    }
    let (leaves, steps): (Vec<ValueId>, Vec<TensorPointwiseMulStep>) = assemble(
        links.as_slice(),
        nodes,
        table,
    )?;
    Some(
        TensorBoundedMulFusionGroup {
            output: terminal.value,
            leaves,
            steps,
            shape: slice_to_vec(terminal.shape),
        },
    )
}

/// Makes the group of a `ReLU` with the Add that it reads.
fn identify_add_relu_group(
    relu: &NodeDescriptor<'_>,
    nodes: &[NodeDescriptor<'_>],
    table: &[usize],
    counts: &[usize],
) -> (group: Option<TensorPointwiseFusionGroup>)
    requires
        searchable(node_models(nodes@), table@, counts@),
    ensures
        match group {
            Some(g) => add_relu_group(node_models(nodes@), table@, counts@, relu@) == Some(g@),
            None => add_relu_group(node_models(nodes@), table@, counts@, relu@) is None,
        },
{
    let add_output: ValueId = match relu.op {
        OpDescriptor::Relu { input } => input,
        _ => {
            return None;
        },
    };
    let add_index: usize = find_position(table, add_output)?;
    assert(node_models(nodes@)[add_index as int] == nodes@[add_index as int]@);
    // A second graph consumer or output pin makes the intermediate observable.
    if counts[add_index] != 1 {
        return None;
    }
    let (left, right): (ValueId, ValueId) = match nodes[add_index].op {
        OpDescriptor::Add { left, right } => (left, right),
        _ => {
            return None;
        },
    };
    if !same_shape(relu.shape, nodes[add_index].shape) || !is_scheduled_with_shape(
        left,
        relu.shape,
        nodes,
        table,
    ) || !is_scheduled_with_shape(right, relu.shape, nodes, table) {
        return None;
    }
    Some(
        TensorPointwiseFusionGroup {
            add_output,
            relu_output: relu.value,
            left,
            right,
            shape: slice_to_vec(relu.shape),
        },
    )
}

fn is_scheduled_with_shape(
    value: ValueId,
    shape: &[usize],
    nodes: &[NodeDescriptor<'_>],
    table: &[usize],
) -> (answer: bool)
    requires
        forall|v: ValueId| #[trigger] lookup(table@, v) is Some ==> lookup(table@, v)->Some_0 < nodes@.len(),
    ensures
        answer == scheduled_with_shape(node_models(nodes@), table@, value, shape@),
{
    match find_position(table, value) {
        Some(position) => {
            assert(node_models(nodes@)[position as int] == nodes@[position as int]@);
            same_shape(nodes[position].shape, shape)
        },
        None => false,
    }
}

/// The models of a list of groups.
pub open spec fn add_relu_models(groups: Seq<TensorPointwiseFusionGroup>) -> Seq<AddReluModel> {
    groups.map_values(|group: TensorPointwiseFusionGroup| group@)
}

/// The models of a list of groups.
pub open spec fn bounded_models(groups: Seq<TensorBoundedPointwiseFusionGroup>) -> Seq<
    BoundedModel,
> {
    groups.map_values(|group: TensorBoundedPointwiseFusionGroup| group@)
}

/// The models of a list of groups.
pub open spec fn mul_models(groups: Seq<TensorBoundedMulFusionGroup>) -> Seq<MulModel> {
    groups.map_values(|group: TensorBoundedMulFusionGroup| group@)
}

/// The Add -> `ReLU` groups, in node order.
fn identify_pointwise_groups(
    nodes: &[NodeDescriptor<'_>],
    table: &[usize],
    counts: &[usize],
) -> (groups: Vec<TensorPointwiseFusionGroup>)
    requires
        searchable(node_models(nodes@), table@, counts@),
    ensures
        add_relu_models(groups@) == node_models(nodes@).filter_map(
            |node: NodeModel<'_>| add_relu_group(node_models(nodes@), table@, counts@, node),
        ),
{
    let ghost models = node_models(nodes@);
    let ghost choice = |node: NodeModel<'_>| add_relu_group(models, table@, counts@, node);
    let mut groups: Vec<TensorPointwiseFusionGroup> = Vec::new();
    let mut at: usize = 0;
    proof {
        assert(models.take(0).filter_map(choice) =~= Seq::empty());
        assert(add_relu_models(groups@) =~= Seq::empty());
    }
    while at < nodes.len()
        invariant
            at <= nodes@.len(),
            models == node_models(nodes@),
            searchable(models, table@, counts@),
            choice == (|node: NodeModel<'_>| add_relu_group(models, table@, counts@, node)),
            add_relu_models(groups@) == models.take(at as int).filter_map(choice),
        decreases nodes@.len() - at,
    {
        let ghost before = groups@;
        proof {
            models.lemma_filter_map_take_succ(choice, at as int);
            assert(models[at as int] == nodes@[at as int]@);
        }
        if let Some(group) = identify_add_relu_group(&nodes[at], nodes, table, counts) {
            assert(choice(models[at as int]) == Some(group@));
            groups.push(group);
            assert(add_relu_models(groups@) =~= add_relu_models(before).push(group@));
        }
        at += 1;
    }
    assert(models.take(at as int) =~= models);
    groups
}

/// The groups that end in a `ReLU`, in node order.
fn identify_relu_groups(
    nodes: &[NodeDescriptor<'_>],
    table: &[usize],
    counts: &[usize],
) -> (groups: Vec<TensorBoundedPointwiseFusionGroup>)
    requires
        searchable(node_models(nodes@), table@, counts@),
    ensures
        bounded_models(groups@) == node_models(nodes@).filter_map(
            |node: NodeModel<'_>| relu_group(node_models(nodes@), table@, counts@, node),
        ),
{
    let ghost models = node_models(nodes@);
    let ghost choice = |node: NodeModel<'_>| relu_group(models, table@, counts@, node);
    let mut groups: Vec<TensorBoundedPointwiseFusionGroup> = Vec::new();
    let mut at: usize = 0;
    proof {
        assert(models.take(0).filter_map(choice) =~= Seq::empty());
        assert(bounded_models(groups@) =~= Seq::empty());
    }
    while at < nodes.len()
        invariant
            at <= nodes@.len(),
            models == node_models(nodes@),
            searchable(models, table@, counts@),
            choice == (|node: NodeModel<'_>| relu_group(models, table@, counts@, node)),
            bounded_models(groups@) == models.take(at as int).filter_map(choice),
        decreases nodes@.len() - at,
    {
        let ghost before = groups@;
        proof {
            models.lemma_filter_map_take_succ(choice, at as int);
            assert(models[at as int] == nodes@[at as int]@);
        }
        if let Some(group) = identify_bounded_pointwise_relu_group(
            &nodes[at],
            nodes,
            table,
            counts,
        ) {
            assert(choice(models[at as int]) == Some(group@));
            groups.push(group);
            assert(bounded_models(groups@) =~= bounded_models(before).push(group@));
        }
        at += 1;
    }
    assert(models.take(at as int) =~= models);
    groups
}

/// The groups that end in an Add or Sub, in node order.
fn identify_identity_groups(
    nodes: &[NodeDescriptor<'_>],
    table: &[usize],
    counts: &[usize],
    outputs: &[ValueId],
) -> (groups: Vec<TensorBoundedPointwiseFusionGroup>)
    requires
        searchable(node_models(nodes@), table@, counts@),
    ensures
        bounded_models(groups@) == node_models(nodes@).filter_map(
            |node: NodeModel<'_>| identity_group(node_models(nodes@), table@, counts@, outputs@, node),
        ),
{
    let ghost models = node_models(nodes@);
    let ghost choice = |node: NodeModel<'_>| identity_group(models, table@, counts@, outputs@, node);
    let mut groups: Vec<TensorBoundedPointwiseFusionGroup> = Vec::new();
    let mut at: usize = 0;
    proof {
        assert(models.take(0).filter_map(choice) =~= Seq::empty());
        assert(bounded_models(groups@) =~= Seq::empty());
    }
    while at < nodes.len()
        invariant
            at <= nodes@.len(),
            models == node_models(nodes@),
            searchable(models, table@, counts@),
            choice == (|node: NodeModel<'_>| identity_group(models, table@, counts@, outputs@, node)),
            bounded_models(groups@) == models.take(at as int).filter_map(choice),
        decreases nodes@.len() - at,
    {
        let ghost before = groups@;
        proof {
            models.lemma_filter_map_take_succ(choice, at as int);
            assert(models[at as int] == nodes@[at as int]@);
        }
        if let Some(group) = identify_bounded_pointwise_identity_group(
            &nodes[at],
            nodes,
            table,
            counts,
            outputs,
        ) {
            assert(choice(models[at as int]) == Some(group@));
            groups.push(group);
            assert(bounded_models(groups@) =~= bounded_models(before).push(group@));
        }
        at += 1;
    }
    assert(models.take(at as int) =~= models);
    groups
}

/// The groups that end in a Mul, in node order.
fn identify_bounded_mul_groups(
    nodes: &[NodeDescriptor<'_>],
    table: &[usize],
    counts: &[usize],
    outputs: &[ValueId],
) -> (groups: Vec<TensorBoundedMulFusionGroup>)
    requires
        searchable(node_models(nodes@), table@, counts@),
    ensures
        mul_models(groups@) == node_models(nodes@).filter_map(
            |node: NodeModel<'_>| mul_group(node_models(nodes@), table@, counts@, outputs@, node),
        ),
{
    let ghost models = node_models(nodes@);
    let ghost choice = |node: NodeModel<'_>| mul_group(models, table@, counts@, outputs@, node);
    let mut groups: Vec<TensorBoundedMulFusionGroup> = Vec::new();
    let mut at: usize = 0;
    proof {
        assert(models.take(0).filter_map(choice) =~= Seq::empty());
        assert(mul_models(groups@) =~= Seq::empty());
    }
    while at < nodes.len()
        invariant
            at <= nodes@.len(),
            models == node_models(nodes@),
            searchable(models, table@, counts@),
            choice == (|node: NodeModel<'_>| mul_group(models, table@, counts@, outputs@, node)),
            mul_models(groups@) == models.take(at as int).filter_map(choice),
        decreases nodes@.len() - at,
    {
        let ghost before = groups@;
        proof {
            models.lemma_filter_map_take_succ(choice, at as int);
            assert(models[at as int] == nodes@[at as int]@);
            assert(node_steps(models)[at as int].value == nodes@[at as int].value);
        }
        if let Some(group) = make_bounded_mul_group(&nodes[at], nodes, table, counts, outputs) {
            assert(choice(models[at as int]) == Some(group@));
            groups.push(group);
            assert(mul_models(groups@) =~= mul_models(before).push(group@));
        }
        at += 1;
    }
    assert(models.take(at as int) =~= models);
    groups
}

/// Selects the groups that a policy asks for.
pub fn select_pointwise_groups(
    nodes: &[NodeDescriptor<'_>],
    table: &[usize],
    counts: &[usize],
    outputs: &[ValueId],
    policy: TensorPointwiseGroupingPolicy,
) -> (groups: (
    Vec<TensorPointwiseFusionGroup>,
    Vec<TensorBoundedPointwiseFusionGroup>,
    Vec<TensorBoundedMulFusionGroup>,
))
    requires
        searchable(node_models(nodes@), table@, counts@),
    ensures
        (GroupsModel {
            pointwise: add_relu_models(groups.0@),
            bounded: bounded_models(groups.1@),
            muls: mul_models(groups.2@),
        }) == groups_of(node_models(nodes@), table@, counts@, outputs@, policy),
{
    let mut pointwise: Vec<TensorPointwiseFusionGroup> = Vec::new();
    let mut bounded: Vec<TensorBoundedPointwiseFusionGroup> = Vec::new();
    let mut muls: Vec<TensorBoundedMulFusionGroup> = Vec::new();
    assert(add_relu_models(pointwise@) =~= Seq::empty());
    assert(bounded_models(bounded@) =~= Seq::empty());
    assert(mul_models(muls@) =~= Seq::empty());
    match policy {
        TensorPointwiseGroupingPolicy::Disabled => {},
        TensorPointwiseGroupingPolicy::SingleUseAddRelu => {
            pointwise = identify_pointwise_groups(nodes, table, counts);
        },
        TensorPointwiseGroupingPolicy::BoundedAddSubRelu => {
            bounded = identify_relu_groups(nodes, table, counts);
        },
        TensorPointwiseGroupingPolicy::BoundedAddSubIdentity => {
            bounded = identify_identity_groups(nodes, table, counts, outputs);
        },
        TensorPointwiseGroupingPolicy::BoundedMulIdentity => {
            muls = identify_bounded_mul_groups(nodes, table, counts, outputs);
        },
    }
    (pointwise, bounded, muls)
}

/// The bounds that every Add/Sub group keeps.
pub open spec fn bounded_wf(group: BoundedModel) -> bool {
    &&& worth_grouping(group.epilogue, group.steps.len())
    &&& group.steps.len() <= MAX_BOUNDED_POINTWISE_STEPS
    &&& group.leaves.len() <= MAX_BOUNDED_POINTWISE_LEAVES
    &&& group.leaves.no_duplicates()
    &&& forall|i: int|
        0 <= i < group.steps.len() ==> {
            &&& refers_back((#[trigger] group.steps[i]).left, group.leaves.len(), i as nat)
            &&& refers_back(group.steps[i].right, group.leaves.len(), i as nat)
        }
}

/// The bounds that every Mul group keeps.
pub open spec fn mul_wf(group: MulModel) -> bool {
    &&& 2 <= group.steps.len() <= MAX_BOUNDED_POINTWISE_STEPS
    &&& group.leaves.len() <= MAX_BOUNDED_POINTWISE_LEAVES
    &&& group.leaves.no_duplicates()
    &&& forall|i: int|
        0 <= i < group.steps.len() ==> {
            &&& refers_back((#[trigger] group.steps[i]).left, group.leaves.len(), i as nat)
            &&& refers_back(group.steps[i].right, group.leaves.len(), i as nat)
        }
}

/// Every leaf is read by some node of the list.
pub open spec fn leaves_read(nodes: Seq<NodeModel<'_>>, leaves: Seq<ValueId>) -> bool {
    forall|l: int| 0 <= l < leaves.len() ==> some_node_reads(nodes, #[trigger] leaves[l])
}

/// Some node of the list reads `value`.
pub open spec fn some_node_reads(nodes: Seq<NodeModel<'_>>, value: ValueId) -> bool {
    exists|p: int| #[trigger] consumer(nodes, p, value)
}

/// The groupable links of a chain are nodes of its kind and shape.
proof fn lemma_group_links(
    kind: ChainKind,
    nodes: Seq<NodeModel<'_>>,
    table: Seq<usize>,
    counts: Seq<usize>,
    shape: Seq<usize>,
    root: ValueId,
)
    requires
        searchable(nodes, table, counts),
    ensures
        group_links(kind, nodes, table, counts, shape, root) matches Some(links) ==> {
            &&& 1 <= links.len() <= MAX_BOUNDED_POINTWISE_STEPS
            &&& Some(links.last()) == lookup(table, root)
            &&& forall|i: int|
                0 <= i < links.len() ==> (#[trigger] links[i]) < nodes.len() && kind.admits(
                    nodes[links[i] as int].op,
                ) && nodes[links[i] as int].shape == shape && consumes(
                    nodes[links[i] as int].op,
                ).len() == 2
            &&& forall|i: int, j: int| 0 <= i < j < links.len() ==> links[i] < links[j]
        },
{
    lemma_chain_falls(kind, nodes, table, counts, shape, root, false, Seq::empty());
    if let Some(links) = group_links(kind, nodes, table, counts, shape, root) {
        let fallen = chain(
            kind,
            nodes,
            table,
            counts,
            shape,
            root,
            false,
            Seq::empty(),
        )->Some_0;
        assert(links == fallen.reverse());
        assert forall|i: int| 0 <= i < links.len() implies #[trigger] links[i] == fallen[
        fallen.len() - 1 - i] by {}
    }
}

/// An Add/Sub group keeps its bounds, and its leaves are read by nodes of the list.
pub proof fn law_add_sub_group_is_bounded(
    nodes: Seq<NodeModel<'_>>,
    table: Seq<usize>,
    counts: Seq<usize>,
    root: ValueId,
    output: ValueId,
    shape: Seq<usize>,
    epilogue: TensorPointwiseEpilogue,
)
    requires
        searchable(nodes, table, counts),
    ensures
        add_sub_group(nodes, table, counts, root, output, shape, epilogue) matches Some(group)
            ==> bounded_wf(group) && leaves_read(nodes, group.leaves) && group.output == output,
{
    lemma_group_links(ChainKind::AddSub, nodes, table, counts, shape, root);
    if let Some(group) = add_sub_group(nodes, table, counts, root, output, shape, epilogue) {
        let links = group_links(ChainKind::AddSub, nodes, table, counts, shape, root)->Some_0;
        lemma_assembled(nodes, table, links, links.len() as int);
        lemma_leaves_read(nodes, table, links);
    }
}

/// A Mul group keeps its bounds, and its leaves are read by nodes of the list.
pub proof fn law_mul_group_is_bounded(
    nodes: Seq<NodeModel<'_>>,
    table: Seq<usize>,
    counts: Seq<usize>,
    outputs: Seq<ValueId>,
    node: NodeModel<'_>,
)
    requires
        searchable(nodes, table, counts),
    ensures
        mul_group(nodes, table, counts, outputs, node) matches Some(group) ==> mul_wf(group)
            && leaves_read(nodes, group.leaves) && group.output == node.value,
{
    lemma_group_links(ChainKind::Mul, nodes, table, counts, node.shape, node.value);
    if let Some(group) = mul_group(nodes, table, counts, outputs, node) {
        let links = group_links(
            ChainKind::Mul,
            nodes,
            table,
            counts,
            node.shape,
            node.value,
        )->Some_0;
        lemma_assembled(nodes, table, links, links.len() as int);
        lemma_leaves_read(nodes, table, links);
    }
}

proof fn lemma_leaves_read(nodes: Seq<NodeModel<'_>>, table: Seq<usize>, links: Seq<usize>)
    requires
        links.len() <= MAX_BOUNDED_POINTWISE_STEPS,
        forall|i: int|
            0 <= i < links.len() ==> (#[trigger] links[i]) < nodes.len() && consumes(
                nodes[links[i] as int].op,
            ).len() == 2,
    ensures
        assembled(nodes, table, links, links.len() as int) matches Some((leaves, steps))
            ==> leaves_read(nodes, leaves),
{
    lemma_assembled(nodes, table, links, links.len() as int);
    if let Some((leaves, steps)) = assembled(nodes, table, links, links.len() as int) {
        assert forall|l: int| 0 <= l < leaves.len() implies some_node_reads(
            nodes,
            #[trigger] leaves[l],
        ) by {
            let i = choose|i: int|
                0 <= i < links.len() && consumes(nodes[(#[trigger] links[i]) as int].op).contains(
                    leaves[l],
                );
            assert(consumer(nodes, links[i] as int, leaves[l]));
        }
    }
}

} // verus!
