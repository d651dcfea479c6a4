//! Selected operation schedules are closed: no operation reads what a group computes on the way to
//! another result.
use vstd::prelude::*;

use super::closed::{computed, lemma_one_reader, lemma_selected_nodes_closed};
use super::descriptor::{consumes, node_models, node_steps, NodeModel, OpDescriptor};
use super::error::ValueId;
use super::graph::{precedes, Graph};
use super::groups::{
    add_relu_group, assembled, chain, falling, group_links, groups_of, identity_group, inner_link,
    lemma_assembled, lemma_chain_falls, lemma_searchable, lookup, mul_group, relu_group, resolved,
    searchable, worth_grouping, AddReluModel, BoundedModel, ChainKind, MulModel,
    TensorPointwiseArithmeticOp, TensorPointwiseEpilogue, TensorPointwiseGroupingPolicy,
    TensorPointwiseOperand, MAX_BOUNDED_POINTWISE_STEPS,
};
use super::lowering::{
    add_relu_for, bounded_for, bounded_hides, chain_reads, hidden, lemma_found_groups,
    lemma_scheduled_steps, mul_for, mul_hides, mul_pairs, operand_reads, operation_for,
    operation_models, operation_steps, step_pairs, tabulated, OperationModel,
    TensorSelectedLoweringPlan,
};
use super::lowering_laws::{
    lemma_filter_map_holds, lemma_found_value, lemma_operation_output, lemma_step_is_link,
};
use super::plan::TensorExecutionPlan;
use super::rewrite::{
    lemma_rewritten_sound, lemma_without_orphans_sound, rewritten, sound_nodes,
    TensorArithmeticCapability, TensorArithmeticRewritePolicy,
};
use super::schedule::use_count;

verus! {

/// Every operand of the link at `i` that could be a link is one.
spec fn link_closed(
    kind: ChainKind,
    nodes: Seq<NodeModel<'_>>,
    table: Seq<usize>,
    shape: Seq<usize>,
    links: Seq<usize>,
    i: int,
) -> bool {
    forall|k: int|
        0 <= k < 2 && inner_link(
            kind,
            nodes,
            table,
            shape,
            #[trigger] consumes(nodes[links[i] as int].op)[k],
        ) ==> links.contains(
            lookup(table, consumes(nodes[links[i] as int].op)[k])->Some_0,
        )
}

/// The link at `reader` reads the node at `position`.
pub open spec fn link_reads(
    nodes: Seq<NodeModel<'_>>,
    table: Seq<usize>,
    reader: usize,
    position: usize,
) -> bool {
    exists|k: int|
        0 <= k < 2 && lookup(table, #[trigger] consumes(nodes[reader as int].op)[k]) == Some(
            position,
        )
}

/// A chain takes in every operand that could be a link, and each link but the first has one use,
/// by the link before it.
proof fn lemma_chain_is_closed(
    kind: ChainKind,
    nodes: Seq<NodeModel<'_>>,
    table: Seq<usize>,
    counts: Seq<usize>,
    shape: Seq<usize>,
    value: ValueId,
    single_use: bool,
    included: Seq<usize>,
)
    requires
        searchable(nodes, table, counts),
        falling(included),
        included.len() > 0 ==> (lookup(table, value) matches Some(q) ==> q < included.last()),
        forall|i: int|
            0 <= i < included.len() ==> (#[trigger] included[i]) < nodes.len() && kind.admits(
                nodes[included[i] as int].op,
            ) && nodes[included[i] as int].shape == shape,
    ensures
        chain(kind, nodes, table, counts, shape, value, single_use, included) matches Some(links)
            ==> {
            &&& forall|i: int|
                included.len() <= i < links.len() ==> #[trigger] link_closed(
                    kind,
                    nodes,
                    table,
                    shape,
                    links,
                    i,
                )
            &&& forall|i: int|
                included.len() < i < links.len() ==> counts[(#[trigger] links[i]) as int] == 1
                    && link_reads(nodes, table, links[i - 1], links[i])
            &&& single_use ==> counts[links[included.len() as int] as int] == 1
        },
    decreases 9 - included.len(),
{
    lemma_chain_falls(kind, nodes, table, counts, shape, value, single_use, included);
    if let Some(links) = chain(kind, nodes, table, counts, shape, value, single_use, included) {
        let at = lookup(table, value)->Some_0;
        let node = nodes[at as int];
        let grown = included.push(at);
        let first = included.len() as int;
        assert(links[first] == at);
        assert(falling(grown)) by {
            assert forall|i: int, j: int| 0 <= i < j < grown.len() implies grown[i] > grown[j] by {
                if j == included.len() {
                    assert(included.last() == included[included.len() - 1]);
                }
            }
        }
        let left = consumes(node.op)[0];
        let right = consumes(node.op)[1];
        let left_link = inner_link(kind, nodes, table, shape, left);
        let left_free = left_link && counts[lookup(table, left)->Some_0 as int] == 1;
        let right_link = inner_link(kind, nodes, table, shape, right);
        let right_free = right_link && counts[lookup(table, right)->Some_0 as int] == 1;
        if left_free || right_free {
            let next = if left_free {
                left
            } else {
                right
            };
            lemma_chain_falls(kind, nodes, table, counts, shape, next, true, grown);
            lemma_chain_is_closed(kind, nodes, table, counts, shape, next, true, grown);
            assert(Some(links[first + 1]) == lookup(table, next));
            assert(links.contains(links[first + 1]));
            if left_free {
                assert(lookup(table, consumes(nodes[links[first] as int].op)[0]) == Some(
                    links[first + 1],
                ));
            } else {
                assert(lookup(table, consumes(nodes[links[first] as int].op)[1]) == Some(
                    links[first + 1],
                ));
            }
            assert(link_reads(nodes, table, links[first], links[first + 1]));
            assert(link_closed(kind, nodes, table, shape, links, first)) by {
                assert forall|k: int|
                    0 <= k < 2 && inner_link(
                        kind,
                        nodes,
                        table,
                        shape,
                        #[trigger] consumes(nodes[links[first] as int].op)[k],
                    ) implies links.contains(
                    lookup(table, consumes(nodes[links[first] as int].op)[k])->Some_0,
                ) by {
                    assert(k == 0 || k == 1);
                }
            }
        } else {
            assert(link_closed(kind, nodes, table, shape, links, first)) by {
                assert forall|k: int|
                    0 <= k < 2 && inner_link(
                        kind,
                        nodes,
                        table,
                        shape,
                        #[trigger] consumes(nodes[links[first] as int].op)[k],
                    ) implies links.contains(
                    lookup(table, consumes(nodes[links[first] as int].op)[k])->Some_0,
                ) by {
                    assert(k == 0 || k == 1);
                }
            }
        }
    }
}

/// What holds of the links of a groupable chain in node order.
#[verifier::opaque]
pub closed spec fn linked(
    kind: ChainKind,
    nodes: Seq<NodeModel<'_>>,
    table: Seq<usize>,
    counts: Seq<usize>,
    shape: Seq<usize>,
    root: ValueId,
    links: Seq<usize>,
) -> bool {
    &&& 1 <= links.len() <= MAX_BOUNDED_POINTWISE_STEPS
    &&& Some(links.last()) == lookup(table, root)
    &&& forall|i: int, j: int| 0 <= i < j < links.len() ==> links[i] < links[j]
    &&& forall|i: int|
        0 <= i < links.len() ==> (#[trigger] links[i]) < nodes.len() && kind.admits(
            nodes[links[i] as int].op,
        ) && nodes[links[i] as int].shape == shape
    &&& forall|i: int|
        0 <= i < links.len() ==> #[trigger] link_closed(kind, nodes, table, shape, links, i)
    &&& forall|i: int|
        0 <= i < links.len() - 1 ==> counts[(#[trigger] links[i]) as int] == 1 && link_reads(
            nodes,
            table,
            links[i + 1],
            links[i],
        )
}

proof fn lemma_linked(
    kind: ChainKind,
    nodes: Seq<NodeModel<'_>>,
    table: Seq<usize>,
    counts: Seq<usize>,
    shape: Seq<usize>,
    root: ValueId,
)
    requires
        searchable(nodes, table, counts),
    ensures
        group_links(kind, nodes, table, counts, shape, root) matches Some(links) ==> linked(
            kind,
            nodes,
            table,
            counts,
            shape,
            root,
            links,
        ),
{
    reveal(linked);
    lemma_chain_falls(kind, nodes, table, counts, shape, root, false, Seq::empty());
    lemma_chain_is_closed(kind, nodes, table, counts, shape, root, false, Seq::empty());
    if let Some(links) = group_links(kind, nodes, table, counts, shape, root) {
        let fallen = chain(
            kind,
            nodes,
            table,
            counts,
            shape,
            root,
            false,
            Seq::empty(),
        )->Some_0;
        let last = fallen.len() - 1;
        assert(links == fallen.reverse());
        assert forall|i: int| 0 <= i < links.len() implies #[trigger] links[i] == fallen[last
            - i] by {}
        assert forall|i: int| 0 <= i < links.len() implies #[trigger] link_closed(
            kind,
            nodes,
            table,
            shape,
            links,
            i,
        ) by {
            assert(link_closed(kind, nodes, table, shape, fallen, last - i));
            assert forall|k: int|
                0 <= k < 2 && inner_link(
                    kind,
                    nodes,
                    table,
                    shape,
                    #[trigger] consumes(nodes[links[i] as int].op)[k],
                ) implies links.contains(
                lookup(table, consumes(nodes[links[i] as int].op)[k])->Some_0,
            ) by {
                let operand = consumes(nodes[fallen[last - i] as int].op)[k];
                let position = lookup(table, operand)->Some_0;
                let j = fallen.index_of(position);
                assert(fallen[j] == position);
                assert(links[last - j] == position);
            }
        }
        assert forall|i: int| 0 <= i < links.len() - 1 implies counts[(
        #[trigger] links[i]) as int] == 1 && link_reads(nodes, table, links[i + 1], links[i]) by {
            assert(links[i] == fallen[last - i]);
            assert(links[i + 1] == fallen[last - i - 1]);
        }
    }
}

/// What holds of the link at `i`.
pub proof fn lemma_link(
    kind: ChainKind,
    nodes: Seq<NodeModel<'_>>,
    table: Seq<usize>,
    counts: Seq<usize>,
    shape: Seq<usize>,
    root: ValueId,
    links: Seq<usize>,
    i: int,
)
    requires
        linked(kind, nodes, table, counts, shape, root, links),
        0 <= i < links.len(),
    ensures
        links[i] < nodes.len(),
        links[i] <= links.last(),
        Some(links.last()) == lookup(table, root),
        kind.admits(nodes[links[i] as int].op),
        consumes(nodes[links[i] as int].op).len() == 2,
        nodes[links[i] as int].shape == shape,
        i < links.len() - 1 ==> links[i] < links.last() && counts[links[i] as int] == 1
            && link_reads(nodes, table, links[i + 1], links[i]),
{
    reveal(linked);
}

/// The link at `i` reads a leaf that no link before it computes.
spec fn leaf_read(
    nodes: Seq<NodeModel<'_>>,
    table: Seq<usize>,
    links: Seq<usize>,
    leaf: ValueId,
    i: int,
    k: int,
) -> bool {
    &&& 0 <= i < links.len()
    &&& 0 <= k < 2
    &&& consumes(nodes[links[i] as int].op)[k] == leaf
    &&& !(lookup(table, leaf) matches Some(q) && links.take(i).contains(q))
}

/// Every leaf is read by a link, at a place where no link before it computes the leaf.
proof fn lemma_leaves_are_read(
    nodes: Seq<NodeModel<'_>>,
    table: Seq<usize>,
    links: Seq<usize>,
    count: int,
    l: int,
) -> (place: (int, int))
    requires
        0 <= count <= links.len(),
        assembled(nodes, table, links, count) is Some,
        0 <= l < assembled(nodes, table, links, count)->Some_0.0.len(),
    ensures
        leaf_read(
            nodes,
            table,
            links,
            assembled(nodes, table, links, count)->Some_0.0[l],
            place.0,
            place.1,
        ),
    decreases count,
{
    let (leaves, steps) = assembled(nodes, table, links, count - 1)->Some_0;
    let node = nodes[links[count - 1] as int];
    let done = links.take(count - 1);
    let (left, more) = resolved(table, done, leaves, consumes(node.op)[0]);
    let (right, most) = resolved(table, done, more, consumes(node.op)[1]);
    if l < leaves.len() {
        assert(most[l] == leaves[l]);
        lemma_leaves_are_read(nodes, table, links, count - 1, l)
    } else if l < more.len() {
        assert(most[l] == more[l]);
        assert(more[l] == consumes(node.op)[0]);
        (count - 1, 0)
    } else {
        assert(most[l] == consumes(node.op)[1]);
        (count - 1, 1)
    }
}

/// No leaf of a chain could be a link of it.
proof fn lemma_leaf_is_no_link(
    kind: ChainKind,
    nodes: Seq<NodeModel<'_>>,
    table: Seq<usize>,
    counts: Seq<usize>,
    shape: Seq<usize>,
    root: ValueId,
    links: Seq<usize>,
    leaf: ValueId,
    i: int,
    k: int,
)
    requires
        searchable(nodes, table, counts),
        linked(kind, nodes, table, counts, shape, root, links),
        leaf_read(nodes, table, links, leaf, i, k),
    ensures
        !inner_link(kind, nodes, table, shape, leaf),
{
    reveal(linked);
    if inner_link(kind, nodes, table, shape, leaf) {
        let q = lookup(table, leaf)->Some_0;
        assert(link_closed(kind, nodes, table, shape, links, i));
        assert(consumes(nodes[links[i] as int].op)[k] == leaf);
        assert(links.contains(q));
        let j = links.index_of(q);
        assert(q < links[i]);
        if j >= i {
            assert(links[i] <= links[j]);
        }
        assert(links.take(i)[j] == q);
        assert(links.take(i).contains(q));
    }
}

/// What is known of the nodes that a grouping works on.
pub open spec fn grouped_nodes(
    graph: Graph,
    nodes: Seq<NodeModel<'_>>,
    table: Seq<usize>,
    counts: Seq<usize>,
    outputs: Seq<ValueId>,
) -> bool {
    &&& sound_nodes(graph, nodes)
    &&& tabulated(node_steps(nodes), outputs, graph.id, table, counts)
}

/// A value that is read at one place and has one use is read nowhere else.
proof fn lemma_counted_reader(
    graph: Graph,
    nodes: Seq<NodeModel<'_>>,
    table: Seq<usize>,
    counts: Seq<usize>,
    outputs: Seq<ValueId>,
    position: usize,
    r: int,
    j: int,
    s: int,
    k: int,
)
    requires
        grouped_nodes(graph, nodes, table, counts, outputs),
        position < nodes.len(),
        counts[position as int] == 1,
        0 <= r < nodes.len(),
        0 <= j < consumes(nodes[r].op).len(),
        consumes(nodes[r].op)[j] == nodes[position as int].value,
        0 <= s < nodes.len(),
        0 <= k < consumes(nodes[s].op).len(),
        lookup(table, consumes(nodes[s].op)[k]) == Some(position),
    ensures
        r == s,
        j == k,
        consumes(nodes[s].op)[k] == nodes[position as int].value,
{
    let steps = node_steps(nodes);
    let operand = consumes(nodes[s].op)[k];
    assert(precedes(graph.id, nodes[s].value.index as int, operand));
    lemma_found_value(graph, nodes, table, operand);
    let value = nodes[position as int].value;
    assert(steps[position as int].value == value);
    assert(counts[position as int] == use_count(steps, outputs, value));
    assert(steps[r].reads[j] == value);
    assert(steps[s].reads[k] == value);
    lemma_one_reader(steps, outputs, r, j, s, k, value);
}

/// The node that reads an inner link of a chain is the next link.
proof fn lemma_inner_reader(
    graph: Graph,
    kind: ChainKind,
    nodes: Seq<NodeModel<'_>>,
    table: Seq<usize>,
    counts: Seq<usize>,
    outputs: Seq<ValueId>,
    shape: Seq<usize>,
    root: ValueId,
    links: Seq<usize>,
    i: int,
    r: int,
    j: int,
)
    requires
        grouped_nodes(graph, nodes, table, counts, outputs),
        linked(kind, nodes, table, counts, shape, root, links),
        0 <= i < links.len() - 1,
        0 <= r < nodes.len(),
        0 <= j < consumes(nodes[r].op).len(),
        consumes(nodes[r].op)[j] == nodes[links[i] as int].value,
    ensures
        r == links[i + 1],
{
    lemma_link(kind, nodes, table, counts, shape, root, links, i);
    lemma_link(kind, nodes, table, counts, shape, root, links, i + 1);
    let k = choose|k: int|
        0 <= k < 2 && lookup(table, #[trigger] consumes(nodes[links[i + 1] as int].op)[k]) == Some(
            links[i],
        );
    lemma_counted_reader(
        graph,
        nodes,
        table,
        counts,
        outputs,
        links[i],
        r,
        j,
        links[i + 1] as int,
        k,
    );
}

/// No leaf of a chain is an inner link of a chain of the same kind.
proof fn lemma_leaf_is_not_inner(
    graph: Graph,
    kind: ChainKind,
    nodes: Seq<NodeModel<'_>>,
    table: Seq<usize>,
    counts: Seq<usize>,
    outputs: Seq<ValueId>,
    first: (Seq<usize>, ValueId, Seq<usize>),
    i: int,
    second: (Seq<usize>, ValueId, Seq<usize>),
    leaf: ValueId,
    j: int,
    k: int,
)
    requires
        grouped_nodes(graph, nodes, table, counts, outputs),
        linked(kind, nodes, table, counts, first.0, first.1, first.2),
        0 <= i < first.2.len() - 1,
        linked(kind, nodes, table, counts, second.0, second.1, second.2),
        leaf_read(nodes, table, second.2, leaf, j, k),
    ensures
        leaf != nodes[first.2[i] as int].value,
{
    let (shape, root, links) = first;
    let value = nodes[links[i] as int].value;
    if leaf == value {
        lemma_link(kind, nodes, table, counts, second.0, second.1, second.2, j);
        lemma_link(kind, nodes, table, counts, shape, root, links, i);
        lemma_link(kind, nodes, table, counts, shape, root, links, i + 1);
        lemma_inner_reader(
            graph,
            kind,
            nodes,
            table,
            counts,
            outputs,
            shape,
            root,
            links,
            i,
            second.2[j] as int,
            k,
        );
        lemma_searchable(graph, nodes, table, counts);
        lemma_leaf_is_no_link(
            kind,
            nodes,
            table,
            counts,
            second.0,
            second.1,
            second.2,
            leaf,
            j,
            k,
        );
        assert(node_steps(nodes)[links[i] as int].value == value);
        assert(table[value.index as int] == links[i]);
        assert(links[i] < nodes.len());
        assert(lookup(table, value) == Some(links[i]));
    }
}

/// Every read of a chain is a leaf.
proof fn lemma_chain_reads_leaves(
    leaves: Seq<ValueId>,
    pairs: Seq<(TensorPointwiseOperand, TensorPointwiseOperand)>,
    value: ValueId,
)
    requires
        chain_reads(leaves, pairs).contains(value),
    ensures
        leaves.contains(value),
    decreases pairs.len(),
{
    if pairs.len() > 0 {
        let before = chain_reads(leaves, pairs.drop_last());
        let left = operand_reads(leaves, pairs.last().0);
        let right = operand_reads(leaves, pairs.last().1);
        let all = before + left + right;
        let at = all.index_of(value);
        if at < before.len() {
            assert(before[at] == value);
            lemma_chain_reads_leaves(leaves, pairs.drop_last(), value);
        } else if at < before.len() + left.len() {
            assert(left[at - before.len()] == value);
        } else {
            assert(right[at - before.len() - left.len()] == value);
        }
    }
}

/// What an operand that is a leaf reads is among the reads of a chain.
proof fn lemma_operand_is_read(
    leaves: Seq<ValueId>,
    pairs: Seq<(TensorPointwiseOperand, TensorPointwiseOperand)>,
    i: int,
    l: int,
)
    requires
        0 <= i < pairs.len(),
        0 <= l < leaves.len() <= usize::MAX,
        pairs[i].0 == TensorPointwiseOperand::Leaf(l as usize) || pairs[i].1
            == TensorPointwiseOperand::Leaf(l as usize),
    ensures
        chain_reads(leaves, pairs).contains(leaves[l]),
    decreases pairs.len(),
{
    let before = chain_reads(leaves, pairs.drop_last());
    let left = operand_reads(leaves, pairs.last().0);
    let right = operand_reads(leaves, pairs.last().1);
    let all = before + left + right;
    if i < pairs.len() - 1 {
        assert(pairs.drop_last()[i] == pairs[i]);
        lemma_operand_is_read(leaves, pairs.drop_last(), i, l);
        let at = before.index_of(leaves[l]);
        assert(all[at] == leaves[l]);
    } else if pairs[i].0 == TensorPointwiseOperand::Leaf(l as usize) {
        assert(all[before.len() as int] == leaves[l]);
    } else {
        assert(all[(before.len() + left.len()) as int] == leaves[l]);
    }
}

/// Every leaf is an operand of some step.
proof fn lemma_leaf_is_operand(
    nodes: Seq<NodeModel<'_>>,
    table: Seq<usize>,
    links: Seq<usize>,
    count: int,
    l: int,
) -> (i: int)
    requires
        0 <= count <= links.len(),
        assembled(nodes, table, links, count) is Some,
        0 <= l < assembled(nodes, table, links, count)->Some_0.0.len(),
    ensures
        ({
            let steps = assembled(nodes, table, links, count)->Some_0.1;
            &&& 0 <= i < steps.len()
            &&& steps[i].left == TensorPointwiseOperand::Leaf(l as usize) || steps[i].right
                == TensorPointwiseOperand::Leaf(l as usize)
        }),
    decreases count,
{
    let (leaves, steps) = assembled(nodes, table, links, count - 1)->Some_0;
    let all = assembled(nodes, table, links, count)->Some_0.1;
    if l < leaves.len() {
        let i = lemma_leaf_is_operand(nodes, table, links, count - 1, l);
        assert(all[i] == steps[i]);
        i
    } else {
        assert(all.last() == all[steps.len() as int]);
        steps.len() as int
    }
}

/// A chain reads every leaf.
proof fn lemma_leaves_are_reads(
    nodes: Seq<NodeModel<'_>>,
    table: Seq<usize>,
    links: Seq<usize>,
    value: ValueId,
)
    requires
        links.len() <= MAX_BOUNDED_POINTWISE_STEPS,
        forall|i: int|
            0 <= i < links.len() ==> consumes(nodes[(#[trigger] links[i]) as int].op).len() == 2,
        assembled(nodes, table, links, links.len() as int) is Some,
        assembled(nodes, table, links, links.len() as int)->Some_0.0.contains(value),
    ensures
        ({
            let (leaves, steps) = assembled(nodes, table, links, links.len() as int)->Some_0;
            chain_reads(leaves, mul_pairs(steps)).contains(value)
        }),
{
    let (leaves, steps) = assembled(nodes, table, links, links.len() as int)->Some_0;
    lemma_assembled(nodes, table, links, links.len() as int);
    let l = leaves.index_of(value);
    let i = lemma_leaf_is_operand(nodes, table, links, links.len() as int, l);
    assert(mul_pairs(steps)[i] == (steps[i].left, steps[i].right));
    lemma_operand_is_read(leaves, mul_pairs(steps), i, l);
}

/// Different nodes compute different values.
pub proof fn lemma_one_producer(graph: Graph, nodes: Seq<NodeModel<'_>>, p: int, q: int)
    requires
        sound_nodes(graph, nodes),
        0 <= p < nodes.len(),
        0 <= q < nodes.len(),
        nodes[p].value == nodes[q].value,
    ensures
        p == q,
{
    if p < q {
        assert(nodes[p].value.index < nodes[q].value.index);
    } else if q < p {
        assert(nodes[q].value.index < nodes[p].value.index);
    }
}

/// The chain that an Add/Sub group was made of, and the node that the group ends in.
pub open spec fn bounded_chain(
    nodes: Seq<NodeModel<'_>>,
    table: Seq<usize>,
    counts: Seq<usize>,
    group: BoundedModel,
    r: int,
    root: ValueId,
    links: Seq<usize>,
) -> bool {
    &&& 0 <= r < nodes.len()
    &&& group.output == nodes[r].value
    &&& group.shape == nodes[r].shape
    &&& linked(ChainKind::AddSub, nodes, table, counts, group.shape, root, links)
    &&& assembled(nodes, table, links, links.len() as int) matches Some(parts) && parts.0
        == group.leaves
    &&& group.steps.len() == links.len()
    &&& worth_grouping(group.epilogue, links.len())
    &&& forall|i: int|
        0 <= i < links.len() ==> (#[trigger] group.steps[i]).output
            == nodes[links[i] as int].value && (group.steps[i].op
            == TensorPointwiseArithmeticOp::Add <==> nodes[links[i] as int].op is Add)
    &&& step_pairs(group.steps) == mul_pairs(
        assembled(nodes, table, links, links.len() as int)->Some_0.1,
    )
    &&& match group.epilogue {
        TensorPointwiseEpilogue::Relu => {
            &&& nodes[r].op == (OpDescriptor::Relu { input: root })
            &&& counts[links.last() as int] == 1
        },
        TensorPointwiseEpilogue::Identity => root == nodes[r].value && links.last() == r,
    }
}

proof fn lemma_assembled_chain(
    nodes: Seq<NodeModel<'_>>,
    table: Seq<usize>,
    counts: Seq<usize>,
    shape: Seq<usize>,
    root: ValueId,
    links: Seq<usize>,
    kind: ChainKind,
)
    requires
        searchable(nodes, table, counts),
        group_links(kind, nodes, table, counts, shape, root) == Some(links),
        assembled(nodes, table, links, links.len() as int) is Some,
    ensures
        linked(kind, nodes, table, counts, shape, root, links),
        1 <= links.len(),
        assembled(nodes, table, links, links.len() as int)->Some_0.1.len() == links.len(),
        forall|i: int|
            0 <= i < links.len() ==> (#[trigger] assembled(
                nodes,
                table,
                links,
                links.len() as int,
            )->Some_0.1[i]).output == nodes[links[i] as int].value,
{
    lemma_linked(kind, nodes, table, counts, shape, root);
    assert(links.len() <= MAX_BOUNDED_POINTWISE_STEPS && 1 <= links.len()) by {
        reveal(linked);
    }
    assert forall|i: int| 0 <= i < links.len() implies consumes(
        nodes[(#[trigger] links[i]) as int].op,
    ).len() == 2 by {
        lemma_link(kind, nodes, table, counts, shape, root, links, i);
    }
    lemma_step_is_link(nodes, table, links, 0);
    assert forall|i: int| 0 <= i < links.len() implies (#[trigger] assembled(
        nodes,
        table,
        links,
        links.len() as int,
    )->Some_0.1[i]).output == nodes[links[i] as int].value by {
        lemma_step_is_link(nodes, table, links, i);
    }
}

/// Every Add/Sub group was made of a chain.
pub proof fn lemma_bounded_chain(
    graph: Graph,
    nodes: Seq<NodeModel<'_>>,
    table: Seq<usize>,
    counts: Seq<usize>,
    outputs: Seq<ValueId>,
    policy: TensorPointwiseGroupingPolicy,
    group: BoundedModel,
) -> (parts: (int, ValueId, Seq<usize>))
    requires
        grouped_nodes(graph, nodes, table, counts, outputs),
        groups_of(nodes, table, counts, outputs, policy).bounded.contains(group),
    ensures
        bounded_chain(nodes, table, counts, group, parts.0, parts.1, parts.2),
{
    lemma_searchable(graph, nodes, table, counts);
    let relu = policy == TensorPointwiseGroupingPolicy::BoundedAddSubRelu;
    let choice = if relu {
        |node: NodeModel<'_>| relu_group(nodes, table, counts, node)
    } else {
        |node: NodeModel<'_>| identity_group(nodes, table, counts, outputs, node)
    };
    nodes.lemma_filter_map_contains(choice, group);
    let node = choose|node: NodeModel<'_>| #[trigger]
        nodes.contains(node) && choice(node) == Some(group);
    let r = nodes.index_of(node);
    let root = if relu {
        node.op->Relu_input
    } else {
        node.value
    };
    let links = group_links(ChainKind::AddSub, nodes, table, counts, node.shape, root)->Some_0;
    lemma_assembled_chain(nodes, table, counts, node.shape, root, links, ChainKind::AddSub);
    lemma_link(ChainKind::AddSub, nodes, table, counts, node.shape, root, links, 0);
    let steps = assembled(nodes, table, links, links.len() as int)->Some_0.1;
    assert forall|i: int| 0 <= i < links.len() implies (#[trigger] group.steps[i]).output
        == nodes[links[i] as int].value && (group.steps[i].op == TensorPointwiseArithmeticOp::Add
        <==> nodes[links[i] as int].op is Add) by {
        assert(steps[i].output == nodes[links[i] as int].value);
    }
    assert(step_pairs(group.steps) =~= mul_pairs(steps));
    if !relu {
        assert(graph.knows(nodes[r].value));
        lemma_found_value(graph, nodes, table, node.value);
        lemma_one_producer(graph, nodes, links.last() as int, r);
    }
    (r, root, links)
}

/// Some node reads `value` as its operand at `k`.
spec fn reads_at(nodes: Seq<NodeModel<'_>>, s: int, k: int, value: ValueId) -> bool {
    0 <= s < nodes.len() && 0 <= k < consumes(nodes[s].op).len() && consumes(nodes[s].op)[k]
        == value
}

/// The one node that reads what an Add/Sub group computes on the way to its result.
proof fn lemma_bounded_reader(
    graph: Graph,
    nodes: Seq<NodeModel<'_>>,
    table: Seq<usize>,
    counts: Seq<usize>,
    outputs: Seq<ValueId>,
    group: BoundedModel,
    r: int,
    root: ValueId,
    links: Seq<usize>,
    value: ValueId,
    s: int,
    k: int,
) -> (i: int)
    requires
        grouped_nodes(graph, nodes, table, counts, outputs),
        bounded_chain(nodes, table, counts, group, r, root, links),
        bounded_hides(group, value),
        reads_at(nodes, s, k, value),
    ensures
        0 <= i < links.len(),
        nodes[links[i] as int].value == value,
        if i < links.len() - 1 {
            s == links[i + 1]
        } else {
            s == r && group.epilogue == TensorPointwiseEpilogue::Relu
        },
{
    let i = choose|i: int|
        0 <= i < group.steps.len() && (#[trigger] group.steps[i]).output == value;
    assert(nodes[links[i] as int].value == value);
    lemma_link(ChainKind::AddSub, nodes, table, counts, group.shape, root, links, i);
    if i < links.len() - 1 {
        lemma_inner_reader(
            graph,
            ChainKind::AddSub,
            nodes,
            table,
            counts,
            outputs,
            group.shape,
            root,
            links,
            i,
            s,
            k,
        );
    } else if group.epilogue == TensorPointwiseEpilogue::Relu {
        assert(consumes(nodes[r].op)[0] == root);
        lemma_counted_reader(graph, nodes, table, counts, outputs, links[i], s, k, r, 0);
    }
    i
}

/// A result of some Add/Sub group has a first group.
proof fn lemma_first_bounded(groups: Seq<BoundedModel>, g: int, value: ValueId)
    requires
        0 <= g < groups.len(),
        groups[g].output == value,
    ensures
        bounded_for(groups, value) is Some,
    decreases groups.len(),
{
    if groups[0].output != value {
        assert(groups.drop_first()[g - 1] == groups[g]);
        lemma_first_bounded(groups.drop_first(), g - 1, value);
    }
}

/// A result of some Mul group has a first group.
proof fn lemma_first_mul(groups: Seq<MulModel>, g: int, value: ValueId)
    requires
        0 <= g < groups.len(),
        groups[g].output == value,
    ensures
        mul_for(groups, value) is Some,
    decreases groups.len(),
{
    if groups[0].output != value {
        assert(groups.drop_first()[g - 1] == groups[g]);
        lemma_first_mul(groups.drop_first(), g - 1, value);
    }
}

/// A result of some Add -> `ReLU` group has a first group.
proof fn lemma_first_add_relu(groups: Seq<AddReluModel>, g: int, value: ValueId)
    requires
        0 <= g < groups.len(),
        groups[g].relu_output == value,
    ensures
        add_relu_for(groups, value) is Some,
    decreases groups.len(),
{
    if groups[0].relu_output != value {
        assert(groups.drop_first()[g - 1] == groups[g]);
        lemma_first_add_relu(groups.drop_first(), g - 1, value);
    }
}

/// A node that reads what an Add/Sub group computes on the way to its result is not scheduled by
/// itself.
proof fn lemma_bounded_reader_is_grouped(
    graph: Graph,
    nodes: Seq<NodeModel<'_>>,
    table: Seq<usize>,
    counts: Seq<usize>,
    outputs: Seq<ValueId>,
    policy: TensorPointwiseGroupingPolicy,
    g: int,
    value: ValueId,
    p: int,
    k: int,
)
    requires
        grouped_nodes(graph, nodes, table, counts, outputs),
        0 <= g < groups_of(nodes, table, counts, outputs, policy).bounded.len(),
        bounded_hides(groups_of(nodes, table, counts, outputs, policy).bounded[g], value),
        reads_at(nodes, p, k, value),
    ensures
        ({
            let groups = groups_of(nodes, table, counts, outputs, policy);
            hidden(groups, nodes[p].value) || bounded_for(groups.bounded, nodes[p].value) is Some
        }),
{
    let groups = groups_of(nodes, table, counts, outputs, policy);
    let group = groups.bounded[g];
    assert(groups.bounded.contains(group));
    let (r, root, links) = lemma_bounded_chain(
        graph,
        nodes,
        table,
        counts,
        outputs,
        policy,
        group,
    );
    let i = lemma_bounded_reader(
        graph,
        nodes,
        table,
        counts,
        outputs,
        group,
        r,
        root,
        links,
        value,
        p,
        k,
    );
    if i < links.len() - 1 {
        assert(group.steps[i + 1].output == nodes[p].value);
        if group.output == nodes[p].value {
            lemma_first_bounded(groups.bounded, g, nodes[p].value);
        } else {
            assert(bounded_hides(groups.bounded[g], nodes[p].value));
        }
    } else {
        lemma_first_bounded(groups.bounded, g, nodes[p].value);
    }
}

/// A leaf of an Add/Sub group is read by a node that stands no later than the group's result, and
/// no Add/Sub group computes it on the way to another result.
proof fn lemma_bounded_leaf(
    graph: Graph,
    nodes: Seq<NodeModel<'_>>,
    table: Seq<usize>,
    counts: Seq<usize>,
    outputs: Seq<ValueId>,
    policy: TensorPointwiseGroupingPolicy,
    group: BoundedModel,
    value: ValueId,
    p: int,
) -> (place: (int, int))
    requires
        grouped_nodes(graph, nodes, table, counts, outputs),
        groups_of(nodes, table, counts, outputs, policy).bounded.contains(group),
        group.leaves.contains(value),
        0 <= p < nodes.len(),
        group.output == nodes[p].value,
    ensures
        place.0 <= p,
        reads_at(nodes, place.0, place.1, value),
        forall|g: int|
            0 <= g < groups_of(nodes, table, counts, outputs, policy).bounded.len()
                ==> !bounded_hides(
                #[trigger] groups_of(nodes, table, counts, outputs, policy).bounded[g],
                value,
            ),
{
    let groups = groups_of(nodes, table, counts, outputs, policy);
    let kind = ChainKind::AddSub;
    let (r, root, links) = lemma_bounded_chain(
        graph,
        nodes,
        table,
        counts,
        outputs,
        policy,
        group,
    );
    lemma_one_producer(graph, nodes, r, p);
    let l = group.leaves.index_of(value);
    let (j, k) = lemma_leaves_are_read(nodes, table, links, links.len() as int, l);
    lemma_link(kind, nodes, table, counts, group.shape, root, links, j);
    let s = links[j] as int;
    assert(s <= p) by {
        if group.epilogue == TensorPointwiseEpilogue::Relu {
            lemma_searchable(graph, nodes, table, counts);
            assert(consumes(nodes[r].op)[0] == root);
        }
    }
    assert forall|g: int| 0 <= g < groups.bounded.len() implies !bounded_hides(
        #[trigger] groups.bounded[g],
        value,
    ) by {
        let other = groups.bounded[g];
        if bounded_hides(other, value) {
            assert(groups.bounded.contains(other));
            let (r2, root2, links2) = lemma_bounded_chain(
                graph,
                nodes,
                table,
                counts,
                outputs,
                policy,
                other,
            );
            let i = lemma_bounded_reader(
                graph,
                nodes,
                table,
                counts,
                outputs,
                other,
                r2,
                root2,
                links2,
                value,
                s,
                k,
            );
            if i < links2.len() - 1 {
                lemma_leaf_is_not_inner(
                    graph,
                    kind,
                    nodes,
                    table,
                    counts,
                    outputs,
                    (other.shape, root2, links2),
                    i,
                    (group.shape, root, links),
                    value,
                    j,
                    k,
                );
            }
        }
    }
    (s, k)
}

/// The chain that a Mul group was made of; its last link is the node that the group ends in.
pub open spec fn mul_chain(
    nodes: Seq<NodeModel<'_>>,
    table: Seq<usize>,
    counts: Seq<usize>,
    group: MulModel,
    links: Seq<usize>,
) -> bool {
    &&& linked(ChainKind::Mul, nodes, table, counts, group.shape, group.output, links)
    &&& assembled(nodes, table, links, links.len() as int) matches Some(parts) && parts.0
        == group.leaves
    &&& group.steps.len() == links.len()
    &&& 2 <= links.len()
    &&& links.last() < nodes.len()
    &&& nodes[links.last() as int].value == group.output
    &&& forall|i: int|
        0 <= i < links.len() ==> (#[trigger] group.steps[i]).output
            == nodes[links[i] as int].value
    &&& group.steps == assembled(nodes, table, links, links.len() as int)->Some_0.1
}

/// Every Mul group was made of a chain.
pub proof fn lemma_mul_chain(
    graph: Graph,
    nodes: Seq<NodeModel<'_>>,
    table: Seq<usize>,
    counts: Seq<usize>,
    outputs: Seq<ValueId>,
    policy: TensorPointwiseGroupingPolicy,
    group: MulModel,
) -> (links: Seq<usize>)
    requires
        grouped_nodes(graph, nodes, table, counts, outputs),
        groups_of(nodes, table, counts, outputs, policy).muls.contains(group),
    ensures
        mul_chain(nodes, table, counts, group, links),
{
    lemma_searchable(graph, nodes, table, counts);
    let choice = |node: NodeModel<'_>| mul_group(nodes, table, counts, outputs, node);
    nodes.lemma_filter_map_contains(choice, group);
    let node = choose|node: NodeModel<'_>| #[trigger]
        nodes.contains(node) && choice(node) == Some(group);
    let r = nodes.index_of(node);
    let links = group_links(
        ChainKind::Mul,
        nodes,
        table,
        counts,
        node.shape,
        node.value,
    )->Some_0;
    lemma_assembled_chain(nodes, table, counts, node.shape, node.value, links, ChainKind::Mul);
    lemma_link(ChainKind::Mul, nodes, table, counts, node.shape, node.value, links, 0);
    lemma_link(
        ChainKind::Mul,
        nodes,
        table,
        counts,
        node.shape,
        node.value,
        links,
        links.len() - 1,
    );
    let steps = assembled(nodes, table, links, links.len() as int)->Some_0.1;
    assert forall|i: int| 0 <= i < links.len() implies (#[trigger] group.steps[i]).output
        == nodes[links[i] as int].value by {
        assert(steps[i].output == nodes[links[i] as int].value);
    }
    assert(graph.knows(nodes[r].value));
    lemma_found_value(graph, nodes, table, node.value);
    links
}

/// The one node that reads what a Mul group computes on the way to its result.
proof fn lemma_mul_reader(
    graph: Graph,
    nodes: Seq<NodeModel<'_>>,
    table: Seq<usize>,
    counts: Seq<usize>,
    outputs: Seq<ValueId>,
    group: MulModel,
    links: Seq<usize>,
    value: ValueId,
    s: int,
    k: int,
) -> (i: int)
    requires
        grouped_nodes(graph, nodes, table, counts, outputs),
        mul_chain(nodes, table, counts, group, links),
        mul_hides(group, value),
        reads_at(nodes, s, k, value),
    ensures
        0 <= i < links.len() - 1,
        nodes[links[i] as int].value == value,
        s == links[i + 1],
{
    let i = choose|i: int|
        0 <= i < group.steps.len() && (#[trigger] group.steps[i]).output == value;
    assert(nodes[links[i] as int].value == value);
    lemma_inner_reader(
        graph,
        ChainKind::Mul,
        nodes,
        table,
        counts,
        outputs,
        group.shape,
        group.output,
        links,
        i,
        s,
        k,
    );
    i
}

/// A node that reads what a Mul group computes on the way to its result is not scheduled by
/// itself.
proof fn lemma_mul_reader_is_grouped(
    graph: Graph,
    nodes: Seq<NodeModel<'_>>,
    table: Seq<usize>,
    counts: Seq<usize>,
    outputs: Seq<ValueId>,
    policy: TensorPointwiseGroupingPolicy,
    g: int,
    value: ValueId,
    p: int,
    k: int,
)
    requires
        grouped_nodes(graph, nodes, table, counts, outputs),
        0 <= g < groups_of(nodes, table, counts, outputs, policy).muls.len(),
        mul_hides(groups_of(nodes, table, counts, outputs, policy).muls[g], value),
        reads_at(nodes, p, k, value),
    ensures
        ({
            let groups = groups_of(nodes, table, counts, outputs, policy);
            hidden(groups, nodes[p].value) || mul_for(groups.muls, nodes[p].value) is Some
        }),
{
    let groups = groups_of(nodes, table, counts, outputs, policy);
    let group = groups.muls[g];
    assert(groups.muls.contains(group));
    let links = lemma_mul_chain(graph, nodes, table, counts, outputs, policy, group);
    let i = lemma_mul_reader(
        graph,
        nodes,
        table,
        counts,
        outputs,
        group,
        links,
        value,
        p,
        k,
    );
    assert(group.steps[i + 1].output == nodes[p].value);
    if group.output == nodes[p].value {
        lemma_first_mul(groups.muls, g, nodes[p].value);
    } else {
        assert(mul_hides(groups.muls[g], nodes[p].value));
    }
}

/// A leaf of a Mul group is read by a node that stands no later than the group's result, and no
/// Mul group computes it on the way to another result.
proof fn lemma_mul_leaf(
    graph: Graph,
    nodes: Seq<NodeModel<'_>>,
    table: Seq<usize>,
    counts: Seq<usize>,
    outputs: Seq<ValueId>,
    policy: TensorPointwiseGroupingPolicy,
    group: MulModel,
    value: ValueId,
    p: int,
) -> (place: (int, int))
    requires
        grouped_nodes(graph, nodes, table, counts, outputs),
        groups_of(nodes, table, counts, outputs, policy).muls.contains(group),
        group.leaves.contains(value),
        0 <= p < nodes.len(),
        group.output == nodes[p].value,
    ensures
        place.0 <= p,
        reads_at(nodes, place.0, place.1, value),
        forall|g: int|
            0 <= g < groups_of(nodes, table, counts, outputs, policy).muls.len() ==> !mul_hides(
                #[trigger] groups_of(nodes, table, counts, outputs, policy).muls[g],
                value,
            ),
{
    let groups = groups_of(nodes, table, counts, outputs, policy);
    let kind = ChainKind::Mul;
    let links = lemma_mul_chain(graph, nodes, table, counts, outputs, policy, group);
    lemma_one_producer(graph, nodes, links.last() as int, p);
    let l = group.leaves.index_of(value);
    let (j, k) = lemma_leaves_are_read(nodes, table, links, links.len() as int, l);
    lemma_link(kind, nodes, table, counts, group.shape, group.output, links, j);
    let s = links[j] as int;
    assert forall|g: int| 0 <= g < groups.muls.len() implies !mul_hides(
        #[trigger] groups.muls[g],
        value,
    ) by {
        let other = groups.muls[g];
        if mul_hides(other, value) {
            assert(groups.muls.contains(other));
            let links2 = lemma_mul_chain(graph, nodes, table, counts, outputs, policy, other);
            let i = lemma_mul_reader(
                graph,
                nodes,
                table,
                counts,
                outputs,
                other,
                links2,
                value,
                s,
                k,
            );
            lemma_leaf_is_not_inner(
                graph,
                kind,
                nodes,
                table,
                counts,
                outputs,
                (other.shape, other.output, links2),
                i,
                (group.shape, group.output, links),
                value,
                j,
                k,
            );
        }
    }
    (s, k)
}

/// The Add that an Add -> `ReLU` group takes in has one use, by the `ReLU`.
pub proof fn lemma_add_relu_reader(
    graph: Graph,
    nodes: Seq<NodeModel<'_>>,
    table: Seq<usize>,
    counts: Seq<usize>,
    outputs: Seq<ValueId>,
    policy: TensorPointwiseGroupingPolicy,
    group: AddReluModel,
) -> (places: (int, int))
    requires
        grouped_nodes(graph, nodes, table, counts, outputs),
        groups_of(nodes, table, counts, outputs, policy).pointwise.contains(group),
    ensures
        0 <= places.0 < places.1 < nodes.len(),
        nodes[places.0].value == group.add_output,
        nodes[places.0].op == (OpDescriptor::Add { left: group.left, right: group.right }),
        counts[places.0] == 1,
        nodes[places.1].value == group.relu_output,
        nodes[places.1].op == (OpDescriptor::Relu { input: group.add_output }),
        lookup(table, group.add_output) == Some(places.0 as usize),
{
    lemma_searchable(graph, nodes, table, counts);
    let choice = |node: NodeModel<'_>| add_relu_group(nodes, table, counts, node);
    nodes.lemma_filter_map_contains(choice, group);
    let node = choose|node: NodeModel<'_>| #[trigger]
        nodes.contains(node) && choice(node) == Some(group);
    let r = nodes.index_of(node);
    assert(consumes(nodes[r].op)[0] == group.add_output);
    assert(precedes(graph.id, nodes[r].value.index as int, consumes(nodes[r].op)[0]));
    lemma_found_value(graph, nodes, table, group.add_output);
    (lookup(table, group.add_output)->Some_0 as int, r)
}

/// A node that reads the Add of an Add -> `ReLU` group is the `ReLU`.
proof fn lemma_add_relu_reader_is_grouped(
    graph: Graph,
    nodes: Seq<NodeModel<'_>>,
    table: Seq<usize>,
    counts: Seq<usize>,
    outputs: Seq<ValueId>,
    policy: TensorPointwiseGroupingPolicy,
    g: int,
    p: int,
    k: int,
)
    requires
        grouped_nodes(graph, nodes, table, counts, outputs),
        0 <= g < groups_of(nodes, table, counts, outputs, policy).pointwise.len(),
        reads_at(
            nodes,
            p,
            k,
            groups_of(nodes, table, counts, outputs, policy).pointwise[g].add_output,
        ),
    ensures
        nodes[p].op is Relu,
        add_relu_for(
            groups_of(nodes, table, counts, outputs, policy).pointwise,
            nodes[p].value,
        ) is Some,
{
    let groups = groups_of(nodes, table, counts, outputs, policy);
    let group = groups.pointwise[g];
    assert(groups.pointwise.contains(group));
    let (a, r) = lemma_add_relu_reader(graph, nodes, table, counts, outputs, policy, group);
    assert(consumes(nodes[r].op)[0] == group.add_output);
    lemma_counted_reader(graph, nodes, table, counts, outputs, a as usize, p, k, r, 0);
    lemma_first_add_relu(groups.pointwise, g, nodes[p].value);
}

/// Whatever a scheduled operation reads, a node that stands no later than the operation's result
/// reads, and no group computes it on the way to another result.
proof fn lemma_read_is_scheduled(
    graph: Graph,
    nodes: Seq<NodeModel<'_>>,
    table: Seq<usize>,
    counts: Seq<usize>,
    outputs: Seq<ValueId>,
    policy: TensorPointwiseGroupingPolicy,
    p: int,
    value: ValueId,
) -> (place: (int, int))
    requires
        grouped_nodes(graph, nodes, table, counts, outputs),
        0 <= p < nodes.len(),
        operation_for(groups_of(nodes, table, counts, outputs, policy), nodes[p]) matches Some(
            operation,
        ) && operation.reads().contains(value),
    ensures
        place.0 <= p,
        reads_at(nodes, place.0, place.1, value),
        !hidden(groups_of(nodes, table, counts, outputs, policy), value),
{
    let groups = groups_of(nodes, table, counts, outputs, policy);
    let node = nodes[p];
    lemma_found_groups(groups, node.value);
    match operation_for(groups, node)->Some_0 {
        OperationModel::Node(_) => {
            let k = consumes(node.op).index_of(value);
            assert(reads_at(nodes, p, k, value));
            assert forall|g: int| 0 <= g < groups.pointwise.len() implies (
            #[trigger] groups.pointwise[g]).add_output != value by {
                if groups.pointwise[g].add_output == value {
                    lemma_add_relu_reader_is_grouped(
                        graph,
                        nodes,
                        table,
                        counts,
                        outputs,
                        policy,
                        g,
                        p,
                        k,
                    );
                }
            }
            assert forall|g: int| 0 <= g < groups.muls.len() implies !mul_hides(
                #[trigger] groups.muls[g],
                value,
            ) by {
                if mul_hides(groups.muls[g], value) {
                    lemma_mul_reader_is_grouped(
                        graph,
                        nodes,
                        table,
                        counts,
                        outputs,
                        policy,
                        g,
                        value,
                        p,
                        k,
                    );
                }
            }
            assert forall|g: int| 0 <= g < groups.bounded.len() implies !bounded_hides(
                #[trigger] groups.bounded[g],
                value,
            ) by {
                if bounded_hides(groups.bounded[g], value) {
                    lemma_bounded_reader_is_grouped(
                        graph,
                        nodes,
                        table,
                        counts,
                        outputs,
                        policy,
                        g,
                        value,
                        p,
                        k,
                    );
                }
            }
            (p, k)
        },
        OperationModel::FusedAddRelu { group } => {
            let found = add_relu_for(groups.pointwise, node.value)->Some_0;
            let (a, r) = lemma_add_relu_reader(
                graph,
                nodes,
                table,
                counts,
                outputs,
                policy,
                found,
            );
            lemma_one_producer(graph, nodes, r, p);
            let k = consumes(nodes[a].op).index_of(value);
            assert(consumes(nodes[a].op) =~= seq![group.left, group.right]);
            assert(reads_at(nodes, a, k, value));
            assert forall|g: int| 0 <= g < groups.pointwise.len() implies (
            #[trigger] groups.pointwise[g]).add_output != value by {
                if groups.pointwise[g].add_output == value {
                    lemma_add_relu_reader_is_grouped(
                        graph,
                        nodes,
                        table,
                        counts,
                        outputs,
                        policy,
                        g,
                        a,
                        k,
                    );
                }
            }
            (a, k)
        },
        OperationModel::FusedAddSub { group } => {
            lemma_chain_reads_leaves(group.leaves, step_pairs(group.steps), value);
            lemma_bounded_leaf(graph, nodes, table, counts, outputs, policy, group, value, p)
        },
        OperationModel::FusedMul { group } => {
            lemma_chain_reads_leaves(group.leaves, mul_pairs(group.steps), value);
            lemma_mul_leaf(graph, nodes, table, counts, outputs, policy, group, value, p)
        },
    }
}

/// A selected schedule is closed: whatever an operation reads, an earlier operation computes,
/// whatever the policies.
pub proof fn law_operations_read_earlier_results(
    lowering: TensorSelectedLoweringPlan<'_>,
    plan: TensorExecutionPlan<'_>,
    policy: TensorArithmeticRewritePolicy,
    target: TensorArithmeticCapability,
    grouping: TensorPointwiseGroupingPolicy,
    p: int,
    value: ValueId,
)
    requires
        plan.wf(),
        lowering.wf(),
        lowering.selects(plan, policy, target, grouping),
        0 <= p < lowering.operations@.len(),
        lowering.operations@[p]@.reads().contains(value),
    ensures
        exists|q: int|
            0 <= q < p && (#[trigger] lowering.operations@[q])@.output() == value,
{
    let graph = *plan.graph;
    let nodes = plan.selected_nodes(policy, target);
    let groups = lowering.groups();
    let candidates = plan.candidates(policy, target);
    lemma_rewritten_sound(plan, policy, target);
    lemma_without_orphans_sound(
        graph,
        candidates,
        rewritten(candidates, plan.node_models()),
        plan.output_values@,
    );
    lemma_selected_nodes_closed(plan, policy, target);
    let operations = operation_models(lowering.operations@);
    let operation = operations[p];
    assert(operation == lowering.operations@[p]@);
    let choice = |node: NodeModel<'_>| operation_for(groups, node);
    assert(operations.contains(operation));
    nodes.lemma_filter_map_contains(choice, operation);
    let node = choose|node: NodeModel<'_>| #[trigger]
        nodes.contains(node) && choice(node) == Some(operation);
    let at = nodes.index_of(node);
    lemma_operation_output(groups, node);
    let (s, k) = lemma_read_is_scheduled(
        graph,
        nodes,
        lowering.index_by_value@,
        lowering.use_counts@,
        plan.output_values@,
        grouping,
        at,
        value,
    );
    assert(precedes(graph.id, nodes[s].value.index as int, consumes(nodes[s].op)[k]));
    if s < at {
        assert(nodes[s].value.index < nodes[at].value.index);
    }
    assert(computed(nodes, consumes(nodes[s].op)[k]));
    let c = choose|c: int| 0 <= c < nodes.len() && (#[trigger] nodes[c]).value == value;
    let made = choice(nodes[c])->Some_0;
    lemma_filter_map_holds(nodes, choice, c);
    lemma_operation_output(groups, nodes[c]);
    let q = operations.index_of(made);
    assert(operations[q] == lowering.operations@[q]@);
    lemma_scheduled_steps(graph, groups, nodes);
    let steps = operation_steps(operations);
    assert(steps[p].value == operation.output());
    assert(steps[q].value == value);
    if q > p {
        assert(steps[p].value.index < steps[q].value.index);
    }
}

/// The links of a chain have two operands each, and are few.
pub proof fn lemma_links_are_binary(
    kind: ChainKind,
    nodes: Seq<NodeModel<'_>>,
    table: Seq<usize>,
    counts: Seq<usize>,
    shape: Seq<usize>,
    root: ValueId,
    links: Seq<usize>,
)
    requires
        linked(kind, nodes, table, counts, shape, root, links),
    ensures
        links.len() <= MAX_BOUNDED_POINTWISE_STEPS,
        forall|i: int|
            0 <= i < links.len() ==> consumes(nodes[(#[trigger] links[i]) as int].op).len() == 2,
{
    reveal(linked);
    assert forall|i: int| 0 <= i < links.len() implies consumes(
        nodes[(#[trigger] links[i]) as int].op,
    ).len() == 2 by {
        lemma_link(kind, nodes, table, counts, shape, root, links, i);
    }
}

/// A group reads every one of its leaves.
pub proof fn law_groups_read_their_leaves(
    lowering: TensorSelectedLoweringPlan<'_>,
    plan: TensorExecutionPlan<'_>,
    policy: TensorArithmeticRewritePolicy,
    target: TensorArithmeticCapability,
    grouping: TensorPointwiseGroupingPolicy,
    p: int,
    value: ValueId,
)
    requires
        plan.wf(),
        lowering.wf(),
        lowering.selects(plan, policy, target, grouping),
        0 <= p < lowering.operations@.len(),
        match lowering.operations@[p]@ {
            OperationModel::FusedAddSub { group } => group.leaves.contains(value),
            OperationModel::FusedMul { group } => group.leaves.contains(value),
            _ => false,
        },
    ensures
        lowering.operations@[p]@.reads().contains(value),
{
    let graph = *plan.graph;
    let nodes = plan.selected_nodes(policy, target);
    let (table, counts) = (lowering.index_by_value@, lowering.use_counts@);
    let outputs = plan.output_values@;
    let groups = lowering.groups();
    let candidates = plan.candidates(policy, target);
    lemma_rewritten_sound(plan, policy, target);
    lemma_without_orphans_sound(
        graph,
        candidates,
        rewritten(candidates, plan.node_models()),
        outputs,
    );
    let operations = operation_models(lowering.operations@);
    let operation = operations[p];
    assert(operation == lowering.operations@[p]@);
    let choice = |node: NodeModel<'_>| operation_for(groups, node);
    assert(operations.contains(operation));
    nodes.lemma_filter_map_contains(choice, operation);
    let node = choose|node: NodeModel<'_>| #[trigger]
        nodes.contains(node) && choice(node) == Some(operation);
    lemma_found_groups(groups, node.value);
    match operation {
        OperationModel::FusedAddSub { group } => {
            let (_, root, links) = lemma_bounded_chain(
                graph,
                nodes,
                table,
                counts,
                outputs,
                grouping,
                group,
            );
            lemma_links_are_binary(
                ChainKind::AddSub,
                nodes,
                table,
                counts,
                group.shape,
                root,
                links,
            );
            lemma_leaves_are_reads(nodes, table, links, value);
        },
        OperationModel::FusedMul { group } => {
            let links = lemma_mul_chain(graph, nodes, table, counts, outputs, grouping, group);
            lemma_links_are_binary(
                ChainKind::Mul,
                nodes,
                table,
                counts,
                group.shape,
                group.output,
                links,
            );
            lemma_leaves_are_reads(nodes, table, links, value);
        },
        _ => {},
    }
}

/// A group is scheduled for a node of its own shape: an Add, Sub, Mul or `ReLU`.
pub proof fn lemma_group_node(
    lowering: TensorSelectedLoweringPlan<'_>,
    plan: TensorExecutionPlan<'_>,
    policy: TensorArithmeticRewritePolicy,
    target: TensorArithmeticCapability,
    grouping: TensorPointwiseGroupingPolicy,
    p: int,
)
    requires
        plan.wf(),
        lowering.wf(),
        lowering.selects(plan, policy, target, grouping),
        0 <= p < lowering.nodes@.len(),
    ensures
        operation_for(lowering.groups(), lowering.nodes@[p]@) matches Some(operation) ==> {
            &&& operation.shape() == lowering.nodes@[p]@.shape
            &&& !(operation is Node) ==> {
                let op = lowering.nodes@[p]@.op;
                op is Add || op is Sub || op is Mul || op is Relu
            }
            &&& operation matches OperationModel::Node(node) ==> node == lowering.nodes@[p]@
        },
{
    let graph = *plan.graph;
    let nodes = plan.selected_nodes(policy, target);
    let (table, counts) = (lowering.index_by_value@, lowering.use_counts@);
    let outputs = plan.output_values@;
    let groups = lowering.groups();
    let candidates = plan.candidates(policy, target);
    lemma_rewritten_sound(plan, policy, target);
    lemma_without_orphans_sound(
        graph,
        candidates,
        rewritten(candidates, plan.node_models()),
        outputs,
    );
    assert(nodes[p] == lowering.nodes@[p]@);
    lemma_found_groups(groups, nodes[p].value);
    if let Some(operation) = operation_for(groups, nodes[p]) {
        match operation {
            OperationModel::FusedAddSub { group } => {
                let (r, root, links) = lemma_bounded_chain(
                    graph,
                    nodes,
                    table,
                    counts,
                    outputs,
                    grouping,
                    group,
                );
                lemma_one_producer(graph, nodes, r, p);
                lemma_link(
                    ChainKind::AddSub,
                    nodes,
                    table,
                    counts,
                    group.shape,
                    root,
                    links,
                    links.len() - 1,
                );
            },
            OperationModel::FusedMul { group } => {
                let links = lemma_mul_chain(graph, nodes, table, counts, outputs, grouping, group);
                lemma_one_producer(graph, nodes, links.last() as int, p);
                lemma_link(
                    ChainKind::Mul,
                    nodes,
                    table,
                    counts,
                    group.shape,
                    group.output,
                    links,
                    links.len() - 1,
                );
            },
            OperationModel::FusedAddRelu { .. } => {
                let found = add_relu_for(groups.pointwise, nodes[p].value)->Some_0;
                let (_, r) = lemma_add_relu_reader(
                    graph,
                    nodes,
                    table,
                    counts,
                    outputs,
                    grouping,
                    found,
                );
                lemma_one_producer(graph, nodes, r, p);
            },
            OperationModel::Node(_) => {},
        }
    }
}

/// An operation is scheduled for a node that computes its value, in its shape.
pub proof fn lemma_operation_node(
    lowering: TensorSelectedLoweringPlan<'_>,
    plan: TensorExecutionPlan<'_>,
    policy: TensorArithmeticRewritePolicy,
    target: TensorArithmeticCapability,
    grouping: TensorPointwiseGroupingPolicy,
    p: int,
) -> (at: int)
    requires
        plan.wf(),
        lowering.wf(),
        lowering.selects(plan, policy, target, grouping),
        0 <= p < lowering.operations@.len(),
    ensures
        0 <= at < lowering.nodes@.len(),
        lowering.nodes@[at].value == lowering.operations@[p]@.output(),
        lowering.nodes@[at].shape@ == lowering.operations@[p]@.shape(),
{
    let nodes = plan.selected_nodes(policy, target);
    let groups = lowering.groups();
    let operations = operation_models(lowering.operations@);
    let operation = operations[p];
    assert(operation == lowering.operations@[p]@);
    let choice = |node: NodeModel<'_>| operation_for(groups, node);
    assert(operations.contains(operation));
    nodes.lemma_filter_map_contains(choice, operation);
    let node = choose|node: NodeModel<'_>| #[trigger]
        nodes.contains(node) && choice(node) == Some(operation);
    let at = nodes.index_of(node);
    assert(nodes[at] == lowering.nodes@[at]@);
    lemma_operation_output(groups, node);
    lemma_group_node(lowering, plan, policy, target, grouping, at);
    at
}

} // verus!
