//! The dependency closure of graph values.
use vstd::prelude::*;

use super::error::ValueId;
use super::graph::{node_wf, operands, precedes, reads, Graph, Node};

verus! {

/// Computing the node at `from` needs the node at `to`.
pub open spec fn reaches(nodes: Seq<Node>, from: int, to: int) -> bool
    decreases from,
{
    from == to || exists|k: int|
        0 <= k < reads(nodes[from].op).len() && 0 <= (#[trigger] reads(nodes[from].op)[k]).index
            < from && reaches(nodes, reads(nodes[from].op)[k].index as int, to)
}

/// Computing one of `outputs` needs the node at `at`.
pub open spec fn needed(nodes: Seq<Node>, outputs: Seq<ValueId>, at: int) -> bool {
    exists|k: int| 0 <= k < outputs.len() && reaches(nodes, (#[trigger] outputs[k]).index as int, at)
}

/// What a marked node reads is marked too.
pub open spec fn closed_under_reads(nodes: Seq<Node>, marked: Seq<bool>) -> bool {
    forall|i: int, k: int|
        0 <= i < nodes.len() && marked[i] && 0 <= k < reads(nodes[i].op).len() ==> marked[(
        #[trigger] reads(nodes[i].op)[k]).index as int]
}

/// How many entries are not marked.
pub open spec fn unmarked(marked: Seq<bool>) -> nat
    decreases marked.len(),
{
    if marked.len() == 0 {
        0
    } else {
        unmarked(marked.drop_last()) + if marked.last() {
            0nat
        } else {
            1nat
        }
    }
}

/// Marking one more entry leaves one less unmarked.
pub proof fn lemma_marking_counts(marked: Seq<bool>, at: int)
    requires
        0 <= at < marked.len(),
        !marked[at],
    ensures
        unmarked(marked.update(at, true)) + 1 == unmarked(marked),
    decreases marked.len(),
{
    let after = marked.update(at, true);
    if at == marked.len() - 1 {
        assert(after.drop_last() =~= marked.drop_last());
    } else {
        assert(after.drop_last() =~= marked.drop_last().update(at, true));
        lemma_marking_counts(marked.drop_last(), at);
    }
}

/// Needing is transitive over one more operand.
pub proof fn lemma_reaches_operand(nodes: Seq<Node>, from: int, mid: int, k: int)
    requires
        reaches(nodes, from, mid),
        0 <= mid,
        0 <= k < reads(nodes[mid].op).len(),
        reads(nodes[mid].op)[k].index < mid,
    ensures
        reaches(nodes, from, reads(nodes[mid].op)[k].index as int),
    decreases from,
{
    let to = reads(nodes[mid].op)[k].index as int;
    if from == mid {
        assert(reaches(nodes, to, to));
        assert(0 <= reads(nodes[from].op)[k].index < from && reaches(
            nodes,
            reads(nodes[from].op)[k].index as int,
            to,
        ));
    } else {
        let j = choose|j: int|
            0 <= j < reads(nodes[from].op).len() && 0 <= (#[trigger] reads(
                nodes[from].op,
            )[j]).index < from && reaches(nodes, reads(nodes[from].op)[j].index as int, mid);
        lemma_reaches_operand(nodes, reads(nodes[from].op)[j].index as int, mid, k);
    }
}

/// A set of nodes that is closed under reads holds all that one of them needs.
pub proof fn lemma_closed_holds_needs(nodes: Seq<Node>, marked: Seq<bool>, from: int, to: int)
    requires
        marked.len() == nodes.len(),
        closed_under_reads(nodes, marked),
        0 <= from < nodes.len(),
        marked[from],
        reaches(nodes, from, to),
    ensures
        0 <= to < nodes.len(),
        marked[to],
    decreases from,
{
    if from != to {
        let j = choose|j: int|
            0 <= j < reads(nodes[from].op).len() && 0 <= (#[trigger] reads(
                nodes[from].op,
            )[j]).index < from && reaches(nodes, reads(nodes[from].op)[j].index as int, to);
        assert(marked[reads(nodes[from].op)[j].index as int]);
        lemma_closed_holds_needs(nodes, marked, reads(nodes[from].op)[j].index as int, to);
    }
}

/// What a node needs stands at or before it.
pub proof fn lemma_needs_precede(nodes: Seq<Node>, from: int, to: int)
    requires
        reaches(nodes, from, to),
        0 <= from,
    ensures
        0 <= to <= from,
    decreases from,
{
    if from != to {
        let j = choose|j: int|
            0 <= j < reads(nodes[from].op).len() && 0 <= (#[trigger] reads(
                nodes[from].op,
            )[j]).index < from && reaches(nodes, reads(nodes[from].op)[j].index as int, to);
        lemma_needs_precede(nodes, reads(nodes[from].op)[j].index as int, to);
    }
}

/// Every operand of `at` is marked or waits on the stack.
spec fn covered(nodes: Seq<Node>, marked: Seq<bool>, stack: Seq<usize>, at: int) -> bool {
    forall|k: int|
        0 <= k < reads(nodes[at].op).len() ==> marked[(#[trigger] reads(
            nodes[at].op,
        )[k]).index as int] || stack.contains(reads(nodes[at].op)[k].index)
}

proof fn lemma_covered_after_pop(
    nodes: Seq<Node>,
    marked: Seq<bool>,
    stack: Seq<usize>,
    popped: usize,
    at: int,
)
    requires
        covered(nodes, marked, stack.push(popped), at),
        marked[popped as int],
    ensures
        covered(nodes, marked, stack, at),
{
    assert forall|k: int| 0 <= k < reads(nodes[at].op).len() implies marked[(#[trigger] reads(
        nodes[at].op,
    )[k]).index as int] || stack.contains(reads(nodes[at].op)[k].index) by {
        let operand = reads(nodes[at].op)[k].index;
        if !marked[operand as int] {
            let longer = stack.push(popped);
            let i = longer.index_of(operand);
            assert(longer.contains(operand));
            assert(longer[i] == operand);
            assert(stack[i] == operand);
        }
    }
}

impl Graph {
    /// Marks `root` and everything that computing it needs.
    pub fn mark_needed(&self, root: usize, marked: &mut Vec<bool>)
        requires
            self.wf(),
            root < self.nodes@.len(),
            old(marked)@.len() == self.nodes@.len(),
            closed_under_reads(self.nodes@, old(marked)@),
        ensures
            final(marked)@.len() == self.nodes@.len(),
            closed_under_reads(self.nodes@, final(marked)@),
            forall|i: int|
                0 <= i < self.nodes@.len() ==> (#[trigger] final(marked)@[i] <==> old(
                    marked,
                )@[i] || reaches(self.nodes@, root as int, i)),
    {
        let ghost nodes = self.nodes@;
        let ghost before = marked@;
        let mut stack: Vec<usize> = Vec::new();
        stack.push(root);
        assert(stack@[0] == root);
        assert(reaches(nodes, root as int, root as int));
        proof {
            assert forall|i: int| 0 <= i < nodes.len() && marked@[i] implies #[trigger] covered(
                nodes,
                marked@,
                stack@,
                i,
            ) by {}
        }
        while stack.len() > 0
            invariant
                self.wf(),
                nodes == self.nodes@,
                root < nodes.len(),
                before.len() == nodes.len(),
                marked@.len() == nodes.len(),
                forall|s: int|
                    0 <= s < stack@.len() ==> (#[trigger] stack@[s]) < nodes.len() && reaches(
                        nodes,
                        root as int,
                        stack@[s] as int,
                    ),
                forall|i: int| 0 <= i < nodes.len() && before[i] ==> #[trigger] marked@[i],
                forall|i: int|
                    0 <= i < nodes.len() && #[trigger] marked@[i] ==> before[i] || reaches(
                        nodes,
                        root as int,
                        i,
                    ),
                forall|i: int|
                    0 <= i < nodes.len() && marked@[i] ==> #[trigger] covered(
                        nodes,
                        marked@,
                        stack@,
                        i,
                    ),
                marked@[root as int] || stack@.contains(root),
            decreases unmarked(marked@), stack@.len(),
        {
            let ghost full = stack@;
            let at: usize = stack.pop().unwrap();
            proof {
                assert(full =~= stack@.push(at));
                assert(full[full.len() - 1] == at);
                if full.contains(root) && at != root {
                    let i = full.index_of(root);
                    assert(stack@[i] == root);
                }
            }
            if marked[at] {
                proof {
                    assert forall|i: int| 0 <= i < nodes.len() && marked@[i] implies
                        #[trigger] covered(nodes, marked@, stack@, i) by {
                        lemma_covered_after_pop(nodes, marked@, stack@, at, i);
                    }
                }
                continue;
            }
            let ghost previous = marked@;
            proof {
                lemma_marking_counts(marked@, at as int);
            }
            marked.set(at, true);
            let ghost popped = stack@;
            let read: Vec<ValueId> = operands(&self.nodes[at].op);
            let mut k: usize = 0;
            while k < read.len()
                invariant
                    self.wf(),
                    nodes == self.nodes@,
                    root < nodes.len(),
                    at < nodes.len(),
                    reaches(nodes, root as int, at as int),
                    read@ == reads(nodes[at as int].op),
                    k <= read@.len(),
                    stack@.len() == popped.len() + k,
                    stack@.take(popped.len() as int) == popped,
                    forall|s: int|
                        0 <= s < stack@.len() ==> (#[trigger] stack@[s]) < nodes.len() && reaches(
                            nodes,
                            root as int,
                            stack@[s] as int,
                        ),
                    forall|j: int|
                        0 <= j < k ==> stack@[popped.len() + j] == (#[trigger] read@[j]).index,
                decreases read@.len() - k,
            {
                proof {
                    assert(node_wf(self.id, nodes, at as int));
                    assert(precedes(self.id, at as int, read@[k as int]));
                    lemma_reaches_operand(nodes, root as int, at as int, k as int);
                }
                let ghost shorter = stack@;
                stack.push(read[k].index);
                assert(stack@.take(popped.len() as int) =~= popped);
                k += 1;
            }
            proof {
                let now = marked@;
                assert forall|i: int| 0 <= i < nodes.len() && now[i] implies #[trigger] covered(
                    nodes,
                    now,
                    stack@,
                    i,
                ) by {
                    assert forall|j: int| 0 <= j < reads(nodes[i].op).len() implies now[(
                    #[trigger] reads(nodes[i].op)[j]).index as int] || stack@.contains(
                        reads(nodes[i].op)[j].index,
                    ) by {
                        let operand = reads(nodes[i].op)[j].index;
                        assert(node_wf(self.id, nodes, i));
                        assert(precedes(self.id, i, reads(nodes[i].op)[j]));
                        if i == at {
                            assert(stack@[popped.len() + j] == read@[j].index);
                        } else {
                            assert(previous[i]);
                            assert(covered(nodes, previous, full, i));
                            if !now[operand as int] {
                                assert(full.contains(operand));
                                let s = full.index_of(operand);
                                assert(operand != at);
                                assert(popped[s] == operand);
                                assert(stack@.take(popped.len() as int)[s] == operand);
                                assert(stack@[s] == operand);
                            }
                        }
                    }
                }
                if !now[root as int] {
                    let s = popped.index_of(root);
                    assert(popped.contains(root));
                    assert(stack@.take(popped.len() as int)[s] == root);
                    assert(stack@[s] == root);
                }
            }
        }
        proof {
            assert forall|i: int, k: int|
                0 <= i < nodes.len() && marked@[i] && 0 <= k < reads(nodes[i].op).len() implies
                marked@[(#[trigger] reads(nodes[i].op)[k]).index as int] by {
                assert(covered(nodes, marked@, stack@, i));
            }
            assert forall|i: int| 0 <= i < nodes.len() && reaches(nodes, root as int, i) implies
                #[trigger] marked@[i] by {
                lemma_closed_holds_needs(nodes, marked@, root as int, i);
            }
        }
    }
}

} // verus!
