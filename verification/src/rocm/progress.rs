//! The progress of an execution: which values have resources, and for how many more uses.
use vstd::prelude::*;

use super::complete::{
    law_completed_nodes_stay_on_course, law_executions_start_on_course, law_operands_are_there,
    law_unscheduled_nodes_are_passed, on_course,
};
use super::error::RocmTensorExecutionError;
use super::execute::{
    bound_values, locates, release_after_read, released, used_values, RocmMode, RocmNodeWork,
};
use super::layout::{find_node, node_position};
use super::node_work::{node_fails, node_takes};
use super::prepare::RocmPreparedTensorGraph;
use super::reuse::{fits, RocmContext};
use super::small::{execution_resource_slots, ExecutionResources, ExecutionUseCounts};
use super::sources::{RocmResource, RocmTensorInput};
use crate::tensor::error::ValueId;
use crate::tensor::value::Tensor;

verus! {

/// A running execution.
#[derive(Debug)]
pub struct RocmExecution {
    /// The handle of each node's value, while it has a resource.
    pub resources: ExecutionResources,
    /// How often each node's value is still used.
    pub remaining: ExecutionUseCounts,
    /// The node that comes next.
    pub at: usize,
}

/// Some value has no resource.
pub open spec fn absent(slots: Seq<Option<usize>>, positions: Seq<usize>, i: int) -> bool {
    positions[i] >= slots.len() || slots[positions[i] as int] is None
}

impl RocmExecution {
    /// There is a slot and a count for each node.
    pub open spec fn wf(&self, prepared: RocmPreparedTensorGraph<'_>) -> bool {
        &&& self.resources@.len() == prepared.nodes().len()
        &&& self.remaining@.len() == prepared.nodes().len()
        &&& self.at <= prepared.nodes().len()
    }

    /// Each value has the uses left that are still to come; a value that was computed has a
    /// resource until its last use, and nothing else has one.
    pub open spec fn on_course(&self, prepared: RocmPreparedTensorGraph<'_>) -> bool {
        on_course(prepared, self.resources@, self.remaining@, self.at as int)
    }

    /// Starts to execute a plan: nothing has a resource, and every use is still to come.
    pub fn begin(prepared: &RocmPreparedTensorGraph<'_>) -> (execution: RocmExecution)
        requires
            prepared.use_counts@.len() == prepared.nodes().len(),
        ensures
            execution.wf(*prepared),
            execution.at == 0,
            execution.resources@ == Seq::new(prepared.nodes().len(), |i: int| None::<usize>),
            execution.remaining@ == prepared.use_counts@,
            prepared.wf() ==> execution.on_course(*prepared),
    {
        proof {
            if prepared.wf() {
                law_executions_start_on_course(*prepared);
            }
        }
        let count: usize = prepared.lowering_plan.nodes().len();
        RocmExecution {
            resources: execution_resource_slots(count),
            remaining: ExecutionUseCounts::of(prepared.use_counts.as_slice()),
            at: 0,
        }
    }

    /// The next node is scheduled, and these are the uses that it ends.
    pub open spec fn owes(
        &self,
        prepared: RocmPreparedTensorGraph<'_>,
        releases: Seq<usize>,
    ) -> bool {
        prepared.operation_at(self.at as int) matches Some(operation) && locates(
            prepared.nodes(),
            used_values(operation),
            releases,
        )
    }

    proof fn lemma_operands_are_there(
        &self,
        prepared: RocmPreparedTensorGraph<'_>,
        operands: Seq<usize>,
    )
        requires
            prepared.wf(),
            self.on_course(prepared),
            self.at < prepared.nodes().len(),
            prepared.operation_at(self.at as int) matches Some(operation) && locates(
                prepared.nodes(),
                bound_values(operation),
                operands,
            ),
        ensures
            forall|i: int|
                0 <= i < operands.len() ==> !#[trigger] absent(self.resources@, operands, i),
    {
        let bound = bound_values(prepared.operation_at(self.at as int)->Some_0);
        assert forall|i: int| 0 <= i < operands.len() implies !#[trigger] absent(
            self.resources@,
            operands,
            i,
        ) by {
            assert(node_position(prepared.nodes(), bound[i]) == Some(operands[i] as int));
            assert(bound.contains(bound[i]));
            law_operands_are_there(
                prepared,
                self.resources@,
                self.remaining@,
                self.at as int,
                bound[i],
            );
        }
    }

    /// Passes over nodes that are not scheduled, up to one that is, and says what it takes. There
    /// is none left when nothing comes back.
    ///
    /// # Errors
    ///
    /// Those of planning the node.
    pub fn next<'p>(
        &mut self,
        prepared: &'p RocmPreparedTensorGraph<'_>,
        host_inputs: &[(ValueId, Tensor)],
        resource_inputs: &[(ValueId, &RocmTensorInput)],
        mode: RocmMode,
    ) -> (answer: Result<Option<RocmNodeWork<'p>>, RocmTensorExecutionError>)
        requires
            prepared.wf(),
            old(self).wf(*prepared),
        ensures
            final(self).wf(*prepared),
            final(self).resources == old(self).resources,
            final(self).remaining == old(self).remaining,
            final(self).at >= old(self).at,
            forall|i: int|
                old(self).at <= i < final(self).at ==> #[trigger] prepared.operation_at(i) is None,
            old(self).on_course(*prepared) ==> final(self).on_course(*prepared),
            old(self).on_course(*prepared) ==> (answer matches Ok(Some(taken)) ==> forall|i: int|
                0 <= i < taken.operands@.len() ==> !#[trigger] absent(
                    final(self).resources@,
                    taken.operands@,
                    i,
                )),
            match answer {
                Ok(None) => final(self).at == prepared.nodes().len(),
                Ok(Some(taken)) => final(self).at < prepared.nodes().len() && (
                prepared.operation_at(final(self).at as int) matches Some(operation) && node_takes(
                    *prepared,
                    host_inputs@,
                    resource_inputs@,
                    mode,
                    final(self).at as int,
                    operation,
                    taken,
                )),
                Err(error) => final(self).at < prepared.nodes().len() && (prepared.operation_at(
                    final(self).at as int,
                ) matches Some(operation) && node_fails(
                    *prepared,
                    host_inputs@,
                    resource_inputs@,
                    final(self).at as int,
                    operation,
                    error,
                )),
            },
    {
        let count: usize = prepared.lowering_plan.nodes().len();
        while self.at < count
            invariant
                count == prepared.nodes().len(),
                prepared.wf(),
                self.wf(*prepared),
                self.resources == old(self).resources,
                self.remaining == old(self).remaining,
                self.at >= old(self).at,
                forall|i: int|
                    old(self).at <= i < self.at ==> #[trigger] prepared.operation_at(i) is None,
                old(self).on_course(*prepared) ==> self.on_course(*prepared),
            decreases count - self.at,
        {
            match prepared.plan_node(host_inputs, resource_inputs, mode, self.at) {
                Ok(Some(taken)) => {
                    proof {
                        if self.on_course(*prepared) {
                            self.lemma_operands_are_there(*prepared, taken.operands@);
                        }
                    }
                    return Ok(Some(taken));
                },
                Ok(None) => {
                    proof {
                        if self.on_course(*prepared) {
                            law_unscheduled_nodes_are_passed(
                                *prepared,
                                self.resources@,
                                self.remaining@,
                                self.at as int,
                            );
                        }
                    }
                    self.at = self.at + 1;
                },
                Err(error) => {
                    return Err(error);
                },
            }
        }
        Ok(None)
    }

    /// The handles of the values that a node binds, in binding order.
    ///
    /// # Errors
    ///
    /// `MissingResource` for the first of them without a resource.
    pub fn operand_handles(&self, prepared: &RocmPreparedTensorGraph<'_>, operands: &[usize]) -> (answer:
        Result<Vec<usize>, RocmTensorExecutionError>)
        requires
            self.wf(*prepared),
            forall|i: int|
                0 <= i < operands@.len() ==> (#[trigger] operands@[i]) < prepared.nodes().len(),
        ensures
            match answer {
                Ok(handles) => {
                    &&& handles@.len() == operands@.len()
                    &&& forall|i: int|
                        0 <= i < operands@.len() ==> self.resources@[operands@[i] as int] == Some(
                            #[trigger] handles@[i],
                        )
                },
                Err(error) => exists|i: int|
                    {
                        &&& 0 <= i < operands@.len()
                        &&& #[trigger] absent(self.resources@, operands@, i)
                        &&& error == RocmTensorExecutionError::MissingResource(
                            prepared.nodes()[operands@[i] as int].value,
                        )
                        &&& forall|j: int|
                            0 <= j < i ==> !#[trigger] absent(self.resources@, operands@, j)
                    },
            },
    {
        let slots: &[Option<usize>] = self.resources.as_slice();
        let mut handles: Vec<usize> = Vec::with_capacity(operands.len());
        while handles.len() < operands.len()
            invariant
                self.wf(*prepared),
                slots@ == self.resources@,
                handles@.len() <= operands@.len(),
                forall|i: int|
                    0 <= i < operands@.len() ==> (#[trigger] operands@[i])
                        < prepared.nodes().len(),
                forall|i: int|
                    0 <= i < handles@.len() ==> self.resources@[operands@[i] as int] == Some(
                        #[trigger] handles@[i],
                    ),
                forall|j: int|
                    0 <= j < handles@.len() ==> !#[trigger] absent(self.resources@, operands@, j),
            decreases operands@.len() - handles@.len(),
        {
            let position: usize = operands[handles.len()];
            match slots[position] {
                Some(handle) => {
                    assert(!absent(self.resources@, operands@, handles@.len() as int));
                    handles.push(handle);
                },
                None => {
                    assert(absent(self.resources@, operands@, handles@.len() as int));
                    return Err(
                        RocmTensorExecutionError::MissingResource(
                            prepared.lowering_plan.nodes()[position].value,
                        ),
                    );
                },
            }
        }
        Ok(handles)
    }

    /// Records the result of the next node, and releases what has been used up by it.
    ///
    /// # Errors
    ///
    /// `SizeOverflow` if a value was used more often than the plan said.
    pub fn complete(
        &mut self,
        prepared: &RocmPreparedTensorGraph<'_>,
        releases: &[usize],
        handle: usize,
    ) -> (verdict: Result<(), RocmTensorExecutionError>)
        requires
            old(self).wf(*prepared),
            old(self).at < prepared.nodes().len(),
        ensures
            ({
                let slots = old(self).resources@.update(old(self).at as int, Some(handle));
                match verdict {
                    Ok(()) => {
                        &&& final(self).wf(*prepared)
                        &&& final(self).at == old(self).at + 1
                        &&& released(slots, old(self).remaining@, releases@) == Some(
                            (final(self).resources@, final(self).remaining@),
                        )
                    },
                    Err(error) => {
                        &&& error == RocmTensorExecutionError::SizeOverflow
                        &&& final(self).wf(*prepared)
                        &&& final(self).at == old(self).at
                        &&& release_stopped(
                            slots,
                            old(self).remaining@,
                            releases@,
                            final(self).resources@,
                            final(self).remaining@,
                        )
                    },
                }
            }),
            prepared.wf() && old(self).on_course(*prepared) && old(self).owes(*prepared, releases@)
                ==> verdict is Ok && final(self).on_course(*prepared),
    {
        proof {
            if prepared.wf() && self.on_course(*prepared) && self.owes(*prepared, releases@) {
                law_completed_nodes_stay_on_course(
                    *prepared,
                    self.resources@,
                    self.remaining@,
                    self.at as int,
                    releases@,
                    handle,
                );
            }
        }
        let at: usize = self.at;
        self.resources.set(at, Some(handle));
        let ghost slots = self.resources@;
        let ghost counts = self.remaining@;
        let mut done: usize = 0;
        assert(releases@.take(0).len() == 0);
        while done < releases.len()
            invariant
                done <= releases@.len(),
                self.at == at,
                at == old(self).at,
                at < prepared.nodes().len(),
                self.wf(*prepared),
                slots == old(self).resources@.update(at as int, Some(handle)),
                counts == old(self).remaining@,
                prepared.wf() && old(self).on_course(*prepared) && old(self).owes(
                    *prepared,
                    releases@,
                ) ==> released(slots, counts, releases@) is Some,
                released(slots, counts, releases@.take(done as int)) == Some(
                    (self.resources@, self.remaining@),
                ),
            decreases releases@.len() - done,
        {
            proof {
                let grown = releases@.take(done + 1);
                assert(grown.drop_last() =~= releases@.take(done as int));
                assert(grown.last() == releases@[done as int]);
            }
            let verdict: Result<(), RocmTensorExecutionError> = release_after_read(
                &mut self.resources,
                &mut self.remaining,
                releases[done],
            );
            if let Err(error) = verdict {
                proof {
                    lemma_release_fails(slots, counts, releases@, done + 1);
                    assert(releases@.take(done as int).len() == done);
                }
                return Err(error);
            }
            done += 1;
        }
        assert(releases@.take(done as int) =~= releases@);
        assert(prepared.lowering_plan.nodes.len() == prepared.nodes().len());
        self.at = at + 1;
        Ok(())
    }

    /// Takes the handle of a requested output out of the execution.
    ///
    /// # Errors
    ///
    /// `InvalidPlan` if no node produces it, `MissingResource` if it has no resource.
    pub fn take_output(&mut self, prepared: &RocmPreparedTensorGraph<'_>, output: ValueId) -> (answer:
        Result<usize, RocmTensorExecutionError>)
        requires
            old(self).wf(*prepared),
        ensures
            final(self).wf(*prepared),
            match answer {
                Ok(handle) => node_position(prepared.nodes(), output) matches Some(at) && old(
                    self,
                ).resources@[at] == Some(handle) && final(self).resources@ == old(
                    self,
                ).resources@.update(at, None) && final(self).remaining == old(self).remaining
                    && final(self).at == old(self).at,
                Err(error) => {
                    &&& *final(self) == *old(self)
                    &&& match node_position(prepared.nodes(), output) {
                        None => error == RocmTensorExecutionError::InvalidPlan(output),
                        Some(at) => old(self).resources@[at] is None && error
                            == RocmTensorExecutionError::MissingResource(output),
                    }
                },
            },
    {
        let position: usize = match find_node(prepared.lowering_plan.nodes(), output) {
            Some(position) => position,
            None => {
                return Err(RocmTensorExecutionError::InvalidPlan(output));
            },
        };
        match self.resources.as_slice()[position] {
            Some(handle) => {
                self.resources.set(position, None);
                Ok(handle)
            },
            None => Err(RocmTensorExecutionError::MissingResource(output)),
        }
    }
}

/// Releasing stopped at the first use that was not left, with what the uses before it left.
pub open spec fn release_stopped(
    slots: Seq<Option<usize>>,
    counts: Seq<usize>,
    indices: Seq<usize>,
    slots_left: Seq<Option<usize>>,
    counts_left: Seq<usize>,
) -> bool {
    exists|done: int|
        {
            &&& 0 <= done < indices.len()
            &&& released(slots, counts, #[trigger] indices.take(done)) == Some(
                (slots_left, counts_left),
            )
            &&& released(slots, counts, indices.take(done + 1)) is None
        }
}

/// Releasing that stopped did not release everything.
pub proof fn law_stopped_releases_are_not_complete(
    slots: Seq<Option<usize>>,
    counts: Seq<usize>,
    indices: Seq<usize>,
    slots_left: Seq<Option<usize>>,
    counts_left: Seq<usize>,
)
    requires
        release_stopped(slots, counts, indices, slots_left, counts_left),
    ensures
        released(slots, counts, indices) is None,
{
    let done = choose|done: int|
        {
            &&& 0 <= done < indices.len()
            &&& released(slots, counts, #[trigger] indices.take(done)) == Some(
                (slots_left, counts_left),
            )
            &&& released(slots, counts, indices.take(done + 1)) is None
        };
    lemma_release_fails(slots, counts, indices, done + 1);
}

proof fn lemma_release_fails(
    slots: Seq<Option<usize>>,
    counts: Seq<usize>,
    indices: Seq<usize>,
    count: int,
)
    requires
        0 <= count <= indices.len(),
        released(slots, counts, indices.take(count)) is None,
    ensures
        released(slots, counts, indices) is None,
    decreases indices.len() - count,
{
    if count < indices.len() {
        assert(indices.take(count + 1).drop_last() =~= indices.take(count));
        lemma_release_fails(slots, counts, indices, count + 1);
    } else {
        assert(indices.take(count) =~= indices);
    }
}

/// The resource of a finished output is one that the caller may read.
pub open spec fn handed_out(resource: RocmResource, context: RocmContext) -> bool {
    fits(resource, context) && resource.access.reads()
}

/// Checks the resource of a finished output.
///
/// # Errors
///
/// `OutputResourceMismatch` if it is of another pool or device, or cannot be read.
pub fn validate_output_resource(resource: &RocmResource, context: &RocmContext) -> (verdict: Result<
    (),
    RocmTensorExecutionError,
>)
    ensures
        match verdict {
            Ok(()) => handed_out(*resource, *context),
            Err(error) => !handed_out(*resource, *context) && error
                == RocmTensorExecutionError::OutputResourceMismatch,
        },
{
    if resource.pool != context.pool || resource.runtime != context.session.runtime
        || !resource.access.readable() {
        return Err(RocmTensorExecutionError::OutputResourceMismatch);
    }
    Ok(())
}

} // verus!
