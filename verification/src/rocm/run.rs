//! A whole execution: it starts once everything was checked, asks for one node's work after the
//! other, and ends by handing its outputs out.
//!
//! There is no way to a run but [`RocmRun::start`], and no way to the work of a node but a run, so
//! that nothing is asked of the device before the checks have passed.
use vstd::prelude::*;
use vstd::slice::slice_to_vec;

use super::assess::RocmTensorAssessor;
use super::complete::{
    law_accepted_nodes_can_be_planned, law_operands_are_there, law_requested_outputs_are_left,
    on_course,
};
use super::error::RocmTensorExecutionError;
use super::execute::{
    bound_values, locates, released, used_values, RocmMode, RocmNodeWork, RocmStorage,
};
use super::layout::{find_node, lemma_position_found, node_position};
use super::node_work::{node_fails, node_takes};
use super::prepare::RocmPreparedTensorGraph;
use super::progress::{absent, handed_out, validate_output_resource, RocmExecution};
use super::reuse::{RocmContext, RocmTensorScratch};
use super::sources::{sourceless, RocmResource, RocmTensorInput};
use super::validate::{
    execution_accepted, execution_refused, validate_execution_sources, RocmBankFacts,
};
use crate::tensor::error::ValueId;
use crate::tensor::value::Tensor;

verus! {

/// An execution that was checked and has started.
#[derive(Debug)]
pub struct RocmRun<'p, 'g> {
    prepared: &'p RocmPreparedTensorGraph<'g>,
    host_inputs: &'p [(ValueId, Tensor)],
    resource_inputs: &'p [(ValueId, &'p RocmTensorInput)],
    context: RocmContext,
    scratch: Option<&'p RocmTensorScratch>,
    bank: Option<RocmBankFacts<'p>>,
    execution: RocmExecution,
    /// How many requested outputs have been handed out.
    taken: usize,
    outputs: Vec<RocmTensorInput>,
}

/// A device tensor is what a run hands out for a requested output.
pub open spec fn delivers(
    prepared: RocmPreparedTensorGraph<'_>,
    context: RocmContext,
    k: int,
    output: RocmTensorInput,
) -> bool {
    &&& output.session == context.session.id
    &&& output.shape@ == prepared.graph.shape_of(prepared.outputs@[k])
    &&& handed_out(output.resource, context)
}

/// The value of the requested output has a resource.
pub open spec fn output_is_held(
    prepared: RocmPreparedTensorGraph<'_>,
    slots: Seq<Option<usize>>,
    k: int,
) -> bool {
    node_position(prepared.nodes(), prepared.outputs@[k]) matches Some(i) && 0 <= i < slots.len()
        && slots[i] is Some
}

impl<'p, 'g> RocmRun<'p, 'g> {
    pub closed spec fn prepared(&self) -> RocmPreparedTensorGraph<'g> {
        *self.prepared
    }

    pub closed spec fn host_inputs(&self) -> Seq<(ValueId, Tensor)> {
        self.host_inputs@
    }

    pub closed spec fn resource_inputs(&self) -> Seq<(ValueId, &'p RocmTensorInput)> {
        self.resource_inputs@
    }

    pub closed spec fn context(&self) -> RocmContext {
        self.context
    }

    pub closed spec fn scratch(&self) -> Option<&'p RocmTensorScratch> {
        self.scratch
    }

    pub closed spec fn bank(&self) -> Option<RocmBankFacts<'p>> {
        self.bank
    }

    /// What the run was given to write to.
    pub open spec fn mode(&self) -> RocmMode {
        RocmMode { bank: self.bank() is Some, scratch: self.scratch() is Some }
    }

    /// The node that comes next.
    pub closed spec fn position(&self) -> int {
        self.execution.at as int
    }

    /// The handle of each node's value, while it has a resource.
    pub closed spec fn slots(&self) -> Seq<Option<usize>> {
        self.execution.resources@
    }

    /// How often each node's value is still used.
    pub closed spec fn uses_left(&self) -> Seq<usize> {
        self.execution.remaining@
    }

    /// How many requested outputs have been handed out.
    pub closed spec fn taken(&self) -> int {
        self.taken as int
    }

    /// The device tensors that the run has handed out.
    pub closed spec fn outputs(&self) -> Seq<RocmTensorInput> {
        self.outputs@
    }

    /// Every node has been passed.
    pub open spec fn is_computed(&self) -> bool {
        self.position() == self.prepared().nodes().len()
    }

    /// The checks passed before the run started. Until every node has been passed the execution is
    /// on course, and then every output that has not been handed out has a resource.
    pub closed spec fn wf(&self) -> bool {
        let prepared = self.prepared();
        &&& prepared.wf()
        &&& execution_accepted(
            prepared,
            self.host_inputs(),
            self.resource_inputs(),
            self.context(),
            self.scratch(),
            self.bank(),
        )
        &&& self.execution.wf(prepared)
        &&& self.taken() <= prepared.outputs@.len()
        &&& self.taken() > 0 ==> self.is_computed()
        &&& self.taken() == 0 ==> on_course(
            prepared,
            self.slots(),
            self.uses_left(),
            self.position(),
        )
        &&& self.is_computed() ==> forall|k: int|
            self.taken() <= k < prepared.outputs@.len() ==> #[trigger] output_is_held(
                prepared,
                self.slots(),
                k,
            )
        &&& self.outputs().len() == if self.mode().bank {
            0
        } else {
            self.taken()
        }
        &&& forall|k: int|
            0 <= k < self.outputs().len() ==> delivers(
                prepared,
                self.context(),
                k,
                #[trigger] self.outputs()[k],
            )
    }

    /// The run is one of the same plan, inputs and storage.
    pub open spec fn continues(&self, before: RocmRun<'p, 'g>) -> bool {
        &&& self.prepared() == before.prepared()
        &&& self.host_inputs() == before.host_inputs()
        &&& self.resource_inputs() == before.resource_inputs()
        &&& self.context() == before.context()
        &&& self.scratch() == before.scratch()
        &&& self.bank() == before.bank()
    }

    /// This is the work of the node that comes next.
    pub open spec fn due(&self, work: RocmNodeWork<'_>) -> bool {
        &&& 0 <= self.position() < self.prepared().nodes().len()
        &&& self.prepared().operation_at(self.position()) matches Some(operation) && node_takes(
            self.prepared(),
            self.host_inputs(),
            self.resource_inputs(),
            self.mode(),
            self.position(),
            operation,
            work,
        )
    }

    /// What starting an execution answers.
    pub open spec fn start_answer(
        prepared: RocmPreparedTensorGraph<'g>,
        host_inputs: Seq<(ValueId, Tensor)>,
        resource_inputs: Seq<(ValueId, &'p RocmTensorInput)>,
        context: RocmContext,
        scratch: Option<&'p RocmTensorScratch>,
        bank: Option<RocmBankFacts<'p>>,
        answer: Result<RocmRun<'p, 'g>, RocmTensorExecutionError>,
    ) -> bool {
        match answer {
            Ok(run) => {
                &&& execution_accepted(
                    prepared,
                    host_inputs,
                    resource_inputs,
                    context,
                    scratch,
                    bank,
                )
                &&& run.wf()
                &&& run.prepared() == prepared
                &&& run.host_inputs() == host_inputs
                &&& run.resource_inputs() == resource_inputs
                &&& run.context() == context
                &&& run.scratch() == scratch
                &&& run.bank() == bank
                &&& run.position() == 0
                &&& run.slots() == Seq::new(prepared.nodes().len(), |i: int| None::<usize>)
                &&& run.uses_left() == prepared.use_counts@
                &&& run.taken() == 0
                &&& run.outputs().len() == 0
            },
            Err(error) => execution_refused(
                prepared,
                host_inputs,
                resource_inputs,
                context,
                scratch,
                bank,
                error,
            ),
        }
    }

    /// What asking for the next node's work answers, and what it does to the run.
    pub open spec fn next_answer(
        before: RocmRun<'p, 'g>,
        after: RocmRun<'p, 'g>,
        answer: Result<Option<RocmNodeWork<'p>>, RocmTensorExecutionError>,
    ) -> bool {
        &&& after.wf()
        &&& after.continues(before)
        &&& after.slots() == before.slots()
        &&& after.uses_left() == before.uses_left()
        &&& after.taken() == before.taken()
        &&& after.outputs() == before.outputs()
        &&& after.position() >= before.position()
        &&& forall|i: int|
            before.position() <= i < after.position() ==> #[trigger] before.prepared().operation_at(
                i,
            ) is None
        &&& match answer {
            Ok(None) => after.is_computed(),
            Ok(Some(work)) => after.due(work),
            Err(error) => {
                let at = after.position();
                &&& 0 <= at < before.prepared().nodes().len()
                &&& before.prepared().operation_at(at) matches Some(operation) && node_fails(
                    before.prepared(),
                    before.host_inputs(),
                    before.resource_inputs(),
                    at,
                    operation,
                    error,
                )
            },
        }
    }

    /// What recording the result of the next node does to a run.
    pub open spec fn completes(
        before: RocmRun<'p, 'g>,
        after: RocmRun<'p, 'g>,
        work: RocmNodeWork<'_>,
        handle: usize,
    ) -> bool {
        &&& after.wf()
        &&& after.continues(before)
        &&& after.position() == before.position() + 1
        &&& released(
            before.slots().update(before.position(), Some(handle)),
            before.uses_left(),
            work.releases@,
        ) == Some((after.slots(), after.uses_left()))
        &&& after.taken() == before.taken()
        &&& after.outputs() == before.outputs()
    }

    /// What handing the next requested output out answers, and what it does to the run.
    pub open spec fn deliver_answer(
        before: RocmRun<'p, 'g>,
        after: RocmRun<'p, 'g>,
        resource: RocmResource,
        verdict: Result<(), RocmTensorExecutionError>,
    ) -> bool {
        &&& after.wf()
        &&& after.continues(before)
        &&& after.position() == before.position()
        &&& match verdict {
            Ok(()) => {
                &&& handed_out(resource, before.context())
                &&& after.taken() == before.taken() + 1
                &&& node_position(
                    before.prepared().nodes(),
                    before.prepared().outputs@[before.taken()],
                ) matches Some(i) && after.slots() == before.slots().update(i, None)
                &&& after.uses_left() == before.uses_left()
                &&& if before.mode().bank {
                    after.outputs() == before.outputs()
                } else {
                    &&& after.outputs().len() == before.outputs().len() + 1
                    &&& after.outputs().drop_last() == before.outputs()
                    &&& after.outputs().last().resource == resource
                }
            },
            Err(error) => {
                &&& !handed_out(resource, before.context())
                &&& after == before
                &&& error == RocmTensorExecutionError::OutputResourceMismatch
            },
        }
    }

    /// Checks everything that an execution reads from and writes to, and starts it.
    ///
    /// # Errors
    ///
    /// The first reason why it cannot start.
    pub fn start(
        prepared: &'p RocmPreparedTensorGraph<'g>,
        host_inputs: &'p [(ValueId, Tensor)],
        resource_inputs: &'p [(ValueId, &'p RocmTensorInput)],
        context: &RocmContext,
        scratch: Option<&'p RocmTensorScratch>,
        bank: Option<RocmBankFacts<'p>>,
    ) -> (answer: Result<RocmRun<'p, 'g>, RocmTensorExecutionError>)
        requires
            prepared.wf(),
            bank matches Some(facts) ==> facts.overlapping@.len() == facts.bank.outputs@.len()
                && facts.storage@.len() == prepared.storage_constraints@.len(),
        ensures
            RocmRun::start_answer(
                *prepared,
                host_inputs@,
                resource_inputs@,
                *context,
                scratch,
                bank,
                answer,
            ),
    {
        if let Err(error) = validate_execution_sources(
            prepared,
            host_inputs,
            resource_inputs,
            context,
            scratch,
            bank,
        ) {
            return Err(error);
        }
        let run: RocmRun<'p, 'g> = RocmRun {
            prepared,
            host_inputs,
            resource_inputs,
            context: *context,
            scratch,
            bank,
            execution: RocmExecution::begin(prepared),
            taken: 0,
            outputs: Vec::new(),
        };
        proof {
            run.lemma_outputs_are_held();
        }
        Ok(run)
    }

    /// Once every node has been passed, every requested output has a resource.
    proof fn lemma_outputs_are_held(&self)
        requires
            self.prepared().wf(),
            on_course(self.prepared(), self.slots(), self.uses_left(), self.position()),
        ensures
            self.is_computed() ==> forall|k: int|
                0 <= k < self.prepared().outputs@.len() ==> #[trigger] output_is_held(
                    self.prepared(),
                    self.slots(),
                    k,
                ),
    {
        if self.is_computed() {
            law_requested_outputs_are_left(self.prepared(), self.slots(), self.uses_left());
        }
    }

    /// Passes over nodes that are not scheduled, up to one that is, and says what it takes. There
    /// is none left when nothing comes back.
    ///
    /// # Errors
    ///
    /// Those of planning the node.
    pub fn next(&mut self) -> (answer: Result<Option<RocmNodeWork<'p>>, RocmTensorExecutionError>)
        requires
            old(self).wf(),
        ensures
            RocmRun::next_answer(*old(self), *final(self), answer),
    {
        let mode: RocmMode = RocmMode { bank: self.bank.is_some(), scratch: self.scratch.is_some() };
        let answer: Result<Option<RocmNodeWork<'p>>, RocmTensorExecutionError> = self.execution.next(
            self.prepared,
            self.host_inputs,
            self.resource_inputs,
            mode,
        );
        proof {
            if self.taken() == 0 {
                self.lemma_outputs_are_held();
            }
        }
        answer
    }

    /// The handles of the values that the next node binds, in binding order.
    pub fn operand_handles(&self, work: &RocmNodeWork<'_>) -> (handles: Vec<usize>)
        requires
            self.wf(),
            self.due(*work),
        ensures
            handles@.len() == work.operands@.len(),
            forall|i: int|
                0 <= i < handles@.len() ==> self.slots()[work.operands@[i] as int] == Some(
                    #[trigger] handles@[i],
                ),
    {
        proof {
            self.lemma_operands(*work);
        }
        match self.execution.operand_handles(self.prepared, work.operands.as_slice()) {
            Ok(handles) => handles,
            Err(_) => {
                assert(false);
                Vec::new()
            },
        }
    }

    /// Everything that the next node binds has a resource.
    proof fn lemma_operands(&self, work: RocmNodeWork<'_>)
        requires
            self.wf(),
            self.due(work),
        ensures
            forall|i: int|
                0 <= i < work.operands@.len() ==> (#[trigger] work.operands@[i])
                    < self.prepared().nodes().len(),
            forall|i: int|
                0 <= i < work.operands@.len() ==> !#[trigger] absent(
                    self.slots(),
                    work.operands@,
                    i,
                ),
    {
        let prepared = self.prepared();
        let operation = prepared.operation_at(self.position())->Some_0;
        let bound = bound_values(operation);
        assert forall|i: int| 0 <= i < work.operands@.len() implies (#[trigger] work.operands@[i])
            < prepared.nodes().len() && !absent(self.slots(), work.operands@, i) by {
            assert(node_position(prepared.nodes(), bound[i]) == Some(work.operands@[i] as int));
            assert(bound.contains(bound[i]));
            law_operands_are_there(
                prepared,
                self.slots(),
                self.uses_left(),
                self.position(),
                bound[i],
            );
        }
    }

    /// The reusable storage that the next node writes to, if it does not get a new allocation.
    ///
    /// # Errors
    ///
    /// `MissingResource` if scratch has no storage for the node.
    pub fn storage(&self, work: &RocmNodeWork<'_>) -> (answer: Result<
        Option<RocmResource>,
        RocmTensorExecutionError,
    >)
        requires
            self.wf(),
            self.due(*work),
        ensures
            match work.storage {
                RocmStorage::Bank(k) => self.bank() matches Some(facts) && k
                    < facts.bank.outputs@.len() && answer == Ok::<_, RocmTensorExecutionError>(
                    Some(facts.bank.outputs@[k as int].resource),
                ),
                RocmStorage::Scratch => self.scratch() matches Some(scratch) && match answer {
                    Ok(resource) => resource is Some && self.position() < scratch.resources@.len()
                        && scratch.resources@[self.position()] == resource,
                    Err(error) => (self.position() >= scratch.resources@.len()
                        || scratch.resources@[self.position()] is None) && error
                        == RocmTensorExecutionError::MissingResource(
                        self.prepared().nodes()[self.position()].value,
                    ),
                },
                RocmStorage::Fresh => answer == Ok::<_, RocmTensorExecutionError>(
                    None::<RocmResource>,
                ),
            },
    {
        match work.storage {
            RocmStorage::Bank(k) => match self.bank {
                Some(facts) => Ok(Some(facts.bank.outputs[k].resource)),
                None => {
                    assert(false);
                    Ok(None)
                },
            },
            RocmStorage::Scratch => match self.scratch {
                Some(scratch) => match scratch.lease(self.prepared, self.execution.at) {
                    Ok(resource) => Ok(Some(resource)),
                    Err(error) => Err(error),
                },
                None => {
                    assert(false);
                    Ok(None)
                },
            },
            RocmStorage::Fresh => Ok(None),
        }
    }

    /// Records the result of the next node, and releases what has been used up by it.
    pub fn complete(&mut self, work: &RocmNodeWork<'_>, handle: usize)
        requires
            old(self).wf(),
            old(self).due(*work),
        ensures
            RocmRun::completes(*old(self), *final(self), *work, handle),
    {
        proof {
            let operation = self.prepared().operation_at(self.position())->Some_0;
            assert(locates(self.prepared().nodes(), used_values(operation), work.releases@));
            assert(self.execution.owes(self.prepared(), work.releases@));
        }
        match self.execution.complete(self.prepared, work.releases.as_slice(), handle) {
            Ok(()) => {},
            Err(_) => {
                assert(false);
            },
        }
        proof {
            self.lemma_outputs_are_held();
        }
    }

    /// The value has a resource.
    pub fn holds(&self, position: usize) -> (answer: bool)
        requires
            self.wf(),
            position < self.prepared().nodes().len(),
        ensures
            answer == (self.slots()[position as int] is Some),
    {
        self.execution.resources.as_slice()[position].is_some()
    }

    /// The node that comes next.
    pub fn at(&self) -> (at: usize)
        ensures
            at == self.position(),
    {
        self.execution.at
    }

    /// The handle of the next requested output.
    pub fn output_handle(&self) -> (answer: Option<usize>)
        requires
            self.wf(),
            self.is_computed(),
        ensures
            match answer {
                Some(handle) => self.taken() < self.prepared().outputs@.len() && (node_position(
                    self.prepared().nodes(),
                    self.prepared().outputs@[self.taken()],
                ) matches Some(i) && self.slots()[i] == Some(handle)),
                None => self.taken() == self.prepared().outputs@.len(),
            },
    {
        if self.taken == self.prepared.outputs.len() {
            return None;
        }
        assert(output_is_held(self.prepared(), self.slots(), self.taken()));
        let output: ValueId = self.prepared.outputs[self.taken];
        match find_node(self.prepared.lowering_plan.nodes(), output) {
            Some(position) => self.execution.resources.as_slice()[position],
            None => {
                assert(false);
                None
            },
        }
    }

    /// Hands the next requested output out, given its resource. With a bank the output stays there.
    ///
    /// # Errors
    ///
    /// `OutputResourceMismatch` if the resource is of another pool or device, or cannot be read.
    pub fn deliver(&mut self, resource: RocmResource) -> (verdict: Result<
        (),
        RocmTensorExecutionError,
    >)
        requires
            old(self).wf(),
            old(self).is_computed(),
            old(self).taken() < old(self).prepared().outputs@.len(),
        ensures
            RocmRun::deliver_answer(*old(self), *final(self), resource, verdict),
    {
        if let Err(error) = validate_output_resource(&resource, &self.context) {
            return Err(error);
        }
        let output: ValueId = self.prepared.outputs[self.taken];
        let ghost before = *self;
        proof {
            assert(output_is_held(self.prepared(), self.slots(), self.taken()));
            self.prepared.lemma_output_allocatable(self.taken());
        }
        match self.execution.take_output(self.prepared, output) {
            Ok(_) => {},
            Err(_) => {
                assert(false);
            },
        }
        if self.bank.is_none() {
            let shape: Vec<usize> = match self.prepared.graph.shape(output) {
                Ok(shape) => slice_to_vec(shape),
                Err(_) => {
                    assert(false);
                    Vec::new()
                },
            };
            self.outputs.push(RocmTensorInput { session: self.context.session.id, shape, resource });
            assert(self.outputs().drop_last() =~= before.outputs());
        }
        self.taken = self.taken + 1;
        proof {
            self.lemma_rest_is_held(before);
            assert forall|k: int| 0 <= k < self.outputs().len() implies delivers(
                self.prepared(),
                self.context(),
                k,
                #[trigger] self.outputs()[k],
            ) by {
                if k < before.outputs().len() {
                    assert(self.outputs()[k] == before.outputs()[k]);
                }
            }
        }
        Ok(())
    }

    /// Taking one output leaves the resources of the others.
    proof fn lemma_rest_is_held(&self, before: RocmRun<'p, 'g>)
        requires
            before.wf(),
            before.is_computed(),
            before.taken() < before.prepared().outputs@.len(),
            self.prepared() == before.prepared(),
            self.taken() == before.taken() + 1,
            node_position(
                before.prepared().nodes(),
                before.prepared().outputs@[before.taken()],
            ) matches Some(i) && self.slots() == before.slots().update(i, None),
        ensures
            forall|k: int|
                self.taken() <= k < self.prepared().outputs@.len() ==> #[trigger] output_is_held(
                    self.prepared(),
                    self.slots(),
                    k,
                ),
    {
        let prepared = self.prepared();
        let nodes = prepared.nodes();
        let outputs = prepared.outputs@;
        let first = outputs[before.taken()];
        lemma_position_found(nodes, first);
        assert forall|k: int| self.taken() <= k < outputs.len() implies #[trigger] output_is_held(
            prepared,
            self.slots(),
            k,
        ) by {
            assert(output_is_held(prepared, before.slots(), k));
            lemma_position_found(nodes, outputs[k]);
            lemma_outputs_differ(prepared, before.taken(), k);
        }
    }

    /// The outputs of a run that has handed all of them out. With a bank there are none: they are
    /// in the bank.
    pub fn finish(self) -> (outputs: Vec<RocmTensorInput>)
        requires
            self.wf(),
            self.is_computed(),
            self.taken() == self.prepared().outputs@.len(),
        ensures
            outputs@ == self.outputs(),
            outputs@.len() == if self.mode().bank {
                0
            } else {
                self.prepared().outputs@.len()
            },
            forall|k: int|
                0 <= k < outputs@.len() ==> delivers(
                    self.prepared(),
                    self.context(),
                    k,
                    #[trigger] outputs@[k],
                ),
    {
        self.outputs
    }
}

/// No value is requested twice.
proof fn lemma_outputs_differ(prepared: RocmPreparedTensorGraph<'_>, j: int, k: int)
    requires
        prepared.wf(),
        0 <= j < k < prepared.outputs@.len(),
    ensures
        prepared.outputs@[j] != prepared.outputs@[k],
{
    let outputs = prepared.plan.output_values@;
    assert(prepared.graph.output_fault(outputs, k) is None);
    assert(outputs.take(k)[j] == outputs[j]);
    assert(outputs.take(k).contains(outputs[j]));
}

/// A run exists only where the checks passed: a refused execution asks nothing of the device.
pub proof fn law_runs_were_accepted(run: RocmRun<'_, '_>)
    requires
        run.wf(),
    ensures
        execution_accepted(
            run.prepared(),
            run.host_inputs(),
            run.resource_inputs(),
            run.context(),
            run.scratch(),
            run.bank(),
        ),
{
}

/// A run hands outputs out only once it has computed all of them, each of them once, and until it
/// has handed an output out the output has a resource.
pub proof fn law_outputs_wait_for_their_turn(run: RocmRun<'_, '_>)
    requires
        run.wf(),
    ensures
        run.prepared().wf(),
        0 <= run.position() <= run.prepared().nodes().len(),
        0 <= run.taken() <= run.prepared().outputs@.len(),
        run.taken() > 0 ==> run.is_computed(),
        run.slots().len() == run.prepared().nodes().len(),
        run.uses_left().len() == run.prepared().nodes().len(),
        run.outputs().len() == if run.mode().bank {
            0
        } else {
            run.taken()
        },
        run.is_computed() ==> forall|k: int|
            run.taken() <= k < run.prepared().outputs@.len() ==> #[trigger] output_is_held(
                run.prepared(),
                run.slots(),
                k,
            ),
{
}

/// A run of a plan that a session takes never fails at planning a node: what can still fail is up
/// to the device.
pub proof fn law_runs_can_be_planned(
    run: RocmRun<'_, '_>,
    assessor: RocmTensorAssessor,
    at: int,
    error: RocmTensorExecutionError,
)
    requires
        run.wf(),
        0 <= at < run.prepared().nodes().len(),
        run.prepared().operation_at(at) is Some,
        assessor.runs(*run.prepared().graph, run.prepared().nodes()[at]),
    ensures
        !node_fails(
            run.prepared(),
            run.host_inputs(),
            run.resource_inputs(),
            at,
            run.prepared().operation_at(at)->Some_0,
            error,
        ),
{
    let nodes = run.prepared().nodes();
    assert(!sourceless(nodes, run.host_inputs(), run.resource_inputs(), at));
    law_accepted_nodes_can_be_planned(
        run.prepared(),
        assessor,
        run.host_inputs(),
        run.resource_inputs(),
        at,
        error,
    );
}

/// A run that has handed all its outputs out has one device tensor for each requested output, in
/// the order in which they were requested, each of the output's shape and in the run's pool; with a
/// bank it has none.
pub proof fn law_finished_runs_deliver_every_output(run: RocmRun<'_, '_>)
    requires
        run.wf(),
        run.taken() == run.prepared().outputs@.len(),
    ensures
        run.outputs().len() == if run.mode().bank {
            0
        } else {
            run.prepared().outputs@.len()
        },
        forall|k: int|
            0 <= k < run.outputs().len() ==> delivers(
                run.prepared(),
                run.context(),
                k,
                #[trigger] run.outputs()[k],
            ),
{
}

/// With a bank, the node that computes a requested output writes to the bank's own storage for it.
pub proof fn law_requested_results_go_to_the_bank(
    run: RocmRun<'_, '_>,
    work: RocmNodeWork<'_>,
    k: int,
)
    requires
        run.wf(),
        run.mode().bank,
        run.due(work),
        0 <= k < run.prepared().outputs@.len(),
        run.prepared().nodes()[run.position()].value == run.prepared().outputs@[k],
    ensures
        work.storage == RocmStorage::Bank(k as usize),
{
    let prepared = run.prepared();
    let outputs = prepared.outputs@;
    assert(outputs.contains(outputs[k]));
    assert(outputs.len() == prepared.outputs.len());
    if let RocmStorage::Bank(at) = work.storage {
        if at < k {
            lemma_outputs_differ(prepared, at as int, k);
        } else if k < at {
            lemma_outputs_differ(prepared, k, at as int);
        }
    }
}

} // verus!
