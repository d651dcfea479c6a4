//! Repeated execution with fed-back outputs: which resources each step reads and writes, and the
//! reservations that admitted resources hold.
use vstd::prelude::*;

use super::error::RocmTensorExecutionError;
use super::reuse::{RocmTensorOutputBank, RocmTensorScratch};
use super::sizes::output_position;
use super::small::FeedbackInputs;
use super::sources::{resident, RocmTensorInput};
use crate::tensor::error::{contains_value, TensorError, ValueId};
use crate::tensor::feedback::{
    law_sources_are_unambiguous, TensorFeedbackInput, TensorFeedbackPlan,
};

verus! {

/// The first step whose outputs are still there. The two banks hold the last two steps.
pub open spec fn first_available_step(completed: usize) -> usize {
    if completed >= 2 {
        (completed - 2) as usize
    } else {
        0
    }
}

/// Checks that the outputs of a step are still there.
///
/// # Errors
///
/// `FeedbackStepUnavailable` if the step did not complete, or its bank was written again.
pub fn validate_completed_step(requested: usize, completed: usize) -> (verdict: Result<
    (),
    RocmTensorExecutionError,
>)
    ensures
        match verdict {
            Ok(()) => first_available_step(completed) <= requested < completed,
            Err(error) => !(first_available_step(completed) <= requested < completed) && error == (
            RocmTensorExecutionError::FeedbackStepUnavailable {
                requested,
                first_available: first_available_step(completed),
                completed,
            }),
        },
{
    let first_available: usize = completed.saturating_sub(2);
    if first_available <= requested && requested < completed {
        Ok(())
    } else {
        Err(
            RocmTensorExecutionError::FeedbackStepUnavailable {
                requested,
                first_available,
                completed,
            },
        )
    }
}

/// The device tensor at `k` is for a required input, and the first one for it.
pub open spec fn binding_accepted(
    required: Seq<ValueId>,
    initial: Seq<(ValueId, &RocmTensorInput)>,
    k: int,
) -> bool {
    required.contains(initial[k].0) && !resident(initial.take(k), initial[k].0)
}

/// Why the device tensor at `k` is refused.
pub open spec fn binding_refused(
    required: Seq<ValueId>,
    initial: Seq<(ValueId, &RocmTensorInput)>,
    k: int,
    error: RocmTensorExecutionError,
) -> bool {
    let value = initial[k].0;
    if !required.contains(value) {
        error == RocmTensorExecutionError::Graph(TensorError::ExtraInput(value))
    } else {
        resident(initial.take(k), value) && error == RocmTensorExecutionError::Graph(
            TensorError::DuplicateInput(value),
        )
    }
}

/// Exactly the required inputs are bound.
pub open spec fn bindings_accepted(
    required: Seq<ValueId>,
    initial: Seq<(ValueId, &RocmTensorInput)>,
) -> bool {
    &&& forall|k: int|
        0 <= k < initial.len() ==> #[trigger] binding_accepted(required, initial, k)
    &&& forall|i: int| 0 <= i < required.len() ==> resident(initial, #[trigger] required[i])
}

/// The first tensor that is not required or repeated, or else the first input without one.
pub open spec fn bindings_refused(
    required: Seq<ValueId>,
    initial: Seq<(ValueId, &RocmTensorInput)>,
    error: RocmTensorExecutionError,
) -> bool {
    ||| exists|k: int|
        0 <= k < initial.len() && #[trigger] binding_refused(required, initial, k, error)
            && forall|j: int| 0 <= j < k ==> #[trigger] binding_accepted(required, initial, j)
    ||| (forall|k: int|
        0 <= k < initial.len() ==> #[trigger] binding_accepted(required, initial, k)) && exists|
        i: int,
    |
        {
            &&& 0 <= i < required.len()
            &&& !resident(initial, #[trigger] required[i])
            &&& error == RocmTensorExecutionError::Graph(TensorError::MissingInput(required[i]))
            &&& forall|j: int| 0 <= j < i ==> resident(initial, #[trigger] required[j])
        }
}

fn is_resident(inputs: &[(ValueId, &RocmTensorInput)], count: usize, value: ValueId) -> (found: bool)
    requires
        count <= inputs@.len(),
    ensures
        found == resident(inputs@.take(count as int), value),
{
    let ghost first = inputs@.take(count as int);
    let mut at: usize = 0;
    while at < count
        invariant
            at <= count <= inputs@.len(),
            first == inputs@.take(count as int),
            forall|i: int| 0 <= i < at ==> (#[trigger] first[i]).0 != value,
        decreases count - at,
    {
        if inputs[at].0 == value {
            assert(first[at as int].0 == value);
            return true;
        }
        at += 1;
    }
    false
}

/// Checks that exactly the required inputs are bound for the first step.
///
/// # Errors
///
/// The first tensor that is not required or repeated, then the first input without one.
pub fn validate_initial_bindings(
    required: &[ValueId],
    initial_inputs: &[(ValueId, &RocmTensorInput)],
) -> (verdict: Result<(), RocmTensorExecutionError>)
    ensures
        match verdict {
            Ok(()) => bindings_accepted(required@, initial_inputs@),
            Err(error) => bindings_refused(required@, initial_inputs@, error),
        },
{
    let mut at: usize = 0;
    while at < initial_inputs.len()
        invariant
            at <= initial_inputs@.len(),
            forall|k: int|
                0 <= k < at ==> #[trigger] binding_accepted(required@, initial_inputs@, k),
        decreases initial_inputs@.len() - at,
    {
        let value: ValueId = initial_inputs[at].0;
        if !contains_value(required, value) {
            let error: RocmTensorExecutionError = RocmTensorExecutionError::Graph(
                TensorError::ExtraInput(value),
            );
            assert(binding_refused(required@, initial_inputs@, at as int, error));
            return Err(error);
        }
        if is_resident(initial_inputs, at, value) {
            let error: RocmTensorExecutionError = RocmTensorExecutionError::Graph(
                TensorError::DuplicateInput(value),
            );
            assert(binding_refused(required@, initial_inputs@, at as int, error));
            return Err(error);
        }
        assert(binding_accepted(required@, initial_inputs@, at as int));
        at += 1;
    }
    let mut i: usize = 0;
    while i < required.len()
        invariant
            i <= required@.len(),
            forall|k: int|
                0 <= k < initial_inputs@.len() ==> #[trigger] binding_accepted(
                    required@,
                    initial_inputs@,
                    k,
                ),
            forall|j: int| 0 <= j < i ==> resident(initial_inputs@, #[trigger] required@[j]),
        decreases required@.len() - i,
    {
        assert(initial_inputs@.take(initial_inputs@.len() as int) =~= initial_inputs@);
        if !is_resident(initial_inputs, initial_inputs.len(), required[i]) {
            assert(!resident(initial_inputs@, required@[i as int]));
            return Err(
                RocmTensorExecutionError::Graph(TensorError::MissingInput(required[i])),
            );
        }
        i += 1;
    }
    Ok(())
}

/// This is the tensor that an input reads at a step.
pub open spec fn step_input(
    feedback: TensorFeedbackPlan<'_, '_>,
    step: usize,
    initial: Seq<(ValueId, &RocmTensorInput)>,
    outputs: Seq<ValueId>,
    previous: Option<&RocmTensorOutputBank>,
    input: ValueId,
    tensor: &RocmTensorInput,
) -> bool {
    match feedback.source(input, step) {
        None => false,
        Some(TensorFeedbackInput::Initial { .. }) => exists|k: int|
            {
                &&& 0 <= k < initial.len()
                &&& (#[trigger] initial[k]).0 == input
                &&& tensor == initial[k].1
                &&& forall|j: int| 0 <= j < k ==> (#[trigger] initial[j]).0 != input
            },
        Some(TensorFeedbackInput::PreviousOutput { output, .. }) => previous matches Some(bank)
            && exists|k: int|
            0 <= k < outputs.len() && #[trigger] outputs[k] == output && *tensor
                == bank.outputs@[k],
    }
}

/// An input has something to read at a step.
pub open spec fn step_input_present(
    feedback: TensorFeedbackPlan<'_, '_>,
    step: usize,
    initial: Seq<(ValueId, &RocmTensorInput)>,
    outputs: Seq<ValueId>,
    previous: Option<&RocmTensorOutputBank>,
    input: ValueId,
) -> bool {
    exists|tensor: &RocmTensorInput| #[trigger]
        step_input(feedback, step, initial, outputs, previous, input, tensor)
}

/// Why an input has nothing to read at a step.
pub open spec fn step_input_missing(
    feedback: TensorFeedbackPlan<'_, '_>,
    step: usize,
    initial: Seq<(ValueId, &RocmTensorInput)>,
    outputs: Seq<ValueId>,
    previous: Option<&RocmTensorOutputBank>,
    input: ValueId,
    error: RocmTensorExecutionError,
) -> bool {
    match feedback.source(input, step) {
        None => error == RocmTensorExecutionError::MissingResource(input),
        Some(TensorFeedbackInput::Initial { .. }) => !resident(initial, input) && error
            == RocmTensorExecutionError::MissingResource(input),
        Some(TensorFeedbackInput::PreviousOutput { output, .. }) => (previous is None
            || !outputs.contains(output)) && error == RocmTensorExecutionError::MissingResource(
            output,
        ),
    }
}

/// The tensor that an input reads at a step.
fn resolve_step_input<'a>(
    feedback: &TensorFeedbackPlan<'_, '_>,
    step: usize,
    initial_inputs: &'a [(ValueId, &'a RocmTensorInput)],
    outputs: &[ValueId],
    previous: Option<&'a RocmTensorOutputBank>,
    input: ValueId,
) -> (answer: Result<&'a RocmTensorInput, RocmTensorExecutionError>)
    requires
        feedback.wf(),
        previous matches Some(bank) ==> bank.outputs@.len() == outputs@.len(),
    ensures
        match answer {
            Ok(tensor) => step_input(
                *feedback,
                step,
                initial_inputs@,
                outputs@,
                previous,
                input,
                tensor,
            ),
            Err(error) => step_input_missing(
                *feedback,
                step,
                initial_inputs@,
                outputs@,
                previous,
                input,
                error,
            ),
        },
{
    match feedback.input_source(input, step) {
        None => Err(RocmTensorExecutionError::MissingResource(input)),
        Some(TensorFeedbackInput::Initial { .. }) => {
            let mut at: usize = 0;
            while at < initial_inputs.len()
                invariant
                    at <= initial_inputs@.len(),
                    feedback.source(input, step) matches Some(
                        TensorFeedbackInput::Initial { .. },
                    ),
                    forall|j: int| 0 <= j < at ==> (#[trigger] initial_inputs@[j]).0 != input,
                decreases initial_inputs@.len() - at,
            {
                if initial_inputs[at].0 == input {
                    assert(initial_inputs@[at as int].0 == input);
                    return Ok(initial_inputs[at].1);
                }
                at += 1;
            }
            Err(RocmTensorExecutionError::MissingResource(input))
        },
        Some(TensorFeedbackInput::PreviousOutput { output, .. }) => match previous {
            None => Err(RocmTensorExecutionError::MissingResource(output)),
            Some(bank) => match output_position(outputs, output) {
                Some(at) => {
                    assert(outputs@[at as int] == output);
                    Ok(&bank.outputs[at])
                },
                None => Err(RocmTensorExecutionError::MissingResource(output)),
            },
        },
    }
}

/// The tensors that the inputs read at a step, in the order of the plan's inputs.
///
/// # Errors
///
/// `MissingResource` for the first input that has nothing to read.
pub fn feedback_inputs<'a>(
    feedback: &TensorFeedbackPlan<'_, '_>,
    step: usize,
    initial_inputs: &'a [(ValueId, &'a RocmTensorInput)],
    outputs: &[ValueId],
    previous: Option<&'a RocmTensorOutputBank>,
) -> (answer: Result<FeedbackInputs<'a>, RocmTensorExecutionError>)
    requires
        feedback.wf(),
        previous matches Some(bank) ==> bank.outputs@.len() == outputs@.len(),
    ensures
        match answer {
            Ok(inputs) => {
                &&& inputs@.len() == feedback.plan.input_values@.len()
                &&& forall|i: int|
                    0 <= i < inputs@.len() ==> (#[trigger] inputs@[i]).0
                        == feedback.plan.input_values@[i] && step_input(
                        *feedback,
                        step,
                        initial_inputs@,
                        outputs@,
                        previous,
                        inputs@[i].0,
                        inputs@[i].1,
                    )
            },
            Err(error) => exists|i: int|
                0 <= i < feedback.plan.input_values@.len() && step_input_missing(
                    *feedback,
                    step,
                    initial_inputs@,
                    outputs@,
                    previous,
                    #[trigger] feedback.plan.input_values@[i],
                    error,
                ) && forall|j: int|
                    0 <= j < i ==> step_input_present(
                        *feedback,
                        step,
                        initial_inputs@,
                        outputs@,
                        previous,
                        #[trigger] feedback.plan.input_values@[j],
                    ),
        },
{
    let required: &[ValueId] = feedback.execution_plan().input_values();
    let mut inputs: Vec<(ValueId, &'a RocmTensorInput)> = Vec::with_capacity(required.len());
    while inputs.len() < required.len()
        invariant
            feedback.wf(),
            previous matches Some(bank) ==> bank.outputs@.len() == outputs@.len(),
            required@ == feedback.plan.input_values@,
            inputs@.len() <= required@.len(),
            forall|i: int|
                0 <= i < inputs@.len() ==> (#[trigger] inputs@[i]).0
                    == feedback.plan.input_values@[i] && step_input(
                    *feedback,
                    step,
                    initial_inputs@,
                    outputs@,
                    previous,
                    inputs@[i].0,
                    inputs@[i].1,
                ),
            forall|j: int|
                0 <= j < inputs@.len() ==> step_input_present(
                    *feedback,
                    step,
                    initial_inputs@,
                    outputs@,
                    previous,
                    #[trigger] feedback.plan.input_values@[j],
                ),
        decreases required@.len() - inputs@.len(),
    {
        let input: ValueId = required[inputs.len()];
        match resolve_step_input(feedback, step, initial_inputs, outputs, previous, input) {
            Ok(tensor) => {
                assert(step_input_present(
                    *feedback,
                    step,
                    initial_inputs@,
                    outputs@,
                    previous,
                    input,
                ));
                inputs.push((input, tensor));
            },
            Err(error) => {
                assert(feedback.plan.input_values@[inputs@.len() as int] == input);
                return Err(error);
            },
        }
    }
    Ok(FeedbackInputs::of(inputs.as_slice()))
}

/// A run can start: the schedule is for the prepared plan and has two banks, and no output of one
/// bank may share storage with one of the other.
pub open spec fn run_accepted(same_plan: bool, bank_count: usize, banks_overlap: bool) -> bool {
    same_plan && bank_count == 2 && !banks_overlap
}

/// Checks that a run can start.
///
/// # Errors
///
/// `FeedbackPlanMismatch` for a schedule of another plan or with another number of banks, then
/// those of the initial bindings, then `OutputResourceMismatch` for overlapping banks.
pub fn validate_feedback_run(
    feedback: &TensorFeedbackPlan<'_, '_>,
    same_plan: bool,
    initial_inputs: &[(ValueId, &RocmTensorInput)],
    banks_overlap: bool,
) -> (verdict: Result<(), RocmTensorExecutionError>)
    ensures
        match verdict {
            Ok(()) => run_accepted(same_plan, feedback.bank_count, banks_overlap)
                && bindings_accepted(feedback.plan.input_values@, initial_inputs@),
            Err(error) => if !(same_plan && feedback.bank_count == 2) {
                error == RocmTensorExecutionError::FeedbackPlanMismatch
            } else {
                bindings_refused(feedback.plan.input_values@, initial_inputs@, error) || (
                bindings_accepted(feedback.plan.input_values@, initial_inputs@) && banks_overlap
                    && error == RocmTensorExecutionError::OutputResourceMismatch)
            },
        },
{
    if !same_plan || feedback.bank_count() != 2 {
        return Err(RocmTensorExecutionError::FeedbackPlanMismatch);
    }
    if let Err(error) = validate_initial_bindings(
        feedback.execution_plan().input_values(),
        initial_inputs,
    ) {
        return Err(error);
    }
    if banks_overlap {
        return Err(RocmTensorExecutionError::OutputResourceMismatch);
    }
    Ok(())
}

/// The bank that a step reads, if it reads one, and the bank that it writes.
pub open spec fn step_banks(step: usize) -> (Option<usize>, usize) {
    (
        if step == 0 {
            None
        } else {
            Some(((step - 1) % 2) as usize)
        },
        (step % 2) as usize,
    )
}

/// The bank that a step reads, if it reads one, and the bank that it writes.
pub fn feedback_banks(feedback: &TensorFeedbackPlan<'_, '_>, step: usize) -> (banks: (
    Option<usize>,
    usize,
))
    requires
        feedback.bank_count == 2,
    ensures
        banks == step_banks(step),
{
    match feedback.previous_output_bank(step) {
        Some(previous) => (Some(previous), 1 - previous),
        None => (None, feedback.output_bank(step)),
    }
}

/// Scratch and two output banks for a feedback run.
#[derive(Debug)]
pub struct RocmTensorFeedbackResources {
    pub scratch: RocmTensorScratch,
    pub banks: [RocmTensorOutputBank; 2],
    /// The steps that the last successful run completed.
    pub completed_steps: usize,
    /// The reservations that the resources hold.
    pub reservations: Vec<u64>,
}

impl RocmTensorFeedbackResources {
    /// Records how a run over `steps` steps ended. A failed run leaves no outputs to read.
    pub fn record(&mut self, steps: usize, succeeded: bool)
        ensures
            *final(self) == (RocmTensorFeedbackResources {
                completed_steps: if succeeded {
                    steps
                } else {
                    0
                },
                ..*old(self)
            }),
    {
        self.completed_steps = if succeeded {
            steps
        } else {
            0
        };
    }

    /// The outputs of a step of the last successful run, in the requested order.
    ///
    /// # Errors
    ///
    /// `FeedbackStepUnavailable` if the step did not complete, or its bank was written again.
    pub fn outputs_for_step(&self, step: usize) -> (answer: Result<
        &[RocmTensorInput],
        RocmTensorExecutionError,
    >)
        ensures
            match answer {
                Ok(outputs) => {
                    &&& first_available_step(self.completed_steps) <= step < self.completed_steps
                    &&& outputs@ == self.banks[step_banks(step).1 as int].outputs@
                },
                Err(error) => {
                    &&& !(first_available_step(self.completed_steps) <= step
                        < self.completed_steps)
                    &&& error == (RocmTensorExecutionError::FeedbackStepUnavailable {
                        requested: step,
                        first_available: first_available_step(self.completed_steps),
                        completed: self.completed_steps,
                    })
                },
            },
    {
        if let Err(error) = validate_completed_step(step, self.completed_steps) {
            return Err(error);
        }
        let bank: usize = step % 2;
        Ok(self.banks[bank].outputs.as_slice())
    }
}

/// What became of the reservations when they were released one after another, up to the first
/// that could not be.
///
/// # Errors
///
/// The code of the first release that failed. That reservation and those after it remain.
pub fn release_reservations(reservations: &mut Vec<u64>, outcomes: &[Result<(), i32>]) -> (verdict:
    Result<(), i32>)
    requires
        outcomes@.len() == old(reservations)@.len(),
    ensures
        match verdict {
            Ok(()) => final(reservations)@.len() == 0 && forall|i: int|
                0 <= i < outcomes@.len() ==> (#[trigger] outcomes@[i]) is Ok,
            Err(code) => exists|i: int|
                {
                    &&& 0 <= i < outcomes@.len()
                    &&& #[trigger] outcomes@[i] == Err::<(), i32>(code)
                    &&& forall|j: int| 0 <= j < i ==> (#[trigger] outcomes@[j]) is Ok
                    &&& final(reservations)@ == old(reservations)@.skip(i)
                },
        },
{
    let ghost before = reservations@;
    let mut at: usize = 0;
    assert(before.skip(0) =~= before);
    while reservations.len() > 0
        invariant
            at <= outcomes@.len(),
            outcomes@.len() == before.len(),
            before == old(reservations)@,
            reservations@ == before.skip(at as int),
            forall|j: int| 0 <= j < at ==> (#[trigger] outcomes@[j]) is Ok,
        decreases reservations@.len(),
    {
        if let Err(code) = outcomes[at] {
            assert(outcomes@[at as int] == Err::<(), i32>(code));
            return Err(code);
        }
        let _ = reservations.remove(0);
        assert(reservations@ =~= before.skip(at + 1));
        at += 1;
    }
    Ok(())
}

/// Keeps the reservations of an allocation, unless there are none.
pub fn keep_reservation(reservations: &mut Vec<u64>, set: u64, is_empty: bool)
    ensures
        final(reservations)@ == if is_empty {
            old(reservations)@
        } else {
            old(reservations)@.push(set)
        },
{
    if !is_empty {
        reservations.push(set);
    }
}

/// Preparation failed. If taking back its reservations failed too, those that remain can be
/// released by trying again.
#[derive(Debug)]
#[allow(inconsistent_fields)]
pub enum RocmTensorFeedbackPrepareError {
    Execution(RocmTensorExecutionError),
    Rollback { execution: RocmTensorExecutionError, rollback: i32, reservations: Vec<u64> },
}

/// What a failed preparation reports after its reservations were released as `outcomes` say.
pub fn rollback_prepare(
    execution: RocmTensorExecutionError,
    reservations: Vec<u64>,
    outcomes: &[Result<(), i32>],
) -> (error: RocmTensorFeedbackPrepareError)
    requires
        outcomes@.len() == reservations@.len(),
    ensures
        match error {
            RocmTensorFeedbackPrepareError::Execution(inner) => inner == execution && forall|i: int|
                0 <= i < outcomes@.len() ==> (#[trigger] outcomes@[i]) is Ok,
            RocmTensorFeedbackPrepareError::Rollback {
                execution: inner,
                rollback,
                reservations: remaining,
            } => inner == execution && exists|i: int|
                {
                    &&& 0 <= i < outcomes@.len()
                    &&& #[trigger] outcomes@[i] == Err::<(), i32>(rollback)
                    &&& forall|j: int| 0 <= j < i ==> (#[trigger] outcomes@[j]) is Ok
                    &&& remaining@ == reservations@.skip(i)
                },
        },
{
    let mut remaining: Vec<u64> = reservations;
    match release_reservations(&mut remaining, outcomes) {
        Ok(()) => RocmTensorFeedbackPrepareError::Execution(execution),
        Err(rollback) => RocmTensorFeedbackPrepareError::Rollback {
            execution,
            rollback,
            reservations: remaining,
        },
    }
}

impl RocmTensorFeedbackPrepareError {
    /// The reservations that remain.
    pub open spec fn remaining(&self) -> Seq<u64> {
        match self {
            RocmTensorFeedbackPrepareError::Execution(_) => Seq::empty(),
            RocmTensorFeedbackPrepareError::Rollback { reservations, .. } => reservations@,
        }
    }

    /// Two errors report the same, whatever reservations remain.
    pub open spec fn reports_like(&self, other: RocmTensorFeedbackPrepareError) -> bool {
        match (*self, other) {
            (
                RocmTensorFeedbackPrepareError::Execution(own),
                RocmTensorFeedbackPrepareError::Execution(theirs),
            ) => own == theirs,
            (
                RocmTensorFeedbackPrepareError::Rollback { execution: own, rollback: code, .. },
                RocmTensorFeedbackPrepareError::Rollback {
                    execution: theirs,
                    rollback: their_code,
                    ..
                },
            ) => own == theirs && code == their_code,
            _ => false,
        }
    }

    /// Tries again to release the reservations that remain. What the error reports stays.
    ///
    /// # Errors
    ///
    /// The code of the first release that failed. That reservation and those after it remain.
    pub fn retry_rollback(&mut self, outcomes: &[Result<(), i32>]) -> (verdict: Result<(), i32>)
        requires
            outcomes@.len() == old(self).remaining().len(),
        ensures
            final(self).reports_like(*old(self)),
            match verdict {
                Ok(()) => final(self).remaining().len() == 0 && forall|i: int|
                    0 <= i < outcomes@.len() ==> (#[trigger] outcomes@[i]) is Ok,
                Err(code) => exists|i: int|
                    {
                        &&& 0 <= i < outcomes@.len()
                        &&& #[trigger] outcomes@[i] == Err::<(), i32>(code)
                        &&& forall|j: int| 0 <= j < i ==> (#[trigger] outcomes@[j]) is Ok
                        &&& final(self).remaining() == old(self).remaining().skip(i)
                    },
            },
    {
        match self {
            RocmTensorFeedbackPrepareError::Execution(_) => Ok(()),
            RocmTensorFeedbackPrepareError::Rollback { reservations, .. } => {
                release_reservations(reservations, outcomes)
            },
        }
    }
}

/// Reservations that remain after their resources were dropped.
#[derive(Debug)]
pub struct RocmTensorFeedbackReleaseError {
    pub error: i32,
    pub reservations: Vec<u64>,
}

impl RocmTensorFeedbackReleaseError {
    /// Tries again to release the reservations that remain. The error that was reported stays.
    ///
    /// # Errors
    ///
    /// The code of the first release that failed. That reservation and those after it remain.
    pub fn retry(&mut self, outcomes: &[Result<(), i32>]) -> (verdict: Result<(), i32>)
        requires
            outcomes@.len() == old(self).reservations@.len(),
        ensures
            final(self).error == old(self).error,
            match verdict {
                Ok(()) => final(self).reservations@.len() == 0 && forall|i: int|
                    0 <= i < outcomes@.len() ==> (#[trigger] outcomes@[i]) is Ok,
                Err(code) => exists|i: int|
                    {
                        &&& 0 <= i < outcomes@.len()
                        &&& #[trigger] outcomes@[i] == Err::<(), i32>(code)
                        &&& forall|j: int| 0 <= j < i ==> (#[trigger] outcomes@[j]) is Ok
                        &&& final(self).reservations@ == old(self).reservations@.skip(i)
                    },
            },
    {
        release_reservations(&mut self.reservations, outcomes)
    }
}

impl RocmTensorFeedbackResources {
    /// Gives the resources up, after they were dropped and their reservations released as
    /// `outcomes` say.
    ///
    /// # Errors
    ///
    /// The reservations that remain, and the code of the first release that failed.
    pub fn release(self, outcomes: &[Result<(), i32>]) -> (verdict: Result<
        (),
        RocmTensorFeedbackReleaseError,
    >)
        requires
            outcomes@.len() == self.reservations@.len(),
        ensures
            match verdict {
                Ok(()) => forall|i: int|
                    0 <= i < outcomes@.len() ==> (#[trigger] outcomes@[i]) is Ok,
                Err(remaining) => exists|i: int|
                    {
                        &&& 0 <= i < outcomes@.len()
                        &&& #[trigger] outcomes@[i] == Err::<(), i32>(remaining.error)
                        &&& forall|j: int| 0 <= j < i ==> (#[trigger] outcomes@[j]) is Ok
                        &&& remaining.reservations@ == self.reservations@.skip(i)
                    },
            },
    {
        let mut reservations: Vec<u64> = self.reservations;
        match release_reservations(&mut reservations, outcomes) {
            Ok(()) => Ok(()),
            Err(error) => Err(RocmTensorFeedbackReleaseError { error, reservations }),
        }
    }
}

/// No step writes the bank that it reads, it reads what the step before wrote, and what the last
/// two steps wrote is still there.
pub proof fn law_feedback_banks_alternate(step: usize, completed: usize)
    requires
        step < completed,
    ensures
        step_banks(step).0 matches Some(read) ==> read != step_banks(step).1,
        step > 0 ==> step_banks(step).0 == Some(step_banks((step - 1) as usize).1),
        first_available_step(completed) <= step ==> forall|later: int|
            step < later < completed ==> #[trigger] (later % 2) != step_banks(step).1,
{
}

/// What a step reads. An input that a binding carries into reads, at every step but the first, the
/// bound output of the step before, which stands in the previous bank where the output stands among
/// the requested ones. At the first step, and if nothing is carried into it, an input reads the
/// first tensor that was handed in for it.
pub proof fn law_steps_read_what_was_carried(
    feedback: TensorFeedbackPlan<'_, '_>,
    step: usize,
    initial: Seq<(ValueId, &RocmTensorInput)>,
    outputs: Seq<ValueId>,
    previous: Option<&RocmTensorOutputBank>,
    input: ValueId,
    tensor: &RocmTensorInput,
)
    requires
        feedback.wf(),
        step_input(feedback, step, initial, outputs, previous, input, tensor),
    ensures
        feedback.plan.input_values@.contains(input),
        forall|b: int|
            0 <= b < feedback.bindings@.len() && (#[trigger] feedback.bindings@[b]).input == input
                && step > 0 ==> (previous matches Some(bank) && exists|k: int|
                {
                    &&& 0 <= k < outputs.len()
                    &&& #[trigger] outputs[k] == feedback.bindings@[b].output
                    &&& *tensor == bank.outputs@[k]
                }),
        step == 0 || (forall|b: int|
            0 <= b < feedback.bindings@.len() ==> (#[trigger] feedback.bindings@[b]).input != input)
            ==> exists|k: int|
            {
                &&& 0 <= k < initial.len()
                &&& (#[trigger] initial[k]).0 == input
                &&& tensor == initial[k].1
            },
{
    law_sources_are_unambiguous(feedback, input, step);
    if step == 0 {
        assert(feedback.source(input, 0) == Some(TensorFeedbackInput::Initial { input }));
    }
}

} // verus!
