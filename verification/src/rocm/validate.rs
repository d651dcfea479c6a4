//! What has to hold before an execution touches the device.
use vstd::prelude::*;

use super::assess::needs_library;
use super::error::RocmTensorExecutionError;
use super::layout::{find_node, node_position};
use super::prepare::RocmPreparedTensorGraph;
use super::reuse::{RocmContext, RocmTensorOutputBank, RocmTensorScratch};
use super::sizes::{byte_len, output_position};
use super::sources::{
    resident, sources_accepted, sources_refused, validate_graph_input_sources, RocmTensorInput,
};
use crate::tensor::descriptor::{NodeDescriptor, OpDescriptor, TensorUnsupportedReason};
use crate::tensor::error::ValueId;
use crate::tensor::storage::{
    PcuMemoryOverlap, TensorStorageConstraint, TensorStorageValidationError,
};
use crate::tensor::value::{same_shape, Tensor};

verus! {

/// A bank can be written to: it serves the plan, nothing that the execution reads or writes may
/// share its storage, and the shared validator of reusable banks took it.
pub open spec fn bank_accepted(
    bank: RocmTensorOutputBank,
    prepared: RocmPreparedTensorGraph<'_>,
    context: RocmContext,
    overlapping: Seq<bool>,
    members_valid: bool,
) -> bool {
    &&& bank.serves(prepared, context)
    &&& forall|i: int| 0 <= i < overlapping.len() ==> !#[trigger] overlapping[i]
    &&& members_valid
}

/// Whether one output of a bank can hold the requested one.
fn bank_output_fits(
    bank: &RocmTensorOutputBank,
    prepared: &RocmPreparedTensorGraph<'_>,
    context: &RocmContext,
    at: usize,
) -> (answer: bool)
    requires
        prepared.wf(),
        at < bank.outputs@.len(),
        bank.outputs@.len() == prepared.outputs@.len(),
    ensures
        answer == bank.output_fits(*prepared, *context, at as int),
{
    proof {
        prepared.lemma_output_allocatable(at as int);
    }
    let output: &RocmTensorInput = &bank.outputs[at];
    let shape: &[usize] = match prepared.graph.shape(prepared.outputs[at]) {
        Ok(shape) => shape,
        Err(_) => {
            assert(false);
            return false;
        },
    };
    let bytes: usize = match byte_len(shape) {
        Ok(bytes) => bytes,
        Err(_) => {
            assert(false);
            return false;
        },
    };
    output.session == context.session.id && same_shape(output.shape.as_slice(), shape)
        && output.resource.pool == context.pool && output.resource.runtime
        == context.session.runtime && output.resource.bytes >= bytes
        && output.resource.access.writable()
}

/// Checks a bank. `overlapping` says of each of its outputs whether an input or a scratch
/// allocation may share its storage; `members_valid` is what the shared validator of reusable
/// banks said.
///
/// # Errors
///
/// `OutputResourceMismatch` if the bank cannot be written to.
pub fn validate_output_bank(
    bank: &RocmTensorOutputBank,
    prepared: &RocmPreparedTensorGraph<'_>,
    context: &RocmContext,
    overlapping: &[bool],
    members_valid: bool,
) -> (verdict: Result<(), RocmTensorExecutionError>)
    requires
        prepared.wf(),
        overlapping@.len() == bank.outputs@.len(),
    ensures
        match verdict {
            Ok(()) => bank_accepted(*bank, *prepared, *context, overlapping@, members_valid),
            Err(error) => !bank_accepted(*bank, *prepared, *context, overlapping@, members_valid)
                && error == RocmTensorExecutionError::OutputResourceMismatch,
        },
{
    if bank.poisoned || bank.plan != context.plan || bank.session != context.session.id || bank.pool
        != context.pool || bank.outputs.len() != prepared.outputs.len() {
        return Err(RocmTensorExecutionError::OutputResourceMismatch);
    }
    let mut at: usize = 0;
    while at < bank.outputs.len()
        invariant
            at <= bank.outputs@.len(),
            prepared.wf(),
            overlapping@.len() == bank.outputs@.len(),
            bank.outputs@.len() == prepared.outputs@.len(),
            forall|i: int|
                0 <= i < at ==> #[trigger] bank.output_fits(*prepared, *context, i),
            forall|i: int| 0 <= i < at ==> !#[trigger] overlapping@[i],
        decreases bank.outputs@.len() - at,
    {
        if !bank_output_fits(bank, prepared, context, at) {
            assert(!bank.output_fits(*prepared, *context, at as int));
            return Err(RocmTensorExecutionError::OutputResourceMismatch);
        }
        if overlapping[at] {
            assert(overlapping@[at as int]);
            return Err(RocmTensorExecutionError::OutputResourceMismatch);
        }
        at += 1;
    }
    if !members_valid {
        return Err(RocmTensorExecutionError::OutputResourceMismatch);
    }
    Ok(())
}

/// Where the storage of a value is.
#[derive(Debug, Clone, Copy, PartialEq, Eq, Structural)]
pub enum RocmHolder {
    /// An output of the bank.
    Bank(usize),
    /// A device tensor that was handed in.
    Input(usize),
    /// A scratch allocation.
    Scratch(usize),
}

/// `holder` is where the storage of a value is: in the bank if it was requested, else in a device
/// tensor that was handed in for it, else in scratch.
pub open spec fn held(
    prepared: RocmPreparedTensorGraph<'_>,
    inputs: Seq<(ValueId, &RocmTensorInput)>,
    scratch: RocmTensorScratch,
    value: ValueId,
    holder: Option<RocmHolder>,
) -> bool {
    if prepared.outputs@.contains(value) {
        holder matches Some(RocmHolder::Bank(at)) && at < prepared.outputs@.len()
            && prepared.outputs@[at as int] == value
    } else if resident(inputs, value) {
        holder matches Some(RocmHolder::Input(at)) && at < inputs.len() && inputs[at as int].0
            == value && forall|j: int| 0 <= j < at ==> (#[trigger] inputs[j]).0 != value
    } else {
        match node_position(prepared.nodes(), value) {
            Some(at) => if at < scratch.resources@.len() && scratch.resources@[at] is Some {
                holder matches Some(RocmHolder::Scratch(index)) && index == at
            } else {
                holder is None
            },
            None => holder is None,
        }
    }
}

/// Where the storage of a value is.
pub fn find_holder(
    prepared: &RocmPreparedTensorGraph<'_>,
    inputs: &[(ValueId, &RocmTensorInput)],
    scratch: &RocmTensorScratch,
    value: ValueId,
) -> (holder: Option<RocmHolder>)
    ensures
        held(*prepared, inputs@, *scratch, value, holder),
{
    if let Some(at) = output_position(prepared.outputs.as_slice(), value) {
        assert(prepared.outputs@.contains(value));
        return Some(RocmHolder::Bank(at));
    }
    let mut at: usize = 0;
    while at < inputs.len()
        invariant
            at <= inputs@.len(),
            !prepared.outputs@.contains(value),
            forall|j: int| 0 <= j < at ==> (#[trigger] inputs@[j]).0 != value,
        decreases inputs@.len() - at,
    {
        if inputs[at].0 == value {
            assert(inputs@[at as int].0 == value);
            return Some(RocmHolder::Input(at));
        }
        at += 1;
    }
    match find_node(prepared.lowering_plan.nodes(), value) {
        Some(index) => {
            if index < scratch.resources.len() {
                if let Some(_) = scratch.resources[index] {
                    return Some(RocmHolder::Scratch(index));
                }
            }
            None
        },
        None => None,
    }
}

/// Both values of a constraint have storage, and the provider said that it is disjoint.
pub open spec fn constraint_kept(
    prepared: RocmPreparedTensorGraph<'_>,
    inputs: Seq<(ValueId, &RocmTensorInput)>,
    scratch: RocmTensorScratch,
    constraint: TensorStorageConstraint,
    overlap: PcuMemoryOverlap,
) -> bool {
    &&& !held(prepared, inputs, scratch, constraint.left, None)
    &&& !held(prepared, inputs, scratch, constraint.right, None)
    &&& overlap is Disjoint
}

/// Why a constraint is not kept.
pub open spec fn constraint_broken(
    prepared: RocmPreparedTensorGraph<'_>,
    inputs: Seq<(ValueId, &RocmTensorInput)>,
    scratch: RocmTensorScratch,
    constraint: TensorStorageConstraint,
    overlap: PcuMemoryOverlap,
    error: RocmTensorExecutionError,
) -> bool {
    if held(prepared, inputs, scratch, constraint.left, None) {
        error == RocmTensorExecutionError::StorageConstraint(
            TensorStorageValidationError::MissingResource(constraint.left),
        )
    } else if held(prepared, inputs, scratch, constraint.right, None) {
        error == RocmTensorExecutionError::StorageConstraint(
            TensorStorageValidationError::MissingResource(constraint.right),
        )
    } else {
        constraint.verdict(overlap) matches Err(reason) && error
            == RocmTensorExecutionError::StorageConstraint(reason)
    }
}

/// Checks one constraint, given what the provider said of the storage of its two values.
fn validate_storage_constraint(
    prepared: &RocmPreparedTensorGraph<'_>,
    inputs: &[(ValueId, &RocmTensorInput)],
    scratch: &RocmTensorScratch,
    constraint: &TensorStorageConstraint,
    overlap: PcuMemoryOverlap,
) -> (verdict: Result<(), RocmTensorExecutionError>)
    ensures
        match verdict {
            Ok(()) => constraint_kept(*prepared, inputs@, *scratch, *constraint, overlap),
            Err(error) => constraint_broken(
                *prepared,
                inputs@,
                *scratch,
                *constraint,
                overlap,
                error,
            ),
        },
{
    if find_holder(prepared, inputs, scratch, constraint.left).is_none() {
        return Err(
            RocmTensorExecutionError::StorageConstraint(
                TensorStorageValidationError::MissingResource(constraint.left),
            ),
        );
    }
    if find_holder(prepared, inputs, scratch, constraint.right).is_none() {
        return Err(
            RocmTensorExecutionError::StorageConstraint(
                TensorStorageValidationError::MissingResource(constraint.right),
            ),
        );
    }
    match constraint.decide(overlap) {
        Ok(()) => Ok(()),
        Err(reason) => Err(RocmTensorExecutionError::StorageConstraint(reason)),
    }
}

/// The storage constraints that the provider's answers keep.
pub open spec fn storage_kept(
    prepared: RocmPreparedTensorGraph<'_>,
    inputs: Seq<(ValueId, &RocmTensorInput)>,
    scratch: RocmTensorScratch,
    overlaps: Seq<PcuMemoryOverlap>,
    count: int,
) -> bool {
    forall|i: int|
        0 <= i < count ==> constraint_kept(
            prepared,
            inputs,
            scratch,
            #[trigger] prepared.storage_constraints@[i],
            overlaps[i],
        )
}

/// The first storage constraint that the provider's answers do not keep.
pub open spec fn storage_broken(
    prepared: RocmPreparedTensorGraph<'_>,
    inputs: Seq<(ValueId, &RocmTensorInput)>,
    scratch: RocmTensorScratch,
    overlaps: Seq<PcuMemoryOverlap>,
    error: RocmTensorExecutionError,
) -> bool {
    exists|i: int|
        0 <= i < prepared.storage_constraints@.len() && constraint_broken(
            prepared,
            inputs,
            scratch,
            #[trigger] prepared.storage_constraints@[i],
            overlaps[i],
            error,
        ) && storage_kept(prepared, inputs, scratch, overlaps, i)
}

/// Checks the storage constraints of a plan. `overlaps` is what the provider said of the storage
/// of the two values of each constraint.
///
/// # Errors
///
/// A storage error for the first constraint with a value that has no storage, or whose storage
/// was not said to be disjoint.
pub fn validate_prepared_storage_constraints(
    prepared: &RocmPreparedTensorGraph<'_>,
    inputs: &[(ValueId, &RocmTensorInput)],
    scratch: &RocmTensorScratch,
    overlaps: &[PcuMemoryOverlap],
) -> (verdict: Result<(), RocmTensorExecutionError>)
    requires
        overlaps@.len() == prepared.storage_constraints@.len(),
    ensures
        match verdict {
            Ok(()) => storage_kept(
                *prepared,
                inputs@,
                *scratch,
                overlaps@,
                overlaps@.len() as int,
            ),
            Err(error) => storage_broken(*prepared, inputs@, *scratch, overlaps@, error),
        },
{
    let mut at: usize = 0;
    while at < prepared.storage_constraints.len()
        invariant
            at <= prepared.storage_constraints@.len(),
            overlaps@.len() == prepared.storage_constraints@.len(),
            storage_kept(*prepared, inputs@, *scratch, overlaps@, at as int),
        decreases prepared.storage_constraints@.len() - at,
    {
        if let Err(error) = validate_storage_constraint(
            prepared,
            inputs,
            scratch,
            &prepared.storage_constraints[at],
            overlaps[at],
        ) {
            assert(constraint_broken(
                *prepared,
                inputs@,
                *scratch,
                prepared.storage_constraints@[at as int],
                overlaps@[at as int],
                error,
            ));
            return Err(error);
        }
        at += 1;
    }
    Ok(())
}

/// A bank that an execution is to write to, and what the provider said of it.
#[derive(Debug, Clone, Copy)]
pub struct RocmBankFacts<'a> {
    pub bank: &'a RocmTensorOutputBank,
    /// Of each output: an input or a scratch allocation may share its storage.
    pub overlapping: &'a [bool],
    /// The shared validator of reusable banks took the bank.
    pub members_valid: bool,
    /// Of each storage constraint: how the storage of its two values overlaps.
    pub storage: &'a [PcuMemoryOverlap],
}

/// Some node runs through the library.
pub open spec fn uses_library(nodes: Seq<NodeDescriptor<'_>>) -> bool {
    exists|i: int| 0 <= i < nodes.len() && needs_library((#[trigger] nodes[i]).op)
}

fn does_use_library(nodes: &[NodeDescriptor<'_>]) -> (answer: bool)
    ensures
        answer == uses_library(nodes@),
{
    let mut at: usize = 0;
    while at < nodes.len()
        invariant
            at <= nodes@.len(),
            forall|i: int| 0 <= i < at ==> !needs_library((#[trigger] nodes@[i]).op),
        decreases nodes@.len() - at,
    {
        let library: bool = match nodes[at].op {
            OpDescriptor::MatMul { .. } => true,
            OpDescriptor::MeanSquaredError { .. } => true,
            _ => false,
        };
        if library {
            assert(needs_library(nodes@[at as int].op));
            return true;
        }
        at += 1;
    }
    false
}

/// An execution can start.
pub open spec fn execution_accepted(
    prepared: RocmPreparedTensorGraph<'_>,
    host: Seq<(ValueId, Tensor)>,
    inputs: Seq<(ValueId, &RocmTensorInput)>,
    context: RocmContext,
    scratch: Option<&RocmTensorScratch>,
    bank: Option<RocmBankFacts<'_>>,
) -> bool {
    &&& sources_accepted(prepared.nodes(), host, inputs, context.session, context.pool)
    &&& scratch matches Some(scratch) ==> scratch.serves(context)
    &&& bank matches Some(facts) ==> {
        &&& bank_accepted(
            *facts.bank,
            prepared,
            context,
            facts.overlapping@,
            facts.members_valid,
        )
        &&& scratch matches Some(scratch) ==> storage_kept(
            prepared,
            inputs,
            *scratch,
            facts.storage@,
            facts.storage@.len() as int,
        )
    }
    &&& uses_library(prepared.nodes()) ==> context.library_usable
}

/// Why an execution cannot start.
pub open spec fn execution_refused(
    prepared: RocmPreparedTensorGraph<'_>,
    host: Seq<(ValueId, Tensor)>,
    inputs: Seq<(ValueId, &RocmTensorInput)>,
    context: RocmContext,
    scratch: Option<&RocmTensorScratch>,
    bank: Option<RocmBankFacts<'_>>,
    error: RocmTensorExecutionError,
) -> bool {
    let sources = sources_accepted(
        prepared.nodes(),
        host,
        inputs,
        context.session,
        context.pool,
    );
    let scratch_serves = scratch matches Some(scratch) ==> scratch.serves(context);
    let bank_serves = bank matches Some(facts) ==> bank_accepted(
        *facts.bank,
        prepared,
        context,
        facts.overlapping@,
        facts.members_valid,
    );
    let storage = bank matches Some(facts) ==> (scratch matches Some(scratch) ==> storage_kept(
        prepared,
        inputs,
        *scratch,
        facts.storage@,
        facts.storage@.len() as int,
    ));
    ||| sources_refused(
        prepared.nodes(),
        host,
        inputs,
        context.session,
        context.pool,
        error,
    )
    ||| sources && !scratch_serves && error == RocmTensorExecutionError::ScratchMismatch
    ||| sources && scratch_serves && !bank_serves && error
        == RocmTensorExecutionError::OutputResourceMismatch
    ||| sources && scratch_serves && bank_serves && (bank matches Some(facts) && (
    scratch matches Some(scratch) && storage_broken(
        prepared,
        inputs,
        *scratch,
        facts.storage@,
        error,
    )))
    ||| sources && scratch_serves && bank_serves && storage && uses_library(prepared.nodes())
        && !context.library_usable && (error matches RocmTensorExecutionError::Unsupported {
        value,
        reason: TensorUnsupportedReason::Other(text),
    } && value == prepared.outputs@[0] && text@
        == "rocBLAS completion is uncertain; selected handle cannot run more work"@)
}

/// Checks everything that an execution reads from and writes to before it touches the device.
///
/// # Errors
///
/// The first reason why it cannot start.
pub fn validate_execution_sources(
    prepared: &RocmPreparedTensorGraph<'_>,
    host_inputs: &[(ValueId, Tensor)],
    resource_inputs: &[(ValueId, &RocmTensorInput)],
    context: &RocmContext,
    scratch: Option<&RocmTensorScratch>,
    bank: Option<RocmBankFacts<'_>>,
) -> (verdict: Result<(), RocmTensorExecutionError>)
    requires
        prepared.wf(),
        bank matches Some(facts) ==> facts.overlapping@.len() == facts.bank.outputs@.len()
            && facts.storage@.len() == prepared.storage_constraints@.len(),
    ensures
        match verdict {
            Ok(()) => execution_accepted(
                *prepared,
                host_inputs@,
                resource_inputs@,
                *context,
                scratch,
                bank,
            ),
            Err(error) => execution_refused(
                *prepared,
                host_inputs@,
                resource_inputs@,
                *context,
                scratch,
                bank,
                error,
            ),
        },
{
    let nodes: &[NodeDescriptor<'_>] = prepared.lowering_plan.nodes();
    if let Err(error) = validate_graph_input_sources(
        nodes,
        host_inputs,
        resource_inputs,
        &context.session,
        context.pool,
    ) {
        return Err(error);
    }
    if let Some(scratch) = scratch {
        if !scratch.is_usable(context) {
            return Err(RocmTensorExecutionError::ScratchMismatch);
        }
    }
    if let Some(facts) = bank {
        if let Err(error) = validate_output_bank(
            facts.bank,
            prepared,
            context,
            facts.overlapping,
            facts.members_valid,
        ) {
            return Err(error);
        }
        if let Some(scratch) = scratch {
            if let Err(error) = validate_prepared_storage_constraints(
                prepared,
                resource_inputs,
                scratch,
                facts.storage,
            ) {
                return Err(error);
            }
        }
    }
    if does_use_library(nodes) && !context.library_usable {
        return Err(
            RocmTensorExecutionError::Unsupported {
                value: prepared.outputs[0],
                reason: TensorUnsupportedReason::Other(
                    String::from_str(
                        "rocBLAS completion is uncertain; selected handle cannot run more work",
                    ),
                ),
            },
        );
    }
    Ok(())
}

/// A bank and a scratch can be used together by this plan and session.
pub open spec fn bank_pairs(
    bank: RocmTensorOutputBank,
    scratch: RocmTensorScratch,
    session: u64,
    plan: u64,
) -> bool {
    !bank.poisoned && bank.plan == plan && bank.session == session && bank.pool == scratch.pool
}

/// Checks, before anything else, that a bank can be used together with a scratch.
///
/// # Errors
///
/// `OutputResourceMismatch` if it cannot.
pub fn validate_bank_pairing(
    bank: &RocmTensorOutputBank,
    scratch: &RocmTensorScratch,
    session: u64,
    plan: u64,
) -> (verdict: Result<(), RocmTensorExecutionError>)
    ensures
        match verdict {
            Ok(()) => bank_pairs(*bank, *scratch, session, plan),
            Err(error) => !bank_pairs(*bank, *scratch, session, plan) && error
                == RocmTensorExecutionError::OutputResourceMismatch,
        },
{
    if bank.poisoned || bank.plan != plan || bank.session != session || bank.pool != scratch.pool {
        return Err(RocmTensorExecutionError::OutputResourceMismatch);
    }
    Ok(())
}

/// Checks, before anything else, that a scratch is for this plan and session.
///
/// # Errors
///
/// `ScratchMismatch` if it is not, or an execution with it failed.
pub fn validate_scratch_pairing(scratch: &RocmTensorScratch, session: u64, plan: u64) -> (verdict:
    Result<(), RocmTensorExecutionError>)
    ensures
        match verdict {
            Ok(()) => !scratch.poisoned && scratch.plan == plan && scratch.session == session,
            Err(error) => (scratch.poisoned || scratch.plan != plan || scratch.session != session)
                && error == RocmTensorExecutionError::ScratchMismatch,
        },
{
    if scratch.poisoned || scratch.plan != plan || scratch.session != session {
        return Err(RocmTensorExecutionError::ScratchMismatch);
    }
    Ok(())
}

impl RocmTensorScratch {
    /// Records how an execution with this scratch ended. After a failure it serves no other.
    pub fn record(&mut self, succeeded: bool)
        ensures
            *final(self) == (RocmTensorScratch {
                poisoned: old(self).poisoned || !succeeded,
                ..*old(self)
            }),
    {
        if !succeeded {
            self.poisoned = true;
        }
    }
}

impl RocmTensorOutputBank {
    /// Records how an execution into this bank ended. After a failure it serves no other.
    pub fn record(&mut self, succeeded: bool)
        ensures
            *final(self) == (RocmTensorOutputBank {
                poisoned: old(self).poisoned || !succeeded,
                ..*old(self)
            }),
    {
        if !succeeded {
            self.poisoned = true;
        }
    }
}

/// Once an execution failed, neither its scratch nor its bank is accepted again.
pub proof fn law_failed_storage_is_never_reused(
    prepared: RocmPreparedTensorGraph<'_>,
    host: Seq<(ValueId, Tensor)>,
    inputs: Seq<(ValueId, &RocmTensorInput)>,
    context: RocmContext,
    scratch: Option<&RocmTensorScratch>,
    bank: Option<RocmBankFacts<'_>>,
)
    requires
        (scratch matches Some(scratch) && scratch.poisoned) || (bank matches Some(facts)
            && facts.bank.poisoned),
    ensures
        !execution_accepted(prepared, host, inputs, context, scratch, bank),
{
}

} // verus!
