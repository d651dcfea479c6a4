//! What the provider is asked before an execution, and which reusable storage it runs with.
use vstd::prelude::*;

use super::error::RocmTensorExecutionError;
use super::prepare::RocmPreparedTensorGraph;
use super::reuse::{RocmContext, RocmTensorOutputBank, RocmTensorScratch};
use super::sizes::{byte_len, mse_scratch_length_fits};
use super::sources::{RocmResource, RocmTensorInput};
use super::validate::{
    constraint_kept, execution_accepted, find_holder, held, RocmBankFacts, RocmHolder,
};
use crate::tensor::error::ValueId;
use crate::tensor::storage::TensorStorageConstraint;
use crate::tensor::value::{extent, Tensor};

verus! {

/// The allocations among the entries of a table.
pub open spec fn present(resources: Seq<Option<RocmResource>>) -> Seq<RocmResource>
    decreases resources.len(),
{
    if resources.len() == 0 {
        Seq::empty()
    } else {
        match resources.last() {
            Some(resource) => present(resources.drop_last()).push(resource),
            None => present(resources.drop_last()),
        }
    }
}

/// The storage that an execution reads or works in beside its bank.
pub open spec fn other_storage(
    inputs: Seq<(ValueId, &RocmTensorInput)>,
    scratch: Option<&RocmTensorScratch>,
) -> Seq<RocmResource> {
    let handed_in = inputs.map_values(|input: (ValueId, &RocmTensorInput)| input.1.resource);
    match scratch {
        None => handed_in,
        Some(scratch) => handed_in + present(scratch.resources@.push(scratch.mse_squared)),
    }
}

/// The storage that no output of a bank may share: that of the inputs and of the scratch.
pub fn storage_beside_bank(
    inputs: &[(ValueId, &RocmTensorInput)],
    scratch: Option<&RocmTensorScratch>,
) -> (resources: Vec<RocmResource>)
    ensures
        resources@ == other_storage(inputs@, scratch),
{
    let mut resources: Vec<RocmResource> = Vec::new();
    let ghost handed_in = inputs@.map_values(
        |input: (ValueId, &RocmTensorInput)| input.1.resource,
    );
    let mut at: usize = 0;
    while at < inputs.len()
        invariant
            at <= inputs@.len(),
            handed_in == inputs@.map_values(
                |input: (ValueId, &RocmTensorInput)| input.1.resource,
            ),
            resources@ == handed_in.take(at as int),
        decreases inputs@.len() - at,
    {
        resources.push(inputs[at].1.resource);
        assert(handed_in.take(at + 1) =~= handed_in.take(at as int).push(handed_in[at as int]));
        at += 1;
    }
    assert(handed_in.take(at as int) =~= handed_in);
    if let Some(scratch) = scratch {
        let ghost table = scratch.resources@;
        let mut slot: usize = 0;
        assert(table.take(0).len() == 0);
        assert(resources@ =~= handed_in + present(table.take(0)));
        while slot < scratch.resources.len()
            invariant
                slot <= table.len(),
                table == scratch.resources@,
                resources@ == handed_in + present(table.take(slot as int)),
            decreases table.len() - slot,
        {
            let ghost before = resources@;
            if let Some(resource) = scratch.resources[slot] {
                resources.push(resource);
            }
            proof {
                let next = table.take(slot + 1);
                assert(next.drop_last() =~= table.take(slot as int));
                assert(next.last() == table[slot as int]);
                assert(resources@ =~= handed_in + present(next));
            }
            slot += 1;
        }
        let ghost whole = table.push(scratch.mse_squared);
        if let Some(resource) = scratch.mse_squared {
            resources.push(resource);
        }
        proof {
            assert(table.take(slot as int) =~= table);
            assert(whole.drop_last() =~= table);
            assert(resources@ =~= handed_in + present(whole));
        }
    }
    resources
}

/// The allocations of a bank, each with the bytes that it has to hold. A bank for another number
/// of outputs has none that could be asked about.
pub fn bank_members(bank: &RocmTensorOutputBank, prepared: &RocmPreparedTensorGraph<'_>) -> (members:
    Vec<(RocmResource, usize)>)
    requires
        prepared.wf(),
    ensures
        members@.len() == if bank.outputs@.len() == prepared.outputs@.len() {
            bank.outputs@.len()
        } else {
            0
        },
        forall|i: int|
            0 <= i < members@.len() ==> (#[trigger] members@[i]).0 == bank.outputs@[i].resource
                && members@[i].1 == extent(4, prepared.graph.shape_of(prepared.outputs@[i])),
{
    let mut members: Vec<(RocmResource, usize)> = Vec::new();
    if bank.outputs.len() != prepared.outputs.len() {
        return members;
    }
    let mut at: usize = 0;
    while at < bank.outputs.len()
        invariant
            at <= bank.outputs@.len(),
            prepared.wf(),
            bank.outputs@.len() == prepared.outputs@.len(),
            members@.len() == at,
            forall|i: int|
                0 <= i < at ==> (#[trigger] members@[i]).0 == bank.outputs@[i].resource
                    && members@[i].1 == extent(4, prepared.graph.shape_of(prepared.outputs@[i])),
        decreases bank.outputs@.len() - at,
    {
        proof {
            prepared.lemma_output_allocatable(at as int);
        }
        let bytes: usize = match prepared.graph.shape(prepared.outputs[at]) {
            Ok(shape) => match byte_len(shape) {
                Ok(bytes) => bytes,
                Err(_) => {
                    assert(false);
                    0
                },
            },
            Err(_) => {
                assert(false);
                0
            },
        };
        members.push((bank.outputs[at].resource, bytes));
        at += 1;
    }
    members
}

/// How the storage of two values overlaps, as far as the values reach into it.
#[derive(Debug, Clone, Copy, PartialEq, Eq, Structural)]
pub struct RocmOverlapQuestion {
    pub left: RocmResource,
    pub left_bytes: u64,
    pub right: RocmResource,
    pub right_bytes: u64,
}

/// The allocation behind a place.
pub open spec fn allocation(
    inputs: Seq<(ValueId, &RocmTensorInput)>,
    scratch: RocmTensorScratch,
    bank: RocmTensorOutputBank,
    holder: Option<RocmHolder>,
) -> Option<RocmResource> {
    match holder {
        Some(RocmHolder::Bank(at)) => if at < bank.outputs@.len() {
            Some(bank.outputs@[at as int].resource)
        } else {
            None
        },
        Some(RocmHolder::Input(at)) => Some(inputs[at as int].1.resource),
        Some(RocmHolder::Scratch(at)) => scratch.resources@[at as int],
        None => None,
    }
}

/// What is asked about a storage constraint whose values stand at two places.
pub open spec fn question_about(
    constraint: TensorStorageConstraint,
    left: Option<RocmResource>,
    right: Option<RocmResource>,
) -> Option<RocmOverlapQuestion> {
    match (left, right) {
        (Some(left), Some(right)) => Some(
            RocmOverlapQuestion {
                left,
                left_bytes: constraint.left_bytes,
                right,
                right_bytes: constraint.right_bytes,
            },
        ),
        _ => None,
    }
}

/// `question` asks about the allocations that hold the two values of a constraint.
pub open spec fn asks_about(
    prepared: RocmPreparedTensorGraph<'_>,
    inputs: Seq<(ValueId, &RocmTensorInput)>,
    scratch: RocmTensorScratch,
    bank: RocmTensorOutputBank,
    constraint: TensorStorageConstraint,
    question: Option<RocmOverlapQuestion>,
) -> bool {
    exists|left: Option<RocmHolder>, right: Option<RocmHolder>|
        {
            &&& #[trigger] held(prepared, inputs, scratch, constraint.left, left)
            &&& #[trigger] held(prepared, inputs, scratch, constraint.right, right)
            &&& question == question_about(
                constraint,
                allocation(inputs, scratch, bank, left),
                allocation(inputs, scratch, bank, right),
            )
        }
}

/// The allocation that holds a value.
fn find_allocation(
    prepared: &RocmPreparedTensorGraph<'_>,
    inputs: &[(ValueId, &RocmTensorInput)],
    scratch: &RocmTensorScratch,
    bank: &RocmTensorOutputBank,
    value: ValueId,
) -> (found: (Ghost<Option<RocmHolder>>, Option<RocmResource>))
    ensures
        held(*prepared, inputs@, *scratch, value, found.0@),
        found.1 == allocation(inputs@, *scratch, *bank, found.0@),
{
    let holder: Option<RocmHolder> = find_holder(prepared, inputs, scratch, value);
    let resource: Option<RocmResource> = match holder {
        Some(RocmHolder::Bank(at)) => if at < bank.outputs.len() {
            Some(bank.outputs[at].resource)
        } else {
            None
        },
        Some(RocmHolder::Input(at)) => Some(inputs[at].1.resource),
        Some(RocmHolder::Scratch(at)) => scratch.resources[at],
        None => None,
    };
    (Ghost(holder), resource)
}

/// What is asked about the storage constraints of a plan, in their order. Nothing is asked where a
/// value has no storage.
pub fn storage_questions(
    prepared: &RocmPreparedTensorGraph<'_>,
    inputs: &[(ValueId, &RocmTensorInput)],
    scratch: &RocmTensorScratch,
    bank: &RocmTensorOutputBank,
) -> (questions: Vec<Option<RocmOverlapQuestion>>)
    ensures
        questions@.len() == prepared.storage_constraints@.len(),
        forall|i: int|
            0 <= i < questions@.len() ==> asks_about(
                *prepared,
                inputs@,
                *scratch,
                *bank,
                prepared.storage_constraints@[i],
                #[trigger] questions@[i],
            ),
{
    let mut questions: Vec<Option<RocmOverlapQuestion>> = Vec::new();
    let mut at: usize = 0;
    while at < prepared.storage_constraints.len()
        invariant
            at <= prepared.storage_constraints@.len(),
            questions@.len() == at,
            forall|i: int|
                0 <= i < questions@.len() ==> asks_about(
                    *prepared,
                    inputs@,
                    *scratch,
                    *bank,
                    prepared.storage_constraints@[i],
                    #[trigger] questions@[i],
                ),
        decreases prepared.storage_constraints@.len() - at,
    {
        let constraint: &TensorStorageConstraint = &prepared.storage_constraints[at];
        let (_, left): (Ghost<Option<RocmHolder>>, Option<RocmResource>) = find_allocation(
            prepared,
            inputs,
            scratch,
            bank,
            constraint.left,
        );
        let (_, right): (Ghost<Option<RocmHolder>>, Option<RocmResource>) = find_allocation(
            prepared,
            inputs,
            scratch,
            bank,
            constraint.right,
        );
        let question: Option<RocmOverlapQuestion> = match (left, right) {
            (Some(left), Some(right)) => Some(
                RocmOverlapQuestion {
                    left,
                    left_bytes: constraint.left_bytes,
                    right,
                    right_bytes: constraint.right_bytes,
                },
            ),
            _ => None,
        };
        questions.push(question);
        at += 1;
    }
    questions
}

/// An execution into a bank starts only once the provider was asked about both values of every
/// storage constraint and called their storage disjoint.
pub proof fn law_every_constraint_is_asked_about(
    prepared: RocmPreparedTensorGraph<'_>,
    host: Seq<(ValueId, Tensor)>,
    inputs: Seq<(ValueId, &RocmTensorInput)>,
    context: RocmContext,
    scratch: &RocmTensorScratch,
    facts: RocmBankFacts<'_>,
    question: Option<RocmOverlapQuestion>,
    at: int,
)
    requires
        execution_accepted(prepared, host, inputs, context, Some(scratch), Some(facts)),
        facts.storage@.len() == prepared.storage_constraints@.len(),
        0 <= at < facts.storage@.len(),
        asks_about(
            prepared,
            inputs,
            *scratch,
            *facts.bank,
            prepared.storage_constraints@[at],
            question,
        ),
    ensures
        question is Some,
        facts.storage@[at] is Disjoint,
{
    let constraint = prepared.storage_constraints@[at];
    assert(constraint_kept(prepared, inputs, *scratch, constraint, facts.storage@[at]));
    let (left, right) = choose|left: Option<RocmHolder>, right: Option<RocmHolder>|
        {
            &&& #[trigger] held(prepared, inputs, *scratch, constraint.left, left)
            &&& #[trigger] held(prepared, inputs, *scratch, constraint.right, right)
            &&& question == question_about(
                constraint,
                allocation(inputs, *scratch, *facts.bank, left),
                allocation(inputs, *scratch, *facts.bank, right),
            )
        };
    assert(left is Some && right is Some);
}

impl RocmTensorScratch {
    /// The storage for `count` squared differences.
    ///
    /// # Errors
    ///
    /// `SizeOverflow` if their bytes cannot be counted, `ScratchMismatch` if there is no storage
    /// or too little of it.
    pub fn squares(&self, count: usize) -> (squares: Result<RocmResource, RocmTensorExecutionError>)
        ensures
            match squares {
                Ok(resource) => self.mse_squared == Some(resource) && resource.bytes >= 4 * count,
                Err(error) => match self.mse_squared {
                    None => error == RocmTensorExecutionError::ScratchMismatch,
                    Some(resource) => resource.bytes < 4 * count && error == if 4 * count
                        > usize::MAX {
                        RocmTensorExecutionError::SizeOverflow
                    } else {
                        RocmTensorExecutionError::ScratchMismatch
                    },
                },
            },
    {
        match self.mse_squared {
            None => Err(RocmTensorExecutionError::ScratchMismatch),
            Some(resource) => match mse_scratch_length_fits(count, resource.bytes) {
                Err(error) => Err(error),
                Ok(fits) => if fits {
                    Ok(resource)
                } else {
                    Err(RocmTensorExecutionError::ScratchMismatch)
                },
            },
        }
    }
}

} // verus!
