//! Execution of fragments over caller streams.
use vstd::prelude::*;

use super::dialect::{
    find_operation, lemma_results_required, operation_conforms, operation_named, results_hold,
    results_required, wrapped_sum, PcuDialectFragment, PcuDialectOperation,
    PcuDialectValidationError, PcuDialectValueId, VmOperation,
};

verus! {

/// Caller-owned execution buffers.
#[derive(Debug)]
pub struct VmBuffers<'a> {
    /// Values indexed by fragment-local SSA value ID. Must have an entry for each result ID.
    pub values: &'a mut [u32],
    /// Ordered values consumed by `input.u32` operations.
    pub inputs: &'a [u32],
    /// Output storage receiving values in `emit.u32` order.
    pub outputs: &'a mut [u32],
}

/// Successful execution counts.
#[derive(Debug, Clone, Copy, PartialEq, Eq, Structural)]
pub struct VmReport {
    /// Number of caller inputs consumed.
    pub inputs_consumed: usize,
    /// Number of outputs written.
    pub outputs_written: usize,
    /// Number of operations executed.
    pub operations_executed: usize,
}

/// Execution rejection. Rejections happen before caller buffers are modified.
#[derive(Debug, Clone, Copy, PartialEq, Eq, Structural)]
#[allow(inconsistent_fields)]
pub enum VmError {
    /// Fragment identity, version, signatures, effects, or SSA flow were rejected.
    InvalidFragment(PcuDialectValidationError),
    /// Ports or typed immediate attributes were rejected.
    InvalidProgram(PcuDialectValidationError),
    /// Host input bindings are missing, duplicated, or unknown.
    InvalidInputBindings,
    /// Host output slots are missing, duplicated, or unknown.
    InvalidOutputBindings,
    /// Fragment execution needs immediate metadata supplied by a program.
    ImmediateRequiresProgram,
    /// The program is valid but outside this evaluator's bounded semantic slice.
    UnsupportedProgramOperation,
    /// An SSA result ID does not fit the caller's value storage.
    ValueStorageTooSmall { required: usize, available: usize },
    /// There are fewer caller inputs than input operations.
    InputStorageTooSmall { required: usize, available: usize },
    /// There are fewer caller output slots than emit operations.
    OutputStorageTooSmall { required: usize, available: usize },
}

/// How many of the first `count` operations are `kind`.
pub open spec fn tally(
    operations: Seq<PcuDialectOperation>,
    count: nat,
    kind: VmOperation,
) -> nat
    decreases count,
{
    if count == 0 {
        0
    } else {
        tally(operations, (count - 1) as nat, kind) + if operation_named(
            operations[count - 1].name@,
        ) == Some(kind) {
            1nat
        } else {
            0nat
        }
    }
}

proof fn lemma_tally_grows(
    operations: Seq<PcuDialectOperation>,
    shorter: nat,
    longer: nat,
    kind: VmOperation,
)
    requires
        shorter <= longer,
    ensures
        tally(operations, shorter, kind) <= tally(operations, longer, kind),
        tally(operations, longer, kind) <= longer,
    decreases longer,
{
    if shorter < longer {
        lemma_tally_grows(operations, shorter, (longer - 1) as nat, kind);
    } else if longer > 0 {
        lemma_tally_grows(operations, (longer - 1) as nat, (longer - 1) as nat, kind);
    }
}

/// What the buffers hold, and how much of the streams has been used.
#[verifier::ext_equal]
pub ghost struct VmState {
    pub values: Seq<u32>,
    pub outputs: Seq<u32>,
    pub consumed: nat,
    pub written: nat,
}

/// The state after one operation.
pub open spec fn stepped(
    state: VmState,
    operation: PcuDialectOperation,
    inputs: Seq<u32>,
) -> VmState {
    match (operation_named(operation.name@), operation.result) {
        (Some(VmOperation::Input), Some(result)) => VmState {
            values: state.values.update(result.0 as int, inputs[state.consumed as int]),
            consumed: state.consumed + 1,
            ..state
        },
        (Some(VmOperation::Add), Some(result)) => VmState {
            values: state.values.update(
                result.0 as int,
                wrapped_sum(
                    state.values[operation.inputs@[0].0 as int],
                    state.values[operation.inputs@[1].0 as int],
                ),
            ),
            ..state
        },
        (Some(VmOperation::Emit), _) => VmState {
            outputs: state.outputs.update(
                state.written as int,
                state.values[operation.inputs@[0].0 as int],
            ),
            written: state.written + 1,
            ..state
        },
        _ => state,
    }
}

/// The state after the first `count` operations.
pub open spec fn run(
    state: VmState,
    operations: Seq<PcuDialectOperation>,
    count: nat,
    inputs: Seq<u32>,
) -> VmState
    decreases count,
{
    if count == 0 {
        state
    } else {
        stepped(
            run(state, operations, (count - 1) as nat, inputs),
            operations[count - 1],
            inputs,
        )
    }
}

/// Operations put behind one another act one after the other.
pub proof fn law_runs_compose(
    state: VmState,
    first: Seq<PcuDialectOperation>,
    second: Seq<PcuDialectOperation>,
    inputs: Seq<u32>,
)
    ensures
        run(state, first + second, (first + second).len(), inputs) == run(
            run(state, first, first.len(), inputs),
            second,
            second.len(),
            inputs,
        ),
    decreases second.len(),
{
    let all = first + second;
    if second.len() == 0 {
        assert(all =~= first);
    } else {
        let shorter = second.drop_last();
        law_runs_compose(state, first, shorter, inputs);
        let count = (all.len() - 1) as nat;
        assert(all.take((first + shorter).len() as int) =~= first + shorter);
        assert(second.take(shorter.len() as int) =~= shorter);
        lemma_run_of_prefix(state, all, first + shorter, count, inputs);
        lemma_run_of_prefix(
            run(state, first, first.len(), inputs),
            second,
            shorter,
            shorter.len(),
            inputs,
        );
        assert((first + shorter).len() == count);
        assert(all[count as int] == second[second.len() - 1]);
    }
}

proof fn lemma_run_of_prefix(
    state: VmState,
    longer: Seq<PcuDialectOperation>,
    shorter: Seq<PcuDialectOperation>,
    count: nat,
    inputs: Seq<u32>,
)
    requires
        count <= shorter.len() <= longer.len(),
        longer.take(shorter.len() as int) == shorter,
    ensures
        run(state, longer, count, inputs) == run(state, shorter, count, inputs),
    decreases count,
{
    if count > 0 {
        lemma_run_of_prefix(state, longer, shorter, (count - 1) as nat, inputs);
        assert(longer.take(shorter.len() as int)[count - 1] == longer[count - 1]);
    }
}

/// Why a fragment is not executed over buffers of these sizes.
pub open spec fn fragment_refusal(
    fragment: PcuDialectFragment,
    values: nat,
    inputs: nat,
    outputs: nat,
) -> Option<VmError> {
    let operations = fragment.operations@;
    let count = operations.len();
    let required = results_required(operations, count);
    let reads = tally(operations, count, VmOperation::Input);
    let emits = tally(operations, count, VmOperation::Emit);
    match fragment.verdict {
        Err(e) => Some(VmError::InvalidFragment(e)),
        Ok(_) => if tally(operations, count, VmOperation::Literal) > 0 {
            Some(VmError::ImmediateRequiresProgram)
        } else if values < required {
            Some(
                VmError::ValueStorageTooSmall {
                    required: required as usize,
                    available: values as usize,
                },
            )
        } else if inputs < reads {
            Some(
                VmError::InputStorageTooSmall {
                    required: reads as usize,
                    available: inputs as usize,
                },
            )
        } else if outputs < emits {
            Some(
                VmError::OutputStorageTooSmall {
                    required: emits as usize,
                    available: outputs as usize,
                },
            )
        } else {
            None
        },
    }
}

/// What executing a fragment answers, and what it leaves in the buffers.
pub open spec fn execution_outcome(
    fragment: PcuDialectFragment,
    inputs: Seq<u32>,
    values: (Seq<u32>, Seq<u32>),
    outputs: (Seq<u32>, Seq<u32>),
    answer: Result<VmReport, VmError>,
) -> bool {
    let operations = fragment.operations@;
    let count = operations.len();
    match fragment_refusal(fragment, values.0.len(), inputs.len(), outputs.0.len()) {
        Some(e) => {
            &&& answer == Err::<VmReport, VmError>(e)
            &&& values.1 == values.0
            &&& outputs.1 == outputs.0
        },
        None => {
            let end = run(
                VmState { values: values.0, outputs: outputs.0, consumed: 0, written: 0 },
                operations,
                count,
                inputs,
            );
            &&& answer == Ok::<VmReport, VmError>(
                VmReport {
                    inputs_consumed: tally(operations, count, VmOperation::Input) as usize,
                    outputs_written: tally(operations, count, VmOperation::Emit) as usize,
                    operations_executed: count as usize,
                },
            )
            &&& values.1 == end.values
            &&& outputs.1 == end.outputs
        },
    }
}

/// What a fragment needs of its buffers.
struct VmNeeds {
    inputs: usize,
    outputs: usize,
    values: usize,
}

/// Counts what a fragment needs. None if it holds a literal.
fn count_needs(operations: &[PcuDialectOperation]) -> (needs: Option<VmNeeds>)
    ensures
        match needs {
            Some(n) => {
                &&& tally(operations@, operations@.len(), VmOperation::Literal) == 0
                &&& n.inputs == tally(operations@, operations@.len(), VmOperation::Input)
                &&& n.outputs == tally(operations@, operations@.len(), VmOperation::Emit)
                &&& n.values == results_required(operations@, operations@.len())
            },
            None => tally(operations@, operations@.len(), VmOperation::Literal) > 0,
        },
{
    let mut inputs: usize = 0;
    let mut outputs: usize = 0;
    let mut values: usize = 0;
    let mut at: usize = 0;
    while at < operations.len()
        invariant
            at <= operations@.len(),
            tally(operations@, at as nat, VmOperation::Literal) == 0,
            inputs == tally(operations@, at as nat, VmOperation::Input),
            outputs == tally(operations@, at as nat, VmOperation::Emit),
            values == results_required(operations@, at as nat),
        decreases operations@.len() - at,
    {
        proof {
            lemma_tally_grows(operations@, at as nat, at as nat, VmOperation::Input);
            lemma_tally_grows(operations@, at as nat, at as nat, VmOperation::Emit);
        }
        match find_operation(operations[at].name) {
            Some(VmOperation::Input) => {
                inputs += 1;
            },
            Some(VmOperation::Emit) => {
                outputs += 1;
            },
            Some(VmOperation::Literal) => {
                proof {
                    lemma_tally_grows(
                        operations@,
                        (at + 1) as nat,
                        operations@.len(),
                        VmOperation::Literal,
                    );
                }
                return None;
            },
            _ => {},
        }
        if let Some(result) = operations[at].result {
            let required: usize = result.0 as usize + 1;
            if required > values {
                values = required;
            }
        }
        at += 1;
    }
    Some(VmNeeds { inputs, outputs, values })
}

/// Validates and executes a supported fragment using only caller-provided buffers.
///
/// Addition wraps modulo 2^32. The input and output slices form ordered streams; there are no
/// immediate operands or named port bindings here.
///
/// # Errors
///
/// A `VmError` if the dialect contract or any required buffer capacity is invalid.
pub fn execute(fragment: &PcuDialectFragment<'_>, buffers: &mut VmBuffers<'_>) -> (answer: Result<
    VmReport,
    VmError,
>)
    requires
        fragment.wf(),
    ensures
        final(buffers).inputs@ == old(buffers).inputs@,
        execution_outcome(
            *fragment,
            old(buffers).inputs@,
            (old(buffers).values@, final(buffers).values@),
            (old(buffers).outputs@, final(buffers).outputs@),
            answer,
        ),
{
    if let Err(e) = fragment.verdict {
        return Err(VmError::InvalidFragment(e));
    }
    let operations: &[PcuDialectOperation] = fragment.operations;
    let needs: VmNeeds = match count_needs(operations) {
        Some(n) => n,
        None => {
            return Err(VmError::ImmediateRequiresProgram);
        },
    };
    if buffers.values.len() < needs.values {
        return Err(
            VmError::ValueStorageTooSmall {
                required: needs.values,
                available: buffers.values.len(),
            },
        );
    }
    if buffers.inputs.len() < needs.inputs {
        return Err(
            VmError::InputStorageTooSmall {
                required: needs.inputs,
                available: buffers.inputs.len(),
            },
        );
    }
    if buffers.outputs.len() < needs.outputs {
        return Err(
            VmError::OutputStorageTooSmall {
                required: needs.outputs,
                available: buffers.outputs.len(),
            },
        );
    }
    let ghost start = VmState {
        values: buffers.values@,
        outputs: buffers.outputs@,
        consumed: 0,
        written: 0,
    };
    let mut input_index: usize = 0;
    let mut output_index: usize = 0;
    let mut at: usize = 0;
    while at < operations.len()
        invariant
            at <= operations@.len(),
            operations@ == fragment.operations@,
            fragment.wf(),
            fragment.verdict is Ok,
            tally(operations@, operations@.len(), VmOperation::Literal) == 0,
            needs.inputs == tally(operations@, operations@.len(), VmOperation::Input),
            needs.outputs == tally(operations@, operations@.len(), VmOperation::Emit),
            needs.values == results_required(operations@, operations@.len()),
            buffers.inputs@ == old(buffers).inputs@,
            buffers.values@.len() == start.values.len() >= needs.values,
            buffers.inputs@.len() >= needs.inputs,
            buffers.outputs@.len() == start.outputs.len() >= needs.outputs,
            input_index == tally(operations@, at as nat, VmOperation::Input),
            output_index == tally(operations@, at as nat, VmOperation::Emit),
            run(start, operations@, at as nat, buffers.inputs@) == (VmState {
                values: buffers.values@,
                outputs: buffers.outputs@,
                consumed: input_index as nat,
                written: output_index as nat,
            }),
        decreases operations@.len() - at,
    {
        let operation: &PcuDialectOperation = &operations[at];
        proof {
            let end = operations@.len();
            lemma_results_required(operations@, end);
            lemma_tally_grows(operations@, (at + 1) as nat, end, VmOperation::Input);
            lemma_tally_grows(operations@, (at + 1) as nat, end, VmOperation::Emit);
            lemma_tally_grows(operations@, (at + 1) as nat, end, VmOperation::Literal);
            assert(operation_conforms(
                operations@[at as int],
                |value: PcuDialectValueId| results_hold(operations@, at as int, value),
            ));
            assert(operation.result is Some ==> (operation.result->0).0 < needs.values);
        }
        match find_operation(operation.name) {
            Some(VmOperation::Input) => {
                if let Some(result) = operation.result {
                    buffers.values[result.0 as usize] = buffers.inputs[input_index];
                    input_index += 1;
                }
            },
            Some(VmOperation::Add) => {
                proof {
                    let i = choose|i: int|
                        0 <= i < at && #[trigger] operations@[i].result == Some(
                            operation.inputs@[0],
                        );
                    let j = choose|j: int|
                        0 <= j < at && #[trigger] operations@[j].result == Some(
                            operation.inputs@[1],
                        );
                    assert(operations@[i].result == Some(operation.inputs@[0]));
                    assert(operations@[j].result == Some(operation.inputs@[1]));
                }
                let lhs: u32 = buffers.values[operation.inputs[0].0 as usize];
                let rhs: u32 = buffers.values[operation.inputs[1].0 as usize];
                if let Some(result) = operation.result {
                    let sum: u32 = lhs.wrapping_add(rhs);
                    assert(sum == wrapped_sum(lhs, rhs));
                    buffers.values[result.0 as usize] = sum;
                }
            },
            Some(VmOperation::Emit) => {
                proof {
                    let i = choose|i: int|
                        0 <= i < at && #[trigger] operations@[i].result == Some(
                            operation.inputs@[0],
                        );
                    assert(operations@[i].result == Some(operation.inputs@[0]));
                }
                buffers.outputs[output_index] = buffers.values[operation.inputs[0].0 as usize];
                output_index += 1;
            },
            _ => {},
        }
        at += 1;
    }
    Ok(
        VmReport {
            inputs_consumed: input_index,
            outputs_written: output_index,
            operations_executed: operations.len(),
        },
    )
}

} // verus!
