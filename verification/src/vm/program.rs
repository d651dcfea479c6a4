//! Execution of programs with named ports and literals.
use vstd::prelude::*;

use super::dialect::{
    find_operation, lemma_results_required, operation_conforms, operation_named, results_hold,
    results_required, wrapped_sum, PcuDialectOperation, PcuDialectValidationError,
    PcuDialectValueId, VmOperation, LITERAL_VALUE,
};
use super::execute::{VmError, VmReport};
use super::names::same_name;

verus! {

/// Named caller input.
#[derive(Debug, Clone, Copy, PartialEq, Eq)]
pub struct VmProgramInput<'a> {
    /// Port name from the program contract.
    pub name: &'a str,
    /// Value bound to the named input port.
    pub value: u32,
}

/// Named caller output slot.
#[derive(Debug, Clone, Copy, PartialEq, Eq)]
pub struct VmProgramOutput<'a> {
    /// Port name from the program contract.
    pub name: &'a str,
    /// Value written by the program.
    pub value: u32,
}

/// Caller-owned buffers for program execution.
#[derive(Debug)]
pub struct VmProgramBuffers<'a> {
    /// Values indexed by local SSA ID, including IDs seeded by input ports.
    pub values: &'a mut [u32],
    /// Host bindings for the named input ports.
    pub inputs: &'a [VmProgramInput<'a>],
    /// Host slots for named output ports.
    pub outputs: &'a mut [VmProgramOutput<'a>],
}

/// A named port and the value it carries.
#[derive(Debug, Clone, Copy, PartialEq, Eq)]
pub struct PcuDialectPort<'a> {
    pub name: &'a str,
    pub value: PcuDialectValueId,
}

/// The typed value of an immediate; the float is known by its bits.
#[derive(Debug, Clone, Copy, PartialEq, Eq, Structural)]
pub enum PcuDialectImmediateValue {
    U32(u32),
    F32(u32),
}

/// A named immediate.
#[derive(Debug, Clone, Copy, PartialEq, Eq)]
pub struct PcuDialectImmediate<'a> {
    pub name: &'a str,
    pub value: PcuDialectImmediateValue,
}

/// The immediates of one operation.
#[derive(Debug, Clone, Copy, PartialEq, Eq)]
pub struct PcuDialectOperationAttributes<'a> {
    pub operation_index: u16,
    pub attributes: &'a [PcuDialectImmediate<'a>],
}

/// A program. `verdict` is what validating it against the program contract gave.
#[derive(Debug, Clone, Copy, PartialEq, Eq)]
pub struct PcuDialectProgram<'a> {
    pub operations: &'a [PcuDialectOperation<'a>],
    pub input_ports: &'a [PcuDialectPort<'a>],
    pub output_ports: &'a [PcuDialectPort<'a>],
    pub operation_attributes: &'a [PcuDialectOperationAttributes<'a>],
    pub verdict: Result<(), PcuDialectValidationError>,
}

/// The place of the first of `count` entries that belongs to an operation.
pub open spec fn attributes_place(
    entries: Seq<PcuDialectOperationAttributes>,
    count: nat,
    operation: int,
) -> Option<int>
    decreases count,
{
    if count == 0 {
        None
    } else {
        match attributes_place(entries, (count - 1) as nat, operation) {
            Some(at) => Some(at),
            None => if entries[count - 1].operation_index == operation {
                Some(count - 1)
            } else {
                None
            },
        }
    }
}

/// The place of the first of `count` immediates with this name.
pub open spec fn immediate_place(
    immediates: Seq<PcuDialectImmediate>,
    count: nat,
    name: Seq<char>,
) -> Option<int>
    decreases count,
{
    if count == 0 {
        None
    } else {
        match immediate_place(immediates, (count - 1) as nat, name) {
            Some(at) => Some(at),
            None => if immediates[count - 1].name@ == name {
                Some(count - 1)
            } else {
                None
            },
        }
    }
}

impl<'a> PcuDialectProgram<'a> {
    /// The value of the literal at `at`.
    pub open spec fn literal(self, at: int) -> Option<u32> {
        let entries = self.operation_attributes@;
        match attributes_place(entries, entries.len(), at) {
            None => None,
            Some(entry) => {
                let immediates = entries[entry].attributes@;
                match immediate_place(immediates, immediates.len(), LITERAL_VALUE@) {
                    None => None,
                    Some(place) => match immediates[place].value {
                        PcuDialectImmediateValue::U32(value) => Some(value),
                        PcuDialectImmediateValue::F32(_) => None,
                    },
                }
            },
        }
    }

    /// `value` is that of an input port or the result of one of the first `at` operations.
    pub open spec fn defines(self, at: int, value: PcuDialectValueId) -> bool {
        results_hold(self.operations@, at, value) || exists|i: int|
            0 <= i < self.input_ports@.len() && #[trigger] self.input_ports@[i].value == value
    }

    /// A program that the validator accepts conforms to the contract: operations read only what is
    /// defined, literals have their value, and output ports carry defined values.
    pub open spec fn wf(self) -> bool {
        self.verdict is Ok ==> {
            &&& forall|i: int|
                0 <= i < self.operations@.len() ==> operation_conforms(
                    #[trigger] self.operations@[i],
                    |value: PcuDialectValueId| self.defines(i, value),
                )
            &&& forall|i: int|
                0 <= i < self.operations@.len() && operation_named(
                    (#[trigger] self.operations@[i]).name@,
                ) == Some(VmOperation::Literal) ==> self.literal(i) is Some
            &&& forall|i: int|
                0 <= i < self.output_ports@.len() ==> self.defines(
                    self.operations@.len() as int,
                    (#[trigger] self.output_ports@[i]).value,
                )
        }
    }
}

/// How many of the first `count` host inputs have this name.
pub open spec fn inputs_named(
    inputs: Seq<VmProgramInput>,
    count: nat,
    name: Seq<char>,
) -> nat
    decreases count,
{
    if count == 0 {
        0
    } else {
        inputs_named(inputs, (count - 1) as nat, name) + if inputs[count - 1].name@ == name {
            1nat
        } else {
            0nat
        }
    }
}

/// How many of the first `count` host slots have this name.
pub open spec fn outputs_named(
    outputs: Seq<VmProgramOutput>,
    count: nat,
    name: Seq<char>,
) -> nat
    decreases count,
{
    if count == 0 {
        0
    } else {
        outputs_named(outputs, (count - 1) as nat, name) + if outputs[count - 1].name@ == name {
            1nat
        } else {
            0nat
        }
    }
}

/// The place of the first of `count` host inputs with this name.
pub open spec fn input_place(
    inputs: Seq<VmProgramInput>,
    count: nat,
    name: Seq<char>,
) -> Option<int>
    decreases count,
{
    if count == 0 {
        None
    } else {
        match input_place(inputs, (count - 1) as nat, name) {
            Some(at) => Some(at),
            None => if inputs[count - 1].name@ == name {
                Some(count - 1)
            } else {
                None
            },
        }
    }
}

/// The place of the first of `count` host slots with this name.
pub open spec fn output_place(
    outputs: Seq<VmProgramOutput>,
    count: nat,
    name: Seq<char>,
) -> Option<int>
    decreases count,
{
    if count == 0 {
        None
    } else {
        match output_place(outputs, (count - 1) as nat, name) {
            Some(at) => Some(at),
            None => if outputs[count - 1].name@ == name {
                Some(count - 1)
            } else {
                None
            },
        }
    }
}

/// The host binds every input port exactly once, and nothing else.
pub open spec fn inputs_bound(program: PcuDialectProgram, inputs: Seq<VmProgramInput>) -> bool {
    &&& inputs.len() == program.input_ports@.len()
    &&& forall|i: int|
        0 <= i < program.input_ports@.len() ==> inputs_named(
            inputs,
            inputs.len(),
            (#[trigger] program.input_ports@[i]).name@,
        ) == 1
}

/// The host has exactly one slot for every output port, and no other.
pub open spec fn outputs_bound(program: PcuDialectProgram, outputs: Seq<VmProgramOutput>) -> bool {
    &&& outputs.len() == program.output_ports@.len()
    &&& forall|i: int|
        0 <= i < program.output_ports@.len() ==> outputs_named(
            outputs,
            outputs.len(),
            (#[trigger] program.output_ports@[i]).name@,
        ) == 1
}

/// How large the value storage has to be for the first `count` ports.
pub open spec fn ports_required(ports: Seq<PcuDialectPort>, count: nat) -> nat
    decreases count,
{
    if count == 0 {
        0
    } else {
        let before = ports_required(ports, (count - 1) as nat);
        if ports[count - 1].value.0 + 1 > before {
            (ports[count - 1].value.0 + 1) as nat
        } else {
            before
        }
    }
}

/// How large the value storage has to be.
pub open spec fn values_required(program: PcuDialectProgram) -> nat {
    let ports = ports_required(program.input_ports@, program.input_ports@.len());
    let results = results_required(program.operations@, program.operations@.len());
    if ports > results {
        ports
    } else {
        results
    }
}

/// Every operation is a literal or an addition.
pub open spec fn evaluable(operations: Seq<PcuDialectOperation>) -> bool {
    forall|i: int|
        0 <= i < operations.len() ==> {
            let operation = operation_named((#[trigger] operations[i]).name@);
            operation == Some(VmOperation::Literal) || operation == Some(VmOperation::Add)
        }
}

/// Why a program is not executed over these buffers.
pub open spec fn program_refusal(
    program: PcuDialectProgram,
    values: nat,
    inputs: Seq<VmProgramInput>,
    outputs: Seq<VmProgramOutput>,
) -> Option<VmError> {
    match program.verdict {
        Err(e) => Some(VmError::InvalidProgram(e)),
        Ok(_) => if !inputs_bound(program, inputs) {
            Some(VmError::InvalidInputBindings)
        } else if !outputs_bound(program, outputs) {
            Some(VmError::InvalidOutputBindings)
        } else if !evaluable(program.operations@) {
            Some(VmError::UnsupportedProgramOperation)
        } else if values < values_required(program) {
            Some(
                VmError::ValueStorageTooSmall {
                    required: values_required(program) as usize,
                    available: values as usize,
                },
            )
        } else {
            None
        },
    }
}

/// The values once the first `count` input ports are seeded.
pub open spec fn seeded_values(
    values: Seq<u32>,
    ports: Seq<PcuDialectPort>,
    inputs: Seq<VmProgramInput>,
    count: nat,
) -> Seq<u32>
    decreases count,
{
    if count == 0 {
        values
    } else {
        let before = seeded_values(values, ports, inputs, (count - 1) as nat);
        match input_place(inputs, inputs.len(), ports[count - 1].name@) {
            Some(at) => before.update(ports[count - 1].value.0 as int, inputs[at].value),
            None => before,
        }
    }
}

/// The values once the first `count` operations have run.
pub open spec fn evaluated_values(
    values: Seq<u32>,
    program: PcuDialectProgram,
    count: nat,
) -> Seq<u32>
    decreases count,
{
    if count == 0 {
        values
    } else {
        let before = evaluated_values(values, program, (count - 1) as nat);
        let operation = program.operations@[count - 1];
        match (operation.result, program.literal(count - 1)) {
            (Some(result), Some(value)) if operation_named(operation.name@) == Some(
                VmOperation::Literal,
            ) => before.update(result.0 as int, value),
            (Some(result), _) => before.update(
                result.0 as int,
                wrapped_sum(
                    before[operation.inputs@[0].0 as int],
                    before[operation.inputs@[1].0 as int],
                ),
            ),
            _ => before,
        }
    }
}

/// The host slots once the first `count` output ports are delivered.
pub open spec fn delivered<'a>(
    outputs: Seq<VmProgramOutput<'a>>,
    ports: Seq<PcuDialectPort>,
    values: Seq<u32>,
    count: nat,
) -> Seq<VmProgramOutput<'a>>
    decreases count,
{
    if count == 0 {
        outputs
    } else {
        let before = delivered(outputs, ports, values, (count - 1) as nat);
        match output_place(outputs, outputs.len(), ports[count - 1].name@) {
            Some(at) => before.update(
                at,
                VmProgramOutput {
                    name: before[at].name,
                    value: values[ports[count - 1].value.0 as int],
                },
            ),
            None => before,
        }
    }
}

/// What executing a program answers, and what it leaves in the buffers.
pub open spec fn program_outcome(
    program: PcuDialectProgram,
    inputs: Seq<VmProgramInput>,
    values: (Seq<u32>, Seq<u32>),
    outputs: (Seq<VmProgramOutput>, Seq<VmProgramOutput>),
    answer: Result<VmReport, VmError>,
) -> bool {
    match program_refusal(program, values.0.len(), inputs, outputs.0) {
        Some(e) => {
            &&& answer == Err::<VmReport, VmError>(e)
            &&& values.1 == values.0
            &&& outputs.1 == outputs.0
        },
        None => {
            let seeded = seeded_values(
                values.0,
                program.input_ports@,
                inputs,
                program.input_ports@.len(),
            );
            &&& answer == Ok::<VmReport, VmError>(
                VmReport {
                    inputs_consumed: program.input_ports@.len() as usize,
                    outputs_written: program.output_ports@.len() as usize,
                    operations_executed: program.operations@.len() as usize,
                },
            )
            &&& values.1 == evaluated_values(seeded, program, program.operations@.len())
            &&& outputs.1 == delivered(
                outputs.0,
                program.output_ports@,
                values.1,
                program.output_ports@.len(),
            )
        },
    }
}

proof fn lemma_ports_required(ports: Seq<PcuDialectPort>, count: nat)
    requires
        count <= ports.len(),
    ensures
        ports_required(ports, count) <= 0x1_0000,
        forall|i: int|
            0 <= i < count ==> (#[trigger] ports[i]).value.0 < ports_required(ports, count),
    decreases count,
{
    if count > 0 {
        lemma_ports_required(ports, (count - 1) as nat);
    }
}

/// A value that the program defines has a place in large enough storage.
proof fn lemma_defined_fits(program: PcuDialectProgram, at: int, value: PcuDialectValueId)
    requires
        0 <= at <= program.operations@.len(),
        program.defines(at, value),
    ensures
        value.0 < values_required(program),
{
    lemma_results_required(program.operations@, program.operations@.len());
    lemma_ports_required(program.input_ports@, program.input_ports@.len());
    if results_hold(program.operations@, at, value) {
        let i = choose|i: int| 0 <= i < at && #[trigger] program.operations@[i].result == Some(value);
        assert(program.operations@[i].result == Some(value));
    } else {
        let i = choose|i: int|
            0 <= i < program.input_ports@.len() && #[trigger] program.input_ports@[i].value
                == value;
        assert(program.input_ports@[i].value == value);
    }
}

proof fn lemma_input_found(inputs: Seq<VmProgramInput>, count: nat, name: Seq<char>)
    requires
        count <= inputs.len(),
    ensures
        inputs_named(inputs, count, name) <= count,
        inputs_named(inputs, count, name) > 0 <==> input_place(inputs, count, name) is Some,
        input_place(inputs, count, name) matches Some(at) ==> 0 <= at < count,
    decreases count,
{
    if count > 0 {
        lemma_input_found(inputs, (count - 1) as nat, name);
    }
}

proof fn lemma_output_found(outputs: Seq<VmProgramOutput>, count: nat, name: Seq<char>)
    requires
        count <= outputs.len(),
    ensures
        outputs_named(outputs, count, name) <= count,
        outputs_named(outputs, count, name) > 0 <==> output_place(outputs, count, name) is Some,
        output_place(outputs, count, name) matches Some(at) ==> 0 <= at < count,
    decreases count,
{
    if count > 0 {
        lemma_output_found(outputs, (count - 1) as nat, name);
    }
}

proof fn lemma_input_place_stays(
    inputs: Seq<VmProgramInput>,
    shorter: nat,
    longer: nat,
    name: Seq<char>,
)
    requires
        shorter <= longer,
        input_place(inputs, shorter, name) is Some,
    ensures
        input_place(inputs, longer, name) == input_place(inputs, shorter, name),
    decreases longer,
{
    if shorter < longer {
        lemma_input_place_stays(inputs, shorter, (longer - 1) as nat, name);
    }
}

proof fn lemma_output_place_stays(
    outputs: Seq<VmProgramOutput>,
    shorter: nat,
    longer: nat,
    name: Seq<char>,
)
    requires
        shorter <= longer,
        output_place(outputs, shorter, name) is Some,
    ensures
        output_place(outputs, longer, name) == output_place(outputs, shorter, name),
    decreases longer,
{
    if shorter < longer {
        lemma_output_place_stays(outputs, shorter, (longer - 1) as nat, name);
    }
}

/// The place of a slot goes by the names alone.
proof fn lemma_output_place_by_names(
    one: Seq<VmProgramOutput>,
    other: Seq<VmProgramOutput>,
    count: nat,
    name: Seq<char>,
)
    requires
        count <= one.len() == other.len(),
        forall|i: int| 0 <= i < one.len() ==> (#[trigger] one[i]).name == other[i].name,
    ensures
        output_place(one, count, name) == output_place(other, count, name),
    decreases count,
{
    if count > 0 {
        lemma_output_place_by_names(one, other, (count - 1) as nat, name);
        assert(one[count - 1].name == other[count - 1].name);
    }
}

proof fn lemma_attributes_place_stays(
    entries: Seq<PcuDialectOperationAttributes>,
    shorter: nat,
    longer: nat,
    operation: int,
)
    requires
        shorter <= longer,
        attributes_place(entries, shorter, operation) is Some,
    ensures
        attributes_place(entries, longer, operation) == attributes_place(
            entries,
            shorter,
            operation,
        ),
    decreases longer,
{
    if shorter < longer {
        lemma_attributes_place_stays(entries, shorter, (longer - 1) as nat, operation);
    }
}

proof fn lemma_immediate_place_stays(
    immediates: Seq<PcuDialectImmediate>,
    shorter: nat,
    longer: nat,
    name: Seq<char>,
)
    requires
        shorter <= longer,
        immediate_place(immediates, shorter, name) is Some,
    ensures
        immediate_place(immediates, longer, name) == immediate_place(immediates, shorter, name),
    decreases longer,
{
    if shorter < longer {
        lemma_immediate_place_stays(immediates, shorter, (longer - 1) as nat, name);
    }
}

/// Counts the host inputs with a name.
fn count_inputs(inputs: &[VmProgramInput], name: &str) -> (count: usize)
    ensures
        count == inputs_named(inputs@, inputs@.len(), name@),
{
    let mut count: usize = 0;
    let mut at: usize = 0;
    while at < inputs.len()
        invariant
            at <= inputs@.len(),
            count == inputs_named(inputs@, at as nat, name@),
        decreases inputs@.len() - at,
    {
        proof {
            lemma_input_found(inputs@, at as nat, name@);
        }
        if same_name(inputs[at].name, name) {
            count += 1;
        }
        at += 1;
    }
    count
}

/// Counts the host slots with a name.
fn count_outputs(outputs: &[VmProgramOutput], name: &str) -> (count: usize)
    ensures
        count == outputs_named(outputs@, outputs@.len(), name@),
{
    let mut count: usize = 0;
    let mut at: usize = 0;
    while at < outputs.len()
        invariant
            at <= outputs@.len(),
            count == outputs_named(outputs@, at as nat, name@),
        decreases outputs@.len() - at,
    {
        proof {
            lemma_output_found(outputs@, at as nat, name@);
        }
        if same_name(outputs[at].name, name) {
            count += 1;
        }
        at += 1;
    }
    count
}

fn are_inputs_bound(program: &PcuDialectProgram, inputs: &[VmProgramInput]) -> (bound: bool)
    ensures
        bound == inputs_bound(*program, inputs@),
{
    if inputs.len() != program.input_ports.len() {
        return false;
    }
    let mut at: usize = 0;
    while at < program.input_ports.len()
        invariant
            at <= program.input_ports@.len() == inputs@.len(),
            forall|i: int|
                0 <= i < at ==> inputs_named(
                    inputs@,
                    inputs@.len(),
                    (#[trigger] program.input_ports@[i]).name@,
                ) == 1,
        decreases program.input_ports@.len() - at,
    {
        if count_inputs(inputs, program.input_ports[at].name) != 1 {
            assert(inputs_named(inputs@, inputs@.len(), program.input_ports@[at as int].name@)
                != 1);
            return false;
        }
        at += 1;
    }
    true
}

fn are_outputs_bound(program: &PcuDialectProgram, outputs: &[VmProgramOutput]) -> (bound: bool)
    ensures
        bound == outputs_bound(*program, outputs@),
{
    if outputs.len() != program.output_ports.len() {
        return false;
    }
    let mut at: usize = 0;
    while at < program.output_ports.len()
        invariant
            at <= program.output_ports@.len() == outputs@.len(),
            forall|i: int|
                0 <= i < at ==> outputs_named(
                    outputs@,
                    outputs@.len(),
                    (#[trigger] program.output_ports@[i]).name@,
                ) == 1,
        decreases program.output_ports@.len() - at,
    {
        if count_outputs(outputs, program.output_ports[at].name) != 1 {
            assert(outputs_named(outputs@, outputs@.len(), program.output_ports@[at as int].name@)
                != 1);
            return false;
        }
        at += 1;
    }
    true
}

/// The size that the value storage needs, if every operation can be evaluated.
fn required_values(program: &PcuDialectProgram) -> (required: Option<usize>)
    ensures
        match required {
            Some(size) => evaluable(program.operations@) && size == values_required(*program),
            None => !evaluable(program.operations@),
        },
{
    let mut ports: usize = 0;
    let mut at: usize = 0;
    while at < program.input_ports.len()
        invariant
            at <= program.input_ports@.len(),
            ports == ports_required(program.input_ports@, at as nat),
        decreases program.input_ports@.len() - at,
    {
        let size: usize = program.input_ports[at].value.0 as usize + 1;
        if size > ports {
            ports = size;
        }
        at += 1;
    }
    let mut results: usize = 0;
    let mut i: usize = 0;
    while i < program.operations.len()
        invariant
            i <= program.operations@.len(),
            results == results_required(program.operations@, i as nat),
            forall|j: int|
                0 <= j < i ==> {
                    let operation = operation_named((#[trigger] program.operations@[j]).name@);
                    operation == Some(VmOperation::Literal) || operation == Some(VmOperation::Add)
                },
        decreases program.operations@.len() - i,
    {
        match find_operation(program.operations[i].name) {
            Some(VmOperation::Literal) | Some(VmOperation::Add) => {},
            _ => {
                let ghost operation = operation_named(program.operations@[i as int].name@);
                assert(!(operation == Some(VmOperation::Literal) || operation == Some(
                    VmOperation::Add,
                )));
                return None;
            },
        }
        if let Some(result) = program.operations[i].result {
            let size: usize = result.0 as usize + 1;
            if size > results {
                results = size;
            }
        }
        i += 1;
    }
    if ports > results {
        Some(ports)
    } else {
        Some(results)
    }
}

/// The value that the host binds to a port.
fn bound_input(inputs: &[VmProgramInput], name: &str) -> (value: u32)
    requires
        inputs_named(inputs@, inputs@.len(), name@) > 0,
    ensures
        input_place(inputs@, inputs@.len(), name@) matches Some(at) && value
            == inputs@[at].value,
{
    proof {
        lemma_input_found(inputs@, inputs@.len(), name@);
    }
    let mut at: usize = 0;
    while at < inputs.len()
        invariant
            at <= inputs@.len(),
            input_place(inputs@, at as nat, name@) is None,
            input_place(inputs@, inputs@.len(), name@) is Some,
        decreases inputs@.len() - at,
    {
        if same_name(inputs[at].name, name) {
            proof {
                lemma_input_place_stays(inputs@, (at + 1) as nat, inputs@.len(), name@);
            }
            return inputs[at].value;
        }
        at += 1;
    }
    0
}

/// The place of the slot with a name.
fn slot_of(outputs: &[VmProgramOutput], name: &str) -> (place: usize)
    requires
        outputs_named(outputs@, outputs@.len(), name@) > 0,
    ensures
        place < outputs@.len(),
        output_place(outputs@, outputs@.len(), name@) == Some(place as int),
{
    proof {
        lemma_output_found(outputs@, outputs@.len(), name@);
    }
    let mut at: usize = 0;
    while at < outputs.len()
        invariant
            at <= outputs@.len(),
            output_place(outputs@, at as nat, name@) is None,
            output_place(outputs@, outputs@.len(), name@) is Some,
        decreases outputs@.len() - at,
    {
        if same_name(outputs[at].name, name) {
            proof {
                lemma_output_place_stays(outputs@, (at + 1) as nat, outputs@.len(), name@);
            }
            return at;
        }
        at += 1;
    }
    0
}

/// The value of the literal at a place.
fn literal_value(program: &PcuDialectProgram, at: usize) -> (value: u32)
    requires
        program.literal(at as int) is Some,
    ensures
        program.literal(at as int) == Some(value),
{
    let entries: &[PcuDialectOperationAttributes] = program.operation_attributes;
    let mut entry: usize = 0;
    while entry < entries.len() && entries[entry].operation_index as usize != at
        invariant
            entry <= entries@.len(),
            entries@ == program.operation_attributes@,
            attributes_place(entries@, entry as nat, at as int) is None,
            program.literal(at as int) is Some,
        decreases entries@.len() - entry,
    {
        entry += 1;
    }
    proof {
        if entry < entries.len() {
            lemma_attributes_place_stays(entries@, (entry + 1) as nat, entries@.len(), at as int);
        }
    }
    let immediates: &[PcuDialectImmediate] = entries[entry].attributes;
    let mut place: usize = 0;
    while place < immediates.len() && !same_name(immediates[place].name, LITERAL_VALUE)
        invariant
            place <= immediates@.len(),
            immediate_place(immediates@, place as nat, LITERAL_VALUE@) is None,
        decreases immediates@.len() - place,
    {
        place += 1;
    }
    proof {
        if place < immediates.len() {
            lemma_immediate_place_stays(
                immediates@,
                (place + 1) as nat,
                immediates@.len(),
                LITERAL_VALUE@,
            );
        }
    }
    match immediates[place].value {
        PcuDialectImmediateValue::U32(value) => value,
        PcuDialectImmediateValue::F32(_) => 0,
    }
}

/// Seeds the values of the input ports.
fn seed_inputs(program: &PcuDialectProgram, buffers: &mut VmProgramBuffers<'_>)
    requires
        inputs_bound(*program, old(buffers).inputs@),
        old(buffers).values@.len() >= values_required(*program),
    ensures
        final(buffers).inputs == old(buffers).inputs,
        final(buffers).outputs@ == old(buffers).outputs@,
        final(buffers).values@.len() == old(buffers).values@.len(),
        final(buffers).values@ == seeded_values(
            old(buffers).values@,
            program.input_ports@,
            old(buffers).inputs@,
            program.input_ports@.len(),
        ),
{
    let ghost values = buffers.values@;
    let mut at: usize = 0;
    while at < program.input_ports.len()
        invariant
            at <= program.input_ports@.len(),
            inputs_bound(*program, buffers.inputs@),
            buffers.inputs == old(buffers).inputs,
            buffers.outputs@ == old(buffers).outputs@,
            buffers.values@.len() == values.len() >= values_required(*program),
            buffers.values@ == seeded_values(
                values,
                program.input_ports@,
                buffers.inputs@,
                at as nat,
            ),
        decreases program.input_ports@.len() - at,
    {
        proof {
            lemma_ports_required(program.input_ports@, program.input_ports@.len());
            assert(inputs_named(
                buffers.inputs@,
                buffers.inputs@.len(),
                program.input_ports@[at as int].name@,
            ) == 1);
        }
        let port: PcuDialectPort = program.input_ports[at];
        let value: u32 = bound_input(buffers.inputs, port.name);
        buffers.values[port.value.0 as usize] = value;
        at += 1;
    }
}

/// Runs the operations.
fn evaluate_operations(program: &PcuDialectProgram, buffers: &mut VmProgramBuffers<'_>)
    requires
        program.wf(),
        program.verdict is Ok,
        evaluable(program.operations@),
        old(buffers).values@.len() >= values_required(*program),
    ensures
        final(buffers).inputs == old(buffers).inputs,
        final(buffers).outputs@ == old(buffers).outputs@,
        final(buffers).values@.len() == old(buffers).values@.len(),
        final(buffers).values@ == evaluated_values(
            old(buffers).values@,
            *program,
            program.operations@.len(),
        ),
{
    let ghost values = buffers.values@;
    let mut at: usize = 0;
    while at < program.operations.len()
        invariant
            at <= program.operations@.len(),
            program.wf(),
            program.verdict is Ok,
            evaluable(program.operations@),
            buffers.inputs == old(buffers).inputs,
            buffers.outputs@ == old(buffers).outputs@,
            buffers.values@.len() == values.len() >= values_required(*program),
            buffers.values@ == evaluated_values(values, *program, at as nat),
        decreases program.operations@.len() - at,
    {
        let operation: &PcuDialectOperation = &program.operations[at];
        proof {
            lemma_results_required(program.operations@, program.operations@.len());
            assert(operation_conforms(
                program.operations@[at as int],
                |value: PcuDialectValueId| program.defines(at as int, value),
            ));
            assert(program.operations@[at as int].result is Some);
        }
        match find_operation(operation.name) {
            Some(VmOperation::Literal) => {
                let value: u32 = literal_value(program, at);
                if let Some(result) = operation.result {
                    buffers.values[result.0 as usize] = value;
                }
            },
            _ => {
                proof {
                    lemma_defined_fits(*program, at as int, operation.inputs@[0]);
                    lemma_defined_fits(*program, at as int, operation.inputs@[1]);
                }
                let lhs: u32 = buffers.values[operation.inputs[0].0 as usize];
                let rhs: u32 = buffers.values[operation.inputs[1].0 as usize];
                if let Some(result) = operation.result {
                    let sum: u32 = lhs.wrapping_add(rhs);
                    assert(sum == wrapped_sum(lhs, rhs));
                    buffers.values[result.0 as usize] = sum;
                }
            },
        }
        at += 1;
    }
}

/// Delivers the values of the output ports.
fn deliver_outputs(program: &PcuDialectProgram, buffers: &mut VmProgramBuffers<'_>)
    requires
        program.wf(),
        program.verdict is Ok,
        outputs_bound(*program, old(buffers).outputs@),
        old(buffers).values@.len() >= values_required(*program),
    ensures
        final(buffers).inputs == old(buffers).inputs,
        final(buffers).values@ == old(buffers).values@,
        final(buffers).outputs@ == delivered(
            old(buffers).outputs@,
            program.output_ports@,
            old(buffers).values@,
            program.output_ports@.len(),
        ),
{
    let ghost outputs = buffers.outputs@;
    let mut at: usize = 0;
    while at < program.output_ports.len()
        invariant
            at <= program.output_ports@.len(),
            program.wf(),
            program.verdict is Ok,
            outputs_bound(*program, outputs),
            buffers.inputs == old(buffers).inputs,
            buffers.values@ == old(buffers).values@,
            buffers.values@.len() >= values_required(*program),
            buffers.outputs@.len() == outputs.len(),
            forall|i: int|
                0 <= i < outputs.len() ==> (#[trigger] buffers.outputs@[i]).name == outputs[i].name,
            buffers.outputs@ == delivered(
                outputs,
                program.output_ports@,
                buffers.values@,
                at as nat,
            ),
        decreases program.output_ports@.len() - at,
    {
        let port: PcuDialectPort = program.output_ports[at];
        proof {
            let all = outputs.len();
            assert(outputs_named(outputs, all, program.output_ports@[at as int].name@) == 1);
            lemma_output_found(outputs, all, port.name@);
            lemma_output_place_by_names(buffers.outputs@, outputs, all, port.name@);
            lemma_output_found(buffers.outputs@, all, port.name@);
            lemma_defined_fits(*program, program.operations@.len() as int, port.value);
        }
        let value: u32 = buffers.values[port.value.0 as usize];
        let slot: usize = slot_of(buffers.outputs, port.name);
        let name = buffers.outputs[slot].name;
        buffers.outputs[slot] = VmProgramOutput { name, value };
        at += 1;
    }
}

/// Validates and executes a named-port program with literal and wrapping-add semantics.
///
/// Host binding slices must contain exactly the names declared by the program's ports. The
/// `literal.u32` operation reads its typed `value: u32` immediate. All contract and capacity checks
/// happen before caller buffers are changed.
///
/// # Errors
///
/// A `VmError` when the program, host bindings, operation set, or value capacity is invalid.
pub fn execute_program(program: &PcuDialectProgram<'_>, buffers: &mut VmProgramBuffers<'_>) -> (answer:
    Result<VmReport, VmError>)
    requires
        program.wf(),
    ensures
        final(buffers).inputs@ == old(buffers).inputs@,
        program_outcome(
            *program,
            old(buffers).inputs@,
            (old(buffers).values@, final(buffers).values@),
            (old(buffers).outputs@, final(buffers).outputs@),
            answer,
        ),
{
    if let Err(e) = program.verdict {
        return Err(VmError::InvalidProgram(e));
    }
    if !are_inputs_bound(program, buffers.inputs) {
        return Err(VmError::InvalidInputBindings);
    }
    if !are_outputs_bound(program, buffers.outputs) {
        return Err(VmError::InvalidOutputBindings);
    }
    let required: usize = match required_values(program) {
        Some(size) => size,
        None => {
            return Err(VmError::UnsupportedProgramOperation);
        },
    };
    if buffers.values.len() < required {
        return Err(
            VmError::ValueStorageTooSmall { required, available: buffers.values.len() },
        );
    }
    seed_inputs(program, buffers);
    evaluate_operations(program, buffers);
    deliver_outputs(program, buffers);
    Ok(
        VmReport {
            inputs_consumed: program.input_ports.len(),
            outputs_written: program.output_ports.len(),
            operations_executed: program.operations.len(),
        },
    )
}

} // verus!
