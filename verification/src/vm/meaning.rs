//! What executed fragments and programs compute, as equations between what went in, what the
//! values hold and what came out.
use vstd::prelude::*;

use super::dialect::{
    lemma_results_required, operation_conforms, operation_named, results_hold, results_required,
    PcuDialectFragment, PcuDialectOperation, PcuDialectValueId, VmOperation,
};
use super::execute::{execution_outcome, run, tally, VmError, VmReport, VmState};
use super::program::{
    attributes_place, delivered, evaluated_values, immediate_place, input_place, inputs_named,
    output_place, outputs_named, program_outcome, seeded_values, values_required,
    PcuDialectImmediateValue, PcuDialectPort, PcuDialectProgram, VmProgramInput, VmProgramOutput,
};

verus! {

/// How many of the first `at` operations have this name.
pub open spec fn ahead(operations: Seq<PcuDialectOperation>, at: int, name: Seq<char>) -> nat {
    operations.take(at).filter(|operation: PcuDialectOperation| operation.name@ == name).len()
}

/// No value is defined twice.
pub open spec fn single_assignment(operations: Seq<PcuDialectOperation>) -> bool {
    forall|i: int, j: int|
        0 <= i < j < operations.len() && (#[trigger] operations[i]).result is Some && (
        #[trigger] operations[j]).result is Some ==> operations[i].result != operations[j].result
}

/// The value of this name once everything has run.
pub open spec fn held(values: Seq<u32>, id: PcuDialectValueId) -> int {
    values[id.0 as int] as int
}

/// What the operation at `at` says of the inputs, the values and the outputs: a sum holds the sum
/// of its operands modulo two to the 32nd, the `n`th input the `n`th number that was put in, and
/// the `n`th number that comes out is the operand of the `n`th emission.
pub open spec fn equation_holds(
    operations: Seq<PcuDialectOperation>,
    at: int,
    inputs: Seq<u32>,
    values: Seq<u32>,
    outputs: Seq<u32>,
) -> bool {
    let operation = operations[at];
    let operands = operation.inputs@;
    &&& operation.name@ == "add.u32"@ ==> (operation.result matches Some(result) && held(
        values,
        result,
    ) == (held(values, operands[0]) + held(values, operands[1])) % 0x1_0000_0000)
    &&& operation.name@ == "input.u32"@ ==> (operation.result matches Some(result) && held(
        values,
        result,
    ) == inputs[ahead(operations, at, "input.u32"@) as int])
    &&& operation.name@ == "emit.u32"@ ==> outputs[ahead(operations, at, "emit.u32"@) as int]
        == held(values, operands[0])
}

/// The names, as the machine tells them apart.
proof fn lemma_names()
    ensures
        operation_named("input.u32"@) == Some(VmOperation::Input),
        operation_named("emit.u32"@) == Some(VmOperation::Emit),
        operation_named("add.u32"@) == Some(VmOperation::Add),
        operation_named("literal.u32"@) == Some(VmOperation::Literal),
        forall|name: Seq<char>| #[trigger]
            operation_named(name) == Some(VmOperation::Input) ==> name == "input.u32"@,
        forall|name: Seq<char>| #[trigger]
            operation_named(name) == Some(VmOperation::Emit) ==> name == "emit.u32"@,
        forall|name: Seq<char>| #[trigger]
            operation_named(name) == Some(VmOperation::Add) ==> name == "add.u32"@,
        forall|name: Seq<char>| #[trigger]
            operation_named(name) == Some(VmOperation::Literal) ==> name == "literal.u32"@,
{
    reveal_strlit("input.u32");
    reveal_strlit("emit.u32");
    reveal_strlit("add.u32");
    reveal_strlit("literal.u32");
    assert("input.u32"@.len() == 9 && "emit.u32"@.len() == 8 && "add.u32"@.len() == 7
        && "literal.u32"@.len() == 11);
}

/// Counting by name is counting by kind.
proof fn lemma_ahead(
    operations: Seq<PcuDialectOperation>,
    at: int,
    name: Seq<char>,
    kind: VmOperation,
)
    requires
        0 <= at <= operations.len(),
        forall|other: Seq<char>| #[trigger]
            operation_named(other) == Some(kind) <==> other == name,
    ensures
        ahead(operations, at, name) == tally(operations, at as nat, kind),
    decreases at,
{
    let chosen = |operation: PcuDialectOperation| operation.name@ == name;
    if at == 0 {
        assert(operations.take(0) =~= Seq::empty());
        reveal(Seq::filter);
    } else {
        lemma_ahead(operations, at - 1, name, kind);
        let all = operations.take(at);
        assert(all.drop_last() =~= operations.take(at - 1));
        assert(all.last() == operations[at - 1]);
        reveal(Seq::filter);
        assert(operation_named(operations[at - 1].name@) == Some(kind) <==> operations[at
            - 1].name@ == name);
    }
}

/// The name of each kind is its own.
proof fn lemma_counts(operations: Seq<PcuDialectOperation>, at: int)
    requires
        0 <= at <= operations.len(),
    ensures
        ahead(operations, at, "input.u32"@) == tally(operations, at as nat, VmOperation::Input),
        ahead(operations, at, "emit.u32"@) == tally(operations, at as nat, VmOperation::Emit),
        ahead(operations, at, "literal.u32"@) == tally(operations, at as nat, VmOperation::Literal),
{
    lemma_names();
    lemma_ahead(operations, at, "input.u32"@, VmOperation::Input);
    lemma_ahead(operations, at, "emit.u32"@, VmOperation::Emit);
    lemma_ahead(operations, at, "literal.u32"@, VmOperation::Literal);
}

proof fn lemma_tally_monotone(
    operations: Seq<PcuDialectOperation>,
    shorter: nat,
    longer: nat,
    kind: VmOperation,
)
    requires
        shorter <= longer,
    ensures
        tally(operations, shorter, kind) <= tally(operations, longer, kind),
    decreases longer,
{
    if shorter < longer {
        lemma_tally_monotone(operations, shorter, (longer - 1) as nat, kind);
    }
}

/// After the first `count` operations their equations hold, and nothing else has changed.
proof fn lemma_solved(
    fragment: PcuDialectFragment,
    start: VmState,
    count: nat,
    inputs: Seq<u32>,
)
    requires
        fragment.wf(),
        fragment.verdict is Ok,
        count <= fragment.operations@.len(),
        single_assignment(fragment.operations@),
        start.consumed == 0,
        start.written == 0,
        start.values.len() >= results_required(
            fragment.operations@,
            fragment.operations@.len(),
        ),
        start.outputs.len() >= tally(
            fragment.operations@,
            fragment.operations@.len(),
            VmOperation::Emit,
        ),
        tally(fragment.operations@, fragment.operations@.len(), VmOperation::Literal) == 0,
    ensures
        ({
            let operations = fragment.operations@;
            let end = run(start, operations, count, inputs);
            &&& end.values.len() == start.values.len()
            &&& end.outputs.len() == start.outputs.len()
            &&& end.consumed == tally(operations, count, VmOperation::Input)
            &&& end.written == tally(operations, count, VmOperation::Emit)
            &&& forall|i: int|
                0 <= i < count ==> #[trigger] equation_holds(
                    operations,
                    i,
                    inputs,
                    end.values,
                    end.outputs,
                )
            &&& forall|id: PcuDialectValueId|
                #![trigger end.values[id.0 as int]]
                id.0 < start.values.len() && !results_hold(operations, count as int, id)
                    ==> end.values[id.0 as int] == start.values[id.0 as int]
            &&& forall|j: int|
                end.written <= j < start.outputs.len() ==> #[trigger] end.outputs[j]
                    == start.outputs[j]
        }),
    decreases count,
{
    let operations = fragment.operations@;
    let end = run(start, operations, count, inputs);
    if count > 0 {
        let at = count - 1;
        lemma_solved(fragment, start, at as nat, inputs);
        let before = run(start, operations, at as nat, inputs);
        let operation = operations[at];
        lemma_names();
        lemma_results_required(operations, operations.len());
        lemma_tally_monotone(operations, count, operations.len(), VmOperation::Emit);
        lemma_tally_monotone(operations, count, operations.len(), VmOperation::Literal);
        assert(operation_conforms(
            operations[at],
            |value: PcuDialectValueId| results_hold(operations, at, value),
        ));
        assert(operations[at].result is Some ==> (operations[at].result->0).0
            < start.values.len());
        assert forall|id: PcuDialectValueId| #[trigger]
            results_hold(operations, at, id) implies end.values[id.0 as int]
            == before.values[id.0 as int] by {
            let j = choose|j: int| 0 <= j < at && #[trigger] operations[j].result == Some(id);
            assert(operations[j].result == Some(id));
            assert(operations[j].result is Some);
            if operation.result is Some {
                assert(operations[j].result != operations[at].result);
            }
        }
        assert forall|i: int| 0 <= i < count implies #[trigger] equation_holds(
            operations,
            i,
            inputs,
            end.values,
            end.outputs,
        ) by {
            lemma_counts(operations, i);
            assert(operation_conforms(
                operations[i],
                |value: PcuDialectValueId| results_hold(operations, i, value),
            ));
            if i < at {
                assert(equation_holds(operations, i, inputs, before.values, before.outputs));
                lemma_earlier(operations, i, at);
                lemma_tally_monotone(operations, (i + 1) as nat, at as nat, VmOperation::Emit);
            } else {
                lemma_tally_monotone(operations, i as nat, count, VmOperation::Emit);
            }
        }
        assert forall|id: PcuDialectValueId|
            #![trigger end.values[id.0 as int]]
            id.0 < start.values.len() && !results_hold(operations, count as int, id) implies
            end.values[id.0 as int] == start.values[id.0 as int] by {
            if results_hold(operations, at, id) {
                let j = choose|j: int| 0 <= j < at && #[trigger] operations[j].result == Some(id);
                assert(operations[j].result == Some(id));
                assert(results_hold(operations, count as int, id));
            }
            if let Some(result) = operations[at].result {
                if result.0 == id.0 {
                    assert(result == id);
                    assert(operations[at].result == Some(id));
                    assert(results_hold(operations, count as int, id));
                }
            }
            assert(before.values[id.0 as int] == start.values[id.0 as int]);
        }
    }
}

/// What an operation reads and defines has been defined by the time a later one runs.
proof fn lemma_earlier(operations: Seq<PcuDialectOperation>, i: int, at: int)
    requires
        0 <= i < at <= operations.len(),
    ensures
        operations[i].result matches Some(result) ==> results_hold(operations, at, result),
        forall|id: PcuDialectValueId| #[trigger]
            results_hold(operations, i, id) ==> results_hold(operations, at, id),
{
    if let Some(result) = operations[i].result {
        assert(operations[i].result == Some(result));
    }
    assert forall|id: PcuDialectValueId| #[trigger] results_hold(operations, i, id) implies
        results_hold(operations, at, id) by {
        let j = choose|j: int| 0 <= j < i && #[trigger] operations[j].result == Some(id);
        assert(operations[j].result == Some(id));
    }
}

/// A fragment that was executed has solved the equations of its operations: every sum is the sum
/// modulo two to the 32nd of the values that it adds, every input is the next number put in, and
/// every emission puts the value that it names out next. Nothing but the results of operations and
/// the emitted places has changed.
pub proof fn law_fragments_solve_their_equations(
    fragment: PcuDialectFragment,
    inputs: Seq<u32>,
    values: (Seq<u32>, Seq<u32>),
    outputs: (Seq<u32>, Seq<u32>),
    answer: Result<VmReport, VmError>,
)
    requires
        fragment.wf(),
        fragment.operations@.len() <= usize::MAX,
        single_assignment(fragment.operations@),
        execution_outcome(fragment, inputs, values, outputs, answer),
        answer is Ok,
    ensures
        values.1.len() == values.0.len(),
        outputs.1.len() == outputs.0.len(),
        forall|i: int|
            0 <= i < fragment.operations@.len() ==> #[trigger] equation_holds(
                fragment.operations@,
                i,
                inputs,
                values.1,
                outputs.1,
            ),
        forall|id: PcuDialectValueId|
            #![trigger values.1[id.0 as int]]
            id.0 < values.0.len() && (forall|i: int|
                0 <= i < fragment.operations@.len() ==> (
                #[trigger] fragment.operations@[i]).result != Some(id)) ==> values.1[id.0 as int]
                == values.0[id.0 as int],
        forall|j: int|
            ahead(fragment.operations@, fragment.operations@.len() as int, "emit.u32"@) <= j
                < outputs.0.len() ==> #[trigger] outputs.1[j] == outputs.0[j],
        answer->Ok_0.inputs_consumed == ahead(
            fragment.operations@,
            fragment.operations@.len() as int,
            "input.u32"@,
        ),
        answer->Ok_0.outputs_written == ahead(
            fragment.operations@,
            fragment.operations@.len() as int,
            "emit.u32"@,
        ),
        answer->Ok_0.operations_executed == fragment.operations@.len(),
{
    let operations = fragment.operations@;
    let count = operations.len();
    let start = VmState { values: values.0, outputs: outputs.0, consumed: 0, written: 0 };
    lemma_solved(fragment, start, count, inputs);
    lemma_counts(operations, count as int);
    lemma_tally_bound(operations, count, VmOperation::Input);
    lemma_tally_bound(operations, count, VmOperation::Emit);
    assert forall|id: PcuDialectValueId|
        #![trigger values.1[id.0 as int]]
        id.0 < values.0.len() && (forall|i: int|
            0 <= i < operations.len() ==> (#[trigger] operations[i]).result != Some(
                id,
            )) implies values.1[id.0 as int] == values.0[id.0 as int] by {
        assert(!results_hold(operations, count as int, id));
    }
}

proof fn lemma_tally_bound(operations: Seq<PcuDialectOperation>, count: nat, kind: VmOperation)
    ensures
        tally(operations, count, kind) <= count,
    decreases count,
{
    if count > 0 {
        lemma_tally_bound(operations, (count - 1) as nat, kind);
    }
}

/// A fragment is executed exactly where it was validated, holds no literal, every result has a
/// place, and there are enough inputs and output places. Where it is not, nothing changes.
pub proof fn law_fragments_run_exactly_where_they_fit(
    fragment: PcuDialectFragment,
    inputs: Seq<u32>,
    values: (Seq<u32>, Seq<u32>),
    outputs: (Seq<u32>, Seq<u32>),
    answer: Result<VmReport, VmError>,
)
    requires
        execution_outcome(fragment, inputs, values, outputs, answer),
    ensures
        ({
            let operations = fragment.operations@;
            let all = operations.len() as int;
            &&& answer is Ok <==> {
                &&& fragment.verdict is Ok
                &&& forall|i: int|
                    0 <= i < all ==> (#[trigger] operations[i]).name@ != "literal.u32"@
                &&& forall|i: int|
                    0 <= i < all ==> ((#[trigger] operations[i]).result matches Some(result)
                        ==> result.0 < values.0.len())
                &&& ahead(operations, all, "input.u32"@) <= inputs.len()
                &&& ahead(operations, all, "emit.u32"@) <= outputs.0.len()
            }
            &&& answer is Err ==> values.1 == values.0 && outputs.1 == outputs.0
        }),
{
    let operations = fragment.operations@;
    let all = operations.len();
    lemma_names();
    lemma_counts(operations, all as int);
    lemma_results_required(operations, all);
    if forall|i: int|
        0 <= i < all ==> ((#[trigger] operations[i]).result matches Some(result) ==> result.0
            < values.0.len()) {
        lemma_results_attained(operations, all, values.0.len());
    } else {
        let i = choose|i: int|
            0 <= i < all && !((#[trigger] operations[i]).result matches Some(result) ==> result.0
                < values.0.len());
        assert(operations[i].result is Some);
    }
    lemma_none_named(operations, all);
}

/// Storage has to be as large as the largest result asks for, and no larger.
proof fn lemma_results_attained(operations: Seq<PcuDialectOperation>, count: nat, size: nat)
    requires
        count <= operations.len(),
        forall|i: int|
            0 <= i < count ==> ((#[trigger] operations[i]).result matches Some(result)
                ==> result.0 < size),
    ensures
        results_required(operations, count) <= size,
    decreases count,
{
    if count > 0 {
        lemma_results_attained(operations, (count - 1) as nat, size);
        assert(operations[count - 1].result matches Some(result) ==> result.0 < size);
    }
}

/// There is no literal where none is counted.
proof fn lemma_none_named(operations: Seq<PcuDialectOperation>, count: nat)
    requires
        count <= operations.len(),
    ensures
        tally(operations, count, VmOperation::Literal) == 0 <==> forall|i: int|
            0 <= i < count ==> (#[trigger] operations[i]).name@ != "literal.u32"@,
    decreases count,
{
    lemma_names();
    if count > 0 {
        lemma_none_named(operations, (count - 1) as nat);
        let last = operations[count - 1];
        if tally(operations, count, VmOperation::Literal) == 0 {
            assert forall|i: int| 0 <= i < count implies (#[trigger] operations[i]).name@
                != "literal.u32"@ by {}
        }
    }
}

/// No value is defined twice, neither by operations nor by input ports.
pub open spec fn program_single_assignment(program: PcuDialectProgram) -> bool {
    &&& single_assignment(program.operations@)
    &&& forall|i: int, j: int|
        0 <= i < j < program.input_ports@.len() ==> (#[trigger] program.input_ports@[i]).value.0
            != (#[trigger] program.input_ports@[j]).value.0
    &&& forall|i: int, j: int|
        0 <= i < program.input_ports@.len() && 0 <= j < program.operations@.len() ==> ((
        #[trigger] program.operations@[j]).result matches Some(result) ==> result.0 != (
        #[trigger] program.input_ports@[i]).value.0)
}

/// The operation at `at` carries this number as its immediate: the first entry for the operation
/// has it under the name, and no earlier immediate of the entry has the name.
pub open spec fn carries(program: PcuDialectProgram, at: int, number: u32) -> bool {
    let entries = program.operation_attributes@;
    exists|e: int, g: int|
        #![trigger entries[e].attributes@[g]]
        {
            &&& 0 <= e < entries.len()
            &&& entries[e].operation_index == at
            &&& forall|d: int| 0 <= d < e ==> (#[trigger] entries[d]).operation_index != at
            &&& 0 <= g < entries[e].attributes@.len()
            &&& entries[e].attributes@[g].name@ == "value"@
            &&& entries[e].attributes@[g].value == PcuDialectImmediateValue::U32(number)
            &&& forall|f: int|
                0 <= f < g ==> (#[trigger] entries[e].attributes@[f]).name@ != "value"@
        }
}

/// What the operation at `at` says of the values: a sum holds the sum of its operands modulo two to
/// the 32nd, and a literal the number that it carries.
pub open spec fn program_equation_holds(
    program: PcuDialectProgram,
    at: int,
    values: Seq<u32>,
) -> bool {
    let operation = program.operations@[at];
    let operands = operation.inputs@;
    &&& operation.name@ == "add.u32"@ ==> (operation.result matches Some(result) && held(
        values,
        result,
    ) == (held(values, operands[0]) + held(values, operands[1])) % 0x1_0000_0000)
    &&& operation.name@ == "literal.u32"@ ==> (operation.result matches Some(result) && carries(
        program,
        at,
        values[result.0 as int],
    ))
}

/// The place that is found is that of the only input with the name.
proof fn lemma_only_input(inputs: Seq<VmProgramInput>, count: nat, name: Seq<char>, at: int)
    requires
        count <= inputs.len(),
        inputs_named(inputs, count, name) <= 1,
        0 <= at < count,
        inputs[at].name@ == name,
    ensures
        inputs_named(inputs, count, name) == 1,
        input_place(inputs, count, name) == Some(at),
    decreases count,
{
    if at < count - 1 {
        lemma_only_input(inputs, (count - 1) as nat, name, at);
    } else {
        lemma_no_input(inputs, (count - 1) as nat, name);
    }
}

proof fn lemma_no_input(inputs: Seq<VmProgramInput>, count: nat, name: Seq<char>)
    requires
        count <= inputs.len(),
    ensures
        inputs_named(inputs, count, name) == 0 <==> input_place(inputs, count, name) is None,
        input_place(inputs, count, name) matches Some(at) ==> 0 <= at < count && inputs[at].name@
            == name,
    decreases count,
{
    if count > 0 {
        lemma_no_input(inputs, (count - 1) as nat, name);
    }
}

/// The place that is found is that of the only slot with the name.
proof fn lemma_only_output(outputs: Seq<VmProgramOutput>, count: nat, name: Seq<char>, at: int)
    requires
        count <= outputs.len(),
        outputs_named(outputs, count, name) <= 1,
        0 <= at < count,
        outputs[at].name@ == name,
    ensures
        outputs_named(outputs, count, name) == 1,
        output_place(outputs, count, name) == Some(at),
    decreases count,
{
    if at < count - 1 {
        lemma_only_output(outputs, (count - 1) as nat, name, at);
    } else {
        lemma_no_output(outputs, (count - 1) as nat, name);
    }
}

proof fn lemma_no_output(outputs: Seq<VmProgramOutput>, count: nat, name: Seq<char>)
    requires
        count <= outputs.len(),
    ensures
        outputs_named(outputs, count, name) == 0 <==> output_place(outputs, count, name) is None,
        output_place(outputs, count, name) matches Some(at) ==> 0 <= at < count
            && outputs[at].name@ == name,
    decreases count,
{
    if count > 0 {
        lemma_no_output(outputs, (count - 1) as nat, name);
    }
}

/// Seeding puts what the host binds to a port into the port's value, and changes nothing else.
proof fn lemma_seeded(
    program: PcuDialectProgram,
    values: Seq<u32>,
    inputs: Seq<VmProgramInput>,
    count: nat,
)
    requires
        count <= program.input_ports@.len(),
        program_single_assignment(program),
        values.len() >= values_required(program),
        forall|p: int|
            0 <= p < program.input_ports@.len() ==> inputs_named(
                inputs,
                inputs.len(),
                (#[trigger] program.input_ports@[p]).name@,
            ) == 1,
    ensures
        ({
            let now = seeded_values(values, program.input_ports@, inputs, count);
            &&& now.len() == values.len()
            &&& forall|p: int, q: int|
                0 <= p < count && 0 <= q < inputs.len() && (#[trigger] inputs[q]).name@ == (
                #[trigger] program.input_ports@[p]).name@
                    ==> now[program.input_ports@[p].value.0 as int] == inputs[q].value
            &&& forall|id: PcuDialectValueId|
                #![trigger now[id.0 as int]]
                id.0 < values.len() && (forall|p: int|
                    0 <= p < count ==> (#[trigger] program.input_ports@[p]).value != id)
                    ==> now[id.0 as int] == values[id.0 as int]
        }),
    decreases count,
{
    let ports = program.input_ports@;
    if count > 0 {
        lemma_seeded(program, values, inputs, (count - 1) as nat);
        let before = seeded_values(values, ports, inputs, (count - 1) as nat);
        let now = seeded_values(values, ports, inputs, count);
        let port = ports[count - 1];
        lemma_ports_fit(program, count - 1);
        lemma_no_input(inputs, inputs.len(), port.name@);
        assert forall|p: int, q: int|
            0 <= p < count && 0 <= q < inputs.len() && (#[trigger] inputs[q]).name@ == (
            #[trigger] ports[p]).name@ implies now[ports[p].value.0 as int] == inputs[q].value by {
            lemma_only_input(inputs, inputs.len(), ports[p].name@, q);
            lemma_ports_fit(program, p);
            if p < count - 1 {
                assert(ports[p].value.0 != ports[count - 1].value.0);
                assert(before[ports[p].value.0 as int] == inputs[q].value);
            }
        }
        assert forall|id: PcuDialectValueId|
            #![trigger now[id.0 as int]]
            id.0 < values.len() && (forall|p: int|
                0 <= p < count ==> (#[trigger] ports[p]).value != id) implies now[id.0
            as int] == values[id.0 as int] by {
            if ports[count - 1].value.0 == id.0 {
                assert(ports[count - 1].value == id);
            }
            assert(before[id.0 as int] == values[id.0 as int]);
        }
    }
}

/// Every port has a place.
proof fn lemma_ports_fit(program: PcuDialectProgram, p: int)
    requires
        0 <= p < program.input_ports@.len(),
    ensures
        program.input_ports@[p].value.0 < values_required(program),
{
    lemma_ports_required(program.input_ports@, program.input_ports@.len(), p);
}

proof fn lemma_ports_required(ports: Seq<PcuDialectPort>, count: nat, p: int)
    requires
        0 <= p < count <= ports.len(),
    ensures
        ports[p].value.0 < super::program::ports_required(ports, count),
    decreases count,
{
    if p < count - 1 {
        lemma_ports_required(ports, (count - 1) as nat, p);
    }
}

/// The number that a literal stands for is the one that its operation carries.
proof fn lemma_literal(program: PcuDialectProgram, at: int)
    requires
        program.literal(at) is Some,
    ensures
        carries(program, at, program.literal(at)->Some_0),
{
    let entries = program.operation_attributes@;
    let e = attributes_place(entries, entries.len(), at)->Some_0;
    lemma_first_entry(entries, entries.len(), at);
    let immediates = entries[e].attributes@;
    lemma_first_immediate(immediates, immediates.len());
    let g = immediate_place(immediates, immediates.len(), super::dialect::LITERAL_VALUE@)->Some_0;
    assert(entries[e].attributes@[g].value is U32);
}

proof fn lemma_first_entry(
    entries: Seq<super::program::PcuDialectOperationAttributes>,
    count: nat,
    at: int,
)
    requires
        count <= entries.len(),
    ensures
        match attributes_place(entries, count, at) {
            Some(e) => 0 <= e < count && entries[e].operation_index == at && forall|d: int|
                0 <= d < e ==> (#[trigger] entries[d]).operation_index != at,
            None => forall|d: int| 0 <= d < count ==> (#[trigger] entries[d]).operation_index != at,
        },
    decreases count,
{
    if count > 0 {
        lemma_first_entry(entries, (count - 1) as nat, at);
    }
}

proof fn lemma_first_immediate(
    immediates: Seq<super::program::PcuDialectImmediate>,
    count: nat,
)
    requires
        count <= immediates.len(),
    ensures
        match immediate_place(immediates, count, super::dialect::LITERAL_VALUE@) {
            Some(g) => 0 <= g < count && immediates[g].name@ == "value"@ && forall|f: int|
                0 <= f < g ==> (#[trigger] immediates[f]).name@ != "value"@,
            None => forall|f: int| 0 <= f < count ==> (#[trigger] immediates[f]).name@ != "value"@,
        },
    decreases count,
{
    if count > 0 {
        lemma_first_immediate(immediates, (count - 1) as nat);
    }
}

/// After the first `count` operations of a program their equations hold, and nothing else has
/// changed.
proof fn lemma_evaluated(program: PcuDialectProgram, values: Seq<u32>, count: nat)
    requires
        program.wf(),
        program.verdict is Ok,
        super::program::evaluable(program.operations@),
        program_single_assignment(program),
        count <= program.operations@.len(),
        values.len() >= values_required(program),
    ensures
        ({
            let now = evaluated_values(values, program, count);
            &&& now.len() == values.len()
            &&& forall|i: int|
                0 <= i < count ==> #[trigger] program_equation_holds(program, i, now)
            &&& forall|id: PcuDialectValueId|
                #![trigger now[id.0 as int]]
                id.0 < values.len() && !results_hold(program.operations@, count as int, id)
                    ==> now[id.0 as int] == values[id.0 as int]
        }),
    decreases count,
{
    let operations = program.operations@;
    let now = evaluated_values(values, program, count);
    if count > 0 {
        let at = count - 1;
        lemma_evaluated(program, values, at as nat);
        let before = evaluated_values(values, program, at as nat);
        let operation = operations[at];
        lemma_names();
        lemma_results_required(operations, operations.len());
        assert(operation_conforms(
            operations[at],
            |value: PcuDialectValueId| program.defines(at, value),
        ));
        assert(operations[at].result is Some);
        let result = operations[at].result->0;
        assert forall|id: PcuDialectValueId| #[trigger] program.defines(at, id) implies id.0
            < values.len() && id.0 != result.0 && now[id.0 as int] == before[id.0 as int] by {
            if results_hold(operations, at, id) {
                let j = choose|j: int| 0 <= j < at && #[trigger] operations[j].result == Some(id);
                assert(operations[j].result == Some(id));
                assert(operations[j].result is Some && operations[j].result
                    != operations[at].result);
                if id.0 == result.0 {
                    assert(id == result);
                }
            } else {
                let p = choose|p: int|
                    0 <= p < program.input_ports@.len() && #[trigger] program.input_ports@[p].value
                        == id;
                lemma_ports_fit(program, p);
                assert(program.input_ports@[p].value.0 == id.0);
            }
        }
        assert forall|i: int| 0 <= i < count implies #[trigger] program_equation_holds(
            program,
            i,
            now,
        ) by {
            assert(operation_conforms(
                operations[i],
                |value: PcuDialectValueId| program.defines(i, value),
            ));
            if i < at {
                assert(program_equation_holds(program, i, before));
                lemma_earlier(operations, i, at);
                if operation_named(operations[i].name@) == Some(VmOperation::Add) {
                    lemma_defined_earlier(program, i, at, operations[i].inputs@[0]);
                    lemma_defined_earlier(program, i, at, operations[i].inputs@[1]);
                }
                assert(operations[i].result is Some);
                assert(program.defines(at, operations[i].result->0));
            } else if operation_named(operation.name@) == Some(VmOperation::Literal) {
                assert(program.literal(at) is Some);
                lemma_literal(program, at);
            }
        }
        assert forall|id: PcuDialectValueId|
            #![trigger now[id.0 as int]]
            id.0 < values.len() && !results_hold(operations, count as int, id) implies now[id.0
            as int] == values[id.0 as int] by {
            if results_hold(operations, at, id) {
                let j = choose|j: int| 0 <= j < at && #[trigger] operations[j].result == Some(id);
                assert(operations[j].result == Some(id));
                assert(results_hold(operations, count as int, id));
            }
            if result.0 == id.0 {
                assert(result == id);
                assert(operations[at].result == Some(id));
                assert(results_hold(operations, count as int, id));
            }
            assert(before[id.0 as int] == values[id.0 as int]);
        }
    }
}

proof fn lemma_defined_earlier(
    program: PcuDialectProgram,
    i: int,
    at: int,
    id: PcuDialectValueId,
)
    requires
        0 <= i <= at,
        program.defines(i, id),
    ensures
        program.defines(at, id),
{
    if results_hold(program.operations@, i, id) {
        let j = choose|j: int| 0 <= j < i && #[trigger] program.operations@[j].result == Some(id);
        assert(program.operations@[j].result == Some(id));
    }
}

/// Delivering puts the value of a port into the slot with its name, and keeps the names.
proof fn lemma_delivered(
    program: PcuDialectProgram,
    outputs: Seq<VmProgramOutput>,
    values: Seq<u32>,
    count: nat,
)
    requires
        count <= program.output_ports@.len(),
        forall|p: int, q: int|
            0 <= p < q < program.output_ports@.len() ==> (
            #[trigger] program.output_ports@[p]).name@ != (#[trigger] program.output_ports@[q]).name@,
        forall|p: int|
            0 <= p < program.output_ports@.len() ==> outputs_named(
                outputs,
                outputs.len(),
                (#[trigger] program.output_ports@[p]).name@,
            ) == 1,
    ensures
        ({
            let now = delivered(outputs, program.output_ports@, values, count);
            &&& now.len() == outputs.len()
            &&& forall|q: int|
                0 <= q < outputs.len() ==> (#[trigger] now[q]).name == outputs[q].name
            &&& forall|p: int, q: int|
                #![trigger program.output_ports@[p], now[q]]
                0 <= p < count && 0 <= q < outputs.len() && outputs[q].name@
                    == program.output_ports@[p].name@ ==> now[q].value == held(
                    values,
                    program.output_ports@[p].value,
                )
        }),
    decreases count,
{
    let ports = program.output_ports@;
    if count > 0 {
        lemma_delivered(program, outputs, values, (count - 1) as nat);
        let before = delivered(outputs, ports, values, (count - 1) as nat);
        let now = delivered(outputs, ports, values, count);
        let last = ports[count - 1];
        lemma_no_output(outputs, outputs.len(), last.name@);
        let place = output_place(outputs, outputs.len(), last.name@)->Some_0;
        assert forall|p: int, q: int|
            #![trigger ports[p], now[q]]
            0 <= p < count && 0 <= q < outputs.len() && outputs[q].name@
                == ports[p].name@ implies now[q].value == held(values, ports[p].value) by {
            lemma_only_output(outputs, outputs.len(), ports[p].name@, q);
            if p < count - 1 {
                assert(ports[p].name@ != ports[count - 1].name@);
                assert(before[q].value == held(values, ports[p].value));
            }
        }
    }
}

/// A program that was executed has solved the equations of its operations: what the host bound to
/// an input port is the value of the port, every sum is the sum modulo two to the 32nd of the
/// values that it adds, every literal is the number that it carries, and the slot with the name of
/// an output port holds the value of the port.
pub proof fn law_programs_solve_their_equations(
    program: PcuDialectProgram,
    inputs: Seq<VmProgramInput>,
    values: (Seq<u32>, Seq<u32>),
    outputs: (Seq<VmProgramOutput>, Seq<VmProgramOutput>),
    answer: Result<VmReport, VmError>,
)
    requires
        program.wf(),
        program_single_assignment(program),
        forall|p: int, q: int|
            0 <= p < q < program.output_ports@.len() ==> (
            #[trigger] program.output_ports@[p]).name@ != (#[trigger] program.output_ports@[q]).name@,
        program_outcome(program, inputs, values, outputs, answer),
        answer is Ok,
    ensures
        values.1.len() == values.0.len(),
        outputs.1.len() == outputs.0.len(),
        forall|p: int, q: int|
            0 <= p < program.input_ports@.len() && 0 <= q < inputs.len() && (
            #[trigger] inputs[q]).name@ == (#[trigger] program.input_ports@[p]).name@ ==> held(
                values.1,
                program.input_ports@[p].value,
            ) == inputs[q].value,
        forall|i: int|
            0 <= i < program.operations@.len() ==> #[trigger] program_equation_holds(
                program,
                i,
                values.1,
            ),
        forall|q: int|
            0 <= q < outputs.0.len() ==> (#[trigger] outputs.1[q]).name == outputs.0[q].name,
        forall|p: int, q: int|
            #![trigger program.output_ports@[p], outputs.1[q]]
            0 <= p < program.output_ports@.len() && 0 <= q < outputs.0.len() && outputs.0[q].name@
                == program.output_ports@[p].name@ ==> outputs.1[q].value == held(
                values.1,
                program.output_ports@[p].value,
            ),
{
    let (ports, operations) = (program.input_ports@, program.operations@);
    let seeded = seeded_values(values.0, ports, inputs, ports.len());
    let count = operations.len();
    lemma_seeded(program, values.0, inputs, ports.len());
    lemma_evaluated(program, seeded, count);
    lemma_delivered(program, outputs.0, values.1, program.output_ports@.len());
    assert forall|p: int, q: int|
        0 <= p < ports.len() && 0 <= q < inputs.len() && (#[trigger] inputs[q]).name@ == (
        #[trigger] ports[p]).name@ implies held(values.1, ports[p].value) == inputs[q].value by {
        let id = ports[p].value;
        lemma_ports_fit(program, p);
        if results_hold(operations, count as int, id) {
            let j = choose|j: int| 0 <= j < count && #[trigger] operations[j].result == Some(id);
            assert(operations[j].result == Some(id));
        }
        assert(seeded[id.0 as int] == inputs[q].value);
    }
}

/// A program is executed only where it was validated, the host binds every port once and nothing
/// else, every operation is a literal or a sum, and every value has a place. Where it is not,
/// nothing changes.
pub proof fn law_programs_run_only_where_they_fit(
    program: PcuDialectProgram,
    inputs: Seq<VmProgramInput>,
    values: (Seq<u32>, Seq<u32>),
    outputs: (Seq<VmProgramOutput>, Seq<VmProgramOutput>),
    answer: Result<VmReport, VmError>,
)
    requires
        program_outcome(program, inputs, values, outputs, answer),
    ensures
        answer is Err ==> values.1 == values.0 && outputs.1 == outputs.0,
        answer is Ok ==> {
            &&& program.verdict is Ok
            &&& inputs.len() == program.input_ports@.len()
            &&& outputs.0.len() == program.output_ports@.len()
            &&& forall|p: int|
                0 <= p < program.input_ports@.len() ==> exists|q: int|
                    0 <= q < inputs.len() && (#[trigger] inputs[q]).name@ == (
                    #[trigger] program.input_ports@[p]).name@
            &&& forall|p: int|
                0 <= p < program.output_ports@.len() ==> exists|q: int|
                    0 <= q < outputs.0.len() && (#[trigger] outputs.0[q]).name@ == (
                    #[trigger] program.output_ports@[p]).name@
            &&& forall|i: int|
                0 <= i < program.operations@.len() ==> ((
                #[trigger] program.operations@[i]).name@ == "add.u32"@
                    || program.operations@[i].name@ == "literal.u32"@)
            &&& forall|i: int|
                0 <= i < program.operations@.len() ==> ((
                #[trigger] program.operations@[i]).result matches Some(result) ==> result.0
                    < values.0.len())
        },
{
    lemma_names();
    if answer is Ok {
        assert forall|p: int| 0 <= p < program.input_ports@.len() implies exists|q: int|
            0 <= q < inputs.len() && (#[trigger] inputs[q]).name@ == (
            #[trigger] program.input_ports@[p]).name@ by {
            lemma_no_input(inputs, inputs.len(), program.input_ports@[p].name@);
            let q = input_place(inputs, inputs.len(), program.input_ports@[p].name@)->Some_0;
            assert(inputs[q].name@ == program.input_ports@[p].name@);
        }
        assert forall|p: int| 0 <= p < program.output_ports@.len() implies exists|q: int|
            0 <= q < outputs.0.len() && (#[trigger] outputs.0[q]).name@ == (
            #[trigger] program.output_ports@[p]).name@ by {
            lemma_no_output(outputs.0, outputs.0.len(), program.output_ports@[p].name@);
            let q = output_place(
                outputs.0,
                outputs.0.len(),
                program.output_ports@[p].name@,
            )->Some_0;
            assert(outputs.0[q].name@ == program.output_ports@[p].name@);
        }
        lemma_results_required(program.operations@, program.operations@.len());
    }
}

} // verus!
