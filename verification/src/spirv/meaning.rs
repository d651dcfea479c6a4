//! Emitted modules do what their kernels say.
use vstd::prelude::*;
use vstd::utf8::encode_utf8;

use super::dataflow::{
    addressed, binding_place, dataflow_fault, defined_before, defined_by,
    lemma_binding_place_holds, loop_body, loop_op_fault, loops, map_op_fault, some_flow, some_loop,
};
use super::error::PcuSpirvError;
use super::ids::{
    body_of, id_bound, largest_value, lemma_largest_value, pointer_base, value_base, value_number,
};
use super::laws::{lemma_entry_is_whole, lemma_op_is_whole, stated_length, whole, whole_from};
use super::lower::lowering_outcome;
use super::machine::{
    instructions, instructions_from, jumps, label_from, lemma_run_plain, truth, wrapped_sum, Device, Instruction,
    Machine,
};
use super::numbers::{
    LOOP_BASE_IN_RANGE, LOOP_BODY_LABEL, LOOP_CONDITION, LOOP_CONTINUE_LABEL, LOOP_EXTENT,
    LOOP_HEADER, LOOP_INDEX, LOOP_INDEX_IN_RANGE, LOOP_MERGE_LABEL, LOOP_NEXT_INDEX,
    LOOP_RAW_NEXT_INDEX, LOOP_REMAINING, LOOP_STOP, LOOP_STRIDE,
};
use super::sink::PcuSpirvSink;
use super::types::{PcuSpirvLoweringOptions, PcuSpirvModuleInfo};
use super::validate::{kernel_fault, lemma_no_fault, parallel_map};
use super::words::{
    entry_name, index_id, loop_id, module_bound, module_interface, module_start, module_words,
    opcode_word, padded, pointer_id, string_words, value_id, variable_id, Stream,
};
use crate::pcu::ir::{
    PcuDispatchAluOp, PcuDispatchDataOp, PcuDispatchIndex, PcuDispatchKernelIr, PcuDispatchOp,
    PcuDispatchOpKind, PcuDispatchValueId, PcuParameterValue,
};

verus! {

/// The first word of an instruction says how long it is and what it does.
proof fn lemma_first_word(word_count: nat, opcode: u16)
    requires
        word_count < 0x1_0000,
    ensures
        opcode_word(word_count, opcode) / 0x1_0000 == word_count,
        opcode_word(word_count, opcode) % 0x1_0000 == opcode,
{
    let count = word_count as u32;
    let code = opcode as u32;
    assert(((count << 16) | code) / 0x1_0000 == count && ((count << 16) | code) % 0x1_0000 == code)
        by (bit_vector)
        requires
            count < 0x1_0000,
            code < 0x1_0000,
    ;
}

/// One more instruction is read as one more.
proof fn lemma_instructions_push(words: Seq<u32>, more: Seq<u32>, at: int)
    requires
        0 <= at,
        whole_from(words, at),
        more.len() > 0,
        more[0] / 0x1_0000 == more.len(),
    ensures
        instructions_from(words + more, at) == instructions_from(words, at).push(
            Instruction { opcode: more[0] % 0x1_0000, operands: more.skip(1) },
        ),
    decreases words.len() - at,
{
    let longer = words + more;
    let added = Instruction { opcode: more[0] % 0x1_0000, operands: more.skip(1) };
    if at >= words.len() {
        assert(longer[at] == more[0]);
        assert(longer.subrange(at + 1, at + more.len()) =~= more.skip(1));
        assert(instructions_from(longer, at + more.len()) =~= Seq::empty());
        assert(instructions_from(longer, at) =~= seq![added]);
        assert(instructions_from(words, at) =~= Seq::empty());
    } else {
        let word = words[at];
        assert(word >> 16 == word / 0x1_0000) by (bit_vector);
        let length = stated_length(word);
        assert(longer[at] == word);
        lemma_instructions_push(words, more, at + length);
        assert(longer.subrange(at + 1, at + length) =~= words.subrange(at + 1, at + length));
        assert(instructions_from(longer, at) =~= instructions_from(words, at).push(added));
    }
}

/// The machine after the words so far.
spec fn told(device: Device, memory: Map<(u32, u32, u32), u32>, stream: Stream) -> Machine {
    device.after(Machine::fresh(memory), instructions(stream.words))
}

/// None of the instructions so far jumps.
spec fn plain(stream: Stream) -> bool {
    forall|i: int|
        0 <= i < instructions(stream.words).len() ==> !jumps(
            #[trigger] instructions(stream.words)[i],
        )
}

proof fn lemma_op_instruction(stream: Stream, opcode: u16, operands: Seq<u32>)
    requires
        whole(stream),
        operands.len() < 0xffff,
    ensures
        instructions(stream.op(opcode, operands).words) == instructions(stream.words).push(
            Instruction { opcode: opcode as u32, operands },
        ),
{
    let more = seq![opcode_word(operands.len() + 1, opcode)] + operands;
    lemma_first_word(operands.len() + 1, opcode);
    lemma_instructions_push(stream.words, more, 5);
    assert(stream.op(opcode, operands).words =~= stream.words + more);
    assert(more.skip(1) =~= operands);
}

/// One more instruction is one more step.
broadcast proof fn lemma_told(
    device: Device,
    memory: Map<(u32, u32, u32), u32>,
    stream: Stream,
    opcode: u16,
    operands: Seq<u32>,
)
    requires
        whole(stream),
        operands.len() < 0xffff,
    ensures
        #[trigger] told(device, memory, stream.op(opcode, operands)) == device.step(
            told(device, memory, stream),
            Instruction { opcode: opcode as u32, operands },
        ),
{
    lemma_op_instruction(stream, opcode, operands);
    let before = instructions(stream.words);
    let added = Instruction { opcode: opcode as u32, operands };
    assert(before.push(added).drop_last() =~= before);
}

broadcast proof fn lemma_plain(stream: Stream, opcode: u16, operands: Seq<u32>)
    requires
        whole(stream),
        plain(stream),
        operands.len() < 0xffff,
        opcode != 249 && opcode != 250 && opcode != 253,
    ensures
        #[trigger] plain(stream.op(opcode, operands)),
{
    lemma_op_instruction(stream, opcode, operands);
    let before = instructions(stream.words);
    let added = Instruction { opcode: opcode as u32, operands };
    assert forall|i: int| 0 <= i < before.push(added).len() implies !jumps(
        #[trigger] before.push(added)[i],
    ) by {
        if i < before.len() {
            assert(!jumps(before[i]));
        }
    }
}

/// What stands before the first decoration tells nothing.
proof fn lemma_opening(
    device: Device,
    memory: Map<(u32, u32, u32), u32>,
    kernel: PcuDispatchKernelIr,
    options: PcuSpirvLoweringOptions,
)
    requires
        3 + string_words(entry_name(kernel)).len() + module_interface(kernel).len() < 0x1_0000,
    ensures
        ({
            let opened = module_start(kernel, options).entry(
                entry_name(kernel),
                module_interface(kernel),
            ).local_size();
            &&& whole(opened)
            &&& plain(opened)
            &&& told(device, memory, opened) == Machine::fresh(memory)
        }),
{
    broadcast use lemma_op_is_whole, lemma_told, lemma_plain;

    let header = Stream::header(options, module_bound(kernel) as u32);
    assert(instructions(header.words) =~= Seq::empty());
    assert(whole(header));
    let start = module_start(kernel, options);
    assert(whole(start) && plain(start) && told(device, memory, start) == Machine::fresh(memory));
    let name = entry_name(kernel);
    let interface = module_interface(kernel);
    let entered = start.entry(name, interface);
    lemma_entry_is_whole(start, name, interface);
    let more = entered.words.skip(start.words.len() as int);
    assert(entered.words =~= start.words + more);
    lemma_first_word(3 + string_words(name).len() + interface.len(), super::numbers::OP_ENTRY_POINT);
    lemma_instructions_push(start.words, more, 5);
    let before = instructions(start.words);
    let added = Instruction { opcode: more[0] % 0x1_0000, operands: more.skip(1) };
    assert(before.push(added).drop_last() =~= before);
    assert(told(device, memory, entered) == told(device, memory, start));
    assert(plain(entered)) by {
        assert forall|i: int| 0 <= i < before.push(added).len() implies !jumps(
            #[trigger] before.push(added)[i],
        ) by {
            if i < before.len() {
                assert(!jumps(before[i]));
            }
        }
    }
}

/// No block so far has this label.
spec fn lacks(stream: Stream, label: u32) -> bool {
    forall|i: int|
        0 <= i < instructions(stream.words).len() ==> !((
        #[trigger] instructions(stream.words)[i]).opcode == 248 && instructions(
            stream.words,
        )[i].operands[0] == label)
}

broadcast proof fn lemma_lacks(stream: Stream, opcode: u16, operands: Seq<u32>, label: u32)
    requires
        whole(stream),
        lacks(stream, label),
        operands.len() < 0xffff,
        opcode != 248 || operands[0] != label,
    ensures
        #[trigger] lacks(stream.op(opcode, operands), label),
{
    lemma_op_instruction(stream, opcode, operands);
    let before = instructions(stream.words);
    let added = Instruction { opcode: opcode as u32, operands };
    assert forall|i: int| 0 <= i < before.push(added).len() implies !((
    #[trigger] before.push(added)[i]).opcode == 248 && before.push(added)[i].operands[0]
        == label) by {
        if i < before.len() {
            assert(!(before[i].opcode == 248 && before[i].operands[0] == label));
        }
    }
}

/// The stream stays whole, does not jump and has no label.
spec fn inert(stream: Stream) -> bool {
    &&& whole(stream)
    &&& plain(stream)
    &&& forall|label: u32| #[trigger] lacks(stream, label)
}

broadcast proof fn lemma_inert(stream: Stream, opcode: u16, operands: Seq<u32>)
    requires
        inert(stream),
        operands.len() < 0xffff,
        opcode != 248 && opcode != 249 && opcode != 250 && opcode != 253,
    ensures
        #[trigger] inert(stream.op(opcode, operands)),
{
    broadcast use lemma_op_is_whole, lemma_plain, lemma_lacks;

}

/// The variables of the first `count` bindings have their descriptors.
spec fn described(kernel: PcuDispatchKernelIr, machine: Machine, count: nat) -> bool {
    forall|i: int|
        0 <= i < count ==> machine.sets[(19 + i) as u32] == (
        #[trigger] kernel.bindings@[i]).set && machine.bindings[(19 + i) as u32]
            == kernel.bindings@[i].binding
}

/// Only the decorations differ.
spec fn decorated_only(before: Machine, after: Machine) -> bool {
    after == (Machine { sets: after.sets, bindings: after.bindings, ..before })
}

proof fn lemma_descriptors(
    device: Device,
    memory: Map<(u32, u32, u32), u32>,
    stream: Stream,
    kernel: PcuDispatchKernelIr,
    count: nat,
)
    requires
        inert(stream),
        count <= kernel.bindings@.len(),
        id_bound(kernel) <= u32::MAX,
    ensures
        inert(stream.descriptors(kernel, count)),
        described(kernel, told(device, memory, stream.descriptors(kernel, count)), count),
        decorated_only(
            told(device, memory, stream),
            told(device, memory, stream.descriptors(kernel, count)),
        ),
    decreases count,
{
    broadcast use lemma_op_is_whole, lemma_told, lemma_inert;

    if count > 0 {
        let fewer = (count - 1) as nat;
        lemma_descriptors(device, memory, stream, kernel, fewer);
        let before = stream.descriptors(kernel, fewer);
        let at = count - 1;
        let variable = (19 + at) as u32;
        let binding = kernel.bindings@[at];
        let between = before.op(
            super::numbers::OP_DECORATE,
            seq![variable, super::numbers::DECORATION_DESCRIPTOR_SET, binding.set],
        );
        let after = between.op(
            super::numbers::OP_DECORATE,
            seq![variable, super::numbers::DECORATION_BINDING, binding.binding],
        );
        assert(after == stream.descriptors(kernel, count));
        let machine = told(device, memory, after);
        assert(machine.sets == told(device, memory, before).sets.insert(variable, binding.set));
        assert(machine.bindings == told(device, memory, before).bindings.insert(
            variable,
            binding.binding,
        ));
    }
}

/// The constant that an operation names.
pub open spec fn constant_of(op: PcuDispatchOp) -> Option<(PcuDispatchValueId, u32)> {
    match op.kind {
        PcuDispatchOpKind::Data(
            PcuDispatchDataOp::Constant { result, value: PcuParameterValue::F32(bits) },
        ) => Some((result, bits)),
        _ => None,
    }
}

/// Every result has a number of its own among the values of the kernel.
spec fn numbered(kernel: PcuDispatchKernelIr, ops: Seq<PcuDispatchOp>) -> bool {
    &&& forall|i: int|
        #![trigger defined_by(ops[i])]
        0 <= i < ops.len() ==> (defined_by(ops[i]) matches Some(value) ==> 0 < value.0
            <= largest_value(kernel.ops@, kernel.ops@.len()))
    &&& forall|i: int, j: int|
        #![trigger defined_by(ops[i]), defined_by(ops[j])]
        0 <= i < j < ops.len() && defined_by(ops[i]) is Some ==> defined_by(ops[i]) != defined_by(
            ops[j],
        )
}

/// Values of the kernel have identifiers of their own, between those of the bindings and those of
/// the pointers.
proof fn lemma_value_id(kernel: PcuDispatchKernelIr, value: PcuDispatchValueId)
    requires
        id_bound(kernel) <= u32::MAX,
        0 < value.0 <= largest_value(kernel.ops@, kernel.ops@.len()),
    ensures
        value_id(kernel, value) == value_base(kernel) + value.0 - 1,
        19 + kernel.bindings@.len() <= value_id(kernel, value) < pointer_base(kernel),
{
}

/// The constants of the first `count` operations are known.
spec fn constants_known(
    kernel: PcuDispatchKernelIr,
    ops: Seq<PcuDispatchOp>,
    machine: Machine,
    count: nat,
) -> bool {
    forall|i: int|
        #![trigger ops[i]]
        0 <= i < count ==> (constant_of(ops[i]) matches Some((result, bits)) ==> machine.values[
            value_id(kernel, result)
        ] == bits)
}

/// Only identifiers of values differ.
spec fn valued_only(before: Machine, after: Machine) -> bool {
    &&& after == (Machine { values: after.values, ..before })
    &&& forall|id: u32| id < 19 ==> #[trigger] after.values[id] == before.values[id]
}

proof fn lemma_constants(
    device: Device,
    memory: Map<(u32, u32, u32), u32>,
    stream: Stream,
    kernel: PcuDispatchKernelIr,
    ops: Seq<PcuDispatchOp>,
    count: nat,
)
    requires
        inert(stream),
        count <= ops.len(),
        id_bound(kernel) <= u32::MAX,
        numbered(kernel, ops),
    ensures
        inert(stream.constants(kernel, ops, count)),
        constants_known(kernel, ops, told(device, memory, stream.constants(kernel, ops, count)), count),
        valued_only(
            told(device, memory, stream),
            told(device, memory, stream.constants(kernel, ops, count)),
        ),
    decreases count,
{
    broadcast use lemma_op_is_whole, lemma_told, lemma_inert;

    if count > 0 {
        let fewer = (count - 1) as nat;
        lemma_constants(device, memory, stream, kernel, ops, fewer);
        let before = stream.constants(kernel, ops, fewer);
        let after = stream.constants(kernel, ops, count);
        let op = ops[count - 1];
        if let Some((result, bits)) = constant_of(op) {
            assert(defined_by(ops[count - 1]) == Some(result));
            lemma_value_id(kernel, result);
            let machine = told(device, memory, after);
            assert(machine == told(device, memory, before).with(value_id(kernel, result), bits));
            assert forall|i: int|
                #![trigger ops[i]]
                0 <= i < count implies (constant_of(ops[i]) matches Some((r, b))
                ==> machine.values[value_id(kernel, r)] == b) by {
                if i < fewer {
                    if let Some((r, b)) = constant_of(ops[i]) {
                        assert(defined_by(ops[i]) == Some(r));
                        lemma_value_id(kernel, r);
                    }
                }
            }
        } else {
            assert(after == before);
        }
    }
}

proof fn lemma_variables(
    device: Device,
    memory: Map<(u32, u32, u32), u32>,
    stream: Stream,
    count: nat,
)
    requires
        inert(stream),
    ensures
        inert(stream.variables(count)),
        told(device, memory, stream.variables(count)) == told(device, memory, stream),
    decreases count,
{
    broadcast use lemma_op_is_whole, lemma_told, lemma_inert;

    if count > 0 {
        lemma_variables(device, memory, stream, (count - 1) as nat);
    }
}

/// The operations whose data flow a module carries: those of the kernel, or of its loop.
spec fn flow_list(kernel: PcuDispatchKernelIr) -> Seq<PcuDispatchOp> {
    match kernel.ops@[0].kind {
        PcuDispatchOpKind::GridStrideLoop { body, .. } => body@,
        _ => kernel.ops@,
    }
}

/// The numbers of a loop are known.
spec fn bounds_known(kernel: PcuDispatchKernelIr, machine: Machine) -> bool {
    kernel.ops@[0].kind matches PcuDispatchOpKind::GridStrideLoop { extent, .. } ==> {
        &&& machine.values[loop_id(kernel, LOOP_EXTENT)] == extent
        &&& machine.values[loop_id(kernel, LOOP_STRIDE)] == kernel.entry.logical_shape@[0]
    }
}

/// What a module declares before its function.
spec fn declared(kernel: PcuDispatchKernelIr, machine: Machine) -> bool {
    &&& machine.values[6] == 0
    &&& machine.supplied == Map::<u32, u32>::empty().insert(15, 28)
    &&& described(kernel, machine, kernel.bindings@.len())
    &&& constants_known(kernel, flow_list(kernel), machine, flow_list(kernel).len())
    &&& bounds_known(kernel, machine)
}

proof fn lemma_flow_constants(
    device: Device,
    memory: Map<(u32, u32, u32), u32>,
    stream: Stream,
    kernel: PcuDispatchKernelIr,
)
    requires
        inert(stream),
        id_bound(kernel) <= u32::MAX,
        numbered(kernel, flow_list(kernel)),
        kernel.ops@.len() > 0,
        kernel.ops@[0].kind is GridStrideLoop ==> some_loop(kernel.ops@),
    ensures
        inert(stream.flow_constants(kernel)),
        ({
            let machine = told(device, memory, stream.flow_constants(kernel));
            &&& constants_known(kernel, flow_list(kernel), machine, flow_list(kernel).len())
            &&& bounds_known(kernel, machine)
            &&& valued_only(told(device, memory, stream), machine)
        }),
{
    broadcast use lemma_op_is_whole, lemma_told, lemma_inert;

    let ops = flow_list(kernel);
    lemma_constants(device, memory, stream, kernel, ops, ops.len());
    let before = stream.constants(kernel, ops, ops.len());
    if let PcuDispatchOpKind::GridStrideLoop { extent, body } = kernel.ops@[0].kind {
        let machine = told(device, memory, stream.flow_constants(kernel));
        assert(machine == told(device, memory, before).with(
            loop_id(kernel, LOOP_EXTENT),
            extent,
        ).with(loop_id(kernel, LOOP_STRIDE), kernel.entry.logical_shape@[0]));
        assert forall|i: int|
            #![trigger ops[i]]
            0 <= i < ops.len() implies (constant_of(ops[i]) matches Some((r, b))
            ==> machine.values[value_id(kernel, r)] == b) by {
            if let Some((r, b)) = constant_of(ops[i]) {
                assert(defined_by(ops[i]) == Some(r));
                lemma_value_id(kernel, r);
            }
        }
    }
}

/// Everything before the function of a data-flow module.
spec fn declarations(kernel: PcuDispatchKernelIr, options: PcuSpirvLoweringOptions) -> Stream {
    module_start(kernel, options).entry(
        entry_name(kernel),
        module_interface(kernel),
    ).local_size().flow_decorations(kernel).flow_types(kernel)
}

/// The kernel can be lowered as data flow, as far as numbers go.
spec fn lowerable(kernel: PcuDispatchKernelIr) -> bool {
    &&& 3 + string_words(entry_name(kernel)).len() + module_interface(kernel).len() < 0x1_0000
    &&& id_bound(kernel) <= u32::MAX
    &&& numbered(kernel, flow_list(kernel))
    &&& kernel.ops@.len() > 0
    &&& kernel.ops@[0].kind is GridStrideLoop ==> some_loop(kernel.ops@)
}

proof fn lemma_decorations(
    device: Device,
    memory: Map<(u32, u32, u32), u32>,
    kernel: PcuDispatchKernelIr,
    stream: Stream,
)
    requires
        inert(stream),
        id_bound(kernel) <= u32::MAX,
        told(device, memory, stream) == Machine::fresh(memory),
    ensures
        inert(stream.flow_decorations(kernel)),
        ({
            let machine = told(device, memory, stream.flow_decorations(kernel));
            &&& machine.supplied == Map::<u32, u32>::empty().insert(15, 28)
            &&& described(kernel, machine, kernel.bindings@.len())
            &&& machine.memory == memory
        }),
{
    broadcast use lemma_op_is_whole, lemma_told, lemma_inert;

    let buffers = stream.buffer_decorations(
        super::numbers::DATAFLOW_GLOBAL_INVOCATION_ID_VAR_ID,
        super::numbers::DATAFLOW_RUNTIME_ARRAY_TYPE_ID,
        super::numbers::DATAFLOW_BUFFER_TYPE_ID,
    );
    assert(inert(buffers));
    assert(told(device, memory, buffers) == (Machine {
        supplied: Map::<u32, u32>::empty().insert(15, 28),
        ..Machine::fresh(memory)
    }));
    lemma_descriptors(device, memory, buffers, kernel, kernel.bindings@.len());
}

/// The types before the constants of the kernel.
spec fn with_zero(stream: Stream) -> Stream {
    stream.void_types().op(
        super::numbers::OP_TYPE_INT,
        seq![super::numbers::DATAFLOW_UINT_TYPE_ID, 32u32, 0u32],
    ).op(super::numbers::OP_TYPE_BOOL, seq![super::numbers::DATAFLOW_BOOL_TYPE_ID]).op(
        super::numbers::OP_CONSTANT,
        seq![
            super::numbers::DATAFLOW_UINT_TYPE_ID,
            super::numbers::DATAFLOW_UINT_ZERO_ID,
            0u32,
        ],
    ).op(super::numbers::OP_TYPE_FLOAT, seq![super::numbers::DATAFLOW_FLOAT_TYPE_ID, 32u32])
}

/// The types after the constants of the kernel.
spec fn with_pointers(stream: Stream) -> Stream {
    stream.op(
        super::numbers::OP_TYPE_VECTOR,
        seq![
            super::numbers::DATAFLOW_VEC3_UINT_TYPE_ID,
            super::numbers::DATAFLOW_UINT_TYPE_ID,
            3u32,
        ],
    ).op(
        super::numbers::OP_TYPE_POINTER,
        seq![
            super::numbers::DATAFLOW_PTR_INPUT_VEC3_UINT_TYPE_ID,
            super::numbers::STORAGE_CLASS_INPUT,
            super::numbers::DATAFLOW_VEC3_UINT_TYPE_ID,
        ],
    ).op(
        super::numbers::OP_TYPE_POINTER,
        seq![
            super::numbers::DATAFLOW_PTR_INPUT_UINT_TYPE_ID,
            super::numbers::STORAGE_CLASS_INPUT,
            super::numbers::DATAFLOW_UINT_TYPE_ID,
        ],
    ).op(
        super::numbers::OP_TYPE_RUNTIME_ARRAY,
        seq![
            super::numbers::DATAFLOW_RUNTIME_ARRAY_TYPE_ID,
            super::numbers::DATAFLOW_FLOAT_TYPE_ID,
        ],
    ).op(
        super::numbers::OP_TYPE_STRUCT,
        seq![
            super::numbers::DATAFLOW_BUFFER_TYPE_ID,
            super::numbers::DATAFLOW_RUNTIME_ARRAY_TYPE_ID,
        ],
    ).op(
        super::numbers::OP_TYPE_POINTER,
        seq![
            super::numbers::DATAFLOW_PTR_UNIFORM_BUFFER_TYPE_ID,
            super::numbers::STORAGE_CLASS_UNIFORM,
            super::numbers::DATAFLOW_BUFFER_TYPE_ID,
        ],
    ).op(
        super::numbers::OP_TYPE_POINTER,
        seq![
            super::numbers::DATAFLOW_PTR_UNIFORM_FLOAT_TYPE_ID,
            super::numbers::STORAGE_CLASS_UNIFORM,
            super::numbers::DATAFLOW_FLOAT_TYPE_ID,
        ],
    )
}

proof fn lemma_with_zero(device: Device, memory: Map<(u32, u32, u32), u32>, stream: Stream)
    requires
        inert(stream),
    ensures
        inert(with_zero(stream)),
        told(device, memory, with_zero(stream)) == told(device, memory, stream).with(6, 0),
{
    broadcast use lemma_op_is_whole, lemma_told, lemma_inert;

}

proof fn lemma_with_pointers(device: Device, memory: Map<(u32, u32, u32), u32>, stream: Stream)
    requires
        inert(stream),
    ensures
        inert(with_pointers(stream)),
        told(device, memory, with_pointers(stream)) == told(device, memory, stream),
{
    broadcast use lemma_op_is_whole, lemma_told, lemma_inert;

}

#[verifier::rlimit(30)]
proof fn lemma_declarations(
    device: Device,
    memory: Map<(u32, u32, u32), u32>,
    kernel: PcuDispatchKernelIr,
    options: PcuSpirvLoweringOptions,
)
    requires
        lowerable(kernel),
    ensures
        inert(declarations(kernel, options)),
        declared(kernel, told(device, memory, declarations(kernel, options))),
        told(device, memory, declarations(kernel, options)).memory == memory,
{
    lemma_opening(device, memory, kernel, options);
    lemma_unlabelled_opening(kernel, options);
    let opened = module_start(kernel, options).entry(
        entry_name(kernel),
        module_interface(kernel),
    ).local_size();
    lemma_decorations(device, memory, kernel, opened);
    let decorated = opened.flow_decorations(kernel);
    let zero = with_zero(decorated);
    lemma_with_zero(device, memory, decorated);
    lemma_flow_constants(device, memory, zero, kernel);
    let counted = zero.flow_constants(kernel);
    let typed = with_pointers(counted);
    lemma_with_pointers(device, memory, counted);
    lemma_variables(device, memory, typed, kernel.bindings@.len());
    let variables = typed.variables(kernel.bindings@.len());
    let operands = seq![
        super::numbers::DATAFLOW_PTR_INPUT_VEC3_UINT_TYPE_ID,
        super::numbers::DATAFLOW_GLOBAL_INVOCATION_ID_VAR_ID,
        super::numbers::STORAGE_CLASS_INPUT,
    ];
    lemma_told(device, memory, variables, super::numbers::OP_VARIABLE, operands);
    lemma_inert(variables, super::numbers::OP_VARIABLE, operands);
    assert(declarations(kernel, options) == variables.op(super::numbers::OP_VARIABLE, operands));
}

/// What stands before the first decoration has no label.
proof fn lemma_unlabelled_opening(kernel: PcuDispatchKernelIr, options: PcuSpirvLoweringOptions)
    requires
        3 + string_words(entry_name(kernel)).len() + module_interface(kernel).len() < 0x1_0000,
    ensures
        forall|label: u32| #[trigger]
            lacks(
                module_start(kernel, options).entry(
                    entry_name(kernel),
                    module_interface(kernel),
                ).local_size(),
                label,
            ),
{
    broadcast use lemma_op_is_whole, lemma_lacks;

    let header = Stream::header(options, module_bound(kernel) as u32);
    assert(instructions(header.words) =~= Seq::empty());
    assert(whole(header));
    let start = module_start(kernel, options);
    assert(whole(start));
    let name = entry_name(kernel);
    let interface = module_interface(kernel);
    let entered = start.entry(name, interface);
    lemma_entry_is_whole(start, name, interface);
    let more = entered.words.skip(start.words.len() as int);
    assert(entered.words =~= start.words + more);
    lemma_first_word(3 + string_words(name).len() + interface.len(), super::numbers::OP_ENTRY_POINT);
    lemma_instructions_push(start.words, more, 5);
    let before = instructions(start.words);
    let added = Instruction { opcode: more[0] % 0x1_0000, operands: more.skip(1) };
    assert forall|label: u32| #[trigger] lacks(entered, label) by {
        assert(lacks(header, label));
        assert(lacks(start, label));
        assert forall|i: int| 0 <= i < before.push(added).len() implies !((
        #[trigger] before.push(added)[i]).opcode == 248 && before.push(added)[i].operands[0]
            == label) by {
            if i < before.len() {
                assert(!(before[i].opcode == 248 && before[i].operands[0] == label));
            }
        }
    }
}

/// The function up to its first operation: the invocation's index has been loaded.
spec fn entered(kernel: PcuDispatchKernelIr, options: PcuSpirvLoweringOptions) -> Stream {
    declarations(kernel, options).function_start().invocation_index(
        super::numbers::DATAFLOW_PTR_INPUT_UINT_TYPE_ID,
        super::numbers::DATAFLOW_INDEX_PTR_ID,
        super::numbers::DATAFLOW_GLOBAL_INVOCATION_ID_VAR_ID,
        super::numbers::DATAFLOW_UINT_ZERO_ID,
        super::numbers::DATAFLOW_UINT_TYPE_ID,
        super::numbers::DATAFLOW_INDEX_ID,
    )
}

proof fn lemma_entered(
    device: Device,
    memory: Map<(u32, u32, u32), u32>,
    kernel: PcuDispatchKernelIr,
    options: PcuSpirvLoweringOptions,
)
    requires
        lowerable(kernel),
    ensures
        whole(entered(kernel, options)),
        plain(entered(kernel, options)),
        forall|label: u32| label != 4 ==> #[trigger] lacks(entered(kernel, options), label),
        ({
            let machine = told(device, memory, entered(kernel, options));
            &&& declared(kernel, machine)
            &&& machine.values[17] == device.invocation[0]
            &&& machine.memory == memory
            &&& machine.block == 4
        }),
{
    broadcast use lemma_op_is_whole, lemma_told, lemma_plain, lemma_lacks;

    lemma_declarations(device, memory, kernel, options);
    let all = declarations(kernel, options);
    let before = told(device, memory, all);
    let start = all.function_start();
    assert(told(device, memory, start) == (Machine { block: 4, ..before }));
    let pointed = start.op(
        super::numbers::OP_ACCESS_CHAIN,
        seq![
            super::numbers::DATAFLOW_PTR_INPUT_UINT_TYPE_ID,
            super::numbers::DATAFLOW_INDEX_PTR_ID,
            super::numbers::DATAFLOW_GLOBAL_INVOCATION_ID_VAR_ID,
            super::numbers::DATAFLOW_UINT_ZERO_ID,
        ],
    );
    let path = told(device, memory, pointed).pointers[16].1;
    assert(path.len() == 1 && path[0] == 0);
    let machine = told(device, memory, entered(kernel, options));
    assert(machine.values == before.values.insert(17, device.invocation[0]));
    let ops = flow_list(kernel);
    assert forall|i: int|
        #![trigger ops[i]]
        0 <= i < ops.len() implies (constant_of(ops[i]) matches Some((r, b)) ==> machine.values[
        value_id(kernel, r)
    ] == b) by {
        if let Some((r, b)) = constant_of(ops[i]) {
            assert(defined_by(ops[i]) == Some(r));
            lemma_value_id(kernel, r);
        }
    }
}

/// The values that a kernel has computed, and what memory holds.
#[verifier::ext_equal]
pub ghost struct KernelState {
    pub values: Map<u16, u32>,
    pub memory: Map<(u32, u32, u32), u32>,
}

/// What an arithmetic operation of a kernel computes.
pub open spec fn computed(device: Device, op: PcuDispatchAluOp, left: u32, right: u32) -> u32 {
    match op {
        PcuDispatchAluOp::Add => (device.sum)(left, right),
        PcuDispatchAluOp::Sub => (device.difference)(left, right),
        PcuDispatchAluOp::Mul => (device.product)(left, right),
        PcuDispatchAluOp::Div => (device.quotient)(left, right),
        PcuDispatchAluOp::Other(_) => 0,
    }
}

/// The element of a binding that an access goes to: that of the invocation, that of the loop, the
/// first one, or one that was computed.
pub open spec fn element(
    device: Device,
    state: KernelState,
    position: u32,
    index: PcuDispatchIndex,
) -> u32 {
    match index {
        PcuDispatchIndex::InvocationId => device.invocation[0],
        PcuDispatchIndex::GridStrideId => position,
        PcuDispatchIndex::BindingElementZero => 0,
        PcuDispatchIndex::Value(value) => state.values[value.0],
    }
}

/// One operation of a kernel. `position` is the index of the loop around it.
pub open spec fn performed(
    device: Device,
    position: u32,
    state: KernelState,
    op: PcuDispatchOp,
) -> KernelState {
    match op.kind {
        PcuDispatchOpKind::Data(PcuDispatchDataOp::BindingLoad { result, binding, index }) => {
            KernelState {
                values: state.values.insert(
                    result.0,
                    state.memory[(
                        binding.set,
                        binding.binding,
                        element(device, state, position, index),
                    )],
                ),
                ..state
            }
        },
        PcuDispatchOpKind::Data(
            PcuDispatchDataOp::Constant { result, value: PcuParameterValue::F32(bits) },
        ) => KernelState { values: state.values.insert(result.0, bits), ..state },
        PcuDispatchOpKind::Data(PcuDispatchDataOp::Alu { result, op: alu, lhs, rhs }) => {
            KernelState {
                values: state.values.insert(
                    result.0,
                    computed(device, alu, state.values[lhs.0], state.values[rhs.0]),
                ),
                ..state
            }
        },
        PcuDispatchOpKind::Data(PcuDispatchDataOp::BindingStore { binding, index, value }) => {
            KernelState {
                memory: state.memory.insert(
                    (binding.set, binding.binding, element(device, state, position, index)),
                    state.values[value.0],
                ),
                ..state
            }
        },
        _ => state,
    }
}

/// The first `count` operations of a list, one after the other.
pub open spec fn performed_all(
    device: Device,
    position: u32,
    memory: Map<(u32, u32, u32), u32>,
    ops: Seq<PcuDispatchOp>,
    count: nat,
) -> KernelState
    decreases count,
{
    if count == 0 {
        KernelState { values: Map::empty(), memory }
    } else {
        performed(
            device,
            position,
            performed_all(device, position, memory, ops, (count - 1) as nat),
            ops[count - 1],
        )
    }
}

/// The instructions of one operation.
spec fn op_instructions(kernel: PcuDispatchKernelIr, op: PcuDispatchOp, at: int) -> Seq<
    Instruction,
> {
    match op.kind {
        PcuDispatchOpKind::Data(PcuDispatchDataOp::BindingLoad { result, binding, index }) => {
            seq![
                Instruction {
                    opcode: 65,
                    operands: seq![
                        14u32,
                        pointer_id(kernel, at),
                        variable_id(kernel, binding),
                        6u32,
                        index_id(kernel, index),
                    ],
                },
                Instruction {
                    opcode: 61,
                    operands: seq![7u32, value_id(kernel, result), pointer_id(kernel, at)],
                },
            ]
        },
        PcuDispatchOpKind::Data(PcuDispatchDataOp::Alu { result, op: alu, lhs, rhs }) => seq![
            Instruction {
                opcode: match alu {
                    PcuDispatchAluOp::Add => 129,
                    PcuDispatchAluOp::Sub => 131,
                    PcuDispatchAluOp::Mul => 133,
                    _ => 136,
                },
                operands: seq![
                    7u32,
                    value_id(kernel, result),
                    value_id(kernel, lhs),
                    value_id(kernel, rhs),
                ],
            },
        ],
        PcuDispatchOpKind::Data(PcuDispatchDataOp::BindingStore { binding, index, value }) => {
            seq![
                Instruction {
                    opcode: 65,
                    operands: seq![
                        14u32,
                        pointer_id(kernel, at),
                        variable_id(kernel, binding),
                        6u32,
                        index_id(kernel, index),
                    ],
                },
                Instruction {
                    opcode: 62,
                    operands: seq![pointer_id(kernel, at), value_id(kernel, value)],
                },
            ]
        },
        PcuDispatchOpKind::Return => seq![Instruction { opcode: 253, operands: seq![] }],
        _ => Seq::empty(),
    }
}

/// The instructions of the first `count` operations.
spec fn flow_instructions(
    kernel: PcuDispatchKernelIr,
    ops: Seq<PcuDispatchOp>,
    first: int,
    count: nat,
) -> Seq<Instruction>
    decreases count,
{
    if count == 0 {
        Seq::empty()
    } else {
        flow_instructions(kernel, ops, first, (count - 1) as nat) + op_instructions(
            kernel,
            ops[count - 1],
            first + count - 1,
        )
    }
}

proof fn lemma_op_listing(stream: Stream, kernel: PcuDispatchKernelIr, op: PcuDispatchOp, at: int)
    requires
        whole(stream),
    ensures
        whole(stream.flow_op(kernel, op, at)),
        instructions(stream.flow_op(kernel, op, at).words) == instructions(stream.words)
            + op_instructions(kernel, op, at),
{
    broadcast use lemma_op_is_whole;

    let before = instructions(stream.words);
    let made = op_instructions(kernel, op, at);
    match op.kind {
        PcuDispatchOpKind::Data(PcuDispatchDataOp::BindingLoad { .. })
        | PcuDispatchOpKind::Data(PcuDispatchDataOp::BindingStore { .. }) => {
            let between = stream.op(super::numbers::OP_ACCESS_CHAIN, made[0].operands);
            lemma_op_instruction(stream, super::numbers::OP_ACCESS_CHAIN, made[0].operands);
            if op.kind matches PcuDispatchOpKind::Data(PcuDispatchDataOp::BindingLoad { .. }) {
                lemma_op_instruction(between, super::numbers::OP_LOAD, made[1].operands);
            } else {
                lemma_op_instruction(between, super::numbers::OP_STORE, made[1].operands);
            }
            assert(before.push(made[0]).push(made[1]) =~= before + made);
        },
        PcuDispatchOpKind::Data(PcuDispatchDataOp::Alu { op: alu, .. }) => {
            lemma_op_instruction(stream, super::words::alu_opcode(alu), made[0].operands);
            assert(before.push(made[0]) =~= before + made);
        },
        PcuDispatchOpKind::Return => {
            lemma_op_instruction(stream, super::numbers::OP_RETURN, seq![]);
            assert(before.push(made[0]) =~= before + made);
        },
        _ => {
            assert(before + made =~= before);
        },
    }
}

proof fn lemma_flow_listing(
    stream: Stream,
    kernel: PcuDispatchKernelIr,
    ops: Seq<PcuDispatchOp>,
    first: int,
    count: nat,
)
    requires
        whole(stream),
    ensures
        whole(stream.flow_ops(kernel, ops, first, count)),
        instructions(stream.flow_ops(kernel, ops, first, count).words) == instructions(
            stream.words,
        ) + flow_instructions(kernel, ops, first, count),
    decreases count,
{
    let before = instructions(stream.words);
    if count == 0 {
        assert(before + flow_instructions(kernel, ops, first, count) =~= before);
    } else {
        let fewer = (count - 1) as nat;
        lemma_flow_listing(stream, kernel, ops, first, fewer);
        lemma_op_listing(
            stream.flow_ops(kernel, ops, first, fewer),
            kernel,
            ops[count - 1],
            first + count - 1,
        );
        assert((before + flow_instructions(kernel, ops, first, fewer)) + op_instructions(
            kernel,
            ops[count - 1],
            first + count - 1,
        ) =~= before + flow_instructions(kernel, ops, first, count));
    }
}

/// Running two lists is running one and then the other.
proof fn lemma_after_add(
    device: Device,
    machine: Machine,
    one: Seq<Instruction>,
    other: Seq<Instruction>,
)
    ensures
        device.after(machine, one + other) == device.after(device.after(machine, one), other),
    decreases other.len(),
{
    if other.len() == 0 {
        assert(one + other =~= one);
    } else {
        lemma_after_add(device, machine, one, other.drop_last());
        assert((one + other).drop_last() =~= one + other.drop_last());
        assert((one + other).last() == other.last());
    }
}

/// The operation can be carried out where it stands. Accesses go by the loop's index in a loop, and
/// by the invocation's outside of one.
spec fn op_ready(
    kernel: PcuDispatchKernelIr,
    ops: Seq<PcuDispatchOp>,
    at: int,
    looped: bool,
) -> bool {
    let wanted = if looped {
        PcuDispatchIndex::GridStrideId
    } else {
        PcuDispatchIndex::InvocationId
    };
    match ops[at].kind {
        PcuDispatchOpKind::Data(PcuDispatchDataOp::BindingLoad { binding, index, .. }) => {
            &&& index == wanted
            &&& binding_place(kernel.bindings@, kernel.bindings@.len(), binding) is Some
        },
        PcuDispatchOpKind::Data(
            PcuDispatchDataOp::Constant { value: PcuParameterValue::F32(_), .. },
        ) => true,
        PcuDispatchOpKind::Data(PcuDispatchDataOp::Alu { op, lhs, rhs, .. }) => {
            &&& !(op is Other)
            &&& defined_before(ops, at, lhs)
            &&& defined_before(ops, at, rhs)
        },
        PcuDispatchOpKind::Data(PcuDispatchDataOp::BindingStore { binding, index, value }) => {
            &&& index == wanted
            &&& binding_place(kernel.bindings@, kernel.bindings@.len(), binding) is Some
            &&& defined_before(ops, at, value)
        },
        _ => false,
    }
}

/// The machine and the kernel agree after the first `count` operations.
spec fn agrees(
    device: Device,
    kernel: PcuDispatchKernelIr,
    ops: Seq<PcuDispatchOp>,
    looped: bool,
    position: u32,
    machine: Machine,
    state: KernelState,
    count: nat,
) -> bool {
    &&& machine.values[6] == 0
    &&& machine.values[17] == device.invocation[0]
    &&& looped ==> machine.values[loop_id(kernel, LOOP_INDEX)] == position
    &&& machine.supplied == Map::<u32, u32>::empty().insert(15, 28)
    &&& described(kernel, machine, kernel.bindings@.len())
    &&& constants_known(kernel, ops, machine, ops.len())
    &&& bounds_known(kernel, machine)
    &&& machine.memory == state.memory
    &&& forall|i: int|
        #![trigger defined_by(ops[i])]
        0 <= i < count ==> (defined_by(ops[i]) matches Some(value) ==> machine.values[value_id(
            kernel,
            value,
        )] == state.values[value.0])
}

/// Only what operations may change has changed: the values of the kernel, pointers and memory.
spec fn flow_only(kernel: PcuDispatchKernelIr, before: Machine, after: Machine) -> bool {
    &&& after == (Machine {
        values: after.values,
        pointers: after.pointers,
        memory: after.memory,
        ..before
    })
    &&& forall|id: u32|
        id < 19 || id >= pointer_base(kernel) ==> #[trigger] after.values[id] == before.values[id]
}

/// One operation keeps the machine and the kernel in agreement.
proof fn lemma_flow_step(
    device: Device,
    kernel: PcuDispatchKernelIr,
    ops: Seq<PcuDispatchOp>,
    looped: bool,
    position: u32,
    machine: Machine,
    state: KernelState,
    count: nat,
    place: int,
)
    requires
        id_bound(kernel) <= u32::MAX,
        numbered(kernel, ops),
        count < ops.len(),
        op_ready(kernel, ops, count as int, looped),
        agrees(device, kernel, ops, looped, position, machine, state, count),
        looped ==> some_loop(kernel.ops@),
        kernel.ops@.len() > 0,
        kernel.ops@[0].kind is GridStrideLoop ==> some_loop(kernel.ops@),
    ensures
        ({
            let after = device.after(
                machine,
                op_instructions(kernel, ops[count as int], place),
            );
            &&& agrees(
                device,
                kernel,
                ops,
                looped,
                position,
                after,
                performed(device, position, state, ops[count as int]),
                count + 1,
            )
            &&& flow_only(kernel, machine, after)
        }),
{
    reveal_with_fuel(Device::after, 3);
    let op = ops[count as int];
    let made = op_instructions(kernel, op, place);
    let after = device.after(machine, made);
    let next = performed(device, position, state, op);
    if made.len() == 2 {
        assert(made.drop_last().last() == made[0]);
        assert(made.drop_last().drop_last().len() == 0);
        assert(after == device.step(device.step(machine, made[0]), made[1]));
    } else if made.len() == 1 {
        assert(made.drop_last().len() == 0);
        assert(after == device.step(machine, made[0]));
    }
    match op.kind {
        PcuDispatchOpKind::Data(PcuDispatchDataOp::BindingLoad { binding, .. })
        | PcuDispatchOpKind::Data(PcuDispatchDataOp::BindingStore { binding, .. }) => {
            lemma_binding_place_holds(kernel.bindings@, kernel.bindings@.len(), binding);
            let at = binding_place(kernel.bindings@, kernel.bindings@.len(), binding)->Some_0;
            assert(addressed(kernel.bindings@[at], binding));
            let between = device.step(machine, made[0]);
            let variable = (19 + at) as u32;
            let path = between.pointers[pointer_id(kernel, place)].1;
            assert(between.pointers[pointer_id(kernel, place)].0 == variable);
            assert(path.len() == 2);
            assert(path[0] == 0);
            assert(path[1] == if looped {
                position
            } else {
                device.invocation[0]
            });
            assert(between.leads_to_element(pointer_id(kernel, place)));
            assert(between.address(pointer_id(kernel, place)) == (
                binding.set,
                binding.binding,
                path[1],
            ));
        },
        _ => {},
    }
    // What is read was computed before.
    assert forall|value: PcuDispatchValueId| #[trigger]
        defined_before(ops, count as int, value) implies machine.values[value_id(kernel, value)]
        == state.values[value.0] by {
        let i = choose|i: int| 0 <= i < count && #[trigger] defined_by(ops[i]) == Some(value);
        assert(defined_by(ops[i]) == Some(value));
    }
    if let Some(result) = defined_by(op) {
        assert(defined_by(ops[count as int]) == Some(result));
        lemma_value_id(kernel, result);
        assert(constant_of(op) is None ==> after.values == machine.values.insert(
            value_id(kernel, result),
            next.values[result.0],
        ));
        assert(constant_of(op) is Some ==> after == machine);
        assert forall|i: int|
            #![trigger defined_by(ops[i])]
            0 <= i < count + 1 implies (defined_by(ops[i]) matches Some(value)
            ==> after.values[value_id(kernel, value)] == next.values[value.0]) by {
            if let Some(value) = defined_by(ops[i]) {
                lemma_value_id(kernel, value);
            }
        }
        assert forall|i: int|
            #![trigger ops[i]]
            0 <= i < ops.len() implies (constant_of(ops[i]) matches Some((r, b))
            ==> after.values[value_id(kernel, r)] == b) by {
            if let Some((r, b)) = constant_of(ops[i]) {
                assert(defined_by(ops[i]) == Some(r));
                lemma_value_id(kernel, r);
                if i < count {
                    assert(defined_by(ops[i]) != defined_by(ops[count as int]));
                } else if i > count {
                    assert(defined_by(ops[count as int]) != defined_by(ops[i]));
                }
            }
        }
    } else {
        assert(after.values == machine.values);
        assert(next.values == state.values);
    }
}

/// The operations keep the machine and the kernel in agreement.
proof fn lemma_flow(
    device: Device,
    kernel: PcuDispatchKernelIr,
    ops: Seq<PcuDispatchOp>,
    looped: bool,
    position: u32,
    machine: Machine,
    first: int,
    count: nat,
)
    requires
        id_bound(kernel) <= u32::MAX,
        numbered(kernel, ops),
        count <= ops.len(),
        forall|i: int| 0 <= i < count ==> #[trigger] op_ready(kernel, ops, i, looped),
        agrees(
            device,
            kernel,
            ops,
            looped,
            position,
            machine,
            performed_all(device, position, machine.memory, ops, 0),
            0,
        ),
        looped ==> some_loop(kernel.ops@),
        kernel.ops@.len() > 0,
        kernel.ops@[0].kind is GridStrideLoop ==> some_loop(kernel.ops@),
    ensures
        ({
            let after = device.after(machine, flow_instructions(kernel, ops, first, count));
            &&& agrees(
                device,
                kernel,
                ops,
                looped,
                position,
                after,
                performed_all(device, position, machine.memory, ops, count),
                count,
            )
            &&& flow_only(kernel, machine, after)
        }),
    decreases count,
{
    if count > 0 {
        let fewer = (count - 1) as nat;
        lemma_flow(device, kernel, ops, looped, position, machine, first, fewer);
        let before = device.after(machine, flow_instructions(kernel, ops, first, fewer));
        assert(op_ready(kernel, ops, fewer as int, looped));
        lemma_flow_step(
            device,
            kernel,
            ops,
            looped,
            position,
            before,
            performed_all(device, position, machine.memory, ops, fewer),
            fewer,
            first + count - 1,
        );
        lemma_after_add(
            device,
            machine,
            flow_instructions(kernel, ops, first, fewer),
            op_instructions(kernel, ops[count - 1], first + count - 1),
        );
    }
}

/// What memory holds after a loop that stands at `position`: its body is carried out there, and at
/// every further stride as long as that is below the extent.
pub open spec fn looped_memory(
    device: Device,
    body: Seq<PcuDispatchOp>,
    stride: nat,
    extent: nat,
    position: nat,
    memory: Map<(u32, u32, u32), u32>,
) -> Map<(u32, u32, u32), u32>
    decreases
        if position < extent {
            extent - position
        } else {
            0
        },
{
    if position >= extent || stride == 0 {
        memory
    } else {
        looped_memory(
            device,
            body,
            stride,
            extent,
            position + stride,
            performed_all(device, position as u32, memory, body, body.len()).memory,
        )
    }
}

/// What memory holds after one invocation of a data-flow kernel: after its operations, one after
/// the other, or after its loop, which starts at the invocation and strides over as many elements
/// as the dispatch has invocations. An invocation beyond those does nothing.
pub open spec fn kernel_memory(
    device: Device,
    kernel: PcuDispatchKernelIr,
    memory: Map<(u32, u32, u32), u32>,
) -> Map<(u32, u32, u32), u32> {
    let invocation = device.invocation[0];
    match kernel.ops@[0].kind {
        PcuDispatchOpKind::GridStrideLoop { extent, body } => {
            let stride = kernel.entry.logical_shape@[0];
            if invocation < stride {
                looped_memory(
                    device,
                    body@,
                    stride as nat,
                    extent as nat,
                    invocation as nat,
                    memory,
                )
            } else {
                memory
            }
        },
        _ => performed_all(device, 0, memory, kernel.ops@, kernel.ops@.len()).memory,
    }
}

/// The instructions of operations that can be carried out do not jump.
proof fn lemma_flow_is_plain(
    kernel: PcuDispatchKernelIr,
    ops: Seq<PcuDispatchOp>,
    looped: bool,
    first: int,
    count: nat,
)
    requires
        count <= ops.len(),
        forall|i: int| 0 <= i < count ==> #[trigger] op_ready(kernel, ops, i, looped),
    ensures
        forall|i: int|
            0 <= i < flow_instructions(kernel, ops, first, count).len() ==> {
                let instruction = #[trigger] flow_instructions(kernel, ops, first, count)[i];
                !jumps(instruction) && instruction.opcode != 248
            },
    decreases count,
{
    if count > 0 {
        let fewer = (count - 1) as nat;
        lemma_flow_is_plain(kernel, ops, looped, first, fewer);
        assert(op_ready(kernel, ops, fewer as int, looped));
        let before = flow_instructions(kernel, ops, first, fewer);
        let all = flow_instructions(kernel, ops, first, count);
        assert forall|i: int| 0 <= i < all.len() implies {
            let instruction = #[trigger] all[i];
            !jumps(instruction) && instruction.opcode != 248
        } by {
            if i < before.len() {
                assert(all[i] == before[i]);
            }
        }
    }
}

/// What is known of an admitted kernel without a loop.
proof fn lemma_map_kernel(kernel: PcuDispatchKernelIr)
    requires
        dataflow_fault(kernel) is None,
        !some_loop(kernel.ops@),
    ensures
        kernel.ops@.len() > 0,
        flow_list(kernel) == kernel.ops@,
        numbered(kernel, kernel.ops@),
        kernel.ops@.last().kind is Return,
        forall|i: int|
            0 <= i < kernel.ops@.len() - 1 ==> #[trigger] op_ready(kernel, kernel.ops@, i, false),
{
    let ops = kernel.ops@;
    let fault = |i: int| map_op_fault(kernel, i);
    lemma_no_fault(ops.len(), fault);
    assert forall|i: int| 0 <= i < ops.len() implies #[trigger] map_op_fault(kernel, i) is None by {
        assert(fault(i) is None);
    }
    let last = ops.len() - 1;
    assert(map_op_fault(kernel, last) is None);
    let r = choose|r: int| 0 <= r < ops.len() && (#[trigger] ops[r]).kind is Return;
    assert(ops[r].kind is Return);
    assert(!loops(ops[0]));
    lemma_largest_value(ops, ops.len());
    assert forall|i: int|
        #![trigger defined_by(ops[i])]
        0 <= i < ops.len() implies (defined_by(ops[i]) matches Some(value) ==> 0 < value.0
        <= largest_value(ops, ops.len()) && !defined_before(ops, i, value)) by {
        assert(map_op_fault(kernel, i) is None);
        assert(value_number(ops[i]) <= largest_value(ops, ops.len()));
    }
    assert forall|i: int| 0 <= i < ops.len() - 1 implies #[trigger] op_ready(
        kernel,
        ops,
        i,
        false,
    ) by {
        assert(map_op_fault(kernel, i) is None);
    }
}

/// What is known of an admitted kernel with a loop.
proof fn lemma_loop_kernel(kernel: PcuDispatchKernelIr)
    requires
        dataflow_fault(kernel) is None,
        some_loop(kernel.ops@),
    ensures
        kernel.ops@.len() == 2,
        kernel.ops@[0].kind is GridStrideLoop,
        kernel.entry.logical_shape@[0] != 0,
        flow_list(kernel) == loop_body(kernel),
        numbered(kernel, loop_body(kernel)),
        forall|i: int|
            0 <= i < loop_body(kernel).len() ==> #[trigger] op_ready(
                kernel,
                loop_body(kernel),
                i,
                true,
            ),
{
    let ops = loop_body(kernel);
    let fault = |i: int| loop_op_fault(kernel.bindings@, ops, i);
    lemma_no_fault(ops.len(), fault);
    assert forall|i: int| 0 <= i < ops.len() implies #[trigger] loop_op_fault(
        kernel.bindings@,
        ops,
        i,
    ) is None by {
        assert(fault(i) is None);
    }
    lemma_largest_value(kernel.ops@, kernel.ops@.len());
    assert(body_of(kernel.ops@[0]) == ops);
    assert forall|i: int|
        #![trigger defined_by(ops[i])]
        0 <= i < ops.len() implies (defined_by(ops[i]) matches Some(value) ==> 0 < value.0
        <= largest_value(kernel.ops@, kernel.ops@.len()) && !defined_before(ops, i, value)) by {
        assert(loop_op_fault(kernel.bindings@, ops, i) is None);
        assert(value_number(body_of(kernel.ops@[0])[i]) <= largest_value(
            kernel.ops@,
            kernel.ops@.len(),
        ));
    }
    assert forall|i: int| 0 <= i < ops.len() implies #[trigger] op_ready(kernel, ops, i, true) by {
        assert(loop_op_fault(kernel.bindings@, ops, i) is None);
    }
}

/// The module of a kernel without a loop leaves what the kernel leaves.
proof fn lemma_map_module(
    device: Device,
    kernel: PcuDispatchKernelIr,
    options: PcuSpirvLoweringOptions,
    memory: Map<(u32, u32, u32), u32>,
)
    requires
        dataflow_fault(kernel) is None,
        some_flow(kernel.ops@),
        !some_loop(kernel.ops@),
        id_bound(kernel) <= u32::MAX,
        3 + string_words(entry_name(kernel)).len() + module_interface(kernel).len() < 0x1_0000,
    ensures
        device.leaves(
            module_words(kernel, options),
            memory,
            kernel_memory(device, kernel, memory),
        ),
{
    lemma_map_kernel(kernel);
    let ops = kernel.ops@;
    let last = (ops.len() - 1) as nat;
    lemma_entered(device, memory, kernel, options);
    let start = entered(kernel, options);
    lemma_flow_listing(start, kernel, ops, 0, ops.len());
    let body = start.flow_ops(kernel, ops, 0, ops.len());
    lemma_op_instruction(body, super::numbers::OP_FUNCTION_END, seq![]);
    let program = instructions(module_words(kernel, options));
    let head = instructions(start.words);
    let flow = flow_instructions(kernel, ops, 0, last);
    assert(module_words(kernel, options) == body.op(
        super::numbers::OP_FUNCTION_END,
        seq![],
    ).words);
    let plain_part = head + flow;
    let count = plain_part.len();
    assert(program.subrange(0, count as int) =~= plain_part);
    assert(program[count as int].opcode == 253);
    lemma_flow_is_plain(kernel, ops, false, 0, last);
    assert forall|i: int| 0 <= i < 0 + count implies !jumps(#[trigger] program[i]) by {
        assert(program[i] == plain_part[i]);
        if i < head.len() {
            assert(!jumps(head[i]));
        } else {
            assert(!jumps(flow[i - head.len()]));
        }
    }
    let fresh = Machine::fresh(memory);
    lemma_run_plain(device, program, fresh, 0, count, 1);
    lemma_after_add(device, fresh, head, flow);
    let machine = told(device, memory, start);
    assert(agrees(
        device,
        kernel,
        ops,
        false,
        0,
        machine,
        performed_all(device, 0, memory, ops, 0),
        0,
    ));
    lemma_flow(device, kernel, ops, false, 0, machine, 0, last);
    assert(performed_all(device, 0, memory, ops, ops.len()).memory == performed_all(
        device,
        0,
        memory,
        ops,
        last,
    ).memory);
    assert(device.run(program, fresh, 0, 1 + count) is Some);
}

/// The instructions of the head of a loop.
spec fn head_instructions(kernel: PcuDispatchKernelIr) -> Seq<Instruction> {
    let id = |part: u32| loop_id(kernel, part);
    seq![
        Instruction { opcode: 249, operands: seq![id(LOOP_HEADER)] },
        Instruction { opcode: 248, operands: seq![id(LOOP_HEADER)] },
        Instruction {
            opcode: 245,
            operands: seq![
                5u32,
                id(LOOP_INDEX),
                17u32,
                4u32,
                id(LOOP_NEXT_INDEX),
                id(LOOP_CONTINUE_LABEL),
            ],
        },
        Instruction {
            opcode: 176,
            operands: seq![18u32, id(LOOP_INDEX_IN_RANGE), id(LOOP_INDEX), id(LOOP_EXTENT)],
        },
        Instruction {
            opcode: 176,
            operands: seq![18u32, id(LOOP_BASE_IN_RANGE), 17u32, id(LOOP_STRIDE)],
        },
        Instruction {
            opcode: 167,
            operands: seq![
                18u32,
                id(LOOP_CONDITION),
                id(LOOP_INDEX_IN_RANGE),
                id(LOOP_BASE_IN_RANGE),
            ],
        },
        Instruction {
            opcode: 246,
            operands: seq![id(LOOP_MERGE_LABEL), id(LOOP_CONTINUE_LABEL), 0u32],
        },
        Instruction {
            opcode: 250,
            operands: seq![id(LOOP_CONDITION), id(LOOP_BODY_LABEL), id(LOOP_MERGE_LABEL)],
        },
        Instruction { opcode: 248, operands: seq![id(LOOP_BODY_LABEL)] },
    ]
}

/// The instructions of the tail of a loop.
spec fn tail_instructions(kernel: PcuDispatchKernelIr) -> Seq<Instruction> {
    let id = |part: u32| loop_id(kernel, part);
    seq![
        Instruction { opcode: 249, operands: seq![id(LOOP_CONTINUE_LABEL)] },
        Instruction { opcode: 248, operands: seq![id(LOOP_CONTINUE_LABEL)] },
        Instruction {
            opcode: 128,
            operands: seq![5u32, id(LOOP_RAW_NEXT_INDEX), id(LOOP_INDEX), id(LOOP_STRIDE)],
        },
        Instruction {
            opcode: 130,
            operands: seq![5u32, id(LOOP_REMAINING), id(LOOP_EXTENT), id(LOOP_INDEX)],
        },
        Instruction {
            opcode: 178,
            operands: seq![18u32, id(LOOP_STOP), id(LOOP_REMAINING), id(LOOP_STRIDE)],
        },
        Instruction {
            opcode: 169,
            operands: seq![
                5u32,
                id(LOOP_NEXT_INDEX),
                id(LOOP_STOP),
                id(LOOP_EXTENT),
                id(LOOP_RAW_NEXT_INDEX),
            ],
        },
        Instruction { opcode: 249, operands: seq![id(LOOP_HEADER)] },
        Instruction { opcode: 248, operands: seq![id(LOOP_MERGE_LABEL)] },
        Instruction { opcode: 253, operands: seq![] },
        Instruction { opcode: 56, operands: seq![] },
    ]
}

/// One more instruction, written as a list of instructions.
spec fn with_instruction(stream: Stream, instruction: Instruction) -> Stream {
    stream.op(instruction.opcode as u16, instruction.operands)
}

/// The first instructions of a list, added one by one.
spec fn with_instructions(stream: Stream, list: Seq<Instruction>) -> Stream
    decreases list.len(),
{
    if list.len() == 0 {
        stream
    } else {
        with_instruction(with_instructions(stream, list.drop_last()), list.last())
    }
}

proof fn lemma_with_instructions(stream: Stream, list: Seq<Instruction>)
    requires
        whole(stream),
        forall|i: int|
            0 <= i < list.len() ==> (#[trigger] list[i]).opcode < 0x1_0000
                && list[i].operands.len() < 0xffff,
    ensures
        whole(with_instructions(stream, list)),
        instructions(with_instructions(stream, list).words) == instructions(stream.words) + list,
    decreases list.len(),
{
    if list.len() == 0 {
        assert(instructions(stream.words) + list =~= instructions(stream.words));
    } else {
        let rest = list.drop_last();
        assert forall|i: int| 0 <= i < rest.len() implies (#[trigger] rest[i]).opcode < 0x1_0000
            && rest[i].operands.len() < 0xffff by {
            assert(rest[i] == list[i]);
        }
        lemma_with_instructions(stream, rest);
        let last = list.last();
        assert(list[list.len() - 1] == last);
        let before = with_instructions(stream, rest);
        lemma_op_is_whole(before, last.opcode as u16, last.operands);
        lemma_op_instruction(before, last.opcode as u16, last.operands);
        assert((instructions(stream.words) + rest).push(last) =~= instructions(stream.words)
            + list);
    }
}

/// Adding a list of instructions is adding its first ones and then the last.
proof fn lemma_with_push(stream: Stream, list: Seq<Instruction>, last: Instruction)
    ensures
        with_instructions(stream, list.push(last)) == with_instruction(
            with_instructions(stream, list),
            last,
        ),
{
    assert(list.push(last).drop_last() =~= list);
}

proof fn lemma_head_listing(stream: Stream, kernel: PcuDispatchKernelIr)
    requires
        whole(stream),
    ensures
        whole(stream.loop_head(kernel)),
        instructions(stream.loop_head(kernel).words) == instructions(stream.words)
            + head_instructions(kernel),
{
    let list = head_instructions(kernel);
    lemma_with_instructions(stream, list);
    lemma_list_of_nine(stream, list);
    assert(stream.loop_head(kernel) == with_instructions(stream, list));
}

proof fn lemma_tail_listing(stream: Stream, kernel: PcuDispatchKernelIr)
    requires
        whole(stream),
    ensures
        whole(stream.loop_tail(kernel)),
        instructions(stream.loop_tail(kernel).words) == instructions(stream.words)
            + tail_instructions(kernel),
{
    let list = tail_instructions(kernel);
    lemma_with_instructions(stream, list);
    lemma_list_of_nine(stream, list.take(9));
    lemma_with_push(stream, list.take(9), list[9]);
    assert(list.take(9).push(list[9]) =~= list);
    assert(stream.loop_tail(kernel) == with_instructions(stream, list));
}

proof fn lemma_list_of_nine(stream: Stream, list: Seq<Instruction>)
    requires
        list.len() == 9,
    ensures
        with_instructions(stream, list) == with_instruction(
            with_instruction(
                with_instruction(
                    with_instruction(
                        with_instruction(
                            with_instruction(
                                with_instruction(
                                    with_instruction(with_instruction(stream, list[0]), list[1]),
                                    list[2],
                                ),
                                list[3],
                            ),
                            list[4],
                        ),
                        list[5],
                    ),
                    list[6],
                ),
                list[7],
            ),
            list[8],
        ),
{
    let part = |count: int| list.take(count);
    assert(part(0).len() == 0);
    lemma_with_push(stream, part(0), list[0]);
    assert(part(0).push(list[0]) =~= part(1));
    lemma_with_push(stream, part(1), list[1]);
    assert(part(1).push(list[1]) =~= part(2));
    lemma_with_push(stream, part(2), list[2]);
    assert(part(2).push(list[2]) =~= part(3));
    lemma_with_push(stream, part(3), list[3]);
    assert(part(3).push(list[3]) =~= part(4));
    lemma_with_push(stream, part(4), list[4]);
    assert(part(4).push(list[4]) =~= part(5));
    lemma_with_push(stream, part(5), list[5]);
    assert(part(5).push(list[5]) =~= part(6));
    lemma_with_push(stream, part(6), list[6]);
    assert(part(6).push(list[6]) =~= part(7));
    lemma_with_push(stream, part(7), list[7]);
    assert(part(7).push(list[7]) =~= part(8));
    lemma_with_push(stream, part(8), list[8]);
    assert(part(8).push(list[8]) =~= list);
}

/// The first block with a label is the one that is found.
proof fn lemma_label(program: Seq<Instruction>, at: int, place: int, label: u32)
    requires
        0 <= at <= place < program.len(),
        program[place].opcode == 248,
        program[place].operands[0] == label,
        forall|i: int|
            at <= i < place ==> !((#[trigger] program[i]).opcode == 248 && program[i].operands[0]
                == label),
    ensures
        label_from(program, at, label) == place,
    decreases place - at,
{
    if at < place {
        lemma_label(program, at + 1, place, label);
    }
}

/// The instructions of the module of a kernel with a loop.
spec fn loop_program(
    kernel: PcuDispatchKernelIr,
    options: PcuSpirvLoweringOptions,
) -> Seq<Instruction> {
    let body = loop_body(kernel);
    instructions(entered(kernel, options).words) + head_instructions(kernel) + flow_instructions(
        kernel,
        body,
        1,
        body.len(),
    ) + tail_instructions(kernel)
}

/// Where the loop's head starts.
spec fn head_place(kernel: PcuDispatchKernelIr, options: PcuSpirvLoweringOptions) -> int {
    instructions(entered(kernel, options).words).len() as int
}

/// Where the loop's tail starts.
spec fn tail_place(kernel: PcuDispatchKernelIr, options: PcuSpirvLoweringOptions) -> int {
    head_place(kernel, options) + 9 + flow_instructions(
        kernel,
        loop_body(kernel),
        1,
        loop_body(kernel).len(),
    ).len()
}

/// The kernel is an admitted one with a loop.
spec fn loop_ready(kernel: PcuDispatchKernelIr) -> bool {
    &&& dataflow_fault(kernel) is None
    &&& some_loop(kernel.ops@)
    &&& id_bound(kernel) <= u32::MAX
    &&& 3 + string_words(entry_name(kernel)).len() + module_interface(kernel).len() < 0x1_0000
}

/// Where the parts of a program of four parts stand.
proof fn lemma_four_parts(
    first: Seq<Instruction>,
    second: Seq<Instruction>,
    third: Seq<Instruction>,
    fourth: Seq<Instruction>,
)
    ensures
        ({
            let program = first + second + third + fourth;
            let (b, c) = (first.len() as int, (first.len() + second.len()) as int);
            let d = c + third.len();
            &&& program.subrange(0, b) == first
            &&& program.subrange(b, c) == second
            &&& program.subrange(c, d) == third
            &&& program.subrange(d, d + fourth.len()) == fourth
            &&& program.len() == d + fourth.len()
            &&& forall|i: int| 0 <= i < b ==> #[trigger] program[i] == first[i]
            &&& forall|i: int| b <= i < c ==> #[trigger] program[i] == second[i - b]
            &&& forall|i: int| c <= i < d ==> #[trigger] program[i] == third[i - c]
            &&& forall|i: int| d <= i < program.len() ==> #[trigger] program[i] == fourth[i - d]
        }),
{
    let program = first + second + third + fourth;
    let (b, c) = (first.len() as int, (first.len() + second.len()) as int);
    let d = c + third.len();
    assert(program.subrange(0, b) =~= first);
    assert(program.subrange(b, c) =~= second);
    assert(program.subrange(c, d) =~= third);
    assert(program.subrange(d, d + fourth.len()) =~= fourth);
}

/// No instruction is a label with one of these names.
spec fn names_none(list: Seq<Instruction>, low: u32) -> bool {
    forall|i: int|
        0 <= i < list.len() ==> !((#[trigger] list[i]).opcode == 248 && low
            <= list[i].operands[0] <= low + 3)
}

/// The labels of a loop are found where they stand.
proof fn lemma_loop_labels(
    kernel: PcuDispatchKernelIr,
    first: Seq<Instruction>,
    third: Seq<Instruction>,
)
    requires
        id_bound(kernel) <= u32::MAX,
        some_loop(kernel.ops@),
        names_none(first, loop_id(kernel, 0)),
        names_none(third, loop_id(kernel, 0)),
    ensures
        ({
            let program = first + head_instructions(kernel) + third + tail_instructions(kernel);
            let head = first.len() as int;
            let tail = head + 9 + third.len();
            &&& label_from(program, 0, loop_id(kernel, LOOP_HEADER)) == head + 1
            &&& label_from(program, 0, loop_id(kernel, LOOP_BODY_LABEL)) == head + 8
            &&& label_from(program, 0, loop_id(kernel, LOOP_CONTINUE_LABEL)) == tail + 1
            &&& label_from(program, 0, loop_id(kernel, LOOP_MERGE_LABEL)) == tail + 7
        }),
{
    let (second, fourth) = (head_instructions(kernel), tail_instructions(kernel));
    let program = first + second + third + fourth;
    let head = first.len() as int;
    let tail = head + 9 + third.len();
    lemma_four_parts(first, second, third, fourth);
    assert forall|i: int, label: u32|
        #![trigger program[i], loop_id(kernel, label)]
        0 <= i < head && label < 4 implies !(program[i].opcode == 248 && program[i].operands[0]
        == loop_id(kernel, label)) by {
        assert(program[i] == first[i]);
    }
    assert forall|i: int, label: u32|
        #![trigger program[i], loop_id(kernel, label)]
        head + 9 <= i < tail && label < 4 implies !(program[i].opcode == 248
        && program[i].operands[0] == loop_id(kernel, label)) by {
        assert(program[i] == third[i - (head + 9)]);
    }
    lemma_label(program, 0, head + 1, loop_id(kernel, LOOP_HEADER));
    lemma_label(program, 0, head + 8, loop_id(kernel, LOOP_BODY_LABEL));
    lemma_label(program, 0, tail + 1, loop_id(kernel, LOOP_CONTINUE_LABEL));
    lemma_label(program, 0, tail + 7, loop_id(kernel, LOOP_MERGE_LABEL));
}

/// The instructions of the module of a kernel with a loop.
proof fn lemma_loop_listing(
    device: Device,
    memory: Map<(u32, u32, u32), u32>,
    kernel: PcuDispatchKernelIr,
    options: PcuSpirvLoweringOptions,
)
    requires
        loop_ready(kernel),
        some_flow(kernel.ops@),
    ensures
        instructions(module_words(kernel, options)) == loop_program(kernel, options),
{
    lemma_loop_kernel(kernel);
    lemma_entered(device, memory, kernel, options);
    let start = entered(kernel, options);
    let body = loop_body(kernel);
    lemma_head_listing(start, kernel);
    lemma_flow_listing(start.loop_head(kernel), kernel, body, 1, body.len());
    let carried = start.loop_head(kernel).flow_ops(kernel, body, 1, body.len());
    lemma_tail_listing(carried, kernel);
    assert(module_words(kernel, options) == carried.loop_tail(kernel).words);
}

/// The program of a loop is that of its module, and holds what the loop needs.
#[verifier::rlimit(40)]
proof fn lemma_loop_program(
    device: Device,
    memory: Map<(u32, u32, u32), u32>,
    kernel: PcuDispatchKernelIr,
    options: PcuSpirvLoweringOptions,
)
    requires
        loop_ready(kernel),
        some_flow(kernel.ops@),
    ensures
        ({
            let program = loop_program(kernel, options);
            let (head, tail) = (head_place(kernel, options), tail_place(kernel, options));
            &&& instructions(module_words(kernel, options)) == program
            &&& label_from(program, 0, loop_id(kernel, LOOP_HEADER)) == head + 1
            &&& label_from(program, 0, loop_id(kernel, LOOP_BODY_LABEL)) == head + 8
            &&& label_from(program, 0, loop_id(kernel, LOOP_CONTINUE_LABEL)) == tail + 1
            &&& label_from(program, 0, loop_id(kernel, LOOP_MERGE_LABEL)) == tail + 7
            &&& forall|i: int| 0 <= i < head ==> !jumps(#[trigger] program[i])
            &&& forall|i: int| head + 9 <= i < tail ==> !jumps(#[trigger] program[i])
        }),
{
    lemma_loop_kernel(kernel);
    lemma_entered(device, memory, kernel, options);
    let start = entered(kernel, options);
    let body = loop_body(kernel);
    let before = instructions(start.words);
    let flow = flow_instructions(kernel, body, 1, body.len());
    let (head, tail) = (head_place(kernel, options), tail_place(kernel, options));
    let program = loop_program(kernel, options);
    lemma_loop_listing(device, memory, kernel, options);
    lemma_four_parts(before, head_instructions(kernel), flow, tail_instructions(kernel));
    lemma_flow_is_plain(kernel, body, true, 1, body.len());
    assert forall|i: int| 0 <= i < head implies !jumps(#[trigger] program[i]) by {
        assert(program[i] == before[i]);
        assert(!jumps(before[i]));
    }
    assert forall|i: int| head + 9 <= i < tail implies !jumps(#[trigger] program[i]) by {
        assert(program[i] == flow[i - (head + 9)]);
    }
    assert(names_none(before, loop_id(kernel, 0))) by {
        assert forall|i: int| 0 <= i < before.len() implies !((#[trigger] before[i]).opcode == 248
            && loop_id(kernel, 0) <= before[i].operands[0] <= loop_id(kernel, 0) + 3) by {
            let label = before[i].operands[0];
            if label != 4 {
                assert(lacks(start, label));
            }
        }
    }
    lemma_loop_labels(kernel, before, flow);
}

/// The machine knows everything that a loop starts from.
spec fn based(device: Device, kernel: PcuDispatchKernelIr, machine: Machine) -> bool {
    &&& declared(kernel, machine)
    &&& machine.values[17] == device.invocation[0]
}

/// Only what belongs to the loop itself has changed, and not its bounds.
spec fn aside(kernel: PcuDispatchKernelIr, before: Machine, after: Machine) -> bool {
    &&& after == (Machine {
        values: after.values,
        block: after.block,
        previous: after.previous,
        ..before
    })
    &&& forall|id: u32|
        id < loop_id(kernel, 0) || id == loop_id(kernel, LOOP_EXTENT) || id == loop_id(
            kernel,
            LOOP_STRIDE,
        ) ==> #[trigger] after.values[id] == before.values[id]
}

proof fn lemma_aside(device: Device, kernel: PcuDispatchKernelIr, before: Machine, after: Machine)
    requires
        loop_ready(kernel),
        based(device, kernel, before),
        aside(kernel, before, after),
    ensures
        based(device, kernel, after),
{
    lemma_loop_kernel(kernel);
    let ops = flow_list(kernel);
    assert(6 < loop_id(kernel, 0) && 17 < loop_id(kernel, 0));
    assert forall|i: int|
        #![trigger ops[i]]
        0 <= i < ops.len() implies (constant_of(ops[i]) matches Some((r, b)) ==> after.values[
        value_id(kernel, r)
    ] == b) by {
        if let Some((r, b)) = constant_of(ops[i]) {
            assert(defined_by(ops[i]) == Some(r));
            lemma_value_id(kernel, r);
        }
    }
}

proof fn lemma_after_push(
    device: Device,
    machine: Machine,
    list: Seq<Instruction>,
    count: int,
)
    requires
        0 <= count < list.len(),
    ensures
        device.after(machine, list.take(count + 1)) == device.step(
            device.after(machine, list.take(count)),
            list[count],
        ),
{
    assert(list.take(count + 1).drop_last() =~= list.take(count));
}

/// The head of a loop finds the loop's index and whether the loop goes on.
proof fn lemma_head(device: Device, kernel: PcuDispatchKernelIr, machine: Machine, position: u32)
    requires
        loop_ready(kernel),
        based(device, kernel, machine),
        machine.previous == 4 ==> position == device.invocation[0],
        machine.previous != 4 ==> machine.values[loop_id(kernel, LOOP_NEXT_INDEX)] == position,
    ensures
        ({
            let after = device.after(machine, head_instructions(kernel).subrange(1, 7));
            &&& aside(kernel, machine, after)
            &&& after.values[loop_id(kernel, LOOP_INDEX)] == position
            &&& after.values[loop_id(kernel, LOOP_CONDITION)] == if position
                < kernel.ops@[0].kind->GridStrideLoop_extent && device.invocation[0]
                < kernel.entry.logical_shape@[0] {
                1u32
            } else {
                0u32
            }
            &&& after.block == loop_id(kernel, LOOP_HEADER)
        }),
{
    lemma_loop_kernel(kernel);
    let list = head_instructions(kernel).subrange(1, 7);
    let id = |part: u32| loop_id(kernel, part);
    assert(list.take(0).len() == 0);
    assert(list.take(6) =~= list);
    let m0 = device.after(machine, list.take(0));
    lemma_after_push(device, machine, list, 0);
    let m1 = device.after(machine, list.take(1));
    assert(m1 == (Machine { block: id(LOOP_HEADER), ..machine }));
    lemma_after_push(device, machine, list, 1);
    let m2 = device.after(machine, list.take(2));
    assert(m2 == m1.with(id(LOOP_INDEX), position));
    lemma_after_push(device, machine, list, 2);
    let m3 = device.after(machine, list.take(3));
    let extent = kernel.ops@[0].kind->GridStrideLoop_extent;
    assert(m3 == m2.with(id(LOOP_INDEX_IN_RANGE), truth(position < extent)));
    lemma_after_push(device, machine, list, 3);
    let m4 = device.after(machine, list.take(4));
    let stride = kernel.entry.logical_shape@[0];
    assert(m4 == m3.with(id(LOOP_BASE_IN_RANGE), truth(device.invocation[0] < stride)));
    lemma_after_push(device, machine, list, 4);
    let m5 = device.after(machine, list.take(5));
    assert(m5 == m4.with(
        id(LOOP_CONDITION),
        truth(position < extent && device.invocation[0] < stride),
    ));
    lemma_after_push(device, machine, list, 5);
    assert(device.after(machine, list) == m5);
}

/// The tail of a loop finds the next index: a stride further, or the extent if that is not below
/// it.
proof fn lemma_tail(device: Device, kernel: PcuDispatchKernelIr, machine: Machine, position: u32)
    requires
        loop_ready(kernel),
        based(device, kernel, machine),
        machine.values[loop_id(kernel, LOOP_INDEX)] == position,
        position < kernel.ops@[0].kind->GridStrideLoop_extent,
    ensures
        ({
            let after = device.after(machine, tail_instructions(kernel).subrange(1, 6));
            let extent = kernel.ops@[0].kind->GridStrideLoop_extent;
            let stride = kernel.entry.logical_shape@[0];
            &&& aside(kernel, machine, after)
            &&& after.values[loop_id(kernel, LOOP_NEXT_INDEX)] == if position + stride < extent {
                position + stride
            } else {
                extent as int
            }
            &&& after.block == loop_id(kernel, LOOP_CONTINUE_LABEL)
        }),
{
    lemma_loop_kernel(kernel);
    let list = tail_instructions(kernel).subrange(1, 6);
    let id = |part: u32| loop_id(kernel, part);
    let extent = kernel.ops@[0].kind->GridStrideLoop_extent;
    let stride = kernel.entry.logical_shape@[0];
    assert(list.take(0).len() == 0);
    assert(list.take(5) =~= list);
    lemma_after_push(device, machine, list, 0);
    let m1 = device.after(machine, list.take(1));
    assert(m1 == (Machine { block: id(LOOP_CONTINUE_LABEL), ..machine }));
    lemma_after_push(device, machine, list, 1);
    let m2 = device.after(machine, list.take(2));
    assert(m2 == m1.with(id(LOOP_RAW_NEXT_INDEX), wrapped_sum(position, stride)));
    lemma_after_push(device, machine, list, 2);
    let m3 = device.after(machine, list.take(3));
    assert(m3 == m2.with(id(LOOP_REMAINING), (extent - position) as u32));
    lemma_after_push(device, machine, list, 3);
    let m4 = device.after(machine, list.take(4));
    assert(m4 == m3.with(id(LOOP_STOP), truth(extent - position <= stride)));
    lemma_after_push(device, machine, list, 4);
    let m5 = device.after(machine, list);
    assert(m5.values[id(LOOP_NEXT_INDEX)] == if extent - position <= stride {
        extent
    } else {
        wrapped_sum(position, stride)
    });
}

/// The parts of a loop's program that are run in one go.
proof fn lemma_loop_parts(kernel: PcuDispatchKernelIr, options: PcuSpirvLoweringOptions)
    ensures
        ({
            let program = loop_program(kernel, options);
            let (head, tail) = (head_place(kernel, options), tail_place(kernel, options));
            let flow = flow_instructions(kernel, loop_body(kernel), 1, loop_body(kernel).len());
            &&& program.len() == tail + 10
            &&& tail == head + 9 + flow.len()
            &&& program.subrange(0, head) == instructions(entered(kernel, options).words)
            &&& program.subrange(head + 1, head + 7) == head_instructions(kernel).subrange(1, 7)
            &&& program.subrange(head + 8, tail) == seq![head_instructions(kernel)[8]] + flow
            &&& program.subrange(tail + 1, tail + 6) == tail_instructions(kernel).subrange(1, 6)
            &&& program[head] == head_instructions(kernel)[0]
            &&& program[head + 7] == head_instructions(kernel)[7]
            &&& program[head + 8] == head_instructions(kernel)[8]
            &&& program[tail] == tail_instructions(kernel)[0]
            &&& program[tail + 6] == tail_instructions(kernel)[6]
            &&& program[tail + 7] == tail_instructions(kernel)[7]
            &&& program[tail + 8] == tail_instructions(kernel)[8]
            &&& forall|i: int| head + 1 <= i < head + 7 ==> !jumps(#[trigger] program[i])
            &&& forall|i: int| tail + 1 <= i < tail + 6 ==> !jumps(#[trigger] program[i])
        }),
{
    let program = loop_program(kernel, options);
    let (head, tail) = (head_place(kernel, options), tail_place(kernel, options));
    let before = instructions(entered(kernel, options).words);
    let flow = flow_instructions(kernel, loop_body(kernel), 1, loop_body(kernel).len());
    let (start, end) = (head_instructions(kernel), tail_instructions(kernel));
    lemma_four_parts(before, start, flow, end);
    assert(start.len() == 9 && end.len() == 10);
    assert(program.subrange(head + 1, head + 7) =~= start.subrange(1, 7));
    assert(program.subrange(head + 8, tail) =~= seq![start[8]] + flow);
    assert(program.subrange(tail + 1, tail + 6) =~= end.subrange(1, 6));
    assert forall|i: int| head + 1 <= i < head + 7 implies !jumps(#[trigger] program[i]) by {
        assert(program[i] == start[i - head]);
    }
    assert forall|i: int| tail + 1 <= i < tail + 6 implies !jumps(#[trigger] program[i]) by {
        assert(program[i] == end[i - tail]);
    }
}

/// The body of a loop does to memory what its operations do.
proof fn lemma_body(
    device: Device,
    kernel: PcuDispatchKernelIr,
    machine: Machine,
    position: u32,
)
    requires
        loop_ready(kernel),
        based(device, kernel, machine),
        machine.values[loop_id(kernel, LOOP_INDEX)] == position,
    ensures
        ({
            let body = loop_body(kernel);
            let flow = flow_instructions(kernel, body, 1, body.len());
            let after = device.after(machine, seq![head_instructions(kernel)[8]] + flow);
            &&& based(device, kernel, after)
            &&& after.values[loop_id(kernel, LOOP_INDEX)] == position
            &&& after.memory == performed_all(
                device,
                position,
                machine.memory,
                body,
                body.len(),
            ).memory
        }),
{
    lemma_loop_kernel(kernel);
    let body = loop_body(kernel);
    let flow = flow_instructions(kernel, body, 1, body.len());
    let label = seq![head_instructions(kernel)[8]];
    lemma_after_add(device, machine, label, flow);
    assert(label.take(0).len() == 0);
    assert(label.take(1) =~= label);
    lemma_after_push(device, machine, label, 0);
    let inside = device.after(machine, label);
    assert(inside == (Machine { block: loop_id(kernel, LOOP_BODY_LABEL), ..machine }));
    lemma_flow(device, kernel, body, true, position, inside, 1, body.len());
}

/// From the head on, a loop does to memory what the kernel says.
#[verifier::rlimit(40)]
proof fn lemma_iterate(
    device: Device,
    kernel: PcuDispatchKernelIr,
    options: PcuSpirvLoweringOptions,
    machine: Machine,
    position: u32,
) -> (limit: nat)
    requires
        loop_ready(kernel),
        some_flow(kernel.ops@),
        based(device, kernel, machine),
        machine.previous == 4 ==> position == device.invocation[0],
        machine.previous != 4 ==> machine.values[loop_id(kernel, LOOP_NEXT_INDEX)] == position,
    ensures
        ({
            let extent = kernel.ops@[0].kind->GridStrideLoop_extent;
            let stride = kernel.entry.logical_shape@[0];
            device.run(
                loop_program(kernel, options),
                machine,
                head_place(kernel, options) + 1,
                limit,
            ) matches Some(end) && end.memory == if device.invocation[0] < stride {
                looped_memory(
                    device,
                    loop_body(kernel),
                    stride as nat,
                    extent as nat,
                    position as nat,
                    machine.memory,
                )
            } else {
                machine.memory
            }
        }),
    decreases
        if position < kernel.ops@[0].kind->GridStrideLoop_extent {
            kernel.ops@[0].kind->GridStrideLoop_extent - position
        } else {
            0
        },
{
    let program = loop_program(kernel, options);
    let (head, tail) = (head_place(kernel, options), tail_place(kernel, options));
    let extent = kernel.ops@[0].kind->GridStrideLoop_extent;
    let stride = kernel.entry.logical_shape@[0];
    let body = loop_body(kernel);
    lemma_loop_kernel(kernel);
    lemma_loop_program(device, machine.memory, kernel, options);
    lemma_loop_parts(kernel, options);
    lemma_head(device, kernel, machine, position);
    let tested = device.after(machine, head_instructions(kernel).subrange(1, 7));
    lemma_aside(device, kernel, machine, tested);
    let chosen = Machine { previous: tested.block, ..tested };
    lemma_aside(device, kernel, machine, chosen);
    let count = (tail - (head + 8)) as nat;
    if position < extent && device.invocation[0] < stride {
        lemma_body(device, kernel, chosen, position);
        let flow = flow_instructions(kernel, body, 1, body.len());
        let carried = device.after(chosen, seq![head_instructions(kernel)[8]] + flow);
        let ended = Machine { previous: carried.block, ..carried };
        lemma_aside(device, kernel, carried, ended);
        lemma_tail(device, kernel, ended, position);
        let advanced = device.after(ended, tail_instructions(kernel).subrange(1, 6));
        lemma_aside(device, kernel, ended, advanced);
        let again = Machine { previous: advanced.block, ..advanced };
        lemma_aside(device, kernel, advanced, again);
        let next = if position + stride < extent {
            (position + stride) as u32
        } else {
            extent
        };
        assert(again.previous != 4);
        let rest = lemma_iterate(device, kernel, options, again, next);
        // One round takes the test, the body and the next index.
        let l5 = rest + 1;
        assert(device.run(program, advanced, tail + 6, l5) == device.run(
            program,
            again,
            head + 1,
            rest,
        ));
        lemma_run_plain(device, program, ended, tail + 1, 5, l5);
        let l4 = l5 + 5;
        assert(device.run(program, carried, tail, l4 + 1) == device.run(
            program,
            ended,
            tail + 1,
            l4,
        ));
        let l3 = l4 + 1;
        assert forall|i: int| head + 8 <= i < head + 8 + count implies !jumps(
            #[trigger] program[i],
        ) by {}
        lemma_run_plain(device, program, chosen, head + 8, count, l3);
        let l2 = l3 + count;
        assert(device.run(program, tested, head + 7, l2 + 1) == device.run(
            program,
            chosen,
            head + 8,
            l2,
        ));
        lemma_run_plain(device, program, machine, head + 1, 6, l2 + 1);
        if position + stride >= extent {
            assert(looped_memory(
                device,
                body,
                stride as nat,
                extent as nat,
                (position + stride) as nat,
                again.memory,
            ) == again.memory);
        }
        l2 + 1 + 6
    } else {
        let merged = device.step(chosen, program[tail + 7]);
        assert(device.run(program, merged, tail + 8, 1) == Some(merged));
        assert(device.run(program, chosen, tail + 7, 2) == Some(merged));
        assert(device.run(program, tested, head + 7, 3) == Some(merged));
        lemma_run_plain(device, program, machine, head + 1, 6, 3);
        9
    }
}

/// The module of a kernel with a loop leaves what the kernel leaves.
proof fn lemma_loop_module(
    device: Device,
    kernel: PcuDispatchKernelIr,
    options: PcuSpirvLoweringOptions,
    memory: Map<(u32, u32, u32), u32>,
)
    requires
        loop_ready(kernel),
        some_flow(kernel.ops@),
    ensures
        device.leaves(
            module_words(kernel, options),
            memory,
            kernel_memory(device, kernel, memory),
        ),
{
    lemma_loop_kernel(kernel);
    lemma_entered(device, memory, kernel, options);
    lemma_loop_program(device, memory, kernel, options);
    lemma_loop_parts(kernel, options);
    let program = loop_program(kernel, options);
    let head = head_place(kernel, options);
    let machine = told(device, memory, entered(kernel, options));
    let left = Machine { previous: machine.block, ..machine };
    lemma_aside(device, kernel, machine, left);
    let limit = lemma_iterate(device, kernel, options, left, device.invocation[0]);
    assert(device.run(program, machine, head, limit + 1) == device.run(
        program,
        left,
        head + 1,
        limit,
    ));
    lemma_run_plain(device, program, Machine::fresh(memory), 0, head as nat, limit + 1);
    assert(device.run(program, Machine::fresh(memory), 0, limit + 1 + head as nat) is Some);
}

/// Emitted modules do what their kernels say. Take an admitted data-flow kernel and the words of
/// the module that it lowers to. A machine that reads the words and runs them for one invocation
/// returns, and then memory holds what carrying the kernel's operations out holds, one after the
/// other, with the left operand of each on the left. A kernel with a loop carries its body out at
/// the invocation's index and at every stride from there that is below the extent.
///
/// The length of the module's entry instruction has to fit the half word that states it.
pub proof fn law_modules_do_what_kernels_say(
    device: Device,
    kernel: PcuDispatchKernelIr,
    options: PcuSpirvLoweringOptions,
    memory: Map<(u32, u32, u32), u32>,
)
    requires
        kernel_fault(kernel, options) is None,
        module_bound(kernel) <= u32::MAX,
        some_flow(kernel.ops@),
        3 + string_words(entry_name(kernel)).len() + module_interface(kernel).len() < 0x1_0000,
    ensures
        device.leaves(
            module_words(kernel, options),
            memory,
            kernel_memory(device, kernel, memory),
        ),
{
    if some_loop(kernel.ops@) {
        lemma_loop_module(device, kernel, options, memory);
    } else {
        lemma_map_module(device, kernel, options, memory);
    }
}

/// Runs a program up to its return.
proof fn lemma_returns(
    device: Device,
    memory: Map<(u32, u32, u32), u32>,
    stream: Stream,
    words: Seq<u32>,
)
    requires
        whole(stream),
        plain(stream),
        words == stream.function_end().words,
    ensures
        device.leaves(words, memory, told(device, memory, stream).memory),
{
    let returned = stream.op(super::numbers::OP_RETURN, seq![]);
    lemma_op_is_whole(stream, super::numbers::OP_RETURN, seq![]);
    lemma_op_instruction(stream, super::numbers::OP_RETURN, seq![]);
    lemma_op_instruction(returned, super::numbers::OP_FUNCTION_END, seq![]);
    let program = instructions(words);
    let before = instructions(stream.words);
    let count = before.len();
    assert(program.subrange(0, count as int) =~= before);
    assert forall|i: int| 0 <= i < 0 + count implies !jumps(#[trigger] program[i]) by {
        assert(program[i] == before[i]);
        assert(!jumps(before[i]));
    }
    assert(program[count as int].opcode == 253);
    lemma_run_plain(device, program, Machine::fresh(memory), 0, count, 1);
    assert(device.run(program, Machine::fresh(memory), 0, 1 + count) is Some);
}

/// The module of a kernel that only returns leaves memory as it was.
pub proof fn law_empty_modules_change_nothing(
    device: Device,
    kernel: PcuDispatchKernelIr,
    options: PcuSpirvLoweringOptions,
    memory: Map<(u32, u32, u32), u32>,
)
    requires
        !some_flow(kernel.ops@),
        !parallel_map(kernel),
        3 + string_words(entry_name(kernel)).len() + module_interface(kernel).len() < 0x1_0000,
    ensures
        device.leaves(module_words(kernel, options), memory, memory),
{
    broadcast use lemma_op_is_whole, lemma_told, lemma_plain;

    lemma_opening(device, memory, kernel, options);
    let opened = module_start(kernel, options).entry(
        entry_name(kernel),
        module_interface(kernel),
    ).local_size();
    let stream = opened.void_types().function_start();
    lemma_returns(device, memory, stream, module_words(kernel, options));
}

/// Everything of the known elementwise module before its function.
spec fn parallel_start(kernel: PcuDispatchKernelIr, options: PcuSpirvLoweringOptions) -> Stream {
    module_start(kernel, options).entry(
        entry_name(kernel),
        module_interface(kernel),
    ).local_size().parallel_decorations().parallel_types().parallel_variables()
}

proof fn lemma_parallel_decorations(
    device: Device,
    memory: Map<(u32, u32, u32), u32>,
    stream: Stream,
)
    requires
        whole(stream),
        plain(stream),
        told(device, memory, stream) == Machine::fresh(memory),
    ensures
        whole(stream.parallel_decorations()),
        plain(stream.parallel_decorations()),
        ({
            let machine = told(device, memory, stream.parallel_decorations());
            &&& machine.supplied == Map::<u32, u32>::empty().insert(20, 28)
            &&& machine.sets[17] == 0 && machine.sets[18] == 0 && machine.sets[19] == 0
            &&& machine.bindings[17] == 0 && machine.bindings[18] == 1 && machine.bindings[19] == 2
            &&& machine.memory == memory
        }),
{
    broadcast use lemma_op_is_whole, lemma_told, lemma_plain;

}

proof fn lemma_parallel_types(
    device: Device,
    memory: Map<(u32, u32, u32), u32>,
    stream: Stream,
)
    requires
        whole(stream),
        plain(stream),
    ensures
        whole(stream.parallel_types()),
        plain(stream.parallel_types()),
        told(device, memory, stream.parallel_types()) == told(device, memory, stream).with(
            6,
            0,
        ).with(8, 0x3f80_0000).with(9, 0x4000_0000),
{
    broadcast use lemma_op_is_whole, lemma_told, lemma_plain;

}

proof fn lemma_parallel_variables(
    device: Device,
    memory: Map<(u32, u32, u32), u32>,
    stream: Stream,
)
    requires
        whole(stream),
        plain(stream),
    ensures
        whole(stream.parallel_variables()),
        plain(stream.parallel_variables()),
        told(device, memory, stream.parallel_variables()) == told(device, memory, stream),
{
    broadcast use lemma_op_is_whole, lemma_told, lemma_plain;

}

/// A pointer to the invocation's element of a buffer.
proof fn lemma_parallel_access(
    device: Device,
    memory: Map<(u32, u32, u32), u32>,
    stream: Stream,
    pointer: u32,
    variable: u32,
)
    requires
        whole(stream),
        plain(stream),
        told(device, memory, stream).values[6] == 0,
    ensures
        ({
            let after = stream.parallel_access(pointer, variable);
            let (before, machine) = (told(device, memory, stream), told(device, memory, after));
            &&& whole(after)
            &&& plain(after)
            &&& machine == (Machine { pointers: machine.pointers, ..before })
            &&& forall|other: u32| other != pointer ==> #[trigger] machine.pointers[other]
                == before.pointers[other]
            &&& machine.pointers[pointer].0 == variable
            &&& machine.leads_to_element(pointer)
            &&& machine.address(pointer) == (
                before.sets[variable],
                before.bindings[variable],
                before.values[22],
            )
        }),
{
    broadcast use lemma_op_is_whole, lemma_told, lemma_plain;

    let after = stream.parallel_access(pointer, variable);
    let machine = told(device, memory, after);
    assert(machine.pointers[pointer].1.len() == 2);
    assert(machine.pointers[pointer].1[0] == 0);
    assert(machine.pointers[pointer].1[1] == told(device, memory, stream).values[22]);
}

/// What the declarations of the known elementwise module tell.
spec fn parallel_declared(machine: Machine, memory: Map<(u32, u32, u32), u32>) -> bool {
    &&& machine.supplied == Map::<u32, u32>::empty().insert(20, 28)
    &&& machine.sets[17] == 0 && machine.sets[18] == 0 && machine.sets[19] == 0
    &&& machine.bindings[17] == 0 && machine.bindings[18] == 1 && machine.bindings[19] == 2
    &&& machine.memory == memory
    &&& machine.values[6] == 0
    &&& machine.values[8] == 0x3f80_0000
    &&& machine.values[9] == 0x4000_0000
}

proof fn lemma_parallel_start(
    device: Device,
    memory: Map<(u32, u32, u32), u32>,
    kernel: PcuDispatchKernelIr,
    options: PcuSpirvLoweringOptions,
)
    requires
        3 + string_words(entry_name(kernel)).len() + module_interface(kernel).len() < 0x1_0000,
    ensures
        whole(parallel_start(kernel, options)),
        plain(parallel_start(kernel, options)),
        parallel_declared(told(device, memory, parallel_start(kernel, options)), memory),
{
    lemma_opening(device, memory, kernel, options);
    let opened = module_start(kernel, options).entry(
        entry_name(kernel),
        module_interface(kernel),
    ).local_size();
    lemma_parallel_decorations(device, memory, opened);
    lemma_parallel_types(device, memory, opened.parallel_decorations());
    lemma_parallel_variables(device, memory, opened.parallel_decorations().parallel_types());
}

/// The known elementwise function with the invocation's index loaded.
spec fn parallel_indexed(stream: Stream) -> Stream {
    stream.function_start().invocation_index(
        super::numbers::PARALLEL_FLOAT_PTR_INPUT_UINT_TYPE_ID,
        super::numbers::PARALLEL_FLOAT_INDEX_PTR_ID,
        super::numbers::PARALLEL_FLOAT_GLOBAL_INVOCATION_ID_VAR_ID,
        super::numbers::PARALLEL_FLOAT_UINT_ZERO_ID,
        super::numbers::PARALLEL_FLOAT_UINT_TYPE_ID,
        super::numbers::PARALLEL_FLOAT_INDEX_ID,
    )
}

/// The known elementwise function with its operands loaded and its pointers made.
spec fn parallel_loaded(stream: Stream) -> Stream {
    parallel_indexed(stream).parallel_access(23, 17).op(
        super::numbers::OP_LOAD,
        seq![7u32, 24u32, 23u32],
    ).parallel_access(25, 18).op(
        super::numbers::OP_LOAD,
        seq![7u32, 26u32, 25u32],
    ).parallel_access(27, 19)
}

/// The known elementwise function with its result stored.
spec fn parallel_stored(stream: Stream) -> Stream {
    parallel_loaded(stream).op(
        super::numbers::OP_F_MUL,
        seq![7u32, 28u32, 24u32, 9u32],
    ).op(super::numbers::OP_F_ADD, seq![7u32, 29u32, 28u32, 26u32]).op(
        super::numbers::OP_F_ADD,
        seq![7u32, 30u32, 29u32, 8u32],
    ).op(super::numbers::OP_STORE, seq![27u32, 30u32])
}

proof fn lemma_parallel_index(device: Device, memory: Map<(u32, u32, u32), u32>, start: Stream)
    requires
        whole(start),
        plain(start),
        parallel_declared(told(device, memory, start), memory),
    ensures
        whole(parallel_indexed(start)),
        plain(parallel_indexed(start)),
        parallel_declared(told(device, memory, parallel_indexed(start)), memory),
        told(device, memory, parallel_indexed(start)).values[22] == device.invocation[0],
{
    broadcast use lemma_op_is_whole, lemma_told, lemma_plain;

    let pointed = start.function_start().op(
        super::numbers::OP_ACCESS_CHAIN,
        seq![12u32, 21u32, 20u32, 6u32],
    );
    let path = told(device, memory, pointed).pointers[21].1;
    assert(path.len() == 1 && path[0] == 0);
}

/// A load through a pointer to the invocation's element.
proof fn lemma_parallel_load(
    device: Device,
    memory: Map<(u32, u32, u32), u32>,
    stream: Stream,
    value: u32,
    pointer: u32,
)
    requires
        whole(stream),
        plain(stream),
        told(device, memory, stream).leads_to_element(pointer),
        told(device, memory, stream).supplied == Map::<u32, u32>::empty().insert(20, 28),
        told(device, memory, stream).pointers[pointer].0 != 20,
    ensures
        ({
            let after = stream.op(super::numbers::OP_LOAD, seq![7u32, value, pointer]);
            let before = told(device, memory, stream);
            &&& whole(after)
            &&& plain(after)
            &&& told(device, memory, after) == before.with(
                value,
                before.memory[before.address(pointer)],
            )
        }),
{
    broadcast use lemma_op_is_whole, lemma_told, lemma_plain;

}

proof fn lemma_parallel_operands(
    device: Device,
    memory: Map<(u32, u32, u32), u32>,
    start: Stream,
)
    requires
        whole(start),
        plain(start),
        parallel_declared(told(device, memory, start), memory),
    ensures
        whole(parallel_loaded(start)),
        plain(parallel_loaded(start)),
        ({
            let machine = told(device, memory, parallel_loaded(start));
            let at = device.invocation[0];
            &&& parallel_declared(machine, memory)
            &&& machine.values[24] == memory[(0, 0, at)]
            &&& machine.values[26] == memory[(0, 1, at)]
            &&& machine.leads_to_element(27)
            &&& machine.address(27) == (0u32, 2u32, at)
        }),
{
    lemma_parallel_index(device, memory, start);
    let s1 = parallel_indexed(start);
    lemma_parallel_access(device, memory, s1, 23, 17);
    let s2 = s1.parallel_access(23, 17);
    lemma_parallel_load(device, memory, s2, 24, 23);
    let s3 = s2.op(super::numbers::OP_LOAD, seq![7u32, 24u32, 23u32]);
    lemma_parallel_access(device, memory, s3, 25, 18);
    let s4 = s3.parallel_access(25, 18);
    lemma_parallel_load(device, memory, s4, 26, 25);
    let s5 = s4.op(super::numbers::OP_LOAD, seq![7u32, 26u32, 25u32]);
    lemma_parallel_access(device, memory, s5, 27, 19);
}

proof fn lemma_parallel_store(device: Device, memory: Map<(u32, u32, u32), u32>, start: Stream)
    requires
        whole(start),
        plain(start),
        parallel_declared(told(device, memory, start), memory),
    ensures
        whole(parallel_stored(start)),
        plain(parallel_stored(start)),
        ({
            let at = device.invocation[0];
            told(device, memory, parallel_stored(start)).memory == memory.insert(
                (0, 2, at),
                (device.sum)(
                    (device.sum)(
                        (device.product)(memory[(0, 0, at)], 0x4000_0000),
                        memory[(0, 1, at)],
                    ),
                    0x3f80_0000,
                ),
            )
        }),
{
    broadcast use lemma_op_is_whole, lemma_told, lemma_plain;

    lemma_parallel_operands(device, memory, start);
}

/// The known elementwise kernel doubles the element of the first buffer, adds that of the second
/// buffer and then one, in this order, and stores the result in the third buffer.
pub proof fn law_elementwise_module_computes_its_map(
    device: Device,
    kernel: PcuDispatchKernelIr,
    options: PcuSpirvLoweringOptions,
    memory: Map<(u32, u32, u32), u32>,
)
    requires
        !some_flow(kernel.ops@),
        parallel_map(kernel),
        3 + string_words(entry_name(kernel)).len() + module_interface(kernel).len() < 0x1_0000,
    ensures
        ({
            let at = device.invocation[0];
            device.leaves(
                module_words(kernel, options),
                memory,
                memory.insert(
                    (0, 2, at),
                    (device.sum)(
                        (device.sum)(
                            (device.product)(memory[(0, 0, at)], 0x4000_0000),
                            memory[(0, 1, at)],
                        ),
                        0x3f80_0000,
                    ),
                ),
            )
        }),
{
    lemma_parallel_start(device, memory, kernel, options);
    let start = parallel_start(kernel, options);
    lemma_parallel_store(device, memory, start);
    let stored = parallel_stored(start);
    assert(module_words(kernel, options) == stored.function_end().words);
    lemma_returns(device, memory, stored, module_words(kernel, options));
}

/// Lowering keeps what a kernel does. Wherever lowering succeeds, the sink has been handed the words
/// of a module that does what its kernel says.
pub proof fn law_lowering_keeps_the_kernel<S: PcuSpirvSink>(
    device: Device,
    kernel: PcuDispatchKernelIr,
    options: PcuSpirvLoweringOptions,
    before: S,
    after: S,
    answer: Result<PcuSpirvModuleInfo, PcuSpirvError>,
    memory: Map<(u32, u32, u32), u32>,
)
    requires
        lowering_outcome(kernel, options, before, after, answer),
        answer is Ok,
        some_flow(kernel.ops@),
        3 + string_words(entry_name(kernel)).len() + module_interface(kernel).len() < 0x1_0000,
    ensures
        before.words().len() <= after.words().len(),
        after.words().take(before.words().len() as int) == before.words(),
        device.leaves(
            after.words().skip(before.words().len() as int),
            memory,
            kernel_memory(device, kernel, memory),
        ),
{
    law_modules_do_what_kernels_say(device, kernel, options, memory);
    let words = module_words(kernel, options);
    assert(after.words() == before.words() + words);
    assert(after.words().take(before.words().len() as int) =~= before.words());
    assert(after.words().skip(before.words().len() as int) =~= words);
}

/// The byte at a place of the words of a string: four to a word, the low one first.
pub open spec fn byte_of(words: Seq<u32>, at: int) -> u32 {
    let word = words[at / 4];
    if at % 4 == 0 {
        word % 256
    } else if at % 4 == 1 {
        (word / 256) % 256
    } else if at % 4 == 2 {
        (word / 65536) % 256
    } else {
        word / 16777216
    }
}

/// A string can be read back from its words: they hold its bytes in order, and from then on zeros,
/// of which there is at least one.
pub proof fn law_strings_are_read_back(bytes: Seq<u8>, at: int)
    requires
        0 <= at < 4 * string_words(bytes).len(),
    ensures
        bytes.len() < 4 * string_words(bytes).len() <= bytes.len() + 4,
        byte_of(string_words(bytes), at) == if at < bytes.len() {
            bytes[at] as int
        } else {
            0
        },
{
    let base = 4 * (at / 4);
    let (a, b) = (padded(bytes, base), padded(bytes, base + 1));
    let (c, d) = (padded(bytes, base + 2), padded(bytes, base + 3));
    let word = a | (b << 8) | (c << 16) | (d << 24);
    assert(string_words(bytes)[at / 4] == word);
    assert(word % 256 == a && (word / 256) % 256 == b && (word / 65536) % 256 == c && word
        / 16777216 == d) by (bit_vector)
        requires
            word == a | (b << 8) | (c << 16) | (d << 24),
            a < 256,
            b < 256,
            c < 256,
            d < 256,
    ;
}

/// A module starts with its header: the magic number, the version and the generator that were asked
/// for, the bound of its identifiers, and zero. The first instructions ask for shaders, name the
/// memory model, and name the entry point: a compute function with the kernel's name.
pub proof fn law_modules_introduce_themselves(
    kernel: PcuDispatchKernelIr,
    options: PcuSpirvLoweringOptions,
)
    ensures
        ({
            let words = module_words(kernel, options);
            let name = string_words(encode_utf8(kernel.entry.name@));
            &&& words.len() >= 13 + name.len()
            &&& words[0] == 0x0723_0203
            &&& words[1] == options.version.0
            &&& words[2] == options.generator
            &&& words[3] == module_bound(kernel) as u32
            &&& words[4] == 0
            &&& words.subrange(5, 7) == seq![0x0002_0011u32, 1u32]
            &&& words.subrange(7, 10) == seq![0x0003_000eu32, 0u32, 1u32]
            &&& words.subrange(11, 13) == seq![5u32, 3u32]
            &&& words.subrange(13, (13 + name.len()) as int) == name
        }),
{
    lemma_module_extends(kernel, options);
    lemma_introduced(kernel, options, module_words(kernel, options));
}

/// What stands before the entry instruction.
proof fn lemma_start_words(kernel: PcuDispatchKernelIr, options: PcuSpirvLoweringOptions)
    ensures
        module_start(kernel, options).words == seq![
            0x0723_0203u32,
            options.version.0,
            options.generator,
            module_bound(kernel) as u32,
            0u32,
            0x0002_0011u32,
            1u32,
            0x0003_000eu32,
            0u32,
            1u32,
        ],
{
    assert((2u32 << 16) | 17u32 == 0x0002_0011u32) by (bit_vector);
    assert((3u32 << 16) | 14u32 == 0x0003_000eu32) by (bit_vector);
    assert(module_start(kernel, options).words =~= seq![
        0x0723_0203u32,
        options.version.0,
        options.generator,
        module_bound(kernel) as u32,
        0u32,
        0x0002_0011u32,
        1u32,
        0x0003_000eu32,
        0u32,
        1u32,
    ]);
}

proof fn lemma_introduced(
    kernel: PcuDispatchKernelIr,
    options: PcuSpirvLoweringOptions,
    words: Seq<u32>,
)
    requires
        module_start(kernel, options).entry(
            entry_name(kernel),
            module_interface(kernel),
        ).words.is_prefix_of(words),
    ensures
        ({
            let name = string_words(entry_name(kernel));
            &&& words.len() >= 13 + name.len()
            &&& words[0] == 0x0723_0203
            &&& words[1] == options.version.0
            &&& words[2] == options.generator
            &&& words[3] == module_bound(kernel) as u32
            &&& words[4] == 0
            &&& words.subrange(5, 7) == seq![0x0002_0011u32, 1u32]
            &&& words.subrange(7, 10) == seq![0x0003_000eu32, 0u32, 1u32]
            &&& words.subrange(11, 13) == seq![5u32, 3u32]
            &&& words.subrange(13, (13 + name.len()) as int) == name
        }),
{
    lemma_start_words(kernel, options);
    let start = module_start(kernel, options).words;
    let name = string_words(entry_name(kernel));
    let entered = module_start(kernel, options).entry(
        entry_name(kernel),
        module_interface(kernel),
    ).words;
    assert(start.len() == 10);
    assert forall|i: int| 0 <= i < entered.len() implies #[trigger] words[i] == entered[i] by {}
    assert forall|i: int| 0 <= i < 10 implies #[trigger] words[i] == start[i] by {
        assert(words[i] == entered[i]);
    }
    assert(words.subrange(5, 7) =~= seq![0x0002_0011u32, 1u32]);
    assert(words.subrange(7, 10) =~= seq![0x0003_000eu32, 0u32, 1u32]);
    assert(words.subrange(11, 13) =~= seq![5u32, 3u32]);
    assert(words.subrange(13, (13 + name.len()) as int) =~= name);
}

/// What was written stays at the start.
broadcast proof fn lemma_op_extends(start: Seq<u32>, stream: Stream, opcode: u16, operands: Seq<u32>)
    requires
        start.is_prefix_of(stream.words),
    ensures
        #[trigger] start.is_prefix_of(stream.op(opcode, operands).words),
{
    assert(start =~= stream.op(opcode, operands).words.subrange(0, start.len() as int));
}

proof fn lemma_lists_extend(
    start: Seq<u32>,
    stream: Stream,
    kernel: PcuDispatchKernelIr,
    ops: Seq<PcuDispatchOp>,
    first: int,
    count: nat,
)
    requires
        start.is_prefix_of(stream.words),
    ensures
        start.is_prefix_of(stream.descriptors(kernel, count).words),
        start.is_prefix_of(stream.constants(kernel, ops, count).words),
        start.is_prefix_of(stream.variables(count).words),
        start.is_prefix_of(stream.flow_ops(kernel, ops, first, count).words),
    decreases count,
{
    broadcast use lemma_op_extends;

    if count > 0 {
        lemma_lists_extend(start, stream, kernel, ops, first, (count - 1) as nat);
    }
}

/// The entry instruction and all before it stay at the start of a module.
proof fn lemma_module_extends(kernel: PcuDispatchKernelIr, options: PcuSpirvLoweringOptions)
    ensures
        module_start(kernel, options).entry(
            entry_name(kernel),
            module_interface(kernel),
        ).words.is_prefix_of(module_words(kernel, options)),
{
    broadcast use lemma_op_extends;

    let entered = module_start(kernel, options).entry(
        entry_name(kernel),
        module_interface(kernel),
    );
    let start = entered.words;
    assert(start =~= start.subrange(0, start.len() as int));
    if some_flow(kernel.ops@) {
        let body = loop_body(kernel);
        let ops = kernel.ops@;
        assert forall|s: Stream| start.is_prefix_of(s.words) implies start.is_prefix_of(
            (#[trigger] s.descriptors(kernel, kernel.bindings@.len())).words,
        ) by {
            lemma_lists_extend(start, s, kernel, ops, 0, kernel.bindings@.len());
        }
        assert forall|s: Stream| start.is_prefix_of(s.words) implies start.is_prefix_of(
            (#[trigger] s.variables(kernel.bindings@.len())).words,
        ) by {
            lemma_lists_extend(start, s, kernel, ops, 0, kernel.bindings@.len());
        }
        assert forall|s: Stream| start.is_prefix_of(s.words) implies start.is_prefix_of(
            (#[trigger] s.flow_constants(kernel)).words,
        ) by {
            lemma_lists_extend(start, s, kernel, ops, 0, ops.len());
            lemma_lists_extend(start, s, kernel, body, 0, body.len());
        }
        assert forall|s: Stream| start.is_prefix_of(s.words) implies start.is_prefix_of(
            (#[trigger] s.flow_ops(kernel, body, 1, body.len())).words,
        ) by {
            lemma_lists_extend(start, s, kernel, body, 1, body.len());
        }
        assert forall|s: Stream| start.is_prefix_of(s.words) implies start.is_prefix_of(
            (#[trigger] s.flow_ops(kernel, ops, 0, ops.len())).words,
        ) by {
            lemma_lists_extend(start, s, kernel, ops, 0, ops.len());
        }
        let sized = entered.local_size();
        assert(start.is_prefix_of(sized.words));
        let decorated = sized.flow_decorations(kernel);
        assert(start.is_prefix_of(decorated.words));
        let typed = decorated.flow_types(kernel);
        assert(start.is_prefix_of(typed.words));
        assert(start.is_prefix_of(typed.flow_function(kernel).words));
    } else if parallel_map(kernel) {
        let sized = entered.local_size();
        let decorated = sized.parallel_decorations();
        assert(start.is_prefix_of(decorated.words));
        let typed = decorated.parallel_types();
        assert(start.is_prefix_of(typed.words));
        let variables = typed.parallel_variables();
        assert(start.is_prefix_of(variables.words));
        assert(start.is_prefix_of(variables.parallel_function().words));
    }
}

} // verus!
