//! Properties of emitted modules as a whole.
use vstd::prelude::*;

use super::dataflow::some_flow;
use super::numbers::SPIRV_MAGIC;
use super::types::PcuSpirvLoweringOptions;
use super::validate::parallel_map;
use super::words::{
    entry_name, module_bound, module_interface, module_start, module_words, opcode_word,
    string_words, Stream,
};
use crate::pcu::ir::{PcuDispatchKernelIr, PcuDispatchOp};

verus! {

/// The number of words that an instruction says it has.
pub open spec fn stated_length(word: u32) -> int {
    (word >> 16) as int
}

/// From `at` on the words are whole instructions, each as long as it says.
pub open spec fn whole_from(words: Seq<u32>, at: int) -> bool
    decreases words.len() - at,
{
    if at >= words.len() {
        at == words.len()
    } else {
        let length = stated_length(words[at]);
        length > 0 && at + length <= words.len() && whole_from(words, at + length)
    }
}

proof fn lemma_whole_stays(words: Seq<u32>, more: Seq<u32>, at: int)
    requires
        0 <= at,
        whole_from(words, at),
        more.len() > 0,
        stated_length(more[0]) == more.len(),
    ensures
        whole_from(words + more, at),
    decreases words.len() - at,
{
    let longer = words + more;
    if at >= words.len() {
        assert(longer[at] == more[0]);
        assert(whole_from(longer, at + more.len()));
    } else {
        assert(longer[at] == words[at]);
        lemma_whole_stays(words, more, at + stated_length(words[at]));
    }
}

proof fn lemma_opcode_word_states_length(word_count: nat, opcode: u16)
    requires
        word_count < 0x1_0000,
    ensures
        stated_length(opcode_word(word_count, opcode)) == word_count,
{
    let count = word_count as u32;
    let code = opcode as u32;
    assert(((count << 16) | code) >> 16 == count) by (bit_vector)
        requires
            count < 0x1_0000,
            code < 0x1_0000,
    ;
}

/// A header and whole instructions.
pub open spec fn whole(stream: Stream) -> bool {
    &&& stream.words.len() >= 5
    &&& stream.words[0] == SPIRV_MAGIC
    &&& whole_from(stream.words, 5)
}

/// An instruction keeps a module whole.
pub broadcast proof fn lemma_op_is_whole(stream: Stream, opcode: u16, operands: Seq<u32>)
    requires
        whole(stream),
        operands.len() < 0xffff,
    ensures
        #[trigger] whole(stream.op(opcode, operands)),
{
    let more = seq![opcode_word(operands.len() + 1, opcode)] + operands;
    lemma_opcode_word_states_length(operands.len() + 1, opcode);
    lemma_whole_stays(stream.words, more, 5);
    assert(stream.op(opcode, operands).words =~= stream.words + more);
}

/// The entry instruction keeps a module whole.
pub proof fn lemma_entry_is_whole(stream: Stream, name: Seq<u8>, interface: Seq<u32>)
    requires
        whole(stream),
        3 + string_words(name).len() + interface.len() < 0x1_0000,
    ensures
        whole(stream.entry(name, interface)),
{
    let after = stream.entry(name, interface).words;
    let more = after.subrange(stream.words.len() as int, after.len() as int);
    lemma_opcode_word_states_length(
        3 + string_words(name).len() + interface.len(),
        super::numbers::OP_ENTRY_POINT,
    );
    assert(after =~= stream.words + more);
    lemma_whole_stays(stream.words, more, 5);
}

proof fn lemma_fixed_parts_are_whole(stream: Stream)
    requires
        whole(stream),
    ensures
        whole(stream.model()),
        whole(stream.local_size()),
        whole(stream.void_types()),
        whole(stream.function_start()),
        whole(stream.function_end()),
{
    broadcast use lemma_op_is_whole;

}

proof fn lemma_minimal_is_whole(stream: Stream)
    requires
        whole(stream),
    ensures
        whole(stream.minimal_rest()),
{
    lemma_fixed_parts_are_whole(stream);
    lemma_fixed_parts_are_whole(stream.local_size());
    lemma_fixed_parts_are_whole(stream.local_size().void_types());
    lemma_fixed_parts_are_whole(stream.local_size().void_types().function_start());
}

proof fn lemma_parallel_decorations_are_whole(stream: Stream)
    requires
        whole(stream),
    ensures
        whole(stream.parallel_decorations()),
{
    broadcast use lemma_op_is_whole;

}

proof fn lemma_parallel_types_are_whole(stream: Stream)
    requires
        whole(stream),
    ensures
        whole(stream.parallel_types()),
{
    broadcast use lemma_op_is_whole;

}

proof fn lemma_parallel_variables_are_whole(stream: Stream)
    requires
        whole(stream),
    ensures
        whole(stream.parallel_variables()),
{
    broadcast use lemma_op_is_whole;

}

proof fn lemma_parallel_function_is_whole(stream: Stream)
    requires
        whole(stream),
    ensures
        whole(stream.parallel_function()),
{
    broadcast use lemma_op_is_whole;

}

proof fn lemma_parallel_is_whole(stream: Stream)
    requires
        whole(stream),
    ensures
        whole(stream.parallel_rest()),
{
    let sized = stream.local_size();
    let decorated = sized.parallel_decorations();
    let typed = decorated.parallel_types();
    let variables = typed.parallel_variables();
    lemma_fixed_parts_are_whole(stream);
    lemma_parallel_decorations_are_whole(sized);
    lemma_parallel_types_are_whole(decorated);
    lemma_parallel_variables_are_whole(typed);
    lemma_parallel_function_is_whole(variables);
}

proof fn lemma_descriptors_are_whole(stream: Stream, kernel: PcuDispatchKernelIr, count: nat)
    requires
        whole(stream),
    ensures
        whole(stream.descriptors(kernel, count)),
    decreases count,
{
    broadcast use lemma_op_is_whole;

    if count > 0 {
        lemma_descriptors_are_whole(stream, kernel, (count - 1) as nat);
    }
}

proof fn lemma_variables_are_whole(stream: Stream, count: nat)
    requires
        whole(stream),
    ensures
        whole(stream.variables(count)),
    decreases count,
{
    broadcast use lemma_op_is_whole;

    if count > 0 {
        lemma_variables_are_whole(stream, (count - 1) as nat);
    }
}

proof fn lemma_constants_are_whole(
    stream: Stream,
    kernel: PcuDispatchKernelIr,
    ops: Seq<PcuDispatchOp>,
    count: nat,
)
    requires
        whole(stream),
    ensures
        whole(stream.constants(kernel, ops, count)),
    decreases count,
{
    broadcast use lemma_op_is_whole;

    if count > 0 {
        lemma_constants_are_whole(stream, kernel, ops, (count - 1) as nat);
    }
}

proof fn lemma_flow_ops_are_whole(
    stream: Stream,
    kernel: PcuDispatchKernelIr,
    ops: Seq<PcuDispatchOp>,
    first: int,
    count: nat,
)
    requires
        whole(stream),
    ensures
        whole(stream.flow_ops(kernel, ops, first, count)),
    decreases count,
{
    broadcast use lemma_op_is_whole;

    if count > 0 {
        lemma_flow_ops_are_whole(stream, kernel, ops, first, (count - 1) as nat);
    }
}

proof fn lemma_flow_types_are_whole(stream: Stream, kernel: PcuDispatchKernelIr)
    requires
        whole(stream),
    ensures
        whole(stream.flow_types(kernel)),
{
    broadcast use lemma_op_is_whole;

    let start = stream.void_types().op(
        super::numbers::OP_TYPE_INT,
        seq![super::numbers::DATAFLOW_UINT_TYPE_ID, 32u32, 0u32],
    ).op(super::numbers::OP_TYPE_BOOL, seq![super::numbers::DATAFLOW_BOOL_TYPE_ID]).op(
        super::numbers::OP_CONSTANT,
        seq![
            super::numbers::DATAFLOW_UINT_TYPE_ID,
            super::numbers::DATAFLOW_UINT_ZERO_ID,
            0u32,
        ],
    ).op(super::numbers::OP_TYPE_FLOAT, seq![super::numbers::DATAFLOW_FLOAT_TYPE_ID, 32u32]);
    assert(whole(start));
    lemma_constants_are_whole(start, kernel, kernel.ops@, kernel.ops@.len());
    lemma_constants_are_whole(
        start,
        kernel,
        super::dataflow::loop_body(kernel),
        super::dataflow::loop_body(kernel).len(),
    );
    assert(whole(start.flow_constants(kernel)));
    assert forall|s: Stream| whole(s) implies whole(#[trigger] s.variables(kernel.bindings@.len()))
        by {
        lemma_variables_are_whole(s, kernel.bindings@.len());
    }
}

proof fn lemma_flow_function_is_whole(stream: Stream, kernel: PcuDispatchKernelIr)
    requires
        whole(stream),
    ensures
        whole(stream.flow_function(kernel)),
{
    broadcast use lemma_op_is_whole;

    let body = super::dataflow::loop_body(kernel);
    assert forall|s: Stream| whole(s) implies whole(
        #[trigger] s.flow_ops(kernel, body, 1, body.len()),
    ) by {
        lemma_flow_ops_are_whole(s, kernel, body, 1, body.len());
    }
    assert forall|s: Stream| whole(s) implies whole(
        #[trigger] s.flow_ops(kernel, kernel.ops@, 0, kernel.ops@.len()),
    ) by {
        lemma_flow_ops_are_whole(s, kernel, kernel.ops@, 0, kernel.ops@.len());
    }
}

/// A module is a header and whole instructions: a reader that starts behind the header and goes by
/// the lengths that the instructions state ends exactly at the end. This is so for every kernel
/// whose entry instruction's length can be stated.
pub proof fn law_modules_are_whole_instructions(
    kernel: PcuDispatchKernelIr,
    options: PcuSpirvLoweringOptions,
)
    requires
        3 + string_words(entry_name(kernel)).len() + module_interface(kernel).len() < 0x1_0000,
    ensures
        whole(Stream { words: module_words(kernel, options) }),
{
    let header = Stream::header(options, module_bound(kernel) as u32);
    assert(whole(header));
    let start = module_start(kernel, options);
    lemma_fixed_parts_are_whole(header);
    lemma_entry_is_whole(start, entry_name(kernel), module_interface(kernel));
    let entered = start.entry(entry_name(kernel), module_interface(kernel));
    if some_flow(kernel.ops@) {
        let sized = entered.local_size();
        lemma_fixed_parts_are_whole(entered);
        assert forall|s: Stream| whole(s) implies whole(
            #[trigger] s.descriptors(kernel, kernel.bindings@.len()),
        ) by {
            lemma_descriptors_are_whole(s, kernel, kernel.bindings@.len());
        }
        let decorated = sized.flow_decorations(kernel);
        assert(whole(decorated)) by {
            broadcast use lemma_op_is_whole;

        }
        lemma_flow_types_are_whole(decorated, kernel);
        lemma_flow_function_is_whole(decorated.flow_types(kernel), kernel);
    } else if parallel_map(kernel) {
        lemma_parallel_is_whole(entered);
    } else {
        lemma_minimal_is_whole(entered);
    }
}

} // verus!
