//! A writer that streams modules into a sink.
use vstd::prelude::*;
use vstd::utf8::encode_utf8;

use super::error::PcuSpirvError;
use super::numbers::{
    SPIRV_MAGIC, OP_CAPABILITY, OP_MEMORY_MODEL, OP_ENTRY_POINT, OP_EXECUTION_MODE, OP_TYPE_VOID,
    OP_TYPE_INT, OP_TYPE_FLOAT, OP_TYPE_VECTOR, OP_TYPE_RUNTIME_ARRAY, OP_TYPE_STRUCT,
    OP_TYPE_POINTER, OP_TYPE_FUNCTION, OP_CONSTANT, OP_FUNCTION, OP_FUNCTION_END, OP_VARIABLE,
    OP_LOAD, OP_STORE, OP_ACCESS_CHAIN, OP_DECORATE, OP_MEMBER_DECORATE, OP_F_ADD, OP_F_MUL,
    OP_LABEL, OP_RETURN, CAPABILITY_SHADER, ADDRESSING_MODEL_LOGICAL, MEMORY_MODEL_GLSL450,
    EXECUTION_MODEL_GL_COMPUTE, EXECUTION_MODE_LOCAL_SIZE, FUNCTION_CONTROL_NONE,
    STORAGE_CLASS_INPUT, STORAGE_CLASS_UNIFORM, DECORATION_BUFFER_BLOCK, DECORATION_ARRAY_STRIDE,
    DECORATION_BUILT_IN, DECORATION_BINDING, DECORATION_DESCRIPTOR_SET, DECORATION_OFFSET,
    BUILT_IN_GLOBAL_INVOCATION_ID, VOID_TYPE_ID, VOID_FUNCTION_TYPE_ID, ENTRY_POINT_ID,
    ENTRY_LABEL_ID, DEFAULT_LOCAL_SIZE, PARALLEL_FLOAT_UINT_TYPE_ID, PARALLEL_FLOAT_UINT_ZERO_ID,
    PARALLEL_FLOAT_TYPE_ID, PARALLEL_FLOAT_ONE_ID, PARALLEL_FLOAT_TWO_ID,
    PARALLEL_FLOAT_VEC3_UINT_TYPE_ID, PARALLEL_FLOAT_PTR_INPUT_VEC3_UINT_TYPE_ID,
    PARALLEL_FLOAT_PTR_INPUT_UINT_TYPE_ID, PARALLEL_FLOAT_RUNTIME_ARRAY_TYPE_ID,
    PARALLEL_FLOAT_BUFFER_TYPE_ID, PARALLEL_FLOAT_PTR_UNIFORM_BUFFER_TYPE_ID,
    PARALLEL_FLOAT_PTR_UNIFORM_FLOAT_TYPE_ID, PARALLEL_FLOAT_INPUT_A_VAR_ID,
    PARALLEL_FLOAT_INPUT_B_VAR_ID, PARALLEL_FLOAT_OUTPUT_VAR_ID,
    PARALLEL_FLOAT_GLOBAL_INVOCATION_ID_VAR_ID, PARALLEL_FLOAT_INDEX_PTR_ID,
    PARALLEL_FLOAT_INDEX_ID, PARALLEL_FLOAT_A_PTR_ID, PARALLEL_FLOAT_A_VALUE_ID,
    PARALLEL_FLOAT_B_PTR_ID, PARALLEL_FLOAT_B_VALUE_ID, PARALLEL_FLOAT_OUTPUT_PTR_ID,
    PARALLEL_FLOAT_SCALED_ID, PARALLEL_FLOAT_SUM_ID, PARALLEL_FLOAT_RESULT_ID,
};
use super::sink::PcuSpirvSink;
use super::types::PcuSpirvLoweringOptions;
use super::words::{opcode_word, padded, string_words, Stream};
use crate::tensor::bits::{ONE_BITS, TWO_BITS};

verus! {

/// What a sink was before the first word.
pub ghost struct Start {
    pub words: Seq<u32>,
    pub room: nat,
    pub failure: PcuSpirvError,
}

/// What a sink is before the first word.
pub open spec fn start_of<S: PcuSpirvSink>(sink: S) -> Start {
    Start { words: sink.words(), room: sink.room(), failure: sink.failure() }
}

/// A sink that was handed `words` took them, as far as it has room.
pub open spec fn took<S: PcuSpirvSink>(start: Start, words: Seq<u32>, sink: S) -> bool {
    &&& sink.failure() == start.failure
    &&& if words.len() <= start.room {
        sink.words() == start.words + words && sink.room() == start.room - words.len()
    } else {
        sink.words() == start.words + words.take(start.room as int) && sink.room() == 0
    }
}

/// A writer of words. After the first word that the sink refuses it hands over no more.
pub struct PcuSpirvWriter {
    pub word_count: usize,
    pub failed: Option<PcuSpirvError>,
    pub start: Ghost<Start>,
    pub stream: Ghost<Stream>,
}

impl PcuSpirvWriter {
    /// The writer knows what the sink took.
    pub open spec fn tracks<S: PcuSpirvSink>(self, sink: S) -> bool {
        let words = self.stream@.words;
        &&& took(self.start@, words, sink)
        &&& if words.len() <= self.start@.room {
            &&& self.failed is None
            &&& words.len() <= usize::MAX ==> self.word_count == words.len()
            &&& words.len() > usize::MAX ==> self.word_count == usize::MAX
        } else {
            self.failed == Some(self.start@.failure)
        }
    }

    /// Nothing but this was added to what the writer wrote.
    pub open spec fn wrote(self, before: PcuSpirvWriter, stream: Stream) -> bool {
        &&& self.start == before.start
        &&& self.stream@ == stream
    }

    pub(crate) fn new<S: PcuSpirvSink>(sink: &S) -> (writer: PcuSpirvWriter)
        ensures
            writer.tracks(*sink),
            writer.start@ == start_of(*sink),
            writer.stream@.words == Seq::<u32>::empty(),
    {
        let writer = PcuSpirvWriter {
            word_count: 0,
            failed: None,
            start: Ghost(start_of(*sink)),
            stream: Ghost(Stream { words: Seq::empty() }),
        };
        assert(sink.words() + Seq::<u32>::empty() =~= sink.words());
        writer
    }

    pub(crate) fn push_word<S: PcuSpirvSink>(&mut self, sink: &mut S, word: u32)
        requires
            old(self).tracks(*old(sink)),
        ensures
            final(self).tracks(*final(sink)),
            final(self).start == old(self).start,
            final(self).stream@.words == old(self).stream@.words.push(word),
    {
        let ghost before = self.stream@.words;
        let ghost start = self.start@;
        if self.failed.is_none() {
            match sink.push_word(word) {
                Ok(_) => {
                    self.word_count = self.word_count.saturating_add(1);
                },
                Err(e) => {
                    self.failed = Some(e);
                },
            }
        }
        self.stream = Ghost(Stream { words: before.push(word) });
        proof {
            let after = before.push(word);
            if after.len() <= start.room {
                assert(start.words + after =~= (start.words + before).push(word));
            } else if before.len() == start.room {
                assert(after.take(start.room as int) =~= before);
            } else {
                assert(after.take(start.room as int) =~= before.take(start.room as int));
            }
        }
    }

    pub(crate) fn push_opcode_word<S: PcuSpirvSink>(&mut self, sink: &mut S, word_count: usize, opcode: u16)
        requires
            old(self).tracks(*old(sink)),
            word_count <= u32::MAX,
        ensures
            final(self).tracks(*final(sink)),
            final(self).start == old(self).start,
            final(self).stream@.words == old(self).stream@.words.push(
                opcode_word(word_count as nat, opcode),
            ),
    {
        self.push_word(sink, ((word_count as u32) << 16) | opcode as u32);
    }

    pub(crate) fn push_instruction<S: PcuSpirvSink>(&mut self, sink: &mut S, opcode: u16, operands: &[u32])
        requires
            old(self).tracks(*old(sink)),
            operands@.len() < u32::MAX,
        ensures
            final(self).tracks(*final(sink)),
            final(self).wrote(*old(self), old(self).stream@.op(opcode, operands@)),
    {
        let ghost before = *self;
        let count: usize = operands.len();
        self.push_opcode_word(sink, count + 1, opcode);
        let ghost word = opcode_word((count + 1) as nat, opcode);
        let mut at: usize = 0;
        assert(self.stream@.words =~= before.stream@.words + seq![word] + operands@.take(0));
        while at < count
            invariant
                at <= count == operands@.len(),
                self.tracks(*sink),
                self.start == before.start,
                self.stream@.words == before.stream@.words + seq![word] + operands@.take(
                    at as int,
                ),
            decreases count - at,
        {
            self.push_word(sink, operands[at]);
            assert(operands@.take(at + 1) =~= operands@.take(at as int).push(operands@[at as int]));
            assert(self.stream@.words =~= before.stream@.words + seq![word] + operands@.take(
                at + 1,
            ));
            at += 1;
        }
        assert(operands@.take(count as int) =~= operands@);
    }

    pub(crate) fn push0<S: PcuSpirvSink>(&mut self, sink: &mut S, opcode: u16)
        requires
            old(self).tracks(*old(sink)),
        ensures
            final(self).tracks(*final(sink)),
            final(self).wrote(*old(self), old(self).stream@.op(opcode, seq![])),
    {
        let operands: [u32; 0] = [];
        assert(operands@ =~= seq![]);
        self.push_instruction(sink, opcode, operands.as_slice());
    }

    pub(crate) fn push1<S: PcuSpirvSink>(&mut self, sink: &mut S, opcode: u16, a: u32)
        requires
            old(self).tracks(*old(sink)),
        ensures
            final(self).tracks(*final(sink)),
            final(self).wrote(*old(self), old(self).stream@.op(opcode, seq![a])),
    {
        let operands: [u32; 1] = [a];
        assert(operands@ =~= seq![a]);
        self.push_instruction(sink, opcode, operands.as_slice());
    }

    pub(crate) fn push2<S: PcuSpirvSink>(&mut self, sink: &mut S, opcode: u16, a: u32, b: u32)
        requires
            old(self).tracks(*old(sink)),
        ensures
            final(self).tracks(*final(sink)),
            final(self).wrote(*old(self), old(self).stream@.op(opcode, seq![a, b])),
    {
        let operands: [u32; 2] = [a, b];
        assert(operands@ =~= seq![a, b]);
        self.push_instruction(sink, opcode, operands.as_slice());
    }

    pub(crate) fn push3<S: PcuSpirvSink>(&mut self, sink: &mut S, opcode: u16, a: u32, b: u32, c: u32)
        requires
            old(self).tracks(*old(sink)),
        ensures
            final(self).tracks(*final(sink)),
            final(self).wrote(*old(self), old(self).stream@.op(opcode, seq![a, b, c])),
    {
        let operands: [u32; 3] = [a, b, c];
        assert(operands@ =~= seq![a, b, c]);
        self.push_instruction(sink, opcode, operands.as_slice());
    }

    pub(crate) fn push4<S: PcuSpirvSink>(&mut self, sink: &mut S, opcode: u16, a: u32, b: u32, c: u32, d: u32)
        requires
            old(self).tracks(*old(sink)),
        ensures
            final(self).tracks(*final(sink)),
            final(self).wrote(*old(self), old(self).stream@.op(opcode, seq![a, b, c, d])),
    {
        let operands: [u32; 4] = [a, b, c, d];
        assert(operands@ =~= seq![a, b, c, d]);
        self.push_instruction(sink, opcode, operands.as_slice());
    }

    pub(crate) fn push5<S: PcuSpirvSink>(
        &mut self,
        sink: &mut S,
        opcode: u16,
        a: u32,
        b: u32,
        c: u32,
        d: u32,
        e: u32,
    )
        requires
            old(self).tracks(*old(sink)),
        ensures
            final(self).tracks(*final(sink)),
            final(self).wrote(*old(self), old(self).stream@.op(opcode, seq![a, b, c, d, e])),
    {
        let operands: [u32; 5] = [a, b, c, d, e];
        assert(operands@ =~= seq![a, b, c, d, e]);
        self.push_instruction(sink, opcode, operands.as_slice());
    }

    pub(crate) fn push6<S: PcuSpirvSink>(
        &mut self,
        sink: &mut S,
        opcode: u16,
        a: u32,
        b: u32,
        c: u32,
        d: u32,
        e: u32,
        f: u32,
    )
        requires
            old(self).tracks(*old(sink)),
        ensures
            final(self).tracks(*final(sink)),
            final(self).wrote(*old(self), old(self).stream@.op(opcode, seq![a, b, c, d, e, f])),
    {
        let operands: [u32; 6] = [a, b, c, d, e, f];
        assert(operands@ =~= seq![a, b, c, d, e, f]);
        self.push_instruction(sink, opcode, operands.as_slice());
    }

    pub(crate) fn push_header<S: PcuSpirvSink>(
        &mut self,
        sink: &mut S,
        options: PcuSpirvLoweringOptions,
        bound: u32,
    )
        requires
            old(self).tracks(*old(sink)),
            old(self).stream@.words == Seq::<u32>::empty(),
        ensures
            final(self).tracks(*final(sink)),
            final(self).wrote(*old(self), Stream::header(options, bound)),
    {
        self.push_word(sink, SPIRV_MAGIC);
        self.push_word(sink, options.version.0);
        self.push_word(sink, options.generator);
        self.push_word(sink, bound);
        self.push_word(sink, 0);
        assert(self.stream@ =~= Stream::header(options, bound));
    }

    pub(crate) fn push_model<S: PcuSpirvSink>(&mut self, sink: &mut S)
        requires
            old(self).tracks(*old(sink)),
        ensures
            final(self).tracks(*final(sink)),
            final(self).wrote(*old(self), old(self).stream@.model()),
    {
        self.push1(sink, OP_CAPABILITY, CAPABILITY_SHADER);
        self.push2(sink, OP_MEMORY_MODEL, ADDRESSING_MODEL_LOGICAL, MEMORY_MODEL_GLSL450);
    }

    pub(crate) fn push_literal_string<S: PcuSpirvSink>(&mut self, sink: &mut S, bytes: &[u8])
        requires
            old(self).tracks(*old(sink)),
        ensures
            final(self).tracks(*final(sink)),
            final(self).start == old(self).start,
            final(self).stream@.words == old(self).stream@.words + string_words(bytes@),
    {
        let ghost before = *self;
        let ghost words = string_words(bytes@);
        let count: usize = bytes.len() / 4 + 1;
        let mut at: usize = 0;
        assert(self.stream@.words =~= before.stream@.words + words.take(0));
        while at < count
            invariant
                count == bytes@.len() / 4 + 1,
                bytes@.len() <= usize::MAX,
                at <= count,
                words == string_words(bytes@),
                self.tracks(*sink),
                self.start == before.start,
                self.stream@.words == before.stream@.words + words.take(at as int),
            decreases count - at,
        {
            let first: usize = at * 4;
            let word: u32 = padded_byte(bytes, first, 0) | (padded_byte(bytes, first, 1) << 8) | (
            padded_byte(bytes, first, 2) << 16) | (padded_byte(bytes, first, 3) << 24);
            self.push_word(sink, word);
            assert(words[at as int] == word);
            assert(words.take(at + 1) =~= words.take(at as int).push(word));
            assert(self.stream@.words =~= before.stream@.words + words.take(at + 1));
            at += 1;
        }
        assert(words.take(count as int) =~= words);
    }

    pub(crate) fn push_entry_point_with_interface<S: PcuSpirvSink>(
        &mut self,
        sink: &mut S,
        name: &[u8],
        interface: &[u32],
    )
        requires
            old(self).tracks(*old(sink)),
            3 + string_words(name@).len() + interface@.len() <= u32::MAX,
        ensures
            final(self).tracks(*final(sink)),
            final(self).wrote(*old(self), old(self).stream@.entry(name@, interface@)),
    {
        let ghost before = *self;
        let count: usize = interface.len();
        let string_words_count: usize = name.len() / 4 + 1;
        let word_count: usize = 3 + string_words_count + count;
        self.push_opcode_word(sink, word_count, OP_ENTRY_POINT);
        self.push_word(sink, EXECUTION_MODEL_GL_COMPUTE);
        self.push_word(sink, ENTRY_POINT_ID);
        let ghost head = seq![
            opcode_word(word_count as nat, OP_ENTRY_POINT),
            EXECUTION_MODEL_GL_COMPUTE,
            ENTRY_POINT_ID,
        ];
        assert(self.stream@.words =~= before.stream@.words + head);
        self.push_literal_string(sink, name);
        let ghost named = before.stream@.words + head + string_words(name@);
        let mut at: usize = 0;
        assert(self.stream@.words =~= named + interface@.take(0));
        while at < count
            invariant
                at <= count == interface@.len(),
                self.tracks(*sink),
                self.start == before.start,
                self.stream@.words == named + interface@.take(at as int),
            decreases count - at,
        {
            self.push_word(sink, interface[at]);
            assert(interface@.take(at + 1) =~= interface@.take(at as int).push(
                interface@[at as int],
            ));
            assert(self.stream@.words =~= named + interface@.take(at + 1));
            at += 1;
        }
        assert(interface@.take(count as int) =~= interface@);
    }

    pub(crate) fn push_local_size<S: PcuSpirvSink>(&mut self, sink: &mut S)
        requires
            old(self).tracks(*old(sink)),
        ensures
            final(self).tracks(*final(sink)),
            final(self).wrote(*old(self), old(self).stream@.local_size()),
    {
        self.push5(
            sink,
            OP_EXECUTION_MODE,
            ENTRY_POINT_ID,
            EXECUTION_MODE_LOCAL_SIZE,
            DEFAULT_LOCAL_SIZE,
            DEFAULT_LOCAL_SIZE,
            DEFAULT_LOCAL_SIZE,
        );
    }

    pub(crate) fn push_void_types<S: PcuSpirvSink>(&mut self, sink: &mut S)
        requires
            old(self).tracks(*old(sink)),
        ensures
            final(self).tracks(*final(sink)),
            final(self).wrote(*old(self), old(self).stream@.void_types()),
    {
        self.push1(sink, OP_TYPE_VOID, VOID_TYPE_ID);
        self.push2(sink, OP_TYPE_FUNCTION, VOID_FUNCTION_TYPE_ID, VOID_TYPE_ID);
    }

    pub(crate) fn push_function_start<S: PcuSpirvSink>(&mut self, sink: &mut S)
        requires
            old(self).tracks(*old(sink)),
        ensures
            final(self).tracks(*final(sink)),
            final(self).wrote(*old(self), old(self).stream@.function_start()),
    {
        self.push4(
            sink,
            OP_FUNCTION,
            VOID_TYPE_ID,
            ENTRY_POINT_ID,
            FUNCTION_CONTROL_NONE,
            VOID_FUNCTION_TYPE_ID,
        );
        self.push1(sink, OP_LABEL, ENTRY_LABEL_ID);
    }

    pub(crate) fn push_function_end<S: PcuSpirvSink>(&mut self, sink: &mut S)
        requires
            old(self).tracks(*old(sink)),
        ensures
            final(self).tracks(*final(sink)),
            final(self).wrote(*old(self), old(self).stream@.function_end()),
    {
        self.push0(sink, OP_RETURN);
        self.push0(sink, OP_FUNCTION_END);
    }

    pub(crate) fn push_minimal_rest<S: PcuSpirvSink>(&mut self, sink: &mut S)
        requires
            old(self).tracks(*old(sink)),
        ensures
            final(self).tracks(*final(sink)),
            final(self).wrote(*old(self), old(self).stream@.minimal_rest()),
    {
        self.push_local_size(sink);
        self.push_void_types(sink);
        self.push_function_start(sink);
        self.push_function_end(sink);
    }

    pub(crate) fn push_descriptor_decorations<S: PcuSpirvSink>(
        &mut self,
        sink: &mut S,
        variable: u32,
        set: u32,
        binding: u32,
    )
        requires
            old(self).tracks(*old(sink)),
        ensures
            final(self).tracks(*final(sink)),
            final(self).wrote(*old(self), old(self).stream@.descriptor(variable, set, binding)),
    {
        self.push3(sink, OP_DECORATE, variable, DECORATION_DESCRIPTOR_SET, set);
        self.push3(sink, OP_DECORATE, variable, DECORATION_BINDING, binding);
    }

    pub(crate) fn push_buffer_decorations<S: PcuSpirvSink>(
        &mut self,
        sink: &mut S,
        invocation: u32,
        array: u32,
        buffer: u32,
    )
        requires
            old(self).tracks(*old(sink)),
        ensures
            final(self).tracks(*final(sink)),
            final(self).wrote(
                *old(self),
                old(self).stream@.buffer_decorations(invocation, array, buffer),
            ),
    {
        self.push3(
            sink,
            OP_DECORATE,
            invocation,
            DECORATION_BUILT_IN,
            BUILT_IN_GLOBAL_INVOCATION_ID,
        );
        self.push3(sink, OP_DECORATE, array, DECORATION_ARRAY_STRIDE, 4);
        self.push4(sink, OP_MEMBER_DECORATE, buffer, 0, DECORATION_OFFSET, 0);
        self.push2(sink, OP_DECORATE, buffer, DECORATION_BUFFER_BLOCK);
    }

    pub(crate) fn push_parallel_float_decorations<S: PcuSpirvSink>(&mut self, sink: &mut S)
        requires
            old(self).tracks(*old(sink)),
        ensures
            final(self).tracks(*final(sink)),
            final(self).wrote(*old(self), old(self).stream@.parallel_decorations()),
    {
        self.push_buffer_decorations(
            sink,
            PARALLEL_FLOAT_GLOBAL_INVOCATION_ID_VAR_ID,
            PARALLEL_FLOAT_RUNTIME_ARRAY_TYPE_ID,
            PARALLEL_FLOAT_BUFFER_TYPE_ID,
        );
        self.push_descriptor_decorations(sink, PARALLEL_FLOAT_INPUT_A_VAR_ID, 0, 0);
        self.push_descriptor_decorations(sink, PARALLEL_FLOAT_INPUT_B_VAR_ID, 0, 1);
        self.push_descriptor_decorations(sink, PARALLEL_FLOAT_OUTPUT_VAR_ID, 0, 2);
    }

    pub(crate) fn push_parallel_float_types<S: PcuSpirvSink>(&mut self, sink: &mut S)
        requires
            old(self).tracks(*old(sink)),
        ensures
            final(self).tracks(*final(sink)),
            final(self).wrote(*old(self), old(self).stream@.parallel_types()),
    {
        self.push_void_types(sink);
        self.push3(sink, OP_TYPE_INT, PARALLEL_FLOAT_UINT_TYPE_ID, 32, 0);
        self.push3(sink, OP_CONSTANT, PARALLEL_FLOAT_UINT_TYPE_ID, PARALLEL_FLOAT_UINT_ZERO_ID, 0);
        self.push2(sink, OP_TYPE_FLOAT, PARALLEL_FLOAT_TYPE_ID, 32);
        self.push3(sink, OP_CONSTANT, PARALLEL_FLOAT_TYPE_ID, PARALLEL_FLOAT_ONE_ID, ONE_BITS);
        self.push3(sink, OP_CONSTANT, PARALLEL_FLOAT_TYPE_ID, PARALLEL_FLOAT_TWO_ID, TWO_BITS);
        self.push3(
            sink,
            OP_TYPE_VECTOR,
            PARALLEL_FLOAT_VEC3_UINT_TYPE_ID,
            PARALLEL_FLOAT_UINT_TYPE_ID,
            3,
        );
        self.push3(
            sink,
            OP_TYPE_POINTER,
            PARALLEL_FLOAT_PTR_INPUT_VEC3_UINT_TYPE_ID,
            STORAGE_CLASS_INPUT,
            PARALLEL_FLOAT_VEC3_UINT_TYPE_ID,
        );
        self.push3(
            sink,
            OP_TYPE_POINTER,
            PARALLEL_FLOAT_PTR_INPUT_UINT_TYPE_ID,
            STORAGE_CLASS_INPUT,
            PARALLEL_FLOAT_UINT_TYPE_ID,
        );
        self.push2(
            sink,
            OP_TYPE_RUNTIME_ARRAY,
            PARALLEL_FLOAT_RUNTIME_ARRAY_TYPE_ID,
            PARALLEL_FLOAT_TYPE_ID,
        );
        self.push2(
            sink,
            OP_TYPE_STRUCT,
            PARALLEL_FLOAT_BUFFER_TYPE_ID,
            PARALLEL_FLOAT_RUNTIME_ARRAY_TYPE_ID,
        );
        self.push3(
            sink,
            OP_TYPE_POINTER,
            PARALLEL_FLOAT_PTR_UNIFORM_BUFFER_TYPE_ID,
            STORAGE_CLASS_UNIFORM,
            PARALLEL_FLOAT_BUFFER_TYPE_ID,
        );
        self.push3(
            sink,
            OP_TYPE_POINTER,
            PARALLEL_FLOAT_PTR_UNIFORM_FLOAT_TYPE_ID,
            STORAGE_CLASS_UNIFORM,
            PARALLEL_FLOAT_TYPE_ID,
        );
    }

    pub(crate) fn push_parallel_float_variables<S: PcuSpirvSink>(&mut self, sink: &mut S)
        requires
            old(self).tracks(*old(sink)),
        ensures
            final(self).tracks(*final(sink)),
            final(self).wrote(*old(self), old(self).stream@.parallel_variables()),
    {
        self.push3(
            sink,
            OP_VARIABLE,
            PARALLEL_FLOAT_PTR_UNIFORM_BUFFER_TYPE_ID,
            PARALLEL_FLOAT_INPUT_A_VAR_ID,
            STORAGE_CLASS_UNIFORM,
        );
        self.push3(
            sink,
            OP_VARIABLE,
            PARALLEL_FLOAT_PTR_UNIFORM_BUFFER_TYPE_ID,
            PARALLEL_FLOAT_INPUT_B_VAR_ID,
            STORAGE_CLASS_UNIFORM,
        );
        self.push3(
            sink,
            OP_VARIABLE,
            PARALLEL_FLOAT_PTR_UNIFORM_BUFFER_TYPE_ID,
            PARALLEL_FLOAT_OUTPUT_VAR_ID,
            STORAGE_CLASS_UNIFORM,
        );
        self.push3(
            sink,
            OP_VARIABLE,
            PARALLEL_FLOAT_PTR_INPUT_VEC3_UINT_TYPE_ID,
            PARALLEL_FLOAT_GLOBAL_INVOCATION_ID_VAR_ID,
            STORAGE_CLASS_INPUT,
        );
    }

    pub(crate) fn push_storage_float_access<S: PcuSpirvSink>(
        &mut self,
        sink: &mut S,
        pointer: u32,
        variable: u32,
    )
        requires
            old(self).tracks(*old(sink)),
        ensures
            final(self).tracks(*final(sink)),
            final(self).wrote(*old(self), old(self).stream@.parallel_access(pointer, variable)),
    {
        self.push5(
            sink,
            OP_ACCESS_CHAIN,
            PARALLEL_FLOAT_PTR_UNIFORM_FLOAT_TYPE_ID,
            pointer,
            variable,
            PARALLEL_FLOAT_UINT_ZERO_ID,
            PARALLEL_FLOAT_INDEX_ID,
        );
    }

    pub(crate) fn push_parallel_float_function<S: PcuSpirvSink>(&mut self, sink: &mut S)
        requires
            old(self).tracks(*old(sink)),
        ensures
            final(self).tracks(*final(sink)),
            final(self).wrote(*old(self), old(self).stream@.parallel_function()),
    {
        self.push_function_start(sink);
        self.push4(
            sink,
            OP_ACCESS_CHAIN,
            PARALLEL_FLOAT_PTR_INPUT_UINT_TYPE_ID,
            PARALLEL_FLOAT_INDEX_PTR_ID,
            PARALLEL_FLOAT_GLOBAL_INVOCATION_ID_VAR_ID,
            PARALLEL_FLOAT_UINT_ZERO_ID,
        );
        self.push3(
            sink,
            OP_LOAD,
            PARALLEL_FLOAT_UINT_TYPE_ID,
            PARALLEL_FLOAT_INDEX_ID,
            PARALLEL_FLOAT_INDEX_PTR_ID,
        );
        self.push_storage_float_access(
            sink,
            PARALLEL_FLOAT_A_PTR_ID,
            PARALLEL_FLOAT_INPUT_A_VAR_ID,
        );
        self.push3(
            sink,
            OP_LOAD,
            PARALLEL_FLOAT_TYPE_ID,
            PARALLEL_FLOAT_A_VALUE_ID,
            PARALLEL_FLOAT_A_PTR_ID,
        );
        self.push_storage_float_access(
            sink,
            PARALLEL_FLOAT_B_PTR_ID,
            PARALLEL_FLOAT_INPUT_B_VAR_ID,
        );
        self.push3(
            sink,
            OP_LOAD,
            PARALLEL_FLOAT_TYPE_ID,
            PARALLEL_FLOAT_B_VALUE_ID,
            PARALLEL_FLOAT_B_PTR_ID,
        );
        self.push_storage_float_access(
            sink,
            PARALLEL_FLOAT_OUTPUT_PTR_ID,
            PARALLEL_FLOAT_OUTPUT_VAR_ID,
        );
        self.push4(
            sink,
            OP_F_MUL,
            PARALLEL_FLOAT_TYPE_ID,
            PARALLEL_FLOAT_SCALED_ID,
            PARALLEL_FLOAT_A_VALUE_ID,
            PARALLEL_FLOAT_TWO_ID,
        );
        self.push4(
            sink,
            OP_F_ADD,
            PARALLEL_FLOAT_TYPE_ID,
            PARALLEL_FLOAT_SUM_ID,
            PARALLEL_FLOAT_SCALED_ID,
            PARALLEL_FLOAT_B_VALUE_ID,
        );
        self.push4(
            sink,
            OP_F_ADD,
            PARALLEL_FLOAT_TYPE_ID,
            PARALLEL_FLOAT_RESULT_ID,
            PARALLEL_FLOAT_SUM_ID,
            PARALLEL_FLOAT_ONE_ID,
        );
        self.push2(sink, OP_STORE, PARALLEL_FLOAT_OUTPUT_PTR_ID, PARALLEL_FLOAT_RESULT_ID);
        self.push_function_end(sink);
    }

    pub(crate) fn push_parallel_rest<S: PcuSpirvSink>(&mut self, sink: &mut S)
        requires
            old(self).tracks(*old(sink)),
        ensures
            final(self).tracks(*final(sink)),
            final(self).wrote(*old(self), old(self).stream@.parallel_rest()),
    {
        self.push_local_size(sink);
        self.push_parallel_float_decorations(sink);
        self.push_parallel_float_types(sink);
        self.push_parallel_float_variables(sink);
        self.push_parallel_float_function(sink);
    }
}

/// How many words a string takes.
pub fn literal_string_word_count(value: &str) -> (count: usize)
    ensures
        count == string_words(encode_utf8(value@)).len(),
        count <= usize::MAX / 4 + 1,
{
    value.as_bytes().len() / 4 + 1
}

/// The byte `offset` places behind `first`, or zero behind the string.
fn padded_byte(bytes: &[u8], first: usize, offset: usize) -> (byte: u32)
    requires
        first <= bytes@.len(),
        offset < 4,
    ensures
        byte == padded(bytes@, first + offset),
{
    if offset < bytes.len() - first {
        bytes[first + offset] as u32
    } else {
        0
    }
}

} // verus!
