//! The words of each module that lowering emits.
use vstd::prelude::*;
use vstd::utf8::encode_utf8;

use super::dataflow::{binding_place, loop_body, some_flow, some_loop};
use super::ids::{
    id_bound, loop_base, pointer_base, value_base, DATAFLOW_BINDING_VAR_BASE_ID,
};
use super::numbers::{
    SPIRV_MAGIC, OP_CAPABILITY, OP_MEMORY_MODEL, OP_ENTRY_POINT, OP_EXECUTION_MODE, OP_TYPE_VOID,
    OP_TYPE_BOOL, OP_TYPE_INT, OP_TYPE_FLOAT, OP_TYPE_VECTOR, OP_TYPE_RUNTIME_ARRAY, OP_TYPE_STRUCT,
    OP_TYPE_POINTER, OP_TYPE_FUNCTION, OP_CONSTANT, OP_FUNCTION, OP_FUNCTION_END, OP_VARIABLE,
    OP_LOAD, OP_STORE, OP_ACCESS_CHAIN, OP_DECORATE, OP_MEMBER_DECORATE, OP_F_ADD, OP_F_SUB,
    OP_F_MUL, OP_F_DIV, OP_I_ADD, OP_I_SUB, OP_U_LESS_THAN, OP_U_LESS_THAN_EQUAL, OP_LOGICAL_AND,
    OP_SELECT, OP_LOOP_MERGE, OP_BRANCH, OP_BRANCH_CONDITIONAL, OP_PHI, OP_LABEL, OP_RETURN,
    CAPABILITY_SHADER, ADDRESSING_MODEL_LOGICAL, MEMORY_MODEL_GLSL450, EXECUTION_MODEL_GL_COMPUTE,
    EXECUTION_MODE_LOCAL_SIZE, FUNCTION_CONTROL_NONE, STORAGE_CLASS_INPUT, STORAGE_CLASS_UNIFORM,
    DECORATION_BUFFER_BLOCK, DECORATION_ARRAY_STRIDE, DECORATION_BUILT_IN, DECORATION_BINDING,
    DECORATION_DESCRIPTOR_SET, DECORATION_OFFSET, BUILT_IN_GLOBAL_INVOCATION_ID, VOID_TYPE_ID,
    VOID_FUNCTION_TYPE_ID, ENTRY_POINT_ID, ENTRY_LABEL_ID, DEFAULT_BOUND, DEFAULT_LOCAL_SIZE,
    PARALLEL_FLOAT_UINT_TYPE_ID, PARALLEL_FLOAT_UINT_ZERO_ID, PARALLEL_FLOAT_TYPE_ID,
    PARALLEL_FLOAT_ONE_ID, PARALLEL_FLOAT_TWO_ID, PARALLEL_FLOAT_VEC3_UINT_TYPE_ID,
    PARALLEL_FLOAT_PTR_INPUT_VEC3_UINT_TYPE_ID, PARALLEL_FLOAT_PTR_INPUT_UINT_TYPE_ID,
    PARALLEL_FLOAT_RUNTIME_ARRAY_TYPE_ID, PARALLEL_FLOAT_BUFFER_TYPE_ID,
    PARALLEL_FLOAT_PTR_UNIFORM_BUFFER_TYPE_ID, PARALLEL_FLOAT_PTR_UNIFORM_FLOAT_TYPE_ID,
    PARALLEL_FLOAT_INPUT_A_VAR_ID, PARALLEL_FLOAT_INPUT_B_VAR_ID, PARALLEL_FLOAT_OUTPUT_VAR_ID,
    PARALLEL_FLOAT_GLOBAL_INVOCATION_ID_VAR_ID, PARALLEL_FLOAT_INDEX_PTR_ID,
    PARALLEL_FLOAT_INDEX_ID, PARALLEL_FLOAT_A_PTR_ID, PARALLEL_FLOAT_A_VALUE_ID,
    PARALLEL_FLOAT_B_PTR_ID, PARALLEL_FLOAT_B_VALUE_ID, PARALLEL_FLOAT_OUTPUT_PTR_ID,
    PARALLEL_FLOAT_SCALED_ID, PARALLEL_FLOAT_SUM_ID, PARALLEL_FLOAT_RESULT_ID, PARALLEL_FLOAT_BOUND,
    DATAFLOW_UINT_TYPE_ID, DATAFLOW_UINT_ZERO_ID, DATAFLOW_FLOAT_TYPE_ID,
    DATAFLOW_VEC3_UINT_TYPE_ID, DATAFLOW_PTR_INPUT_VEC3_UINT_TYPE_ID,
    DATAFLOW_PTR_INPUT_UINT_TYPE_ID, DATAFLOW_RUNTIME_ARRAY_TYPE_ID, DATAFLOW_BUFFER_TYPE_ID,
    DATAFLOW_PTR_UNIFORM_BUFFER_TYPE_ID, DATAFLOW_PTR_UNIFORM_FLOAT_TYPE_ID,
    DATAFLOW_GLOBAL_INVOCATION_ID_VAR_ID, DATAFLOW_INDEX_PTR_ID, DATAFLOW_INDEX_ID,
    DATAFLOW_BOOL_TYPE_ID, LOOP_HEADER, LOOP_BODY_LABEL, LOOP_CONTINUE_LABEL, LOOP_MERGE_LABEL,
    LOOP_INDEX, LOOP_EXTENT, LOOP_STRIDE, LOOP_INDEX_IN_RANGE, LOOP_BASE_IN_RANGE, LOOP_CONDITION,
    LOOP_NEXT_INDEX, LOOP_RAW_NEXT_INDEX, LOOP_REMAINING, LOOP_STOP,
};
use super::types::PcuSpirvLoweringOptions;
use super::validate::parallel_map;
use crate::pcu::ir::{
    PcuBindingRef, PcuDispatchAluOp, PcuDispatchDataOp, PcuDispatchIndex, PcuDispatchKernelIr,
    PcuDispatchOp, PcuDispatchOpKind, PcuDispatchValueId, PcuParameterValue,
};
use crate::tensor::bits::{ONE_BITS, TWO_BITS};

verus! {

/// The first word of an instruction: how many words it has, and what it does.
pub open spec fn opcode_word(word_count: nat, opcode: u16) -> u32 {
    ((word_count as u32) << 16) | opcode as u32
}

/// The byte at a place of a string that zeros follow.
pub open spec fn padded(bytes: Seq<u8>, at: int) -> u32 {
    if 0 <= at < bytes.len() {
        bytes[at] as u32
    } else {
        0
    }
}

/// The words of a string: its bytes, low byte first, at least one zero, and zeros up to a whole
/// word.
pub open spec fn string_words(bytes: Seq<u8>) -> Seq<u32> {
    Seq::new(
        bytes.len() / 4 + 1,
        |i: int|
            padded(bytes, 4 * i) | (padded(bytes, 4 * i + 1) << 8) | (padded(bytes, 4 * i + 2)
                << 16) | (padded(bytes, 4 * i + 3) << 24),
    )
}

/// The words emitted so far.
#[verifier::ext_equal]
pub ghost struct Stream {
    pub words: Seq<u32>,
}

/// The identifier of a value.
pub open spec fn value_id(kernel: PcuDispatchKernelIr, value: PcuDispatchValueId) -> u32 {
    (value_base(kernel) + value.0 - 1) as u32
}

/// The identifier of the pointer of the operation at `at`.
pub open spec fn pointer_id(kernel: PcuDispatchKernelIr, at: int) -> u32 {
    (pointer_base(kernel) + at) as u32
}

/// The identifier of a loop's part.
pub open spec fn loop_id(kernel: PcuDispatchKernelIr, part: u32) -> u32 {
    (loop_base(kernel) + part) as u32
}

/// The identifier of the variable at this address.
pub open spec fn variable_id(kernel: PcuDispatchKernelIr, address: PcuBindingRef) -> u32 {
    match binding_place(kernel.bindings@, kernel.bindings@.len(), address) {
        Some(at) => (DATAFLOW_BINDING_VAR_BASE_ID + at) as u32,
        None => 0,
    }
}

/// The identifier of the index that an access goes by.
pub open spec fn index_id(kernel: PcuDispatchKernelIr, index: PcuDispatchIndex) -> u32 {
    match index {
        PcuDispatchIndex::GridStrideId => loop_id(kernel, LOOP_INDEX),
        _ => DATAFLOW_INDEX_ID,
    }
}

/// The instruction of an arithmetic operation.
pub open spec fn alu_opcode(op: PcuDispatchAluOp) -> u16 {
    match op {
        PcuDispatchAluOp::Add => OP_F_ADD,
        PcuDispatchAluOp::Sub => OP_F_SUB,
        PcuDispatchAluOp::Mul => OP_F_MUL,
        _ => OP_F_DIV,
    }
}

impl Stream {
    /// One more instruction.
    pub open spec fn op(self, opcode: u16, operands: Seq<u32>) -> Stream {
        Stream {
            words: self.words + seq![opcode_word(operands.len() + 1, opcode)] + operands,
        }
    }

    /// A module's header.
    pub open spec fn header(options: PcuSpirvLoweringOptions, bound: u32) -> Stream {
        Stream {
            words: seq![SPIRV_MAGIC, options.version.0, options.generator, bound, 0u32],
        }
    }

    /// The capability and the memory model.
    pub open spec fn model(self) -> Stream {
        self.op(OP_CAPABILITY, seq![CAPABILITY_SHADER]).op(
            OP_MEMORY_MODEL,
            seq![ADDRESSING_MODEL_LOGICAL, MEMORY_MODEL_GLSL450],
        )
    }

    /// The entry point, with the variables it uses.
    pub open spec fn entry(self, name: Seq<u8>, interface: Seq<u32>) -> Stream {
        Stream {
            words: self.words + seq![
                opcode_word(3 + string_words(name).len() + interface.len(), OP_ENTRY_POINT),
                EXECUTION_MODEL_GL_COMPUTE,
                ENTRY_POINT_ID,
            ] + string_words(name) + interface,
        }
    }

    pub open spec fn local_size(self) -> Stream {
        self.op(
            OP_EXECUTION_MODE,
            seq![
                ENTRY_POINT_ID,
                EXECUTION_MODE_LOCAL_SIZE,
                DEFAULT_LOCAL_SIZE,
                DEFAULT_LOCAL_SIZE,
                DEFAULT_LOCAL_SIZE,
            ],
        )
    }

    pub open spec fn void_types(self) -> Stream {
        self.op(OP_TYPE_VOID, seq![VOID_TYPE_ID]).op(
            OP_TYPE_FUNCTION,
            seq![VOID_FUNCTION_TYPE_ID, VOID_TYPE_ID],
        )
    }

    pub open spec fn function_start(self) -> Stream {
        self.op(
            OP_FUNCTION,
            seq![VOID_TYPE_ID, ENTRY_POINT_ID, FUNCTION_CONTROL_NONE, VOID_FUNCTION_TYPE_ID],
        ).op(OP_LABEL, seq![ENTRY_LABEL_ID])
    }

    pub open spec fn function_end(self) -> Stream {
        self.op(OP_RETURN, seq![]).op(OP_FUNCTION_END, seq![])
    }

    /// An entry point that does nothing, after its entry instruction.
    pub open spec fn minimal_rest(self) -> Stream {
        self.local_size().void_types().function_start().function_end()
    }

    /// The descriptor set and binding of a variable.
    pub open spec fn descriptor(self, variable: u32, set: u32, binding: u32) -> Stream {
        self.op(OP_DECORATE, seq![variable, DECORATION_DESCRIPTOR_SET, set]).op(
            OP_DECORATE,
            seq![variable, DECORATION_BINDING, binding],
        )
    }

    /// The decorations of the invocation index and of the buffer type.
    pub open spec fn buffer_decorations(self, invocation: u32, array: u32, buffer: u32) -> Stream {
        self.op(
            OP_DECORATE,
            seq![invocation, DECORATION_BUILT_IN, BUILT_IN_GLOBAL_INVOCATION_ID],
        ).op(OP_DECORATE, seq![array, DECORATION_ARRAY_STRIDE, 4u32]).op(
            OP_MEMBER_DECORATE,
            seq![buffer, 0u32, DECORATION_OFFSET, 0u32],
        ).op(OP_DECORATE, seq![buffer, DECORATION_BUFFER_BLOCK])
    }

    pub open spec fn parallel_decorations(self) -> Stream {
        self.buffer_decorations(
            PARALLEL_FLOAT_GLOBAL_INVOCATION_ID_VAR_ID,
            PARALLEL_FLOAT_RUNTIME_ARRAY_TYPE_ID,
            PARALLEL_FLOAT_BUFFER_TYPE_ID,
        ).descriptor(PARALLEL_FLOAT_INPUT_A_VAR_ID, 0, 0).descriptor(
            PARALLEL_FLOAT_INPUT_B_VAR_ID,
            0,
            1,
        ).descriptor(PARALLEL_FLOAT_OUTPUT_VAR_ID, 0, 2)
    }

    pub open spec fn parallel_types(self) -> Stream {
        self.void_types().op(OP_TYPE_INT, seq![PARALLEL_FLOAT_UINT_TYPE_ID, 32u32, 0u32]).op(
            OP_CONSTANT,
            seq![PARALLEL_FLOAT_UINT_TYPE_ID, PARALLEL_FLOAT_UINT_ZERO_ID, 0u32],
        ).op(OP_TYPE_FLOAT, seq![PARALLEL_FLOAT_TYPE_ID, 32u32]).op(
            OP_CONSTANT,
            seq![PARALLEL_FLOAT_TYPE_ID, PARALLEL_FLOAT_ONE_ID, ONE_BITS],
        ).op(
            OP_CONSTANT,
            seq![PARALLEL_FLOAT_TYPE_ID, PARALLEL_FLOAT_TWO_ID, TWO_BITS],
        ).op(
            OP_TYPE_VECTOR,
            seq![PARALLEL_FLOAT_VEC3_UINT_TYPE_ID, PARALLEL_FLOAT_UINT_TYPE_ID, 3u32],
        ).op(
            OP_TYPE_POINTER,
            seq![
                PARALLEL_FLOAT_PTR_INPUT_VEC3_UINT_TYPE_ID,
                STORAGE_CLASS_INPUT,
                PARALLEL_FLOAT_VEC3_UINT_TYPE_ID,
            ],
        ).op(
            OP_TYPE_POINTER,
            seq![
                PARALLEL_FLOAT_PTR_INPUT_UINT_TYPE_ID,
                STORAGE_CLASS_INPUT,
                PARALLEL_FLOAT_UINT_TYPE_ID,
            ],
        ).op(
            OP_TYPE_RUNTIME_ARRAY,
            seq![PARALLEL_FLOAT_RUNTIME_ARRAY_TYPE_ID, PARALLEL_FLOAT_TYPE_ID],
        ).op(
            OP_TYPE_STRUCT,
            seq![PARALLEL_FLOAT_BUFFER_TYPE_ID, PARALLEL_FLOAT_RUNTIME_ARRAY_TYPE_ID],
        ).op(
            OP_TYPE_POINTER,
            seq![
                PARALLEL_FLOAT_PTR_UNIFORM_BUFFER_TYPE_ID,
                STORAGE_CLASS_UNIFORM,
                PARALLEL_FLOAT_BUFFER_TYPE_ID,
            ],
        ).op(
            OP_TYPE_POINTER,
            seq![
                PARALLEL_FLOAT_PTR_UNIFORM_FLOAT_TYPE_ID,
                STORAGE_CLASS_UNIFORM,
                PARALLEL_FLOAT_TYPE_ID,
            ],
        )
    }

    pub open spec fn variable(self, pointer_type: u32, variable: u32, class: u32) -> Stream {
        self.op(OP_VARIABLE, seq![pointer_type, variable, class])
    }

    pub open spec fn parallel_variables(self) -> Stream {
        self.variable(
            PARALLEL_FLOAT_PTR_UNIFORM_BUFFER_TYPE_ID,
            PARALLEL_FLOAT_INPUT_A_VAR_ID,
            STORAGE_CLASS_UNIFORM,
        ).variable(
            PARALLEL_FLOAT_PTR_UNIFORM_BUFFER_TYPE_ID,
            PARALLEL_FLOAT_INPUT_B_VAR_ID,
            STORAGE_CLASS_UNIFORM,
        ).variable(
            PARALLEL_FLOAT_PTR_UNIFORM_BUFFER_TYPE_ID,
            PARALLEL_FLOAT_OUTPUT_VAR_ID,
            STORAGE_CLASS_UNIFORM,
        ).variable(
            PARALLEL_FLOAT_PTR_INPUT_VEC3_UINT_TYPE_ID,
            PARALLEL_FLOAT_GLOBAL_INVOCATION_ID_VAR_ID,
            STORAGE_CLASS_INPUT,
        )
    }

    /// The pointer to an element of a buffer.
    pub open spec fn access(
        self,
        pointer_type: u32,
        pointer: u32,
        variable: u32,
        zero: u32,
        index: u32,
    ) -> Stream {
        self.op(OP_ACCESS_CHAIN, seq![pointer_type, pointer, variable, zero, index])
    }

    pub open spec fn parallel_access(self, pointer: u32, variable: u32) -> Stream {
        self.access(
            PARALLEL_FLOAT_PTR_UNIFORM_FLOAT_TYPE_ID,
            pointer,
            variable,
            PARALLEL_FLOAT_UINT_ZERO_ID,
            PARALLEL_FLOAT_INDEX_ID,
        )
    }

    /// The invocation's index, loaded.
    pub open spec fn invocation_index(
        self,
        pointer_type: u32,
        pointer: u32,
        variable: u32,
        zero: u32,
        index_type: u32,
        index: u32,
    ) -> Stream {
        self.op(OP_ACCESS_CHAIN, seq![pointer_type, pointer, variable, zero]).op(
            OP_LOAD,
            seq![index_type, index, pointer],
        )
    }

    pub open spec fn parallel_function(self) -> Stream {
        self.function_start().invocation_index(
            PARALLEL_FLOAT_PTR_INPUT_UINT_TYPE_ID,
            PARALLEL_FLOAT_INDEX_PTR_ID,
            PARALLEL_FLOAT_GLOBAL_INVOCATION_ID_VAR_ID,
            PARALLEL_FLOAT_UINT_ZERO_ID,
            PARALLEL_FLOAT_UINT_TYPE_ID,
            PARALLEL_FLOAT_INDEX_ID,
        ).parallel_access(PARALLEL_FLOAT_A_PTR_ID, PARALLEL_FLOAT_INPUT_A_VAR_ID).op(
            OP_LOAD,
            seq![PARALLEL_FLOAT_TYPE_ID, PARALLEL_FLOAT_A_VALUE_ID, PARALLEL_FLOAT_A_PTR_ID],
        ).parallel_access(PARALLEL_FLOAT_B_PTR_ID, PARALLEL_FLOAT_INPUT_B_VAR_ID).op(
            OP_LOAD,
            seq![PARALLEL_FLOAT_TYPE_ID, PARALLEL_FLOAT_B_VALUE_ID, PARALLEL_FLOAT_B_PTR_ID],
        ).parallel_access(PARALLEL_FLOAT_OUTPUT_PTR_ID, PARALLEL_FLOAT_OUTPUT_VAR_ID).op(
            OP_F_MUL,
            seq![
                PARALLEL_FLOAT_TYPE_ID,
                PARALLEL_FLOAT_SCALED_ID,
                PARALLEL_FLOAT_A_VALUE_ID,
                PARALLEL_FLOAT_TWO_ID,
            ],
        ).op(
            OP_F_ADD,
            seq![
                PARALLEL_FLOAT_TYPE_ID,
                PARALLEL_FLOAT_SUM_ID,
                PARALLEL_FLOAT_SCALED_ID,
                PARALLEL_FLOAT_B_VALUE_ID,
            ],
        ).op(
            OP_F_ADD,
            seq![
                PARALLEL_FLOAT_TYPE_ID,
                PARALLEL_FLOAT_RESULT_ID,
                PARALLEL_FLOAT_SUM_ID,
                PARALLEL_FLOAT_ONE_ID,
            ],
        ).op(OP_STORE, seq![PARALLEL_FLOAT_OUTPUT_PTR_ID, PARALLEL_FLOAT_RESULT_ID]).function_end()
    }

    /// The kernel that is known by its operations, after its entry instruction.
    pub open spec fn parallel_rest(self) -> Stream {
        self.local_size().parallel_decorations().parallel_types().parallel_variables()
            .parallel_function()
    }

    /// The descriptors of the first `count` bindings.
    pub open spec fn descriptors(self, kernel: PcuDispatchKernelIr, count: nat) -> Stream
        decreases count,
    {
        if count == 0 {
            self
        } else {
            let at = count - 1;
            self.descriptors(kernel, (count - 1) as nat).descriptor(
                (DATAFLOW_BINDING_VAR_BASE_ID + at) as u32,
                kernel.bindings@[at].set,
                kernel.bindings@[at].binding,
            )
        }
    }

    pub open spec fn flow_decorations(self, kernel: PcuDispatchKernelIr) -> Stream {
        self.buffer_decorations(
            DATAFLOW_GLOBAL_INVOCATION_ID_VAR_ID,
            DATAFLOW_RUNTIME_ARRAY_TYPE_ID,
            DATAFLOW_BUFFER_TYPE_ID,
        ).descriptors(kernel, kernel.bindings@.len())
    }

    /// The constant that one operation names.
    pub open spec fn constant(self, kernel: PcuDispatchKernelIr, op: PcuDispatchOp) -> Stream {
        match op.kind {
            PcuDispatchOpKind::Data(
                PcuDispatchDataOp::Constant { result, value: PcuParameterValue::F32(bits) },
            ) => self.op(
                OP_CONSTANT,
                seq![DATAFLOW_FLOAT_TYPE_ID, value_id(kernel, result), bits],
            ),
            _ => self,
        }
    }

    /// The constants of the first `count` operations of a list.
    pub open spec fn constants(
        self,
        kernel: PcuDispatchKernelIr,
        ops: Seq<PcuDispatchOp>,
        count: nat,
    ) -> Stream
        decreases count,
    {
        if count == 0 {
            self
        } else {
            self.constants(kernel, ops, (count - 1) as nat).constant(kernel, ops[count - 1])
        }
    }

    /// The constants of a kernel: those of its operations or, in a kernel with a loop, those of
    /// the body, the loop's extent and its stride.
    pub open spec fn flow_constants(self, kernel: PcuDispatchKernelIr) -> Stream {
        match kernel.ops@[0].kind {
            PcuDispatchOpKind::GridStrideLoop { extent, body } => self.constants(
                kernel,
                body@,
                body@.len(),
            ).op(
                OP_CONSTANT,
                seq![DATAFLOW_UINT_TYPE_ID, loop_id(kernel, LOOP_EXTENT), extent],
            ).op(
                OP_CONSTANT,
                seq![
                    DATAFLOW_UINT_TYPE_ID,
                    loop_id(kernel, LOOP_STRIDE),
                    kernel.entry.logical_shape@[0],
                ],
            ),
            _ => self.constants(kernel, kernel.ops@, kernel.ops@.len()),
        }
    }

    /// The variables of the first `count` bindings.
    pub open spec fn variables(self, count: nat) -> Stream
        decreases count,
    {
        if count == 0 {
            self
        } else {
            self.variables((count - 1) as nat).variable(
                DATAFLOW_PTR_UNIFORM_BUFFER_TYPE_ID,
                (DATAFLOW_BINDING_VAR_BASE_ID + (count - 1)) as u32,
                STORAGE_CLASS_UNIFORM,
            )
        }
    }

    pub open spec fn flow_types(self, kernel: PcuDispatchKernelIr) -> Stream {
        self.void_types().op(OP_TYPE_INT, seq![DATAFLOW_UINT_TYPE_ID, 32u32, 0u32]).op(
            OP_TYPE_BOOL,
            seq![DATAFLOW_BOOL_TYPE_ID],
        ).op(
            OP_CONSTANT,
            seq![DATAFLOW_UINT_TYPE_ID, DATAFLOW_UINT_ZERO_ID, 0u32],
        ).op(OP_TYPE_FLOAT, seq![DATAFLOW_FLOAT_TYPE_ID, 32u32]).flow_constants(kernel).op(
            OP_TYPE_VECTOR,
            seq![DATAFLOW_VEC3_UINT_TYPE_ID, DATAFLOW_UINT_TYPE_ID, 3u32],
        ).op(
            OP_TYPE_POINTER,
            seq![
                DATAFLOW_PTR_INPUT_VEC3_UINT_TYPE_ID,
                STORAGE_CLASS_INPUT,
                DATAFLOW_VEC3_UINT_TYPE_ID,
            ],
        ).op(
            OP_TYPE_POINTER,
            seq![DATAFLOW_PTR_INPUT_UINT_TYPE_ID, STORAGE_CLASS_INPUT, DATAFLOW_UINT_TYPE_ID],
        ).op(
            OP_TYPE_RUNTIME_ARRAY,
            seq![DATAFLOW_RUNTIME_ARRAY_TYPE_ID, DATAFLOW_FLOAT_TYPE_ID],
        ).op(
            OP_TYPE_STRUCT,
            seq![DATAFLOW_BUFFER_TYPE_ID, DATAFLOW_RUNTIME_ARRAY_TYPE_ID],
        ).op(
            OP_TYPE_POINTER,
            seq![
                DATAFLOW_PTR_UNIFORM_BUFFER_TYPE_ID,
                STORAGE_CLASS_UNIFORM,
                DATAFLOW_BUFFER_TYPE_ID,
            ],
        ).op(
            OP_TYPE_POINTER,
            seq![
                DATAFLOW_PTR_UNIFORM_FLOAT_TYPE_ID,
                STORAGE_CLASS_UNIFORM,
                DATAFLOW_FLOAT_TYPE_ID,
            ],
        ).variables(kernel.bindings@.len()).variable(
            DATAFLOW_PTR_INPUT_VEC3_UINT_TYPE_ID,
            DATAFLOW_GLOBAL_INVOCATION_ID_VAR_ID,
            STORAGE_CLASS_INPUT,
        )
    }

    /// One operation of the data flow, whose pointer is the one at place `at`.
    pub open spec fn flow_op(
        self,
        kernel: PcuDispatchKernelIr,
        op: PcuDispatchOp,
        at: int,
    ) -> Stream {
        match op.kind {
            PcuDispatchOpKind::Data(
                PcuDispatchDataOp::BindingLoad { result, binding, index },
            ) => self.access(
                DATAFLOW_PTR_UNIFORM_FLOAT_TYPE_ID,
                pointer_id(kernel, at),
                variable_id(kernel, binding),
                DATAFLOW_UINT_ZERO_ID,
                index_id(kernel, index),
            ).op(
                OP_LOAD,
                seq![DATAFLOW_FLOAT_TYPE_ID, value_id(kernel, result), pointer_id(kernel, at)],
            ),
            PcuDispatchOpKind::Data(PcuDispatchDataOp::Alu { result, op: alu, lhs, rhs }) => self.op(
                alu_opcode(alu),
                seq![
                    DATAFLOW_FLOAT_TYPE_ID,
                    value_id(kernel, result),
                    value_id(kernel, lhs),
                    value_id(kernel, rhs),
                ],
            ),
            PcuDispatchOpKind::Data(
                PcuDispatchDataOp::BindingStore { binding, index, value },
            ) => self.access(
                DATAFLOW_PTR_UNIFORM_FLOAT_TYPE_ID,
                pointer_id(kernel, at),
                variable_id(kernel, binding),
                DATAFLOW_UINT_ZERO_ID,
                index_id(kernel, index),
            ).op(OP_STORE, seq![pointer_id(kernel, at), value_id(kernel, value)]),
            PcuDispatchOpKind::Return => self.op(OP_RETURN, seq![]),
            _ => self,
        }
    }

    /// The first `count` operations of a list, whose pointers start at place `first`.
    pub open spec fn flow_ops(
        self,
        kernel: PcuDispatchKernelIr,
        ops: Seq<PcuDispatchOp>,
        first: int,
        count: nat,
    ) -> Stream
        decreases count,
    {
        if count == 0 {
            self
        } else {
            self.flow_ops(kernel, ops, first, (count - 1) as nat).flow_op(
                kernel,
                ops[count - 1],
                first + count - 1,
            )
        }
    }

    /// The head of a loop: its index, its condition and its merge.
    pub open spec fn loop_head(self, kernel: PcuDispatchKernelIr) -> Stream {
        self.op(OP_BRANCH, seq![loop_id(kernel, LOOP_HEADER)]).op(
            OP_LABEL,
            seq![loop_id(kernel, LOOP_HEADER)],
        ).op(
            OP_PHI,
            seq![
                DATAFLOW_UINT_TYPE_ID,
                loop_id(kernel, LOOP_INDEX),
                DATAFLOW_INDEX_ID,
                ENTRY_LABEL_ID,
                loop_id(kernel, LOOP_NEXT_INDEX),
                loop_id(kernel, LOOP_CONTINUE_LABEL),
            ],
        ).op(
            OP_U_LESS_THAN,
            seq![
                DATAFLOW_BOOL_TYPE_ID,
                loop_id(kernel, LOOP_INDEX_IN_RANGE),
                loop_id(kernel, LOOP_INDEX),
                loop_id(kernel, LOOP_EXTENT),
            ],
        ).op(
            OP_U_LESS_THAN,
            seq![
                DATAFLOW_BOOL_TYPE_ID,
                loop_id(kernel, LOOP_BASE_IN_RANGE),
                DATAFLOW_INDEX_ID,
                loop_id(kernel, LOOP_STRIDE),
            ],
        ).op(
            OP_LOGICAL_AND,
            seq![
                DATAFLOW_BOOL_TYPE_ID,
                loop_id(kernel, LOOP_CONDITION),
                loop_id(kernel, LOOP_INDEX_IN_RANGE),
                loop_id(kernel, LOOP_BASE_IN_RANGE),
            ],
        ).op(
            OP_LOOP_MERGE,
            seq![
                loop_id(kernel, LOOP_MERGE_LABEL),
                loop_id(kernel, LOOP_CONTINUE_LABEL),
                0u32,
            ],
        ).op(
            OP_BRANCH_CONDITIONAL,
            seq![
                loop_id(kernel, LOOP_CONDITION),
                loop_id(kernel, LOOP_BODY_LABEL),
                loop_id(kernel, LOOP_MERGE_LABEL),
            ],
        ).op(OP_LABEL, seq![loop_id(kernel, LOOP_BODY_LABEL)])
    }

    /// The tail of a loop: the next index, which does not pass the extent, and the exit.
    pub open spec fn loop_tail(self, kernel: PcuDispatchKernelIr) -> Stream {
        self.op(OP_BRANCH, seq![loop_id(kernel, LOOP_CONTINUE_LABEL)]).op(
            OP_LABEL,
            seq![loop_id(kernel, LOOP_CONTINUE_LABEL)],
        ).op(
            OP_I_ADD,
            seq![
                DATAFLOW_UINT_TYPE_ID,
                loop_id(kernel, LOOP_RAW_NEXT_INDEX),
                loop_id(kernel, LOOP_INDEX),
                loop_id(kernel, LOOP_STRIDE),
            ],
        ).op(
            OP_I_SUB,
            seq![
                DATAFLOW_UINT_TYPE_ID,
                loop_id(kernel, LOOP_REMAINING),
                loop_id(kernel, LOOP_EXTENT),
                loop_id(kernel, LOOP_INDEX),
            ],
        ).op(
            OP_U_LESS_THAN_EQUAL,
            seq![
                DATAFLOW_BOOL_TYPE_ID,
                loop_id(kernel, LOOP_STOP),
                loop_id(kernel, LOOP_REMAINING),
                loop_id(kernel, LOOP_STRIDE),
            ],
        ).op(
            OP_SELECT,
            seq![
                DATAFLOW_UINT_TYPE_ID,
                loop_id(kernel, LOOP_NEXT_INDEX),
                loop_id(kernel, LOOP_STOP),
                loop_id(kernel, LOOP_EXTENT),
                loop_id(kernel, LOOP_RAW_NEXT_INDEX),
            ],
        ).op(OP_BRANCH, seq![loop_id(kernel, LOOP_HEADER)]).op(
            OP_LABEL,
            seq![loop_id(kernel, LOOP_MERGE_LABEL)],
        ).function_end()
    }

    /// The function of a data-flow kernel. The pointers of a loop's body follow that of the loop.
    pub open spec fn flow_function(self, kernel: PcuDispatchKernelIr) -> Stream {
        let start = self.function_start().invocation_index(
            DATAFLOW_PTR_INPUT_UINT_TYPE_ID,
            DATAFLOW_INDEX_PTR_ID,
            DATAFLOW_GLOBAL_INVOCATION_ID_VAR_ID,
            DATAFLOW_UINT_ZERO_ID,
            DATAFLOW_UINT_TYPE_ID,
            DATAFLOW_INDEX_ID,
        );
        if some_loop(kernel.ops@) {
            start.loop_head(kernel).flow_ops(
                kernel,
                loop_body(kernel),
                1,
                loop_body(kernel).len(),
            ).loop_tail(kernel)
        } else {
            start.flow_ops(kernel, kernel.ops@, 0, kernel.ops@.len()).op(OP_FUNCTION_END, seq![])
        }
    }

    /// A data-flow kernel, after its entry instruction.
    pub open spec fn flow_rest(self, kernel: PcuDispatchKernelIr) -> Stream {
        self.local_size().flow_decorations(kernel).flow_types(kernel).flow_function(kernel)
    }
}

/// The bytes of a kernel's name.
pub open spec fn entry_name(kernel: PcuDispatchKernelIr) -> Seq<u8> {
    encode_utf8(kernel.entry.name@)
}

/// The bound of the identifiers of the module that a kernel lowers to.
pub open spec fn module_bound(kernel: PcuDispatchKernelIr) -> nat {
    if some_flow(kernel.ops@) {
        id_bound(kernel)
    } else if parallel_map(kernel) {
        PARALLEL_FLOAT_BOUND as nat
    } else {
        DEFAULT_BOUND as nat
    }
}

/// The variables that a module's entry point uses.
pub open spec fn module_interface(kernel: PcuDispatchKernelIr) -> Seq<u32> {
    if some_flow(kernel.ops@) {
        seq![DATAFLOW_GLOBAL_INVOCATION_ID_VAR_ID]
    } else if parallel_map(kernel) {
        seq![PARALLEL_FLOAT_GLOBAL_INVOCATION_ID_VAR_ID]
    } else {
        seq![]
    }
}

/// What stands before a module's entry point.
pub open spec fn module_start(
    kernel: PcuDispatchKernelIr,
    options: PcuSpirvLoweringOptions,
) -> Stream {
    Stream::header(options, module_bound(kernel) as u32).model()
}

/// The length of a module's entry instruction fits a word.
pub open spec fn entry_fits(kernel: PcuDispatchKernelIr) -> bool {
    3 + string_words(entry_name(kernel)).len() + module_interface(kernel).len() <= u32::MAX
}

/// The words of the module that a kernel lowers to.
pub open spec fn module_words(
    kernel: PcuDispatchKernelIr,
    options: PcuSpirvLoweringOptions,
) -> Seq<u32> {
    let entered = module_start(kernel, options).entry(
        entry_name(kernel),
        module_interface(kernel),
    );
    if some_flow(kernel.ops@) {
        entered.flow_rest(kernel).words
    } else if parallel_map(kernel) {
        entered.parallel_rest().words
    } else {
        entered.minimal_rest().words
    }
}

} // verus!
