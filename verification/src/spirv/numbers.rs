//! The numbers of the instruction set and the identifiers of the emitted modules.
use vstd::prelude::*;

verus! {

/// The first word of a module.
pub const SPIRV_MAGIC: u32 = 0x0723_0203;

pub const OP_CAPABILITY: u16 = 17;

pub const OP_MEMORY_MODEL: u16 = 14;

pub const OP_ENTRY_POINT: u16 = 15;

pub const OP_EXECUTION_MODE: u16 = 16;

pub const OP_TYPE_VOID: u16 = 19;

pub const OP_TYPE_BOOL: u16 = 20;

pub const OP_TYPE_INT: u16 = 21;

pub const OP_TYPE_FLOAT: u16 = 22;

pub const OP_TYPE_VECTOR: u16 = 23;

pub const OP_TYPE_RUNTIME_ARRAY: u16 = 29;

pub const OP_TYPE_STRUCT: u16 = 30;

pub const OP_TYPE_POINTER: u16 = 32;

pub const OP_TYPE_FUNCTION: u16 = 33;

pub const OP_CONSTANT: u16 = 43;

pub const OP_FUNCTION: u16 = 54;

pub const OP_FUNCTION_END: u16 = 56;

pub const OP_VARIABLE: u16 = 59;

pub const OP_LOAD: u16 = 61;

pub const OP_STORE: u16 = 62;

pub const OP_ACCESS_CHAIN: u16 = 65;

pub const OP_DECORATE: u16 = 71;

pub const OP_MEMBER_DECORATE: u16 = 72;

pub const OP_F_ADD: u16 = 129;

pub const OP_F_SUB: u16 = 131;

pub const OP_F_MUL: u16 = 133;

pub const OP_F_DIV: u16 = 136;

pub const OP_I_ADD: u16 = 128;

pub const OP_I_SUB: u16 = 130;

pub const OP_U_LESS_THAN: u16 = 176;

pub const OP_U_LESS_THAN_EQUAL: u16 = 178;

pub const OP_LOGICAL_AND: u16 = 167;

pub const OP_SELECT: u16 = 169;

pub const OP_LOOP_MERGE: u16 = 246;

pub const OP_BRANCH: u16 = 249;

pub const OP_BRANCH_CONDITIONAL: u16 = 250;

pub const OP_PHI: u16 = 245;

pub const OP_LABEL: u16 = 248;

pub const OP_RETURN: u16 = 253;

pub const CAPABILITY_SHADER: u32 = 1;

pub const ADDRESSING_MODEL_LOGICAL: u32 = 0;

pub const MEMORY_MODEL_GLSL450: u32 = 1;

pub const EXECUTION_MODEL_GL_COMPUTE: u32 = 5;

pub const EXECUTION_MODE_LOCAL_SIZE: u32 = 17;

pub const FUNCTION_CONTROL_NONE: u32 = 0;

pub const STORAGE_CLASS_INPUT: u32 = 1;

pub const STORAGE_CLASS_UNIFORM: u32 = 2;

pub const DECORATION_BUFFER_BLOCK: u32 = 3;

pub const DECORATION_ARRAY_STRIDE: u32 = 6;

pub const DECORATION_BUILT_IN: u32 = 11;

pub const DECORATION_BINDING: u32 = 33;

pub const DECORATION_DESCRIPTOR_SET: u32 = 34;

pub const DECORATION_OFFSET: u32 = 35;

pub const BUILT_IN_GLOBAL_INVOCATION_ID: u32 = 28;

pub const VOID_TYPE_ID: u32 = 1;

pub const VOID_FUNCTION_TYPE_ID: u32 = 2;

pub const ENTRY_POINT_ID: u32 = 3;

pub const ENTRY_LABEL_ID: u32 = 4;

pub const DEFAULT_BOUND: u32 = 5;

/// One invocation makes a workgroup. The logical shape of a kernel is the extent of its dispatch,
/// which the host supplies as group counts.
pub const DEFAULT_LOCAL_SIZE: u32 = 1;

pub const PARALLEL_FLOAT_UINT_TYPE_ID: u32 = 5;

pub const PARALLEL_FLOAT_UINT_ZERO_ID: u32 = 6;

pub const PARALLEL_FLOAT_TYPE_ID: u32 = 7;

pub const PARALLEL_FLOAT_ONE_ID: u32 = 8;

pub const PARALLEL_FLOAT_TWO_ID: u32 = 9;

pub const PARALLEL_FLOAT_VEC3_UINT_TYPE_ID: u32 = 10;

pub const PARALLEL_FLOAT_PTR_INPUT_VEC3_UINT_TYPE_ID: u32 = 11;

pub const PARALLEL_FLOAT_PTR_INPUT_UINT_TYPE_ID: u32 = 12;

pub const PARALLEL_FLOAT_RUNTIME_ARRAY_TYPE_ID: u32 = 13;

pub const PARALLEL_FLOAT_BUFFER_TYPE_ID: u32 = 14;

pub const PARALLEL_FLOAT_PTR_UNIFORM_BUFFER_TYPE_ID: u32 = 15;

pub const PARALLEL_FLOAT_PTR_UNIFORM_FLOAT_TYPE_ID: u32 = 16;

pub const PARALLEL_FLOAT_INPUT_A_VAR_ID: u32 = 17;

pub const PARALLEL_FLOAT_INPUT_B_VAR_ID: u32 = 18;

pub const PARALLEL_FLOAT_OUTPUT_VAR_ID: u32 = 19;

pub const PARALLEL_FLOAT_GLOBAL_INVOCATION_ID_VAR_ID: u32 = 20;

pub const PARALLEL_FLOAT_INDEX_PTR_ID: u32 = 21;

pub const PARALLEL_FLOAT_INDEX_ID: u32 = 22;

pub const PARALLEL_FLOAT_A_PTR_ID: u32 = 23;

pub const PARALLEL_FLOAT_A_VALUE_ID: u32 = 24;

pub const PARALLEL_FLOAT_B_PTR_ID: u32 = 25;

pub const PARALLEL_FLOAT_B_VALUE_ID: u32 = 26;

pub const PARALLEL_FLOAT_OUTPUT_PTR_ID: u32 = 27;

pub const PARALLEL_FLOAT_SCALED_ID: u32 = 28;

pub const PARALLEL_FLOAT_SUM_ID: u32 = 29;

pub const PARALLEL_FLOAT_RESULT_ID: u32 = 30;

pub const PARALLEL_FLOAT_BOUND: u32 = 31;

pub const DATAFLOW_UINT_TYPE_ID: u32 = 5;

pub const DATAFLOW_UINT_ZERO_ID: u32 = 6;

pub const DATAFLOW_FLOAT_TYPE_ID: u32 = 7;

pub const DATAFLOW_VEC3_UINT_TYPE_ID: u32 = 8;

pub const DATAFLOW_PTR_INPUT_VEC3_UINT_TYPE_ID: u32 = 9;

pub const DATAFLOW_PTR_INPUT_UINT_TYPE_ID: u32 = 10;

pub const DATAFLOW_RUNTIME_ARRAY_TYPE_ID: u32 = 11;

pub const DATAFLOW_BUFFER_TYPE_ID: u32 = 12;

pub const DATAFLOW_PTR_UNIFORM_BUFFER_TYPE_ID: u32 = 13;

pub const DATAFLOW_PTR_UNIFORM_FLOAT_TYPE_ID: u32 = 14;

pub const DATAFLOW_GLOBAL_INVOCATION_ID_VAR_ID: u32 = 15;

pub const DATAFLOW_INDEX_PTR_ID: u32 = 16;

pub const DATAFLOW_INDEX_ID: u32 = 17;

pub const DATAFLOW_BOOL_TYPE_ID: u32 = 18;

/// The parts of a loop, in the order of their identifiers.
pub const LOOP_HEADER: u32 = 0;

pub const LOOP_BODY_LABEL: u32 = 1;

pub const LOOP_CONTINUE_LABEL: u32 = 2;

pub const LOOP_MERGE_LABEL: u32 = 3;

pub const LOOP_INDEX: u32 = 4;

pub const LOOP_EXTENT: u32 = 5;

pub const LOOP_STRIDE: u32 = 6;

pub const LOOP_INDEX_IN_RANGE: u32 = 7;

pub const LOOP_BASE_IN_RANGE: u32 = 8;

pub const LOOP_CONDITION: u32 = 9;

pub const LOOP_NEXT_INDEX: u32 = 10;

pub const LOOP_RAW_NEXT_INDEX: u32 = 11;

pub const LOOP_REMAINING: u32 = 12;

pub const LOOP_STOP: u32 = 13;

} // verus!
