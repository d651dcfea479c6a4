//! The part of the writer that emits data-flow kernels.
use vstd::prelude::*;

use super::dataflow::{
    binding_place, dataflow_fault, defined_before, defined_by, find_binding, has_loop, loop_body,
    loop_fault, loop_op_fault, loops, map_fault, map_op_fault, operand_fault, some_loop,
};
use super::ids::{
    body_of, largest_value, lemma_largest_value, op_places, value_number, DataflowIds,
    DATAFLOW_BINDING_VAR_BASE_ID,
};
use super::numbers::{
    OP_TYPE_BOOL, OP_TYPE_INT, OP_TYPE_FLOAT, OP_TYPE_VECTOR, OP_TYPE_RUNTIME_ARRAY, OP_TYPE_STRUCT,
    OP_TYPE_POINTER, OP_CONSTANT, OP_FUNCTION_END, OP_VARIABLE, OP_LOAD, OP_STORE, OP_ACCESS_CHAIN,
    OP_F_ADD, OP_F_SUB, OP_F_MUL, OP_F_DIV, OP_I_ADD, OP_I_SUB, OP_U_LESS_THAN,
    OP_U_LESS_THAN_EQUAL, OP_LOGICAL_AND, OP_SELECT, OP_LOOP_MERGE, OP_BRANCH,
    OP_BRANCH_CONDITIONAL, OP_PHI, OP_LABEL, OP_RETURN, STORAGE_CLASS_INPUT, STORAGE_CLASS_UNIFORM,
    ENTRY_LABEL_ID, DATAFLOW_UINT_TYPE_ID, DATAFLOW_UINT_ZERO_ID, DATAFLOW_FLOAT_TYPE_ID,
    DATAFLOW_VEC3_UINT_TYPE_ID, DATAFLOW_PTR_INPUT_VEC3_UINT_TYPE_ID,
    DATAFLOW_PTR_INPUT_UINT_TYPE_ID, DATAFLOW_RUNTIME_ARRAY_TYPE_ID, DATAFLOW_BUFFER_TYPE_ID,
    DATAFLOW_PTR_UNIFORM_BUFFER_TYPE_ID, DATAFLOW_PTR_UNIFORM_FLOAT_TYPE_ID,
    DATAFLOW_GLOBAL_INVOCATION_ID_VAR_ID, DATAFLOW_INDEX_PTR_ID, DATAFLOW_INDEX_ID,
    DATAFLOW_BOOL_TYPE_ID, LOOP_HEADER, LOOP_BODY_LABEL, LOOP_CONTINUE_LABEL, LOOP_MERGE_LABEL,
    LOOP_INDEX, LOOP_EXTENT, LOOP_STRIDE, LOOP_INDEX_IN_RANGE, LOOP_BASE_IN_RANGE, LOOP_CONDITION,
    LOOP_NEXT_INDEX, LOOP_RAW_NEXT_INDEX, LOOP_REMAINING, LOOP_STOP,
};
use super::sink::PcuSpirvSink;
use super::validate::lemma_no_fault;
use super::words::{index_id, variable_id};
use super::writer::PcuSpirvWriter;
use crate::pcu::ir::{
    PcuBindingRef, PcuDispatchAluOp, PcuDispatchDataOp, PcuDispatchIndex, PcuDispatchKernelIr,
    PcuDispatchOp, PcuDispatchOpKind, PcuDispatchValueId, PcuParameterValue,
};

verus! {

/// The value has a number that the kernel's identifiers cover.
pub open spec fn numbered(kernel: PcuDispatchKernelIr, value: PcuDispatchValueId) -> bool {
    1 <= value.0 <= largest_value(kernel.ops@, kernel.ops@.len())
}

/// An operation can be emitted: its values are numbered, its binding exists, and it addresses by
/// `index`.
pub open spec fn emittable(
    kernel: PcuDispatchKernelIr,
    op: PcuDispatchOp,
    index: PcuDispatchIndex,
) -> bool {
    match op.kind {
        PcuDispatchOpKind::Data(
            PcuDispatchDataOp::BindingLoad { result, binding, index: by },
        ) => numbered(kernel, result) && by == index && binding_place(
            kernel.bindings@,
            kernel.bindings@.len(),
            binding,
        ) is Some,
        PcuDispatchOpKind::Data(PcuDispatchDataOp::Constant { result, .. }) => numbered(
            kernel,
            result,
        ),
        PcuDispatchOpKind::Data(PcuDispatchDataOp::Alu { result, op: alu, lhs, rhs }) => numbered(
            kernel,
            result,
        ) && numbered(kernel, lhs) && numbered(kernel, rhs) && !(alu is Other),
        PcuDispatchOpKind::Data(
            PcuDispatchDataOp::BindingStore { binding, index: by, value },
        ) => numbered(kernel, value) && by == index && binding_place(
            kernel.bindings@,
            kernel.bindings@.len(),
            binding,
        ) is Some,
        _ => true,
    }
}

/// Every operation of a list can be emitted.
pub open spec fn all_emittable(
    kernel: PcuDispatchKernelIr,
    ops: Seq<PcuDispatchOp>,
    index: PcuDispatchIndex,
) -> bool {
    forall|i: int| 0 <= i < ops.len() ==> emittable(kernel, #[trigger] ops[i], index)
}

proof fn lemma_op_places(ops: Seq<PcuDispatchOp>, count: nat)
    ensures
        op_places(ops, count) >= count,
    decreases count,
{
    if count > 0 {
        lemma_op_places(ops, (count - 1) as nat);
    }
}

/// An admitted kernel without a loop can be emitted.
proof fn lemma_map_is_emittable(kernel: PcuDispatchKernelIr)
    requires
        map_fault(kernel) is None,
    ensures
        all_emittable(kernel, kernel.ops@, PcuDispatchIndex::InvocationId),
{
    let ops = kernel.ops@;
    let fault = |i: int| map_op_fault(kernel, i);
    lemma_no_fault(ops.len(), fault);
    lemma_largest_value(ops, ops.len());
    assert forall|i: int| 0 <= i < ops.len() implies emittable(
        kernel,
        #[trigger] ops[i],
        PcuDispatchIndex::InvocationId,
    ) by {
        assert(fault(i) is None);
        assert(value_number(ops[i]) <= largest_value(ops, ops.len()));
        assert forall|value: PcuDispatchValueId| #[trigger]
            operand_fault(ops, i, value) is None implies numbered(kernel, value) by {
            let j = choose|j: int| 0 <= j < i && #[trigger] defined_by(ops[j]) == Some(value);
            assert(value_number(ops[j]) == value.0);
        }
    }
}

/// The body of an admitted kernel with a loop can be emitted.
proof fn lemma_loop_is_emittable(kernel: PcuDispatchKernelIr)
    requires
        loop_fault(kernel) is None,
    ensures
        all_emittable(kernel, loop_body(kernel), PcuDispatchIndex::GridStrideId),
        op_places(kernel.ops@, kernel.ops@.len()) >= loop_body(kernel).len() + 2,
        some_loop(kernel.ops@),
{
    let ops = kernel.ops@;
    let body = loop_body(kernel);
    let fault = |i: int| loop_op_fault(kernel.bindings@, body, i);
    lemma_no_fault(body.len(), fault);
    lemma_largest_value(ops, ops.len());
    assert(loops(ops[0]));
    assert(body == body_of(ops[0]));
    reveal_with_fuel(op_places, 3);
    assert(op_places(ops, 2) == op_places(ops, 1) + body_of(ops[1]).len() + 1);
    assert(op_places(ops, 1) == op_places(ops, 0) + body_of(ops[0]).len() + 1);
    assert forall|i: int| 0 <= i < body.len() implies emittable(
        kernel,
        #[trigger] body[i],
        PcuDispatchIndex::GridStrideId,
    ) by {
        assert(fault(i) is None);
        assert(body_of(ops[0])[i] == body[i]);
        assert(value_number(body_of(ops[0])[i]) <= largest_value(ops, ops.len()));
        assert forall|value: PcuDispatchValueId| #[trigger]
            defined_before(body, i, value) implies numbered(kernel, value) by {
            let j = choose|j: int| 0 <= j < i && #[trigger] defined_by(body[j]) == Some(value);
            assert(fault(j) is None);
            assert(body_of(ops[0])[j] == body[j]);
            assert(value_number(body_of(ops[0])[j]) == value.0);
        }
    }
}

impl PcuSpirvWriter {
    fn push_f32_dataflow_decorations<S: PcuSpirvSink>(
        &mut self,
        sink: &mut S,
        kernel: &PcuDispatchKernelIr,
        ids: DataflowIds,
    )
        requires
            old(self).tracks(*old(sink)),
            ids.belong_to(*kernel),
        ensures
            final(self).tracks(*final(sink)),
            final(self).wrote(*old(self), old(self).stream@.flow_decorations(*kernel)),
    {
        self.push_buffer_decorations(
            sink,
            DATAFLOW_GLOBAL_INVOCATION_ID_VAR_ID,
            DATAFLOW_RUNTIME_ARRAY_TYPE_ID,
            DATAFLOW_BUFFER_TYPE_ID,
        );
        let ghost before = *self;
        let mut at: usize = 0;
        while at < kernel.bindings.len()
            invariant
                at <= kernel.bindings@.len(),
                ids.belong_to(*kernel),
                self.tracks(*sink),
                self.wrote(before, before.stream@.descriptors(*kernel, at as nat)),
            decreases kernel.bindings@.len() - at,
        {
            let variable: u32 = DATAFLOW_BINDING_VAR_BASE_ID + at as u32;
            self.push_descriptor_decorations(
                sink,
                variable,
                kernel.bindings[at].set,
                kernel.bindings[at].binding,
            );
            at += 1;
        }
    }

    /// Pushes the constants that a list of operations names.
    fn push_constants<S: PcuSpirvSink>(
        &mut self,
        sink: &mut S,
        kernel: &PcuDispatchKernelIr,
        ids: DataflowIds,
        ops: &Vec<PcuDispatchOp>,
        Ghost(index): Ghost<PcuDispatchIndex>,
    )
        requires
            old(self).tracks(*old(sink)),
            ids.belong_to(*kernel),
            all_emittable(*kernel, ops@, index),
        ensures
            final(self).tracks(*final(sink)),
            final(self).wrote(*old(self), old(self).stream@.constants(*kernel, ops@, ops@.len())),
    {
        let ghost before = *self;
        let mut at: usize = 0;
        while at < ops.len()
            invariant
                at <= ops@.len(),
                ids.belong_to(*kernel),
                all_emittable(*kernel, ops@, index),
                self.tracks(*sink),
                self.wrote(before, before.stream@.constants(*kernel, ops@, at as nat)),
            decreases ops@.len() - at,
        {
            assert(emittable(*kernel, ops@[at as int], index));
            if let PcuDispatchOpKind::Data(
                PcuDispatchDataOp::Constant { result, value: PcuParameterValue::F32(bits) },
            ) = &ops[at].kind {
                let value: u32 = ids.value_base + (result.0 as u32 - 1);
                self.push3(sink, OP_CONSTANT, DATAFLOW_FLOAT_TYPE_ID, value, *bits);
            }
            at += 1;
        }
    }

    fn push_flow_constants<S: PcuSpirvSink>(
        &mut self,
        sink: &mut S,
        kernel: &PcuDispatchKernelIr,
        ids: DataflowIds,
    )
        requires
            old(self).tracks(*old(sink)),
            ids.belong_to(*kernel),
            kernel.ops@.len() > 0,
            dataflow_fault(*kernel) is None,
        ensures
            final(self).tracks(*final(sink)),
            final(self).wrote(*old(self), old(self).stream@.flow_constants(*kernel)),
    {
        match &kernel.ops[0].kind {
            PcuDispatchOpKind::GridStrideLoop { extent, body } => {
                proof {
                    assert(loops(kernel.ops@[0]));
                    lemma_loop_is_emittable(*kernel);
                }
                self.push_constants(
                    sink,
                    kernel,
                    ids,
                    body,
                    Ghost(PcuDispatchIndex::GridStrideId),
                );
                self.push3(
                    sink,
                    OP_CONSTANT,
                    DATAFLOW_UINT_TYPE_ID,
                    ids.loop_base + LOOP_EXTENT,
                    *extent,
                );
                self.push3(
                    sink,
                    OP_CONSTANT,
                    DATAFLOW_UINT_TYPE_ID,
                    ids.loop_base + LOOP_STRIDE,
                    kernel.entry.logical_shape[0],
                );
            },
            _ => {
                proof {
                    if some_loop(kernel.ops@) {
                        assert(loops(kernel.ops@[0]));
                    }
                    lemma_map_is_emittable(*kernel);
                }
                self.push_constants(
                    sink,
                    kernel,
                    ids,
                    &kernel.ops,
                    Ghost(PcuDispatchIndex::InvocationId),
                );
            },
        }
    }

    fn push_flow_variables<S: PcuSpirvSink>(
        &mut self,
        sink: &mut S,
        kernel: &PcuDispatchKernelIr,
        ids: DataflowIds,
    )
        requires
            old(self).tracks(*old(sink)),
            ids.belong_to(*kernel),
        ensures
            final(self).tracks(*final(sink)),
            final(self).wrote(*old(self), old(self).stream@.variables(kernel.bindings@.len())),
    {
        let ghost before = *self;
        let mut at: usize = 0;
        while at < kernel.bindings.len()
            invariant
                at <= kernel.bindings@.len(),
                ids.belong_to(*kernel),
                self.tracks(*sink),
                self.wrote(before, before.stream@.variables(at as nat)),
            decreases kernel.bindings@.len() - at,
        {
            let variable: u32 = DATAFLOW_BINDING_VAR_BASE_ID + at as u32;
            self.push3(
                sink,
                OP_VARIABLE,
                DATAFLOW_PTR_UNIFORM_BUFFER_TYPE_ID,
                variable,
                STORAGE_CLASS_UNIFORM,
            );
            at += 1;
        }
    }

    fn push_f32_dataflow_types_constants_and_variables<S: PcuSpirvSink>(
        &mut self,
        sink: &mut S,
        kernel: &PcuDispatchKernelIr,
        ids: DataflowIds,
    )
        requires
            old(self).tracks(*old(sink)),
            ids.belong_to(*kernel),
            kernel.ops@.len() > 0,
            dataflow_fault(*kernel) is None,
        ensures
            final(self).tracks(*final(sink)),
            final(self).wrote(*old(self), old(self).stream@.flow_types(*kernel)),
    {
        self.push_void_types(sink);
        self.push3(sink, OP_TYPE_INT, DATAFLOW_UINT_TYPE_ID, 32, 0);
        self.push1(sink, OP_TYPE_BOOL, DATAFLOW_BOOL_TYPE_ID);
        self.push3(sink, OP_CONSTANT, DATAFLOW_UINT_TYPE_ID, DATAFLOW_UINT_ZERO_ID, 0);
        self.push2(sink, OP_TYPE_FLOAT, DATAFLOW_FLOAT_TYPE_ID, 32);
        self.push_flow_constants(sink, kernel, ids);
        self.push3(sink, OP_TYPE_VECTOR, DATAFLOW_VEC3_UINT_TYPE_ID, DATAFLOW_UINT_TYPE_ID, 3);
        self.push3(
            sink,
            OP_TYPE_POINTER,
            DATAFLOW_PTR_INPUT_VEC3_UINT_TYPE_ID,
            STORAGE_CLASS_INPUT,
            DATAFLOW_VEC3_UINT_TYPE_ID,
        );
        self.push3(
            sink,
            OP_TYPE_POINTER,
            DATAFLOW_PTR_INPUT_UINT_TYPE_ID,
            STORAGE_CLASS_INPUT,
            DATAFLOW_UINT_TYPE_ID,
        );
        self.push2(
            sink,
            OP_TYPE_RUNTIME_ARRAY,
            DATAFLOW_RUNTIME_ARRAY_TYPE_ID,
            DATAFLOW_FLOAT_TYPE_ID,
        );
        self.push2(sink, OP_TYPE_STRUCT, DATAFLOW_BUFFER_TYPE_ID, DATAFLOW_RUNTIME_ARRAY_TYPE_ID);
        self.push3(
            sink,
            OP_TYPE_POINTER,
            DATAFLOW_PTR_UNIFORM_BUFFER_TYPE_ID,
            STORAGE_CLASS_UNIFORM,
            DATAFLOW_BUFFER_TYPE_ID,
        );
        self.push3(
            sink,
            OP_TYPE_POINTER,
            DATAFLOW_PTR_UNIFORM_FLOAT_TYPE_ID,
            STORAGE_CLASS_UNIFORM,
            DATAFLOW_FLOAT_TYPE_ID,
        );
        self.push_flow_variables(sink, kernel, ids);
        self.push3(
            sink,
            OP_VARIABLE,
            DATAFLOW_PTR_INPUT_VEC3_UINT_TYPE_ID,
            DATAFLOW_GLOBAL_INVOCATION_ID_VAR_ID,
            STORAGE_CLASS_INPUT,
        );
    }

    /// Pushes the pointer to the element of a binding that an access addresses.
    fn push_f32_dataflow_access<S: PcuSpirvSink>(
        &mut self,
        sink: &mut S,
        kernel: &PcuDispatchKernelIr,
        ids: DataflowIds,
        pointer: u32,
        binding: PcuBindingRef,
        index: PcuDispatchIndex,
    )
        requires
            old(self).tracks(*old(sink)),
            ids.belong_to(*kernel),
            binding_place(kernel.bindings@, kernel.bindings@.len(), binding) is Some,
            index == PcuDispatchIndex::GridStrideId ==> some_loop(kernel.ops@),
        ensures
            final(self).tracks(*final(sink)),
            final(self).wrote(
                *old(self),
                old(self).stream@.access(
                    DATAFLOW_PTR_UNIFORM_FLOAT_TYPE_ID,
                    pointer,
                    variable_id(*kernel, binding),
                    DATAFLOW_UINT_ZERO_ID,
                    index_id(*kernel, index),
                ),
            ),
    {
        let place: usize = match find_binding(&kernel.bindings, binding) {
            Some(at) => at,
            None => 0,
        };
        let variable: u32 = DATAFLOW_BINDING_VAR_BASE_ID + place as u32;
        let by: u32 = match index {
            PcuDispatchIndex::GridStrideId => ids.loop_base + LOOP_INDEX,
            _ => DATAFLOW_INDEX_ID,
        };
        self.push5(
            sink,
            OP_ACCESS_CHAIN,
            DATAFLOW_PTR_UNIFORM_FLOAT_TYPE_ID,
            pointer,
            variable,
            DATAFLOW_UINT_ZERO_ID,
            by,
        );
    }

    /// Pushes one operation of the data flow.
    fn push_flow_op<S: PcuSpirvSink>(
        &mut self,
        sink: &mut S,
        kernel: &PcuDispatchKernelIr,
        ids: DataflowIds,
        op: &PcuDispatchOp,
        at: usize,
        Ghost(index): Ghost<PcuDispatchIndex>,
    )
        requires
            old(self).tracks(*old(sink)),
            ids.belong_to(*kernel),
            emittable(*kernel, *op, index),
            index == PcuDispatchIndex::GridStrideId ==> some_loop(kernel.ops@),
            at < op_places(kernel.ops@, kernel.ops@.len()),
        ensures
            final(self).tracks(*final(sink)),
            final(self).wrote(*old(self), old(self).stream@.flow_op(*kernel, *op, at as int)),
    {
        let pointer: u32 = ids.pointer_base + at as u32;
        match &op.kind {
            PcuDispatchOpKind::Data(
                PcuDispatchDataOp::BindingLoad { result, binding, index: by },
            ) => {
                let value: u32 = ids.value_base + (result.0 as u32 - 1);
                self.push_f32_dataflow_access(sink, kernel, ids, pointer, *binding, *by);
                self.push3(sink, OP_LOAD, DATAFLOW_FLOAT_TYPE_ID, value, pointer);
            },
            PcuDispatchOpKind::Data(PcuDispatchDataOp::Alu { result, op: alu, lhs, rhs }) => {
                let opcode: u16 = match alu {
                    PcuDispatchAluOp::Add => OP_F_ADD,
                    PcuDispatchAluOp::Sub => OP_F_SUB,
                    PcuDispatchAluOp::Mul => OP_F_MUL,
                    _ => OP_F_DIV,
                };
                self.push4(
                    sink,
                    opcode,
                    DATAFLOW_FLOAT_TYPE_ID,
                    ids.value_base + (result.0 as u32 - 1),
                    ids.value_base + (lhs.0 as u32 - 1),
                    ids.value_base + (rhs.0 as u32 - 1),
                );
            },
            PcuDispatchOpKind::Data(
                PcuDispatchDataOp::BindingStore { binding, index: by, value },
            ) => {
                let stored: u32 = ids.value_base + (value.0 as u32 - 1);
                self.push_f32_dataflow_access(sink, kernel, ids, pointer, *binding, *by);
                self.push2(sink, OP_STORE, pointer, stored);
            },
            PcuDispatchOpKind::Return => {
                self.push0(sink, OP_RETURN);
            },
            _ => {},
        }
    }

    /// Pushes a list of operations of the data flow.
    fn push_flow_ops<S: PcuSpirvSink>(
        &mut self,
        sink: &mut S,
        kernel: &PcuDispatchKernelIr,
        ids: DataflowIds,
        ops: &Vec<PcuDispatchOp>,
        first: usize,
        Ghost(index): Ghost<PcuDispatchIndex>,
    )
        requires
            old(self).tracks(*old(sink)),
            ids.belong_to(*kernel),
            all_emittable(*kernel, ops@, index),
            index == PcuDispatchIndex::GridStrideId ==> some_loop(kernel.ops@),
            first + ops@.len() <= op_places(kernel.ops@, kernel.ops@.len()),
        ensures
            final(self).tracks(*final(sink)),
            final(self).wrote(
                *old(self),
                old(self).stream@.flow_ops(*kernel, ops@, first as int, ops@.len()),
            ),
    {
        let ghost before = *self;
        let mut at: usize = 0;
        while at < ops.len()
            invariant
                at <= ops@.len(),
                ids.belong_to(*kernel),
                all_emittable(*kernel, ops@, index),
                index == PcuDispatchIndex::GridStrideId ==> some_loop(kernel.ops@),
                first + ops@.len() <= op_places(kernel.ops@, kernel.ops@.len()),
                self.tracks(*sink),
                self.wrote(
                    before,
                    before.stream@.flow_ops(*kernel, ops@, first as int, at as nat),
                ),
            decreases ops@.len() - at,
        {
            assert(emittable(*kernel, ops@[at as int], index));
            self.push_flow_op(sink, kernel, ids, &ops[at], first + at, Ghost(index));
            at += 1;
        }
    }

    fn push_loop_head<S: PcuSpirvSink>(
        &mut self,
        sink: &mut S,
        kernel: &PcuDispatchKernelIr,
        ids: DataflowIds,
    )
        requires
            old(self).tracks(*old(sink)),
            ids.belong_to(*kernel),
            some_loop(kernel.ops@),
        ensures
            final(self).tracks(*final(sink)),
            final(self).wrote(*old(self), old(self).stream@.loop_head(*kernel)),
    {
        let base: u32 = ids.loop_base;
        self.push1(sink, OP_BRANCH, base + LOOP_HEADER);
        self.push1(sink, OP_LABEL, base + LOOP_HEADER);
        self.push6(
            sink,
            OP_PHI,
            DATAFLOW_UINT_TYPE_ID,
            base + LOOP_INDEX,
            DATAFLOW_INDEX_ID,
            ENTRY_LABEL_ID,
            base + LOOP_NEXT_INDEX,
            base + LOOP_CONTINUE_LABEL,
        );
        self.push4(
            sink,
            OP_U_LESS_THAN,
            DATAFLOW_BOOL_TYPE_ID,
            base + LOOP_INDEX_IN_RANGE,
            base + LOOP_INDEX,
            base + LOOP_EXTENT,
        );
        self.push4(
            sink,
            OP_U_LESS_THAN,
            DATAFLOW_BOOL_TYPE_ID,
            base + LOOP_BASE_IN_RANGE,
            DATAFLOW_INDEX_ID,
            base + LOOP_STRIDE,
        );
        self.push4(
            sink,
            OP_LOGICAL_AND,
            DATAFLOW_BOOL_TYPE_ID,
            base + LOOP_CONDITION,
            base + LOOP_INDEX_IN_RANGE,
            base + LOOP_BASE_IN_RANGE,
        );
        self.push3(sink, OP_LOOP_MERGE, base + LOOP_MERGE_LABEL, base + LOOP_CONTINUE_LABEL, 0);
        self.push3(
            sink,
            OP_BRANCH_CONDITIONAL,
            base + LOOP_CONDITION,
            base + LOOP_BODY_LABEL,
            base + LOOP_MERGE_LABEL,
        );
        self.push1(sink, OP_LABEL, base + LOOP_BODY_LABEL);
    }

    fn push_loop_tail<S: PcuSpirvSink>(
        &mut self,
        sink: &mut S,
        kernel: &PcuDispatchKernelIr,
        ids: DataflowIds,
    )
        requires
            old(self).tracks(*old(sink)),
            ids.belong_to(*kernel),
            some_loop(kernel.ops@),
        ensures
            final(self).tracks(*final(sink)),
            final(self).wrote(*old(self), old(self).stream@.loop_tail(*kernel)),
    {
        let base: u32 = ids.loop_base;
        self.push1(sink, OP_BRANCH, base + LOOP_CONTINUE_LABEL);
        self.push1(sink, OP_LABEL, base + LOOP_CONTINUE_LABEL);
        self.push4(
            sink,
            OP_I_ADD,
            DATAFLOW_UINT_TYPE_ID,
            base + LOOP_RAW_NEXT_INDEX,
            base + LOOP_INDEX,
            base + LOOP_STRIDE,
        );
        self.push4(
            sink,
            OP_I_SUB,
            DATAFLOW_UINT_TYPE_ID,
            base + LOOP_REMAINING,
            base + LOOP_EXTENT,
            base + LOOP_INDEX,
        );
        self.push4(
            sink,
            OP_U_LESS_THAN_EQUAL,
            DATAFLOW_BOOL_TYPE_ID,
            base + LOOP_STOP,
            base + LOOP_REMAINING,
            base + LOOP_STRIDE,
        );
        self.push5(
            sink,
            OP_SELECT,
            DATAFLOW_UINT_TYPE_ID,
            base + LOOP_NEXT_INDEX,
            base + LOOP_STOP,
            base + LOOP_EXTENT,
            base + LOOP_RAW_NEXT_INDEX,
        );
        self.push1(sink, OP_BRANCH, base + LOOP_HEADER);
        self.push1(sink, OP_LABEL, base + LOOP_MERGE_LABEL);
        self.push_function_end(sink);
    }

    /// Pushes the loop of a kernel, from its head to the end of the function.
    fn push_f32_grid_stride_function_body<S: PcuSpirvSink>(
        &mut self,
        sink: &mut S,
        kernel: &PcuDispatchKernelIr,
        ids: DataflowIds,
    )
        requires
            old(self).tracks(*old(sink)),
            ids.belong_to(*kernel),
            loop_fault(*kernel) is None,
        ensures
            final(self).tracks(*final(sink)),
            final(self).wrote(
                *old(self),
                old(self).stream@.loop_head(*kernel).flow_ops(
                    *kernel,
                    loop_body(*kernel),
                    1,
                    loop_body(*kernel).len(),
                ).loop_tail(*kernel),
            ),
    {
        proof {
            lemma_loop_is_emittable(*kernel);
        }
        self.push_loop_head(sink, kernel, ids);
        if let PcuDispatchOpKind::GridStrideLoop { body, .. } = &kernel.ops[0].kind {
            self.push_flow_ops(sink, kernel, ids, body, 1, Ghost(PcuDispatchIndex::GridStrideId));
        }
        self.push_loop_tail(sink, kernel, ids);
    }

    fn push_f32_dataflow_function<S: PcuSpirvSink>(
        &mut self,
        sink: &mut S,
        kernel: &PcuDispatchKernelIr,
        ids: DataflowIds,
    )
        requires
            old(self).tracks(*old(sink)),
            ids.belong_to(*kernel),
            dataflow_fault(*kernel) is None,
        ensures
            final(self).tracks(*final(sink)),
            final(self).wrote(*old(self), old(self).stream@.flow_function(*kernel)),
    {
        self.push_function_start(sink);
        self.push4(
            sink,
            OP_ACCESS_CHAIN,
            DATAFLOW_PTR_INPUT_UINT_TYPE_ID,
            DATAFLOW_INDEX_PTR_ID,
            DATAFLOW_GLOBAL_INVOCATION_ID_VAR_ID,
            DATAFLOW_UINT_ZERO_ID,
        );
        self.push3(
            sink,
            OP_LOAD,
            DATAFLOW_UINT_TYPE_ID,
            DATAFLOW_INDEX_ID,
            DATAFLOW_INDEX_PTR_ID,
        );
        if has_loop(&kernel.ops) {
            self.push_f32_grid_stride_function_body(sink, kernel, ids);
        } else {
            proof {
                lemma_map_is_emittable(*kernel);
                lemma_op_places(kernel.ops@, kernel.ops@.len());
            }
            self.push_flow_ops(
                sink,
                kernel,
                ids,
                &kernel.ops,
                0,
                Ghost(PcuDispatchIndex::InvocationId),
            );
            self.push0(sink, OP_FUNCTION_END);
        }
    }

    pub(crate) fn push_flow_rest<S: PcuSpirvSink>(
        &mut self,
        sink: &mut S,
        kernel: &PcuDispatchKernelIr,
        ids: DataflowIds,
    )
        requires
            old(self).tracks(*old(sink)),
            ids.belong_to(*kernel),
            kernel.ops@.len() > 0,
            dataflow_fault(*kernel) is None,
        ensures
            final(self).tracks(*final(sink)),
            final(self).wrote(*old(self), old(self).stream@.flow_rest(*kernel)),
    {
        self.push_local_size(sink);
        self.push_f32_dataflow_decorations(sink, kernel, ids);
        self.push_f32_dataflow_types_constants_and_variables(sink, kernel, ids);
        self.push_f32_dataflow_function(sink, kernel, ids);
    }
}

} // verus!
