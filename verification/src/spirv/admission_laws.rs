//! What lowering may rely on in a kernel that it admits.
use vstd::prelude::*;

use super::dataflow::{
    access_fault, addressed, binding_place, dataflow_fault, defined_before, defined_by,
    lemma_binding_place_holds, loop_body, loop_op_fault, loops, map_op_fault, some_flow, some_loop,
    stores,
};
use super::types::PcuSpirvLoweringOptions;
use super::validate::{kernel_fault, lemma_no_fault};
use crate::pcu::ir::{
    PcuBinding, PcuBindingAccess, PcuBindingRef, PcuBindingStorageClass, PcuBindingType,
    PcuDispatchDataOp, PcuDispatchIndex, PcuDispatchKernelIr, PcuDispatchOp, PcuDispatchOpKind,
    PcuDispatchValueId, PcuScalarType, PcuValueType,
};

verus! {

/// Some binding of single-precision numbers in storage has this address, and allows an access that
/// needs all but `forbidden`.
pub open spec fn reachable(
    bindings: Seq<PcuBinding>,
    address: PcuBindingRef,
    forbidden: PcuBindingAccess,
) -> bool {
    exists|b: int|
        {
            &&& 0 <= b < bindings.len()
            &&& (#[trigger] bindings[b]).set == address.set
            &&& bindings[b].binding == address.binding
            &&& bindings[b].access != forbidden
            &&& bindings[b].storage == PcuBindingStorageClass::Storage
            &&& bindings[b].binding_type == PcuBindingType::Value(
                PcuValueType::Scalar(PcuScalarType::F32),
            )
        }
}

/// The operation makes this value.
pub open spec fn makes(op: PcuDispatchOp, value: PcuDispatchValueId) -> bool {
    match op.kind {
        PcuDispatchOpKind::Data(PcuDispatchDataOp::BindingLoad { result, .. }) => result == value,
        PcuDispatchOpKind::Data(PcuDispatchDataOp::Constant { result, .. }) => result == value,
        PcuDispatchOpKind::Data(PcuDispatchDataOp::Alu { result, .. }) => result == value,
        _ => false,
    }
}

/// An operation before `at` makes this value.
pub open spec fn made_before(
    ops: Seq<PcuDispatchOp>,
    at: int,
    value: PcuDispatchValueId,
) -> bool {
    exists|j: int| 0 <= j < at && makes(#[trigger] ops[j], value)
}

/// The operation at `at` keeps the rules of the data flow. Loads read bindings that may be read,
/// and stores write bindings that may be written. What is used was made before, what is made was
/// not. Accesses go by the given index, and nothing else is done.
pub open spec fn keeps_rules(
    bindings: Seq<PcuBinding>,
    ops: Seq<PcuDispatchOp>,
    at: int,
    wanted: PcuDispatchIndex,
) -> bool {
    match ops[at].kind {
        PcuDispatchOpKind::Data(PcuDispatchDataOp::BindingLoad { result, binding, index }) => {
            &&& result.0 != 0
            &&& !made_before(ops, at, result)
            &&& reachable(bindings, binding, PcuBindingAccess::WriteOnly)
            &&& index == wanted
        },
        PcuDispatchOpKind::Data(PcuDispatchDataOp::Constant { result, value }) => {
            &&& result.0 != 0
            &&& !made_before(ops, at, result)
            &&& value is F32
        },
        PcuDispatchOpKind::Data(PcuDispatchDataOp::Alu { result, op, lhs, rhs }) => {
            &&& result.0 != 0
            &&& !made_before(ops, at, result)
            &&& made_before(ops, at, lhs)
            &&& made_before(ops, at, rhs)
            &&& op is Add || op is Sub || op is Mul || op is Div
        },
        PcuDispatchOpKind::Data(PcuDispatchDataOp::BindingStore { binding, index, value }) => {
            &&& made_before(ops, at, value)
            &&& reachable(bindings, binding, PcuBindingAccess::ReadOnly)
            &&& index == wanted
        },
        _ => false,
    }
}

/// Some operation stores.
pub open spec fn writes_something(ops: Seq<PcuDispatchOp>) -> bool {
    exists|i: int|
        0 <= i < ops.len() && (#[trigger] ops[i]).kind matches PcuDispatchOpKind::Data(
            PcuDispatchDataOp::BindingStore { .. },
        )
}

proof fn lemma_made(ops: Seq<PcuDispatchOp>, at: int, value: PcuDispatchValueId)
    requires
        0 <= at <= ops.len(),
    ensures
        defined_before(ops, at, value) == made_before(ops, at, value),
{
    if defined_before(ops, at, value) {
        let j = choose|j: int| 0 <= j < at && #[trigger] defined_by(ops[j]) == Some(value);
        assert(makes(ops[j], value));
    }
    if made_before(ops, at, value) {
        let j = choose|j: int| 0 <= j < at && makes(#[trigger] ops[j], value);
        assert(defined_by(ops[j]) == Some(value));
    }
}

proof fn lemma_reachable(
    bindings: Seq<PcuBinding>,
    address: PcuBindingRef,
    required: PcuBindingAccess,
    forbidden: PcuBindingAccess,
)
    requires
        access_fault(bindings, address, required) is None,
        required is ReadOnly && forbidden is WriteOnly || required is WriteOnly
            && forbidden is ReadOnly,
    ensures
        reachable(bindings, address, forbidden),
{
    lemma_binding_place_holds(bindings, bindings.len(), address);
    let b = binding_place(bindings, bindings.len(), address)->Some_0;
    assert(addressed(bindings[b], address));
}

/// An admitted data-flow kernel without a loop keeps the rules in every operation but the last,
/// which returns. Something is stored.
pub proof fn law_admitted_maps_keep_the_rules(
    kernel: PcuDispatchKernelIr,
    options: PcuSpirvLoweringOptions,
)
    requires
        kernel_fault(kernel, options) is None,
        some_flow(kernel.ops@),
        forall|i: int|
            0 <= i < kernel.ops@.len() ==> !((
            #[trigger] kernel.ops@[i]).kind is GridStrideLoop),
    ensures
        kernel.ops@.len() > 0,
        kernel.ops@.last().kind is Return,
        writes_something(kernel.ops@),
        forall|i: int|
            0 <= i < kernel.ops@.len() - 1 ==> #[trigger] keeps_rules(
                kernel.bindings@,
                kernel.ops@,
                i,
                PcuDispatchIndex::InvocationId,
            ),
{
    let ops = kernel.ops@;
    if some_loop(ops) {
        let i = choose|i: int| 0 <= i < ops.len() && loops(#[trigger] ops[i]);
        assert(ops[i].kind is GridStrideLoop);
    }
    assert(dataflow_fault(kernel) is None);
    let fault = |i: int| map_op_fault(kernel, i);
    lemma_no_fault(ops.len(), fault);
    assert forall|i: int| 0 <= i < ops.len() implies #[trigger] map_op_fault(kernel, i) is None by {
        assert(fault(i) is None);
    }
    let r = choose|r: int| 0 <= r < ops.len() && (#[trigger] ops[r]).kind is Return;
    assert(ops[r].kind is Return);
    assert(map_op_fault(kernel, ops.len() - 1) is None);
    let w = choose|w: int| 0 <= w < ops.len() && stores(#[trigger] ops[w]);
    assert(ops[w].kind matches PcuDispatchOpKind::Data(PcuDispatchDataOp::BindingStore { .. }));
    assert forall|i: int| 0 <= i < ops.len() - 1 implies #[trigger] keeps_rules(
        kernel.bindings@,
        ops,
        i,
        PcuDispatchIndex::InvocationId,
    ) by {
        assert(map_op_fault(kernel, i) is None);
        lemma_uses(kernel.bindings@, ops, i);
    }
}

/// An admitted kernel with a loop is that loop over a non-empty extent and a return. The body keeps
/// the rules in every operation, by the loop's index, and stores something.
pub proof fn law_admitted_loops_keep_the_rules(
    kernel: PcuDispatchKernelIr,
    options: PcuSpirvLoweringOptions,
    at: int,
)
    requires
        kernel_fault(kernel, options) is None,
        0 <= at < kernel.ops@.len(),
        kernel.ops@[at].kind is GridStrideLoop,
    ensures
        at == 0,
        kernel.ops@.len() == 2,
        kernel.ops@[1].kind is Return,
        kernel.entry.logical_shape@[0] > 0,
        kernel.ops@[0].kind matches PcuDispatchOpKind::GridStrideLoop { extent, body } && {
            &&& extent > 0
            &&& writes_something(body@)
            &&& forall|i: int|
                0 <= i < body@.len() ==> #[trigger] keeps_rules(
                    kernel.bindings@,
                    body@,
                    i,
                    PcuDispatchIndex::GridStrideId,
                )
        },
{
    assert(loops(kernel.ops@[at]));
    assert(super::dataflow::flows(kernel.ops@[at]));
    let ops = loop_body(kernel);
    let fault = |i: int| loop_op_fault(kernel.bindings@, ops, i);
    lemma_no_fault(ops.len(), fault);
    let w = choose|w: int| 0 <= w < ops.len() && stores(#[trigger] ops[w]);
    assert(ops[w].kind matches PcuDispatchOpKind::Data(PcuDispatchDataOp::BindingStore { .. }));
    assert forall|i: int| 0 <= i < ops.len() implies #[trigger] keeps_rules(
        kernel.bindings@,
        ops,
        i,
        PcuDispatchIndex::GridStrideId,
    ) by {
        assert(fault(i) is None);
        lemma_uses(kernel.bindings@, ops, i);
    }
}

/// What one operation uses and makes, in both notations.
proof fn lemma_uses(bindings: Seq<PcuBinding>, ops: Seq<PcuDispatchOp>, at: int)
    requires
        0 <= at < ops.len(),
    ensures
        match ops[at].kind {
            PcuDispatchOpKind::Data(PcuDispatchDataOp::BindingLoad { result, binding, .. }) => {
                &&& defined_before(ops, at, result) == made_before(ops, at, result)
                &&& access_fault(bindings, binding, PcuBindingAccess::ReadOnly) is None
                    ==> reachable(bindings, binding, PcuBindingAccess::WriteOnly)
            },
            PcuDispatchOpKind::Data(PcuDispatchDataOp::Constant { result, .. }) => defined_before(
                ops,
                at,
                result,
            ) == made_before(ops, at, result),
            PcuDispatchOpKind::Data(PcuDispatchDataOp::Alu { result, lhs, rhs, .. }) => {
                &&& defined_before(ops, at, result) == made_before(ops, at, result)
                &&& defined_before(ops, at, lhs) == made_before(ops, at, lhs)
                &&& defined_before(ops, at, rhs) == made_before(ops, at, rhs)
            },
            PcuDispatchOpKind::Data(PcuDispatchDataOp::BindingStore { binding, value, .. }) => {
                &&& defined_before(ops, at, value) == made_before(ops, at, value)
                &&& access_fault(bindings, binding, PcuBindingAccess::WriteOnly) is None
                    ==> reachable(bindings, binding, PcuBindingAccess::ReadOnly)
            },
            _ => true,
        },
{
    match ops[at].kind {
        PcuDispatchOpKind::Data(PcuDispatchDataOp::BindingLoad { result, binding, .. }) => {
            lemma_made(ops, at, result);
            if access_fault(bindings, binding, PcuBindingAccess::ReadOnly) is None {
                lemma_reachable(
                    bindings,
                    binding,
                    PcuBindingAccess::ReadOnly,
                    PcuBindingAccess::WriteOnly,
                );
            }
        },
        PcuDispatchOpKind::Data(PcuDispatchDataOp::Constant { result, .. }) => {
            lemma_made(ops, at, result);
        },
        PcuDispatchOpKind::Data(PcuDispatchDataOp::Alu { result, lhs, rhs, .. }) => {
            lemma_made(ops, at, result);
            lemma_made(ops, at, lhs);
            lemma_made(ops, at, rhs);
        },
        PcuDispatchOpKind::Data(PcuDispatchDataOp::BindingStore { binding, value, .. }) => {
            lemma_made(ops, at, value);
            if access_fault(bindings, binding, PcuBindingAccess::WriteOnly) is None {
                lemma_reachable(
                    bindings,
                    binding,
                    PcuBindingAccess::WriteOnly,
                    PcuBindingAccess::ReadOnly,
                );
            }
        },
        _ => {},
    }
}

} // verus!
