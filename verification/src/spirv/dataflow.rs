//! Which data-flow kernels lowering admits.
use vstd::prelude::*;

use super::error::PcuSpirvError;
use super::validate::{first_fault, lemma_first_fault, verdict};
use crate::pcu::ir::{
    PcuBinding, PcuBindingAccess, PcuBindingRef, PcuBindingStorageClass, PcuBindingType,
    PcuDispatchAluOp, PcuDispatchDataOp, PcuDispatchIndex, PcuDispatchKernelIr, PcuDispatchOp,
    PcuDispatchOpCaps, PcuDispatchOpKind, PcuDispatchValueId, PcuF32MapValidationError,
    PcuParameterValue, PcuScalarType, PcuValueType, BINDING_LOAD, BINDING_LOAD_ELEMENT_ZERO,
    BINDING_STORE,
};

verus! {

/// The value that an operation defines.
pub open spec fn defined_by(op: PcuDispatchOp) -> Option<PcuDispatchValueId> {
    match op.kind {
        PcuDispatchOpKind::Data(PcuDispatchDataOp::BindingLoad { result, .. }) => Some(result),
        PcuDispatchOpKind::Data(PcuDispatchDataOp::Constant { result, .. }) => Some(result),
        PcuDispatchOpKind::Data(PcuDispatchDataOp::Alu { result, .. }) => Some(result),
        _ => None,
    }
}

pub fn dataflow_result(op: &PcuDispatchOp) -> (result: Option<PcuDispatchValueId>)
    ensures
        result == defined_by(*op),
{
    match &op.kind {
        PcuDispatchOpKind::Data(PcuDispatchDataOp::BindingLoad { result, .. }) => Some(*result),
        PcuDispatchOpKind::Data(PcuDispatchDataOp::Constant { result, .. }) => Some(*result),
        PcuDispatchOpKind::Data(PcuDispatchDataOp::Alu { result, .. }) => Some(*result),
        _ => None,
    }
}

/// One of the first `at` operations defines `value`.
pub open spec fn defined_before(
    ops: Seq<PcuDispatchOp>,
    at: int,
    value: PcuDispatchValueId,
) -> bool {
    exists|i: int| 0 <= i < at && #[trigger] defined_by(ops[i]) == Some(value)
}

fn is_defined_before(ops: &Vec<PcuDispatchOp>, at: usize, value: PcuDispatchValueId) -> (defined:
    bool)
    requires
        at <= ops@.len(),
    ensures
        defined == defined_before(ops@, at as int, value),
{
    let mut i: usize = 0;
    while i < at
        invariant
            i <= at <= ops@.len(),
            !defined_before(ops@, i as int, value),
        decreases at - i,
    {
        if let Some(result) = dataflow_result(&ops[i]) {
            if result.0 == value.0 {
                assert(defined_by(ops@[i as int]) == Some(value));
                return true;
            }
        }
        assert(defined_by(ops@[i as int]) != Some(value));
        i += 1;
    }
    false
}

/// A binding of single-precision numbers in storage.
pub open spec fn storage_binding(binding: PcuBinding) -> bool {
    &&& binding.storage == PcuBindingStorageClass::Storage
    &&& binding.binding_type == PcuBindingType::Value(PcuValueType::Scalar(PcuScalarType::F32))
}

pub fn is_storage_f32_dataflow_binding(binding: PcuBinding) -> (storage: bool)
    ensures
        storage == storage_binding(binding),
{
    binding.storage == PcuBindingStorageClass::Storage && binding.binding_type
        == PcuBindingType::Value(PcuValueType::float32())
}

/// Every binding is one of single-precision numbers in storage.
pub open spec fn all_storage(bindings: Seq<PcuBinding>) -> bool {
    forall|i: int| 0 <= i < bindings.len() ==> storage_binding(#[trigger] bindings[i])
}

fn are_all_storage(bindings: &Vec<PcuBinding>) -> (all: bool)
    ensures
        all == all_storage(bindings@),
{
    let mut at: usize = 0;
    while at < bindings.len()
        invariant
            at <= bindings@.len(),
            forall|i: int| 0 <= i < at ==> storage_binding(#[trigger] bindings@[i]),
        decreases bindings@.len() - at,
    {
        if !is_storage_f32_dataflow_binding(bindings[at]) {
            assert(!storage_binding(bindings@[at as int]));
            return false;
        }
        at += 1;
    }
    true
}

/// A binding with this address.
pub open spec fn addressed(binding: PcuBinding, address: PcuBindingRef) -> bool {
    binding.set == address.set && binding.binding == address.binding
}

/// The place of the first binding with this address among the first `count`.
pub open spec fn binding_place(
    bindings: Seq<PcuBinding>,
    count: nat,
    address: PcuBindingRef,
) -> Option<int>
    decreases count,
{
    if count == 0 {
        None
    } else {
        match binding_place(bindings, (count - 1) as nat, address) {
            Some(at) => Some(at),
            None => if addressed(bindings[count - 1], address) {
                Some(count - 1)
            } else {
                None
            },
        }
    }
}

/// The first place among a few is the first among more.
pub proof fn lemma_binding_place(
    bindings: Seq<PcuBinding>,
    shorter: nat,
    longer: nat,
    address: PcuBindingRef,
)
    requires
        shorter <= longer,
        binding_place(bindings, shorter, address) is Some,
    ensures
        binding_place(bindings, longer, address) == binding_place(bindings, shorter, address),
    decreases longer,
{
    if shorter < longer {
        lemma_binding_place(bindings, shorter, (longer - 1) as nat, address);
    }
}

/// A place that is found lies among the bindings, and has the address.
pub proof fn lemma_binding_place_holds(
    bindings: Seq<PcuBinding>,
    count: nat,
    address: PcuBindingRef,
)
    ensures
        binding_place(bindings, count, address) matches Some(at) ==> 0 <= at < count && addressed(
            bindings[at],
            address,
        ),
    decreases count,
{
    if count > 0 {
        lemma_binding_place_holds(bindings, (count - 1) as nat, address);
    }
}

/// The place of the first binding with this address.
pub fn find_binding(bindings: &Vec<PcuBinding>, address: PcuBindingRef) -> (place: Option<usize>)
    ensures
        match place {
            Some(at) => at < bindings@.len() && binding_place(
                bindings@,
                bindings@.len(),
                address,
            ) == Some(at as int),
            None => binding_place(bindings@, bindings@.len(), address) is None,
        },
{
    let mut at: usize = 0;
    while at < bindings.len()
        invariant
            at <= bindings@.len(),
            binding_place(bindings@, at as nat, address) is None,
        decreases bindings@.len() - at,
    {
        let binding: PcuBinding = bindings[at];
        if binding.set == address.set && binding.binding == address.binding {
            proof {
                assert(binding_place(bindings@, (at + 1) as nat, address) == Some(at as int));
                lemma_binding_place(bindings@, (at + 1) as nat, bindings@.len(), address);
            }
            return Some(at);
        }
        at += 1;
    }
    None
}

/// A binding may be accessed so. `required` is `ReadOnly` for a load and `WriteOnly` for a store.
pub open spec fn access_allowed(access: PcuBindingAccess, required: PcuBindingAccess) -> bool {
    required != PcuBindingAccess::ReadWrite && (access == PcuBindingAccess::ReadWrite || access
        == required)
}

/// The fault of an access to a binding.
pub open spec fn access_fault(
    bindings: Seq<PcuBinding>,
    address: PcuBindingRef,
    required: PcuBindingAccess,
) -> Option<PcuSpirvError> {
    match binding_place(bindings, bindings.len(), address) {
        Some(at) => if access_allowed(bindings[at].access, required) && storage_binding(
            bindings[at],
        ) {
            None
        } else {
            Some(PcuSpirvError::InvalidBinding)
        },
        None => Some(PcuSpirvError::InvalidBinding),
    }
}

pub fn validate_dataflow_binding(
    kernel: &PcuDispatchKernelIr,
    binding: PcuBindingRef,
    required: PcuBindingAccess,
) -> (answer: Result<(), PcuSpirvError>)
    ensures
        answer == verdict(access_fault(kernel.bindings@, binding, required)),
{
    let candidate: PcuBinding = match find_binding(&kernel.bindings, binding) {
        Some(at) => kernel.bindings[at],
        None => {
            return Err(PcuSpirvError::InvalidBinding);
        },
    };
    let allowed: bool = match (candidate.access, required) {
        (PcuBindingAccess::ReadOnly, PcuBindingAccess::ReadOnly)
        | (PcuBindingAccess::ReadWrite, PcuBindingAccess::ReadOnly)
        | (PcuBindingAccess::WriteOnly, PcuBindingAccess::WriteOnly)
        | (PcuBindingAccess::ReadWrite, PcuBindingAccess::WriteOnly) => true,
        _ => false,
    };
    if allowed && is_storage_f32_dataflow_binding(candidate) {
        Ok(())
    } else {
        Err(PcuSpirvError::InvalidBinding)
    }
}

/// The fault of an index in a kernel without a loop.
pub open spec fn index_fault(index: PcuDispatchIndex) -> Option<PcuSpirvError> {
    match index {
        PcuDispatchIndex::InvocationId => None,
        PcuDispatchIndex::BindingElementZero => Some(
            PcuSpirvError::UnsupportedInstruction(
                PcuDispatchOpCaps(BINDING_LOAD | BINDING_LOAD_ELEMENT_ZERO),
            ),
        ),
        PcuDispatchIndex::GridStrideId | PcuDispatchIndex::Value(_) => Some(
            PcuSpirvError::UnsupportedInstruction(PcuDispatchOpCaps(BINDING_LOAD | BINDING_STORE)),
        ),
    }
}

pub fn validate_invocation_index(index: PcuDispatchIndex) -> (answer: Result<(), PcuSpirvError>)
    ensures
        answer == verdict(index_fault(index)),
{
    match index {
        PcuDispatchIndex::InvocationId => Ok(()),
        PcuDispatchIndex::BindingElementZero => Err(
            PcuSpirvError::UnsupportedInstruction(
                PcuDispatchOpCaps(BINDING_LOAD | BINDING_LOAD_ELEMENT_ZERO),
            ),
        ),
        PcuDispatchIndex::GridStrideId | PcuDispatchIndex::Value(_) => Err(
            PcuSpirvError::UnsupportedInstruction(PcuDispatchOpCaps(BINDING_LOAD | BINDING_STORE)),
        ),
    }
}

/// The arithmetic that is lowered.
pub open spec fn alu_fault(op: PcuDispatchAluOp) -> Option<PcuSpirvError> {
    match op {
        PcuDispatchAluOp::Other(flag) => Some(PcuSpirvError::UnsupportedInstruction(flag)),
        _ => None,
    }
}

fn validate_alu(op: PcuDispatchAluOp) -> (answer: Result<(), PcuSpirvError>)
    ensures
        answer == verdict(alu_fault(op)),
{
    match op {
        PcuDispatchAluOp::Add
        | PcuDispatchAluOp::Sub
        | PcuDispatchAluOp::Mul
        | PcuDispatchAluOp::Div => Ok(()),
        PcuDispatchAluOp::Other(flag) => Err(PcuSpirvError::UnsupportedInstruction(flag)),
    }
}

/// The fault of defining `value` at `at`: it needs a number of its own.
pub open spec fn result_fault(
    ops: Seq<PcuDispatchOp>,
    at: int,
    value: PcuDispatchValueId,
) -> Option<PcuSpirvError> {
    if value.0 == 0 || defined_before(ops, at, value) {
        Some(PcuSpirvError::InvalidKernelSignature)
    } else {
        None
    }
}

/// The fault of reading `value` at `at`: it has to be defined by then.
pub open spec fn operand_fault(
    ops: Seq<PcuDispatchOp>,
    at: int,
    value: PcuDispatchValueId,
) -> Option<PcuSpirvError> {
    if value.0 != 0 && defined_before(ops, at, value) {
        None
    } else {
        Some(PcuSpirvError::InvalidKernelSignature)
    }
}

fn validate_result_slot(ops: &Vec<PcuDispatchOp>, at: usize, value: PcuDispatchValueId) -> (answer:
    Result<(), PcuSpirvError>)
    requires
        at <= ops@.len(),
    ensures
        answer == verdict(result_fault(ops@, at as int, value)),
{
    if value.0 == 0 || is_defined_before(ops, at, value) {
        Err(PcuSpirvError::InvalidKernelSignature)
    } else {
        Ok(())
    }
}

fn validate_defined_before(ops: &Vec<PcuDispatchOp>, at: usize, value: PcuDispatchValueId) -> (answer:
    Result<(), PcuSpirvError>)
    requires
        at <= ops@.len(),
    ensures
        answer == verdict(operand_fault(ops@, at as int, value)),
{
    if value.0 != 0 && is_defined_before(ops, at, value) {
        Ok(())
    } else {
        Err(PcuSpirvError::InvalidKernelSignature)
    }
}

/// The first of two faults.
pub open spec fn either(
    first: Option<PcuSpirvError>,
    second: Option<PcuSpirvError>,
) -> Option<PcuSpirvError> {
    if first is Some {
        first
    } else {
        second
    }
}

/// The fault of the operation at `at` in a kernel without a loop. Nothing follows the return.
pub open spec fn map_op_fault(kernel: PcuDispatchKernelIr, at: int) -> Option<PcuSpirvError> {
    let ops = kernel.ops@;
    if exists|i: int| 0 <= i < at && (#[trigger] ops[i]).kind is Return {
        Some(PcuSpirvError::InvalidKernelSignature)
    } else {
        match ops[at].kind {
            PcuDispatchOpKind::Data(
                PcuDispatchDataOp::BindingLoad { result, binding, index },
            ) => either(
                result_fault(ops, at, result),
                either(
                    access_fault(kernel.bindings@, binding, PcuBindingAccess::ReadOnly),
                    index_fault(index),
                ),
            ),
            PcuDispatchOpKind::Data(PcuDispatchDataOp::Constant { result, value }) => either(
                result_fault(ops, at, result),
                match value {
                    PcuParameterValue::F32(_) => None,
                    PcuParameterValue::Other(value_type) => Some(
                        PcuSpirvError::UnsupportedValueType(value_type),
                    ),
                },
            ),
            PcuDispatchOpKind::Data(PcuDispatchDataOp::Alu { result, op, lhs, rhs }) => either(
                result_fault(ops, at, result),
                either(
                    operand_fault(ops, at, lhs),
                    either(operand_fault(ops, at, rhs), alu_fault(op)),
                ),
            ),
            PcuDispatchOpKind::Data(
                PcuDispatchDataOp::BindingStore { binding, index, value },
            ) => either(
                access_fault(kernel.bindings@, binding, PcuBindingAccess::WriteOnly),
                either(index_fault(index), operand_fault(ops, at, value)),
            ),
            PcuDispatchOpKind::Return => None,
            _ => Some(PcuSpirvError::UnsupportedInstruction(ops[at].support)),
        }
    }
}

/// An operation that stores.
pub open spec fn stores(op: PcuDispatchOp) -> bool {
    op.kind matches PcuDispatchOpKind::Data(PcuDispatchDataOp::BindingStore { .. })
}

/// One of the operations stores.
pub open spec fn some_store(ops: Seq<PcuDispatchOp>) -> bool {
    exists|i: int| 0 <= i < ops.len() && stores(#[trigger] ops[i])
}

/// One of the operations returns.
pub open spec fn some_return(ops: Seq<PcuDispatchOp>) -> bool {
    exists|i: int| 0 <= i < ops.len() && (#[trigger] ops[i]).kind is Return
}

/// What lowering makes of a refusal by the common map profile.
pub open spec fn profile_fault(kernel: PcuDispatchKernelIr) -> Option<PcuSpirvError> {
    match kernel.map_profile {
        Ok(_) => None,
        Err(PcuF32MapValidationError::InvalidBinding)
        | Err(PcuF32MapValidationError::DuplicateBinding) => Some(PcuSpirvError::InvalidBinding),
        Err(PcuF32MapValidationError::InvalidIndex) => Some(
            PcuSpirvError::UnsupportedInstruction(PcuDispatchOpCaps(BINDING_LOAD | BINDING_STORE)),
        ),
        Err(PcuF32MapValidationError::UnsupportedOperation(at)) => Some(
            PcuSpirvError::UnsupportedInstruction(kernel.ops@[at as int].support),
        ),
        Err(_) => Some(PcuSpirvError::InvalidKernelSignature),
    }
}

/// The fault of a data-flow kernel without a loop.
pub open spec fn map_fault(kernel: PcuDispatchKernelIr) -> Option<PcuSpirvError> {
    let ops = first_fault(kernel.ops@.len(), |i: int| map_op_fault(kernel, i));
    if !all_storage(kernel.bindings@) {
        Some(PcuSpirvError::InvalidBinding)
    } else if ops is Some {
        ops
    } else if some_return(kernel.ops@) && some_store(kernel.ops@) {
        profile_fault(kernel)
    } else {
        Some(PcuSpirvError::InvalidKernelSignature)
    }
}

fn validate_map_op(kernel: &PcuDispatchKernelIr, at: usize, saw_return: bool) -> (answer: Result<
    (),
    PcuSpirvError,
>)
    requires
        at < kernel.ops@.len(),
        saw_return == exists|i: int| 0 <= i < at && (#[trigger] kernel.ops@[i]).kind is Return,
    ensures
        answer == verdict(map_op_fault(*kernel, at as int)),
{
    if saw_return {
        return Err(PcuSpirvError::InvalidKernelSignature);
    }
    let op: &PcuDispatchOp = &kernel.ops[at];
    match &op.kind {
        PcuDispatchOpKind::Data(PcuDispatchDataOp::BindingLoad { result, binding, index }) => {
            validate_result_slot(&kernel.ops, at, *result)?;
            validate_dataflow_binding(kernel, *binding, PcuBindingAccess::ReadOnly)?;
            validate_invocation_index(*index)
        },
        PcuDispatchOpKind::Data(PcuDispatchDataOp::Constant { result, value }) => {
            validate_result_slot(&kernel.ops, at, *result)?;
            match value {
                PcuParameterValue::F32(_) => Ok(()),
                PcuParameterValue::Other(value_type) => Err(
                    PcuSpirvError::UnsupportedValueType(*value_type),
                ),
            }
        },
        PcuDispatchOpKind::Data(PcuDispatchDataOp::Alu { result, op: alu, lhs, rhs }) => {
            validate_result_slot(&kernel.ops, at, *result)?;
            validate_defined_before(&kernel.ops, at, *lhs)?;
            validate_defined_before(&kernel.ops, at, *rhs)?;
            validate_alu(*alu)
        },
        PcuDispatchOpKind::Data(PcuDispatchDataOp::BindingStore { binding, index, value }) => {
            validate_dataflow_binding(kernel, *binding, PcuBindingAccess::WriteOnly)?;
            validate_invocation_index(*index)?;
            validate_defined_before(&kernel.ops, at, *value)
        },
        PcuDispatchOpKind::Return => Ok(()),
        _ => Err(PcuSpirvError::UnsupportedInstruction(op.support)),
    }
}

/// Holds a refusal by the common map profile against the lowering's own vocabulary.
fn validate_profile(kernel: &PcuDispatchKernelIr) -> (answer: Result<(), PcuSpirvError>)
    requires
        kernel.wf(),
    ensures
        answer == verdict(profile_fault(*kernel)),
{
    match kernel.map_profile {
        Ok(_) => Ok(()),
        Err(error) => match error {
            PcuF32MapValidationError::InvalidBinding
            | PcuF32MapValidationError::DuplicateBinding => Err(PcuSpirvError::InvalidBinding),
            PcuF32MapValidationError::InvalidIndex => Err(
                PcuSpirvError::UnsupportedInstruction(
                    PcuDispatchOpCaps(BINDING_LOAD | BINDING_STORE),
                ),
            ),
            PcuF32MapValidationError::UnsupportedOperation(at) => Err(
                PcuSpirvError::UnsupportedInstruction(kernel.ops[at].support),
            ),
            PcuF32MapValidationError::UnsupportedInterface
            | PcuF32MapValidationError::InvalidValue
            | PcuF32MapValidationError::DuplicateValue
            | PcuF32MapValidationError::MissingStore
            | PcuF32MapValidationError::MissingReturn => Err(PcuSpirvError::InvalidKernelSignature),
        },
    }
}

/// Validates a data-flow kernel without a loop.
fn validate_map_kernel(kernel: &PcuDispatchKernelIr) -> (answer: Result<(), PcuSpirvError>)
    requires
        kernel.wf(),
    ensures
        answer == verdict(map_fault(*kernel)),
{
    if !are_all_storage(&kernel.bindings) {
        return Err(PcuSpirvError::InvalidBinding);
    }
    let ghost fault = |i: int| map_op_fault(*kernel, i);
    let mut saw_return: bool = false;
    let mut saw_store: bool = false;
    let mut at: usize = 0;
    while at < kernel.ops.len()
        invariant
            at <= kernel.ops@.len(),
            all_storage(kernel.bindings@),
            fault == (|i: int| map_op_fault(*kernel, i)),
            first_fault(at as nat, fault) is None,
            saw_return == exists|i: int| 0 <= i < at && (#[trigger] kernel.ops@[i]).kind is Return,
            saw_store == exists|i: int| 0 <= i < at && stores(#[trigger] kernel.ops@[i]),
        decreases kernel.ops@.len() - at,
    {
        if let Err(e) = validate_map_op(kernel, at, saw_return) {
            proof {
                assert(first_fault((at + 1) as nat, fault) == Some(e));
                lemma_first_fault((at + 1) as nat, kernel.ops@.len(), fault);
            }
            return Err(e);
        }
        let ghost op = kernel.ops@[at as int];
        match &kernel.ops[at].kind {
            PcuDispatchOpKind::Return => {
                saw_return = true;
            },
            PcuDispatchOpKind::Data(PcuDispatchDataOp::BindingStore { .. }) => {
                saw_store = true;
                assert(stores(op));
            },
            _ => {
                assert(!stores(op));
            },
        }
        at += 1;
    }
    if saw_return && saw_store {
        validate_profile(kernel)
    } else {
        Err(PcuSpirvError::InvalidKernelSignature)
    }
}

/// The fault of the operation at `at` in the body of a loop. Accesses go by the loop's index.
pub open spec fn loop_op_fault(
    bindings: Seq<PcuBinding>,
    body: Seq<PcuDispatchOp>,
    at: int,
) -> Option<PcuSpirvError> {
    match body[at].kind {
        PcuDispatchOpKind::Data(
            PcuDispatchDataOp::BindingLoad {
                result,
                binding,
                index: PcuDispatchIndex::GridStrideId,
            },
        ) => if result.0 == 0 {
            Some(PcuSpirvError::InvalidKernelSignature)
        } else {
            either(
                access_fault(bindings, binding, PcuBindingAccess::ReadOnly),
                result_fault(body, at, result),
            )
        },
        PcuDispatchOpKind::Data(
            PcuDispatchDataOp::BindingStore {
                binding,
                index: PcuDispatchIndex::GridStrideId,
                value,
            },
        ) => either(
            access_fault(bindings, binding, PcuBindingAccess::WriteOnly),
            if defined_before(body, at, value) {
                None
            } else {
                Some(PcuSpirvError::InvalidKernelSignature)
            },
        ),
        PcuDispatchOpKind::Data(
            PcuDispatchDataOp::Constant { result, value: PcuParameterValue::F32(_) },
        ) => result_fault(body, at, result),
        PcuDispatchOpKind::Data(PcuDispatchDataOp::Alu { result, op, lhs, rhs }) => if result.0
            == 0 {
            Some(PcuSpirvError::InvalidKernelSignature)
        } else {
            either(
                alu_fault(op),
                if defined_before(body, at, result) || !defined_before(body, at, lhs)
                    || !defined_before(body, at, rhs) {
                    Some(PcuSpirvError::InvalidKernelSignature)
                } else {
                    None
                },
            )
        },
        _ => Some(PcuSpirvError::UnsupportedInstruction(body[at].support)),
    }
}

/// The kernel is one loop over a non-empty extent and a return.
pub open spec fn is_loop_kernel(kernel: PcuDispatchKernelIr) -> bool {
    &&& kernel.ops@.len() == 2
    &&& kernel.ops@[0].kind matches PcuDispatchOpKind::GridStrideLoop { extent, .. }
    &&& extent != 0
    &&& kernel.ops@[1].kind is Return
    &&& kernel.entry.logical_shape@[0] != 0
}

/// The body of the loop that a kernel starts with.
pub open spec fn loop_body(kernel: PcuDispatchKernelIr) -> Seq<PcuDispatchOp> {
    match kernel.ops@[0].kind {
        PcuDispatchOpKind::GridStrideLoop { body, .. } => body@,
        _ => Seq::empty(),
    }
}

/// The fault of a kernel with a loop.
pub open spec fn loop_fault(kernel: PcuDispatchKernelIr) -> Option<PcuSpirvError> {
    let body = loop_body(kernel);
    let ops = first_fault(body.len(), |i: int| loop_op_fault(kernel.bindings@, body, i));
    if !is_loop_kernel(kernel) {
        Some(PcuSpirvError::InvalidKernelSignature)
    } else if !all_storage(kernel.bindings@) {
        Some(PcuSpirvError::InvalidBinding)
    } else if ops is Some {
        ops
    } else if some_store(body) {
        None
    } else {
        Some(PcuSpirvError::InvalidKernelSignature)
    }
}

fn validate_loop_op(
    kernel: &PcuDispatchKernelIr,
    body: &Vec<PcuDispatchOp>,
    at: usize,
) -> (answer: Result<(), PcuSpirvError>)
    requires
        at < body@.len(),
    ensures
        answer == verdict(loop_op_fault(kernel.bindings@, body@, at as int)),
{
    let op: &PcuDispatchOp = &body[at];
    match &op.kind {
        PcuDispatchOpKind::Data(
            PcuDispatchDataOp::BindingLoad {
                result,
                binding,
                index: PcuDispatchIndex::GridStrideId,
            },
        ) => {
            if result.0 == 0 {
                return Err(PcuSpirvError::InvalidKernelSignature);
            }
            validate_dataflow_binding(kernel, *binding, PcuBindingAccess::ReadOnly)?;
            validate_result_slot(body, at, *result)
        },
        PcuDispatchOpKind::Data(
            PcuDispatchDataOp::BindingStore {
                binding,
                index: PcuDispatchIndex::GridStrideId,
                value,
            },
        ) => {
            validate_dataflow_binding(kernel, *binding, PcuBindingAccess::WriteOnly)?;
            if is_defined_before(body, at, *value) {
                Ok(())
            } else {
                Err(PcuSpirvError::InvalidKernelSignature)
            }
        },
        PcuDispatchOpKind::Data(
            PcuDispatchDataOp::Constant { result, value: PcuParameterValue::F32(_) },
        ) => validate_result_slot(body, at, *result),
        PcuDispatchOpKind::Data(PcuDispatchDataOp::Alu { result, op: alu, lhs, rhs }) => {
            if result.0 == 0 {
                return Err(PcuSpirvError::InvalidKernelSignature);
            }
            validate_alu(*alu)?;
            if is_defined_before(body, at, *result) || !is_defined_before(body, at, *lhs)
                || !is_defined_before(body, at, *rhs) {
                Err(PcuSpirvError::InvalidKernelSignature)
            } else {
                Ok(())
            }
        },
        _ => Err(PcuSpirvError::UnsupportedInstruction(op.support)),
    }
}

/// Validates the body of a loop.
fn validate_loop_body(kernel: &PcuDispatchKernelIr, body: &Vec<PcuDispatchOp>) -> (answer: Result<
    (),
    PcuSpirvError,
>)
    ensures
        answer == verdict(
            either(
                first_fault(body@.len(), |i: int| loop_op_fault(kernel.bindings@, body@, i)),
                if some_store(body@) {
                    None
                } else {
                    Some(PcuSpirvError::InvalidKernelSignature)
                },
            ),
        ),
{
    let ghost fault = |i: int| loop_op_fault(kernel.bindings@, body@, i);
    let mut saw_store: bool = false;
    let mut at: usize = 0;
    while at < body.len()
        invariant
            at <= body@.len(),
            fault == (|i: int| loop_op_fault(kernel.bindings@, body@, i)),
            first_fault(at as nat, fault) is None,
            saw_store == exists|i: int| 0 <= i < at && stores(#[trigger] body@[i]),
        decreases body@.len() - at,
    {
        if let Err(e) = validate_loop_op(kernel, body, at) {
            proof {
                assert(first_fault((at + 1) as nat, fault) == Some(e));
                lemma_first_fault((at + 1) as nat, body@.len(), fault);
            }
            return Err(e);
        }
        let ghost op = body@[at as int];
        match &body[at].kind {
            PcuDispatchOpKind::Data(PcuDispatchDataOp::BindingStore { .. }) => {
                saw_store = true;
                assert(stores(op));
            },
            _ => {
                assert(!stores(op));
            },
        }
        at += 1;
    }
    if saw_store {
        Ok(())
    } else {
        Err(PcuSpirvError::InvalidKernelSignature)
    }
}

pub fn validate_grid_stride_kernel(kernel: &PcuDispatchKernelIr) -> (answer: Result<
    (),
    PcuSpirvError,
>)
    ensures
        answer == verdict(loop_fault(*kernel)),
{
    if kernel.ops.len() != 2 {
        return Err(PcuSpirvError::InvalidKernelSignature);
    }
    let returns: bool = match &kernel.ops[1].kind {
        PcuDispatchOpKind::Return => true,
        _ => false,
    };
    match &kernel.ops[0].kind {
        PcuDispatchOpKind::GridStrideLoop { extent, body } => {
            if !returns || *extent == 0 || kernel.entry.logical_shape[0] == 0 {
                return Err(PcuSpirvError::InvalidKernelSignature);
            }
            if !are_all_storage(&kernel.bindings) {
                return Err(PcuSpirvError::InvalidBinding);
            }
            assert(loop_body(*kernel) == body@);
            validate_loop_body(kernel, body)
        },
        _ => Err(PcuSpirvError::InvalidKernelSignature),
    }
}

/// The operation is a loop.
pub open spec fn loops(op: PcuDispatchOp) -> bool {
    op.kind is GridStrideLoop
}

/// One of the operations is a loop.
pub open spec fn some_loop(ops: Seq<PcuDispatchOp>) -> bool {
    exists|i: int| 0 <= i < ops.len() && loops(#[trigger] ops[i])
}

pub fn has_loop(ops: &Vec<PcuDispatchOp>) -> (found: bool)
    ensures
        found == some_loop(ops@),
{
    let mut at: usize = 0;
    while at < ops.len()
        invariant
            at <= ops@.len(),
            forall|i: int| 0 <= i < at ==> !loops(#[trigger] ops@[i]),
        decreases ops@.len() - at,
    {
        if let PcuDispatchOpKind::GridStrideLoop { .. } = &ops[at].kind {
            assert(loops(ops@[at as int]));
            return true;
        }
        at += 1;
    }
    false
}

/// The fault of a data-flow kernel.
pub open spec fn dataflow_fault(kernel: PcuDispatchKernelIr) -> Option<PcuSpirvError> {
    if some_loop(kernel.ops@) {
        loop_fault(kernel)
    } else {
        map_fault(kernel)
    }
}

pub fn validate_f32_dataflow_kernel(kernel: &PcuDispatchKernelIr) -> (answer: Result<
    (),
    PcuSpirvError,
>)
    requires
        kernel.wf(),
    ensures
        answer == verdict(dataflow_fault(*kernel)),
{
    if has_loop(&kernel.ops) {
        validate_grid_stride_kernel(kernel)
    } else {
        validate_map_kernel(kernel)
    }
}

/// An operation of the data flow or a loop over such operations.
pub open spec fn flows(op: PcuDispatchOp) -> bool {
    op.kind is Data || op.kind is GridStrideLoop
}

/// One of the operations belongs to the data flow.
pub open spec fn some_flow(ops: Seq<PcuDispatchOp>) -> bool {
    exists|i: int| 0 <= i < ops.len() && flows(#[trigger] ops[i])
}

pub fn has_f32_dataflow_ops(kernel: &PcuDispatchKernelIr) -> (found: bool)
    ensures
        found == some_flow(kernel.ops@),
{
    let mut at: usize = 0;
    while at < kernel.ops.len()
        invariant
            at <= kernel.ops@.len(),
            forall|i: int| 0 <= i < at ==> !flows(#[trigger] kernel.ops@[i]),
        decreases kernel.ops@.len() - at,
    {
        let found: bool = match &kernel.ops[at].kind {
            PcuDispatchOpKind::Data(_) | PcuDispatchOpKind::GridStrideLoop { .. } => true,
            _ => false,
        };
        if found {
            assert(flows(kernel.ops@[at as int]));
            return true;
        }
        at += 1;
    }
    false
}

} // verus!
