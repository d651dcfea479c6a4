//! Which kernels lowering admits.
use vstd::prelude::*;

use super::dataflow::{
    dataflow_fault, has_f32_dataflow_ops, some_flow, storage_binding, validate_f32_dataflow_kernel,
    is_storage_f32_dataflow_binding,
};
use super::error::PcuSpirvError;
use super::types::{PcuSpirvCapability, PcuSpirvCapabilityCaps, PcuSpirvLoweringOptions};
use crate::pcu::ir::{
    PcuBinding, PcuBindingAccess, PcuBindingType, PcuDispatchAluOp, PcuDispatchFeatureCaps,
    PcuDispatchKernelIr, PcuDispatchOp, PcuDispatchOpCaps, PcuDispatchOpKind,
    PcuDispatchRayTraceOp, PcuDispatchResourceOp, PcuScalarType, PcuValueType,
    COOPERATIVE_SCRATCHPAD, DERIVATIVE_X, DERIVATIVE_Y, SYNC_BARRIER,
};

verus! {

/// The fault of the first of `count` places that has one.
pub open spec fn first_fault(count: nat, fault: spec_fn(int) -> Option<PcuSpirvError>) -> Option<
    PcuSpirvError,
>
    decreases count,
{
    if count == 0 {
        None
    } else {
        match first_fault((count - 1) as nat, fault) {
            Some(e) => Some(e),
            None => fault(count - 1),
        }
    }
}

/// A fault among the first places is that of all of them.
pub proof fn lemma_first_fault(
    shorter: nat,
    longer: nat,
    fault: spec_fn(int) -> Option<PcuSpirvError>,
)
    requires
        shorter <= longer,
        first_fault(shorter, fault) is Some,
    ensures
        first_fault(longer, fault) == first_fault(shorter, fault),
    decreases longer,
{
    if shorter < longer {
        lemma_first_fault(shorter, (longer - 1) as nat, fault);
    }
}

/// A list has no fault exactly where none of its places has one.
pub proof fn lemma_no_fault(count: nat, fault: spec_fn(int) -> Option<PcuSpirvError>)
    ensures
        first_fault(count, fault) is None <==> forall|i: int|
            0 <= i < count ==> #[trigger] fault(i) is None,
    decreases count,
{
    if count > 0 {
        lemma_no_fault((count - 1) as nat, fault);
        if first_fault((count - 1) as nat, fault) is None && fault(count - 1) is None {
            assert forall|i: int| 0 <= i < count implies #[trigger] fault(i) is None by {}
        }
    }
}

/// What a list of checks answers.
pub open spec fn verdict(fault: Option<PcuSpirvError>) -> Result<(), PcuSpirvError> {
    match fault {
        Some(e) => Err(e),
        None => Ok(()),
    }
}

/// The fault of asking for a capability that is not allowed.
pub open spec fn capability_fault(
    caps: PcuSpirvCapabilityCaps,
    capability: PcuSpirvCapability,
) -> Option<PcuSpirvError> {
    if caps.allows(capability) {
        None
    } else {
        Some(PcuSpirvError::UnsupportedCapability(capability))
    }
}

pub fn require_capability(options: PcuSpirvLoweringOptions, capability: PcuSpirvCapability) -> (answer:
    Result<(), PcuSpirvError>)
    ensures
        answer == verdict(capability_fault(options.capabilities, capability)),
{
    if options.capabilities.supports(capability) {
        Ok(())
    } else {
        Err(PcuSpirvError::UnsupportedCapability(capability))
    }
}

/// The versions that the emitted representation conforms to: 1.0 through 1.3. The header encodes
/// major, minor and revision in the low 24 bits.
pub open spec fn version_supported(version: u32) -> bool {
    version == 0x0001_0000 || version == 0x0001_0100 || version == 0x0001_0200 || version
        == 0x0001_0300
}

pub fn validate_spirv_version(options: PcuSpirvLoweringOptions) -> (answer: Result<
    (),
    PcuSpirvError,
>)
    ensures
        answer == (if version_supported(options.version.0) {
            Ok(())
        } else {
            Err(PcuSpirvError::UnsupportedVersion(options.version))
        }),
{
    let version: u32 = options.version.0;
    let major: u32 = (version >> 16) & 0xff;
    let minor: u32 = (version >> 8) & 0xff;
    let revision: u32 = version & 0xff;
    assert((version & 0xff00_0000 == 0 && (version >> 16) & 0xff == 1 && (version >> 8) & 0xff <= 3
        && version & 0xff == 0) <==> (version == 0x0001_0000 || version == 0x0001_0100 || version
        == 0x0001_0200 || version == 0x0001_0300)) by (bit_vector);
    if version & 0xff00_0000 == 0 && major == 1 && minor <= 3 && revision == 0 {
        Ok(())
    } else {
        Err(PcuSpirvError::UnsupportedVersion(options.version))
    }
}

/// The scalar types of the lowered subset.
pub open spec fn scalar_supported(scalar: PcuScalarType) -> bool {
    scalar == PcuScalarType::Bool || scalar == PcuScalarType::I32 || scalar == PcuScalarType::U32
        || scalar == PcuScalarType::F32
}

pub open spec fn scalar_fault(scalar: PcuScalarType) -> Option<PcuSpirvError> {
    if scalar_supported(scalar) {
        None
    } else {
        Some(PcuSpirvError::UnsupportedValueType(PcuValueType::Scalar(scalar)))
    }
}

pub fn validate_scalar_type(scalar: PcuScalarType) -> (answer: Result<(), PcuSpirvError>)
    ensures
        answer == verdict(scalar_fault(scalar)),
{
    match scalar {
        PcuScalarType::Bool | PcuScalarType::I32 | PcuScalarType::U32 | PcuScalarType::F32 => Ok(()),
        _ => Err(PcuSpirvError::UnsupportedValueType(PcuValueType::Scalar(scalar))),
    }
}

/// The fault of a value type. A matrix takes a capability of its own.
pub open spec fn value_type_fault(
    value_type: PcuValueType,
    caps: PcuSpirvCapabilityCaps,
) -> Option<PcuSpirvError> {
    match value_type {
        PcuValueType::Scalar(scalar) => scalar_fault(scalar),
        PcuValueType::Vector { scalar, lanes } => if !scalar_supported(scalar) {
            scalar_fault(scalar)
        } else if 2 <= lanes <= 4 {
            None
        } else {
            Some(PcuSpirvError::UnsupportedValueType(value_type))
        },
        PcuValueType::Matrix { scalar, rows, cols } => if !caps.allows(
            PcuSpirvCapability::Matrix,
        ) {
            Some(PcuSpirvError::UnsupportedCapability(PcuSpirvCapability::Matrix))
        } else if !scalar_supported(scalar) {
            scalar_fault(scalar)
        } else if 2 <= rows <= 4 && 2 <= cols <= 4 {
            None
        } else {
            Some(PcuSpirvError::UnsupportedValueType(value_type))
        },
    }
}

pub fn validate_value_type(value_type: PcuValueType, options: PcuSpirvLoweringOptions) -> (answer:
    Result<(), PcuSpirvError>)
    ensures
        answer == verdict(value_type_fault(value_type, options.capabilities)),
{
    match value_type {
        PcuValueType::Scalar(scalar) => validate_scalar_type(scalar),
        PcuValueType::Vector { scalar, lanes } => {
            validate_scalar_type(scalar)?;
            if lanes == 2 || lanes == 3 || lanes == 4 {
                Ok(())
            } else {
                Err(PcuSpirvError::UnsupportedValueType(value_type))
            }
        },
        PcuValueType::Matrix { scalar, rows, cols } => {
            require_capability(options, PcuSpirvCapability::Matrix)?;
            validate_scalar_type(scalar)?;
            if (rows == 2 || rows == 3 || rows == 4) && (cols == 2 || cols == 3 || cols == 4) {
                Ok(())
            } else {
                Err(PcuSpirvError::UnsupportedValueType(value_type))
            }
        },
    }
}

/// The fault of a binding.
pub open spec fn binding_fault(binding: PcuBinding, caps: PcuSpirvCapabilityCaps) -> Option<
    PcuSpirvError,
> {
    if !binding.well_formed {
        Some(PcuSpirvError::InvalidBinding)
    } else {
        match binding.binding_type {
            PcuBindingType::Value(value_type) => value_type_fault(value_type, caps),
            PcuBindingType::Image(texel_type) => {
                let required = if binding.access == PcuBindingAccess::ReadOnly {
                    PcuSpirvCapability::Image
                } else {
                    PcuSpirvCapability::StorageImage
                };
                if caps.allows(required) {
                    value_type_fault(texel_type, caps)
                } else {
                    Some(PcuSpirvError::UnsupportedCapability(required))
                }
            },
            PcuBindingType::Sampler => capability_fault(caps, PcuSpirvCapability::Image),
            PcuBindingType::AccelerationStructure => if caps.allows(PcuSpirvCapability::RayQuery) {
                None
            } else {
                capability_fault(caps, PcuSpirvCapability::RayTracing)
            },
        }
    }
}

fn validate_binding(binding: PcuBinding, options: PcuSpirvLoweringOptions) -> (answer: Result<
    (),
    PcuSpirvError,
>)
    ensures
        answer == verdict(binding_fault(binding, options.capabilities)),
{
    if !binding.well_formed {
        return Err(PcuSpirvError::InvalidBinding);
    }
    match binding.binding_type {
        PcuBindingType::Value(value_type) => validate_value_type(value_type, options),
        PcuBindingType::Image(texel_type) => {
            let required: PcuSpirvCapability = match binding.access {
                PcuBindingAccess::ReadOnly => PcuSpirvCapability::Image,
                PcuBindingAccess::WriteOnly
                | PcuBindingAccess::ReadWrite => PcuSpirvCapability::StorageImage,
            };
            require_capability(options, required)?;
            validate_value_type(texel_type, options)
        },
        PcuBindingType::Sampler => require_capability(options, PcuSpirvCapability::Image),
        PcuBindingType::AccelerationStructure => {
            if !options.capabilities.supports(PcuSpirvCapability::RayTracing)
                && !options.capabilities.supports(PcuSpirvCapability::RayQuery) {
                return Err(PcuSpirvError::UnsupportedCapability(PcuSpirvCapability::RayTracing));
            }
            Ok(())
        },
    }
}

/// The fault of a kernel's entry, bindings, ports and parameters, in this order.
pub open spec fn signature_fault(
    kernel: PcuDispatchKernelIr,
    caps: PcuSpirvCapabilityCaps,
) -> Option<PcuSpirvError> {
    let shape = kernel.entry.logical_shape@;
    let bindings = first_fault(
        kernel.bindings@.len(),
        |i: int| binding_fault(kernel.bindings@[i], caps),
    );
    let ports = first_fault(
        kernel.ports@.len(),
        |i: int| value_type_fault(kernel.ports@[i].value_type, caps),
    );
    if kernel.entry.name@.len() == 0 || shape[0] == 0 || shape[1] == 0 || shape[2] == 0 {
        Some(PcuSpirvError::InvalidKernelSignature)
    } else if bindings is Some {
        bindings
    } else if ports is Some {
        ports
    } else {
        first_fault(
            kernel.parameters@.len(),
            |i: int| value_type_fault(kernel.parameters@[i].value_type, caps),
        )
    }
}

fn validate_bindings(kernel: &PcuDispatchKernelIr, options: PcuSpirvLoweringOptions) -> (answer:
    Result<(), PcuSpirvError>)
    ensures
        answer == verdict(
            first_fault(
                kernel.bindings@.len(),
                |i: int| binding_fault(kernel.bindings@[i], options.capabilities),
            ),
        ),
{
    let ghost fault = |i: int| binding_fault(kernel.bindings@[i], options.capabilities);
    let mut at: usize = 0;
    while at < kernel.bindings.len()
        invariant
            at <= kernel.bindings@.len(),
            fault == (|i: int| binding_fault(kernel.bindings@[i], options.capabilities)),
            first_fault(at as nat, fault) is None,
        decreases kernel.bindings@.len() - at,
    {
        if let Err(e) = validate_binding(kernel.bindings[at], options) {
            proof {
                assert(first_fault((at + 1) as nat, fault) == Some(e));
                lemma_first_fault((at + 1) as nat, kernel.bindings@.len(), fault);
            }
            return Err(e);
        }
        at += 1;
    }
    Ok(())
}

fn validate_ports(kernel: &PcuDispatchKernelIr, options: PcuSpirvLoweringOptions) -> (answer: Result<
    (),
    PcuSpirvError,
>)
    ensures
        answer == verdict(
            first_fault(
                kernel.ports@.len(),
                |i: int| value_type_fault(kernel.ports@[i].value_type, options.capabilities),
            ),
        ),
{
    let ghost fault = |i: int| value_type_fault(kernel.ports@[i].value_type, options.capabilities);
    let mut at: usize = 0;
    while at < kernel.ports.len()
        invariant
            at <= kernel.ports@.len(),
            fault == (|i: int|
                value_type_fault(kernel.ports@[i].value_type, options.capabilities)),
            first_fault(at as nat, fault) is None,
        decreases kernel.ports@.len() - at,
    {
        if let Err(e) = validate_value_type(kernel.ports[at].value_type, options) {
            proof {
                assert(first_fault((at + 1) as nat, fault) == Some(e));
                lemma_first_fault((at + 1) as nat, kernel.ports@.len(), fault);
            }
            return Err(e);
        }
        at += 1;
    }
    Ok(())
}

fn validate_parameters(kernel: &PcuDispatchKernelIr, options: PcuSpirvLoweringOptions) -> (answer:
    Result<(), PcuSpirvError>)
    ensures
        answer == verdict(
            first_fault(
                kernel.parameters@.len(),
                |i: int| value_type_fault(kernel.parameters@[i].value_type, options.capabilities),
            ),
        ),
{
    let ghost fault = |i: int|
        value_type_fault(kernel.parameters@[i].value_type, options.capabilities);
    let mut at: usize = 0;
    while at < kernel.parameters.len()
        invariant
            at <= kernel.parameters@.len(),
            fault == (|i: int|
                value_type_fault(kernel.parameters@[i].value_type, options.capabilities)),
            first_fault(at as nat, fault) is None,
        decreases kernel.parameters@.len() - at,
    {
        if let Err(e) = validate_value_type(kernel.parameters[at].value_type, options) {
            proof {
                assert(first_fault((at + 1) as nat, fault) == Some(e));
                lemma_first_fault((at + 1) as nat, kernel.parameters@.len(), fault);
            }
            return Err(e);
        }
        at += 1;
    }
    Ok(())
}

pub fn validate_kernel_signature(kernel: &PcuDispatchKernelIr, options: PcuSpirvLoweringOptions) -> (answer:
    Result<(), PcuSpirvError>)
    ensures
        answer == verdict(signature_fault(*kernel, options.capabilities)),
{
    let shape: [u32; 3] = kernel.entry.logical_shape;
    if kernel.entry.name.as_str().is_empty() || shape[0] == 0 || shape[1] == 0 || shape[2] == 0 {
        return Err(PcuSpirvError::InvalidKernelSignature);
    }
    validate_bindings(kernel, options)?;
    validate_ports(kernel, options)?;
    validate_parameters(kernel, options)
}

/// The fault of a set of features: nothing here shares a scratchpad between invocations.
pub open spec fn features_fault(features: PcuDispatchFeatureCaps) -> Option<PcuSpirvError> {
    if features.includes(COOPERATIVE_SCRATCHPAD) {
        Some(PcuSpirvError::UnsupportedInstruction(PcuDispatchOpCaps(SYNC_BARRIER)))
    } else {
        None
    }
}

pub fn validate_dispatch_features(features: PcuDispatchFeatureCaps) -> (answer: Result<
    (),
    PcuSpirvError,
>)
    ensures
        answer == verdict(features_fault(features)),
{
    if features.contains(PcuDispatchFeatureCaps(COOPERATIVE_SCRATCHPAD)) {
        return Err(PcuSpirvError::UnsupportedInstruction(PcuDispatchOpCaps(SYNC_BARRIER)));
    }
    Ok(())
}

/// A storage binding of single-precision numbers at this address of the first set.
pub open spec fn storage_slot(binding: PcuBinding, slot: u32) -> bool {
    binding.set == 0 && binding.binding == slot && storage_binding(binding)
}

fn is_storage_slot(binding: PcuBinding, slot: u32) -> (at_slot: bool)
    ensures
        at_slot == storage_slot(binding, slot),
{
    binding.set == 0 && binding.binding == slot && is_storage_f32_dataflow_binding(binding)
}

/// Two inputs and an output, each at its slot.
pub open spec fn parallel_bindings(bindings: Seq<PcuBinding>) -> bool {
    &&& bindings.len() == 3
    &&& bindings[0].access == PcuBindingAccess::ReadOnly && storage_slot(bindings[0], 0)
    &&& bindings[1].access == PcuBindingAccess::ReadOnly && storage_slot(bindings[1], 1)
    &&& bindings[2].access != PcuBindingAccess::ReadOnly && storage_slot(bindings[2], 2)
}

pub fn has_parallel_float_bindings(kernel: &PcuDispatchKernelIr) -> (found: bool)
    ensures
        found == parallel_bindings(kernel.bindings@),
{
    if kernel.bindings.len() != 3 {
        return false;
    }
    let (input_a, input_b, output): (PcuBinding, PcuBinding, PcuBinding) = (
        kernel.bindings[0],
        kernel.bindings[1],
        kernel.bindings[2],
    );
    let writes: bool = match output.access {
        PcuBindingAccess::WriteOnly | PcuBindingAccess::ReadWrite => true,
        PcuBindingAccess::ReadOnly => false,
    };
    input_a.access == PcuBindingAccess::ReadOnly && is_storage_slot(input_a, 0) && input_b.access
        == PcuBindingAccess::ReadOnly && is_storage_slot(input_b, 1) && writes && is_storage_slot(
        output,
        2,
    )
}

/// Two loads, a product, a sum, a constant, a sum, a store and a return.
pub open spec fn parallel_ops(ops: Seq<PcuDispatchOp>) -> bool {
    &&& ops.len() == 8
    &&& ops[0].kind == PcuDispatchOpKind::Resource(PcuDispatchResourceOp::Load)
    &&& ops[1].kind == PcuDispatchOpKind::Resource(PcuDispatchResourceOp::Load)
    &&& ops[2].kind == PcuDispatchOpKind::Arithmetic(PcuDispatchAluOp::Mul)
    &&& ops[3].kind == PcuDispatchOpKind::Arithmetic(PcuDispatchAluOp::Add)
    &&& ops[4].kind == PcuDispatchOpKind::ValueConstant
    &&& ops[5].kind == PcuDispatchOpKind::Arithmetic(PcuDispatchAluOp::Add)
    &&& ops[6].kind == PcuDispatchOpKind::Resource(PcuDispatchResourceOp::Store)
    &&& ops[7].kind == PcuDispatchOpKind::Return
}

pub fn has_parallel_float_ops(kernel: &PcuDispatchKernelIr) -> (found: bool)
    ensures
        found == parallel_ops(kernel.ops@),
{
    if kernel.ops.len() != 8 {
        return false;
    }
    let loads: bool = match (&kernel.ops[0].kind, &kernel.ops[1].kind) {
        (
            PcuDispatchOpKind::Resource(PcuDispatchResourceOp::Load),
            PcuDispatchOpKind::Resource(PcuDispatchResourceOp::Load),
        ) => true,
        _ => false,
    };
    let scales: bool = match (&kernel.ops[2].kind, &kernel.ops[3].kind) {
        (
            PcuDispatchOpKind::Arithmetic(PcuDispatchAluOp::Mul),
            PcuDispatchOpKind::Arithmetic(PcuDispatchAluOp::Add),
        ) => true,
        _ => false,
    };
    let shifts: bool = match (&kernel.ops[4].kind, &kernel.ops[5].kind) {
        (
            PcuDispatchOpKind::ValueConstant,
            PcuDispatchOpKind::Arithmetic(PcuDispatchAluOp::Add),
        ) => true,
        _ => false,
    };
    let ends: bool = match (&kernel.ops[6].kind, &kernel.ops[7].kind) {
        (
            PcuDispatchOpKind::Resource(PcuDispatchResourceOp::Store),
            PcuDispatchOpKind::Return,
        ) => true,
        _ => false,
    };
    loads && scales && shifts && ends
}

/// The one elementwise kernel that is known by its operations alone.
pub open spec fn parallel_map(kernel: PcuDispatchKernelIr) -> bool {
    parallel_bindings(kernel.bindings@) && parallel_ops(kernel.ops@)
}

pub fn is_legacy_parallel_float_map_kernel(kernel: &PcuDispatchKernelIr) -> (found: bool)
    ensures
        found == parallel_map(*kernel),
{
    has_parallel_float_bindings(kernel) && has_parallel_float_ops(kernel)
}

/// The fault of a resource operation: none is lowered, and some take a capability first.
pub open spec fn resource_fault(
    resource: PcuDispatchResourceOp,
    support: PcuDispatchOpCaps,
    caps: PcuSpirvCapabilityCaps,
) -> PcuSpirvError {
    let needed = match resource {
        PcuDispatchResourceOp::Sample => Some(PcuSpirvCapability::Image),
        PcuDispatchResourceOp::Store | PcuDispatchResourceOp::Atomic => Some(
            PcuSpirvCapability::StorageImage,
        ),
        PcuDispatchResourceOp::Load => None,
    };
    match needed {
        Some(capability) if !caps.allows(capability) => PcuSpirvError::UnsupportedCapability(
            capability,
        ),
        _ => PcuSpirvError::UnsupportedInstruction(support),
    }
}

pub fn validate_resource_op(
    resource: PcuDispatchResourceOp,
    support: PcuDispatchOpCaps,
    options: PcuSpirvLoweringOptions,
) -> (answer: Result<(), PcuSpirvError>)
    ensures
        answer == Err::<(), PcuSpirvError>(
            resource_fault(resource, support, options.capabilities),
        ),
{
    match resource {
        PcuDispatchResourceOp::Sample => {
            require_capability(options, PcuSpirvCapability::Image)?;
            Err(PcuSpirvError::UnsupportedInstruction(support))
        },
        PcuDispatchResourceOp::Store | PcuDispatchResourceOp::Atomic => {
            require_capability(options, PcuSpirvCapability::StorageImage)?;
            Err(PcuSpirvError::UnsupportedInstruction(support))
        },
        PcuDispatchResourceOp::Load => Err(PcuSpirvError::UnsupportedInstruction(support)),
    }
}

/// The capability that a ray operation takes.
pub open spec fn ray_capability(ray: PcuDispatchRayTraceOp) -> PcuSpirvCapability {
    match ray {
        PcuDispatchRayTraceOp::TraceRayInline { .. }
        | PcuDispatchRayTraceOp::RayQueryProceed
        | PcuDispatchRayTraceOp::RayQueryCommittedStatus
        | PcuDispatchRayTraceOp::RayQueryCommittedDistance
        | PcuDispatchRayTraceOp::RayQueryCommittedInstance
        | PcuDispatchRayTraceOp::RayQueryCommittedPrimitive => PcuSpirvCapability::RayQuery,
        _ => PcuSpirvCapability::RayTracing,
    }
}

/// The fault of a ray operation: its capability, then its bindings, then that none is lowered.
pub open spec fn ray_fault(
    ray: PcuDispatchRayTraceOp,
    support: PcuDispatchOpCaps,
    caps: PcuSpirvCapabilityCaps,
) -> PcuSpirvError {
    if !caps.allows(ray_capability(ray)) {
        PcuSpirvError::UnsupportedCapability(ray_capability(ray))
    } else {
        match ray {
            PcuDispatchRayTraceOp::TraceRay { valid: false }
            | PcuDispatchRayTraceOp::TraceRayInline { valid: false } => PcuSpirvError::InvalidBinding,
            _ => PcuSpirvError::UnsupportedInstruction(support),
        }
    }
}

pub fn validate_ray_op(
    ray: PcuDispatchRayTraceOp,
    support: PcuDispatchOpCaps,
    options: PcuSpirvLoweringOptions,
) -> (answer: Result<(), PcuSpirvError>)
    ensures
        answer == Err::<(), PcuSpirvError>(ray_fault(ray, support, options.capabilities)),
{
    match ray {
        PcuDispatchRayTraceOp::TraceRay { valid } => {
            require_capability(options, PcuSpirvCapability::RayTracing)?;
            if !valid {
                return Err(PcuSpirvError::InvalidBinding);
            }
        },
        PcuDispatchRayTraceOp::TraceRayInline { valid } => {
            require_capability(options, PcuSpirvCapability::RayQuery)?;
            if !valid {
                return Err(PcuSpirvError::InvalidBinding);
            }
        },
        PcuDispatchRayTraceOp::RayQueryProceed
        | PcuDispatchRayTraceOp::RayQueryCommittedStatus
        | PcuDispatchRayTraceOp::RayQueryCommittedDistance
        | PcuDispatchRayTraceOp::RayQueryCommittedInstance
        | PcuDispatchRayTraceOp::RayQueryCommittedPrimitive => {
            require_capability(options, PcuSpirvCapability::RayQuery)?;
        },
        PcuDispatchRayTraceOp::ReportHit
        | PcuDispatchRayTraceOp::IgnoreHit
        | PcuDispatchRayTraceOp::AcceptHitAndEndSearch
        | PcuDispatchRayTraceOp::PayloadRead
        | PcuDispatchRayTraceOp::PayloadWrite => {
            require_capability(options, PcuSpirvCapability::RayTracing)?;
        },
    }
    Err(PcuSpirvError::UnsupportedInstruction(support))
}

/// The fault of an operation outside the data flow: only a return is lowered.
pub open spec fn op_fault(op: PcuDispatchOp, caps: PcuSpirvCapabilityCaps) -> Option<
    PcuSpirvError,
> {
    match op.kind {
        PcuDispatchOpKind::Return => None,
        PcuDispatchOpKind::Resource(resource) => Some(resource_fault(resource, op.support, caps)),
        PcuDispatchOpKind::RayTrace(ray) => Some(ray_fault(ray, op.support, caps)),
        PcuDispatchOpKind::Coordinate if (op.support.includes(DERIVATIVE_X)
            || op.support.includes(DERIVATIVE_Y)) && !caps.allows(
            PcuSpirvCapability::CoordinateDerivative,
        ) => Some(
            PcuSpirvError::UnsupportedCapability(PcuSpirvCapability::CoordinateDerivative),
        ),
        _ => Some(PcuSpirvError::UnsupportedInstruction(op.support)),
    }
}

pub fn validate_op_for_spirv(op: &PcuDispatchOp, options: PcuSpirvLoweringOptions) -> (answer: Result<
    (),
    PcuSpirvError,
>)
    ensures
        answer == verdict(op_fault(*op, options.capabilities)),
{
    match &op.kind {
        PcuDispatchOpKind::Return => Ok(()),
        PcuDispatchOpKind::Control
        | PcuDispatchOpKind::ValueConstant
        | PcuDispatchOpKind::Value
        | PcuDispatchOpKind::Arithmetic(_)
        | PcuDispatchOpKind::Port
        | PcuDispatchOpKind::Sync
        | PcuDispatchOpKind::Intrinsic
        | PcuDispatchOpKind::Data(_)
        | PcuDispatchOpKind::GridStrideLoop { .. } => Err(
            PcuSpirvError::UnsupportedInstruction(op.support),
        ),
        PcuDispatchOpKind::Resource(resource) => validate_resource_op(
            *resource,
            op.support,
            options,
        ),
        PcuDispatchOpKind::Coordinate => {
            if op.support.contains(PcuDispatchOpCaps(DERIVATIVE_X)) || op.support.contains(
                PcuDispatchOpCaps(DERIVATIVE_Y),
            ) {
                require_capability(options, PcuSpirvCapability::CoordinateDerivative)?;
            }
            Err(PcuSpirvError::UnsupportedInstruction(op.support))
        },
        PcuDispatchOpKind::RayTrace(ray) => validate_ray_op(*ray, op.support, options),
    }
}

/// The first precise reason that a kernel cannot be lowered.
pub open spec fn kernel_fault(
    kernel: PcuDispatchKernelIr,
    options: PcuSpirvLoweringOptions,
) -> Option<PcuSpirvError> {
    let caps = options.capabilities;
    let signature = signature_fault(kernel, caps);
    let features = features_fault(kernel.required_features);
    if !caps.allows(PcuSpirvCapability::Shader) {
        Some(PcuSpirvError::UnsupportedCapability(PcuSpirvCapability::Shader))
    } else if !version_supported(options.version.0) {
        Some(PcuSpirvError::UnsupportedVersion(options.version))
    } else if signature is Some {
        signature
    } else if features is Some {
        features
    } else if some_flow(kernel.ops@) {
        dataflow_fault(kernel)
    } else if parallel_map(kernel) {
        None
    } else {
        first_fault(kernel.ops@.len(), |i: int| op_fault(kernel.ops@[i], caps))
    }
}

fn validate_ops(kernel: &PcuDispatchKernelIr, options: PcuSpirvLoweringOptions) -> (answer: Result<
    (),
    PcuSpirvError,
>)
    ensures
        answer == verdict(
            first_fault(
                kernel.ops@.len(),
                |i: int| op_fault(kernel.ops@[i], options.capabilities),
            ),
        ),
{
    let ghost fault = |i: int| op_fault(kernel.ops@[i], options.capabilities);
    let mut at: usize = 0;
    while at < kernel.ops.len()
        invariant
            at <= kernel.ops@.len(),
            fault == (|i: int| op_fault(kernel.ops@[i], options.capabilities)),
            first_fault(at as nat, fault) is None,
        decreases kernel.ops@.len() - at,
    {
        if let Err(e) = validate_op_for_spirv(&kernel.ops[at], options) {
            proof {
                assert(first_fault((at + 1) as nat, fault) == Some(e));
                lemma_first_fault((at + 1) as nat, kernel.ops@.len(), fault);
            }
            return Err(e);
        }
        at += 1;
    }
    Ok(())
}

/// Validates that one dispatch kernel is admissible for the lowered subset.
///
/// # Errors
///
/// The first precise reason this kernel cannot be lowered.
pub fn validate_dispatch_for_spirv(
    kernel: &PcuDispatchKernelIr,
    options: PcuSpirvLoweringOptions,
) -> (answer: Result<(), PcuSpirvError>)
    requires
        kernel.wf(),
    ensures
        answer == verdict(kernel_fault(*kernel, options)),
{
    require_capability(options, PcuSpirvCapability::Shader)?;
    validate_spirv_version(options)?;
    validate_kernel_signature(kernel, options)?;
    validate_dispatch_features(kernel.required_features)?;
    if has_f32_dataflow_ops(kernel) {
        return validate_f32_dataflow_kernel(kernel);
    }
    if is_legacy_parallel_float_map_kernel(kernel) {
        return Ok(());
    }
    validate_ops(kernel, options)
}

} // verus!
