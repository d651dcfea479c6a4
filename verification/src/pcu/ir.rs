//! Dispatch kernels as the backends read them.
//!
//! A kernel carries, besides its own parts, the verdicts on it that the shared model validators
//! reached: whether a binding is well formed, whether a trace operation fits the bindings, which
//! features the kernel needs and what the common map profile says of it.
use vstd::prelude::*;

verus! {

/// A scalar element type.
#[derive(Debug, Clone, Copy, PartialEq, Eq, Hash, Structural)]
pub enum PcuScalarType {
    Bool,
    I4,
    U4,
    I8,
    U8,
    I16,
    U16,
    I32,
    U32,
    I64,
    U64,
    F16,
    BF16,
    F32,
    F64,
}

/// The type of a value.
#[derive(Debug, Clone, Copy, PartialEq, Eq, Hash, Structural)]
#[allow(inconsistent_fields)]
pub enum PcuValueType {
    Scalar(PcuScalarType),
    Vector { scalar: PcuScalarType, lanes: u8 },
    Matrix { scalar: PcuScalarType, rows: u8, cols: u8 },
}

impl PcuValueType {
    /// The single-precision scalar type.
    pub fn float32() -> (value_type: PcuValueType)
        ensures
            value_type == PcuValueType::Scalar(PcuScalarType::F32),
    {
        PcuValueType::Scalar(PcuScalarType::F32)
    }

    /// The double-precision scalar type.
    pub fn float64() -> (value_type: PcuValueType)
        ensures
            value_type == PcuValueType::Scalar(PcuScalarType::F64),
    {
        PcuValueType::Scalar(PcuScalarType::F64)
    }
}

/// The bits of the operation capabilities that the backends name.
pub const ALU_ADD: u64 = 1;

pub const BINDING_LOAD: u64 = 2;

pub const BINDING_STORE: u64 = 4;

pub const BINDING_LOAD_ELEMENT_ZERO: u64 = 8;

pub const DERIVATIVE_X: u64 = 16;

pub const DERIVATIVE_Y: u64 = 32;

pub const SYNC_BARRIER: u64 = 64;

pub const RAY_TRACE: u64 = 128;

/// A set of operation capabilities, one bit for each.
#[derive(Debug, Clone, Copy, PartialEq, Eq, Hash, Structural)]
pub struct PcuDispatchOpCaps(pub u64);

impl PcuDispatchOpCaps {
    /// Every capability of `other` is one of `self`.
    pub open spec fn includes(self, other: u64) -> bool {
        self.0 & other == other
    }

    pub fn contains(self, other: PcuDispatchOpCaps) -> (contained: bool)
        ensures
            contained == self.includes(other.0),
    {
        (self.0 & other.0) == other.0
    }

    pub fn union(self, other: PcuDispatchOpCaps) -> (caps: PcuDispatchOpCaps)
        ensures
            caps == PcuDispatchOpCaps(self.0 | other.0),
    {
        PcuDispatchOpCaps(self.0 | other.0)
    }
}

/// The bit of the feature that no backend here provides.
pub const COOPERATIVE_SCRATCHPAD: u32 = 1;

/// A set of dispatch features, one bit for each.
#[derive(Debug, Clone, Copy, PartialEq, Eq, Hash, Structural)]
pub struct PcuDispatchFeatureCaps(pub u32);

impl PcuDispatchFeatureCaps {
    /// Every feature of `other` is one of `self`.
    pub open spec fn includes(self, other: u32) -> bool {
        self.0 & other == other
    }

    pub fn contains(self, other: PcuDispatchFeatureCaps) -> (contained: bool)
        ensures
            contained == self.includes(other.0),
    {
        (self.0 & other.0) == other.0
    }
}

/// What a kernel may do with a binding.
#[derive(Debug, Clone, Copy, PartialEq, Eq, Hash, Structural)]
pub enum PcuBindingAccess {
    ReadOnly,
    WriteOnly,
    ReadWrite,
}

/// Where a binding lives.
#[derive(Debug, Clone, Copy, PartialEq, Eq, Hash, Structural)]
pub enum PcuBindingStorageClass {
    Storage,
    Other,
}

/// What a binding holds. An image binding is known by the type of its texels.
#[derive(Debug, Clone, Copy, PartialEq, Eq, Hash, Structural)]
pub enum PcuBindingType {
    Value(PcuValueType),
    Image(PcuValueType),
    Sampler,
    AccelerationStructure,
}

/// One binding of a kernel. `well_formed` is the model's verdict on it.
#[derive(Debug, Clone, Copy, PartialEq, Eq, Hash, Structural)]
pub struct PcuBinding {
    pub set: u32,
    pub binding: u32,
    pub storage: PcuBindingStorageClass,
    pub access: PcuBindingAccess,
    pub binding_type: PcuBindingType,
    pub well_formed: bool,
}

/// The address of a binding.
#[derive(Debug, Clone, Copy, PartialEq, Eq, Hash, Structural)]
pub struct PcuBindingRef {
    pub set: u32,
    pub binding: u32,
}

/// A value of the data flow. Zero names no value.
#[derive(Debug, Clone, Copy, PartialEq, Eq, Hash, Structural)]
pub struct PcuDispatchValueId(pub u16);

/// The element of a binding that an access addresses.
#[derive(Debug, Clone, Copy, PartialEq, Eq, Hash, Structural)]
pub enum PcuDispatchIndex {
    InvocationId,
    GridStrideId,
    BindingElementZero,
    Value(PcuDispatchValueId),
}

/// An arithmetic operation. One that no backend here emits is known by its capability.
#[derive(Debug, Clone, Copy, PartialEq, Eq, Hash, Structural)]
pub enum PcuDispatchAluOp {
    Add,
    Sub,
    Mul,
    Div,
    Other(PcuDispatchOpCaps),
}

/// A constant. One that is no single-precision number is known by its type.
#[derive(Debug, Clone, Copy, PartialEq, Eq, Hash, Structural)]
pub enum PcuParameterValue {
    F32(u32),
    Other(PcuValueType),
}

/// An operation of the data flow.
#[derive(Debug, Clone, Copy, PartialEq, Eq, Hash, Structural)]
#[allow(inconsistent_fields)]
pub enum PcuDispatchDataOp {
    BindingLoad { result: PcuDispatchValueId, binding: PcuBindingRef, index: PcuDispatchIndex },
    Constant { result: PcuDispatchValueId, value: PcuParameterValue },
    Alu {
        result: PcuDispatchValueId,
        op: PcuDispatchAluOp,
        lhs: PcuDispatchValueId,
        rhs: PcuDispatchValueId,
    },
    BindingStore { binding: PcuBindingRef, index: PcuDispatchIndex, value: PcuDispatchValueId },
    Other,
}

/// An operation on resources.
#[derive(Debug, Clone, Copy, PartialEq, Eq, Hash, Structural)]
pub enum PcuDispatchResourceOp {
    Sample,
    Load,
    Store,
    Atomic,
}

/// A ray operation. `valid` is the model's verdict on a trace against the kernel's bindings.
#[derive(Debug, Clone, Copy, PartialEq, Eq, Hash, Structural)]
#[allow(inconsistent_fields)]
pub enum PcuDispatchRayTraceOp {
    TraceRay { valid: bool },
    TraceRayInline { valid: bool },
    RayQueryProceed,
    RayQueryCommittedStatus,
    RayQueryCommittedDistance,
    RayQueryCommittedInstance,
    RayQueryCommittedPrimitive,
    ReportHit,
    IgnoreHit,
    AcceptHitAndEndSearch,
    PayloadRead,
    PayloadWrite,
}

/// What an operation of the dispatch stream does.
#[derive(Debug)]
pub enum PcuDispatchOpKind {
    /// The return of the control operations.
    Return,
    /// Any other control operation.
    Control,
    /// The constant of the value operations.
    ValueConstant,
    /// Any other value operation.
    Value,
    Arithmetic(PcuDispatchAluOp),
    Port,
    Sync,
    Intrinsic,
    Resource(PcuDispatchResourceOp),
    Data(PcuDispatchDataOp),
    Coordinate,
    RayTrace(PcuDispatchRayTraceOp),
    GridStrideLoop { extent: u32, body: Vec<PcuDispatchOp> },
}

/// An operation of the dispatch stream. `support` is the capability that executing it takes.
#[derive(Debug)]
pub struct PcuDispatchOp {
    pub kind: PcuDispatchOpKind,
    pub support: PcuDispatchOpCaps,
}

/// Where a kernel starts and how far a dispatch of it extends.
#[derive(Debug)]
pub struct PcuDispatchEntryPoint {
    pub name: String,
    pub logical_shape: [u32; 3],
}

/// A port of a kernel.
#[derive(Debug, Clone, Copy, PartialEq, Eq, Hash, Structural)]
pub struct PcuPort {
    pub value_type: PcuValueType,
}

/// A parameter of a kernel.
#[derive(Debug, Clone, Copy, PartialEq, Eq, Hash, Structural)]
pub struct PcuParameter {
    pub value_type: PcuValueType,
}

/// Why the common map profile refuses a kernel.
#[derive(Debug, Clone, Copy, PartialEq, Eq, Hash, Structural)]
pub enum PcuF32MapValidationError {
    InvalidBinding,
    DuplicateBinding,
    InvalidIndex,
    UnsupportedOperation(usize),
    UnsupportedInterface,
    InvalidValue,
    DuplicateValue,
    MissingStore,
    MissingReturn,
}

/// One dispatch kernel. `required_features` and `map_profile` are the model's verdicts on it.
#[derive(Debug)]
pub struct PcuDispatchKernelIr {
    pub entry: PcuDispatchEntryPoint,
    pub bindings: Vec<PcuBinding>,
    pub ports: Vec<PcuPort>,
    pub parameters: Vec<PcuParameter>,
    pub ops: Vec<PcuDispatchOp>,
    pub required_features: PcuDispatchFeatureCaps,
    pub map_profile: Result<(), PcuF32MapValidationError>,
}

impl PcuDispatchKernelIr {
    /// An operation that the map profile refuses is one of the kernel's.
    pub open spec fn wf(self) -> bool {
        self.map_profile matches Err(PcuF32MapValidationError::UnsupportedOperation(at)) ==> at
            < self.ops@.len()
    }
}

} // verus!
