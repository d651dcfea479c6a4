//! The kernels of the elementwise operations.
//!
//! All values are single-precision scalars. A kernel reads its operands from the storage bindings
//! 0, 1, .. of set 0, in operand order, and writes its result to the binding after them.
use vstd::prelude::*;

use crate::pcu::ir::{
    PcuBinding, PcuBindingAccess, PcuBindingRef, PcuBindingStorageClass, PcuBindingType,
    PcuDispatchIndex, PcuDispatchValueId, PcuScalarType, PcuValueType,
};

verus! {

/// An arithmetic instruction of a kernel.
#[derive(Debug, Clone, Copy, PartialEq, Eq, Structural)]
pub enum RocmAluOp {
    Add,
    Sub,
    Mul,
    Max,
}

/// An instruction of a kernel.
#[derive(Debug, Clone, Copy, PartialEq, Eq, Structural)]
#[allow(inconsistent_fields)]
pub enum RocmKernelOp {
    BindingLoad { result: PcuDispatchValueId, binding: PcuBindingRef, index: PcuDispatchIndex },
    /// A constant, by its bits.
    Constant { result: PcuDispatchValueId, bits: u32 },
    Alu {
        result: PcuDispatchValueId,
        op: RocmAluOp,
        lhs: PcuDispatchValueId,
        rhs: PcuDispatchValueId,
    },
    BindingStore { binding: PcuBindingRef, index: PcuDispatchIndex, value: PcuDispatchValueId },
    Return,
}

/// What a kernel binding is.
#[verifier::ext_equal]
pub struct BindingModel {
    pub name: Option<Seq<char>>,
    pub binding: PcuBinding,
}

/// A binding of a kernel, with its name where it has one.
#[derive(Debug, Clone, Copy)]
pub struct RocmBinding {
    pub name: Option<&'static str>,
    pub binding: PcuBinding,
}

impl View for RocmBinding {
    type V = BindingModel;

    open spec fn view(&self) -> BindingModel {
        BindingModel {
            name: match self.name {
                Some(name) => Some(name@),
                None => None,
            },
            binding: self.binding,
        }
    }
}

/// The models of a list of bindings.
pub open spec fn binding_models(bindings: Seq<RocmBinding>) -> Seq<BindingModel> {
    bindings.map_values(|binding: RocmBinding| binding@)
}

/// What a kernel is.
#[verifier::ext_equal]
pub struct KernelModel {
    pub id: u32,
    pub name: Seq<char>,
    pub logical_shape: Seq<u32>,
    pub bindings: Seq<BindingModel>,
    pub ops: Seq<RocmKernelOp>,
}

/// A kernel over single-precision scalars, without ports, parameters or optional features.
#[derive(Debug)]
pub struct RocmKernel {
    pub id: u32,
    pub name: &'static str,
    pub logical_shape: [u32; 3],
    pub bindings: Vec<RocmBinding>,
    pub ops: Vec<RocmKernelOp>,
}

impl View for RocmKernel {
    type V = KernelModel;

    open spec fn view(&self) -> KernelModel {
        KernelModel {
            id: self.id,
            name: self.name@,
            logical_shape: self.logical_shape@,
            bindings: binding_models(self.bindings@),
            ops: self.ops@,
        }
    }
}

/// Operand `index` is read from element zero of its binding.
pub open spec fn masked(mask: u8, index: u8) -> bool {
    mask & (1u8 << index) != 0
}

/// The element of its binding that an operand is read from.
pub open spec fn operand_index(scalar: bool) -> PcuDispatchIndex {
    if scalar {
        PcuDispatchIndex::BindingElementZero
    } else {
        PcuDispatchIndex::InvocationId
    }
}

/// A value storage binding of set 0.
pub open spec fn storage_binding(binding: u32, access: PcuBindingAccess) -> PcuBinding {
    PcuBinding {
        set: 0,
        binding,
        storage: PcuBindingStorageClass::Storage,
        access,
        binding_type: PcuBindingType::Value(PcuValueType::Scalar(PcuScalarType::F32)),
        well_formed: true,
    }
}

/// A named value storage binding of set 0.
pub open spec fn named_binding(name: Seq<char>, binding: u32, access: PcuBindingAccess) -> BindingModel {
    BindingModel { name: Some(name), binding: storage_binding(binding, access) }
}

/// The load of an operand.
pub open spec fn load(result: u16, binding: u32, scalar: bool) -> RocmKernelOp {
    RocmKernelOp::BindingLoad {
        result: PcuDispatchValueId(result),
        binding: PcuBindingRef { set: 0, binding },
        index: operand_index(scalar),
    }
}

/// An arithmetic instruction.
pub open spec fn alu(result: u16, op: RocmAluOp, lhs: u16, rhs: u16) -> RocmKernelOp {
    RocmKernelOp::Alu {
        result: PcuDispatchValueId(result),
        op,
        lhs: PcuDispatchValueId(lhs),
        rhs: PcuDispatchValueId(rhs),
    }
}

/// The store of the result.
pub open spec fn store(binding: u32, value: u16) -> RocmKernelOp {
    RocmKernelOp::BindingStore {
        binding: PcuBindingRef { set: 0, binding },
        index: PcuDispatchIndex::InvocationId,
        value: PcuDispatchValueId(value),
    }
}

/// The constant zero.
pub open spec fn zero(result: u16) -> RocmKernelOp {
    RocmKernelOp::Constant { result: PcuDispatchValueId(result), bits: 0 }
}

/// Whether operand `index` is read from element zero of its binding.
pub fn is_masked(mask: u8, index: u8) -> (answer: bool)
    requires
        index < 8,
    ensures
        answer == masked(mask, index),
{
    (mask & (1u8 << index)) != 0
}

/// A value storage binding of set 0.
pub fn value_binding(name: Option<&'static str>, binding: u32, access: PcuBindingAccess) -> (made:
    RocmBinding)
    ensures
        made@.binding == storage_binding(binding, access),
        made.name == name,
{
    RocmBinding {
        name,
        binding: PcuBinding {
            set: 0,
            binding,
            storage: PcuBindingStorageClass::Storage,
            access,
            binding_type: PcuBindingType::Value(PcuValueType::float32()),
            well_formed: true,
        },
    }
}

/// The load of an operand.
pub fn load_op(result: u16, binding: u32, scalar: bool) -> (op: RocmKernelOp)
    ensures
        op == load(result, binding, scalar),
{
    RocmKernelOp::BindingLoad {
        result: PcuDispatchValueId(result),
        binding: PcuBindingRef { set: 0, binding },
        index: if scalar {
            PcuDispatchIndex::BindingElementZero
        } else {
            PcuDispatchIndex::InvocationId
        },
    }
}

/// An arithmetic instruction.
pub fn alu_op(result: u16, op: RocmAluOp, lhs: u16, rhs: u16) -> (made: RocmKernelOp)
    ensures
        made == alu(result, op, lhs, rhs),
{
    RocmKernelOp::Alu {
        result: PcuDispatchValueId(result),
        op,
        lhs: PcuDispatchValueId(lhs),
        rhs: PcuDispatchValueId(rhs),
    }
}

/// The store of the result.
pub fn store_op(binding: u32, value: u16) -> (op: RocmKernelOp)
    ensures
        op == store(binding, value),
{
    RocmKernelOp::BindingStore {
        binding: PcuBindingRef { set: 0, binding },
        index: PcuDispatchIndex::InvocationId,
        value: PcuDispatchValueId(value),
    }
}

/// The constant zero.
pub fn zero_op(result: u16) -> (op: RocmKernelOp)
    ensures
        op == zero(result),
{
    RocmKernelOp::Constant { result: PcuDispatchValueId(result), bits: 0 }
}

/// The kernels whose shape does not depend on a graph.
#[derive(Debug, Clone, Copy, PartialEq, Eq, Structural)]
pub enum TensorDispatchKind {
    Add,
    AddRelu,
    Sub,
    Mul,
    Relu,
    SquaredDifference,
}

impl TensorDispatchKind {
    /// The kernel reads two operands that may each be one scalar.
    pub open spec fn takes_scalars(self) -> bool {
        !(self is Relu || self is SquaredDifference)
    }

    /// The number that names the kernel when no operand is a scalar.
    pub open spec fn base_id(self) -> u32 {
        match self {
            TensorDispatchKind::Add => 0x5445_4e53,
            TensorDispatchKind::AddRelu => 0x4144_4452,
            TensorDispatchKind::Sub => 0x5355_4221,
            TensorDispatchKind::Mul => 0x4d55_4c21,
            TensorDispatchKind::Relu => 0x5245_4c55,
            TensorDispatchKind::SquaredDifference => 0x4d53_4521,
        }
    }

    /// The name of the kernel's entry point.
    pub open spec fn entry(self) -> Seq<char> {
        match self {
            TensorDispatchKind::Add => "tensor_add"@,
            TensorDispatchKind::AddRelu => "tensor_add_relu"@,
            TensorDispatchKind::Sub => "tensor_sub"@,
            TensorDispatchKind::Mul => "tensor_mul"@,
            TensorDispatchKind::Relu => "tensor_relu"@,
            TensorDispatchKind::SquaredDifference => "tensor_mse_squared_difference"@,
        }
    }

    /// The kernel's bindings: its operands, then its result.
    pub open spec fn interface(self) -> Seq<BindingModel> {
        match self {
            TensorDispatchKind::Relu => seq![
                named_binding("input"@, 0, PcuBindingAccess::ReadOnly),
                named_binding("output"@, 1, PcuBindingAccess::WriteOnly),
            ],
            TensorDispatchKind::SquaredDifference => seq![
                named_binding("prediction"@, 0, PcuBindingAccess::ReadOnly),
                named_binding("target"@, 1, PcuBindingAccess::ReadOnly),
                named_binding("squared_error"@, 2, PcuBindingAccess::WriteOnly),
            ],
            _ => seq![
                named_binding("left"@, 0, PcuBindingAccess::ReadOnly),
                named_binding("right"@, 1, PcuBindingAccess::ReadOnly),
                named_binding("output"@, 2, PcuBindingAccess::WriteOnly),
            ],
        }
    }

    /// The kernel's instructions.
    pub open spec fn body(self, mask: u8) -> Seq<RocmKernelOp> {
        let left = load(1, 0, masked(mask, 0));
        let right = load(2, 1, masked(mask, 1));
        match self {
            TensorDispatchKind::Add => seq![
                left,
                right,
                alu(3, RocmAluOp::Add, 1, 2),
                store(2, 3),
                RocmKernelOp::Return,
            ],
            TensorDispatchKind::Sub => seq![
                left,
                right,
                alu(3, RocmAluOp::Sub, 1, 2),
                store(2, 3),
                RocmKernelOp::Return,
            ],
            TensorDispatchKind::Mul => seq![
                left,
                right,
                alu(3, RocmAluOp::Mul, 1, 2),
                store(2, 3),
                RocmKernelOp::Return,
            ],
            TensorDispatchKind::AddRelu => seq![
                left,
                right,
                alu(3, RocmAluOp::Add, 1, 2),
                zero(4),
                alu(5, RocmAluOp::Max, 3, 4),
                store(2, 5),
                RocmKernelOp::Return,
            ],
            TensorDispatchKind::Relu => seq![
                zero(1),
                load(2, 0, false),
                alu(3, RocmAluOp::Max, 2, 1),
                store(1, 3),
                RocmKernelOp::Return,
            ],
            TensorDispatchKind::SquaredDifference => seq![
                load(1, 0, false),
                load(2, 1, false),
                alu(3, RocmAluOp::Sub, 1, 2),
                alu(4, RocmAluOp::Mul, 3, 3),
                store(2, 4),
                RocmKernelOp::Return,
            ],
        }
    }

    /// The kernel over `logical_count` elements.
    pub open spec fn model(self, logical_count: u32, mask: u8) -> KernelModel {
        KernelModel {
            id: (self.base_id() + if self.takes_scalars() {
                mask as int
            } else {
                0int
            }) as u32,
            name: self.entry(),
            logical_shape: seq![logical_count, 1, 1],
            bindings: self.interface(),
            ops: self.body(mask),
        }
    }

    /// The kernel over `logical_count` elements. A bit of the mask marks an operand that is one
    /// scalar.
    pub fn kernel(self, logical_count: u32, scalar_mask: u8) -> (kernel: RocmKernel)
        requires
            self.takes_scalars() ==> scalar_mask < 4,
        ensures
            kernel@ == self.model(logical_count, scalar_mask),
    {
        match self {
            TensorDispatchKind::Add => add_kernel(logical_count, scalar_mask),
            TensorDispatchKind::AddRelu => add_relu_kernel(logical_count, scalar_mask),
            TensorDispatchKind::Sub => sub_kernel(logical_count, scalar_mask),
            TensorDispatchKind::Mul => mul_kernel(logical_count, scalar_mask),
            TensorDispatchKind::Relu => relu_kernel(logical_count),
            TensorDispatchKind::SquaredDifference => mse_kernel(logical_count),
        }
    }
}

/// The bindings of a kernel with two operands.
fn operand_bindings(left: &'static str, right: &'static str, output: &'static str) -> (bindings:
    Vec<RocmBinding>)
    ensures
        binding_models(bindings@) == seq![
            named_binding(left@, 0, PcuBindingAccess::ReadOnly),
            named_binding(right@, 1, PcuBindingAccess::ReadOnly),
            named_binding(output@, 2, PcuBindingAccess::WriteOnly),
        ],
{
    let mut bindings: Vec<RocmBinding> = Vec::with_capacity(3);
    bindings.push(value_binding(Some(left), 0, PcuBindingAccess::ReadOnly));
    bindings.push(value_binding(Some(right), 1, PcuBindingAccess::ReadOnly));
    bindings.push(value_binding(Some(output), 2, PcuBindingAccess::WriteOnly));
    assert(binding_models(bindings@) =~= seq![
        named_binding(left@, 0, PcuBindingAccess::ReadOnly),
        named_binding(right@, 1, PcuBindingAccess::ReadOnly),
        named_binding(output@, 2, PcuBindingAccess::WriteOnly),
    ]);
    bindings
}

/// A kernel that applies one instruction to two operands.
fn binary_kernel(
    id: u32,
    name: &'static str,
    op: RocmAluOp,
    logical_count: u32,
    scalar_mask: u8,
) -> (kernel: RocmKernel)
    requires
        id + scalar_mask <= u32::MAX,
    ensures
        kernel@ == (KernelModel {
            id: (id + scalar_mask) as u32,
            name: name@,
            logical_shape: seq![logical_count, 1, 1],
            bindings: TensorDispatchKind::Add.interface(),
            ops: seq![
                load(1, 0, masked(scalar_mask, 0)),
                load(2, 1, masked(scalar_mask, 1)),
                alu(3, op, 1, 2),
                store(2, 3),
                RocmKernelOp::Return,
            ],
        }),
{
    let bindings: Vec<RocmBinding> = operand_bindings("left", "right", "output");
    let mut ops: Vec<RocmKernelOp> = Vec::with_capacity(5);
    ops.push(load_op(1, 0, is_masked(scalar_mask, 0)));
    ops.push(load_op(2, 1, is_masked(scalar_mask, 1)));
    ops.push(alu_op(3, op, 1, 2));
    ops.push(store_op(2, 3));
    ops.push(RocmKernelOp::Return);
    let kernel: RocmKernel = RocmKernel {
        id: id + scalar_mask as u32,
        name,
        logical_shape: [logical_count, 1, 1],
        bindings,
        ops,
    };
    assert(kernel@.logical_shape =~= seq![logical_count, 1, 1]);
    assert(kernel@.ops =~= seq![
        load(1, 0, masked(scalar_mask, 0)),
        load(2, 1, masked(scalar_mask, 1)),
        alu(3, op, 1, 2),
        store(2, 3),
        RocmKernelOp::Return,
    ]);
    kernel
}

/// The addition kernel.
pub fn add_kernel(logical_count: u32, scalar_mask: u8) -> (kernel: RocmKernel)
    requires
        scalar_mask < 4,
    ensures
        kernel@ == TensorDispatchKind::Add.model(logical_count, scalar_mask),
{
    binary_kernel(0x5445_4e53, "tensor_add", RocmAluOp::Add, logical_count, scalar_mask)
}

/// The subtraction kernel.
pub fn sub_kernel(logical_count: u32, scalar_mask: u8) -> (kernel: RocmKernel)
    requires
        scalar_mask < 4,
    ensures
        kernel@ == TensorDispatchKind::Sub.model(logical_count, scalar_mask),
{
    binary_kernel(0x5355_4221, "tensor_sub", RocmAluOp::Sub, logical_count, scalar_mask)
}

/// The multiplication kernel.
pub fn mul_kernel(logical_count: u32, scalar_mask: u8) -> (kernel: RocmKernel)
    requires
        scalar_mask < 4,
    ensures
        kernel@ == TensorDispatchKind::Mul.model(logical_count, scalar_mask),
{
    binary_kernel(0x4d55_4c21, "tensor_mul", RocmAluOp::Mul, logical_count, scalar_mask)
}

/// The kernel of an addition followed by a `ReLU`.
pub fn add_relu_kernel(logical_count: u32, scalar_mask: u8) -> (kernel: RocmKernel)
    requires
        scalar_mask < 4,
    ensures
        kernel@ == TensorDispatchKind::AddRelu.model(logical_count, scalar_mask),
{
    let bindings: Vec<RocmBinding> = operand_bindings("left", "right", "output");
    let mut ops: Vec<RocmKernelOp> = Vec::with_capacity(7);
    ops.push(load_op(1, 0, is_masked(scalar_mask, 0)));
    ops.push(load_op(2, 1, is_masked(scalar_mask, 1)));
    ops.push(alu_op(3, RocmAluOp::Add, 1, 2));
    ops.push(zero_op(4));
    ops.push(alu_op(5, RocmAluOp::Max, 3, 4));
    ops.push(store_op(2, 5));
    ops.push(RocmKernelOp::Return);
    let kernel: RocmKernel = RocmKernel {
        id: 0x4144_4452 + scalar_mask as u32,
        name: "tensor_add_relu",
        logical_shape: [logical_count, 1, 1],
        bindings,
        ops,
    };
    assert(kernel@ =~= TensorDispatchKind::AddRelu.model(logical_count, scalar_mask));
    kernel
}

/// The `ReLU` kernel.
pub fn relu_kernel(logical_count: u32) -> (kernel: RocmKernel)
    ensures
        forall|mask: u8| kernel@ == #[trigger] TensorDispatchKind::Relu.model(logical_count, mask),
{
    let mut bindings: Vec<RocmBinding> = Vec::with_capacity(2);
    bindings.push(value_binding(Some("input"), 0, PcuBindingAccess::ReadOnly));
    bindings.push(value_binding(Some("output"), 1, PcuBindingAccess::WriteOnly));
    let mut ops: Vec<RocmKernelOp> = Vec::with_capacity(5);
    ops.push(zero_op(1));
    ops.push(load_op(2, 0, false));
    ops.push(alu_op(3, RocmAluOp::Max, 2, 1));
    ops.push(store_op(1, 3));
    ops.push(RocmKernelOp::Return);
    let kernel: RocmKernel = RocmKernel {
        id: 0x5245_4c55,
        name: "tensor_relu",
        logical_shape: [logical_count, 1, 1],
        bindings,
        ops,
    };
    assert(kernel@.bindings =~= TensorDispatchKind::Relu.interface());
    assert forall|mask: u8| kernel@ == #[trigger] TensorDispatchKind::Relu.model(
        logical_count,
        mask,
    ) by {
        assert(kernel@ =~= TensorDispatchKind::Relu.model(logical_count, mask));
    }
    kernel
}

/// The kernel of the squared differences that a mean squared error adds up.
pub fn mse_kernel(logical_count: u32) -> (kernel: RocmKernel)
    ensures
        forall|mask: u8|
            kernel@ == #[trigger] TensorDispatchKind::SquaredDifference.model(logical_count, mask),
{
    let bindings: Vec<RocmBinding> = operand_bindings("prediction", "target", "squared_error");
    let mut ops: Vec<RocmKernelOp> = Vec::with_capacity(6);
    ops.push(load_op(1, 0, false));
    ops.push(load_op(2, 1, false));
    ops.push(alu_op(3, RocmAluOp::Sub, 1, 2));
    ops.push(alu_op(4, RocmAluOp::Mul, 3, 3));
    ops.push(store_op(2, 4));
    ops.push(RocmKernelOp::Return);
    let kernel: RocmKernel = RocmKernel {
        id: 0x4d53_4521,
        name: "tensor_mse_squared_difference",
        logical_shape: [logical_count, 1, 1],
        bindings,
        ops,
    };
    assert forall|mask: u8| kernel@ == #[trigger] TensorDispatchKind::SquaredDifference.model(
        logical_count,
        mask,
    ) by {
        assert(kernel@ =~= TensorDispatchKind::SquaredDifference.model(logical_count, mask));
    }
    kernel
}

/// Kernels that differ in their kind or in the scalars they take have different numbers.
pub proof fn law_fixed_kernels_are_told_apart(
    kind: TensorDispatchKind,
    mask: u8,
    other: TensorDispatchKind,
    other_mask: u8,
    count: u32,
    other_count: u32,
)
    requires
        mask < 4,
        other_mask < 4,
        kind.model(count, mask).id == other.model(other_count, other_mask).id,
    ensures
        kind == other,
        kind.takes_scalars() ==> mask == other_mask,
{
}

} // verus!
