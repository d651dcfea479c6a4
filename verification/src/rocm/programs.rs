//! The kernels of bounded pointwise groups: their programs, and the bytes that tell them apart.
use vstd::prelude::*;

use super::error::RocmTensorExecutionError;
use super::kernels::{
    alu, alu_op, binding_models, is_masked, load, load_op, masked, storage_binding, store,
    store_op, value_binding, zero, zero_op, BindingModel, KernelModel, RocmAluOp, RocmBinding,
    RocmKernel, RocmKernelOp,
};
use super::small::{no_bytes, push_byte, TopologyBytes};
use crate::pcu::ir::PcuBindingAccess;
use crate::tensor::groups::{
    bounded_wf, mul_wf, refers_back, BoundedModel, MulModel, TensorBoundedMulFusionGroup,
    TensorBoundedPointwiseFusionGroup, TensorPointwiseArithmeticOp, TensorPointwiseEpilogue,
    TensorPointwiseMulStep, TensorPointwiseOperand, TensorPointwiseStep,
};

verus! {

/// The most leaves that a program reads.
pub const MAX_PROGRAM_LEAVES: usize = 4;

/// The most arithmetic instructions that a program runs.
pub const MAX_PROGRAM_STEPS: usize = 8;

/// One arithmetic instruction of a group.
#[derive(Debug, Clone, Copy, PartialEq, Eq, Structural)]
pub struct ArithmeticStep {
    pub op: RocmAluOp,
    pub left: TensorPointwiseOperand,
    pub right: TensorPointwiseOperand,
}

/// A source operation as an instruction.
pub open spec fn arithmetic(op: TensorPointwiseArithmeticOp) -> RocmAluOp {
    match op {
        TensorPointwiseArithmeticOp::Add => RocmAluOp::Add,
        TensorPointwiseArithmeticOp::Sub => RocmAluOp::Sub,
    }
}

/// The instructions of an Add/Sub group.
pub open spec fn add_sub_steps(steps: Seq<TensorPointwiseStep>) -> Seq<ArithmeticStep> {
    steps.map_values(
        |step: TensorPointwiseStep|
            ArithmeticStep { op: arithmetic(step.op), left: step.left, right: step.right },
    )
}

/// The instructions of a Mul group.
pub open spec fn mul_steps(steps: Seq<TensorPointwiseMulStep>) -> Seq<ArithmeticStep> {
    steps.map_values(
        |step: TensorPointwiseMulStep|
            ArithmeticStep { op: RocmAluOp::Mul, left: step.left, right: step.right },
    )
}

/// A number as a byte, or the largest byte if it does not fit.
pub open spec fn clamped(number: usize) -> u8 {
    if number <= 255 {
        number as u8
    } else {
        255
    }
}

/// The bytes of an operand: which list it refers to, and where in it.
pub open spec fn operand_bytes(operand: TensorPointwiseOperand) -> Seq<u8> {
    match operand {
        TensorPointwiseOperand::Leaf(index) => seq![0u8, clamped(index)],
        TensorPointwiseOperand::Step(index) => seq![1u8, clamped(index)],
    }
}

/// The byte of an instruction.
pub open spec fn op_byte(op: RocmAluOp) -> u8 {
    match op {
        RocmAluOp::Add => 0,
        RocmAluOp::Sub => 1,
        RocmAluOp::Mul => 2,
        RocmAluOp::Max => 3,
    }
}

/// The bytes of a list of instructions, five for each.
pub open spec fn step_bytes(steps: Seq<ArithmeticStep>) -> Seq<u8>
    decreases steps.len(),
{
    if steps.len() == 0 {
        Seq::empty()
    } else {
        step_bytes(steps.drop_last()) + seq![op_byte(steps.last().op)] + operand_bytes(
            steps.last().left,
        ) + operand_bytes(steps.last().right)
    }
}

/// The bytes of an Add/Sub group: its epilogue, its extent, and its instructions. The values that
/// it reads and produces leave no trace.
pub open spec fn pointwise_topology(group: BoundedModel) -> Seq<u8> {
    seq![
        if group.epilogue is Identity {
            0u8
        } else {
            1u8
        },
        clamped(group.leaves.len() as usize),
        clamped(group.steps.len() as usize),
    ] + step_bytes(add_sub_steps(group.steps))
}

/// The bytes of a Mul group.
pub open spec fn mul_topology(group: MulModel) -> Seq<u8> {
    seq![2u8, 0u8, clamped(group.leaves.len() as usize), clamped(group.steps.len() as usize)]
        + step_bytes(mul_steps(group.steps))
}

fn clamp(number: usize) -> (byte: u8)
    ensures
        byte == clamped(number),
{
    if number <= 255 {
        number as u8
    } else {
        u8::MAX
    }
}

/// Adds the bytes of an operand.
fn encode_pointwise_operand(topology: &mut TopologyBytes, operand: TensorPointwiseOperand)
    requires
        old(topology)@.len() + 2 <= usize::MAX / 4,
    ensures
        final(topology)@ == old(topology)@ + operand_bytes(operand),
{
    match operand {
        TensorPointwiseOperand::Leaf(index) => {
            push_byte(topology, 0);
            push_byte(topology, clamp(index));
        },
        TensorPointwiseOperand::Step(index) => {
            push_byte(topology, 1);
            push_byte(topology, clamp(index));
        },
    }
    assert(topology@ =~= old(topology)@ + operand_bytes(operand));
}

/// Adds the bytes of one instruction.
fn encode_step(topology: &mut TopologyBytes, step: ArithmeticStep)
    requires
        old(topology)@.len() + 5 <= usize::MAX / 4,
    ensures
        final(topology)@ == old(topology)@ + seq![op_byte(step.op)] + operand_bytes(step.left)
            + operand_bytes(step.right),
{
    let byte: u8 = match step.op {
        RocmAluOp::Add => 0,
        RocmAluOp::Sub => 1,
        RocmAluOp::Mul => 2,
        RocmAluOp::Max => 3,
    };
    push_byte(topology, byte);
    assert(topology@ =~= old(topology)@ + seq![op_byte(step.op)]);
    encode_pointwise_operand(topology, step.left);
    encode_pointwise_operand(topology, step.right);
}

/// The instructions of an Add/Sub group.
fn collect_add_sub_steps(group: &TensorBoundedPointwiseFusionGroup) -> (steps: Vec<ArithmeticStep>)
    ensures
        steps@ == add_sub_steps(group.steps@),
{
    let mut steps: Vec<ArithmeticStep> = Vec::with_capacity(group.steps.len());
    while steps.len() < group.steps.len()
        invariant
            steps@.len() <= group.steps@.len(),
            forall|i: int|
                0 <= i < steps@.len() ==> #[trigger] steps@[i] == add_sub_steps(group.steps@)[i],
        decreases group.steps@.len() - steps@.len(),
    {
        let step: TensorPointwiseStep = group.steps[steps.len()];
        let op: RocmAluOp = match step.op {
            TensorPointwiseArithmeticOp::Add => RocmAluOp::Add,
            TensorPointwiseArithmeticOp::Sub => RocmAluOp::Sub,
        };
        steps.push(ArithmeticStep { op, left: step.left, right: step.right });
    }
    assert(steps@ =~= add_sub_steps(group.steps@));
    steps
}

/// The instructions of a Mul group.
fn collect_mul_steps(group: &TensorBoundedMulFusionGroup) -> (steps: Vec<ArithmeticStep>)
    ensures
        steps@ == mul_steps(group.steps@),
{
    let mut steps: Vec<ArithmeticStep> = Vec::with_capacity(group.steps.len());
    while steps.len() < group.steps.len()
        invariant
            steps@.len() <= group.steps@.len(),
            forall|i: int|
                0 <= i < steps@.len() ==> #[trigger] steps@[i] == mul_steps(group.steps@)[i],
        decreases group.steps@.len() - steps@.len(),
    {
        let step: TensorPointwiseMulStep = group.steps[steps.len()];
        steps.push(ArithmeticStep { op: RocmAluOp::Mul, left: step.left, right: step.right });
    }
    assert(steps@ =~= mul_steps(group.steps@));
    steps
}

/// Adds the bytes of a list of instructions.
fn encode_steps(topology: &mut TopologyBytes, steps: &[ArithmeticStep])
    requires
        old(topology)@.len() + 5 * steps@.len() <= usize::MAX / 4,
    ensures
        final(topology)@ == old(topology)@ + step_bytes(steps@),
{
    let ghost before = topology@;
    let mut at: usize = 0;
    assert(topology@ =~= before + step_bytes(steps@.take(0)));
    while at < steps.len()
        invariant
            at <= steps@.len(),
            topology@ == before + step_bytes(steps@.take(at as int)),
            before.len() + 5 * steps@.len() <= usize::MAX / 4,
        decreases steps@.len() - at,
    {
        proof {
            lemma_step_bytes_len(steps@.take(at as int));
        }
        encode_step(topology, steps[at]);
        proof {
            let grown = steps@.take(at + 1);
            assert(grown.drop_last() =~= steps@.take(at as int));
            assert(grown.last() == steps@[at as int]);
            assert(topology@ =~= before + step_bytes(grown));
        }
        at += 1;
    }
    assert(steps@.take(at as int) =~= steps@);
}

/// The bytes of so many instructions can be kept.
pub open spec fn encodable(steps: nat) -> bool {
    4 + 5 * steps <= usize::MAX / 4
}

/// The bytes that tell an Add/Sub expression apart: its shape and operand order, never the values
/// of a graph.
pub fn bounded_pointwise_topology(group: &TensorBoundedPointwiseFusionGroup) -> (topology:
    TopologyBytes)
    requires
        encodable(group.steps@.len()),
    ensures
        topology@ == pointwise_topology(group@),
{
    let steps: Vec<ArithmeticStep> = collect_add_sub_steps(group);
    let mut topology: TopologyBytes = no_bytes();
    let epilogue: u8 = match group.epilogue {
        TensorPointwiseEpilogue::Identity => 0,
        TensorPointwiseEpilogue::Relu => 1,
    };
    push_byte(&mut topology, epilogue);
    push_byte(&mut topology, clamp(group.leaves.len()));
    push_byte(&mut topology, clamp(group.steps.len()));
    encode_steps(&mut topology, steps.as_slice());
    assert(topology@ =~= pointwise_topology(group@));
    topology
}

/// The bytes that tell a Mul expression apart. The first byte is none that an Add/Sub expression
/// has.
pub fn bounded_mul_topology(group: &TensorBoundedMulFusionGroup) -> (topology: TopologyBytes)
    requires
        encodable(group.steps@.len()),
    ensures
        topology@ == mul_topology(group@),
{
    let steps: Vec<ArithmeticStep> = collect_mul_steps(group);
    let mut topology: TopologyBytes = no_bytes();
    push_byte(&mut topology, 2);
    push_byte(&mut topology, 0);
    push_byte(&mut topology, clamp(group.leaves.len()));
    push_byte(&mut topology, clamp(group.steps.len()));
    encode_steps(&mut topology, steps.as_slice());
    assert(topology@ =~= mul_topology(group@));
    topology
}

/// The hash of a list of bytes: FNV-1a over 32 bits.
pub open spec fn byte_hash(bytes: Seq<u8>) -> u32
    decreases bytes.len(),
{
    if bytes.len() == 0 {
        0x811c_9dc5
    } else {
        (byte_hash(bytes.drop_last()) ^ (bytes.last() as u32)).wrapping_mul(0x0100_0193)
    }
}

/// The number of the kernel for an expression and its scalar operands.
pub open spec fn kernel_id(topology: Seq<u8>, mask: u8) -> u32 {
    0x4250_0000u32 | (byte_hash(topology.push(mask)) & 0x00ff_ffffu32)
}

/// The number of the kernel for an expression and its scalar operands.
///
/// It serves diagnosis. Kernels are told apart by their bytes, so equal numbers confuse nothing.
pub fn bounded_pointwise_kernel_id(topology: &[u8], scalar_mask: u8) -> (id: u32)
    ensures
        id == kernel_id(topology@, scalar_mask),
{
    let mut hash: u32 = 0x811c_9dc5;
    let mut at: usize = 0;
    assert(topology@.take(0).len() == 0);
    while at < topology.len()
        invariant
            at <= topology@.len(),
            hash == byte_hash(topology@.take(at as int)),
        decreases topology@.len() - at,
    {
        proof {
            let grown = topology@.take(at + 1);
            assert(grown.drop_last() =~= topology@.take(at as int));
            assert(grown.last() == topology@[at as int]);
        }
        hash = (hash ^ topology[at] as u32).wrapping_mul(0x0100_0193);
        at += 1;
    }
    proof {
        assert(topology@.take(at as int) =~= topology@);
        assert(topology@.push(scalar_mask).drop_last() =~= topology@);
    }
    hash = (hash ^ scalar_mask as u32).wrapping_mul(0x0100_0193);
    0x4250_0000u32 | (hash & 0x00ff_ffffu32)
}

/// How many sets of scalar operands there are among this many leaves.
pub open spec fn mask_limit(leaves: nat) -> nat {
    if leaves == 1 {
        2
    } else if leaves == 2 {
        4
    } else if leaves == 3 {
        8
    } else {
        16
    }
}

/// The value that an operand names: leaves come first, then instructions.
pub open spec fn operand_value(leaves: nat, operand: TensorPointwiseOperand) -> Option<u16> {
    match operand {
        TensorPointwiseOperand::Leaf(index) => if index < leaves && index < 0xffff {
            Some((index + 1) as u16)
        } else {
            None
        },
        TensorPointwiseOperand::Step(index) => if leaves + index < 0xffff {
            Some((leaves + index + 1) as u16)
        } else {
            None
        },
    }
}

/// Counting the values up to an operand stays within the numbers of the machine.
pub open spec fn countable_operand(leaves: nat, operand: TensorPointwiseOperand) -> bool {
    operand matches TensorPointwiseOperand::Step(index) ==> leaves + index != usize::MAX
}

/// Counting the values up to any operand stays within the numbers of the machine.
pub open spec fn countable_steps(leaves: nat, steps: Seq<ArithmeticStep>) -> bool {
    forall|i: int|
        0 <= i < steps.len() ==> countable_operand(leaves, (#[trigger] steps[i]).left)
            && countable_operand(leaves, steps[i].right)
}

/// A program with these parts can be written down.
pub open spec fn buildable(leaves: nat, steps: Seq<ArithmeticStep>, mask: u8) -> bool {
    &&& 1 <= leaves <= MAX_PROGRAM_LEAVES
    &&& 1 <= steps.len() <= MAX_PROGRAM_STEPS
    &&& mask < mask_limit(leaves)
    &&& forall|i: int|
        0 <= i < steps.len() ==> operand_value(leaves, (#[trigger] steps[i]).left) is Some
            && operand_value(leaves, steps[i].right) is Some
}

/// The bindings of a program: its leaves, then its result.
pub open spec fn program_bindings(leaves: nat) -> Seq<BindingModel> {
    Seq::new(
        leaves + 1,
        |i: int|
            BindingModel {
                name: None,
                binding: storage_binding(
                    i as u32,
                    if i < leaves {
                        PcuBindingAccess::ReadOnly
                    } else {
                        PcuBindingAccess::WriteOnly
                    },
                ),
            },
    )
}

/// The loads of the leaves.
pub open spec fn leaf_loads(leaves: nat, mask: u8) -> Seq<RocmKernelOp> {
    Seq::new(leaves, |i: int| load((i + 1) as u16, i as u32, masked(mask, i as u8)))
}

/// The arithmetic instructions, in source order.
pub open spec fn step_ops(leaves: nat, steps: Seq<ArithmeticStep>) -> Seq<RocmKernelOp> {
    Seq::new(
        steps.len(),
        |i: int|
            alu(
                (leaves + i + 1) as u16,
                steps[i].op,
                operand_value(leaves, steps[i].left)->Some_0,
                operand_value(leaves, steps[i].right)->Some_0,
            ),
    )
}

/// What a program does with the value of its last instruction.
pub open spec fn program_end(leaves: nat, terminal: nat, relu: bool) -> Seq<RocmKernelOp> {
    if relu {
        seq![
            zero((terminal + 1) as u16),
            alu((terminal + 2) as u16, RocmAluOp::Max, terminal as u16, (terminal + 1) as u16),
            store(leaves as u32, (terminal + 2) as u16),
            RocmKernelOp::Return,
        ]
    } else {
        seq![store(leaves as u32, terminal as u16), RocmKernelOp::Return]
    }
}

/// The instructions of a program.
pub open spec fn program_ops(leaves: nat, steps: Seq<ArithmeticStep>, relu: bool, mask: u8) -> Seq<
    RocmKernelOp,
> {
    leaf_loads(leaves, mask) + step_ops(leaves, steps) + program_end(
        leaves,
        leaves + steps.len(),
        relu,
    )
}

/// A program was written, or its parts do not fit.
pub open spec fn program_answer(
    leaves: nat,
    steps: Seq<ArithmeticStep>,
    relu: bool,
    mask: u8,
    answer: Result<(Vec<RocmBinding>, Vec<RocmKernelOp>), RocmTensorExecutionError>,
) -> bool {
    match answer {
        Ok((bindings, ops)) => buildable(leaves, steps, mask) && binding_models(bindings@)
            == program_bindings(leaves) && ops@ == program_ops(leaves, steps, relu, mask),
        Err(error) => !buildable(leaves, steps, mask) && error
            == RocmTensorExecutionError::SizeOverflow,
    }
}

/// The value that an operand names.
pub fn pointwise_value_id(leaf_count: usize, operand: TensorPointwiseOperand) -> (value: Result<
    u16,
    RocmTensorExecutionError,
>)
    requires
        countable_operand(leaf_count as nat, operand),
    ensures
        match value {
            Ok(value) => operand_value(leaf_count as nat, operand) == Some(value),
            Err(error) => operand_value(leaf_count as nat, operand) is None && error
                == RocmTensorExecutionError::SizeOverflow,
        },
{
    let index: usize = match operand {
        TensorPointwiseOperand::Leaf(index) => {
            if index >= leaf_count {
                return Err(RocmTensorExecutionError::SizeOverflow);
            }
            index
        },
        TensorPointwiseOperand::Step(index) => match leaf_count.checked_add(index) {
            Some(sum) => sum,
            None => {
                return Err(RocmTensorExecutionError::SizeOverflow);
            },
        },
    };
    if index + 1 <= 0xffff {
        Ok((index + 1) as u16)
    } else {
        Err(RocmTensorExecutionError::SizeOverflow)
    }
}

/// How many sets of scalar operands there are among this many leaves.
fn count_masks(leaves: usize) -> (limit: usize)
    ensures
        limit == mask_limit(leaves as nat),
{
    if leaves == 1 {
        2
    } else if leaves == 2 {
        4
    } else if leaves == 3 {
        8
    } else {
        16
    }
}

/// The bindings of a program.
fn build_bindings(leaf_count: usize) -> (bindings: Vec<RocmBinding>)
    requires
        leaf_count <= MAX_PROGRAM_LEAVES,
    ensures
        binding_models(bindings@) == program_bindings(leaf_count as nat),
{
    let mut bindings: Vec<RocmBinding> = Vec::with_capacity(leaf_count + 1);
    while bindings.len() < leaf_count
        invariant
            bindings@.len() <= leaf_count <= MAX_PROGRAM_LEAVES,
            forall|i: int|
                0 <= i < bindings@.len() ==> (#[trigger] bindings@[i])@ == program_bindings(
                    leaf_count as nat,
                )[i],
        decreases leaf_count - bindings@.len(),
    {
        let index: u32 = bindings.len() as u32;
        bindings.push(value_binding(None, index, PcuBindingAccess::ReadOnly));
    }
    bindings.push(value_binding(None, leaf_count as u32, PcuBindingAccess::WriteOnly));
    assert(binding_models(bindings@) =~= program_bindings(leaf_count as nat));
    bindings
}

/// Writes the program of a group down.
fn build_program(leaf_count: usize, steps: &[ArithmeticStep], relu: bool, scalar_mask: u8) -> (answer:
    Result<(Vec<RocmBinding>, Vec<RocmKernelOp>), RocmTensorExecutionError>)
    requires
        countable_steps(leaf_count as nat, steps@),
    ensures
        program_answer(leaf_count as nat, steps@, relu, scalar_mask, answer),
{
    if leaf_count == 0 || leaf_count > MAX_PROGRAM_LEAVES || steps.len() == 0 || steps.len()
        > MAX_PROGRAM_STEPS || scalar_mask as usize >= count_masks(leaf_count) {
        return Err(RocmTensorExecutionError::SizeOverflow);
    }
    let ghost leaves = leaf_count as nat;
    let bindings: Vec<RocmBinding> = build_bindings(leaf_count);
    let mut ops: Vec<RocmKernelOp> = Vec::with_capacity(leaf_count + steps.len() + 4);
    while ops.len() < leaf_count
        invariant
            ops@.len() <= leaf_count <= MAX_PROGRAM_LEAVES,
            leaves == leaf_count,
            forall|i: int|
                0 <= i < ops@.len() ==> #[trigger] ops@[i] == leaf_loads(leaves, scalar_mask)[i],
        decreases leaf_count - ops@.len(),
    {
        let index: usize = ops.len();
        ops.push(
            load_op((index + 1) as u16, index as u32, is_masked(scalar_mask, index as u8)),
        );
    }
    assert(ops@ =~= leaf_loads(leaves, scalar_mask));
    let mut at: usize = 0;
    assert(ops@ =~= leaf_loads(leaves, scalar_mask) + step_ops(leaves, steps@).take(0));
    while at < steps.len()
        invariant
            at <= steps@.len() <= MAX_PROGRAM_STEPS,
            leaves == leaf_count,
            leaf_count <= MAX_PROGRAM_LEAVES,
            countable_steps(leaves, steps@),
            forall|i: int|
                0 <= i < at ==> operand_value(leaves, (#[trigger] steps@[i]).left) is Some
                    && operand_value(leaves, steps@[i].right) is Some,
            ops@ == leaf_loads(leaves, scalar_mask) + step_ops(leaves, steps@).take(at as int),
        decreases steps@.len() - at,
    {
        let step: ArithmeticStep = steps[at];
        let lhs: u16 = match pointwise_value_id(leaf_count, step.left) {
            Ok(value) => value,
            Err(error) => {
                assert(operand_value(leaves, steps@[at as int].left) is None);
                return Err(error);
            },
        };
        let rhs: u16 = match pointwise_value_id(leaf_count, step.right) {
            Ok(value) => value,
            Err(error) => {
                assert(operand_value(leaves, steps@[at as int].right) is None);
                return Err(error);
            },
        };
        ops.push(alu_op((leaf_count + at + 1) as u16, step.op, lhs, rhs));
        assert(ops@ =~= leaf_loads(leaves, scalar_mask) + step_ops(leaves, steps@).take(at + 1));
        at += 1;
    }
    assert(step_ops(leaves, steps@).take(at as int) =~= step_ops(leaves, steps@));
    let terminal: u16 = (leaf_count + steps.len()) as u16;
    if relu {
        ops.push(zero_op(terminal + 1));
        ops.push(alu_op(terminal + 2, RocmAluOp::Max, terminal, terminal + 1));
        ops.push(store_op(leaf_count as u32, terminal + 2));
    } else {
        ops.push(store_op(leaf_count as u32, terminal));
    }
    ops.push(RocmKernelOp::Return);
    assert(ops@ =~= program_ops(leaves, steps@, relu, scalar_mask));
    Ok((bindings, ops))
}

/// Writes the program of an Add/Sub group down. Its instructions keep the order and the rounding
/// points of the source operations and end with the group's epilogue.
pub fn bounded_pointwise_program(group: &TensorBoundedPointwiseFusionGroup, scalar_mask: u8) -> (answer:
    Result<(Vec<RocmBinding>, Vec<RocmKernelOp>), RocmTensorExecutionError>)
    requires
        countable_steps(group.leaves@.len(), add_sub_steps(group.steps@)),
    ensures
        program_answer(
            group.leaves@.len(),
            add_sub_steps(group.steps@),
            group.epilogue is Relu,
            scalar_mask,
            answer,
        ),
{
    let steps: Vec<ArithmeticStep> = collect_add_sub_steps(group);
    let relu: bool = group.epilogue == TensorPointwiseEpilogue::Relu;
    build_program(group.leaves.len(), steps.as_slice(), relu, scalar_mask)
}

/// Writes the program of a Mul group down, in source order.
pub fn bounded_mul_program(group: &TensorBoundedMulFusionGroup, scalar_mask: u8) -> (answer: Result<
    (Vec<RocmBinding>, Vec<RocmKernelOp>),
    RocmTensorExecutionError,
>)
    requires
        countable_steps(group.leaves@.len(), mul_steps(group.steps@)),
    ensures
        program_answer(
            group.leaves@.len(),
            mul_steps(group.steps@),
            false,
            scalar_mask,
            answer,
        ),
{
    let steps: Vec<ArithmeticStep> = collect_mul_steps(group);
    build_program(group.leaves.len(), steps.as_slice(), false, scalar_mask)
}

/// The kernel of a written program.
pub open spec fn program_kernel(
    topology: Seq<u8>,
    name: Seq<char>,
    logical_count: u32,
    leaves: nat,
    steps: Seq<ArithmeticStep>,
    relu: bool,
    mask: u8,
) -> KernelModel {
    KernelModel {
        id: kernel_id(topology, mask),
        name,
        logical_shape: seq![logical_count, 1, 1],
        bindings: program_bindings(leaves),
        ops: program_ops(leaves, steps, relu, mask),
    }
}

/// The entry point of an Add/Sub program.
pub open spec fn pointwise_entry(epilogue: TensorPointwiseEpilogue) -> Seq<char> {
    match epilogue {
        TensorPointwiseEpilogue::Identity => "tensor_bounded_add_sub"@,
        TensorPointwiseEpilogue::Relu => "tensor_bounded_add_sub_relu"@,
    }
}

/// The kernel of an Add/Sub group over `logical_count` elements.
pub open spec fn pointwise_kernel(group: BoundedModel, logical_count: u32, mask: u8) -> KernelModel {
    program_kernel(
        pointwise_topology(group),
        pointwise_entry(group.epilogue),
        logical_count,
        group.leaves.len(),
        add_sub_steps(group.steps),
        group.epilogue is Relu,
        mask,
    )
}

/// The kernel of a Mul group over `logical_count` elements.
pub open spec fn mul_group_kernel(group: MulModel, logical_count: u32, mask: u8) -> KernelModel {
    program_kernel(
        mul_topology(group),
        "tensor_bounded_mul"@,
        logical_count,
        group.leaves.len(),
        mul_steps(group.steps),
        false,
        mask,
    )
}

/// The kernel of an Add/Sub group over `logical_count` elements.
pub fn bounded_pointwise_kernel(
    group: &TensorBoundedPointwiseFusionGroup,
    logical_count: u32,
    scalar_mask: u8,
    topology: &TopologyBytes,
) -> (answer: Result<RocmKernel, RocmTensorExecutionError>)
    requires
        countable_steps(group.leaves@.len(), add_sub_steps(group.steps@)),
        topology@ == pointwise_topology(group@),
    ensures
        match answer {
            Ok(kernel) => buildable(
                group.leaves@.len(),
                add_sub_steps(group.steps@),
                scalar_mask,
            ) && kernel@ == pointwise_kernel(group@, logical_count, scalar_mask),
            Err(error) => !buildable(
                group.leaves@.len(),
                add_sub_steps(group.steps@),
                scalar_mask,
            ) && error == RocmTensorExecutionError::SizeOverflow,
        },
{
    match bounded_pointwise_program(group, scalar_mask) {
        Err(error) => Err(error),
        Ok((bindings, ops)) => {
            let kernel: RocmKernel = RocmKernel {
                id: bounded_pointwise_kernel_id(topology.as_slice(), scalar_mask),
                name: match group.epilogue {
                    TensorPointwiseEpilogue::Identity => "tensor_bounded_add_sub",
                    TensorPointwiseEpilogue::Relu => "tensor_bounded_add_sub_relu",
                },
                logical_shape: [logical_count, 1, 1],
                bindings,
                ops,
            };
            assert(kernel@ =~= pointwise_kernel(group@, logical_count, scalar_mask));
            Ok(kernel)
        },
    }
}

/// The kernel of a Mul group over `logical_count` elements.
pub fn bounded_mul_kernel(
    group: &TensorBoundedMulFusionGroup,
    logical_count: u32,
    scalar_mask: u8,
    topology: &TopologyBytes,
) -> (answer: Result<RocmKernel, RocmTensorExecutionError>)
    requires
        countable_steps(group.leaves@.len(), mul_steps(group.steps@)),
        topology@ == mul_topology(group@),
    ensures
        match answer {
            Ok(kernel) => buildable(group.leaves@.len(), mul_steps(group.steps@), scalar_mask)
                && kernel@ == mul_group_kernel(group@, logical_count, scalar_mask),
            Err(error) => !buildable(group.leaves@.len(), mul_steps(group.steps@), scalar_mask)
                && error == RocmTensorExecutionError::SizeOverflow,
        },
{
    match bounded_mul_program(group, scalar_mask) {
        Err(error) => Err(error),
        Ok((bindings, ops)) => {
            let kernel: RocmKernel = RocmKernel {
                id: bounded_pointwise_kernel_id(topology.as_slice(), scalar_mask),
                name: "tensor_bounded_mul",
                logical_shape: [logical_count, 1, 1],
                bindings,
                ops,
            };
            assert(kernel@ =~= mul_group_kernel(group@, logical_count, scalar_mask));
            Ok(kernel)
        },
    }
}

/// Every operand fits a byte.
spec fn byte_sized(steps: Seq<ArithmeticStep>) -> bool {
    forall|i: int|
        0 <= i < steps.len() ==> small_operand((#[trigger] steps[i]).left) && small_operand(
            steps[i].right,
        )
}

spec fn small_operand(operand: TensorPointwiseOperand) -> bool {
    match operand {
        TensorPointwiseOperand::Leaf(index) => index <= 255,
        TensorPointwiseOperand::Step(index) => index <= 255,
    }
}

proof fn lemma_operand_bytes(a: TensorPointwiseOperand, b: TensorPointwiseOperand)
    requires
        small_operand(a),
        small_operand(b),
        operand_bytes(a)[0] == operand_bytes(b)[0],
        operand_bytes(a)[1] == operand_bytes(b)[1],
    ensures
        a == b,
{
}

/// Instructions are known by their bytes.
proof fn lemma_step_bytes(a: Seq<ArithmeticStep>, b: Seq<ArithmeticStep>)
    requires
        a.len() == b.len(),
        byte_sized(a),
        byte_sized(b),
        step_bytes(a) == step_bytes(b),
    ensures
        a == b,
    decreases a.len(),
{
    lemma_step_bytes_len(a);
    lemma_step_bytes_len(b);
    if a.len() > 0 {
        let n = 5 * (a.len() - 1);
        lemma_step_bytes_len(a.drop_last());
        lemma_step_bytes_len(b.drop_last());
        let x = step_bytes(a);
        let y = step_bytes(b);
        assert(step_bytes(a.drop_last()) =~= x.take(n));
        assert(step_bytes(b.drop_last()) =~= y.take(n));
        assert(a.last() == a[a.len() - 1] && b.last() == b[b.len() - 1]);
        assert(x[n] == op_byte(a.last().op) && y[n] == op_byte(b.last().op));
        assert(x[n + 1] == operand_bytes(a.last().left)[0]);
        assert(x[n + 2] == operand_bytes(a.last().left)[1]);
        assert(x[n + 3] == operand_bytes(a.last().right)[0]);
        assert(x[n + 4] == operand_bytes(a.last().right)[1]);
        assert(y[n + 1] == operand_bytes(b.last().left)[0]);
        assert(y[n + 2] == operand_bytes(b.last().left)[1]);
        assert(y[n + 3] == operand_bytes(b.last().right)[0]);
        assert(y[n + 4] == operand_bytes(b.last().right)[1]);
        lemma_operand_bytes(a.last().left, b.last().left);
        lemma_operand_bytes(a.last().right, b.last().right);
        assert(byte_sized(a.drop_last())) by {
            assert forall|i: int| 0 <= i < a.len() - 1 implies small_operand(
                (#[trigger] a.drop_last()[i]).left,
            ) && small_operand(a.drop_last()[i].right) by {
                assert(a.drop_last()[i] == a[i]);
            }
        }
        assert(byte_sized(b.drop_last())) by {
            assert forall|i: int| 0 <= i < b.len() - 1 implies small_operand(
                (#[trigger] b.drop_last()[i]).left,
            ) && small_operand(b.drop_last()[i].right) by {
                assert(b.drop_last()[i] == b[i]);
            }
        }
        lemma_step_bytes(a.drop_last(), b.drop_last());
        assert(a =~= a.drop_last().push(a.last()));
        assert(b =~= b.drop_last().push(b.last()));
    } else {
        assert(a =~= b);
    }
}

proof fn lemma_step_bytes_len(steps: Seq<ArithmeticStep>)
    ensures
        step_bytes(steps).len() == 5 * steps.len(),
    decreases steps.len(),
{
    if steps.len() > 0 {
        lemma_step_bytes_len(steps.drop_last());
    }
}

/// A group within the bounds refers to few leaves and few steps.
proof fn lemma_bounded_steps(group: BoundedModel)
    requires
        bounded_wf(group),
    ensures
        byte_sized(add_sub_steps(group.steps)),
{
    let steps = add_sub_steps(group.steps);
    assert forall|i: int| 0 <= i < steps.len() implies small_operand((#[trigger] steps[i]).left)
        && small_operand(steps[i].right) by {
        assert(refers_back(group.steps[i].left, group.leaves.len(), i as nat));
    }
}

proof fn lemma_mul_steps(group: MulModel)
    requires
        mul_wf(group),
    ensures
        byte_sized(mul_steps(group.steps)),
{
    let steps = mul_steps(group.steps);
    assert forall|i: int| 0 <= i < steps.len() implies small_operand((#[trigger] steps[i]).left)
        && small_operand(steps[i].right) by {
        assert(refers_back(group.steps[i].left, group.leaves.len(), i as nat));
    }
}

/// Two Add/Sub groups with the same bytes have the same kernel, over any number of elements and
/// for any scalar operands. A kernel that was compiled for one serves the other, whatever graph
/// the groups are from.
pub proof fn law_topology_determines_kernel(
    one: BoundedModel,
    other: BoundedModel,
    logical_count: u32,
    mask: u8,
)
    requires
        bounded_wf(one),
        bounded_wf(other),
        pointwise_topology(one) == pointwise_topology(other),
    ensures
        pointwise_kernel(one, logical_count, mask) == pointwise_kernel(other, logical_count, mask),
        one.leaves.len() == other.leaves.len(),
        add_sub_steps(one.steps) == add_sub_steps(other.steps),
{
    let x = pointwise_topology(one);
    let y = pointwise_topology(other);
    assert(x[0] == y[0] && x[1] == y[1] && x[2] == y[2]);
    assert(one.leaves.len() == other.leaves.len());
    assert(one.steps.len() == other.steps.len());
    assert(one.epilogue == other.epilogue);
    let a = add_sub_steps(one.steps);
    let b = add_sub_steps(other.steps);
    lemma_step_bytes_len(a);
    lemma_step_bytes_len(b);
    assert(step_bytes(a) =~= x.skip(3));
    assert(step_bytes(b) =~= y.skip(3));
    lemma_bounded_steps(one);
    lemma_bounded_steps(other);
    lemma_step_bytes(a, b);
}

/// Two Mul groups with the same bytes have the same kernel.
pub proof fn law_mul_topology_determines_kernel(
    one: MulModel,
    other: MulModel,
    logical_count: u32,
    mask: u8,
)
    requires
        mul_wf(one),
        mul_wf(other),
        mul_topology(one) == mul_topology(other),
    ensures
        mul_group_kernel(one, logical_count, mask) == mul_group_kernel(other, logical_count, mask),
        one.leaves.len() == other.leaves.len(),
        mul_steps(one.steps) == mul_steps(other.steps),
{
    let x = mul_topology(one);
    let y = mul_topology(other);
    assert(x[2] == y[2] && x[3] == y[3]);
    assert(one.leaves.len() == other.leaves.len());
    assert(one.steps.len() == other.steps.len());
    let a = mul_steps(one.steps);
    let b = mul_steps(other.steps);
    lemma_step_bytes_len(a);
    lemma_step_bytes_len(b);
    assert(step_bytes(a) =~= x.skip(4));
    assert(step_bytes(b) =~= y.skip(4));
    lemma_mul_steps(one);
    lemma_mul_steps(other);
    lemma_step_bytes(a, b);
}

/// No Add/Sub group has the bytes of a Mul group.
pub proof fn law_topologies_tell_operations_apart(sums: BoundedModel, products: MulModel)
    ensures
        pointwise_topology(sums) != mul_topology(products),
{
    assert(pointwise_topology(sums)[0] < 2);
    assert(mul_topology(products)[0] == 2);
}

/// The program of a group within the bounds can always be written down, for every set of scalar
/// leaves.
pub proof fn law_bounded_groups_are_buildable(group: BoundedModel, mask: u8)
    requires
        bounded_wf(group),
        mask < mask_limit(group.leaves.len()),
    ensures
        buildable(group.leaves.len(), add_sub_steps(group.steps), mask),
        countable_steps(group.leaves.len(), add_sub_steps(group.steps)),
{
    let steps = add_sub_steps(group.steps);
    assert(refers_back(group.steps[0].left, group.leaves.len(), 0));
    assert forall|i: int| 0 <= i < steps.len() implies operand_value(
        group.leaves.len(),
        (#[trigger] steps[i]).left,
    ) is Some && operand_value(group.leaves.len(), steps[i].right) is Some && countable_operand(
        group.leaves.len(),
        steps[i].left,
    ) && countable_operand(group.leaves.len(), steps[i].right) by {
        assert(refers_back(group.steps[i].left, group.leaves.len(), i as nat));
        assert(refers_back(group.steps[i].right, group.leaves.len(), i as nat));
    }
}

/// The same of Mul groups.
pub proof fn law_mul_groups_are_buildable(group: MulModel, mask: u8)
    requires
        mul_wf(group),
        mask < mask_limit(group.leaves.len()),
    ensures
        buildable(group.leaves.len(), mul_steps(group.steps), mask),
        countable_steps(group.leaves.len(), mul_steps(group.steps)),
{
    let steps = mul_steps(group.steps);
    assert(refers_back(group.steps[0].left, group.leaves.len(), 0));
    assert forall|i: int| 0 <= i < steps.len() implies operand_value(
        group.leaves.len(),
        (#[trigger] steps[i]).left,
    ) is Some && operand_value(group.leaves.len(), steps[i].right) is Some && countable_operand(
        group.leaves.len(),
        steps[i].left,
    ) && countable_operand(group.leaves.len(), steps[i].right) by {
        assert(refers_back(group.steps[i].left, group.leaves.len(), i as nat));
        assert(refers_back(group.steps[i].right, group.leaves.len(), i as nat));
    }
}

/// Each instruction of an Add/Sub program reads values that earlier instructions defined, and
/// defines the value after theirs.
pub proof fn law_operands_are_defined_before_use(group: BoundedModel, at: int)
    requires
        bounded_wf(group),
        0 <= at < group.steps.len(),
    ensures
        ({
            let leaves = group.leaves.len();
            let step = add_sub_steps(group.steps)[at];
            &&& 1 <= operand_value(leaves, step.left)->Some_0 < leaves + at + 1
            &&& 1 <= operand_value(leaves, step.right)->Some_0 < leaves + at + 1
        }),
{
    assert(refers_back(group.steps[at].left, group.leaves.len(), at as nat));
    assert(refers_back(group.steps[at].right, group.leaves.len(), at as nat));
}

} // verus!
