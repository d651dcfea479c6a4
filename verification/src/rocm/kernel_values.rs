//! What one invocation of a kernel computes.
use vstd::prelude::*;

use super::kernels::{masked, operand_index, RocmAluOp, RocmKernelOp, TensorDispatchKind};
use super::programs::{
    add_sub_steps, leaf_loads, mul_group_kernel, mul_steps, operand_value, pointwise_kernel,
    program_end, program_ops, step_ops, ArithmeticStep,
};
use crate::pcu::ir::PcuDispatchIndex;
use crate::tensor::lowered_values::{operand_element, step_elements, ElementRules};
use crate::tensor::groups::{
    bounded_wf, mul_wf, refers_back, BoundedModel, MulModel, TensorPointwiseOperand,
};
use crate::tensor::lowering::{mul_pairs, step_pairs};

verus! {

/// What the arithmetic instructions of a kernel do to single elements.
pub ghost struct KernelRules {
    pub sum: spec_fn(u32, u32) -> u32,
    pub difference: spec_fn(u32, u32) -> u32,
    pub product: spec_fn(u32, u32) -> u32,
    pub larger: spec_fn(u32, u32) -> u32,
}

/// The values that an invocation has computed, and the elements that it has written to bindings.
#[verifier::ext_equal]
pub ghost struct Invocation {
    pub values: Map<u16, u32>,
    pub written: Map<u32, u32>,
}

impl KernelRules {
    /// One arithmetic instruction.
    pub open spec fn computed(self, op: RocmAluOp, left: u32, right: u32) -> u32 {
        match op {
            RocmAluOp::Add => (self.sum)(left, right),
            RocmAluOp::Sub => (self.difference)(left, right),
            RocmAluOp::Mul => (self.product)(left, right),
            RocmAluOp::Max => (self.larger)(left, right),
        }
    }

    /// What the operations of a graph do to single elements under these rules.
    pub open spec fn elements(self) -> ElementRules {
        ElementRules {
            sum: self.sum,
            difference: self.difference,
            product: self.product,
            rectified: |value: u32| (self.larger)(value, 0),
        }
    }

    /// The invocation after one more instruction. `loaded` is what the bindings hold.
    pub open spec fn after(
        self,
        state: Invocation,
        op: RocmKernelOp,
        loaded: spec_fn(u32, PcuDispatchIndex) -> u32,
    ) -> Invocation {
        match op {
            RocmKernelOp::BindingLoad { result, binding, index } => Invocation {
                values: state.values.insert(result.0, loaded(binding.binding, index)),
                ..state
            },
            RocmKernelOp::Constant { result, bits } => Invocation {
                values: state.values.insert(result.0, bits),
                ..state
            },
            RocmKernelOp::Alu { result, op, lhs, rhs } => Invocation {
                values: state.values.insert(
                    result.0,
                    self.computed(op, state.values[lhs.0], state.values[rhs.0]),
                ),
                ..state
            },
            RocmKernelOp::BindingStore { binding, index: _, value } => Invocation {
                written: state.written.insert(binding.binding, state.values[value.0]),
                ..state
            },
            RocmKernelOp::Return => state,
        }
    }

    /// The invocation after the first `count` instructions.
    pub open spec fn run(
        self,
        ops: Seq<RocmKernelOp>,
        count: nat,
        loaded: spec_fn(u32, PcuDispatchIndex) -> u32,
    ) -> Invocation
        decreases count,
    {
        if count == 0 {
            Invocation { values: Map::empty(), written: Map::empty() }
        } else {
            self.after(self.run(ops, (count - 1) as nat, loaded), ops[count - 1], loaded)
        }
    }

    /// What an invocation writes.
    pub open spec fn writes(
        self,
        ops: Seq<RocmKernelOp>,
        loaded: spec_fn(u32, PcuDispatchIndex) -> u32,
    ) -> Map<u32, u32> {
        self.run(ops, ops.len(), loaded).written
    }
}

/// The elements that a kernel reads as its operands: its own element of each, or the first one
/// where the operand is one scalar.
pub open spec fn operand_elements(
    loaded: spec_fn(u32, PcuDispatchIndex) -> u32,
    operands: nat,
    mask: u8,
) -> Seq<u32> {
    Seq::new(operands, |i: int| loaded(i as u32, operand_index(masked(mask, i as u8))))
}

/// Each fixed kernel writes one element, to the binding after its operands: the sum, difference or
/// product of its operands, the rectified operand or sum, or the square of the difference.
pub proof fn law_fixed_kernels_compute_their_operation(
    kind: TensorDispatchKind,
    logical_count: u32,
    mask: u8,
    rules: KernelRules,
    loaded: spec_fn(u32, PcuDispatchIndex) -> u32,
)
    ensures
        ({
            let read = operand_elements(
                loaded,
                2,
                if kind.takes_scalars() {
                    mask
                } else {
                    0
                },
            );
            rules.writes(kind.model(logical_count, mask).ops, loaded) == match kind {
                TensorDispatchKind::Add => map![2u32 => (rules.sum)(read[0], read[1])],
                TensorDispatchKind::Sub => map![2u32 => (rules.difference)(read[0], read[1])],
                TensorDispatchKind::Mul => map![2u32 => (rules.product)(read[0], read[1])],
                TensorDispatchKind::AddRelu => map![
                    2u32 => (rules.elements().rectified)((rules.sum)(read[0], read[1])),
                ],
                TensorDispatchKind::Relu => map![1u32 => (rules.elements().rectified)(read[0])],
                TensorDispatchKind::SquaredDifference => {
                    let difference = (rules.difference)(read[0], read[1]);
                    map![2u32 => (rules.product)(difference, difference)]
                },
            }
        }),
{
    reveal_with_fuel(KernelRules::run, 8);
    assert(0u8 & (1u8 << 0u8) == 0) by (bit_vector);
    assert(0u8 & (1u8 << 1u8) == 0) by (bit_vector);
    let ops = kind.model(logical_count, mask).ops;
    let read = operand_elements(
        loaded,
        2,
        if kind.takes_scalars() {
            mask
        } else {
            0
        },
    );
    let scalars = kind.takes_scalars();
    assert(read[0] == loaded(0, operand_index(scalars && masked(mask, 0))));
    assert(read[1] == loaded(1, operand_index(scalars && masked(mask, 1))));
}

/// The operands of the instructions of a program.
spec fn operand_pairs(steps: Seq<ArithmeticStep>) -> Seq<
    (TensorPointwiseOperand, TensorPointwiseOperand),
> {
    steps.map_values(|step: ArithmeticStep| (step.left, step.right))
}

/// Instructions that do the same to elements compute the same elements.
proof fn lemma_same_elements(
    one: spec_fn(int, u32, u32) -> u32,
    other: spec_fn(int, u32, u32) -> u32,
    leaves: Seq<u32>,
    pairs: Seq<(TensorPointwiseOperand, TensorPointwiseOperand)>,
    count: nat,
)
    requires
        forall|i: int, left: u32, right: u32|
            0 <= i < count ==> #[trigger] one(i, left, right) == other(i, left, right),
    ensures
        step_elements(one, leaves, pairs, count) == step_elements(other, leaves, pairs, count),
    decreases count,
{
    if count > 0 {
        lemma_same_elements(one, other, leaves, pairs, (count - 1) as nat);
    }
}

/// What the instructions of a program do to elements.
spec fn applied(rules: KernelRules, steps: Seq<ArithmeticStep>) -> spec_fn(int, u32, u32) -> u32 {
    |i: int, left: u32, right: u32| rules.computed(steps[i].op, left, right)
}

/// The leaves and the results of the first `done` arithmetic instructions have been computed, and
/// nothing has been written.
spec fn underway(
    state: Invocation,
    leaves: Seq<u32>,
    results: Seq<u32>,
    loaded: nat,
    done: nat,
) -> bool {
    &&& state.written == Map::<u32, u32>::empty()
    &&& results.len() == done
    &&& forall|i: int| 0 <= i < loaded ==> state.values[(i + 1) as u16] == #[trigger] leaves[i]
    &&& forall|j: int|
        0 <= j < done ==> state.values[(leaves.len() + j + 1) as u16] == #[trigger] results[j]
}

/// After the loads every leaf is there.
proof fn lemma_leaves_loaded(
    rules: KernelRules,
    ops: Seq<RocmKernelOp>,
    loaded: spec_fn(u32, PcuDispatchIndex) -> u32,
    leaves: nat,
    mask: u8,
    count: nat,
)
    requires
        count <= leaves <= 4,
        leaves <= ops.len(),
        forall|i: int| 0 <= i < leaves ==> #[trigger] ops[i] == leaf_loads(leaves, mask)[i],
    ensures
        underway(
            rules.run(ops, count, loaded),
            operand_elements(loaded, leaves, mask),
            Seq::empty(),
            count,
            0,
        ),
    decreases count,
{
    if count > 0 {
        lemma_leaves_loaded(rules, ops, loaded, leaves, mask, (count - 1) as nat);
        assert(ops[count - 1] == leaf_loads(leaves, mask)[count - 1]);
    }
}

/// After the arithmetic instructions every result is there.
proof fn lemma_steps_computed(
    rules: KernelRules,
    ops: Seq<RocmKernelOp>,
    loaded: spec_fn(u32, PcuDispatchIndex) -> u32,
    leaves: nat,
    steps: Seq<ArithmeticStep>,
    mask: u8,
    count: nat,
)
    requires
        leaves <= 4,
        count <= steps.len() <= 8,
        leaves + steps.len() <= ops.len(),
        forall|i: int| 0 <= i < leaves ==> #[trigger] ops[i] == leaf_loads(leaves, mask)[i],
        forall|i: int|
            0 <= i < steps.len() ==> ops[leaves + i] == #[trigger] step_ops(leaves, steps)[i],
        forall|i: int|
            0 <= i < steps.len() ==> refers_back((#[trigger] steps[i]).left, leaves, i as nat)
                && refers_back(steps[i].right, leaves, i as nat),
    ensures
        underway(
            rules.run(ops, leaves + count, loaded),
            operand_elements(loaded, leaves, mask),
            step_elements(
                applied(rules, steps),
                operand_elements(loaded, leaves, mask),
                operand_pairs(steps),
                count,
            ),
            leaves,
            count,
        ),
    decreases count,
{
    if count == 0 {
        lemma_leaves_loaded(rules, ops, loaded, leaves, mask, leaves);
    } else {
        let before = (count - 1) as nat;
        lemma_steps_computed(rules, ops, loaded, leaves, steps, mask, before);
        let read = operand_elements(loaded, leaves, mask);
        let state = rules.run(ops, leaves + before, loaded);
        let results = step_elements(applied(rules, steps), read, operand_pairs(steps), before);
        let step = steps[before as int];
        assert(ops[(leaves + before) as int] == step_ops(leaves, steps)[before as int]);
        assert(operand_pairs(steps)[before as int] == (step.left, step.right));
        assert(refers_back(step.left, leaves, before));
        lemma_operand(state, read, results, leaves, before, step.left);
        lemma_operand(state, read, results, leaves, before, step.right);
        assert((leaves + count - 1) as nat == leaves + before);
        assert(rules.run(ops, leaves + count, loaded) == rules.after(
            state,
            ops[(leaves + before) as int],
            loaded,
        ));
    }
}

/// An operand of an instruction names the value that holds its element.
proof fn lemma_operand(
    state: Invocation,
    leaves: Seq<u32>,
    results: Seq<u32>,
    count: nat,
    done: nat,
    operand: TensorPointwiseOperand,
)
    requires
        underway(state, leaves, results, count, done),
        leaves.len() == count <= 4,
        done <= 8,
        refers_back(operand, count, done),
    ensures
        state.values[operand_value(count, operand)->Some_0] == operand_element(
            leaves,
            results,
            operand,
        ),
{
    match operand {
        TensorPointwiseOperand::Leaf(at) => {
            assert(state.values[(at + 1) as u16] == leaves[at as int]);
        },
        TensorPointwiseOperand::Step(at) => {
            assert(state.values[(leaves.len() + at + 1) as u16] == results[at as int]);
        },
    }
}

/// A program writes one element, to the binding after its leaves: the result of its last
/// arithmetic instruction, rectified where it ends so.
proof fn lemma_program_writes(
    rules: KernelRules,
    loaded: spec_fn(u32, PcuDispatchIndex) -> u32,
    leaves: nat,
    steps: Seq<ArithmeticStep>,
    relu: bool,
    mask: u8,
)
    requires
        leaves <= 4,
        1 <= steps.len() <= 8,
        forall|i: int|
            0 <= i < steps.len() ==> refers_back((#[trigger] steps[i]).left, leaves, i as nat)
                && refers_back(steps[i].right, leaves, i as nat),
    ensures
        ({
            let total = step_elements(
                applied(rules, steps),
                operand_elements(loaded, leaves, mask),
                operand_pairs(steps),
                steps.len(),
            ).last();
            rules.writes(program_ops(leaves, steps, relu, mask), loaded) == map![
                leaves as u32 => if relu {
                    (rules.elements().rectified)(total)
                } else {
                    total
                },
            ]
        }),
{
    let ops = program_ops(leaves, steps, relu, mask);
    let terminal = leaves + steps.len();
    let end = program_end(leaves, terminal, relu);
    assert forall|i: int| 0 <= i < leaves implies #[trigger] ops[i] == leaf_loads(
        leaves,
        mask,
    )[i] by {}
    assert forall|i: int| 0 <= i < steps.len() implies ops[leaves + i] == #[trigger] step_ops(
        leaves,
        steps,
    )[i] by {}
    lemma_steps_computed(rules, ops, loaded, leaves, steps, mask, steps.len());
    let state = rules.run(ops, terminal, loaded);
    let results = step_elements(
        applied(rules, steps),
        operand_elements(loaded, leaves, mask),
        operand_pairs(steps),
        steps.len(),
    );
    assert(state.values[terminal as u16] == results[steps.len() - 1]);
    assert(ops[terminal as int] == end[0]);
    assert(ops[(terminal + 1) as int] == end[1]);
    assert(rules.run(ops, terminal + 1, loaded) == rules.after(state, end[0], loaded));
    assert(rules.run(ops, terminal + 2, loaded) == rules.after(
        rules.run(ops, terminal + 1, loaded),
        end[1],
        loaded,
    ));
    if relu {
        assert(ops[(terminal + 2) as int] == end[2]);
        assert(ops[(terminal + 3) as int] == end[3]);
        assert(rules.run(ops, terminal + 3, loaded) == rules.after(
            rules.run(ops, terminal + 2, loaded),
            end[2],
            loaded,
        ));
        assert(rules.run(ops, terminal + 4, loaded) == rules.after(
            rules.run(ops, terminal + 3, loaded),
            end[3],
            loaded,
        ));
    }
}

/// The kernel of an Add/Sub group writes one element, to the binding after its leaves: what the
/// group computes from the elements of its leaves, every step rounded as in the source.
pub proof fn law_group_kernels_compute_their_group(
    group: BoundedModel,
    logical_count: u32,
    mask: u8,
    rules: KernelRules,
    loaded: spec_fn(u32, PcuDispatchIndex) -> u32,
)
    requires
        bounded_wf(group),
    ensures
        rules.writes(pointwise_kernel(group, logical_count, mask).ops, loaded) == map![
            group.leaves.len() as u32 => rules.elements().bounded(
                group,
                operand_elements(loaded, group.leaves.len(), mask),
            ),
        ],
{
    let steps = add_sub_steps(group.steps);
    let leaves = group.leaves.len();
    assert forall|i: int| 0 <= i < steps.len() implies refers_back(
        (#[trigger] steps[i]).left,
        leaves,
        i as nat,
    ) && refers_back(steps[i].right, leaves, i as nat) by {
        assert(refers_back(group.steps[i].left, leaves, i as nat));
    }
    lemma_program_writes(rules, loaded, leaves, steps, group.epilogue is Relu, mask);
    assert(operand_pairs(steps) =~= step_pairs(group.steps));
    lemma_same_elements(
        applied(rules, steps),
        rules.elements().sums_of(group.steps),
        operand_elements(loaded, leaves, mask),
        step_pairs(group.steps),
        steps.len(),
    );
}

/// The same of the kernel of a Mul group.
pub proof fn law_mul_group_kernels_compute_their_group(
    group: MulModel,
    logical_count: u32,
    mask: u8,
    rules: KernelRules,
    loaded: spec_fn(u32, PcuDispatchIndex) -> u32,
)
    requires
        mul_wf(group),
    ensures
        rules.writes(mul_group_kernel(group, logical_count, mask).ops, loaded) == map![
            group.leaves.len() as u32 => rules.elements().multiplied(
                group,
                operand_elements(loaded, group.leaves.len(), mask),
            ),
        ],
{
    let steps = mul_steps(group.steps);
    let leaves = group.leaves.len();
    assert forall|i: int| 0 <= i < steps.len() implies refers_back(
        (#[trigger] steps[i]).left,
        leaves,
        i as nat,
    ) && refers_back(steps[i].right, leaves, i as nat) by {
        assert(refers_back(group.steps[i].left, leaves, i as nat));
    }
    lemma_program_writes(rules, loaded, leaves, steps, false, mask);
    assert(operand_pairs(steps) =~= mul_pairs(group.steps));
    lemma_same_elements(
        applied(rules, steps),
        rules.elements().products_of(),
        operand_elements(loaded, leaves, mask),
        mul_pairs(group.steps),
        steps.len(),
    );
}

} // verus!
