//! A machine that runs emitted modules.
//!
//! It reads a module word by word, goes by what the words say, and knows nothing of how they were
//! made.
use vstd::prelude::*;

verus! {

/// One instruction of a module.
#[verifier::ext_equal]
pub ghost struct Instruction {
    pub opcode: u32,
    pub operands: Seq<u32>,
}

/// The instructions of a module from a word on. The high half of the first word of an instruction
/// is its length, the low half says what it does.
pub open spec fn instructions_from(words: Seq<u32>, at: int) -> Seq<Instruction>
    decreases words.len() - at,
{
    if at >= words.len() {
        Seq::empty()
    } else {
        let length = (words[at] / 0x1_0000) as int;
        if length == 0 || at + length > words.len() {
            Seq::empty()
        } else {
            seq![
                Instruction {
                    opcode: (words[at] % 0x1_0000) as u32,
                    operands: words.subrange(at + 1, at + length),
                },
            ] + instructions_from(words, at + length)
        }
    }
}

/// The instructions of a module, which follow a header of five words.
pub open spec fn instructions(words: Seq<u32>) -> Seq<Instruction> {
    instructions_from(words, 5)
}

/// What the arithmetic instructions do to single numbers, and which invocation is run.
pub ghost struct Device {
    pub sum: spec_fn(u32, u32) -> u32,
    pub difference: spec_fn(u32, u32) -> u32,
    pub product: spec_fn(u32, u32) -> u32,
    pub quotient: spec_fn(u32, u32) -> u32,
    /// The components of the invocation's place in the dispatch.
    pub invocation: Seq<u32>,
}

/// What an invocation knows and what memory holds. Memory is addressed by descriptor set, binding
/// and element.
#[verifier::ext_equal]
pub ghost struct Machine {
    /// The numbers that identifiers stand for. A condition is one or zero.
    pub values: Map<u32, u32>,
    /// The variable and the path that each pointer stands for.
    pub pointers: Map<u32, (u32, Seq<u32>)>,
    /// The descriptor sets of variables.
    pub sets: Map<u32, u32>,
    /// The bindings of variables.
    pub bindings: Map<u32, u32>,
    /// The meaning of variables that the device supplies.
    pub supplied: Map<u32, u32>,
    pub memory: Map<(u32, u32, u32), u32>,
    /// The label of the block that is run.
    pub block: u32,
    /// The label of the block before.
    pub previous: u32,
}

/// One for a condition that holds, zero for one that does not.
pub open spec fn truth(holds: bool) -> u32 {
    if holds {
        1
    } else {
        0
    }
}

/// The sum of two words, which wraps around.
pub open spec fn wrapped_sum(left: u32, right: u32) -> u32 {
    if left + right < 0x1_0000_0000 {
        (left + right) as u32
    } else {
        (left + right - 0x1_0000_0000) as u32
    }
}

/// The difference of two words, which wraps around.
pub open spec fn wrapped_difference(left: u32, right: u32) -> u32 {
    if left >= right {
        (left - right) as u32
    } else {
        (left - right + 0x1_0000_0000) as u32
    }
}

impl Machine {
    /// Nothing is known yet.
    pub open spec fn fresh(memory: Map<(u32, u32, u32), u32>) -> Machine {
        Machine {
            values: Map::empty(),
            pointers: Map::empty(),
            sets: Map::empty(),
            bindings: Map::empty(),
            supplied: Map::empty(),
            memory,
            block: 0,
            previous: 0,
        }
    }

    /// An identifier stands for a number.
    pub open spec fn with(self, id: u32, value: u32) -> Machine {
        Machine { values: self.values.insert(id, value), ..self }
    }

    /// The address of a pointer into a buffer: the descriptor of its variable, and the element of
    /// the variable's only member, which is an array.
    pub open spec fn address(self, pointer: u32) -> (u32, u32, u32) {
        let (variable, path) = self.pointers[pointer];
        (self.sets[variable], self.bindings[variable], path[1])
    }

    /// The pointer leads into the first member of a buffer.
    pub open spec fn leads_to_element(self, pointer: u32) -> bool {
        let (variable, path) = self.pointers[pointer];
        path.len() == 2 && path[0] == 0
    }
}

impl Device {
    /// What one instruction that does not jump does.
    pub open spec fn step(self, machine: Machine, instruction: Instruction) -> Machine {
        let x = instruction.operands;
        let value = |at: int| machine.values[x[at]];
        match instruction.opcode {
            // OpConstant
            43 => machine.with(x[1], x[2]),
            // OpDecorate: BuiltIn, Binding, DescriptorSet
            71 => if x[1] == 11 {
                Machine { supplied: machine.supplied.insert(x[0], x[2]), ..machine }
            } else if x[1] == 33 {
                Machine { bindings: machine.bindings.insert(x[0], x[2]), ..machine }
            } else if x[1] == 34 {
                Machine { sets: machine.sets.insert(x[0], x[2]), ..machine }
            } else {
                machine
            },
            // OpAccessChain
            65 => Machine {
                pointers: machine.pointers.insert(
                    x[1],
                    (x[2], Seq::new((x.len() - 3) as nat, |i: int| machine.values[x[3 + i]])),
                ),
                ..machine
            },
            // OpLoad: a component of GlobalInvocationId, or an element of a buffer
            61 => {
                let (variable, path) = machine.pointers[x[2]];
                if machine.supplied.dom().contains(variable) && machine.supplied[variable] == 28 {
                    machine.with(x[1], self.invocation[path[0] as int])
                } else if machine.leads_to_element(x[2]) {
                    machine.with(x[1], machine.memory[machine.address(x[2])])
                } else {
                    machine
                }
            },
            // OpStore
            62 => if machine.leads_to_element(x[0]) {
                Machine {
                    memory: machine.memory.insert(machine.address(x[0]), machine.values[x[1]]),
                    ..machine
                }
            } else {
                machine
            },
            // OpFAdd, OpFSub, OpFMul, OpFDiv: the third operand is the left one
            129 => machine.with(x[1], (self.sum)(value(2), value(3))),
            131 => machine.with(x[1], (self.difference)(value(2), value(3))),
            133 => machine.with(x[1], (self.product)(value(2), value(3))),
            136 => machine.with(x[1], (self.quotient)(value(2), value(3))),
            // OpIAdd, OpISub
            128 => machine.with(x[1], wrapped_sum(value(2), value(3))),
            130 => machine.with(x[1], wrapped_difference(value(2), value(3))),
            // OpULessThan, OpULessThanEqual
            176 => machine.with(x[1], truth(value(2) < value(3))),
            178 => machine.with(x[1], truth(value(2) <= value(3))),
            // OpLogicalAnd
            167 => machine.with(x[1], truth(value(2) != 0 && value(3) != 0)),
            // OpSelect
            169 => machine.with(
                x[1],
                if value(2) != 0 {
                    value(3)
                } else {
                    value(4)
                },
            ),
            // OpPhi of two edges
            245 => machine.with(
                x[1],
                if machine.previous == x[3] {
                    value(2)
                } else {
                    value(4)
                },
            ),
            // OpLabel
            248 => Machine { block: x[0], ..machine },
            _ => machine,
        }
    }

    /// The machine after all of some instructions, none of which jumps.
    pub open spec fn after(self, machine: Machine, instructions: Seq<Instruction>) -> Machine
        decreases instructions.len(),
    {
        if instructions.len() == 0 {
            machine
        } else {
            self.step(self.after(machine, instructions.drop_last()), instructions.last())
        }
    }
}

/// The instruction jumps or returns.
pub open spec fn jumps(instruction: Instruction) -> bool {
    instruction.opcode == 249 || instruction.opcode == 250 || instruction.opcode == 253
}

/// The place of the label of a block, from a place on.
pub open spec fn label_from(program: Seq<Instruction>, at: int, label: u32) -> int
    decreases program.len() - at,
{
    if at >= program.len() {
        at
    } else if program[at].opcode == 248 && program[at].operands[0] == label {
        at
    } else {
        label_from(program, at + 1, label)
    }
}

impl Device {
    /// Runs a program from a place on, for so many instructions at most. The result is the machine
    /// at the return, if the program returns by then.
    pub open spec fn run(
        self,
        program: Seq<Instruction>,
        machine: Machine,
        at: int,
        limit: nat,
    ) -> Option<Machine>
        decreases limit,
    {
        if limit == 0 || at < 0 || at >= program.len() {
            None
        } else {
            let x = program[at].operands;
            let left = Machine { previous: machine.block, ..machine };
            let more = (limit - 1) as nat;
            match program[at].opcode {
                // OpReturn
                253 => Some(machine),
                // OpBranch
                249 => self.run(program, left, label_from(program, 0, x[0]), more),
                // OpBranchConditional
                250 => self.run(
                    program,
                    left,
                    label_from(
                        program,
                        0,
                        if machine.values[x[0]] != 0 {
                            x[1]
                        } else {
                            x[2]
                        },
                    ),
                    more,
                ),
                _ => self.run(program, self.step(machine, program[at]), at + 1, more),
            }
        }
    }

    /// The module returns, and then memory holds this.
    pub open spec fn leaves(
        self,
        words: Seq<u32>,
        memory: Map<(u32, u32, u32), u32>,
        left: Map<(u32, u32, u32), u32>,
    ) -> bool {
        exists|limit: nat|
            (#[trigger] self.run(
                instructions(words),
                Machine::fresh(memory),
                0,
                limit,
            )) matches Some(machine) && machine.memory == left
    }
}

/// More time changes nothing once a program has returned.
pub proof fn lemma_run_longer(
    device: Device,
    program: Seq<Instruction>,
    machine: Machine,
    at: int,
    limit: nat,
    more: nat,
)
    requires
        device.run(program, machine, at, limit) is Some,
        limit <= more,
    ensures
        device.run(program, machine, at, more) == device.run(program, machine, at, limit),
    decreases limit,
{
    if limit > 0 && 0 <= at < program.len() {
        let x = program[at].operands;
        let left = Machine { previous: machine.block, ..machine };
        let (less, rest) = ((limit - 1) as nat, (more - 1) as nat);
        match program[at].opcode {
            253 => {},
            249 => {
                lemma_run_longer(device, program, left, label_from(program, 0, x[0]), less, rest);
            },
            250 => {
                let label = if machine.values[x[0]] != 0 {
                    x[1]
                } else {
                    x[2]
                };
                lemma_run_longer(device, program, left, label_from(program, 0, label), less, rest);
            },
            _ => {
                lemma_run_longer(
                    device,
                    program,
                    device.step(machine, program[at]),
                    at + 1,
                    less,
                    rest,
                );
            },
        }
    }
}

/// A module leaves one memory only.
pub proof fn law_modules_leave_one_memory(
    device: Device,
    words: Seq<u32>,
    memory: Map<(u32, u32, u32), u32>,
    one: Map<(u32, u32, u32), u32>,
    other: Map<(u32, u32, u32), u32>,
)
    requires
        device.leaves(words, memory, one),
        device.leaves(words, memory, other),
    ensures
        one == other,
{
    let program = instructions(words);
    let start = Machine::fresh(memory);
    let first = choose|limit: nat|
        (#[trigger] device.run(program, start, 0, limit)) matches Some(machine) && machine.memory
            == one;
    let second = choose|limit: nat|
        (#[trigger] device.run(program, start, 0, limit)) matches Some(machine) && machine.memory
            == other;
    let most = if first <= second {
        second
    } else {
        first
    };
    lemma_run_longer(device, program, start, 0, first, most);
    lemma_run_longer(device, program, start, 0, second, most);
}

/// Instructions that do not jump are run one after the other.
pub proof fn lemma_run_plain(
    device: Device,
    program: Seq<Instruction>,
    machine: Machine,
    at: int,
    count: nat,
    limit: nat,
)
    requires
        0 <= at,
        at + count <= program.len(),
        forall|i: int| at <= i < at + count ==> !jumps(#[trigger] program[i]),
    ensures
        device.run(program, machine, at, limit + count) == device.run(
            program,
            device.after(machine, program.subrange(at, at + count)),
            at + count,
            limit,
        ),
    decreases count,
{
    let part = program.subrange(at, at + count);
    if count == 0 {
        assert(part.len() == 0);
    } else {
        let fewer = (count - 1) as nat;
        let last = at + count - 1;
        lemma_run_plain(device, program, machine, at, fewer, limit + 1);
        assert(part.drop_last() =~= program.subrange(at, at + fewer));
        assert(part.last() == program[last]);
        assert(!jumps(program[last]));
        assert(limit + 1 + fewer == limit + count);
    }
}

} // verus!
