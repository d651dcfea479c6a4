//! What the machine declares to support: its operations, and the contract of its programs.
use vstd::prelude::*;

use super::dialect::{
    law_names_are_distinct, operation_named, ADD, DIALECT, DIALECT_MAJOR, DIALECT_MINOR, EMIT,
    INPUT, LITERAL, LITERAL_VALUE,
};
use crate::pcu::ir::{PcuScalarType, PcuValueType};

verus! {

/// What an operation does beside computing its result.
#[derive(Debug, Clone, Copy, PartialEq, Eq, Structural)]
pub struct PcuDialectEffects {
    pub reads_memory: bool,
    pub writes_memory: bool,
}

/// An operation: its name, the types of what it reads and defines, and its effects.
#[derive(Debug, Clone, PartialEq, Eq)]
pub struct PcuDialectOperationSpec {
    pub name: &'static str,
    pub input_types: Vec<PcuValueType>,
    pub result_type: Option<PcuValueType>,
    pub effects: PcuDialectEffects,
}

impl PcuDialectOperationSpec {
    /// The operation has this name, reads so many 32-bit words, and defines one or nothing.
    pub open spec fn declares(
        self,
        name: Seq<char>,
        inputs: nat,
        defines: bool,
        reads_memory: bool,
        writes_memory: bool,
    ) -> bool {
        let word = PcuValueType::Scalar(PcuScalarType::U32);
        &&& self.name@ == name
        &&& self.input_types@ == Seq::new(inputs, |i: int| word)
        &&& self.result_type == if defines {
            Some(word)
        } else {
            None
        }
        &&& self.effects == (PcuDialectEffects { reads_memory, writes_memory })
    }
}

/// A dialect with the versions, operations and effects that a consumer takes.
#[derive(Debug, Clone, PartialEq, Eq)]
pub struct PcuDialectSupport {
    pub dialect: &'static str,
    pub major: u16,
    pub min_minor: u16,
    pub max_minor: u16,
    pub operations: Vec<PcuDialectOperationSpec>,
    pub effects: PcuDialectEffects,
}

impl PcuDialectSupport {
    /// These are the dialect, the version and the operations of the machine.
    pub open spec fn of_machine(self) -> bool {
        &&& self.dialect@ == DIALECT@
        &&& self.major == DIALECT_MAJOR
        &&& self.min_minor == DIALECT_MINOR
        &&& self.max_minor == DIALECT_MINOR
        &&& self.operations@.len() == 4
        &&& self.operations@[0].declares(INPUT@, 0, true, true, false)
        &&& self.operations@[1].declares(ADD@, 2, true, false, false)
        &&& self.operations@[2].declares(EMIT@, 1, false, false, true)
        &&& self.operations@[3].declares(LITERAL@, 0, true, false, false)
        &&& self.effects == (PcuDialectEffects { reads_memory: true, writes_memory: true })
    }

    /// An operation of this name is declared.
    pub open spec fn lists(self, name: Seq<char>) -> bool {
        exists|i: int| 0 <= i < self.operations@.len() && (#[trigger] self.operations@[i]).name@ == name
    }
}

/// A named port of a program.
#[derive(Debug, Clone, Copy, PartialEq, Eq)]
pub struct PcuDialectPortSpec {
    pub name: &'static str,
    pub value_type: PcuValueType,
}

/// A named immediate.
#[derive(Debug, Clone, Copy, PartialEq, Eq)]
pub struct PcuDialectImmediateSpec {
    pub name: &'static str,
    pub scalar_type: PcuScalarType,
}

/// The immediates of an operation.
#[derive(Debug, Clone, PartialEq, Eq)]
pub struct PcuDialectOperationImmediateSpec {
    pub operation_name: &'static str,
    pub attributes: Vec<PcuDialectImmediateSpec>,
}

/// The contract of programs: their dialect, their ports and the immediates of their operations.
#[derive(Debug, Clone, PartialEq, Eq)]
pub struct PcuDialectProgramSupport {
    pub dialect_support: PcuDialectSupport,
    pub input_ports: Vec<PcuDialectPortSpec>,
    pub output_ports: Vec<PcuDialectPortSpec>,
    pub operation_immediates: Vec<PcuDialectOperationImmediateSpec>,
}

/// An operation on 32-bit words.
fn declare(
    name: &'static str,
    inputs: usize,
    defines: bool,
    reads_memory: bool,
    writes_memory: bool,
) -> (operation: PcuDialectOperationSpec)
    ensures
        operation.declares(name@, inputs as nat, defines, reads_memory, writes_memory),
{
    let word: PcuValueType = PcuValueType::Scalar(PcuScalarType::U32);
    let mut input_types: Vec<PcuValueType> = Vec::new();
    while input_types.len() < inputs
        invariant
            input_types@.len() <= inputs,
            forall|i: int| 0 <= i < input_types@.len() ==> #[trigger] input_types@[i] == word,
        decreases inputs - input_types@.len(),
    {
        input_types.push(word);
    }
    assert(input_types@ =~= Seq::new(inputs as nat, |i: int| word));
    PcuDialectOperationSpec {
        name,
        input_types,
        result_type: if defines {
            Some(word)
        } else {
            None
        },
        effects: PcuDialectEffects { reads_memory, writes_memory },
    }
}

/// The exact declaration of what [`super::execute::execute`] takes.
pub fn support() -> (support: PcuDialectSupport)
    ensures
        support.of_machine(),
{
    let mut operations: Vec<PcuDialectOperationSpec> = Vec::new();
    operations.push(declare(INPUT, 0, true, true, false));
    operations.push(declare(ADD, 2, true, false, false));
    operations.push(declare(EMIT, 1, false, false, true));
    operations.push(declare(LITERAL, 0, true, false, false));
    PcuDialectSupport {
        dialect: DIALECT,
        major: DIALECT_MAJOR,
        min_minor: DIALECT_MINOR,
        max_minor: DIALECT_MINOR,
        operations,
        effects: PcuDialectEffects { reads_memory: true, writes_memory: true },
    }
}

/// The contract of programs with a word `lhs` in and a word `sum` out, whose literals carry a word
/// `value`.
pub fn program_support() -> (support: PcuDialectProgramSupport)
    ensures
        support.dialect_support.of_machine(),
        support.input_ports@ == seq![
            PcuDialectPortSpec {
                name: "lhs",
                value_type: PcuValueType::Scalar(PcuScalarType::U32),
            },
        ],
        support.output_ports@ == seq![
            PcuDialectPortSpec {
                name: "sum",
                value_type: PcuValueType::Scalar(PcuScalarType::U32),
            },
        ],
        support.operation_immediates@.len() == 1,
        support.operation_immediates@[0].operation_name@ == LITERAL@,
        support.operation_immediates@[0].attributes@ == seq![
            PcuDialectImmediateSpec { name: LITERAL_VALUE, scalar_type: PcuScalarType::U32 },
        ],
{
    let value_type: PcuValueType = PcuValueType::Scalar(PcuScalarType::U32);
    PcuDialectProgramSupport {
        dialect_support: support(),
        input_ports: vec![PcuDialectPortSpec { name: "lhs", value_type }],
        output_ports: vec![PcuDialectPortSpec { name: "sum", value_type }],
        operation_immediates: vec![
            PcuDialectOperationImmediateSpec {
                operation_name: LITERAL,
                attributes: vec![
                    PcuDialectImmediateSpec {
                        name: LITERAL_VALUE,
                        scalar_type: PcuScalarType::U32,
                    },
                ],
            },
        ],
    }
}

/// The machine declares exactly the operations that it runs.
pub proof fn law_declared_operations_run(support: PcuDialectSupport, name: Seq<char>)
    requires
        support.of_machine(),
    ensures
        support.lists(name) <==> operation_named(name) is Some,
{
    law_names_are_distinct();
    assert(support.operations@[0].name@ == INPUT@);
    assert(support.operations@[1].name@ == ADD@);
    assert(support.operations@[2].name@ == EMIT@);
    assert(support.operations@[3].name@ == LITERAL@);
    if support.lists(name) {
        let i = choose|i: int|
            0 <= i < support.operations@.len() && (#[trigger] support.operations@[i]).name@ == name;
        assert(i == 0 || i == 1 || i == 2 || i == 3);
    }
}

} // verus!
