//! The dialect that the machine implements, and fragments of it.
use vstd::prelude::*;

use super::names::same_name;

verus! {

/// Stable identity of the dialect.
pub const DIALECT: &'static str = "org.fusion.vm-reference";

/// Major version accepted by this machine.
pub const DIALECT_MAJOR: u16 = 1;

/// Only this minor version is currently implemented.
pub const DIALECT_MINOR: u16 = 0;

pub const INPUT: &'static str = "input.u32";

pub const ADD: &'static str = "add.u32";

pub const EMIT: &'static str = "emit.u32";

pub const LITERAL: &'static str = "literal.u32";

/// The immediate that a literal carries.
pub const LITERAL_VALUE: &'static str = "value";

/// A fragment-local SSA value.
#[derive(Debug, Clone, Copy, PartialEq, Eq, Structural)]
pub struct PcuDialectValueId(pub u16);

/// Why the model's validators refuse a fragment or a program, as a number of theirs.
#[derive(Debug, Clone, Copy, PartialEq, Eq, Structural)]
pub struct PcuDialectValidationError(pub u32);

/// One operation: its name, the values it reads and the value it defines.
#[derive(Debug, Clone, Copy, PartialEq, Eq)]
pub struct PcuDialectOperation<'a> {
    pub name: &'a str,
    pub inputs: [PcuDialectValueId; 4],
    pub result: Option<PcuDialectValueId>,
}

/// A list of operations. `verdict` is what validating it against the dialect gave.
#[derive(Debug, Clone, Copy, PartialEq, Eq)]
pub struct PcuDialectFragment<'a> {
    pub operations: &'a [PcuDialectOperation<'a>],
    pub verdict: Result<(), PcuDialectValidationError>,
}

/// What an operation does.
#[derive(Debug, Clone, Copy, PartialEq, Eq, Structural)]
pub enum VmOperation {
    Input,
    Emit,
    Add,
    Literal,
}

/// The operation with this name.
pub open spec fn operation_named(name: Seq<char>) -> Option<VmOperation> {
    if name == INPUT@ {
        Some(VmOperation::Input)
    } else if name == EMIT@ {
        Some(VmOperation::Emit)
    } else if name == ADD@ {
        Some(VmOperation::Add)
    } else if name == LITERAL@ {
        Some(VmOperation::Literal)
    } else {
        None
    }
}

/// The operation with this name.
pub fn find_operation(name: &str) -> (operation: Option<VmOperation>)
    ensures
        operation == operation_named(name@),
{
    if same_name(name, INPUT) {
        Some(VmOperation::Input)
    } else if same_name(name, EMIT) {
        Some(VmOperation::Emit)
    } else if same_name(name, ADD) {
        Some(VmOperation::Add)
    } else if same_name(name, LITERAL) {
        Some(VmOperation::Literal)
    } else {
        None
    }
}

/// The four operations have names of their own.
pub proof fn law_names_are_distinct()
    ensures
        operation_named(INPUT@) == Some(VmOperation::Input),
        operation_named(EMIT@) == Some(VmOperation::Emit),
        operation_named(ADD@) == Some(VmOperation::Add),
        operation_named(LITERAL@) == Some(VmOperation::Literal),
{
    reveal_strlit("input.u32");
    reveal_strlit("emit.u32");
    reveal_strlit("add.u32");
    reveal_strlit("literal.u32");
    assert(INPUT@.len() == 9 && EMIT@.len() == 8 && ADD@.len() == 7 && LITERAL@.len() == 11);
}

/// One of the first `at` operations defines `value`.
pub open spec fn results_hold(
    operations: Seq<PcuDialectOperation>,
    at: int,
    value: PcuDialectValueId,
) -> bool {
    exists|i: int| 0 <= i < at && #[trigger] operations[i].result == Some(value)
}

/// What an accepted operation is known to have: a name of the dialect, its result, and operands
/// that `defined` holds of.
pub open spec fn operation_conforms(
    operation: PcuDialectOperation,
    defined: spec_fn(PcuDialectValueId) -> bool,
) -> bool {
    match operation_named(operation.name@) {
        Some(VmOperation::Input) | Some(VmOperation::Literal) => operation.result is Some,
        Some(VmOperation::Add) => {
            &&& operation.result is Some
            &&& defined(operation.inputs@[0])
            &&& defined(operation.inputs@[1])
        },
        Some(VmOperation::Emit) => {
            &&& operation.result is None
            &&& defined(operation.inputs@[0])
        },
        None => false,
    }
}

impl<'a> PcuDialectFragment<'a> {
    /// A fragment that the validator accepts conforms to the dialect: every operation reads only
    /// what earlier operations define.
    pub open spec fn wf(self) -> bool {
        self.verdict is Ok ==> forall|i: int|
            0 <= i < self.operations@.len() ==> operation_conforms(
                #[trigger] self.operations@[i],
                |value: PcuDialectValueId| results_hold(self.operations@, i, value),
            )
    }
}

/// The sum of two numbers modulo two to the 32nd.
pub open spec fn wrapped_sum(left: u32, right: u32) -> u32 {
    ((left + right) % 0x1_0000_0000) as u32
}

/// How large the value storage has to be for the results of the first `count` operations.
pub open spec fn results_required(operations: Seq<PcuDialectOperation>, count: nat) -> nat
    decreases count,
{
    if count == 0 {
        0
    } else {
        let before = results_required(operations, (count - 1) as nat);
        match operations[count - 1].result {
            Some(value) => if value.0 + 1 > before {
                (value.0 + 1) as nat
            } else {
                before
            },
            None => before,
        }
    }
}

/// Storage that is large enough holds every defined value.
pub proof fn lemma_results_required(operations: Seq<PcuDialectOperation>, count: nat)
    requires
        count <= operations.len(),
    ensures
        results_required(operations, count) <= 0x1_0000,
        forall|i: int|
            0 <= i < count && (#[trigger] operations[i].result) is Some ==> (
            operations[i].result->0).0 < results_required(operations, count),
    decreases count,
{
    if count > 0 {
        lemma_results_required(operations, (count - 1) as nat);
    }
}

} // verus!
