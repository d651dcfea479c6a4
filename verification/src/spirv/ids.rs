//! The result identifiers of a data-flow module.
//!
//! The fixed identifiers come first. After them stand one for each binding, one for each value,
//! one for each operation's pointer and, in a kernel with a loop, those of the loop.
use vstd::prelude::*;

use super::dataflow::{has_loop, some_loop};
use super::error::PcuSpirvError;
use crate::pcu::ir::{PcuDispatchDataOp, PcuDispatchKernelIr, PcuDispatchOp, PcuDispatchOpKind};

verus! {

/// The identifier of the first binding's variable.
pub const DATAFLOW_BINDING_VAR_BASE_ID: u32 = 19;

/// How many identifiers a loop takes.
pub const DATAFLOW_LOOP_AUX_ID_COUNT: u32 = 14;

/// The number of the value that an operation defines or stores, or zero.
pub open spec fn value_number(op: PcuDispatchOp) -> nat {
    match op.kind {
        PcuDispatchOpKind::Data(PcuDispatchDataOp::BindingLoad { result, .. }) => result.0 as nat,
        PcuDispatchOpKind::Data(PcuDispatchDataOp::Constant { result, .. }) => result.0 as nat,
        PcuDispatchOpKind::Data(PcuDispatchDataOp::Alu { result, .. }) => result.0 as nat,
        PcuDispatchOpKind::Data(PcuDispatchDataOp::BindingStore { value, .. }) => value.0 as nat,
        _ => 0,
    }
}

/// The larger of two numbers.
pub open spec fn larger(a: nat, b: nat) -> nat {
    if a >= b {
        a
    } else {
        b
    }
}

/// The largest value number of the first `count` operations.
pub open spec fn largest_flat(ops: Seq<PcuDispatchOp>, count: nat) -> nat
    decreases count,
{
    if count == 0 {
        0
    } else {
        larger(largest_flat(ops, (count - 1) as nat), value_number(ops[count - 1]))
    }
}

/// The operations of a loop's body; those of any other operation are none.
pub open spec fn body_of(op: PcuDispatchOp) -> Seq<PcuDispatchOp> {
    match op.kind {
        PcuDispatchOpKind::GridStrideLoop { body, .. } => body@,
        _ => Seq::empty(),
    }
}

/// The largest value number of the first `count` operations and their bodies.
pub open spec fn largest_value(ops: Seq<PcuDispatchOp>, count: nat) -> nat
    decreases count,
{
    if count == 0 {
        0
    } else {
        larger(
            largest_value(ops, (count - 1) as nat),
            larger(
                value_number(ops[count - 1]),
                largest_flat(body_of(ops[count - 1]), body_of(ops[count - 1]).len()),
            ),
        )
    }
}

/// How many operations there are, the bodies of loops counted in.
pub open spec fn op_places(ops: Seq<PcuDispatchOp>, count: nat) -> nat
    decreases count,
{
    if count == 0 {
        0
    } else {
        op_places(ops, (count - 1) as nat) + body_of(ops[count - 1]).len() + 1
    }
}

/// The identifier before the first value's.
pub open spec fn value_base(kernel: PcuDispatchKernelIr) -> nat {
    DATAFLOW_BINDING_VAR_BASE_ID as nat + kernel.bindings@.len()
}

/// The identifier of the first operation's pointer.
pub open spec fn pointer_base(kernel: PcuDispatchKernelIr) -> nat {
    value_base(kernel) + largest_value(kernel.ops@, kernel.ops@.len())
}

/// The first identifier of a loop.
pub open spec fn loop_base(kernel: PcuDispatchKernelIr) -> nat {
    pointer_base(kernel) + op_places(kernel.ops@, kernel.ops@.len())
}

/// The number above every identifier.
pub open spec fn id_bound(kernel: PcuDispatchKernelIr) -> nat {
    loop_base(kernel) + if some_loop(kernel.ops@) {
        DATAFLOW_LOOP_AUX_ID_COUNT as nat
    } else {
        0
    }
}

/// Where the groups of identifiers of a data-flow module start.
#[derive(Clone, Copy, Debug)]
pub struct DataflowIds {
    pub value_base: u32,
    pub pointer_base: u32,
    pub loop_base: u32,
    pub bound: u32,
}

impl DataflowIds {
    /// These are the identifiers of `kernel`.
    pub open spec fn belong_to(self, kernel: PcuDispatchKernelIr) -> bool {
        &&& self.value_base == value_base(kernel)
        &&& self.pointer_base == pointer_base(kernel)
        &&& self.loop_base == loop_base(kernel)
        &&& self.bound == id_bound(kernel)
    }
}

proof fn lemma_largest_flat(ops: Seq<PcuDispatchOp>, count: nat)
    requires
        count <= ops.len(),
    ensures
        largest_flat(ops, count) <= u16::MAX,
        forall|i: int|
            0 <= i < count ==> value_number(#[trigger] ops[i]) <= largest_flat(ops, count),
    decreases count,
{
    if count > 0 {
        lemma_largest_flat(ops, (count - 1) as nat);
    }
}

/// No operation among the first `count` has a larger value number than the largest.
pub proof fn lemma_largest_value(ops: Seq<PcuDispatchOp>, count: nat)
    requires
        count <= ops.len(),
    ensures
        largest_value(ops, count) <= u16::MAX,
        forall|i: int|
            0 <= i < count ==> value_number(#[trigger] ops[i]) <= largest_value(ops, count),
        forall|i: int, j: int|
            0 <= i < count && 0 <= j < body_of(ops[i]).len() ==> value_number(
                #[trigger] body_of(ops[i])[j],
            ) <= largest_value(ops, count),
    decreases count,
{
    if count > 0 {
        lemma_largest_value(ops, (count - 1) as nat);
        lemma_largest_flat(body_of(ops[count - 1]), body_of(ops[count - 1]).len());
    }
}

/// The number of a value that an operation defines or stores, or zero.
fn recorded_value(op: &PcuDispatchOp) -> (number: u16)
    ensures
        number == value_number(*op),
{
    match &op.kind {
        PcuDispatchOpKind::Data(PcuDispatchDataOp::BindingLoad { result, .. }) => result.0,
        PcuDispatchOpKind::Data(PcuDispatchDataOp::Constant { result, .. }) => result.0,
        PcuDispatchOpKind::Data(PcuDispatchDataOp::Alu { result, .. }) => result.0,
        PcuDispatchOpKind::Data(PcuDispatchDataOp::BindingStore { value, .. }) => value.0,
        _ => 0,
    }
}

fn max_body_value_id(ops: &Vec<PcuDispatchOp>) -> (largest: u16)
    ensures
        largest == largest_flat(ops@, ops@.len()),
{
    let mut largest: u16 = 0;
    let mut at: usize = 0;
    while at < ops.len()
        invariant
            at <= ops@.len(),
            largest == largest_flat(ops@, at as nat),
        decreases ops@.len() - at,
    {
        let number: u16 = recorded_value(&ops[at]);
        if number > largest {
            largest = number;
        }
        at += 1;
    }
    largest
}

pub fn max_dataflow_value_id(kernel: &PcuDispatchKernelIr) -> (largest: u16)
    ensures
        largest == largest_value(kernel.ops@, kernel.ops@.len()),
{
    let mut largest: u16 = 0;
    let mut at: usize = 0;
    while at < kernel.ops.len()
        invariant
            at <= kernel.ops@.len(),
            largest == largest_value(kernel.ops@, at as nat),
        decreases kernel.ops@.len() - at,
    {
        let number: u16 = recorded_value(&kernel.ops[at]);
        if number > largest {
            largest = number;
        }
        match &kernel.ops[at].kind {
            PcuDispatchOpKind::GridStrideLoop { body, .. } => {
                let inner: u16 = max_body_value_id(body);
                if inner > largest {
                    largest = inner;
                }
            },
            _ => {
                assert(largest_flat(body_of(kernel.ops@[at as int]), 0) == 0);
            },
        }
        at += 1;
    }
    largest
}

/// How many operations there are, the bodies of loops counted in, as far as that fits.
pub fn dataflow_op_count(kernel: &PcuDispatchKernelIr) -> (count: usize)
    ensures
        count == op_places(kernel.ops@, kernel.ops@.len()) || (count == usize::MAX && op_places(
            kernel.ops@,
            kernel.ops@.len(),
        ) > usize::MAX),
{
    let mut count: usize = 0;
    let mut at: usize = 0;
    while at < kernel.ops.len()
        invariant
            at <= kernel.ops@.len(),
            count == op_places(kernel.ops@, at as nat) || (count == usize::MAX && op_places(
                kernel.ops@,
                at as nat,
            ) > usize::MAX),
        decreases kernel.ops@.len() - at,
    {
        let places: usize = match &kernel.ops[at].kind {
            PcuDispatchOpKind::GridStrideLoop { body, .. } => body.len().saturating_add(1),
            _ => 1,
        };
        count = count.saturating_add(places);
        at += 1;
    }
    count
}

/// Adds to an identifier, as long as the sum is one.
fn add_ids(base: u32, more: usize) -> (sum: Result<u32, PcuSpirvError>)
    ensures
        match sum {
            Ok(id) => id == base + more,
            Err(e) => base + more > u32::MAX && e == PcuSpirvError::IdSpaceExhausted,
        },
{
    let wide: u128 = base as u128 + more as u128;
    if wide <= 0xffff_ffff {
        Ok(wide as u32)
    } else {
        Err(PcuSpirvError::IdSpaceExhausted)
    }
}

/// The identifiers of a data-flow module.
///
/// # Errors
///
/// `IdSpaceExhausted` if there are more than 32 bits can number.
pub fn dataflow_ids(kernel: &PcuDispatchKernelIr) -> (answer: Result<DataflowIds, PcuSpirvError>)
    ensures
        match answer {
            Ok(ids) => ids.belong_to(*kernel),
            Err(e) => id_bound(*kernel) > u32::MAX && e == PcuSpirvError::IdSpaceExhausted,
        },
{
    let value_base: u32 = add_ids(DATAFLOW_BINDING_VAR_BASE_ID, kernel.bindings.len())?;
    let pointer_base: u32 = add_ids(value_base, max_dataflow_value_id(kernel) as usize)?;
    let loop_base: u32 = add_ids(pointer_base, dataflow_op_count(kernel))?;
    let aux: usize = if has_loop(&kernel.ops) {
        14
    } else {
        0
    };
    let bound: u32 = add_ids(loop_base, aux)?;
    Ok(DataflowIds { value_base, pointer_base, loop_base, bound })
}

/// The bound of a data-flow module's identifiers.
///
/// # Errors
///
/// `IdSpaceExhausted` if there are more than 32 bits can number.
pub fn dataflow_bound(kernel: &PcuDispatchKernelIr) -> (answer: Result<u32, PcuSpirvError>)
    ensures
        match answer {
            Ok(bound) => bound == id_bound(*kernel),
            Err(e) => id_bound(*kernel) > u32::MAX && e == PcuSpirvError::IdSpaceExhausted,
        },
{
    let ids: DataflowIds = dataflow_ids(kernel)?;
    Ok(ids.bound)
}

/// The identifier of a binding's variable.
///
/// # Errors
///
/// `IdSpaceExhausted` if 32 bits cannot number it.
pub fn dataflow_binding_var_id(index: usize) -> (answer: Result<u32, PcuSpirvError>)
    ensures
        match answer {
            Ok(id) => id == DATAFLOW_BINDING_VAR_BASE_ID + index,
            Err(e) => DATAFLOW_BINDING_VAR_BASE_ID + index > u32::MAX && e
                == PcuSpirvError::IdSpaceExhausted,
        },
{
    add_ids(DATAFLOW_BINDING_VAR_BASE_ID, index)
}

/// Every identifier of the module lies in a group of its own, below the bound: bindings, values,
/// pointers and, where there is a loop, the loop's do not share one.
pub proof fn law_identifiers_are_separate(
    kernel: PcuDispatchKernelIr,
    binding: int,
    value: int,
    pointer: int,
    auxiliary: int,
)
    ensures
        DATAFLOW_BINDING_VAR_BASE_ID <= value_base(kernel) <= pointer_base(kernel) <= loop_base(
            kernel,
        ) <= id_bound(kernel),
        0 <= binding < kernel.bindings@.len() ==> DATAFLOW_BINDING_VAR_BASE_ID + binding
            < value_base(kernel),
        1 <= value <= largest_value(kernel.ops@, kernel.ops@.len()) ==> value_base(kernel)
            <= value_base(kernel) + value - 1 < pointer_base(kernel),
        0 <= pointer < op_places(kernel.ops@, kernel.ops@.len()) ==> pointer_base(kernel) + pointer
            < loop_base(kernel),
        some_loop(kernel.ops@) && 0 <= auxiliary < DATAFLOW_LOOP_AUX_ID_COUNT ==> loop_base(kernel)
            + auxiliary < id_bound(kernel),
{
}

} // verus!
