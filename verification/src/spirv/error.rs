//! Why a kernel is not lowered.
use vstd::prelude::*;

use super::types::{PcuSpirvCapability, PcuSpirvVersion};
use crate::pcu::ir::{PcuDispatchOpCaps, PcuValueType};

verus! {

/// Failure returned while lowering a kernel into words.
#[derive(Debug, Clone, Copy, PartialEq, Eq, Hash, Structural)]
pub enum PcuSpirvError {
    UnsupportedInstruction(PcuDispatchOpCaps),
    UnsupportedValueType(PcuValueType),
    UnsupportedCapability(PcuSpirvCapability),
    UnsupportedVersion(PcuSpirvVersion),
    InvalidKernelSignature,
    InvalidBinding,
    SinkFull,
    IdSpaceExhausted,
}

} // verus!
