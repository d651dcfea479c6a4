//! What the ROCm tensor backend reports when it cannot go on.
use vstd::prelude::*;

use crate::tensor::descriptor::TensorUnsupportedReason;
use crate::tensor::error::{TensorError, ValueId};
use crate::tensor::storage::TensorStorageValidationError;

verus! {

/// Errors of the bounded ROCm tensor `MatMul` operation.
#[derive(Debug, Clone, Copy, PartialEq, Eq, Structural)]
pub enum RocmTensorError {
    /// The library call failed with this status.
    Rocblas(i32),
    InvalidShape,
    InvalidMemoryAccess,
    DimensionOverflow,
}

impl RocmTensorError {
    /// What the error says, where the library's own status does not say it.
    pub fn message(&self) -> (text: Option<&'static str>)
        ensures
            match *self {
                RocmTensorError::Rocblas(_) => text is None,
                RocmTensorError::InvalidShape => text is Some && text->Some_0@
                    == "ROCm tensor MatMul requires nonempty rank-two matrices"@,
                RocmTensorError::InvalidMemoryAccess => text is Some && text->Some_0@
                    == "ROCm tensor MatMul memory access does not match its role"@,
                RocmTensorError::DimensionOverflow => text is Some && text->Some_0@
                    == "ROCm tensor MatMul byte size or dimension overflows"@,
            },
    {
        match self {
            RocmTensorError::Rocblas(_) => None,
            RocmTensorError::InvalidShape => {
                Some("ROCm tensor MatMul requires nonempty rank-two matrices")
            },
            RocmTensorError::InvalidMemoryAccess => {
                Some("ROCm tensor MatMul memory access does not match its role")
            },
            RocmTensorError::DimensionOverflow => {
                Some("ROCm tensor MatMul byte size or dimension overflows")
            },
        }
    }
}

/// Failure while preparing or executing requested outputs of a graph on a ROCm session.
///
/// Failures of the device are known by the code that the caller reported.
#[derive(Debug)]
#[allow(inconsistent_fields)]
pub enum RocmTensorExecutionError {
    Graph(TensorError),
    Unsupported { value: ValueId, reason: TensorUnsupportedReason },
    Memory(i32),
    MemoryAdmission(i32),
    Operation(RocmTensorError),
    Backend(i32),
    Completion(i32),
    FailedCompletion,
    ExecutionFault(i32),
    SizeOverflow,
    EmptyOutputs,
    DuplicateOutput(ValueId),
    InvalidPlan(ValueId),
    MissingResource(ValueId),
    InputResourceMismatch,
    InputPoolMismatch,
    OutputResourceMismatch,
    ScratchMismatch,
    FeedbackPlanMismatch,
    FeedbackStepUnavailable { requested: usize, first_available: usize, completed: usize },
    StorageConstraint(TensorStorageValidationError),
}

impl RocmTensorExecutionError {
    /// Two errors report the same: they are equal once their shapes and texts are taken by what
    /// they hold.
    pub open spec fn reports_like(self, other: RocmTensorExecutionError) -> bool {
        match self {
            RocmTensorExecutionError::Graph(inner) => other matches RocmTensorExecutionError::Graph(
                own,
            ) && inner.reports_like(own),
            RocmTensorExecutionError::Unsupported {
                value,
                reason: TensorUnsupportedReason::Other(text),
            } => other matches RocmTensorExecutionError::Unsupported {
                value: own,
                reason: TensorUnsupportedReason::Other(words),
            } && own == value && words@ == text@,
            _ => self == other,
        }
    }
}

} // verus!
