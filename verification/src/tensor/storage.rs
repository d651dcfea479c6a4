//! Backend-neutral storage requirements and overlap validation.
use vstd::prelude::*;

use super::error::ValueId;
use super::value::{checked_extent, extent, extent_fits};

verus! {

/// The size of one tensor element in bytes.
pub const ELEMENT_BYTES: usize = 4;

/// The bytes of a dense value of this shape, if every partial product is representable.
pub open spec fn output_bytes(shape: Seq<usize>) -> Option<usize> {
    if extent_fits(4, shape) {
        Some(extent(4, shape) as usize)
    } else {
        None
    }
}

/// The bytes of a dense value of this shape, if representable.
pub fn node_output_bytes(shape: &[usize]) -> (bytes: Option<usize>)
    ensures
        bytes == output_bytes(shape@),
{
    checked_extent(ELEMENT_BYTES, shape)
}

/// Inclusive lifetime and output-storage facts for one value in an execution plan.
#[derive(Clone, Copy, Debug, PartialEq, Eq)]
pub struct TensorValueLiveness {
    pub value: ValueId,
    pub output_bytes: Option<usize>,
    /// Position in the plan's node order where this value is produced.
    pub first_live_node: usize,
    /// Last node that reads this value, or its production node when it has no consumers.
    pub last_live_node: usize,
}

/// A pair of values that must occupy disjoint provider storage during the selected execution.
///
/// Read-only inputs and constants may share storage with each other. Every computed value is
/// treated as writable because the dialect defines no in-place operation permissions.
#[derive(Clone, Copy, Debug, PartialEq, Eq)]
pub struct TensorStorageConstraint {
    pub left: ValueId,
    pub right: ValueId,
    pub left_bytes: u64,
    pub right_bytes: u64,
}

/// Why validation could not prove a requested storage relationship legal.
#[derive(Clone, Copy, Debug, PartialEq, Eq)]
pub enum TensorStorageValidationError {
    MissingResource(ValueId),
    Overlapping { left: ValueId, right: ValueId },
    UnknownOverlap { left: ValueId, right: ValueId },
}

/// What a provider knows of two ranges of its memory.
#[derive(Clone, Copy, Debug, PartialEq, Eq, Structural)]
pub enum PcuMemoryOverlap {
    Disjoint,
    Overlapping,
    Unknown,
}

/// A range within one memory resource.
#[derive(Clone, Copy, Debug, PartialEq, Eq, Structural)]
pub struct PcuMemoryRange {
    pub offset_bytes: u64,
    pub size_bytes: u64,
}

/// A provider's memory resource, as far as overlap validation asks about it.
pub trait PcuMemoryResource {
    /// What is known of `own` within this resource and `theirs` within `other`.
    fn overlap(&self, other: &Self, own: PcuMemoryRange, theirs: PcuMemoryRange) -> PcuMemoryOverlap;
}

/// The first resource that is bound to `value`.
pub open spec fn first_binding<R>(resources: Seq<(ValueId, &R)>, value: ValueId) -> Option<int>
    decreases resources.len(),
{
    if resources.len() == 0 {
        None
    } else if first_binding(resources.drop_last(), value) is Some {
        first_binding(resources.drop_last(), value)
    } else if resources.last().0 == value {
        Some(resources.len() - 1)
    } else {
        None
    }
}

proof fn lemma_first_binding<R>(resources: Seq<(ValueId, &R)>, value: ValueId, at: int)
    requires
        0 <= at < resources.len(),
        resources[at].0 == value,
        forall|i: int| 0 <= i < at ==> (#[trigger] resources[i]).0 != value,
    ensures
        first_binding(resources, value) == Some(at),
    decreases resources.len(),
{
    let rest = resources.drop_last();
    if at < resources.len() - 1 {
        lemma_first_binding(rest, value, at);
    } else {
        lemma_no_binding(rest, value);
    }
}

proof fn lemma_no_binding<R>(resources: Seq<(ValueId, &R)>, value: ValueId)
    requires
        forall|i: int| 0 <= i < resources.len() ==> (#[trigger] resources[i]).0 != value,
    ensures
        first_binding(resources, value) is None,
    decreases resources.len(),
{
    if resources.len() > 0 {
        let rest = resources.drop_last();
        assert forall|i: int| 0 <= i < rest.len() implies (#[trigger] rest[i]).0 != value by {
            assert(rest[i] == resources[i]);
        }
        assert(resources.last() == resources[resources.len() - 1]);
        lemma_no_binding(rest, value);
    }
}

/// Finds the first resource that is bound to `value`.
fn find_binding<R>(resources: &[(ValueId, &R)], value: ValueId) -> (found: Option<usize>)
    ensures
        match found {
            Some(at) => at < resources@.len() && first_binding(resources@, value) == Some(
                at as int,
            ),
            None => first_binding(resources@, value) is None,
        },
{
    let mut at: usize = 0;
    while at < resources.len()
        invariant
            at <= resources@.len(),
            forall|i: int| 0 <= i < at ==> (#[trigger] resources@[i]).0 != value,
        decreases resources@.len() - at,
    {
        if resources[at].0 == value {
            proof {
                lemma_first_binding(resources@, value, at as int);
            }
            return Some(at);
        }
        at += 1;
    }
    proof {
        lemma_no_binding(resources@, value);
    }
    None
}

impl TensorStorageConstraint {
    /// What follows from the provider's answer: only proven disjointness is accepted.
    pub open spec fn verdict(self, overlap: PcuMemoryOverlap) -> Result<
        (),
        TensorStorageValidationError,
    > {
        match overlap {
            PcuMemoryOverlap::Disjoint => Ok(()),
            PcuMemoryOverlap::Overlapping => Err(
                TensorStorageValidationError::Overlapping { left: self.left, right: self.right },
            ),
            PcuMemoryOverlap::Unknown => Err(
                TensorStorageValidationError::UnknownOverlap { left: self.left, right: self.right },
            ),
        }
    }

    /// The full range of the left value.
    pub open spec fn left_range(self) -> PcuMemoryRange {
        PcuMemoryRange { offset_bytes: 0, size_bytes: self.left_bytes }
    }

    /// The full range of the right value.
    pub open spec fn right_range(self) -> PcuMemoryRange {
        PcuMemoryRange { offset_bytes: 0, size_bytes: self.right_bytes }
    }

    /// Decides on the provider's answer. Unknown overlap is rejected conservatively.
    ///
    /// # Errors
    ///
    /// An overlap error unless the provider proves the two full ranges are disjoint.
    pub fn decide(&self, overlap: PcuMemoryOverlap) -> (answer: Result<
        (),
        TensorStorageValidationError,
    >)
        ensures
            answer == self.verdict(overlap),
    {
        match overlap {
            PcuMemoryOverlap::Disjoint => Ok(()),
            PcuMemoryOverlap::Overlapping => Err(
                TensorStorageValidationError::Overlapping { left: self.left, right: self.right },
            ),
            PcuMemoryOverlap::Unknown => Err(
                TensorStorageValidationError::UnknownOverlap { left: self.left, right: self.right },
            ),
        }
    }

    /// Checks this requirement when both resources have already been resolved by value.
    ///
    /// # Errors
    ///
    /// An overlap error unless the provider proves the two full ranges are disjoint.
    pub fn validate_resources<R: PcuMemoryResource>(&self, left: &R, right: &R) -> (answer: Result<
        (),
        TensorStorageValidationError,
    >)
        ensures
            exists|overlap: PcuMemoryOverlap|
                {
                    &&& call_ensures(
                        R::overlap,
                        (left, right, self.left_range(), self.right_range()),
                        overlap,
                    )
                    &&& answer == #[trigger] self.verdict(overlap)
                },
    {
        let overlap: PcuMemoryOverlap = left.overlap(
            right,
            PcuMemoryRange { offset_bytes: 0, size_bytes: self.left_bytes },
            PcuMemoryRange { offset_bytes: 0, size_bytes: self.right_bytes },
        );
        self.decide(overlap)
    }

    /// Checks this requirement against provider-owned resources.
    ///
    /// # Errors
    ///
    /// A missing-resource error when a value has no binding, the left one first, or an overlap
    /// error unless the provider proves the two full ranges are disjoint.
    pub fn validate<R: PcuMemoryResource>(&self, resources: &[(ValueId, &R)]) -> (answer: Result<
        (),
        TensorStorageValidationError,
    >)
        ensures
            match first_binding(resources@, self.left) {
                None => answer == Err::<(), TensorStorageValidationError>(
                    TensorStorageValidationError::MissingResource(self.left),
                ),
                Some(l) => match first_binding(resources@, self.right) {
                    None => answer == Err::<(), TensorStorageValidationError>(
                        TensorStorageValidationError::MissingResource(self.right),
                    ),
                    Some(r) => exists|overlap: PcuMemoryOverlap|
                        {
                            &&& call_ensures(
                                R::overlap,
                                (
                                    resources@[l].1,
                                    resources@[r].1,
                                    self.left_range(),
                                    self.right_range(),
                                ),
                                overlap,
                            )
                            &&& answer == #[trigger] self.verdict(overlap)
                        },
                },
            },
    {
        let left: usize = match find_binding(resources, self.left) {
            Some(at) => at,
            None => {
                return Err(TensorStorageValidationError::MissingResource(self.left));
            },
        };
        let right: usize = match find_binding(resources, self.right) {
            Some(at) => at,
            None => {
                return Err(TensorStorageValidationError::MissingResource(self.right));
            },
        };
        self.validate_resources(resources[left].1, resources[right].1)
    }
}

} // verus!
