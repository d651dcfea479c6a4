//! How values lie in device memory.
use vstd::prelude::*;
use vstd::slice::slice_to_vec;

use super::error::RocmTensorExecutionError;
use super::sizes::{allocatable, byte_len};
use crate::tensor::descriptor::NodeDescriptor;
use crate::tensor::error::{TensorError, ValueId};
use crate::tensor::storage::TensorStorageConstraint;
use crate::tensor::value::{extent, extent_fits, Tensor, TensorModel};

verus! {

/// The form in which a value is kept.
#[derive(Debug, Clone, Copy, PartialEq, Eq, Structural)]
pub enum RocmPhysicalRepresentation {
    Dense,
    /// One scalar in place of a tensor that is filled with it.
    UniformScalar,
}

/// The form in which a value is kept, and the bytes that it takes.
#[derive(Debug, Clone, Copy, PartialEq, Eq, Structural)]
pub struct RocmPhysicalLayout {
    pub representation: RocmPhysicalRepresentation,
    pub physical_bytes: u64,
}

impl RocmPhysicalLayout {
    /// Every element is kept.
    pub fn dense(physical_bytes: u64) -> (layout: RocmPhysicalLayout)
        ensures
            layout == (RocmPhysicalLayout {
                representation: RocmPhysicalRepresentation::Dense,
                physical_bytes,
            }),
    {
        RocmPhysicalLayout { representation: RocmPhysicalRepresentation::Dense, physical_bytes }
    }

    /// One element is kept.
    pub fn uniform_scalar() -> (layout: RocmPhysicalLayout)
        ensures
            layout == (RocmPhysicalLayout {
                representation: RocmPhysicalRepresentation::UniformScalar,
                physical_bytes: 4,
            }),
    {
        RocmPhysicalLayout {
            representation: RocmPhysicalRepresentation::UniformScalar,
            physical_bytes: 4,
        }
    }

    /// The tensor to upload for a value that is filled with `value`.
    pub fn uniform_tensor(self, logical_shape: &[usize], value: u32) -> (tensor: Result<
        Tensor,
        RocmTensorExecutionError,
    >)
        ensures
            match tensor {
                Ok(tensor) => tensor@ == match self.representation {
                    RocmPhysicalRepresentation::Dense => TensorModel::splat(logical_shape@, value),
                    RocmPhysicalRepresentation::UniformScalar => TensorModel::scalar(value),
                } && (self.representation is Dense ==> extent_fits(1, logical_shape@)),
                Err(error) => self.representation is Dense && !extent_fits(1, logical_shape@)
                    && error == RocmTensorExecutionError::Graph(TensorError::ShapeOverflow),
            },
    {
        match self.representation {
            RocmPhysicalRepresentation::Dense => match Tensor::splat(
                slice_to_vec(logical_shape),
                value,
            ) {
                Ok(tensor) => Ok(tensor),
                Err(error) => Err(RocmTensorExecutionError::Graph(error)),
            },
            RocmPhysicalRepresentation::UniformScalar => Ok(Tensor::scalar(value)),
        }
    }
}

/// The layout of a value of this shape.
pub open spec fn layout_of(shape: Seq<usize>, compact: bool) -> RocmPhysicalLayout {
    if compact {
        RocmPhysicalLayout {
            representation: RocmPhysicalRepresentation::UniformScalar,
            physical_bytes: 4,
        }
    } else {
        RocmPhysicalLayout {
            representation: RocmPhysicalRepresentation::Dense,
            physical_bytes: extent(4, shape) as u64,
        }
    }
}

/// Lays out the values of the nodes, those that `compact` marks as one scalar.
pub fn physical_layouts(nodes: &[NodeDescriptor<'_>], compact: &[bool]) -> (layouts: Result<
    Vec<RocmPhysicalLayout>,
    RocmTensorExecutionError,
>)
    requires
        compact@.len() == nodes@.len(),
    ensures
        match layouts {
            Ok(layouts) => {
                &&& layouts@.len() == nodes@.len()
                &&& forall|i: int|
                    0 <= i < nodes@.len() ==> #[trigger] layouts@[i] == layout_of(
                        nodes@[i].shape@,
                        compact@[i],
                    ) && (compact@[i] || allocatable(nodes@[i].shape@))
            },
            Err(error) => error == RocmTensorExecutionError::SizeOverflow && exists|i: int|
                0 <= i < nodes@.len() && !compact@[i] && !allocatable(
                    (#[trigger] nodes@[i]).shape@,
                ),
        },
{
    let mut layouts: Vec<RocmPhysicalLayout> = Vec::with_capacity(nodes.len());
    while layouts.len() < nodes.len()
        invariant
            layouts@.len() <= nodes@.len(),
            compact@.len() == nodes@.len(),
            forall|i: int|
                0 <= i < layouts@.len() ==> #[trigger] layouts@[i] == layout_of(
                    nodes@[i].shape@,
                    compact@[i],
                ) && (compact@[i] || allocatable(nodes@[i].shape@)),
        decreases nodes@.len() - layouts@.len(),
    {
        let at: usize = layouts.len();
        let layout: RocmPhysicalLayout = if compact[at] {
            RocmPhysicalLayout::uniform_scalar()
        } else {
            match byte_len(nodes[at].shape) {
                Ok(bytes) => RocmPhysicalLayout::dense(bytes as u64),
                Err(error) => {
                    assert(!allocatable(nodes@[at as int].shape@));
                    return Err(error);
                },
            }
        };
        layouts.push(layout);
    }
    Ok(layouts)
}

/// The first node that produces `value`.
pub open spec fn node_position(nodes: Seq<NodeDescriptor<'_>>, value: ValueId) -> Option<int>
    decreases nodes.len(),
{
    if nodes.len() == 0 {
        None
    } else if node_position(nodes.drop_last(), value) is Some {
        node_position(nodes.drop_last(), value)
    } else if nodes.last().value == value {
        Some(nodes.len() - 1)
    } else {
        None
    }
}

proof fn lemma_node_position(nodes: Seq<NodeDescriptor<'_>>, value: ValueId, at: int)
    requires
        0 <= at < nodes.len(),
        nodes[at].value == value,
        forall|i: int| 0 <= i < at ==> (#[trigger] nodes[i]).value != value,
    ensures
        node_position(nodes, value) == Some(at),
    decreases nodes.len(),
{
    if at < nodes.len() - 1 {
        lemma_node_position(nodes.drop_last(), value, at);
    } else {
        lemma_no_node_position(nodes.drop_last(), value);
    }
}

proof fn lemma_no_node_position(nodes: Seq<NodeDescriptor<'_>>, value: ValueId)
    requires
        forall|i: int| 0 <= i < nodes.len() ==> (#[trigger] nodes[i]).value != value,
    ensures
        node_position(nodes, value) is None,
    decreases nodes.len(),
{
    if nodes.len() > 0 {
        lemma_no_node_position(nodes.drop_last(), value);
    }
}

/// A value that a node produces has a position, and that node produces it.
pub proof fn lemma_position_found(nodes: Seq<NodeDescriptor<'_>>, value: ValueId)
    ensures
        match node_position(nodes, value) {
            Some(at) => 0 <= at < nodes.len() && nodes[at].value == value,
            None => forall|i: int| 0 <= i < nodes.len() ==> (#[trigger] nodes[i]).value != value,
        },
    decreases nodes.len(),
{
    if nodes.len() > 0 {
        lemma_position_found(nodes.drop_last(), value);
        if node_position(nodes, value) is None {
            assert forall|i: int| 0 <= i < nodes.len() implies (#[trigger] nodes[i]).value
                != value by {
                if i < nodes.len() - 1 {
                    assert(nodes.drop_last()[i] == nodes[i]);
                }
            }
        }
    }
}

/// The first node that produces `value`.
pub fn find_node(nodes: &[NodeDescriptor<'_>], value: ValueId) -> (position: Option<usize>)
    ensures
        match position {
            Some(p) => node_position(nodes@, value) == Some(p as int) && p < nodes@.len()
                && nodes@[p as int].value == value,
            None => node_position(nodes@, value) is None && forall|i: int|
                0 <= i < nodes@.len() ==> (#[trigger] nodes@[i]).value != value,
        },
{
    let mut at: usize = 0;
    while at < nodes.len()
        invariant
            at <= nodes@.len(),
            forall|i: int| 0 <= i < at ==> (#[trigger] nodes@[i]).value != value,
        decreases nodes@.len() - at,
    {
        if nodes[at].value == value {
            proof {
                lemma_node_position(nodes@, value, at as int);
            }
            return Some(at);
        }
        at += 1;
    }
    proof {
        lemma_no_node_position(nodes@, value);
    }
    None
}

/// The bytes that a value takes in memory, where storage planning found `logical_bytes`.
pub open spec fn physical_extent(
    nodes: Seq<NodeDescriptor<'_>>,
    layouts: Seq<RocmPhysicalLayout>,
    value: ValueId,
    logical_bytes: u64,
) -> Option<u64> {
    match node_position(nodes, value) {
        None => None,
        Some(at) => if layouts[at].representation is Dense && layouts[at].physical_bytes
            != logical_bytes {
            None
        } else {
            Some(layouts[at].physical_bytes)
        },
    }
}

/// The bytes that a value takes in memory.
fn find_physical_extent(
    nodes: &[NodeDescriptor<'_>],
    layouts: &[RocmPhysicalLayout],
    value: ValueId,
    logical_bytes: u64,
) -> (bytes: Result<u64, RocmTensorExecutionError>)
    requires
        layouts@.len() == nodes@.len(),
    ensures
        match bytes {
            Ok(bytes) => physical_extent(nodes@, layouts@, value, logical_bytes) == Some(bytes),
            Err(error) => physical_extent(nodes@, layouts@, value, logical_bytes) is None && error
                == RocmTensorExecutionError::InvalidPlan(value),
        },
{
    match find_node(nodes, value) {
        None => Err(RocmTensorExecutionError::InvalidPlan(value)),
        Some(at) => {
            let layout: RocmPhysicalLayout = layouts[at];
            if layout.representation == RocmPhysicalRepresentation::Dense && layout.physical_bytes
                != logical_bytes {
                Err(RocmTensorExecutionError::InvalidPlan(value))
            } else {
                Ok(layout.physical_bytes)
            }
        },
    }
}

/// A constraint between values of these layouts.
pub open spec fn physical_constraint(
    nodes: Seq<NodeDescriptor<'_>>,
    layouts: Seq<RocmPhysicalLayout>,
    logical: TensorStorageConstraint,
    physical: TensorStorageConstraint,
) -> bool {
    &&& physical.left == logical.left
    &&& physical.right == logical.right
    &&& physical_extent(nodes, layouts, logical.left, logical.left_bytes) == Some(
        physical.left_bytes,
    )
    &&& physical_extent(nodes, layouts, logical.right, logical.right_bytes) == Some(
        physical.right_bytes,
    )
}

/// A constraint can be restated for these layouts.
pub open spec fn restatable(
    nodes: Seq<NodeDescriptor<'_>>,
    layouts: Seq<RocmPhysicalLayout>,
    logical: TensorStorageConstraint,
) -> bool {
    physical_extent(nodes, layouts, logical.left, logical.left_bytes) is Some && physical_extent(
        nodes,
        layouts,
        logical.right,
        logical.right_bytes,
    ) is Some
}

/// Why a constraint cannot be restated for these layouts.
pub open spec fn constraint_refused(
    nodes: Seq<NodeDescriptor<'_>>,
    layouts: Seq<RocmPhysicalLayout>,
    logical: TensorStorageConstraint,
    error: RocmTensorExecutionError,
) -> bool {
    if physical_extent(nodes, layouts, logical.left, logical.left_bytes) is None {
        error == RocmTensorExecutionError::InvalidPlan(logical.left)
    } else {
        physical_extent(nodes, layouts, logical.right, logical.right_bytes) is None && error
            == RocmTensorExecutionError::InvalidPlan(logical.right)
    }
}

/// Restates storage constraints for the bytes that values take in memory.
pub fn physicalize_storage_constraints(
    constraints: &[TensorStorageConstraint],
    nodes: &[NodeDescriptor<'_>],
    layouts: &[RocmPhysicalLayout],
) -> (answer: Result<Vec<TensorStorageConstraint>, RocmTensorExecutionError>)
    requires
        layouts@.len() == nodes@.len(),
    ensures
        match answer {
            Ok(physical) => {
                &&& physical@.len() == constraints@.len()
                &&& forall|i: int|
                    0 <= i < constraints@.len() ==> physical_constraint(
                        nodes@,
                        layouts@,
                        constraints@[i],
                        #[trigger] physical@[i],
                    )
            },
            Err(error) => exists|i: int|
                0 <= i < constraints@.len() && constraint_refused(
                    nodes@,
                    layouts@,
                    #[trigger] constraints@[i],
                    error,
                ) && forall|j: int|
                    0 <= j < i ==> restatable(nodes@, layouts@, #[trigger] constraints@[j]),
        },
{
    let mut physical: Vec<TensorStorageConstraint> = Vec::with_capacity(constraints.len());
    while physical.len() < constraints.len()
        invariant
            physical@.len() <= constraints@.len(),
            layouts@.len() == nodes@.len(),
            forall|i: int|
                0 <= i < physical@.len() ==> physical_constraint(
                    nodes@,
                    layouts@,
                    constraints@[i],
                    #[trigger] physical@[i],
                ),
            forall|i: int|
                0 <= i < physical@.len() ==> restatable(
                    nodes@,
                    layouts@,
                    #[trigger] constraints@[i],
                ),
        decreases constraints@.len() - physical@.len(),
    {
        let logical: TensorStorageConstraint = constraints[physical.len()];
        let left_bytes: u64 = match find_physical_extent(
            nodes,
            layouts,
            logical.left,
            logical.left_bytes,
        ) {
            Ok(bytes) => bytes,
            Err(error) => {
                assert(constraint_refused(
                    nodes@,
                    layouts@,
                    constraints@[physical@.len() as int],
                    error,
                ));
                return Err(error);
            },
        };
        let right_bytes: u64 = match find_physical_extent(
            nodes,
            layouts,
            logical.right,
            logical.right_bytes,
        ) {
            Ok(bytes) => bytes,
            Err(error) => {
                assert(constraint_refused(
                    nodes@,
                    layouts@,
                    constraints@[physical@.len() as int],
                    error,
                ));
                return Err(error);
            },
        };
        physical.push(
            TensorStorageConstraint {
                left: logical.left,
                right: logical.right,
                left_bytes,
                right_bytes,
            },
        );
    }
    Ok(physical)
}

} // verus!
