//! Extents of values as the device takes them.
use vstd::prelude::*;

use super::error::RocmTensorExecutionError;
use crate::tensor::descriptor::{NodeDescriptor, OpDescriptor, TensorUnsupportedReason};
use crate::tensor::error::{contains_value, ValueId};
use crate::tensor::graph::Graph;
use crate::tensor::value::{checked_extent, extent, extent_fits};

verus! {

/// The bytes of one element.
pub const ELEMENT_SIZE: usize = 4;

/// A launch can cover every element of this shape.
pub open spec fn launchable(shape: Seq<usize>) -> bool {
    extent_fits(1, shape) && 0 < extent(1, shape) <= u32::MAX
}

/// How many invocations a launch over this shape has.
pub fn flattened_invocation_count(shape: &[usize]) -> (count: Result<u32, RocmTensorExecutionError>)
    ensures
        match count {
            Ok(count) => launchable(shape@) && count == extent(1, shape@),
            Err(error) => !launchable(shape@) && error == RocmTensorExecutionError::SizeOverflow,
        },
{
    match checked_extent(1, shape) {
        Some(count) => if count > 0 && count <= u32::MAX as usize {
            Ok(count as u32)
        } else {
            Err(RocmTensorExecutionError::SizeOverflow)
        },
        None => Err(RocmTensorExecutionError::SizeOverflow),
    }
}

/// How many blocks of 256 invocations cover `count` elements.
pub fn block_count(count: u32) -> (blocks: u32)
    ensures
        256 * blocks >= count,
        blocks > 0 ==> 256 * (blocks - 1) < count,
{
    let whole: u32 = count / 256;
    if count % 256 == 0 {
        whole
    } else {
        whole + 1
    }
}

/// Whether a scratch allocation has room for `count` squared differences.
pub fn mse_scratch_length_fits(count: usize, squared_bytes: usize) -> (fits: Result<
    bool,
    RocmTensorExecutionError,
>)
    ensures
        match fits {
            Ok(fits) => 4 * count <= usize::MAX && fits == (squared_bytes >= 4 * count),
            Err(error) => 4 * count > usize::MAX && error
                == RocmTensorExecutionError::SizeOverflow,
        },
{
    match count.checked_mul(ELEMENT_SIZE) {
        Some(required) => Ok(squared_bytes >= required),
        None => Err(RocmTensorExecutionError::SizeOverflow),
    }
}

/// An allocation can hold a dense value of this shape.
pub open spec fn allocatable(shape: Seq<usize>) -> bool {
    extent_fits(4, shape) && extent(4, shape) <= isize::MAX
}

/// The bytes of a dense value of this shape.
pub fn byte_len(shape: &[usize]) -> (bytes: Result<usize, RocmTensorExecutionError>)
    ensures
        match bytes {
            Ok(bytes) => allocatable(shape@) && bytes == extent(4, shape@),
            Err(error) => !allocatable(shape@) && error == RocmTensorExecutionError::SizeOverflow,
        },
{
    match checked_extent(ELEMENT_SIZE, shape) {
        Some(bytes) => if bytes <= isize::MAX as usize {
            Ok(bytes)
        } else {
            Err(RocmTensorExecutionError::SizeOverflow)
        },
        None => Err(RocmTensorExecutionError::SizeOverflow),
    }
}

/// The place of an output in the order in which outputs were requested.
pub fn output_position(outputs: &[ValueId], value: ValueId) -> (position: Option<usize>)
    ensures
        match position {
            Some(p) => p < outputs@.len() && outputs@[p as int] == value && forall|j: int|
                0 <= j < p ==> outputs@[j] != value,
            None => !outputs@.contains(value),
        },
{
    let mut at: usize = 0;
    while at < outputs.len()
        invariant
            at <= outputs@.len(),
            forall|j: int| 0 <= j < at ==> outputs@[j] != value,
        decreases outputs@.len() - at,
    {
        if outputs[at] == value {
            return Some(at);
        }
        at += 1;
    }
    None
}

/// Reusable storage keeps the value of the node: it is neither requested nor an input.
pub open spec fn stored_in_scratch(op: OpDescriptor<'_>, value: ValueId, outputs: Seq<ValueId>) -> bool {
    !outputs.contains(value) && !(op is Input)
}

/// Whether reusable storage keeps the value of the node.
pub fn scratch_stores_node(op: OpDescriptor<'_>, value: ValueId, outputs: &[ValueId]) -> (stored: bool)
    ensures
        stored == stored_in_scratch(op, value, outputs@),
{
    let input: bool = match op {
        OpDescriptor::Input => true,
        _ => false,
    };
    !contains_value(outputs, value) && !input
}

/// A squared error over this shape can be added up by the library.
pub open spec fn summable(shape: Seq<usize>) -> bool {
    extent_fits(1, shape) && 0 < extent(1, shape) <= i32::MAX
}

/// The elements that the squared differences of a node take, or none if it has none.
pub open spec fn mse_count(graph: Graph, op: OpDescriptor<'_>) -> nat {
    match op {
        OpDescriptor::MeanSquaredError { prediction, .. } => extent(1, graph.shape_of(prediction)),
        _ => 0,
    }
}

/// The largest count of squared differences among the nodes.
pub open spec fn largest_mse(graph: Graph, nodes: Seq<NodeDescriptor<'_>>) -> nat
    decreases nodes.len(),
{
    if nodes.len() == 0 {
        0
    } else {
        let before = largest_mse(graph, nodes.drop_last());
        let own = mse_count(graph, nodes.last().op);
        if own > before {
            own
        } else {
            before
        }
    }
}

/// Why a node's squared differences cannot be sized.
pub open spec fn mse_refused(
    graph: Graph,
    node: NodeDescriptor<'_>,
    error: RocmTensorExecutionError,
) -> bool {
    node.op matches OpDescriptor::MeanSquaredError { prediction, .. } && if !graph.knows(
        prediction,
    ) {
        error == RocmTensorExecutionError::Graph(
            crate::tensor::error::TensorError::UnknownValue(prediction),
        )
    } else if !extent_fits(1, graph.shape_of(prediction)) {
        error == RocmTensorExecutionError::SizeOverflow
    } else {
        !summable(graph.shape_of(prediction)) && error == (RocmTensorExecutionError::Unsupported {
            value: node.value,
            reason: TensorUnsupportedReason::Shape,
        })
    }
}

/// A node's squared differences can be sized.
pub open spec fn mse_accepted(graph: Graph, node: NodeDescriptor<'_>) -> bool {
    node.op matches OpDescriptor::MeanSquaredError { prediction, .. } ==> graph.knows(prediction)
        && summable(graph.shape_of(prediction))
}

/// The elements that reusable storage sets aside for squared differences. The mean itself is one
/// scalar, so it is the prediction's shape that counts.
pub fn mse_scratch_element_count(graph: &Graph, nodes: &[NodeDescriptor<'_>]) -> (count: Result<
    usize,
    RocmTensorExecutionError,
>)
    ensures
        match count {
            Ok(count) => (forall|i: int|
                0 <= i < nodes@.len() ==> mse_accepted(*graph, #[trigger] nodes@[i])) && count
                == largest_mse(*graph, nodes@),
            Err(error) => exists|i: int|
                0 <= i < nodes@.len() && mse_refused(*graph, #[trigger] nodes@[i], error)
                    && forall|j: int| 0 <= j < i ==> mse_accepted(*graph, #[trigger] nodes@[j]),
        },
{
    let mut largest: usize = 0;
    let mut at: usize = 0;
    assert(nodes@.take(0).len() == 0);
    while at < nodes.len()
        invariant
            at <= nodes@.len(),
            forall|i: int| 0 <= i < at ==> mse_accepted(*graph, #[trigger] nodes@[i]),
            largest == largest_mse(*graph, nodes@.take(at as int)),
        decreases nodes@.len() - at,
    {
        let node: NodeDescriptor<'_> = nodes[at];
        proof {
            assert(nodes@.take(at + 1).drop_last() =~= nodes@.take(at as int));
            assert(nodes@.take(at + 1).last() == nodes@[at as int]);
        }
        if let OpDescriptor::MeanSquaredError { prediction, .. } = node.op {
            let shape: &[usize] = match graph.shape(prediction) {
                Ok(shape) => shape,
                Err(error) => {
                    assert(mse_refused(
                        *graph,
                        nodes@[at as int],
                        RocmTensorExecutionError::Graph(error),
                    ));
                    return Err(RocmTensorExecutionError::Graph(error));
                },
            };
            let count: usize = match checked_extent(1, shape) {
                Some(count) => count,
                None => {
                    assert(mse_refused(
                        *graph,
                        nodes@[at as int],
                        RocmTensorExecutionError::SizeOverflow,
                    ));
                    return Err(RocmTensorExecutionError::SizeOverflow);
                },
            };
            if count == 0 || count > i32::MAX as usize {
                let error: RocmTensorExecutionError = RocmTensorExecutionError::Unsupported {
                    value: node.value,
                    reason: TensorUnsupportedReason::Shape,
                };
                assert(mse_refused(*graph, nodes@[at as int], error));
                return Err(error);
            }
            if count > largest {
                largest = count;
            }
        }
        at += 1;
    }
    assert(nodes@.take(at as int) =~= nodes@);
    Ok(largest)
}

} // verus!
