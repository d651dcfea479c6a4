//! Which graph operations the ROCm backend takes, and on which route.
use vstd::prelude::*;

use super::matmul::{does_matrix_fit, matrix_fits};
use super::sizes::{flattened_invocation_count, launchable, summable};
use crate::tensor::descriptor::{
    NodeDescriptor, NodeModel, OpDescriptor, TensorExecutionRoute, TensorOperandRepresentation,
    TensorOperationAssessor, TensorOperationSupport, TensorUnsupportedReason,
};
use crate::tensor::error::ValueId;
use crate::tensor::graph::{left_dims, right_dims, Graph};
use crate::tensor::value::{checked_extent, same_shape};

verus! {

/// A node that is supported on this route.
pub open spec fn supported(route: TensorExecutionRoute, workspace_bytes: Option<usize>) -> TensorOperationSupport {
    TensorOperationSupport::Supported { route, workspace_bytes }
}

/// A node whose shapes are not supported.
pub open spec fn shape_unsupported() -> TensorOperationSupport {
    TensorOperationSupport::Unsupported { reason: TensorUnsupportedReason::Shape }
}

/// Two known values share this shape, and a launch can cover it.
pub open spec fn same_launchable(graph: Graph, shape: Seq<usize>, a: ValueId, b: ValueId) -> bool {
    &&& graph.knows(a)
    &&& graph.knows(b)
    &&& graph.shape_of(a) == graph.shape_of(b)
    &&& graph.shape_of(a) == shape
    &&& launchable(shape)
}

/// The library takes the dimension.
pub open spec fn blas_dimension(dimension: usize) -> bool {
    dimension <= i32::MAX
}

/// The library takes this matrix product.
pub open spec fn product_supported(
    output: Seq<usize>,
    left: Seq<usize>,
    right: Seq<usize>,
    transpose_left: bool,
    transpose_right: bool,
) -> bool {
    &&& left.len() == 2
    &&& right.len() == 2
    &&& {
        let (rows, inner) = left_dims(left, transpose_left);
        let (right_inner, columns) = right_dims(right, transpose_right);
        &&& rows > 0
        &&& inner > 0
        &&& right_inner == inner
        &&& columns > 0
        &&& blas_dimension(left[0])
        &&& blas_dimension(left[1])
        &&& blas_dimension(right[0])
        &&& blas_dimension(right[1])
        &&& matrix_fits(left[0], left[1])
        &&& matrix_fits(right[0], right[1])
        &&& matrix_fits(rows, columns)
        &&& output == seq![rows, columns]
    }
}

/// What the backend says of a node while the library can be used.
pub open spec fn assessment(graph: Graph, node: NodeModel<'_>) -> TensorOperationSupport {
    match node.op {
        OpDescriptor::Uniform { .. } => if node.shape.contains(0usize) {
            shape_unsupported()
        } else {
            supported(TensorExecutionRoute::Native, Some(0))
        },
        OpDescriptor::Input | OpDescriptor::Constant(_) => {
            supported(TensorExecutionRoute::Native, Some(0))
        },
        OpDescriptor::MatMul { left, right, transpose_left, transpose_right } => if graph.knows(left)
            && graph.knows(right) && product_supported(
            node.shape,
            graph.shape_of(left),
            graph.shape_of(right),
            transpose_left,
            transpose_right,
        ) {
            supported(TensorExecutionRoute::Library, None)
        } else {
            shape_unsupported()
        },
        OpDescriptor::Add { left, right }
        | OpDescriptor::Sub { left, right }
        | OpDescriptor::Mul { left, right } => if same_launchable(graph, node.shape, left, right) {
            supported(TensorExecutionRoute::Synthesized, Some(0))
        } else {
            shape_unsupported()
        },
        OpDescriptor::Relu { input } => if same_launchable(graph, node.shape, input, input) {
            supported(TensorExecutionRoute::Synthesized, Some(0))
        } else {
            shape_unsupported()
        },
        OpDescriptor::ReluBackward { input, upstream } => if same_launchable(
            graph,
            node.shape,
            input,
            upstream,
        ) {
            supported(TensorExecutionRoute::Native, Some(0))
        } else {
            shape_unsupported()
        },
        OpDescriptor::SgdUpdate { weights, gradient, .. } => if same_launchable(
            graph,
            node.shape,
            weights,
            gradient,
        ) {
            supported(TensorExecutionRoute::Native, Some(0))
        } else {
            shape_unsupported()
        },
        OpDescriptor::MeanSquaredError { prediction, target } => if graph.knows(prediction)
            && graph.knows(target) && graph.shape_of(prediction) == graph.shape_of(target)
            && node.shape.len() == 0 && summable(graph.shape_of(prediction)) {
            supported(TensorExecutionRoute::Synthesized, None)
        } else {
            shape_unsupported()
        },
    }
}

/// Whether two known values share this shape, and a launch can cover it.
fn is_same_launchable(graph: &Graph, shape: &[usize], a: ValueId, b: ValueId) -> (answer: bool)
    ensures
        answer == same_launchable(*graph, shape@, a, b),
{
    match (graph.shape(a), graph.shape(b)) {
        (Ok(first), Ok(second)) => same_shape(first, second) && same_shape(first, shape)
            && flattened_invocation_count(shape).is_ok(),
        _ => false,
    }
}

fn shape_holds_zero(shape: &[usize]) -> (found: bool)
    ensures
        found == shape@.contains(0usize),
{
    let mut at: usize = 0;
    while at < shape.len()
        invariant
            at <= shape@.len(),
            forall|i: int| 0 <= i < at ==> shape@[i] != 0,
        decreases shape@.len() - at,
    {
        if shape[at] == 0 {
            return true;
        }
        at += 1;
    }
    false
}

fn elementwise_support(supported_here: bool, route: TensorExecutionRoute) -> (support:
    TensorOperationSupport)
    ensures
        support == if supported_here {
            supported(route, Some(0))
        } else {
            shape_unsupported()
        },
{
    if supported_here {
        TensorOperationSupport::Supported { route, workspace_bytes: Some(0) }
    } else {
        TensorOperationSupport::Unsupported { reason: TensorUnsupportedReason::Shape }
    }
}

fn is_blas_dimension(dimension: usize) -> (answer: bool)
    ensures
        answer == blas_dimension(dimension),
{
    dimension <= i32::MAX as usize
}

/// Whether the library takes this matrix product.
pub fn matmul_shape_supported(
    graph: &Graph,
    output_shape: &[usize],
    left: ValueId,
    right: ValueId,
    transpose_left: bool,
    transpose_right: bool,
) -> (answer: bool)
    ensures
        answer == (graph.knows(left) && graph.knows(right) && product_supported(
            output_shape@,
            graph.shape_of(left),
            graph.shape_of(right),
            transpose_left,
            transpose_right,
        )),
{
    let (l, r): (&[usize], &[usize]) = match (graph.shape(left), graph.shape(right)) {
        (Ok(l), Ok(r)) => (l, r),
        _ => {
            return false;
        },
    };
    if l.len() != 2 || r.len() != 2 {
        return false;
    }
    let rows: usize = if transpose_left {
        l[1]
    } else {
        l[0]
    };
    let inner: usize = if transpose_left {
        l[0]
    } else {
        l[1]
    };
    let right_inner: usize = if transpose_right {
        r[1]
    } else {
        r[0]
    };
    let columns: usize = if transpose_right {
        r[0]
    } else {
        r[1]
    };
    let shaped: bool = output_shape.len() == 2 && output_shape[0] == rows && output_shape[1]
        == columns;
    assert(shaped == (output_shape@ =~= seq![rows, columns]));
    rows > 0 && inner > 0 && right_inner == inner && columns > 0 && is_blas_dimension(l[0])
        && is_blas_dimension(l[1]) && is_blas_dimension(r[0]) && is_blas_dimension(r[1])
        && does_matrix_fit(l[0], l[1]) && does_matrix_fit(r[0], r[1]) && does_matrix_fit(
        rows,
        columns,
    ) && shaped
}

/// What the backend says of the gradient of a `ReLU`.
fn assess_relu_backward(
    graph: &Graph,
    output_shape: &[usize],
    input: ValueId,
    upstream: ValueId,
) -> (support: TensorOperationSupport)
    ensures
        support == if same_launchable(*graph, output_shape@, input, upstream) {
            supported(TensorExecutionRoute::Native, Some(0))
        } else {
            shape_unsupported()
        },
{
    elementwise_support(
        is_same_launchable(graph, output_shape, input, upstream),
        TensorExecutionRoute::Native,
    )
}

/// What the backend says of an update of weights.
fn assess_sgd_update(
    graph: &Graph,
    output_shape: &[usize],
    weights: ValueId,
    gradient: ValueId,
) -> (support: TensorOperationSupport)
    ensures
        support == if same_launchable(*graph, output_shape@, weights, gradient) {
            supported(TensorExecutionRoute::Native, Some(0))
        } else {
            shape_unsupported()
        },
{
    elementwise_support(
        is_same_launchable(graph, output_shape, weights, gradient),
        TensorExecutionRoute::Native,
    )
}

/// What the backend says of a mean squared error.
fn assess_mean_squared_error(
    graph: &Graph,
    output_shape: &[usize],
    prediction: ValueId,
    target: ValueId,
) -> (support: TensorOperationSupport)
    ensures
        support == if graph.knows(prediction) && graph.knows(target) && graph.shape_of(prediction)
            == graph.shape_of(target) && output_shape@.len() == 0 && summable(
            graph.shape_of(prediction),
        ) {
            supported(TensorExecutionRoute::Synthesized, None)
        } else {
            shape_unsupported()
        },
{
    let unsupported: TensorOperationSupport = TensorOperationSupport::Unsupported {
        reason: TensorUnsupportedReason::Shape,
    };
    match (graph.shape(prediction), graph.shape(target)) {
        (Ok(left), Ok(right)) => {
            if !same_shape(left, right) || output_shape.len() != 0 {
                return unsupported;
            }
            match checked_extent(1, left) {
                Some(count) => if count > 0 && count <= i32::MAX as usize {
                    TensorOperationSupport::Supported {
                        route: TensorExecutionRoute::Synthesized,
                        workspace_bytes: None,
                    }
                } else {
                    unsupported
                },
                None => unsupported,
            }
        },
        _ => unsupported,
    }
}

/// What the backend says of a node while the library can be used.
pub fn assess_tensor_node(graph: &Graph, node: NodeDescriptor<'_>) -> (support:
    TensorOperationSupport)
    ensures
        support == assessment(*graph, node@),
{
    match node.op {
        OpDescriptor::Uniform { .. } => elementwise_support(
            !shape_holds_zero(node.shape),
            TensorExecutionRoute::Native,
        ),
        OpDescriptor::Input => elementwise_support(true, TensorExecutionRoute::Native),
        OpDescriptor::Constant(_) => elementwise_support(true, TensorExecutionRoute::Native),
        OpDescriptor::MatMul { left, right, transpose_left, transpose_right } => {
            if matmul_shape_supported(
                graph,
                node.shape,
                left,
                right,
                transpose_left,
                transpose_right,
            ) {
                TensorOperationSupport::Supported {
                    route: TensorExecutionRoute::Library,
                    workspace_bytes: None,
                }
            } else {
                TensorOperationSupport::Unsupported { reason: TensorUnsupportedReason::Shape }
            }
        },
        OpDescriptor::Add { left, right }
        | OpDescriptor::Sub { left, right }
        | OpDescriptor::Mul { left, right } => elementwise_support(
            is_same_launchable(graph, node.shape, left, right),
            TensorExecutionRoute::Synthesized,
        ),
        OpDescriptor::Relu { input } => elementwise_support(
            is_same_launchable(graph, node.shape, input, input),
            TensorExecutionRoute::Synthesized,
        ),
        OpDescriptor::ReluBackward { input, upstream } => assess_relu_backward(
            graph,
            node.shape,
            input,
            upstream,
        ),
        OpDescriptor::SgdUpdate { weights, gradient, .. } => assess_sgd_update(
            graph,
            node.shape,
            weights,
            gradient,
        ),
        OpDescriptor::MeanSquaredError { prediction, target } => assess_mean_squared_error(
            graph,
            node.shape,
            prediction,
            target,
        ),
    }
}

/// The node can read an operand in this form. One scalar in place of a filled tensor is taken by
/// the elementwise operations on two operands.
pub open spec fn representable(op: OpDescriptor<'_>, representation: TensorOperandRepresentation) -> bool {
    representation is Dense || op is Add || op is Sub || op is Mul
}

/// Whether the node can read an operand in this form.
pub fn rocm_supports_operand_representation(
    node: NodeDescriptor<'_>,
    representation: TensorOperandRepresentation,
) -> (answer: bool)
    ensures
        answer == representable(node.op, representation),
{
    match representation {
        TensorOperandRepresentation::Dense => true,
        TensorOperandRepresentation::UniformScalar => match node.op {
            OpDescriptor::Add { .. } => true,
            OpDescriptor::Sub { .. } => true,
            OpDescriptor::Mul { .. } => true,
            _ => false,
        },
    }
}

/// The node runs through the library.
pub open spec fn needs_library(op: OpDescriptor<'_>) -> bool {
    op is MatMul || op is MeanSquaredError
}

/// The assessor of an opened ROCm session.
pub struct RocmTensorAssessor {
    /// The library handle still completes its work.
    pub library_usable: bool,
}

impl TensorOperationAssessor for RocmTensorAssessor {
    fn assess_node(&self, graph: &Graph, node: NodeDescriptor<'_>) -> (support:
        TensorOperationSupport)
        ensures
            if needs_library(node.op) && !self.library_usable {
                support matches TensorOperationSupport::Unsupported {
                    reason: TensorUnsupportedReason::Other(text),
                } && text@
                    == "rocBLAS completion is uncertain; selected handle cannot run more work"@
            } else {
                support == assessment(*graph, node@)
            },
    {
        let library: bool = match node.op {
            OpDescriptor::MatMul { .. } => true,
            OpDescriptor::MeanSquaredError { .. } => true,
            _ => false,
        };
        if library && !self.library_usable {
            return TensorOperationSupport::Unsupported {
                reason: TensorUnsupportedReason::Other(
                    String::from_str(
                        "rocBLAS completion is uncertain; selected handle cannot run more work",
                    ),
                ),
            };
        }
        assess_tensor_node(graph, node)
    }

    fn supports_operand_representation(
        &self,
        graph: &Graph,
        node: NodeDescriptor<'_>,
        operand: ValueId,
        representation: TensorOperandRepresentation,
    ) -> (supported: bool)
        ensures
            supported == representable(node.op, representation),
    {
        let _ = (graph, operand);
        rocm_supports_operand_representation(node, representation)
    }
}

} // verus!
