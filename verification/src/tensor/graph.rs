//! The append-only graph: its operations, its well-formedness and its builders.
use vstd::prelude::*;
use vstd::slice::slice_to_vec;

use super::bits::{finite, is_finite};
use super::error::{TensorError, ValueId};
use super::value::{element_count, extent, extent_fits, same_shape, Tensor};

verus! {

/// One graph operation, with the tensors and values it holds.
#[derive(Debug)]
pub enum Op {
    Input,
    Constant(Tensor),
    Uniform(u32),
    Add(ValueId, ValueId),
    Sub(ValueId, ValueId),
    Mul(ValueId, ValueId),
    SgdUpdate(ValueId, ValueId, u32),
    MatMul(ValueId, ValueId, bool, bool),
    Relu(ValueId),
    ReluBackward(ValueId, ValueId),
    MeanSquaredError(ValueId, ValueId),
}

/// The elementwise operations that share one builder.
#[derive(Clone, Copy, Debug)]
pub enum BinaryOp {
    Add,
    Sub,
    Mul,
}

impl BinaryOp {
    /// The graph operation that this stands for.
    pub open spec fn applied(self, left: ValueId, right: ValueId) -> Op {
        match self {
            BinaryOp::Add => Op::Add(left, right),
            BinaryOp::Sub => Op::Sub(left, right),
            BinaryOp::Mul => Op::Mul(left, right),
        }
    }
}

/// The values that an operation reads, in operand order.
pub open spec fn reads(op: Op) -> Seq<ValueId> {
    match op {
        Op::Input | Op::Constant(_) | Op::Uniform(_) => Seq::empty(),
        Op::Add(a, b) => seq![a, b],
        Op::Sub(a, b) => seq![a, b],
        Op::Mul(a, b) => seq![a, b],
        Op::SgdUpdate(a, b, _) => seq![a, b],
        Op::MatMul(a, b, _, _) => seq![a, b],
        Op::Relu(x) => seq![x],
        Op::ReluBackward(a, b) => seq![a, b],
        Op::MeanSquaredError(a, b) => seq![a, b],
    }
}

/// The values that an operation reads, in operand order.
pub fn operands(op: &Op) -> (values: Vec<ValueId>)
    ensures
        values@ == reads(*op),
{
    let (first, second): (Option<ValueId>, Option<ValueId>) = match op {
        Op::Add(a, b) => (Some(*a), Some(*b)),
        Op::Sub(a, b) => (Some(*a), Some(*b)),
        Op::Mul(a, b) => (Some(*a), Some(*b)),
        Op::SgdUpdate(a, b, _) => (Some(*a), Some(*b)),
        Op::MatMul(a, b, _, _) => (Some(*a), Some(*b)),
        Op::MeanSquaredError(a, b) => (Some(*a), Some(*b)),
        Op::Relu(x) => (Some(*x), None),
        Op::ReluBackward(a, b) => (Some(*a), Some(*b)),
        Op::Input => (None, None),
        Op::Constant(_) => (None, None),
        Op::Uniform(_) => (None, None),
    };
    let mut values: Vec<ValueId> = Vec::new();
    if let Some(value) = first {
        values.push(value);
    }
    if let Some(value) = second {
        values.push(value);
    }
    assert(values@ =~= reads(*op));
    values
}

/// One node: what it computes and the shape of its value.
#[derive(Debug)]
pub struct Node {
    pub op: Op,
    pub shape: Vec<usize>,
}

/// The rows and inner extent of the left factor of a product.
pub open spec fn left_dims(shape: Seq<usize>, transposed: bool) -> (usize, usize) {
    if transposed {
        (shape[1], shape[0])
    } else {
        (shape[0], shape[1])
    }
}

/// The inner extent and columns of the right factor of a product.
pub open spec fn right_dims(shape: Seq<usize>, transposed: bool) -> (usize, usize) {
    if transposed {
        (shape[1], shape[0])
    } else {
        (shape[0], shape[1])
    }
}

/// Two shapes are those of matrices that can be multiplied under these transposes.
pub open spec fn multipliable(
    left: Seq<usize>,
    right: Seq<usize>,
    transpose_left: bool,
    transpose_right: bool,
) -> bool {
    &&& left.len() == 2
    &&& right.len() == 2
    &&& left_dims(left, transpose_left).1 == right_dims(right, transpose_right).0
}

/// The shape of the product of two multipliable matrices.
pub open spec fn product_shape(
    left: Seq<usize>,
    right: Seq<usize>,
    transpose_left: bool,
    transpose_right: bool,
) -> Seq<usize> {
    seq![left_dims(left, transpose_left).0, right_dims(right, transpose_right).1]
}

/// `value` stands before place `at` in the graph `id`.
pub open spec fn precedes(id: u64, at: int, value: ValueId) -> bool {
    value.graph_id == id && value.index < at
}

/// The node at `at` reads only earlier nodes, and its shape is the one its operation gives.
pub open spec fn node_wf(id: u64, nodes: Seq<Node>, at: int) -> bool {
    let node = nodes[at];
    &&& extent_fits(1, node.shape@)
    &&& forall|k: int|
        0 <= k < reads(node.op).len() ==> precedes(id, at, #[trigger] reads(node.op)[k])
    &&& match node.op {
        Op::Input | Op::Uniform(_) => true,
        Op::Constant(tensor) => tensor.wf() && tensor.shape@ == node.shape@,
        Op::Add(a, b) => shapes_agree(nodes, node, a, b),
        Op::Sub(a, b) => shapes_agree(nodes, node, a, b),
        Op::Mul(a, b) => shapes_agree(nodes, node, a, b),
        Op::SgdUpdate(a, b, rate) => shapes_agree(nodes, node, a, b) && finite(rate),
        Op::ReluBackward(a, b) => shapes_agree(nodes, node, a, b),
        Op::Relu(x) => nodes[x.index as int].shape@ == node.shape@,
        Op::MatMul(a, b, tl, tr) => {
            let left = nodes[a.index as int].shape@;
            let right = nodes[b.index as int].shape@;
            multipliable(left, right, tl, tr) && node.shape@ == product_shape(left, right, tl, tr)
        },
        Op::MeanSquaredError(a, b) => {
            &&& nodes[a.index as int].shape@ == nodes[b.index as int].shape@
            &&& extent(1, nodes[a.index as int].shape@) > 0
            &&& node.shape@.len() == 0
        },
    }
}

/// Both operands have the node's own shape.
pub open spec fn shapes_agree(nodes: Seq<Node>, node: Node, a: ValueId, b: ValueId) -> bool {
    nodes[a.index as int].shape@ == node.shape@ && nodes[b.index as int].shape@ == node.shape@
}

/// Hands out the identities of graphs.
#[derive(Debug)]
pub struct GraphIds {
    pub next: u64,
}

impl GraphIds {
    /// Starts counting at one.
    pub fn new() -> (ids: GraphIds)
        ensures
            ids.next == 1,
    {
        GraphIds { next: 1 }
    }

    /// The next identity. The counter wraps around.
    pub fn next_graph_id(&mut self) -> (id: u64)
        ensures
            id == old(self).next,
            final(self).next == if old(self).next == u64::MAX {
                0
            } else {
                old(self).next + 1
            },
    {
        let id: u64 = self.next;
        self.next = id.wrapping_add(1);
        id
    }
}

/// What a counter of graph identities holds after `count` of them.
pub open spec fn counted_ids(first: u64, count: nat) -> u64
    decreases count,
{
    if count == 0 {
        first
    } else {
        let previous = counted_ids(first, (count - 1) as nat);
        if previous == u64::MAX {
            0
        } else {
            (previous + 1) as u64
        }
    }
}

proof fn lemma_counted_ids(first: u64, count: nat)
    ensures
        counted_ids(first, count) == (first + count) % 0x1_0000_0000_0000_0000,
    decreases count,
{
    if count > 0 {
        lemma_counted_ids(first, (count - 1) as nat);
    }
}

/// Fewer than two to the 64th identities taken one after another are all different.
pub proof fn law_graph_ids_differ(first: u64, earlier: nat, later: nat)
    requires
        earlier < later,
        later - earlier < 0x1_0000_0000_0000_0000,
    ensures
        counted_ids(first, earlier) != counted_ids(first, later),
{
    lemma_counted_ids(first, earlier);
    lemma_counted_ids(first, later);
}

/// An append-only graph builder. Value identifiers are graph-local.
#[derive(Debug)]
pub struct Graph {
    pub id: u64,
    pub nodes: Vec<Node>,
}

impl Graph {
    /// Every node reads only nodes before it and has the shape that its operation gives.
    pub open spec fn wf(self) -> bool {
        forall|i: int| 0 <= i < self.nodes@.len() ==> #[trigger] node_wf(self.id, self.nodes@, i)
    }

    /// `value` is one of this graph's.
    pub open spec fn knows(self, value: ValueId) -> bool {
        value.graph_id == self.id && value.index < self.nodes@.len()
    }

    /// The shape of one of this graph's values.
    pub open spec fn shape_of(self, value: ValueId) -> Seq<usize> {
        self.nodes@[value.index as int].shape@
    }

    /// The value at a place in append order.
    pub open spec fn value_at(self, at: int) -> ValueId {
        ValueId { graph_id: self.id, index: at as usize }
    }

    /// The next value that this graph will hand out.
    pub open spec fn next_value(self) -> ValueId {
        self.value_at(self.nodes@.len() as int)
    }

    /// `self` is `before` with one node appended.
    pub open spec fn extends(self, before: Graph, op: Op, shape: Seq<usize>) -> bool {
        &&& self.id == before.id
        &&& self.nodes@.len() == before.nodes@.len() + 1
        &&& self.nodes@.drop_last() == before.nodes@
        &&& self.nodes@.last().op == op
        &&& self.nodes@.last().shape@ == shape
    }

    /// What a builder of two equally shaped operands answers, and what it leaves.
    pub open spec fn same_shape_outcome(
        self,
        after: Graph,
        left: ValueId,
        right: ValueId,
        op: Op,
        answer: Result<ValueId, TensorError>,
    ) -> bool {
        if !self.knows(left) {
            answer == Err::<ValueId, TensorError>(TensorError::UnknownValue(left)) && after == self
        } else if !self.knows(right) {
            answer == Err::<ValueId, TensorError>(TensorError::UnknownValue(right)) && after == self
        } else if self.shape_of(left) != self.shape_of(right) {
            &&& answer matches Err(e)
            &&& e.reports_mismatch(self.shape_of(left), self.shape_of(right))
            &&& after == self
        } else {
            &&& answer == Ok::<ValueId, TensorError>(self.next_value())
            &&& after.extends(self, op, self.shape_of(left))
        }
    }

    /// What the builder of a matrix product answers, and what it leaves.
    pub open spec fn matmul_outcome(
        self,
        after: Graph,
        left: ValueId,
        right: ValueId,
        transpose_left: bool,
        transpose_right: bool,
        answer: Result<ValueId, TensorError>,
    ) -> bool {
        if !self.knows(left) {
            answer == Err::<ValueId, TensorError>(TensorError::UnknownValue(left)) && after == self
        } else if !self.knows(right) {
            answer == Err::<ValueId, TensorError>(TensorError::UnknownValue(right)) && after == self
        } else {
            let l = self.shape_of(left);
            let r = self.shape_of(right);
            let shape = product_shape(l, r, transpose_left, transpose_right);
            if !multipliable(l, r, transpose_left, transpose_right) {
                answer matches Err(e) && e.reports_matmul(l, r) && after == self
            } else if !extent_fits(1, shape) {
                answer == Err::<ValueId, TensorError>(TensorError::ShapeOverflow) && after == self
            } else {
                &&& answer == Ok::<ValueId, TensorError>(self.next_value())
                &&& after.extends(
                    self,
                    Op::MatMul(left, right, transpose_left, transpose_right),
                    shape,
                )
            }
        }
    }

    /// An empty graph. Graphs that are in use together need different identities; the process
    /// that makes them hands those out.
    pub fn new(id: u64) -> (graph: Graph)
        ensures
            graph.wf(),
            graph.id == id,
            graph.nodes@.len() == 0,
    {
        Graph { id, nodes: Vec::new() }
    }

    /// Appends a node and returns its value.
    fn push(&mut self, op: Op, shape: Vec<usize>) -> (value: ValueId)
        requires
            old(self).wf(),
            forall|after: Graph|
                after.extends(*old(self), op, shape@) ==> node_wf(
                    after.id,
                    after.nodes@,
                    old(self).nodes@.len() as int,
                ),
        ensures
            final(self).wf(),
            final(self).extends(*old(self), op, shape@),
            value == old(self).next_value(),
    {
        let value: ValueId = ValueId { graph_id: self.id, index: self.nodes.len() };
        self.nodes.push(Node { op, shape });
        proof {
            assert(self.nodes@.drop_last() =~= old(self).nodes@);
            assert(self.extends(*old(self), op, shape@));
            lemma_extension_keeps_nodes(*old(self), *self);
        }
        value
    }

    /// The shape of a graph value.
    ///
    /// # Errors
    ///
    /// `UnknownValue` if `value` does not belong to this graph.
    pub fn shape(&self, value: ValueId) -> (shape: Result<&[usize], TensorError>)
        ensures
            match shape {
                Ok(s) => self.knows(value) && s@ == self.shape_of(value),
                Err(e) => !self.knows(value) && e == TensorError::UnknownValue(value),
            },
    {
        if value.graph_id == self.id && value.index < self.nodes.len() {
            Ok(self.nodes[value.index].shape.as_slice())
        } else {
            Err(TensorError::UnknownValue(value))
        }
    }

    /// Adds an input value with the supplied shape.
    ///
    /// # Errors
    ///
    /// `ShapeOverflow` if the shape's element count overflows.
    pub fn input(&mut self, shape: Vec<usize>) -> (answer: Result<ValueId, TensorError>)
        requires
            old(self).wf(),
        ensures
            final(self).wf(),
            if extent_fits(1, shape@) {
                &&& answer == Ok::<ValueId, TensorError>(old(self).next_value())
                &&& final(self).extends(*old(self), Op::Input, shape@)
            } else {
                &&& answer == Err::<ValueId, TensorError>(TensorError::ShapeOverflow)
                &&& *final(self) == *old(self)
            },
    {
        match element_count(shape.as_slice()) {
            Ok(_) => Ok(self.push(Op::Input, shape)),
            Err(e) => Err(e),
        }
    }

    /// Adds a constant.
    pub fn constant(&mut self, value: Tensor) -> (made: ValueId)
        requires
            old(self).wf(),
            value.wf(),
        ensures
            final(self).wf(),
            made == old(self).next_value(),
            exists|kept: Tensor|
                kept@ == value@ && final(self).extends(*old(self), Op::Constant(kept), value@.shape),
    {
        let shape: Vec<usize> = slice_to_vec(value.shape.as_slice());
        self.push(Op::Constant(value), shape)
    }

    /// Adds a compact constant with the supplied logical shape. Only the scalar is stored; the
    /// value is the dense tensor filled with it.
    ///
    /// # Errors
    ///
    /// `ShapeOverflow` if the logical element count overflows.
    pub fn uniform(&mut self, shape: Vec<usize>, value: u32) -> (answer: Result<ValueId, TensorError>)
        requires
            old(self).wf(),
        ensures
            final(self).wf(),
            if extent_fits(1, shape@) {
                &&& answer == Ok::<ValueId, TensorError>(old(self).next_value())
                &&& final(self).extends(*old(self), Op::Uniform(value), shape@)
            } else {
                &&& answer == Err::<ValueId, TensorError>(TensorError::ShapeOverflow)
                &&& *final(self) == *old(self)
            },
    {
        match element_count(shape.as_slice()) {
            Ok(_) => Ok(self.push(Op::Uniform(value), shape)),
            Err(e) => Err(e),
        }
    }

    /// Adds two values with identical shapes.
    ///
    /// # Errors
    ///
    /// `UnknownValue` for a value of another graph, `ShapeMismatch` when the shapes differ.
    pub fn add(&mut self, a: ValueId, b: ValueId) -> (answer: Result<ValueId, TensorError>)
        requires
            old(self).wf(),
        ensures
            final(self).wf(),
            old(self).same_shape_outcome(*final(self), a, b, Op::Add(a, b), answer),
    {
        self.same_shape_binary(a, b, BinaryOp::Add)
    }

    /// Subtracts two values with identical shapes, without broadcasting.
    ///
    /// # Errors
    ///
    /// `UnknownValue` for a value of another graph, `ShapeMismatch` when the shapes differ.
    pub fn sub(&mut self, a: ValueId, b: ValueId) -> (answer: Result<ValueId, TensorError>)
        requires
            old(self).wf(),
        ensures
            final(self).wf(),
            old(self).same_shape_outcome(*final(self), a, b, Op::Sub(a, b), answer),
    {
        self.same_shape_binary(a, b, BinaryOp::Sub)
    }

    /// Multiplies two values elementwise with identical shapes, without broadcasting.
    ///
    /// # Errors
    ///
    /// `UnknownValue` for a value of another graph, `ShapeMismatch` when the shapes differ.
    pub fn mul(&mut self, a: ValueId, b: ValueId) -> (answer: Result<ValueId, TensorError>)
        requires
            old(self).wf(),
        ensures
            final(self).wf(),
            old(self).same_shape_outcome(*final(self), a, b, Op::Mul(a, b), answer),
    {
        self.same_shape_binary(a, b, BinaryOp::Mul)
    }

    fn same_shape_binary(&mut self, a: ValueId, b: ValueId, operation: BinaryOp) -> (answer: Result<
        ValueId,
        TensorError,
    >)
        requires
            old(self).wf(),
        ensures
            final(self).wf(),
            old(self).same_shape_outcome(*final(self), a, b, operation.applied(a, b), answer),
    {
        let shape: Vec<usize> = self.agreed_shape(a, b)?;
        let op: Op = match operation {
            BinaryOp::Add => Op::Add(a, b),
            BinaryOp::Sub => Op::Sub(a, b),
            BinaryOp::Mul => Op::Mul(a, b),
        };
        Ok(self.push(op, shape))
    }

    /// The shape that two values share.
    fn agreed_shape(&self, a: ValueId, b: ValueId) -> (shape: Result<Vec<usize>, TensorError>)
        requires
            self.wf(),
        ensures
            match shape {
                Ok(s) => {
                    &&& self.knows(a)
                    &&& self.knows(b)
                    &&& s@ == self.shape_of(a)
                    &&& s@ == self.shape_of(b)
                    &&& extent_fits(1, s@)
                },
                Err(e) => if !self.knows(a) {
                    e == TensorError::UnknownValue(a)
                } else if !self.knows(b) {
                    e == TensorError::UnknownValue(b)
                } else {
                    &&& self.shape_of(a) != self.shape_of(b)
                    &&& e.reports_mismatch(self.shape_of(a), self.shape_of(b))
                },
            },
    {
        let left: &[usize] = self.shape(a)?;
        let right: &[usize] = self.shape(b)?;
        assert(node_wf(self.id, self.nodes@, a.index as int));
        if !same_shape(left, right) {
            return Err(
                TensorError::ShapeMismatch { left: slice_to_vec(left), right: slice_to_vec(right) },
            );
        }
        Ok(slice_to_vec(left))
    }

    /// Adds an elementwise SGD update, `weights - learning_rate * gradient`.
    ///
    /// # Errors
    ///
    /// `UnknownValue` for values of another graph, `ShapeMismatch` for differing shapes, and
    /// `InvalidLearningRate` when the rate is not finite.
    pub fn sgd_update(&mut self, weights: ValueId, gradient: ValueId, learning_rate: u32) -> (answer:
        Result<ValueId, TensorError>)
        requires
            old(self).wf(),
        ensures
            final(self).wf(),
            if old(self).knows(weights) && old(self).knows(gradient) && old(self).shape_of(weights)
                == old(self).shape_of(gradient) && !finite(learning_rate) {
                &&& answer == Err::<ValueId, TensorError>(TensorError::InvalidLearningRate)
                &&& *final(self) == *old(self)
            } else {
                old(self).same_shape_outcome(
                    *final(self),
                    weights,
                    gradient,
                    Op::SgdUpdate(weights, gradient, learning_rate),
                    answer,
                )
            },
    {
        let shape: Vec<usize> = self.agreed_shape(weights, gradient)?;
        if !is_finite(learning_rate) {
            return Err(TensorError::InvalidLearningRate);
        }
        Ok(self.push(Op::SgdUpdate(weights, gradient, learning_rate), shape))
    }

    /// Adds a rank-two matrix multiplication.
    ///
    /// # Errors
    ///
    /// `UnknownValue` for a value of another graph, `MatMulShape` for incompatible shapes, and
    /// `ShapeOverflow` if the output element count overflows.
    pub fn matmul(&mut self, a: ValueId, b: ValueId) -> (answer: Result<ValueId, TensorError>)
        requires
            old(self).wf(),
        ensures
            final(self).wf(),
            old(self).matmul_outcome(*final(self), a, b, false, false, answer),
    {
        self.matmul_transposed(a, b, false, false)
    }

    /// Adds a rank-two matrix multiplication with optional logical transposes on its operands.
    /// Inputs remain in their original row-major shapes; no transpose is materialized.
    ///
    /// # Errors
    ///
    /// `UnknownValue` for a value of another graph, `MatMulShape` for incompatible or non-matrix
    /// shapes, and `ShapeOverflow` if the output element count overflows.
    pub fn matmul_transposed(
        &mut self,
        a: ValueId,
        b: ValueId,
        transpose_left: bool,
        transpose_right: bool,
    ) -> (answer: Result<ValueId, TensorError>)
        requires
            old(self).wf(),
        ensures
            final(self).wf(),
            old(self).matmul_outcome(
                *final(self),
                a,
                b,
                transpose_left,
                transpose_right,
                answer,
            ),
    {
        let left: Vec<usize> = slice_to_vec(self.shape(a)?);
        let right: Vec<usize> = slice_to_vec(self.shape(b)?);
        if left.len() != 2 || right.len() != 2 {
            return Err(TensorError::MatMulShape { left, right });
        }
        let (left_rows, left_inner): (usize, usize) = if transpose_left {
            (left[1], left[0])
        } else {
            (left[0], left[1])
        };
        let (right_inner, right_columns): (usize, usize) = if transpose_right {
            (right[1], right[0])
        } else {
            (right[0], right[1])
        };
        if left_inner != right_inner {
            return Err(TensorError::MatMulShape { left, right });
        }
        let mut shape: Vec<usize> = Vec::new();
        shape.push(left_rows);
        shape.push(right_columns);
        assert(shape@ =~= product_shape(left@, right@, transpose_left, transpose_right));
        match element_count(shape.as_slice()) {
            Ok(_) => Ok(self.push(Op::MatMul(a, b, transpose_left, transpose_right), shape)),
            Err(e) => Err(e),
        }
    }

    /// Adds an elementwise `ReLU` operation.
    ///
    /// # Errors
    ///
    /// `UnknownValue` for a value of another graph.
    pub fn relu(&mut self, x: ValueId) -> (answer: Result<ValueId, TensorError>)
        requires
            old(self).wf(),
        ensures
            final(self).wf(),
            if old(self).knows(x) {
                &&& answer == Ok::<ValueId, TensorError>(old(self).next_value())
                &&& final(self).extends(*old(self), Op::Relu(x), old(self).shape_of(x))
            } else {
                &&& answer == Err::<ValueId, TensorError>(TensorError::UnknownValue(x))
                &&& *final(self) == *old(self)
            },
    {
        let shape: Vec<usize> = slice_to_vec(self.shape(x)?);
        assert(node_wf(self.id, self.nodes@, x.index as int));
        Ok(self.push(Op::Relu(x), shape))
    }

    /// Adds the `ReLU` derivative `input > 0 ? upstream : 0` elementwise. Zero and NaN inputs both
    /// give zero.
    ///
    /// # Errors
    ///
    /// `UnknownValue` for a value of another graph, `ShapeMismatch` when the shapes differ.
    pub fn relu_backward(&mut self, input: ValueId, upstream: ValueId) -> (answer: Result<
        ValueId,
        TensorError,
    >)
        requires
            old(self).wf(),
        ensures
            final(self).wf(),
            old(self).same_shape_outcome(
                *final(self),
                input,
                upstream,
                Op::ReluBackward(input, upstream),
                answer,
            ),
    {
        let shape: Vec<usize> = self.agreed_shape(input, upstream)?;
        Ok(self.push(Op::ReluBackward(input, upstream), shape))
    }

    /// Adds a scalar mean-squared-error operation over equally shaped values.
    ///
    /// # Errors
    ///
    /// `UnknownValue` for a value of another graph, `ShapeMismatch` for differing or empty shapes.
    pub fn mean_squared_error(&mut self, prediction: ValueId, target: ValueId) -> (answer: Result<
        ValueId,
        TensorError,
    >)
        requires
            old(self).wf(),
        ensures
            final(self).wf(),
            if old(self).knows(prediction) && old(self).knows(target) && old(self).shape_of(
                prediction,
            ) == old(self).shape_of(target) {
                if extent(1, old(self).shape_of(prediction)) == 0 {
                    &&& answer matches Err(e)
                    &&& e.reports_mismatch(
                        old(self).shape_of(prediction),
                        old(self).shape_of(target),
                    )
                    &&& *final(self) == *old(self)
                } else {
                    &&& answer == Ok::<ValueId, TensorError>(old(self).next_value())
                    &&& final(self).extends(
                        *old(self),
                        Op::MeanSquaredError(prediction, target),
                        Seq::empty(),
                    )
                }
            } else {
                old(self).same_shape_outcome(
                    *final(self),
                    prediction,
                    target,
                    Op::MeanSquaredError(prediction, target),
                    answer,
                )
            },
    {
        let shape: Vec<usize> = self.agreed_shape(prediction, target)?;
        let count: usize = match element_count(shape.as_slice()) {
            Ok(n) => n,
            Err(e) => {
                return Err(e);
            },
        };
        if count == 0 {
            let right: Vec<usize> = slice_to_vec(shape.as_slice());
            return Err(TensorError::ShapeMismatch { left: shape, right });
        }
        Ok(self.push(Op::MeanSquaredError(prediction, target), Vec::new()))
    }
}

/// An extension keeps what every earlier node was.
pub proof fn lemma_extension_keeps_nodes(before: Graph, after: Graph)
    requires
        before.wf(),
        after.id == before.id,
        after.nodes@.len() >= before.nodes@.len(),
        after.nodes@.take(before.nodes@.len() as int) == before.nodes@,
    ensures
        forall|i: int|
            0 <= i < before.nodes@.len() ==> #[trigger] node_wf(after.id, after.nodes@, i),
        forall|i: int| 0 <= i < before.nodes@.len() ==> after.nodes@[i] == before.nodes@[i],
{
    assert forall|i: int| 0 <= i < before.nodes@.len() implies after.nodes@[i]
        == before.nodes@[i] by {
        assert(after.nodes@.take(before.nodes@.len() as int)[i] == before.nodes@[i]);
    }
    assert forall|i: int| 0 <= i < before.nodes@.len() implies #[trigger] node_wf(
        after.id,
        after.nodes@,
        i,
    ) by {
        assert(node_wf(before.id, before.nodes@, i));
        let read = reads(before.nodes@[i].op);
        assert forall|k: int| 0 <= k < read.len() implies after.nodes@[(
        #[trigger] read[k]).index as int] == before.nodes@[read[k].index as int] by {
            assert(precedes(before.id, i, read[k]));
        }
        match before.nodes@[i].op {
            Op::Add(a, b) => { assert(read[0] == a && read[1] == b); },
            Op::Sub(a, b) => { assert(read[0] == a && read[1] == b); },
            Op::Mul(a, b) => { assert(read[0] == a && read[1] == b); },
            Op::SgdUpdate(a, b, _) => { assert(read[0] == a && read[1] == b); },
            Op::MatMul(a, b, _, _) => { assert(read[0] == a && read[1] == b); },
            Op::ReluBackward(a, b) => { assert(read[0] == a && read[1] == b); },
            Op::MeanSquaredError(a, b) => { assert(read[0] == a && read[1] == b); },
            Op::Relu(x) => { assert(read[0] == x); },
            _ => {},
        }
    }
}

} // verus!
