//! Value identities and the errors of graph construction, planning and evaluation.
use vstd::prelude::*;

verus! {

/// A graph value: the graph it belongs to and its place in append order.
#[derive(Clone, Copy, Debug, PartialEq, Eq, Hash, Structural)]
pub struct ValueId {
    pub graph_id: u64,
    pub index: usize,
}

/// Why a graph operation was refused.
#[derive(Clone, Debug, PartialEq, Eq)]
pub enum TensorError {
    ShapeOverflow,
    DataLength { expected: usize, actual: usize },
    UnknownValue(ValueId),
    ShapeMismatch { left: Vec<usize>, right: Vec<usize> },
    MatMulShape { left: Vec<usize>, right: Vec<usize> },
    LossMustBeScalar(Vec<usize>),
    MissingInput(ValueId),
    DuplicateInput(ValueId),
    ExtraInput(ValueId),
    EmptyOutputs,
    DuplicateOutput(ValueId),
    FeedbackRequiresMultipleBanks(usize),
    WrongGraph,
    GraphChanged,
    InvalidSeed,
    InvalidLearningRate,
    GradientRootNotMse(ValueId),
    UnsupportedGradient(ValueId),
}

impl TensorError {
    /// The error is a shape mismatch that reports these two shapes.
    pub open spec fn reports_mismatch(self, left: Seq<usize>, right: Seq<usize>) -> bool {
        self matches TensorError::ShapeMismatch { left: l, right: r } && l@ == left && r@ == right
    }

    /// The error is a refused matrix product that reports these two shapes.
    pub open spec fn reports_matmul(self, left: Seq<usize>, right: Seq<usize>) -> bool {
        self matches TensorError::MatMulShape { left: l, right: r } && l@ == left && r@ == right
    }

    /// Two errors report the same: they are equal once their shapes are taken by what they hold.
    pub open spec fn reports_like(self, other: TensorError) -> bool {
        match self {
            TensorError::ShapeMismatch { left, right } => other.reports_mismatch(left@, right@),
            TensorError::MatMulShape { left, right } => other.reports_matmul(left@, right@),
            TensorError::LossMustBeScalar(shape) => other matches TensorError::LossMustBeScalar(
                own,
            ) && own@ == shape@,
            _ => self == other,
        }
    }
}

/// Whether `values` holds `value`.
pub fn contains_value(values: &[ValueId], value: ValueId) -> (found: bool)
    ensures
        found == values@.contains(value),
{
    let mut at: usize = 0;
    while at < values.len()
        invariant
            at <= values.len(),
            forall|i: int| 0 <= i < at ==> values@[i] != value,
        decreases values.len() - at,
    {
        if values[at] == value {
            assert(values@[at as int] == value);
            return true;
        }
        at += 1;
    }
    false
}

} // verus!
