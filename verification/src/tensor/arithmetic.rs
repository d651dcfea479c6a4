//! The floating-point operations that the reference evaluator is run with.
use vstd::prelude::*;

verus! {

/// Binary32 arithmetic on bit patterns, supplied by whoever runs the reference evaluator.
///
/// Nothing is promised of a result: rounding and the payload of a NaN belong to the machine. What
/// is proved of the evaluator is which operations it performs, on which operands and in which
/// order.
pub trait F32Arithmetic {
    fn sum(left: u32, right: u32) -> u32;

    fn difference(left: u32, right: u32) -> u32;

    fn product(left: u32, right: u32) -> u32;

    fn quotient(left: u32, right: u32) -> u32;

    fn maximum(left: u32, right: u32) -> u32;

    /// The nearest value to an element count.
    fn from_count(count: usize) -> u32;
}

/// `result` is what `sum` may return for these operands.
pub open spec fn sums<A: F32Arithmetic>(left: u32, right: u32, result: u32) -> bool {
    call_ensures(A::sum, (left, right), result)
}

/// `result` is what `difference` may return for these operands.
pub open spec fn differs<A: F32Arithmetic>(left: u32, right: u32, result: u32) -> bool {
    call_ensures(A::difference, (left, right), result)
}

/// `result` is what `product` may return for these operands.
pub open spec fn multiplies<A: F32Arithmetic>(left: u32, right: u32, result: u32) -> bool {
    call_ensures(A::product, (left, right), result)
}

/// `result` is what `quotient` may return for these operands.
pub open spec fn divides<A: F32Arithmetic>(left: u32, right: u32, result: u32) -> bool {
    call_ensures(A::quotient, (left, right), result)
}

/// `result` is what `maximum` may return for these operands.
pub open spec fn maximizes<A: F32Arithmetic>(left: u32, right: u32, result: u32) -> bool {
    call_ensures(A::maximum, (left, right), result)
}

/// `result` is what `from_count` may return for this count.
pub open spec fn counts<A: F32Arithmetic>(count: usize, result: u32) -> bool {
    call_ensures(A::from_count, (count,), result)
}

} // verus!
