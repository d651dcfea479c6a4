//! Row-major matrix products through a column-major library.
use vstd::prelude::*;

use super::error::RocmTensorError;
use crate::tensor::graph::{left_dims, right_dims};

verus! {

/// What a memory resource may be used for.
#[derive(Debug, Clone, Copy, PartialEq, Eq, Structural)]
pub enum PcuMemoryAccess {
    ReadOnly,
    WriteOnly,
    ReadWrite,
}

impl PcuMemoryAccess {
    /// The resource can be read.
    pub open spec fn reads(self) -> bool {
        self is ReadOnly || self is ReadWrite
    }

    /// The resource can be written.
    pub open spec fn writes(self) -> bool {
        self is WriteOnly || self is ReadWrite
    }

    /// Whether the resource can be read.
    pub fn readable(self) -> (answer: bool)
        ensures
            answer == self.reads(),
    {
        self == PcuMemoryAccess::ReadOnly || self == PcuMemoryAccess::ReadWrite
    }

    /// Whether the resource can be written.
    pub fn writable(self) -> (answer: bool)
        ensures
            answer == self.writes(),
    {
        self == PcuMemoryAccess::WriteOnly || self == PcuMemoryAccess::ReadWrite
    }
}

/// A product of column-major matrices: an `m` by `k` and a `k` by `n` matrix give an `m` by `n`
/// matrix. The scale of the product is one, that of the old result zero.
#[derive(Debug, Clone, Copy, PartialEq, Eq, Structural)]
pub struct SgemmCall {
    /// The first matrix, which is the right operand of the row-major product, is transposed.
    pub transpose_first: bool,
    /// The second matrix, which is the left operand of the row-major product, is transposed.
    pub transpose_second: bool,
    pub m: usize,
    pub n: usize,
    pub k: usize,
    pub first_stride: usize,
    pub second_stride: usize,
    pub output_stride: usize,
}

/// A matrix of this size can be allocated.
pub open spec fn matrix_fits(rows: usize, columns: usize) -> bool {
    rows * columns <= usize::MAX && rows * columns * 4 <= usize::MAX
}

/// The call that a row-major product is made with, or why there is none.
pub open spec fn row_major_call(
    a: (PcuMemoryAccess, Seq<usize>, bool),
    b: (PcuMemoryAccess, Seq<usize>, bool),
    c: PcuMemoryAccess,
) -> Result<SgemmCall, RocmTensorError> {
    let (rows, inner) = left_dims(a.1, a.2);
    let (right_inner, columns) = right_dims(b.1, b.2);
    if inner != right_inner || rows == 0 || inner == 0 || columns == 0 {
        Err(RocmTensorError::InvalidShape)
    } else if !(matrix_fits(a.1[0], a.1[1]) && matrix_fits(b.1[0], b.1[1]) && matrix_fits(rows, columns)) {
        Err(RocmTensorError::DimensionOverflow)
    } else if !(a.0.reads() && b.0.reads() && c.writes()) {
        Err(RocmTensorError::InvalidMemoryAccess)
    } else {
        Ok(
            SgemmCall {
                transpose_first: b.2,
                transpose_second: a.2,
                m: columns,
                n: rows,
                k: inner,
                first_stride: b.1[1],
                second_stride: a.1[1],
                output_stride: columns,
            },
        )
    }
}

/// Whether a matrix of this size can be allocated.
pub fn does_matrix_fit(rows: usize, columns: usize) -> (answer: bool)
    ensures
        answer == matrix_fits(rows, columns),
{
    match rows.checked_mul(columns) {
        Some(count) => count.checked_mul(4).is_some(),
        None => false,
    }
}

/// Plans the library call of a row-major product with optional transposition.
///
/// The library reads the same memory column by column, so that it sees every matrix transposed.
/// It is therefore handed the operands in the other order.
pub fn matmul_row_major_flags(
    a_access: PcuMemoryAccess,
    b_access: PcuMemoryAccess,
    c_access: PcuMemoryAccess,
    a_shape: [usize; 2],
    b_shape: [usize; 2],
    transpose_a: bool,
    transpose_b: bool,
) -> (call: Result<SgemmCall, RocmTensorError>)
    ensures
        call == row_major_call(
            (a_access, a_shape@, transpose_a),
            (b_access, b_shape@, transpose_b),
            c_access,
        ),
{
    let rows: usize = if transpose_a {
        a_shape[1]
    } else {
        a_shape[0]
    };
    let inner: usize = if transpose_a {
        a_shape[0]
    } else {
        a_shape[1]
    };
    let right_inner: usize = if transpose_b {
        b_shape[1]
    } else {
        b_shape[0]
    };
    let columns: usize = if transpose_b {
        b_shape[0]
    } else {
        b_shape[1]
    };
    if inner != right_inner {
        return Err(RocmTensorError::InvalidShape);
    }
    if rows == 0 || inner == 0 || columns == 0 {
        return Err(RocmTensorError::InvalidShape);
    }
    if !does_matrix_fit(a_shape[0], a_shape[1]) || !does_matrix_fit(b_shape[0], b_shape[1]) || !does_matrix_fit(
        rows,
        columns,
    ) {
        return Err(RocmTensorError::DimensionOverflow);
    }
    if !a_access.readable() || !b_access.readable() || !c_access.writable() {
        return Err(RocmTensorError::InvalidMemoryAccess);
    }
    Ok(
        SgemmCall {
            transpose_first: transpose_b,
            transpose_second: transpose_a,
            m: columns,
            n: rows,
            k: inner,
            first_stride: b_shape[1],
            second_stride: a_shape[1],
            output_stride: columns,
        },
    )
}

/// Plans the library call of a plain row-major product.
pub fn matmul_row_major(
    a_access: PcuMemoryAccess,
    b_access: PcuMemoryAccess,
    c_access: PcuMemoryAccess,
    rows: usize,
    inner: usize,
    columns: usize,
) -> (call: Result<SgemmCall, RocmTensorError>)
    ensures
        call == row_major_call(
            (a_access, seq![rows, inner], false),
            (b_access, seq![inner, columns], false),
            c_access,
        ),
{
    let a_shape: [usize; 2] = [rows, inner];
    let b_shape: [usize; 2] = [inner, columns];
    assert(a_shape@ =~= seq![rows, inner]);
    assert(b_shape@ =~= seq![inner, columns]);
    matmul_row_major_flags(a_access, b_access, c_access, a_shape, b_shape, false, false)
}

/// Where a column-major matrix keeps an element.
pub open spec fn column_major(stride: int, row: int, column: int) -> int {
    column * stride + row
}

/// Where a row-major matrix keeps an element.
pub open spec fn row_major(columns: int, row: int, column: int) -> int {
    row * columns + column
}

/// Where the library reads an element of a matrix, which it may read transposed.
pub open spec fn library_reads(stride: int, transposed: bool, row: int, column: int) -> int {
    if transposed {
        column_major(stride, column, row)
    } else {
        column_major(stride, row, column)
    }
}

/// Where a row-major matrix, taken transposed or not, keeps an element.
pub open spec fn caller_reads(columns: int, transposed: bool, row: int, column: int) -> int {
    if transposed {
        row_major(columns, column, row)
    } else {
        row_major(columns, row, column)
    }
}

/// The library adds up the products that the row-major product is made of: it reads the elements
/// of both operands, and writes the element of the result, where a row-major reader expects them.
pub proof fn law_call_computes_the_row_major_product(
    a: (PcuMemoryAccess, Seq<usize>, bool),
    b: (PcuMemoryAccess, Seq<usize>, bool),
    c: PcuMemoryAccess,
    row: int,
    column: int,
    inner: int,
)
    requires
        a.1.len() == 2,
        b.1.len() == 2,
        row_major_call(a, b, c) is Ok,
        0 <= row < left_dims(a.1, a.2).0,
        0 <= inner < left_dims(a.1, a.2).1,
        0 <= column < right_dims(b.1, b.2).1,
    ensures
        ({
            let call = row_major_call(a, b, c)->Ok_0;
            &&& column < call.m && row < call.n && inner < call.k
            &&& library_reads(call.first_stride as int, call.transpose_first, column, inner)
                == caller_reads(b.1[1] as int, b.2, inner, column)
            &&& library_reads(call.second_stride as int, call.transpose_second, inner, row)
                == caller_reads(a.1[1] as int, a.2, row, inner)
            &&& column_major(call.output_stride as int, column, row) == row_major(
                right_dims(b.1, b.2).1 as int,
                row,
                column,
            )
        }),
{
}

} // verus!
