//! Tensor descriptors and the arithmetic of shapes.

use vstd::arithmetic::mul::{lemma_mul_inequality, lemma_mul_nonnegative};
use vstd::prelude::*;

use crate::device::{
    AclTensor, DeviceBuffer, TensorView, ACL_FLOAT, ACL_FLOAT16, ACL_FORMAT_FRACTAL_NZ,
    ACL_FORMAT_ND, ACL_INT32,
};
use crate::semantics::{
    covered, element_size, elements, nd_view, padded_elements, reach, row_major,
};

verus! {

/// No axis is negative and byte counts stay in machine range.
pub open spec fn shape_fits(dims: Seq<i64>) -> bool {
    &&& forall|i: int| 0 <= i < dims.len() ==> #[trigger] dims[i] >= 0
    &&& padded_elements(dims) * 4 <= isize::MAX
    &&& padded_elements(dims) * 4 <= i64::MAX
}

/// A `[rows, cols]` view in which every row is the same.
pub open spec fn row_broadcast_view(buffer: DeviceBuffer, rows: i64, cols: i64) -> TensorView {
    TensorView {
        buffer,
        dims: seq![rows, cols],
        strides: seq![0i64, 1i64],
        dtype: ACL_FLOAT16,
        format: ACL_FORMAT_ND,
        storage: Some(seq![cols]),
        op: "aclCreateTensor(row broadcast)"@,
    }
}

/// A `[k, n]` view over memory that holds the `[n, k]` matrix row by row.
pub open spec fn transposed_view(buffer: DeviceBuffer, k: i64, n: i64, op: Seq<char>) -> TensorView {
    TensorView {
        buffer,
        dims: seq![k, n],
        strides: seq![1i64, k],
        dtype: ACL_FLOAT16,
        format: ACL_FORMAT_ND,
        storage: None,
        op,
    }
}

/// A view in the blocked layout.
pub open spec fn nz_view(buffer: DeviceBuffer, dims: Seq<i64>, strides: Seq<i64>) -> TensorView {
    TensorView {
        buffer,
        dims,
        strides,
        dtype: ACL_FLOAT16,
        format: ACL_FORMAT_FRACTAL_NZ,
        storage: Some(dims),
        op: "aclCreateTensor(NZ)"@,
    }
}

pub proof fn lemma_padded_positive(dims: Seq<i64>)
    ensures
        padded_elements(dims) >= 1,
    decreases dims.len(),
{
    if dims.len() > 0 {
        lemma_padded_positive(dims.skip(1));
        let head: int = if dims[0] > 1 {
            dims[0] as int
        } else {
            1
        };
        lemma_mul_inequality(1, head, padded_elements(dims.skip(1)));
    }
}

pub proof fn lemma_padded_skip(dims: Seq<i64>, i: int)
    requires
        0 <= i <= dims.len(),
    ensures
        1 <= padded_elements(dims.skip(i)) <= padded_elements(dims),
    decreases i,
{
    lemma_padded_positive(dims.skip(i));
    if i == 0 {
        assert(dims.skip(0) =~= dims);
    } else {
        lemma_padded_skip(dims, i - 1);
        let before = dims.skip(i - 1);
        assert(before.skip(1) =~= dims.skip(i));
        let head: int = if before[0] > 1 {
            before[0] as int
        } else {
            1
        };
        lemma_mul_inequality(1, head, padded_elements(dims.skip(i)));
    }
}

/// Where no axis is empty the two element counts agree, else there are none.
pub proof fn lemma_elements(dims: Seq<i64>)
    requires
        forall|i: int| 0 <= i < dims.len() ==> #[trigger] dims[i] >= 0,
    ensures
        0 <= elements(dims) <= padded_elements(dims),
        (forall|i: int| 0 <= i < dims.len() ==> #[trigger] dims[i] > 0) ==> elements(dims)
            == padded_elements(dims),
        (exists|i: int| 0 <= i < dims.len() && #[trigger] dims[i] == 0) ==> elements(dims) == 0,
    decreases dims.len(),
{
    if dims.len() > 0 {
        let rest = dims.skip(1);
        assert forall|i: int| 0 <= i < rest.len() implies #[trigger] rest[i] >= 0 by {
            assert(rest[i] == dims[i + 1]);
        }
        lemma_elements(rest);
        lemma_padded_positive(rest);
        let d = dims[0] as int;
        let head: int = if d > 1 {
            d
        } else {
            1
        };
        lemma_mul_nonnegative(d, elements(rest));
        lemma_mul_inequality(d, head, elements(rest));
        lemma_mul_inequality(elements(rest), padded_elements(rest), head);
        assert(elements(rest) * head == head * elements(rest)) by (nonlinear_arith);
        assert(padded_elements(rest) * head == head * padded_elements(rest)) by (nonlinear_arith);
        if forall|i: int| 0 <= i < dims.len() ==> #[trigger] dims[i] > 0 {
            assert forall|i: int| 0 <= i < rest.len() implies #[trigger] rest[i] > 0 by {
                assert(rest[i] == dims[i + 1]);
            }
        }
        if exists|i: int| 0 <= i < dims.len() && #[trigger] dims[i] == 0 {
            let i = choose|i: int| 0 <= i < dims.len() && #[trigger] dims[i] == 0;
            if i > 0 {
                assert(rest[i - 1] == 0);
                assert(d * 0 == 0);
            } else {
                assert(0 * elements(rest) == 0);
            }
        }
    }
}

/// The last element of a contiguous tensor is one before its element count.
pub proof fn lemma_row_major_reach(dims: Seq<i64>)
    requires
        forall|i: int| 0 <= i < dims.len() ==> #[trigger] dims[i] > 0,
        padded_elements(dims) <= i64::MAX,
    ensures
        reach(dims, row_major(dims)) + 1 == padded_elements(dims),
    decreases dims.len(),
{
    if dims.len() > 0 {
        let rest = dims.skip(1);
        assert forall|i: int| 0 <= i < rest.len() implies #[trigger] rest[i] > 0 by {
            assert(rest[i] == dims[i + 1]);
        }
        lemma_padded_skip(dims, 1);
        lemma_row_major_reach(rest);
        assert forall|i: int| 0 <= i < rest.len() implies #[trigger] row_major(dims).skip(1)[i]
            == row_major(rest)[i] by {
            assert(rest.skip(i + 1) =~= dims.skip(i + 2));
        }
        assert(row_major(dims).skip(1) =~= row_major(rest));
        let p = padded_elements(rest);
        assert(row_major(dims)[0] == p);
        let d = dims[0] as int;
        assert((d - 1) * p + p == d * p) by (nonlinear_arith);
    }
}

/// A contiguous descriptor over a buffer of exactly its size stays inside it.
pub proof fn lemma_nd_covered(buffer: DeviceBuffer, dims: Seq<i64>, dtype: u32)
    requires
        shape_fits(dims),
        buffer.len == elements(dims) * element_size(dtype),
    ensures
        covered(nd_view(buffer, dims, dtype)),
{
    lemma_elements(dims);
    let t = nd_view(buffer, dims, dtype);
    assert forall|i: int| 0 <= i < t.strides.len() implies #[trigger] t.strides[i] >= 0 by {
        lemma_padded_skip(dims, i + 1);
    }
    if forall|i: int| 0 <= i < dims.len() ==> #[trigger] dims[i] > 0 {
        lemma_row_major_reach(dims);
    } else {
        let i = choose|i: int| 0 <= i < dims.len() && !(#[trigger] dims[i] > 0);
        assert(t.dims[i] == 0);
    }
}

/// One, where an axis is empty.
pub open spec fn at_least_one(d: i64) -> int {
    if d > 1 {
        d as int
    } else {
        1
    }
}

pub proof fn lemma_one_dim(a: i64)
    ensures
        elements(seq![a]) == a,
        padded_elements(seq![a]) == at_least_one(a),
{
    reveal_with_fuel(elements, 2);
    reveal_with_fuel(padded_elements, 2);
    assert(seq![a].skip(1) =~= Seq::<i64>::empty());
}

pub proof fn lemma_two_dims(a: i64, b: i64)
    ensures
        elements(seq![a, b]) == a * b,
        padded_elements(seq![a, b]) == at_least_one(a) * at_least_one(b),
{
    let s = seq![a, b];
    assert(s.skip(1) =~= seq![b]);
    lemma_one_dim(b);
}

pub proof fn lemma_three_dims(a: i64, b: i64, c: i64)
    ensures
        elements(seq![a, b, c]) == a * (b * c),
        padded_elements(seq![a, b, c]) == at_least_one(a) * (at_least_one(b) * at_least_one(c)),
{
    let s = seq![a, b, c];
    assert(s.skip(1) =~= seq![b, c]);
    lemma_two_dims(b, c);
}

/// A matrix seen as one window can be described where the matrix can.
pub proof fn lemma_one_window(rows: i64, cols: i64)
    requires
        fits(rows, cols),
    ensures
        shape_fits(seq![1i64, rows, cols]),
        elements(seq![1i64, rows, cols]) == rows * cols,
{
    lemma_three_dims(1, rows, cols);
    lemma_two_dims(rows, cols);
    let s = seq![rows, cols];
    assert(s[0] >= 0 && s[1] >= 0);
}

/// A matrix of this size can be described.
pub open spec fn fits(rows: i64, cols: i64) -> bool {
    shape_fits(seq![rows, cols])
}

/// Sizes that follow from those of a matrix stay in range.
pub proof fn lemma_fits(rows: i64, cols: i64)
    requires
        fits(rows, cols),
    ensures
        rows >= 0,
        cols >= 0,
        0 <= rows * cols,
        rows * cols * 4 <= isize::MAX,
        rows * cols * 4 <= i64::MAX,
        rows * 4 <= isize::MAX,
        rows * 4 <= i64::MAX,
        cols * 4 <= isize::MAX,
        cols * 4 <= i64::MAX,
        elements(seq![rows, cols]) == rows * cols,
        shape_fits(seq![rows]),
        shape_fits(seq![cols]),
        fits(rows, 1),
        fits(1, cols),
        fits(cols, rows),
{
    let s = seq![rows, cols];
    assert(s[0] >= 0 && s[1] >= 0);
    lemma_two_dims(rows, cols);
    lemma_two_dims(cols, rows);
    lemma_two_dims(rows, 1);
    lemma_two_dims(1, cols);
    lemma_one_dim(rows);
    lemma_one_dim(cols);
    let a = at_least_one(rows);
    let b = at_least_one(cols);
    assert(0 <= rows * cols <= a * b && a <= a * b && b <= a * b && a * b == b * a)
        by (nonlinear_arith)
        requires
            0 <= rows <= a,
            0 <= cols <= b,
            a >= 1,
            b >= 1,
    ;
}

/// A smaller matrix can be described too.
pub proof fn lemma_fits_smaller(rows: i64, cols: i64, r: i64, c: i64)
    requires
        fits(rows, cols),
        0 <= r <= rows,
        0 <= c <= cols,
    ensures
        fits(r, c),
{
    let s = seq![rows, cols];
    assert(s[0] >= 0 && s[1] >= 0);
    lemma_two_dims(rows, cols);
    lemma_two_dims(r, c);
    let a = at_least_one(rows);
    let b = at_least_one(cols);
    let x = at_least_one(r);
    let y = at_least_one(c);
    assert(x * y <= a * b) by (nonlinear_arith)
        requires
            1 <= x <= a,
            1 <= y <= b,
    ;
}

/// Strides of a contiguous row-major tensor.
fn contiguous_strides(shape: &[i64]) -> (strides: Vec<i64>)
    requires
        shape_fits(shape@),
    ensures
        strides@ == row_major(shape@),
{
    let n: usize = shape.len();
    let mut strides: Vec<i64> = Vec::new();
    let mut fill: usize = 0;
    while fill < n
        invariant
            fill <= n,
            strides@.len() == fill,
        decreases n - fill,
    {
        strides.push(0);
        fill = fill + 1;
    }
    let mut acc: i64 = 1;
    let mut i: usize = n;
    proof {
        assert(shape@.skip(n as int) =~= Seq::<i64>::empty());
    }
    while i > 0
        invariant
            i <= n,
            n == shape@.len(),
            shape_fits(shape@),
            strides@.len() == n,
            acc == padded_elements(shape@.skip(i as int)),
            forall|j: int| i <= j < n ==> #[trigger] strides@[j] == row_major(shape@)[j],
        decreases i,
    {
        i = i - 1;
        strides.set(i, acc);
        let width: i64 = if shape[i] > 1 {
            shape[i]
        } else {
            1
        };
        proof {
            let here = shape@.skip(i as int);
            assert(here.skip(1) =~= shape@.skip(i + 1));
            lemma_padded_skip(shape@, i as int);
            assert(padded_elements(here) == width * acc);
            assert(acc * width == width * acc) by (nonlinear_arith);
        }
        acc = acc * width;
    }
    assert(strides@ =~= row_major(shape@));
    strides
}

/// Number of elements of a shape.
pub fn element_count(shape: &[i64]) -> (count: i64)
    requires
        shape_fits(shape@),
    ensures
        count == elements(shape@),
{
    let n: usize = shape.len();
    let mut acc: i64 = 1;
    let mut i: usize = n;
    proof {
        assert(shape@.skip(n as int) =~= Seq::<i64>::empty());
    }
    while i > 0
        invariant
            i <= n,
            n == shape@.len(),
            shape_fits(shape@),
            acc == elements(shape@.skip(i as int)),
        decreases i,
    {
        i = i - 1;
        proof {
            let here = shape@.skip(i as int);
            assert(here.skip(1) =~= shape@.skip(i + 1));
            assert forall|j: int| 0 <= j < here.len() implies #[trigger] here[j] >= 0 by {
                assert(here[j] == shape@[i + j]);
            }
            lemma_elements(here);
            lemma_padded_skip(shape@, i as int);
            assert(elements(here) == shape@[i as int] * acc);
        }
        acc = shape[i] * acc;
    }
    assert(shape@.skip(0) =~= shape@);
    acc
}

pub(crate) fn copy_dims(shape: &[i64]) -> (dims: Vec<i64>)
    ensures
        dims@ == shape@,
{
    let mut dims: Vec<i64> = Vec::new();
    let mut i: usize = 0;
    while i < shape.len()
        invariant
            i <= shape@.len(),
            dims@ == shape@.subrange(0, i as int),
        decreases shape@.len() - i,
    {
        dims.push(shape[i]);
        i = i + 1;
    }
    assert(shape@.subrange(0, i as int) =~= shape@);
    dims
}

impl AclTensor {
    fn nd(buf: &DeviceBuffer, shape: &[i64], dtype: u32) -> (t: AclTensor)
        requires
            shape_fits(shape@),
            buf.len == elements(shape@) * element_size(dtype),
        ensures
            t@ == nd_view(*buf, shape@, dtype),
            covered(t@),
    {
        proof {
            lemma_nd_covered(*buf, shape@, dtype);
        }
        AclTensor {
            buffer: *buf,
            dims: copy_dims(shape),
            strides: contiguous_strides(shape),
            dtype,
            format: ACL_FORMAT_ND,
            storage: Some(copy_dims(shape)),
            op: "aclCreateTensor",
        }
    }

    /// Contiguous half-precision descriptor over all of `buf`.
    pub fn fp16_nd(buf: &DeviceBuffer, shape: &[i64]) -> (t: AclTensor)
        requires
            shape_fits(shape@),
            buf.len == elements(shape@) * 2,
        ensures
            t@ == nd_view(*buf, shape@, ACL_FLOAT16),
            covered(t@),
    {
        Self::nd(buf, shape, ACL_FLOAT16)
    }

    /// Contiguous single-precision descriptor over all of `buf`.
    pub fn fp32_nd(buf: &DeviceBuffer, shape: &[i64]) -> (t: AclTensor)
        requires
            shape_fits(shape@),
            buf.len == elements(shape@) * 4,
        ensures
            t@ == nd_view(*buf, shape@, ACL_FLOAT),
            covered(t@),
    {
        Self::nd(buf, shape, ACL_FLOAT)
    }

    /// Contiguous 32-bit integer descriptor over all of `buf`.
    pub fn i32_nd(buf: &DeviceBuffer, shape: &[i64]) -> (t: AclTensor)
        requires
            shape_fits(shape@),
            buf.len == elements(shape@) * 4,
        ensures
            t@ == nd_view(*buf, shape@, ACL_INT32),
            covered(t@),
    {
        Self::nd(buf, shape, ACL_INT32)
    }

    /// One row of `cols` elements seen as `rows` equal rows, without a copy.
    pub fn fp16_row_broadcast(buf: &DeviceBuffer, rows: i64, cols: i64) -> (t: AclTensor)
        requires
            rows >= 0,
            cols >= 0,
            buf.len == cols * 2,
        ensures
            t@ == row_broadcast_view(*buf, rows, cols),
            covered(t@),
    {
        let dims: Vec<i64> = vec![rows, cols];
        let strides: Vec<i64> = vec![0, 1];
        let storage: Vec<i64> = vec![cols];
        let t = AclTensor {
            buffer: *buf,
            dims,
            strides,
            dtype: ACL_FLOAT16,
            format: ACL_FORMAT_ND,
            storage: Some(storage),
            op: "aclCreateTensor(row broadcast)",
        };
        proof {
            assert(t@.dims =~= seq![rows, cols]);
            assert(t@.strides =~= seq![0i64, 1i64]);
            assert(storage@ =~= seq![cols]);
            lemma_reach_two(t@.dims, t@.strides);
            if cols == 0 {
                assert(t@.dims[1] == 0);
            }
            assert(t@.dims[0] == rows && t@.dims[1] == cols);
            assert(t@.strides[0] == 0 && t@.strides[1] == 1);
            assert((rows - 1) * 0 + (cols - 1) * 1 == cols - 1) by (nonlinear_arith);
            assert(reach(t@.dims, t@.strides) == (rows - 1) * 0 + (cols - 1) * 1);
        }
        t
    }

    /// A `[k, n]` view over memory that holds the `[n, k]` matrix row by row:
    /// element `(i, j)` is at `j * k + i`.
    pub fn transposed(buf: &DeviceBuffer, k: i64, n: i64, op: &'static str) -> (t: AclTensor)
        requires
            k >= 0,
            n >= 0,
            k * n * 2 <= buf.len,
        ensures
            t@ == transposed_view(*buf, k, n, op@),
            covered(t@),
    {
        let dims: Vec<i64> = vec![k, n];
        let strides: Vec<i64> = vec![1, k];
        let t = AclTensor {
            buffer: *buf,
            dims,
            strides,
            dtype: ACL_FLOAT16,
            format: ACL_FORMAT_ND,
            storage: None,
            op,
        };
        proof {
            assert(t@.dims =~= seq![k, n]);
            assert(t@.strides =~= seq![1i64, k]);
            lemma_reach_two(t@.dims, t@.strides);
            if k == 0 {
                assert(t@.dims[0] == 0);
            } else if n == 0 {
                assert(t@.dims[1] == 0);
            }
            assert((k - 1) * 1 + (n - 1) * k + 1 == k * n) by (nonlinear_arith);
            assert(reach(t@.dims, t@.strides) == (k - 1) * 1 + (n - 1) * k);
            assert(t@.strides[0] == 1 && t@.strides[1] == k);
            assert(t@.dims[0] == k && t@.dims[1] == n);
        }
        t
    }

    /// A descriptor over memory in the blocked layout of
    /// [`host_nz_reorder`](crate::host::host_nz_reorder).
    pub fn fractal_nz(buf: &DeviceBuffer, dims: &[i64], strides: &[i64]) -> (t: AclTensor)
        requires
            covered(nz_view(*buf, dims@, strides@)),
        ensures
            t@ == nz_view(*buf, dims@, strides@),
    {
        AclTensor {
            buffer: *buf,
            dims: copy_dims(dims),
            strides: copy_dims(strides),
            dtype: ACL_FLOAT16,
            format: ACL_FORMAT_FRACTAL_NZ,
            storage: Some(copy_dims(dims)),
            op: "aclCreateTensor(NZ)",
        }
    }
}

pub proof fn lemma_reach_two(dims: Seq<i64>, strides: Seq<i64>)
    requires
        dims.len() == 2,
        strides.len() == 2,
    ensures
        reach(dims, strides) == (dims[0] - 1) * strides[0] + (dims[1] - 1) * strides[1],
{
    reveal_with_fuel(reach, 3);
    assert(dims.skip(1).skip(1) =~= Seq::<i64>::empty());
    assert(strides.skip(1).skip(1) =~= Seq::<i64>::empty());
}

} // verus!
