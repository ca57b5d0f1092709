//! Host-side rearrangement and encoding of data on its way to the device.

use vstd::arithmetic::div_mod::{
    lemma_fundamental_div_mod, lemma_fundamental_div_mod_converse, lemma_mod_bound,
};
use vstd::prelude::*;

use crate::device::DeviceBuffer;
use crate::semantics::{covered, reach};
use crate::tensor::{lemma_reach_two, nz_view};

verus! {

/// `s` read as a `[rows, cols]` matrix of two-byte words, transposed. Words
/// past the matrix become zero, an odd trailing byte is dropped.
pub open spec fn transpose_words<T>(s: Seq<T>, rows: int, cols: int, zero: T) -> Seq<T> {
    Seq::new(
        (s.len() / 2 * 2) as nat,
        |p: int|
            if p / 2 < rows * cols {
                s[2 * (p / 2 % rows * cols + p / 2 / rows) + p % 2]
            } else {
                zero
            },
    )
}

/// Row and column of word `w` of a matrix that is stored column by column.
pub proof fn lemma_column_major(w: int, rows: int, cols: int)
    requires
        0 <= w < rows * cols,
        0 <= rows,
        0 <= cols,
    ensures
        rows > 0,
        cols > 0,
        0 <= w % rows < rows,
        0 <= w / rows < cols,
        0 <= w % rows * cols + w / rows < rows * cols,
        w == w / rows * rows + w % rows,
{
    assert(rows > 0 && cols > 0) by (nonlinear_arith)
        requires
            0 < rows * cols,
            0 <= rows,
            0 <= cols,
    ;
    lemma_fundamental_div_mod(w, rows);
    lemma_mod_bound(w, rows);
    let q = w / rows;
    let r = w % rows;
    assert(rows * q == q * rows) by (nonlinear_arith);
    assert(0 <= q < cols) by (nonlinear_arith)
        requires
            w == rows * q + r,
            0 <= r < rows,
            0 <= w < rows * cols,
    ;
    assert(0 <= r * cols + q < rows * cols) by (nonlinear_arith)
        requires
            0 <= q < cols,
            0 <= r < rows,
    ;
}

/// The word at row `r` and column `c` of a column-by-column matrix.
proof fn lemma_column_major_at(r: int, c: int, rows: int, cols: int)
    requires
        0 <= r < rows,
        0 <= c < cols,
    ensures
        (c * rows + r) % rows == r,
        (c * rows + r) / rows == c,
        0 <= c * rows + r < rows * cols,
{
    assert(0 <= c * rows + r < rows * cols) by (nonlinear_arith)
        requires
            0 <= r < rows,
            0 <= c < cols,
    ;
    assert(c * rows + r == rows * c + r) by (nonlinear_arith);
    lemma_fundamental_div_mod_converse(c * rows + r, rows, c, r);
}

/// Transpose a `[rows, cols]` half-precision matrix.
pub fn host_transpose(host: &[u8], rows: i64, cols: i64) -> (out: Vec<u8>)
    requires
        rows >= 0,
        cols >= 0,
        rows <= usize::MAX,
        cols <= usize::MAX,
        rows * cols <= host@.len() / 2,
    ensures
        out@ == transpose_words(host@, rows as int, cols as int, 0u8),
{
    let words: usize = host.len() / 2;
    let r_count: usize = rows as usize;
    let c_count: usize = cols as usize;
    let total: usize = r_count * c_count;
    let ghost goal = transpose_words(host@, rows as int, cols as int, 0u8);
    let mut out: Vec<u8> = Vec::new();
    let mut w: usize = 0;
    while w < words
        invariant
            w <= words,
            words == host@.len() / 2,
            r_count == rows,
            c_count == cols,
            total == rows * cols,
            rows >= 0,
            cols >= 0,
            total <= words,
            words * 2 <= usize::MAX,
            goal == transpose_words(host@, rows as int, cols as int, 0u8),
            out@.len() == 2 * w,
            forall|p: int| 0 <= p < 2 * w ==> #[trigger] out@[p] == goal[p],
        decreases words - w,
    {
        if w < total {
            proof {
                lemma_column_major(w as int, rows as int, cols as int);
            }
            let r: usize = w % r_count;
            let c: usize = w / r_count;
            proof {
                assert(0 <= r * cols) by (nonlinear_arith)
                    requires
                        r >= 0,
                        cols >= 0,
                ;
            }
            let at: usize = r * c_count + c;
            out.push(host[2 * at]);
            out.push(host[2 * at + 1]);
        } else {
            out.push(0);
            out.push(0);
        }
        assert((2 * w) as int / 2 == w && (2 * w) as int % 2 == 0);
        assert((2 * w + 1) as int / 2 == w && (2 * w + 1) as int % 2 == 1);
        w = w + 1;
    }
    assert(out@ =~= goal);
    out
}

/// A `[k, n]` view with strides `[1, k]` over the transposed matrix reads element
/// `(i, j)` of the matrix, byte by byte.
pub proof fn lemma_transposed_element<T>(w: Seq<T>, k: int, n: int, i: int, j: int, b: int, zero: T)
    requires
        0 <= i < k,
        0 <= j < n,
        0 <= b < 2,
        2 * (k * n) <= w.len(),
    ensures
        transpose_words(w, k, n, zero)[2 * (i * 1 + j * k) + b] == w[2 * (i * n + j) + b],
{
    lemma_column_major_at(i, j, k, n);
    assert((2 * (i * 1 + j * k) + b) / 2 == j * k + i);
    assert((2 * (i * 1 + j * k) + b) % 2 == b);
}

/// Transposing twice gives the matrix back.
pub proof fn lemma_transpose_twice<T>(w: Seq<T>, rows: int, cols: int, zero: T)
    requires
        rows >= 0,
        cols >= 0,
        2 * (rows * cols) == w.len(),
    ensures
        transpose_words(transpose_words(w, rows, cols, zero), cols, rows, zero) == w,
{
    let once = transpose_words(w, rows, cols, zero);
    let twice = transpose_words(once, cols, rows, zero);
    assert(rows * cols == cols * rows) by (nonlinear_arith);
    assert forall|p: int| 0 <= p < w.len() implies #[trigger] twice[p] == w[p] by {
        let x = p / 2;
        lemma_column_major(x, cols, rows);
        let c = x % cols;
        let r = x / cols;
        let from = 2 * (c * rows + r) + p % 2;
        assert(twice[p] == once[from]);
        assert(from / 2 == c * rows + r && from % 2 == p % 2);
        lemma_column_major_at(r, c, rows, cols);
        assert(once[from] == w[2 * (r * cols + c) + p % 2]);
    }
    assert(twice =~= w);
}

/// Blocks of sixteen that cover `n`.
pub open spec fn blocks(n: int) -> int {
    (n + 15) / 16
}

/// A `[rows, cols]` matrix of two-byte words in blocks of sixteen by sixteen:
/// blocks column by column, each block row by row, zero outside the matrix.
pub open spec fn nz_words(s: Seq<u8>, rows: int, cols: int) -> Seq<u8> {
    let h = blocks(rows);
    Seq::new(
        (blocks(cols) * h * 512) as nat,
        |p: int|
            {
                let w = p / 2;
                let r = w / 256 % h * 16 + w % 256 / 16;
                let c = w / 256 / h * 16 + w % 16;
                if r < rows && c < cols {
                    s[2 * (r * cols + c) + p % 2]
                } else {
                    0
                }
            },
    )
}

/// Rearrange a `[rows, cols]` half-precision matrix into the blocked layout.
/// Returns the bytes and the dimensions and strides that describe them.
pub fn host_nz_reorder(host: &[u8], rows: i64, cols: i64) -> (out: (Vec<u8>, Vec<i64>, Vec<i64>))
    requires
        rows >= 0,
        cols >= 0,
        rows * cols <= host@.len() / 2,
        blocks(cols as int) * blocks(rows as int) * 512 <= usize::MAX,
        blocks(rows as int) * 256 <= i64::MAX,
        rows <= usize::MAX - 15,
        cols <= usize::MAX - 15,
    ensures
        out.0@ == nz_words(host@, rows as int, cols as int),
        out.1@ == seq![
            blocks(cols as int) as i64,
            blocks(rows as int) as i64,
            16i64,
            16i64,
        ],
        out.2@ == seq![(blocks(rows as int) * 256) as i64, 256i64, 16i64, 1i64],
{
    let r_count: usize = rows as usize;
    let c_count: usize = cols as usize;
    let h: usize = (r_count + 15) / 16;
    let v: usize = (c_count + 15) / 16;
    let ghost goal = nz_words(host@, rows as int, cols as int);
    proof {
        assert(0 <= v * h) by (nonlinear_arith)
            requires
                v >= 0,
                h >= 0,
        ;
    }
    let words: usize = v * h * 256;
    let host_words: usize = host.len() / 2;
    let mut bytes: Vec<u8> = Vec::new();
    let mut w: usize = 0;
    while w < words
        invariant
            w <= words,
            h == blocks(rows as int),
            v == blocks(cols as int),
            words == v * h * 256,
            words * 2 <= usize::MAX,
            host_words == host@.len() / 2,
            host_words * 2 <= usize::MAX,
            r_count == rows,
            c_count == cols,
            rows >= 0,
            cols >= 0,
            rows <= usize::MAX - 15,
            cols <= usize::MAX - 15,
            rows * cols <= host@.len() / 2,
            goal == nz_words(host@, rows as int, cols as int),
            goal.len() == 2 * words,
            bytes@.len() == 2 * w,
            forall|p: int| 0 <= p < 2 * w ==> #[trigger] bytes@[p] == goal[p],
        decreases words - w,
    {
        let block: usize = w / 256;
        proof {
            assert(block < v * h);
            lemma_column_major(block as int, h as int, v as int);
            assert(h * v == v * h) by (nonlinear_arith);
        }
        let r: usize = block % h * 16 + w % 256 / 16;
        let c: usize = block / h * 16 + w % 16;
        if r < r_count && c < c_count {
            proof {
                assert(0 <= r * cols && r * cols + c < rows * cols) by (nonlinear_arith)
                    requires
                        0 <= r < rows,
                        0 <= c < cols,
                ;
            }
            let at: usize = r * c_count + c;
            bytes.push(host[2 * at]);
            bytes.push(host[2 * at + 1]);
        } else {
            bytes.push(0);
            bytes.push(0);
        }
        assert((2 * w) as int / 2 == w && (2 * w) as int % 2 == 0);
        assert((2 * w + 1) as int / 2 == w && (2 * w + 1) as int % 2 == 1);
        w = w + 1;
    }
    assert(bytes@ =~= goal);
    let dims: Vec<i64> = vec![v as i64, h as i64, 16, 16];
    let strides: Vec<i64> = vec![h as i64 * 256, 256, 16, 1];
    assert(dims@ =~= seq![
        blocks(cols as int) as i64,
        blocks(rows as int) as i64,
        16i64,
        16i64,
    ]);
    assert(strides@ =~= seq![(blocks(rows as int) * 256) as i64, 256i64, 16i64, 1i64]);
    (bytes, dims, strides)
}

/// Where the strides of the blocked layout lead from block column `c / 16`, block
/// row `r / 16`, row `r % 16` and column `c % 16`, in words.
pub open spec fn nz_offset(rows: int, r: int, c: int) -> int {
    c / 16 * (blocks(rows) * 256) + r / 16 * 256 + r % 16 * 16 + c % 16 * 1
}

proof fn lemma_nz_offset(rows: int, cols: int, r: int, c: int)
    requires
        0 <= rows,
        0 <= cols,
        0 <= r < blocks(rows) * 16,
        0 <= c < blocks(cols) * 16,
    ensures
        ({
            let at = nz_offset(rows, r, c);
            let h = blocks(rows);
            &&& 0 <= at < blocks(cols) * h * 256
            &&& at / 256 % h * 16 + at % 256 / 16 == r
            &&& at / 256 / h * 16 + at % 16 == c
        }),
{
    let h = blocks(rows);
    let v = blocks(cols);
    let hb = r / 16;
    let wb = c / 16;
    lemma_column_major_at(hb, wb, h, v);
    let block = wb * h + hb;
    let inner = r % 16 * 16 + c % 16;
    let at = nz_offset(rows, r, c);
    assert(wb * (h * 256) == wb * h * 256) by (nonlinear_arith);
    assert(h * v == v * h) by (nonlinear_arith);
    assert(at == block * 256 + inner);
    lemma_block(at, block, inner);
}

proof fn lemma_block(at: int, block: int, inner: int)
    requires
        at == block * 256 + inner,
        0 <= inner < 256,
        0 <= block,
    ensures
        at / 256 == block,
        at % 256 == inner,
        at % 16 == inner % 16,
{
}

/// In the blocked layout the strides lead to element `(r, c)` of the matrix.
pub proof fn lemma_nz_element(s: Seq<u8>, rows: int, cols: int, r: int, c: int, b: int)
    requires
        0 <= r < rows,
        0 <= c < cols,
        0 <= b < 2,
        2 * (rows * cols) <= s.len(),
    ensures
        0 <= 2 * nz_offset(rows, r, c) + b < nz_words(s, rows, cols).len(),
        nz_words(s, rows, cols)[2 * nz_offset(rows, r, c) + b] == s[2 * (r * cols + c) + b],
{
    lemma_nz_offset(rows, cols, r, c);
    let p = 2 * nz_offset(rows, r, c) + b;
    assert(p / 2 == nz_offset(rows, r, c) && p % 2 == b);
}

/// What a block covers outside the matrix is zero.
pub proof fn lemma_nz_padding(s: Seq<u8>, rows: int, cols: int, r: int, c: int, b: int)
    requires
        0 <= rows,
        0 <= cols,
        0 <= r < blocks(rows) * 16,
        0 <= c < blocks(cols) * 16,
        r >= rows || c >= cols,
        0 <= b < 2,
    ensures
        0 <= 2 * nz_offset(rows, r, c) + b < nz_words(s, rows, cols).len(),
        nz_words(s, rows, cols)[2 * nz_offset(rows, r, c) + b] == 0,
{
    lemma_nz_offset(rows, cols, r, c);
    let p = 2 * nz_offset(rows, r, c) + b;
    assert(p / 2 == nz_offset(rows, r, c) && p % 2 == b);
}

/// A descriptor with the dimensions and strides of [`host_nz_reorder`] stays
/// inside a buffer that holds its bytes.
pub proof fn lemma_nz_covered(buffer: DeviceBuffer, rows: i64, cols: i64)
    requires
        0 <= rows,
        0 <= cols,
        blocks(rows as int) * 256 <= i64::MAX,
        buffer.len == blocks(cols as int) * blocks(rows as int) * 512,
    ensures
        covered(
            nz_view(
                buffer,
                seq![
                    blocks(cols as int) as i64,
                    blocks(rows as int) as i64,
                    16i64,
                    16i64,
                ],
                seq![(blocks(rows as int) * 256) as i64, 256i64, 16i64, 1i64],
            ),
        ),
{
    let h = blocks(rows as int);
    let v = blocks(cols as int);
    let dims = seq![v as i64, h as i64, 16i64, 16i64];
    let strides = seq![(h * 256) as i64, 256i64, 16i64, 1i64];
    let t = nz_view(buffer, dims, strides);
    let d1 = dims.skip(1);
    let s1 = strides.skip(1);
    let d2 = d1.skip(1);
    let s2 = s1.skip(1);
    assert(d1[0] == h && s1[0] == 256 && d2[0] == 16 && s2[0] == 16 && d2[1] == 16 && s2[1] == 1);
    lemma_reach_two(d2, s2);
    assert(reach(d1, s1) == (h - 1) * 256 + reach(d2, s2));
    assert(reach(dims, strides) == (v - 1) * (h * 256) + reach(d1, s1));
    if h == 0 {
        assert(t.dims[1] == 0);
    } else if v == 0 {
        assert(t.dims[0] == 0);
    } else {
        assert(reach(dims, strides) == (v - 1) * (h * 256) + (h - 1) * 256 + 15 * 16 + 15);
        assert((v - 1) * (h * 256) + (h - 1) * 256 + 256 == v * h * 256) by (nonlinear_arith);
    }
}

} // verus!
