//! What the operations compute, element by element, and which rows of their operands a
//! row of their result depends on.

use vstd::arithmetic::div_mod::{lemma_fundamental_div_mod, lemma_fundamental_div_mod_converse};
use vstd::prelude::*;

use crate::device::{Entry, Layout, Real, ACL_INT32};
use crate::encode::{byte_of, index_bytes};
use crate::host::{lemma_column_major, lemma_transposed_element, transpose_words};
use crate::ops::attention::{
    batch_attention_value, bsh_attention_value, row_width, scale_of,
};
use crate::ops::elementwise::{
    add_value, bias_value, gelu_entry, gelu_value, row_broadcast, ONE,
};
use crate::ops::matmul::{
    aligned_rows, matmul_value, mm_b_t_value, mm_value, transposed, zero_padded,
};
use crate::ops::norm::layer_norm_value;
use crate::ops::rows::{cat_value, columns_value, gather_value, replicate_value, zero_indices};
use crate::ops::rotary::rotated_value;
use crate::ops::{fp16, result};
use crate::semantics::{
    axis, dense, element_of, elements, index_word, literal, made, nd, padded_elements, part_at,
    position,
    row_major, row_of, scalar, stretch, stretches, window_of, SymByte, TensorValue,
};
use crate::tensor::{at_least_one, lemma_one_dim, lemma_three_dims, lemma_two_dims};

verus! {

/// Where byte `c` of line `r` lies, and back.
pub proof fn lemma_line(r: int, line: int, c: int, rows: int)
    requires
        0 <= r < rows,
        0 <= c < line,
    ensures
        (r * line + c) / line == r,
        (r * line + c) % line == c,
        0 <= r * line + c < rows * line,
{
    assert(r * line + c == line * r + c && 0 <= r * line + c < rows * line) by (nonlinear_arith)
        requires
            0 <= r < rows,
            0 <= c < line,
    ;
    lemma_fundamental_div_mod_converse(r * line + c, line, r, c);
}

/// The line of a byte that lies in lines `[first, end)`.
proof fn lemma_in_lines(i: int, line: int, first: int, end: int)
    requires
        line > 0,
        first * line <= i < end * line,
    ensures
        first <= i / line < end,
        i / line * line <= i < (i / line + 1) * line,
        first * line <= i / line * line,
        (i / line + 1) * line <= end * line,
        i % line == i - i / line * line,
{
    lemma_fundamental_div_mod(i, line);
    let q = i / line;
    assert(first <= q < end && q * line <= i < (q + 1) * line && first * line <= q * line && (q + 1)
        * line <= end * line && i % line == i - q * line) by (nonlinear_arith)
        requires
            line > 0,
            i == line * q + i % line,
            0 <= i % line < line,
            first * line <= i < end * line,
    ;
}

/// The strides of a packed matrix.
proof fn lemma_matrix(rows: i64, cols: i64)
    requires
        cols >= 0,
    ensures
        row_major(seq![rows, cols]) == seq![at_least_one(cols) as i64, 1i64],
        elements(seq![rows, cols]) == rows * cols,
{
    let dims = seq![rows, cols];
    lemma_one_dim(cols);
    lemma_two_dims(rows, cols);
    assert(dims.skip(1) =~= seq![cols]);
    assert(dims.skip(2) =~= Seq::<i64>::empty());
    assert(padded_elements(Seq::<i64>::empty()) == 1);
    assert(row_major(dims) =~= seq![at_least_one(cols) as i64, 1i64]);
}

/// Where an element of a matrix lies.
proof fn lemma_position(rows: i64, cols: i64, strides: Seq<i64>, e: int)
    requires
        strides.len() == 2,
        cols > 0,
    ensures
        position(seq![rows, cols], strides, e) == e / (cols as int) * strides[0] + e % (cols as int)
            * strides[1],
{
    let dims = seq![rows, cols];
    let rest = dims.skip(1);
    assert(rest =~= seq![cols]);
    lemma_one_dim(cols);
    let f = e % (cols as int);
    assert(rest.skip(1) =~= Seq::<i64>::empty());
    assert(elements(rest.skip(1)) == 1);
    assert(strides.skip(1)[0] == strides[1]);
    assert(position(rest.skip(1), strides.skip(1).skip(1), f % 1) == 0);
    assert(position(rest, strides.skip(1), f) == f / 1 * strides[1] + 0);
}

/// An element of a packed matrix.
pub proof fn lemma_packed_element(x: Seq<SymByte>, rows: i64, cols: i64, e: int)
    requires
        cols > 0,
        0 <= e < rows * cols,
    ensures
        element_of(fp16(x, seq![rows, cols]), e) == scalar(x[2 * e], x[2 * e + 1]),
{
    lemma_matrix(rows, cols);
    lemma_position(rows, cols, row_major(seq![rows, cols]), e);
    lemma_fundamental_div_mod(e, cols as int);
    let strides = row_major(seq![rows, cols]);
    assert(strides[0] == cols && strides[1] == 1);
    assert(e / (cols as int) * strides[0] + e % (cols as int) * strides[1] == e)
        by (nonlinear_arith)
        requires
            strides[0] == cols,
            strides[1] == 1,
            e == cols * (e / (cols as int)) + e % (cols as int),
    ;
}

/// An element of a row that is read as every row of a matrix.
proof fn lemma_broadcast_element(x: Seq<SymByte>, rows: i64, cols: i64, e: int)
    requires
        cols > 0,
        0 <= e < rows * cols,
    ensures
        element_of(row_broadcast(x, rows, cols), e) == scalar(
            x[2 * (e % (cols as int))],
            x[2 * (e % (cols as int)) + 1],
        ),
{
    lemma_position(rows, cols, seq![0i64, 1i64], e);
    let strides = seq![0i64, 1i64];
    assert(e / (cols as int) * strides[0] + e % (cols as int) * strides[1] == e % (cols as int))
        by (nonlinear_arith)
        requires
            strides[0] == 0,
            strides[1] == 1,
    ;
}

/// A byte of a result is what its kernel makes.
pub proof fn lemma_result_byte(
    entry: Entry,
    inputs: Seq<TensorValue>,
    rows: i64,
    cols: i64,
    i: int,
)
    requires
        0 <= i < rows * cols * 2,
        cols >= 0,
    ensures
        result(entry, inputs, seq![rows, cols]).len() == rows * cols * 2,
        result(entry, inputs, seq![rows, cols])[i] == made(entry, inputs, 0, i),
{
    reveal(result);
    lemma_two_dims(rows, cols);
}

/// A byte of the sum of two half-precision words.
pub open spec fn sum_byte(a: (SymByte, SymByte), b: (SymByte, SymByte), byte: int) -> SymByte {
    SymByte::Output {
        entry: Entry::Add { alpha: ONE },
        inputs: seq![scalar(a.0, a.1), scalar(b.0, b.1)],
        output: 0,
        index: byte,
    }
}

/// The word at element `e`.
pub open spec fn word(x: Seq<SymByte>, e: int) -> (SymByte, SymByte) {
    (x[2 * e], x[2 * e + 1])
}

/// An element of a sum is the sum of the elements at its place.
pub proof fn lemma_sum_element(
    a: Seq<SymByte>,
    b: Seq<SymByte>,
    rows: i64,
    cols: i64,
    e: int,
    byte: int,
)
    requires
        0 < cols,
        0 <= e < rows * cols,
        0 <= byte < 2,
    ensures
        add_value(a, b, seq![rows, cols])[2 * e + byte] == sum_byte(word(a, e), word(b, e), byte),
{
    let inputs = seq![fp16(a, seq![rows, cols]), fp16(b, seq![rows, cols])];
    lemma_result_byte(Entry::Add { alpha: ONE }, inputs, rows, cols, 2 * e + byte);
    lemma_packed_element(a, rows, cols, e);
    lemma_packed_element(b, rows, cols, e);
    assert(Seq::new(inputs.len(), |k: int| element_of(inputs[k], (2 * e + byte) / 2)) =~= seq![
        scalar(a[2 * e], a[2 * e + 1]),
        scalar(b[2 * e], b[2 * e + 1]),
    ]);
}

/// An element of a biased matrix is the sum of the matrix's element and of the bias at
/// its column.
pub proof fn lemma_biased_element(
    x: Seq<SymByte>,
    bias: Seq<SymByte>,
    rows: i64,
    cols: i64,
    r: int,
    c: int,
    byte: int,
)
    requires
        0 <= r < rows,
        0 <= c < cols,
        0 <= byte < 2,
    ensures
        0 <= 2 * (r * cols + c) + byte < rows * cols * 2,
        bias_value(x, bias, rows, cols)[2 * (r * cols + c) + byte] == sum_byte(
            word(x, r * cols + c),
            word(bias, c),
            byte,
        ),
{
    let e = r * cols + c;
    lemma_line(r, cols as int, c, rows as int);
    let inputs = seq![fp16(x, seq![rows, cols]), row_broadcast(bias, rows, cols)];
    lemma_result_byte(Entry::Add { alpha: ONE }, inputs, rows, cols, 2 * e + byte);
    lemma_packed_element(x, rows, cols, e);
    lemma_broadcast_element(bias, rows, cols, e);
    assert(Seq::new(inputs.len(), |k: int| element_of(inputs[k], (2 * e + byte) / 2)) =~= seq![
        scalar(x[2 * e], x[2 * e + 1]),
        scalar(bias[2 * c], bias[2 * c + 1]),
    ]);
}

/// A number is made of its four bytes.
proof fn lemma_four_bytes(x: int)
    requires
        0 <= x <= u32::MAX,
    ensures
        x == x % 256 + 256 * (x / 256 % 256) + 65536 * (x / 65536 % 256) + 16777216 * (x / 16777216
            % 256),
{
    vstd::arithmetic::div_mod::lemma_div_denominator(x, 256, 256);
    vstd::arithmetic::div_mod::lemma_div_denominator(x, 65536, 256);
    let a = x / 256;
    let b = x / 65536;
    let c = x / 16777216;
    assert(x == 256 * a + x % 256);
    assert(a == 256 * b + a % 256);
    assert(b == 256 * c + b % 256);
    assert(0 <= c < 256);
}

/// An uploaded index row holds its numbers.
pub proof fn lemma_index_word(n: nat, f: spec_fn(int) -> int, r: int)
    requires
        0 <= r < n,
        0 <= f(r) <= u32::MAX,
    ensures
        index_word(literal(index_bytes(n, f)), r) == Some(f(r)),
{
    let bytes = index_bytes(n, f);
    let x = f(r);
    assert((4 * r) / 4 == r && (4 * r + 1) / 4 == r && (4 * r + 2) / 4 == r && (4 * r + 3) / 4
        == r);
    assert(bytes[4 * r] == byte_of(x, 0));
    assert(bytes[4 * r + 1] == byte_of(x, 1));
    assert(bytes[4 * r + 2] == byte_of(x, 2));
    assert(bytes[4 * r + 3] == byte_of(x, 3));
    lemma_four_bytes(x);
    let s = literal(bytes);
    assert(s[4 * r] == SymByte::Lit(byte_of(x, 0)));
    assert(s[4 * r + 1] == SymByte::Lit(byte_of(x, 1)));
    assert(s[4 * r + 2] == SymByte::Lit(byte_of(x, 2)));
    assert(s[4 * r + 3] == SymByte::Lit(byte_of(x, 3)));
    assert(byte_of(x, 0) == x % 256);
    assert(byte_of(x, 1) == x / 256 % 256);
    assert(byte_of(x, 2) == x / 65536 % 256);
    assert(byte_of(x, 3) == x / 16777216 % 256);
}

/// A gather along the rows of a matrix gives the rows that the indices choose, byte by
/// byte.
pub proof fn lemma_gathered_row(
    table: Seq<SymByte>,
    vocab: i64,
    dim: i64,
    indices: Seq<SymByte>,
    n: i64,
    r: int,
    k: int,
    c: int,
)
    requires
        0 <= r < n,
        0 <= c < dim * 2,
        index_word(indices, r) == Some(k),
        0 <= k < vocab,
        k <= i32::MAX,
    ensures
        0 <= r * (dim * 2) + c < n * dim * 2,
        gather_value(table, vocab, dim, indices, n).len() == n * dim * 2,
        gather_value(table, vocab, dim, indices, n)[r * (dim * 2) + c] == table[k * (dim * 2) + c],
{
    let entry = Entry::GatherV2 { dim: 0 };
    let inputs = seq![fp16(table, seq![vocab, dim]), nd(indices, seq![n], ACL_INT32)];
    let line = dim * 2;
    let i = r * line + c;
    lemma_line(r, line, c, n as int);
    assert(n * line == n * dim * 2) by (nonlinear_arith)
        requires
            line == dim * 2,
    ;
    lemma_result_byte(entry, inputs, n, dim, i);
    let t = inputs[0];
    assert(t.dims.skip(1) =~= seq![dim]);
    lemma_one_dim(dim);
    assert(stretch(t, 1) == line);
    assert(axis(0, t.dims.len()) == 0);
    assert(inputs[1].dims[0] == n);
    vstd::arithmetic::div_mod::lemma_small_mod(r as nat, n as nat);
    vstd::arithmetic::div_mod::lemma_basic_div(r, n as int);
    assert(0 * t.dims[0] + k == k);
}

/// A gather along the columns of a matrix gives in every row the columns that the
/// indices choose, byte by byte.
pub proof fn lemma_rotated_channel(
    x: Seq<SymByte>,
    rows: i64,
    d: i64,
    rot_idx: Seq<SymByte>,
    r: int,
    c: int,
    k: int,
    byte: int,
)
    requires
        0 <= r < rows,
        0 <= c < d,
        index_word(rot_idx, c) == Some(k),
        0 <= k < d,
        k <= i32::MAX,
        0 <= byte < 2,
    ensures
        0 <= 2 * (r * d + c) + byte < rows * d * 2,
        rotated_value(x, rows, d, rot_idx)[2 * (r * d + c) + byte] == x[2 * (r * d + k) + byte],
{
    let entry = Entry::GatherV2 { dim: 1 };
    let inputs = seq![fp16(x, seq![rows, d]), nd(rot_idx, seq![d], ACL_INT32)];
    let e = r * d + c;
    let i = 2 * e + byte;
    lemma_line(r, d as int, c, rows as int);
    assert(rows * d * 2 == 2 * (rows * d));
    lemma_result_byte(entry, inputs, rows, d, i);
    let t = inputs[0];
    assert(t.dims.skip(2) =~= Seq::<i64>::empty());
    assert(elements(Seq::<i64>::empty()) == 1);
    assert(stretch(t, 2) == 2);
    assert(axis(1, t.dims.len()) == 1);
    assert(i / 2 == e && i % 2 == byte);
    assert((r * d + k) * 2 + byte == 2 * (r * d + k) + byte);
}

/// Every row of a replicated row is that row.
pub proof fn lemma_replicated_row(row: Seq<SymByte>, rows: i64, d: i64, r: int, c: int)
    requires
        0 <= r < rows,
        0 <= c < d * 2,
    ensures
        0 <= r * (d * 2) + c < rows * d * 2,
        replicate_value(row, rows, d)[r * (d * 2) + c] == row[c],
{
    let zeros = literal(zero_indices(rows));
    assert(index_word(zeros, r) == Some(0int));
    lemma_gathered_row(row, 1, d, zeros, rows, r, 0, c);
    assert(replicate_value(row, rows, d) == gather_value(row, 1, d, zeros, rows));
}

/// Where part `p` begins, when parts are laid one after the other.
pub open spec fn begins(parts: Seq<Seq<SymByte>>, p: nat) -> int
    decreases p,
{
    if p == 0 {
        0
    } else {
        begins(parts, (p - 1) as nat) + parts[p - 1].len()
    }
}

/// The operands of a concatenation.
spec fn cat_inputs(parts: Seq<Seq<SymByte>>, shapes: Seq<Seq<i64>>) -> Seq<TensorValue> {
    Seq::new(parts.len(), |i: int| fp16(parts[i], shapes[i]))
}

proof fn lemma_begins(parts: Seq<Seq<SymByte>>, shapes: Seq<Seq<i64>>, n: nat)
    requires
        parts.len() == shapes.len(),
        n <= parts.len(),
        forall|i: int|
            0 <= i < parts.len() ==> (#[trigger] parts[i]).len() == elements(shapes[i]) * 2,
    ensures
        stretches(cat_inputs(parts, shapes), 0, n) == begins(parts, n),
        begins(parts, n) >= 0,
    decreases n,
{
    if n > 0 {
        lemma_begins(parts, shapes, (n - 1) as nat);
        let t = cat_inputs(parts, shapes)[n - 1];
        assert(t.dims.skip(0) =~= t.dims);
        assert(parts[n - 1].len() == elements(shapes[n - 1]) * 2);
    }
}

proof fn lemma_begins_grows(parts: Seq<Seq<SymByte>>, p: nat, n: nat)
    requires
        p <= n <= parts.len(),
    ensures
        begins(parts, p) <= begins(parts, n),
    decreases n,
{
    if p < n {
        lemma_begins_grows(parts, p, (n - 1) as nat);
    }
}

proof fn lemma_part_at(
    parts: Seq<Seq<SymByte>>,
    shapes: Seq<Seq<i64>>,
    p: nat,
    b: int,
    n: nat,
)
    requires
        parts.len() == shapes.len(),
        p < n <= parts.len(),
        forall|i: int|
            0 <= i < parts.len() ==> (#[trigger] parts[i]).len() == elements(shapes[i]) * 2,
        begins(parts, p) <= b < begins(parts, p + 1),
    ensures
        part_at(cat_inputs(parts, shapes), 0, b, n) == p,
    decreases n,
{
    lemma_begins(parts, shapes, (n - 1) as nat);
    if p < n - 1 {
        lemma_begins_grows(parts, p + 1, (n - 1) as nat);
        lemma_part_at(parts, shapes, p, b, (n - 1) as nat);
    }
}

/// A concatenation along the first axis is the parts, one after the other.
pub proof fn lemma_joined(
    parts: Seq<Seq<SymByte>>,
    shapes: Seq<Seq<i64>>,
    out_shape: Seq<i64>,
    p: nat,
    c: int,
)
    requires
        parts.len() == shapes.len(),
        p < parts.len(),
        0 <= c < parts[p as int].len(),
        forall|i: int|
            0 <= i < parts.len() ==> (#[trigger] parts[i]).len() == elements(shapes[i]) * 2,
        elements(out_shape) * 2 == begins(parts, parts.len()),
    ensures
        cat_value(parts, shapes, 0, out_shape).len() == begins(parts, parts.len()),
        0 <= begins(parts, p) + c < begins(parts, parts.len()),
        cat_value(parts, shapes, 0, out_shape)[begins(parts, p) + c] == parts[p as int][c],
{
    reveal(result);
    let inputs = cat_inputs(parts, shapes);
    let n = parts.len();
    let i = begins(parts, p) + c;
    let line = begins(parts, n);
    lemma_begins(parts, shapes, n);
    lemma_begins(parts, shapes, p);
    lemma_begins_grows(parts, p + 1, n);
    lemma_part_at(parts, shapes, p, i, n);
    vstd::arithmetic::div_mod::lemma_basic_div(i, line);
    vstd::arithmetic::div_mod::lemma_small_mod(i as nat, line as nat);
    let t = inputs[p as int];
    assert(axis(0, inputs[0].dims.len()) == 0);
    assert(0 * stretch(t, 0) == 0);
    let all = cat_value(parts, shapes, 0, out_shape);
    assert(all[i] == made(Entry::Cat { dim: 0 }, inputs, 0, i));
}

/// The windows of a batch are attended to one by one: the rows of a window are what
/// attention over that window alone gives.
pub proof fn lemma_window(
    q: Seq<SymByte>,
    k: Seq<SymByte>,
    v: Seq<SymByte>,
    batch: i64,
    length: i64,
    heads: i64,
    kv_heads: i64,
    head_dim: i64,
    scale: Option<u64>,
    b: int,
)
    requires
        0 <= b < batch,
        0 <= length,
        0 <= row_width(heads, head_dim),
        0 <= row_width(kv_heads, head_dim),
        q.len() == batch * (length * row_width(heads, head_dim) * 2),
        k.len() == batch * (length * row_width(kv_heads, head_dim) * 2),
        v.len() == batch * (length * row_width(kv_heads, head_dim) * 2),
    ensures
        ({
            let size = length * row_width(heads, head_dim) * 2;
            let kv_size = length * row_width(kv_heads, head_dim) * 2;
            let all = batch_attention_value(
                q,
                k,
                v,
                batch,
                length,
                heads,
                kv_heads,
                head_dim,
                scale,
            );
            &&& all.len() == batch * size
            &&& all.subrange(b * size, (b + 1) * size) == bsh_attention_value(
                q.subrange(b * size, (b + 1) * size),
                k.subrange(b * kv_size, (b + 1) * kv_size),
                v.subrange(b * kv_size, (b + 1) * kv_size),
                length,
                heads,
                kv_heads,
                head_dim,
                scale,
            )
        }),
{
    reveal(result);
    let hq = row_width(heads, head_dim);
    let hk = row_width(kv_heads, head_dim);
    let size = length * hq * 2;
    let kv_size = length * hk * 2;
    let entry = Entry::PromptFlashAttentionV3 {
        heads,
        scale: scale_of(scale, head_dim),
        layout: Layout::Bsh,
        kv_heads,
    };
    let ins = seq![
        fp16(q, seq![batch, length, hq]),
        fp16(k, seq![batch, length, hk]),
        fp16(v, seq![batch, length, hk]),
    ];
    let wq = q.subrange(b * size, (b + 1) * size);
    let wk = k.subrange(b * kv_size, (b + 1) * kv_size);
    let wv = v.subrange(b * kv_size, (b + 1) * kv_size);
    let one = seq![
        fp16(wq, seq![1i64, length, hq]),
        fp16(wk, seq![1i64, length, hk]),
        fp16(wv, seq![1i64, length, hk]),
    ];
    let all = batch_attention_value(q, k, v, batch, length, heads, kv_heads, head_dim, scale);
    let single = bsh_attention_value(wq, wk, wv, length, heads, kv_heads, head_dim, scale);
    lemma_three_dims(batch, length, hq);
    lemma_three_dims(1, length, hq);
    assert(0 <= size && 0 <= kv_size && batch * (length * hq) * 2 == batch * size && 0 <= b * size
        && (b + 1) * size <= batch * size && (b + 1) * size - b * size == size && 0 <= b * kv_size
        && (b + 1) * kv_size <= batch * kv_size && (b + 1) * kv_size - b * kv_size == kv_size)
        by (nonlinear_arith)
        requires
            0 <= b < batch,
            0 <= length,
            0 <= hq,
            0 <= hk,
            size == length * hq * 2,
            kv_size == length * hk * 2,
    ;
    assert(all.len() == batch * size);
    assert(single.len() == size);
    assert forall|c: int| 0 <= c < size implies all.subrange(b * size, (b + 1) * size)[c]
        == single[c] by {
        lemma_line(b, size, c, batch as int);
        let i = b * size + c;
        assert(all[i] == made(entry, ins, 0, i));
        assert(single[c] == made(entry, one, 0, c));
        vstd::arithmetic::div_mod::lemma_basic_div(c, size);
        vstd::arithmetic::div_mod::lemma_small_mod(c as nat, size as nat);
        assert(Seq::new(ins.len(), |k: int| window_of(ins[k], b)) =~= one);
        assert(0 * size == 0 && (0 + 1) * size == size && 0 * kv_size == 0 && (0 + 1) * kv_size
            == kv_size) by (nonlinear_arith);
        assert(wq.subrange(0 * size, (0 + 1) * size) =~= wq);
        assert(wk.subrange(0 * kv_size, (0 + 1) * kv_size) =~= wk);
        assert(wv.subrange(0 * kv_size, (0 + 1) * kv_size) =~= wv);
        assert(Seq::new(one.len(), |k: int| window_of(one[k], 0)) =~= one);
    }
    assert(all.subrange(b * size, (b + 1) * size) =~= single);
}

/// Two matrices of one size agree on rows `[first, end)`.
pub open spec fn rows_agree(
    x: Seq<SymByte>,
    y: Seq<SymByte>,
    cols: int,
    first: int,
    end: int,
) -> bool {
    &&& x.len() == y.len()
    &&& forall|i: int| first * (cols * 2) <= i < end * (cols * 2) ==> #[trigger] x[i] == y[i]
}

/// Bytes of rows inside a matrix.
proof fn lemma_rows_inside(rows: i64, cols: i64, first: int, end: int, i: int)
    requires
        0 <= cols,
        0 <= first,
        end <= rows,
        first * (cols * 2) <= i < end * (cols * 2),
    ensures
        0 < cols,
        0 <= i < rows * cols * 2,
        0 <= i / 2 < rows * cols,
        first * (cols * 2) <= 2 * (i / 2),
        2 * (i / 2) + 1 < end * (cols * 2),
{
    assert(0 < cols && 0 <= i < rows * cols * 2) by (nonlinear_arith)
        requires
            0 <= cols,
            0 <= first,
            end <= rows,
            first * (cols * 2) <= i < end * (cols * 2),
    ;
    let a = first * cols;
    let b = end * cols;
    assert(first * (cols * 2) == 2 * a && end * (cols * 2) == 2 * b) by (nonlinear_arith)
        requires
            a == first * cols,
            b == end * cols,
    ;
}

/// A row of a sum depends on that row of the addends.
pub proof fn lemma_sum_rows(
    x: Seq<SymByte>,
    y: Seq<SymByte>,
    p: Seq<SymByte>,
    q: Seq<SymByte>,
    rows: i64,
    cols: i64,
    first: int,
    end: int,
)
    requires
        0 <= cols,
        0 <= first,
        end <= rows,
        rows_agree(x, y, cols as int, first, end),
        rows_agree(p, q, cols as int, first, end),
    ensures
        rows_agree(
            add_value(x, p, seq![rows, cols]),
            add_value(y, q, seq![rows, cols]),
            cols as int,
            first,
            end,
        ),
{
    reveal(result);
    let u = add_value(x, p, seq![rows, cols]);
    let v = add_value(y, q, seq![rows, cols]);
    assert forall|i: int| first * (cols * 2) <= i < end * (cols * 2) implies #[trigger] u[i]
        == v[i] by {
        lemma_rows_inside(rows, cols, first, end, i);
        let e = i / 2;
        lemma_sum_element(x, p, rows, cols, e, i % 2);
        lemma_sum_element(y, q, rows, cols, e, i % 2);
        assert(i == 2 * e + i % 2);
        assert(x[2 * e] == y[2 * e] && x[2 * e + 1] == y[2 * e + 1]);
        assert(p[2 * e] == q[2 * e] && p[2 * e + 1] == q[2 * e + 1]);
    }
}

/// A row of a biased matrix depends on that row of the matrix and on the bias.
pub proof fn lemma_biased_rows(
    x: Seq<SymByte>,
    y: Seq<SymByte>,
    bias: Seq<SymByte>,
    rows: i64,
    cols: i64,
    first: int,
    end: int,
)
    requires
        0 <= cols,
        0 <= first,
        end <= rows,
        rows_agree(x, y, cols as int, first, end),
    ensures
        rows_agree(
            bias_value(x, bias, rows, cols),
            bias_value(y, bias, rows, cols),
            cols as int,
            first,
            end,
        ),
{
    reveal(result);
    let u = bias_value(x, bias, rows, cols);
    let v = bias_value(y, bias, rows, cols);
    assert forall|i: int| first * (cols * 2) <= i < end * (cols * 2) implies #[trigger] u[i]
        == v[i] by {
        lemma_rows_inside(rows, cols, first, end, i);
        let e = i / 2;
        let r = e / (cols as int);
        let c = e % (cols as int);
        lemma_fundamental_div_mod(e, cols as int);
        assert(0 <= r < rows && e == r * cols + c) by (nonlinear_arith)
            requires
                0 < cols,
                0 <= e < rows * cols,
                e == cols * r + c,
                0 <= c < cols,
        ;
        lemma_biased_element(x, bias, rows, cols, r, c, i % 2);
        lemma_biased_element(y, bias, rows, cols, r, c, i % 2);
        assert(i == 2 * (r * cols + c) + i % 2);
        assert(x[2 * e] == y[2 * e] && x[2 * e + 1] == y[2 * e + 1]);
    }
}

/// A row of a gelu depends on that row of its operand.
pub proof fn lemma_gelu_rows(
    x: Seq<SymByte>,
    y: Seq<SymByte>,
    rows: i64,
    cols: i64,
    tanh_approx: bool,
    first: int,
    end: int,
)
    requires
        0 <= cols,
        0 <= first,
        end <= rows,
        rows_agree(x, y, cols as int, first, end),
    ensures
        rows_agree(
            gelu_value(x, seq![rows, cols], tanh_approx),
            gelu_value(y, seq![rows, cols], tanh_approx),
            cols as int,
            first,
            end,
        ),
{
    reveal(result);
    let u = gelu_value(x, seq![rows, cols], tanh_approx);
    let v = gelu_value(y, seq![rows, cols], tanh_approx);
    let xs = seq![fp16(x, seq![rows, cols])];
    let ys = seq![fp16(y, seq![rows, cols])];
    assert forall|i: int| first * (cols * 2) <= i < end * (cols * 2) implies #[trigger] u[i]
        == v[i] by {
        lemma_rows_inside(rows, cols, first, end, i);
        let e = i / 2;
        lemma_result_byte(gelu_entry(tanh_approx), xs, rows, cols, i);
        lemma_result_byte(gelu_entry(tanh_approx), ys, rows, cols, i);
        lemma_packed_element(x, rows, cols, e);
        lemma_packed_element(y, rows, cols, e);
        assert(x[2 * e] == y[2 * e] && x[2 * e + 1] == y[2 * e + 1]);
        assert(Seq::new(xs.len(), |k: int| element_of(xs[k], e)) =~= Seq::new(
            ys.len(),
            |k: int| element_of(ys[k], e),
        ));
    }
}

/// A row of a layer norm depends on that row of its operand.
pub proof fn lemma_norm_rows(
    x: Seq<SymByte>,
    y: Seq<SymByte>,
    zeros: Seq<SymByte>,
    gamma: Seq<SymByte>,
    beta: Seq<SymByte>,
    rows: i64,
    cols: i64,
    eps: Real,
    first: int,
    end: int,
)
    requires
        0 <= cols,
        0 <= first,
        end <= rows,
        x.len() == rows * cols * 2,
        rows_agree(x, y, cols as int, first, end),
    ensures
        rows_agree(
            layer_norm_value(x, zeros, gamma, beta, rows, cols, eps),
            layer_norm_value(y, zeros, gamma, beta, rows, cols, eps),
            cols as int,
            first,
            end,
        ),
{
    reveal(result);
    let u = layer_norm_value(x, zeros, gamma, beta, rows, cols, eps);
    let v = layer_norm_value(y, zeros, gamma, beta, rows, cols, eps);
    let shape = seq![rows, cols];
    let xs = seq![
        fp16(x, shape),
        fp16(zeros, shape),
        fp16(gamma, seq![cols]),
        fp16(beta, seq![cols]),
    ];
    let ys = seq![
        fp16(y, shape),
        fp16(zeros, shape),
        fp16(gamma, seq![cols]),
        fp16(beta, seq![cols]),
    ];
    let entry = Entry::AddLayerNorm { epsilon: eps };
    let line = cols * 2;
    assert forall|i: int| first * line <= i < end * line implies #[trigger] u[i] == v[i] by {
        lemma_rows_inside(rows, cols, first, end, i);
        lemma_result_byte(entry, xs, rows, cols, i);
        lemma_result_byte(entry, ys, rows, cols, i);
        lemma_in_lines(i, line, first, end);
        let r = i / line;
        lemma_end_inside(rows, cols, end);
        assert(0 <= r * line) by (nonlinear_arith)
            requires
                0 <= first <= r,
                0 <= line,
        ;
        assert(x.subrange(r * line, (r + 1) * line) =~= y.subrange(r * line, (r + 1) * line));
        assert(xs.update(0, row_of(xs[0], r)).update(1, row_of(xs[1], r)) =~= ys.update(
            0,
            row_of(ys[0], r),
        ).update(1, row_of(ys[1], r)));
    }
}

/// The rows in front of `end` are as long as they are.
proof fn lemma_end_inside(rows: i64, cols: i64, end: int)
    requires
        0 <= cols,
        end <= rows,
    ensures
        end * (cols * 2) <= rows * cols * 2,
{
    assert(end * (cols * 2) <= rows * cols * 2) by (nonlinear_arith)
        requires
            0 <= cols,
            end <= rows,
    ;
}

/// A row of a product depends on that row of the left operand and on the right operand.
pub proof fn lemma_product_rows(
    x: Seq<SymByte>,
    y: Seq<SymByte>,
    m: i64,
    k: i64,
    b: TensorValue,
    n: i64,
    first: int,
    end: int,
)
    requires
        0 <= m <= i64::MAX - 16,
        0 <= k,
        0 <= n,
        b.dims.len() == 2,
        b.dims[1] == n,
        x.len() >= m * k * 2,
        0 <= first,
        end <= m,
        rows_agree(x, y, k as int, first, end),
    ensures
        rows_agree(
            matmul_value(x, m, k, b, n),
            matmul_value(y, m, k, b, n),
            n as int,
            first,
            end,
        ),
{
    reveal(result);
    let t = aligned_rows(m);
    let px = zero_padded(x, m * k * 2, t * k * 2);
    let py = zero_padded(y, m * k * 2, t * k * 2);
    let xs = seq![fp16(px, seq![t, k]), b];
    let ys = seq![fp16(py, seq![t, k]), b];
    let entry = Entry::Matmul { cube_math: crate::ops::matmul::CUBE_MATH_KEEP_DTYPE };
    let u = matmul_value(x, m, k, b, n);
    let v = matmul_value(y, m, k, b, n);
    assert(m <= t < m + 16);
    assert(0 <= m * n * 2 <= t * n * 2 && 0 <= m * k * 2 <= t * k * 2) by (nonlinear_arith)
        requires
            0 <= m <= t,
            0 <= n,
            0 <= k,
    ;
    lemma_two_dims(t, n);
    let line = n * 2;
    let left = k * 2;
    assert forall|i: int| first * line <= i < end * line implies #[trigger] u[i] == v[i] by {
        lemma_rows_inside(m, n, first, end, i);
        lemma_result_byte(entry, xs, t, n, i);
        lemma_result_byte(entry, ys, t, n, i);
        lemma_in_lines(i, line, first, end);
        let r = i / line;
        assert(0 <= r * left && first * left <= r * left && (r + 1) * left <= end * left && end
            * left <= m * k * 2 && (r + 1) * left - r * left == left) by (nonlinear_arith)
            requires
                0 <= first <= r < end,
                end <= m,
                left == k * 2,
                0 <= k,
        ;
        assert(px.subrange(r * left, (r + 1) * left) =~= py.subrange(r * left, (r + 1) * left));
        let d = dense(b);
        assert(xs.update(1, d).update(0, row_of(xs[0], r)) =~= ys.update(1, d).update(
            0,
            row_of(ys[0], r),
        ));
    }
}

/// Two half-precision tensors hold the same elements, each under its own strides.
pub open spec fn same_elements(a: TensorValue, b: TensorValue) -> bool {
    &&& a.dims == b.dims
    &&& a.dtype == b.dtype
    &&& forall|e: int|
        0 <= e < elements(a.dims) ==> #[trigger] element_of(a, e) == element_of(b, e)
}

/// A product depends on the elements of the right operand and not on how they are laid
/// out.
pub proof fn lemma_product_elements(
    entry: Entry,
    left: TensorValue,
    a: TensorValue,
    b: TensorValue,
    rows: i64,
    cols: i64,
)
    requires
        entry is Matmul || entry is Mm,
        elements(a.dims) >= 0,
        same_elements(a, b),
    ensures
        result(entry, seq![left, a], seq![rows, cols]) == result(
            entry,
            seq![left, b],
            seq![rows, cols],
        ),
{
    reveal(result);
    assert forall|i: int| 0 <= i < elements(a.dims) * 2 implies #[trigger] dense(a).bytes[i]
        == dense(b).bytes[i] by {
        assert(element_of(a, i / 2) == element_of(b, i / 2));
    }
    assert(dense(a).bytes =~= dense(b).bytes);
    let xs = seq![left, a];
    let ys = seq![left, b];
    let x = result(entry, xs, seq![rows, cols]);
    let y = result(entry, ys, seq![rows, cols]);
    assert(xs.update(1, dense(a)) =~= ys.update(1, dense(b)));
    assert forall|i: int| 0 <= i < x.len() implies #[trigger] x[i] == y[i] by {
        assert(x[i] == made(entry, xs, 0, i));
        assert(y[i] == made(entry, ys, 0, i));
    }
    assert(x =~= y);
}

/// The transposed view of a transposed matrix holds the elements of the matrix.
pub proof fn lemma_transposed_elements(b: Seq<SymByte>, k: i64, n: i64, zero: SymByte)
    requires
        0 <= k,
        0 <= n,
        k * n * 2 <= b.len(),
    ensures
        same_elements(
            fp16(b, seq![k, n]),
            transposed(transpose_words(b, k as int, n as int, zero), k, n),
        ),
{
    let plain = fp16(b, seq![k, n]);
    let turned = transpose_words(b, k as int, n as int, zero);
    let view = transposed(turned, k, n);
    lemma_two_dims(k, n);
    assert forall|e: int| 0 <= e < elements(plain.dims) implies #[trigger] element_of(plain, e)
        == element_of(view, e) by {
        assert(n > 0) by (nonlinear_arith)
            requires
                0 <= e < k * n,
                0 <= n,
        ;
        lemma_packed_element(b, k, n, e);
        lemma_position(k, n, seq![1i64, k], e);
        let i = e / (n as int);
        let j = e % (n as int);
        lemma_fundamental_div_mod(e, n as int);
        assert(0 <= i < k && i * n + j == e) by (nonlinear_arith)
            requires
                0 <= e < k * n,
                e == n * i + j,
                0 <= j < n,
        ;
        lemma_transposed_element(b, k as int, n as int, i, j, 0, zero);
        lemma_transposed_element(b, k as int, n as int, i, j, 1, zero);
    }
}

/// A matrix that was transposed on the host and uploaded is the uploaded matrix,
/// transposed.
pub proof fn lemma_uploaded_transposed(host: Seq<u8>, k: i64, n: i64)
    requires
        0 <= k,
        0 <= n,
        k * n * 2 <= host.len(),
    ensures
        literal(transpose_words(host, k as int, n as int, 0u8)) == transpose_words(
            literal(host),
            k as int,
            n as int,
            SymByte::Lit(0),
        ),
{
    let x = literal(transpose_words(host, k as int, n as int, 0u8));
    let y = transpose_words(literal(host), k as int, n as int, SymByte::Lit(0));
    assert forall|p: int| 0 <= p < x.len() implies #[trigger] x[p] == y[p] by {
        let w = p / 2;
        if w < k * n {
            lemma_column_major(w, k as int, n as int);
            let (i, j) = (w % (k as int), w / (k as int));
            assert(0 <= i * n + j < k * n) by (nonlinear_arith)
                requires
                    0 <= i < k,
                    0 <= j < n,
            ;
            assert(literal(host)[2 * (i * n + j) + p % 2] == SymByte::Lit(
                host[2 * (i * n + j) + p % 2],
            ));
        }
    }
    assert(x =~= y);
}

/// `a @ b` is the same product through `b` and through `b` transposed: for the padded
/// entry on `[m, k]` and `[k, n]`, and for the plain entry.
pub proof fn lemma_transposed_product(
    a: Seq<SymByte>,
    m: i64,
    k: i64,
    b: Seq<SymByte>,
    n: i64,
    zero: SymByte,
)
    requires
        0 <= m <= i64::MAX - 16,
        0 <= k,
        0 <= n,
        k * n * 2 <= b.len(),
    ensures
        ({
            let turned = transpose_words(b, k as int, n as int, zero);
            let product = matmul_value(a, m, k, fp16(b, seq![k, n]), n);
            &&& matmul_value(a, m, k, transposed(turned, k, n), n) == product
            &&& product.len() == m * n * 2
            &&& mm_b_t_value(a, [m, k], turned, k, n) == mm_value(a, [m, k], b, [k, n])
            &&& mm_value(a, [m, k], b, [k, n]).len() == m * n * 2
        }),
{
    let turned = transpose_words(b, k as int, n as int, zero);
    let plain = fp16(b, seq![k, n]);
    let view = transposed(turned, k, n);
    let t = aligned_rows(m);
    lemma_transposed_elements(b, k, n, zero);
    lemma_two_dims(k, n);
    assert(k * n >= 0) by (nonlinear_arith)
        requires
            0 <= k,
            0 <= n,
    ;
    lemma_product_elements(
        Entry::Matmul { cube_math: crate::ops::matmul::CUBE_MATH_KEEP_DTYPE },
        fp16(zero_padded(a, m * k * 2, t * k * 2), seq![t, k]),
        plain,
        view,
        t,
        n,
    );
    let ash = [m, k];
    let bsh = [k, n];
    lemma_product_elements(
        Entry::Mm { cube_math: 2 },
        fp16(a, ash@),
        plain,
        view,
        m,
        n,
    );
    assert(bsh@ =~= seq![k, n]);
    reveal(result);
    lemma_two_dims(t, n);
    lemma_two_dims(m, n);
    assert(0 <= m * n * 2 <= t * n * 2) by (nonlinear_arith)
        requires
            0 <= m <= t,
            0 <= n,
    ;
}

/// A row of some columns depends on that row of the matrix.
pub proof fn lemma_column_rows(
    x: Seq<SymByte>,
    y: Seq<SymByte>,
    rows: i64,
    width: i64,
    start: i64,
    cols: i64,
    first: int,
    end: int,
)
    requires
        0 <= start,
        0 <= cols,
        start + cols <= width,
        0 <= first,
        end <= rows,
        rows_agree(x, y, width as int, first, end),
    ensures
        rows_agree(
            columns_value(x, rows, width, start, cols),
            columns_value(y, rows, width, start, cols),
            cols as int,
            first,
            end,
        ),
{
    let u = columns_value(x, rows, width, start, cols);
    let v = columns_value(y, rows, width, start, cols);
    let line = cols * 2;
    assert forall|i: int| first * line <= i < end * line implies #[trigger] u[i] == v[i] by {
        lemma_rows_inside(rows, cols, first, end, i);
        lemma_in_lines(i, line, first, end);
        let r = i / line;
        let at = (r * width + start) * 2 + i % line;
        assert(first * (width * 2) <= at < end * (width * 2) && i < rows * line)
            by (nonlinear_arith)
            requires
                0 <= first <= r < end,
                end <= rows,
                0 <= start,
                start + cols <= width,
                line == cols * 2,
                0 <= i % line < line,
                at == (r * width + start) * 2 + i % line,
                i < end * line,
                0 <= line,
        ;
        assert(x[at] == y[at]);
    }
}

/// The rows of a window depend on the rows of that window.
pub proof fn lemma_window_rows(
    q: (Seq<SymByte>, Seq<SymByte>),
    k: (Seq<SymByte>, Seq<SymByte>),
    v: (Seq<SymByte>, Seq<SymByte>),
    batch: i64,
    length: i64,
    heads: i64,
    head_dim: i64,
    scale: Option<u64>,
    b: int,
)
    requires
        0 <= b < batch,
        0 <= length,
        0 <= row_width(heads, head_dim),
        q.0.len() == batch * (length * row_width(heads, head_dim) * 2),
        k.0.len() == q.0.len(),
        v.0.len() == q.0.len(),
        rows_agree(q.0, q.1, row_width(heads, head_dim) as int, b * length, (b + 1) * length),
        rows_agree(k.0, k.1, row_width(heads, head_dim) as int, b * length, (b + 1) * length),
        rows_agree(v.0, v.1, row_width(heads, head_dim) as int, b * length, (b + 1) * length),
    ensures
        rows_agree(
            batch_attention_value(q.0, k.0, v.0, batch, length, heads, heads, head_dim, scale),
            batch_attention_value(q.1, k.1, v.1, batch, length, heads, heads, head_dim, scale),
            row_width(heads, head_dim) as int,
            b * length,
            (b + 1) * length,
        ),
{
    let h = row_width(heads, head_dim) as int;
    let size = length * h * 2;
    let x = batch_attention_value(q.0, k.0, v.0, batch, length, heads, heads, head_dim, scale);
    let y = batch_attention_value(q.1, k.1, v.1, batch, length, heads, heads, head_dim, scale);
    lemma_window(q.0, k.0, v.0, batch, length, heads, heads, head_dim, scale, b);
    lemma_window(q.1, k.1, v.1, batch, length, heads, heads, head_dim, scale, b);
    assert(b * length * (h * 2) == b * size && (b + 1) * length * (h * 2) == (b + 1) * size && 0
        <= b * size && (b + 1) * size <= batch * size && b * size <= (b + 1) * size)
        by (nonlinear_arith)
        requires
            size == length * h * 2,
            0 <= b < batch,
            0 <= length,
            0 <= h,
    ;
    assert(q.0.subrange(b * size, (b + 1) * size) =~= q.1.subrange(b * size, (b + 1) * size));
    assert(k.0.subrange(b * size, (b + 1) * size) =~= k.1.subrange(b * size, (b + 1) * size));
    assert(v.0.subrange(b * size, (b + 1) * size) =~= v.1.subrange(b * size, (b + 1) * size));
    assert forall|i: int| b * length * (h * 2) <= i < (b + 1) * length * (h * 2) implies
        #[trigger] x[i] == y[i] by {
        assert(x.subrange(b * size, (b + 1) * size)[i - b * size] == x[i]);
        assert(y.subrange(b * size, (b + 1) * size)[i - b * size] == y[i]);
    }
}

} // verus!
