//! The half-precision words of results: what every element of a result is made of.

use vstd::prelude::*;

use crate::device::{Entry, Layout, Real, Scale};
use crate::ops::attention::{
    attention_value, batch_attention_value, bsh_attention_value, cross_attention_value,
};
use crate::ops::elementwise::{
    add_value, bias_value, euler_value, gelu_value, mul_value, muls_value, silu_value,
};
use crate::ops::laws::{
    lemma_biased_element, lemma_line, lemma_packed_element, lemma_result_byte, word,
};
use crate::ops::matmul::{
    aligned_rows, blocked, gemm_value, matmul_value, weight_nz_value, zero_padded,
};
use crate::ops::norm::{layer_norm_value, rms_norm_value};
use crate::ops::rows::rows_value;
use crate::ops::{fp16, result};
use crate::semantics::{dense, element_of, scalar, window_of, SymByte, TensorValue};
use crate::tensor::{lemma_three_dims, lemma_two_dims};

verus! {

/// A half-precision word: its low and its high byte.
pub type Word = (SymByte, SymByte);

/// What an elementwise kernel makes of the words at one place.
pub open spec fn made_word(entry: Entry, operands: Seq<Word>) -> Word {
    let inputs = Seq::new(operands.len(), |k: int| scalar(operands[k].0, operands[k].1));
    (
        SymByte::Output { entry, inputs, output: 0, index: 0 },
        SymByte::Output { entry, inputs, output: 0, index: 1 },
    )
}

/// `a + b`.
pub open spec fn plus_word(a: Word, b: Word) -> Word {
    made_word(Entry::Add { alpha: 0x3f80_0000 }, seq![a, b])
}

/// `a * b`.
pub open spec fn times_word(a: Word, b: Word) -> Word {
    made_word(Entry::Mul, seq![a, b])
}

/// `a * factor`, a single-precision pattern.
pub open spec fn scaled_word(a: Word, factor: u32) -> Word {
    made_word(Entry::Muls { factor }, seq![a])
}

/// `silu(a)`.
pub open spec fn silu_word(a: Word) -> Word {
    made_word(Entry::Silu, seq![a])
}

/// The tanh form of `gelu(a)`.
pub open spec fn tanh_gelu_word(a: Word) -> Word {
    made_word(Entry::GeluV2 { approximate: 1 }, seq![a])
}

/// The exact form of `gelu(a)`.
pub open spec fn exact_gelu_word(a: Word) -> Word {
    made_word(Entry::GeluV2 { approximate: 0 }, seq![a])
}

/// `n` words, one after the other.
pub open spec fn words(n: int, f: spec_fn(int) -> Word) -> Seq<SymByte> {
    Seq::new(
        (2 * n) as nat,
        |i: int|
            if i % 2 == 0 {
                f(i / 2).0
            } else {
                f(i / 2).1
            },
    )
}

/// Bytes are the words that they hold.
pub proof fn lemma_words(x: Seq<SymByte>, n: int, f: spec_fn(int) -> Word)
    requires
        x.len() == 2 * n,
        forall|e: int| 0 <= e < n ==> #[trigger] word(x, e) == f(e),
    ensures
        x == words(n, f),
{
    assert forall|i: int| 0 <= i < x.len() implies #[trigger] x[i] == words(n, f)[i] by {
        assert(word(x, i / 2) == f(i / 2));
        assert(i == 2 * (i / 2) + i % 2);
    }
    assert(x =~= words(n, f));
}

/// Every word is there.
pub proof fn lemma_words_at(n: int, f: spec_fn(int) -> Word)
    requires
        0 <= n,
    ensures
        words(n, f).len() == 2 * n,
        forall|e: int| 0 <= e < n ==> #[trigger] word(words(n, f), e) == f(e),
{
    assert forall|e: int| 0 <= e < n implies #[trigger] word(words(n, f), e) == f(e) by {
        assert((2 * e) / 2 == e && (2 * e) % 2 == 0);
        assert((2 * e + 1) / 2 == e && (2 * e + 1) % 2 == 1);
    }
}

/// The kernels that work element by element.
spec fn is_elementwise(entry: Entry) -> bool {
    entry is Add || entry is Mul || entry is Muls || entry is Silu || entry is GeluV2
}

/// An element of an elementwise result comes from the elements at its place.
proof fn lemma_element(entry: Entry, args: Seq<Seq<SymByte>>, rows: i64, cols: i64, e: int)
    requires
        is_elementwise(entry),
        0 <= cols,
        0 <= e < rows * cols,
    ensures
        ({
            let inputs = Seq::new(args.len(), |k: int| fp16(args[k], seq![rows, cols]));
            let out = result(entry, inputs, seq![rows, cols]);
            &&& out.len() == 2 * (rows * cols)
            &&& word(out, e) == made_word(
                entry,
                Seq::new(args.len(), |k: int| word(args[k], e)),
            )
        }),
{
    let inputs = Seq::new(args.len(), |k: int| fp16(args[k], seq![rows, cols]));
    let given = Seq::new(args.len(), |k: int| word(args[k], e));
    assert(cols > 0) by (nonlinear_arith)
        requires
            0 <= e < rows * cols,
            0 <= cols,
    ;
    lemma_result_byte(entry, inputs, rows, cols, 2 * e);
    lemma_result_byte(entry, inputs, rows, cols, 2 * e + 1);
    assert((2 * e) / 2 == e && (2 * e + 1) / 2 == e);
    assert forall|k: int| 0 <= k < args.len() implies element_of(#[trigger] inputs[k], e) == scalar(
        given[k].0,
        given[k].1,
    ) by {
        lemma_packed_element(args[k], rows, cols, e);
    }
    assert(Seq::new(inputs.len(), |k: int| element_of(inputs[k], e)) =~= Seq::new(
        given.len(),
        |k: int| scalar(given[k].0, given[k].1),
    ));
}

/// Element `e` of a sum is the sum of the elements `e`.
pub proof fn lemma_sum_word(a: Seq<SymByte>, b: Seq<SymByte>, rows: i64, cols: i64, e: int)
    requires
        0 <= cols,
        0 <= e < rows * cols,
    ensures
        add_value(a, b, seq![rows, cols]).len() == 2 * (rows * cols),
        word(add_value(a, b, seq![rows, cols]), e) == plus_word(word(a, e), word(b, e)),
{
    let args = seq![a, b];
    lemma_element(Entry::Add { alpha: 0x3f80_0000 }, args, rows, cols, e);
    assert(Seq::new(2, |k: int| fp16(args[k], seq![rows, cols])) =~= seq![
        fp16(a, seq![rows, cols]),
        fp16(b, seq![rows, cols]),
    ]);
    assert(Seq::new(2, |k: int| word(args[k], e)) =~= seq![word(a, e), word(b, e)]);
}

/// Element `e` of an elementwise product is the product of the elements `e`.
pub proof fn lemma_product_word(a: Seq<SymByte>, b: Seq<SymByte>, rows: i64, cols: i64, e: int)
    requires
        0 <= cols,
        0 <= e < rows * cols,
    ensures
        mul_value(a, b, seq![rows, cols]).len() == 2 * (rows * cols),
        word(mul_value(a, b, seq![rows, cols]), e) == times_word(word(a, e), word(b, e)),
{
    let args = seq![a, b];
    lemma_element(Entry::Mul, args, rows, cols, e);
    assert(Seq::new(2, |k: int| fp16(args[k], seq![rows, cols])) =~= seq![
        fp16(a, seq![rows, cols]),
        fp16(b, seq![rows, cols]),
    ]);
    assert(Seq::new(2, |k: int| word(args[k], e)) =~= seq![word(a, e), word(b, e)]);
}

proof fn lemma_unary(entry: Entry, a: Seq<SymByte>, rows: i64, cols: i64, e: int)
    requires
        is_elementwise(entry),
        0 <= cols,
        0 <= e < rows * cols,
    ensures
        ({
            let out = result(entry, seq![fp16(a, seq![rows, cols])], seq![rows, cols]);
            &&& out.len() == 2 * (rows * cols)
            &&& word(out, e) == made_word(entry, seq![word(a, e)])
        }),
{
    let args = seq![a];
    lemma_element(entry, args, rows, cols, e);
    assert(Seq::new(1, |k: int| fp16(args[k], seq![rows, cols])) =~= seq![
        fp16(a, seq![rows, cols]),
    ]);
    assert(Seq::new(1, |k: int| word(args[k], e)) =~= seq![word(a, e)]);
}

/// Element `e` of a scaled matrix is the scaled element `e`.
pub proof fn lemma_scaled_word(a: Seq<SymByte>, factor: u32, rows: i64, cols: i64, e: int)
    requires
        0 <= cols,
        0 <= e < rows * cols,
    ensures
        muls_value(a, factor, seq![rows, cols]).len() == 2 * (rows * cols),
        word(muls_value(a, factor, seq![rows, cols]), e) == scaled_word(word(a, e), factor),
{
    lemma_unary(Entry::Muls { factor }, a, rows, cols, e);
}

/// Element `e` of an activation is the activation of element `e`.
pub proof fn lemma_activation_word(a: Seq<SymByte>, rows: i64, cols: i64, e: int)
    requires
        0 <= cols,
        0 <= e < rows * cols,
    ensures
        silu_value(a, seq![rows, cols]).len() == 2 * (rows * cols),
        word(silu_value(a, seq![rows, cols]), e) == silu_word(word(a, e)),
        gelu_value(a, seq![rows, cols], true).len() == 2 * (rows * cols),
        word(gelu_value(a, seq![rows, cols], true), e) == tanh_gelu_word(word(a, e)),
        gelu_value(a, seq![rows, cols], false).len() == 2 * (rows * cols),
        word(gelu_value(a, seq![rows, cols], false), e) == exact_gelu_word(word(a, e)),
{
    lemma_unary(Entry::Silu, a, rows, cols, e);
    lemma_unary(Entry::GeluV2 { approximate: 1 }, a, rows, cols, e);
    lemma_unary(Entry::GeluV2 { approximate: 0 }, a, rows, cols, e);
}

/// Element `(r, c)` of a biased matrix is element `(r, c)` of the matrix plus element `c`
/// of the bias.
pub proof fn lemma_biased_word(
    x: Seq<SymByte>,
    bias: Seq<SymByte>,
    rows: i64,
    cols: i64,
    r: int,
    c: int,
)
    requires
        0 <= r < rows,
        0 <= c < cols,
    ensures
        word(bias_value(x, bias, rows, cols), r * cols + c) == plus_word(
            word(x, r * cols + c),
            word(bias, c),
        ),
{
    lemma_biased_element(x, bias, rows, cols, r, c, 0);
    lemma_biased_element(x, bias, rows, cols, r, c, 1);
    let given = seq![word(x, r * cols + c), word(bias, c)];
    assert(Seq::new(2, |k: int| scalar(given[k].0, given[k].1)) =~= seq![
        scalar(given[0].0, given[0].1),
        scalar(given[1].0, given[1].1),
    ]);
}

/// Element `e` of a flow update is `x0 + sigma * (x1 - x0)` on the elements `e`, with the
/// difference as `x1 + (-1) * x0`.
pub proof fn lemma_update_word(
    x0: Seq<SymByte>,
    x1: Seq<SymByte>,
    sigma: u32,
    rows: i64,
    cols: i64,
    e: int,
)
    requires
        0 <= cols,
        0 <= e < rows * cols,
    ensures
        euler_value(x0, x1, sigma, seq![rows, cols]).len() == 2 * (rows * cols),
        word(euler_value(x0, x1, sigma, seq![rows, cols]), e) == plus_word(
            word(x0, e),
            scaled_word(plus_word(word(x1, e), scaled_word(word(x0, e), 0xbf80_0000)), sigma),
        ),
{
    let shape = seq![rows, cols];
    let back = muls_value(x0, 0xbf80_0000, shape);
    let dx = add_value(x1, back, shape);
    let scaled = muls_value(dx, sigma, shape);
    lemma_scaled_word(x0, 0xbf80_0000, rows, cols, e);
    lemma_sum_word(x1, back, rows, cols, e);
    lemma_scaled_word(dx, sigma, rows, cols, e);
    lemma_sum_word(x0, scaled, rows, cols, e);
}

/// Element `(r, c)` of rows that are cut out is element `(first + r, c)` of the matrix.
pub proof fn lemma_row_word(x: Seq<SymByte>, first: i64, rows: i64, cols: i64, r: int, c: int)
    requires
        0 <= first,
        0 <= r < rows,
        0 <= c < cols,
        (first + rows) * cols * 2 <= x.len(),
    ensures
        rows_value(x, first, rows, cols).len() == rows * cols * 2,
        word(rows_value(x, first, rows, cols), r * cols + c) == word(x, (first + r) * cols + c),
{
    lemma_line(r, cols as int, c, rows as int);
    assert((first + rows) * cols == first * cols + rows * cols && (first + r) * cols + c == first
        * cols + (r * cols + c) && 0 <= first * cols) by (nonlinear_arith)
        requires
            0 <= first,
            0 <= cols,
    ;
}

/// The operand that holds row `r` of a packed matrix, described as the whole matrix.
pub open spec fn row_operand(x: Seq<SymByte>, rows: i64, cols: i64, r: int) -> TensorValue {
    TensorValue {
        bytes: x.subrange(r * (cols * 2), (r + 1) * (cols * 2)),
        ..fp16(x, seq![rows, cols])
    }
}

/// Row `r` of a root-mean-square norm is what the kernel makes of row `r` of the sum's two
/// operands and of the scale.
pub proof fn lemma_rms_norm_row(
    x1: Seq<SymByte>,
    x2: Seq<SymByte>,
    gamma: Seq<SymByte>,
    rows: i64,
    cols: i64,
    eps: Real,
    r: int,
    i: int,
)
    requires
        0 <= r < rows,
        0 < cols,
        r * (cols * 2) <= i < (r + 1) * (cols * 2),
    ensures
        rms_norm_value(x1, x2, gamma, rows, cols, eps).len() == rows * cols * 2,
        rms_norm_value(x1, x2, gamma, rows, cols, eps)[i] == (SymByte::Output {
            entry: Entry::AddRmsNorm { epsilon: eps },
            inputs: seq![
                row_operand(x1, rows, cols, r),
                row_operand(x2, rows, cols, r),
                fp16(gamma, seq![cols]),
            ],
            output: 0,
            index: i,
        }),
{
    let entry = Entry::AddRmsNorm { epsilon: eps };
    let inputs = seq![
        fp16(x1, seq![rows, cols]),
        fp16(x2, seq![rows, cols]),
        fp16(gamma, seq![cols]),
    ];
    let line = cols * 2;
    assert((r + 1) * line == r * line + line) by (nonlinear_arith);
    lemma_line(r, line, i - r * line, rows as int);
    assert(rows * line == rows * cols * 2) by (nonlinear_arith)
        requires
            line == cols * 2,
    ;
    lemma_result_byte(entry, inputs, rows, cols, i);
    assert(i / line == r);
    assert(inputs.update(0, row_operand(x1, rows, cols, r)).update(
        1,
        row_operand(x2, rows, cols, r),
    ) =~= seq![
        row_operand(x1, rows, cols, r),
        row_operand(x2, rows, cols, r),
        fp16(gamma, seq![cols]),
    ]);
}

/// Row `r` of a layer norm is what the kernel makes of row `r` of the sum's two operands,
/// of the scale and of the shift.
pub proof fn lemma_layer_norm_row(
    x: Seq<SymByte>,
    zeros: Seq<SymByte>,
    gamma: Seq<SymByte>,
    beta: Seq<SymByte>,
    rows: i64,
    cols: i64,
    eps: Real,
    r: int,
    i: int,
)
    requires
        0 <= r < rows,
        0 < cols,
        r * (cols * 2) <= i < (r + 1) * (cols * 2),
    ensures
        layer_norm_value(x, zeros, gamma, beta, rows, cols, eps).len() == rows * cols * 2,
        layer_norm_value(x, zeros, gamma, beta, rows, cols, eps)[i] == (SymByte::Output {
            entry: Entry::AddLayerNorm { epsilon: eps },
            inputs: seq![
                row_operand(x, rows, cols, r),
                row_operand(zeros, rows, cols, r),
                fp16(gamma, seq![cols]),
                fp16(beta, seq![cols]),
            ],
            output: 0,
            index: i,
        }),
{
    let entry = Entry::AddLayerNorm { epsilon: eps };
    let inputs = seq![
        fp16(x, seq![rows, cols]),
        fp16(zeros, seq![rows, cols]),
        fp16(gamma, seq![cols]),
        fp16(beta, seq![cols]),
    ];
    let line = cols * 2;
    assert((r + 1) * line == r * line + line) by (nonlinear_arith);
    lemma_line(r, line, i - r * line, rows as int);
    assert(rows * line == rows * cols * 2) by (nonlinear_arith)
        requires
            line == cols * 2,
    ;
    lemma_result_byte(entry, inputs, rows, cols, i);
    assert(i / line == r);
    assert(inputs.update(0, row_operand(x, rows, cols, r)).update(
        1,
        row_operand(zeros, rows, cols, r),
    ) =~= seq![
        row_operand(x, rows, cols, r),
        row_operand(zeros, rows, cols, r),
        fp16(gamma, seq![cols]),
        fp16(beta, seq![cols]),
    ]);
}

/// Row `r` of a matrix product is what the kernel makes of row `r` of the left operand and
/// of the whole right operand, which is read row by row.
pub proof fn lemma_product_row(
    a: Seq<SymByte>,
    m: i64,
    k: i64,
    b: Seq<SymByte>,
    n: i64,
    r: int,
    i: int,
)
    requires
        0 <= r < m <= i64::MAX - 16,
        0 <= k,
        0 < n,
        a.len() >= m * k * 2,
        b.len() == k * n * 2,
        r * (n * 2) <= i < (r + 1) * (n * 2),
    ensures
        ({
            let product = matmul_value(a, m, k, fp16(b, seq![k, n]), n);
            &&& product.len() == m * n * 2
            &&& product[i] == (SymByte::Output {
                entry: Entry::Matmul { cube_math: 1 },
                inputs: seq![row_operand(a, aligned_rows(m), k, r), fp16(b, seq![k, n])],
                output: 0,
                index: i,
            })
        }),
{
    let t = aligned_rows(m);
    let entry = Entry::Matmul { cube_math: 1 };
    let padded = zero_padded(a, m * k * 2, t * k * 2);
    let right = fp16(b, seq![k, n]);
    let inputs = seq![fp16(padded, seq![t, k]), right];
    let line = n * 2;
    let left = k * 2;
    assert(m <= t < m + 16);
    assert((r + 1) * line == r * line + line) by (nonlinear_arith);
    lemma_line(r, line, i - r * line, m as int);
    assert(m * line == m * n * 2 && 0 <= m * n * 2 <= t * n * 2 && 0 <= m * k * 2 <= t * k * 2 && 0
        <= r * left && (r + 1) * left <= m * k * 2 && r * left <= (r + 1) * left) by (nonlinear_arith)
        requires
            line == n * 2,
            left == k * 2,
            0 <= r < m <= t,
            0 <= n,
            0 <= k,
    ;
    lemma_result_byte(entry, inputs, t, n, i);
    assert(i / line == r);
    lemma_two_dims(k, n);
    assert forall|j: int| 0 <= j < k * n * 2 implies #[trigger] dense(right).bytes[j] == b[j] by {
        lemma_packed_element(b, k, n, j / 2);
        assert(j == 2 * (j / 2) + j % 2);
    }
    assert(0 <= k * n) by (nonlinear_arith)
        requires
            0 <= k,
            0 <= n,
    ;
    assert(dense(right).bytes =~= b);
    assert(padded.subrange(r * left, (r + 1) * left) =~= a.subrange(r * left, (r + 1) * left));
    assert(inputs.update(1, dense(right)).update(0, row_operand(a, t, k, r)) =~= seq![
        row_operand(a, t, k, r),
        right,
    ]);
}

/// The rows that a product is padded with are zeros, and there are as few of them as make
/// the row count a multiple of sixteen.
pub proof fn lemma_padding(a: Seq<SymByte>, m: i64, k: i64, i: int)
    requires
        0 <= m <= i64::MAX - 16,
        0 <= k,
        a.len() >= m * k * 2,
        0 <= i < aligned_rows(m) * k * 2,
    ensures
        aligned_rows(m) % 16 == 0,
        m <= aligned_rows(m) < m + 16,
        zero_padded(a, m * k * 2, aligned_rows(m) * k * 2).len() == aligned_rows(m) * k * 2,
        zero_padded(a, m * k * 2, aligned_rows(m) * k * 2)[i] == (if i < m * k * 2 {
            a[i]
        } else {
            SymByte::Lit(0)
        }),
{
    let t = aligned_rows(m);
    assert(m <= t < m + 16);
    assert(0 <= m * k * 2 <= t * k * 2) by (nonlinear_arith)
        requires
            0 <= m <= t,
            0 <= k,
    ;
}

/// Attention is what the kernel makes of the queries, keys and values: each query row
/// against all rows of keys and values, with scores scaled by one over the square root of
/// the head dimension.
pub proof fn lemma_cross_attention(
    q: Seq<SymByte>,
    k: Seq<SymByte>,
    v: Seq<SymByte>,
    q_tokens: i64,
    kv_tokens: i64,
    heads: i64,
    kv_heads: i64,
    d: i64,
    i: int,
)
    requires
        0 <= heads * d <= i64::MAX,
        0 <= kv_heads * d <= i64::MAX,
        0 <= q_tokens,
        0 <= kv_tokens,
        q.len() == q_tokens * (heads * d) * 2,
        k.len() == kv_tokens * (kv_heads * d) * 2,
        v.len() == kv_tokens * (kv_heads * d) * 2,
        0 <= i < q_tokens * (heads * d) * 2,
    ensures
        ({
            let out = cross_attention_value(
                q,
                k,
                v,
                q_tokens,
                kv_tokens,
                heads,
                kv_heads,
                d,
                None,
            );
            &&& out.len() == q_tokens * (heads * d) * 2
            &&& out[i] == (SymByte::Output {
                entry: Entry::PromptFlashAttentionV3 {
                    heads,
                    scale: Scale::InverseSqrt(d),
                    layout: Layout::Bsh,
                    kv_heads,
                },
                inputs: seq![
                    fp16(q, seq![1i64, q_tokens, (heads * d) as i64]),
                    fp16(k, seq![1i64, kv_tokens, (kv_heads * d) as i64]),
                    fp16(v, seq![1i64, kv_tokens, (kv_heads * d) as i64]),
                ],
                output: 0,
                index: i,
            })
        }),
{
    reveal(result);
    let hq = (heads * d) as i64;
    let hk = (kv_heads * d) as i64;
    let size = q_tokens * hq * 2;
    let inputs = seq![
        fp16(q, seq![1i64, q_tokens, hq]),
        fp16(k, seq![1i64, kv_tokens, hk]),
        fp16(v, seq![1i64, kv_tokens, hk]),
    ];
    lemma_three_dims(1, q_tokens, hq);
    vstd::arithmetic::div_mod::lemma_basic_div(i, size);
    vstd::arithmetic::div_mod::lemma_small_mod(i as nat, size as nat);
    assert(1 * q_tokens * hq == q_tokens * hq);
    let kv_size = kv_tokens * hk * 2;
    assert(0 * size == 0 && (0 + 1) * size == size && 0 * kv_size == 0 && (0 + 1) * kv_size
        == kv_size) by (nonlinear_arith);
    assert(q.subrange(0, size) =~= q);
    assert(k.subrange(0, kv_size) =~= k);
    assert(v.subrange(0, kv_size) =~= v);
    assert(Seq::new(inputs.len(), |j: int| window_of(inputs[j], 0)) =~= inputs);
}

/// A given scale is the one that attention runs with, in every layout.
pub proof fn lemma_given_scale(
    q: Seq<SymByte>,
    k: Seq<SymByte>,
    v: Seq<SymByte>,
    shape: [i64; 4],
    batch: i64,
    length: i64,
    heads: i64,
    kv_heads: i64,
    d: i64,
    bits: u64,
)
    ensures
        ({
            let wide = seq![batch, length, (heads * d) as i64];
            let kv = seq![batch, length, (kv_heads * d) as i64];
            let flat = seq![1i64, length, (heads * d) as i64];
            let kv_flat = seq![1i64, length, (kv_heads * d) as i64];
            let entry = Entry::PromptFlashAttentionV3 {
                heads,
                scale: Scale::Given(bits),
                layout: Layout::Bsh,
                kv_heads,
            };
            &&& attention_value(q, k, v, shape, Some(bits)) == result(
                Entry::PromptFlashAttentionV3 {
                    heads: shape[1],
                    scale: Scale::Given(bits),
                    layout: Layout::Bnsd,
                    kv_heads: shape[1],
                },
                seq![fp16(q, shape@), fp16(k, shape@), fp16(v, shape@)],
                shape@,
            )
            &&& batch_attention_value(q, k, v, batch, length, heads, kv_heads, d, Some(bits))
                == result(entry, seq![fp16(q, wide), fp16(k, kv), fp16(v, kv)], wide)
            &&& bsh_attention_value(q, k, v, length, heads, kv_heads, d, Some(bits)) == result(
                entry,
                seq![fp16(q, flat), fp16(k, kv_flat), fp16(v, kv_flat)],
                flat,
            )
            &&& cross_attention_value(
                q,
                k,
                v,
                length,
                batch,
                heads,
                kv_heads,
                d,
                Some(bits),
            ) == result(
                entry,
                seq![
                    fp16(q, flat),
                    fp16(k, seq![1i64, batch, (kv_heads * d) as i64]),
                    fp16(v, seq![1i64, batch, (kv_heads * d) as i64]),
                ],
                flat,
            )
        }),
{
}

/// A kernel that works on its operands as a whole makes every byte of its result from all
/// of them: attention head by head, a product with a blocked weight, and the general
/// product, whose third operand counts nothing.
pub proof fn lemma_whole_kernels(
    a: Seq<SymByte>,
    b: Seq<SymByte>,
    c: Seq<SymByte>,
    shape: [i64; 4],
    ash: [i64; 2],
    dims: Seq<i64>,
    strides: Seq<i64>,
    k: i64,
    n: i64,
    i: int,
)
    ensures
        0 <= i < attention_value(a, b, c, shape, None).len() ==> attention_value(
            a,
            b,
            c,
            shape,
            None,
        )[i] == (SymByte::Output {
            entry: Entry::PromptFlashAttentionV3 {
                heads: shape[1],
                scale: Scale::InverseSqrt(shape[3]),
                layout: Layout::Bnsd,
                kv_heads: shape[1],
            },
            inputs: seq![fp16(a, shape@), fp16(b, shape@), fp16(c, shape@)],
            output: 0,
            index: i,
        }),
        0 <= i < weight_nz_value(a, ash, b, dims, strides, n).len() ==> weight_nz_value(
            a,
            ash,
            b,
            dims,
            strides,
            n,
        )[i] == (SymByte::Output {
            entry: Entry::MatmulWeightNz { cube_math: 1 },
            inputs: seq![fp16(a, ash@), blocked(b, dims, strides)],
            output: 0,
            index: i,
        }),
        0 <= i < gemm_value(a, ash, b, k, n, c).len() ==> gemm_value(a, ash, b, k, n, c)[i] == (
        SymByte::Output {
            entry: Entry::Gemm {
                alpha: 0x3f80_0000,
                beta: 0,
                trans_a: 0,
                trans_b: 1,
                cube_math: 2,
            },
            inputs: seq![fp16(a, ash@), fp16(b, seq![n, k]), fp16(c, seq![ash[0], n])],
            output: 0,
            index: i,
        }),
{
    reveal(result);
}

/// Attention of rows over themselves is attention over as many rows.
pub proof fn lemma_self_attention(
    q: Seq<SymByte>,
    k: Seq<SymByte>,
    v: Seq<SymByte>,
    tokens: i64,
    heads: i64,
    kv_heads: i64,
    d: i64,
)
    ensures
        bsh_attention_value(q, k, v, tokens, heads, kv_heads, d, None) == cross_attention_value(
            q,
            k,
            v,
            tokens,
            tokens,
            heads,
            kv_heads,
            d,
            None,
        ),
{
}

} // verus!
