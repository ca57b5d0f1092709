//! The words of what the layers compute: the same layers, said in terms of single
//! elements, of matrix products and of the fields of the given weights.

use vstd::arithmetic::div_mod::{lemma_div_denominator, lemma_fundamental_div_mod};
use vstd::prelude::*;

use crate::device::Real;
use crate::encode::{half_bytes, index_bytes, positions, rotation};
use crate::executor::action::{adaptive_value, euler_mul_value};
use crate::executor::blocks::{geglu_value, linear_bias_value};
use crate::executor::laws::{lemma_linear_product, lemma_qkv_element};
use crate::executor::linear::{fused_value, k_value, q_value, v_value};
use crate::ops::fp16;
use crate::ops::laws::{
    lemma_index_word, lemma_line, lemma_replicated_row, lemma_rotated_channel, word,
};
use crate::ops::matmul::matmul_value;
use crate::ops::norm::rms_norm_value;
use crate::ops::rotary::rotated_value;
use crate::ops::rows::{columns_value, lemma_column_element, replicate_value};
use crate::ops::words::{
    lemma_activation_word, lemma_biased_word, lemma_product_word, lemma_scaled_word,
    lemma_sum_word, lemma_words, plus_word, scaled_word, tanh_gelu_word, times_word, words, Word,
};
use crate::rope::{lemma_position_row, position_rows, rope_rows_value};
use crate::semantics::{
    filled, literal, plus_one, rope_cos_table, rope_sin_table, SymByte,
};

verus! {

/// A word plus the bias of its column, where there is a bias.
pub open spec fn biased_word(a: Word, bias: Option<Seq<SymByte>>, c: int) -> Word {
    match bias {
        Some(b) => plus_word(a, word(b, c)),
        None => a,
    }
}

/// The product of `[rows, k]` and `[k, n]` matrices that are both held row by row.
pub open spec fn product(a: Seq<SymByte>, rows: i64, k: i64, w: Seq<SymByte>, n: i64) -> Seq<
    SymByte,
> {
    matmul_value(a, rows, k, fp16(w, seq![k, n]), n)
}

/// The product of rows and a weight, with the bias added to every row.
pub open spec fn affine(
    x: Seq<SymByte>,
    rows: i64,
    in_w: i64,
    w: Seq<SymByte>,
    bias: Option<Seq<SymByte>>,
    out_w: i64,
) -> Seq<SymByte> {
    words(
        rows * out_w,
        |e: int| biased_word(word(product(x, rows, in_w, w, out_w), e), bias, e % (out_w as int)),
    )
}

/// Row and column of an element of a matrix.
proof fn lemma_place(e: int, rows: int, cols: int)
    requires
        0 <= e < rows * cols,
        0 <= cols,
    ensures
        0 < cols,
        0 <= e / cols < rows,
        0 <= e % cols < cols,
        e == e / cols * cols + e % cols,
{
    assert(cols > 0) by (nonlinear_arith)
        requires
            0 <= e < rows * cols,
            0 <= cols,
    ;
    lemma_fundamental_div_mod(e, cols);
    assert(0 <= e / cols < rows && e == e / cols * cols + e % cols) by (nonlinear_arith)
        requires
            0 <= e < rows * cols,
            e == cols * (e / cols) + e % cols,
            0 <= e % cols < cols,
            0 < cols,
    ;
}

/// A product is as long as its rows and columns ask for.
pub proof fn lemma_product_len(a: Seq<SymByte>, rows: i64, k: i64, w: Seq<SymByte>, n: i64)
    requires
        0 <= rows <= i64::MAX - 16,
        0 <= k,
        0 <= n,
    ensures
        product(a, rows, k, w, n).len() == 2 * (rows * n),
{
    reveal(crate::ops::result);
    let t = crate::ops::matmul::aligned_rows(rows);
    crate::tensor::lemma_two_dims(t, n);
    assert(0 <= rows * n * 2 <= t * n * 2) by (nonlinear_arith)
        requires
            0 <= rows <= t,
            0 <= n,
    ;
}

/// A linear layer is the product of its input and of its weight as it is stored, plus the
/// bias of the column.
pub proof fn lemma_affine(
    x: Seq<SymByte>,
    rows: i64,
    in_w: i64,
    w: Seq<SymByte>,
    bias: Option<Seq<SymByte>>,
    out_w: i64,
)
    requires
        0 <= rows <= i64::MAX - 16,
        0 <= in_w,
        0 < out_w,
        w.len() == in_w * out_w * 2,
    ensures
        linear_bias_value(x, rows, in_w, w, bias, out_w) == affine(x, rows, in_w, w, bias, out_w),
        affine(x, rows, in_w, w, bias, out_w).len() == 2 * (rows * out_w),
{
    let y = linear_bias_value(x, rows, in_w, w, bias, out_w);
    let p = product(x, rows, in_w, w, out_w);
    lemma_linear_product(x, rows, in_w, w, out_w);
    lemma_product_len(x, rows, in_w, w, out_w);
    assert(0 <= rows * out_w) by (nonlinear_arith)
        requires
            0 <= rows,
            0 < out_w,
    ;
    let f = |e: int| biased_word(word(p, e), bias, e % (out_w as int));
    assert(y.len() == 2 * (rows * out_w)) by {
        reveal(crate::ops::result);
        crate::tensor::lemma_two_dims(rows, out_w);
    }
    assert forall|e: int| 0 <= e < rows * out_w implies #[trigger] word(y, e) == f(e) by {
        lemma_place(e, rows as int, out_w as int);
        match bias {
            Some(b) => {
                lemma_biased_word(p, b, rows, out_w, e / (out_w as int), e % (out_w as int));
            },
            None => {},
        }
    }
    lemma_words(y, rows * out_w, f);
}

/// Queries, keys and values are columns of the fused product, each with the bias of its own
/// columns: queries the first `qd`, keys the next `kv_d`, values the last `kv_d`.
pub proof fn lemma_qkv_words(
    x: Seq<SymByte>,
    tokens: i64,
    in_w: i64,
    w: Seq<SymByte>,
    bias: Option<Seq<SymByte>>,
    qd: i64,
    kv_d: i64,
)
    requires
        0 <= tokens <= i64::MAX - 16,
        0 <= in_w,
        0 <= qd,
        0 <= kv_d,
        0 < qd + 2 * kv_d <= i64::MAX,
        w.len() == in_w * (qd + 2 * kv_d) * 2,
        bias matches Some(b) ==> (qd + 2 * kv_d) * 2 <= b.len(),
    ensures
        ({
            let all = (qd + 2 * kv_d) as i64;
            let p = product(x, tokens, in_w, w, all);
            let at = |e: int, cols: int, first: int|
                biased_word(
                    word(p, e / cols * all + first + e % cols),
                    bias,
                    first + e % cols,
                );
            &&& q_value(x, tokens, in_w, w, bias, qd, kv_d) == words(
                tokens * qd,
                |e: int| at(e, qd as int, 0),
            )
            &&& k_value(x, tokens, in_w, w, bias, qd, kv_d) == words(
                tokens * kv_d,
                |e: int| at(e, kv_d as int, qd as int),
            )
            &&& v_value(x, tokens, in_w, w, bias, qd, kv_d) == words(
                tokens * kv_d,
                |e: int| at(e, kv_d as int, qd + kv_d),
            )
        }),
{
    let all = (qd + 2 * kv_d) as i64;
    let p = product(x, tokens, in_w, w, all);
    let at = |e: int, cols: int, first: int|
        biased_word(word(p, e / cols * all + first + e % cols), bias, first + e % cols);
    lemma_linear_product(x, tokens, in_w, w, all);
    assert(fused_value(x, tokens, in_w, w, qd, kv_d) == p);
    let q = q_value(x, tokens, in_w, w, bias, qd, kv_d);
    let k = k_value(x, tokens, in_w, w, bias, qd, kv_d);
    let v = v_value(x, tokens, in_w, w, bias, qd, kv_d);
    lemma_part_len(p, tokens, all, 0, qd, bias);
    lemma_part_len(p, tokens, all, qd, kv_d, bias);
    lemma_part_len(p, tokens, all, (qd + kv_d) as i64, kv_d, bias);
    let fq = |e: int| at(e, qd as int, 0);
    let fk = |e: int| at(e, kv_d as int, qd as int);
    let fv = |e: int| at(e, kv_d as int, qd + kv_d);
    assert forall|e: int| 0 <= e < tokens * qd implies #[trigger] word(q, e) == fq(e) by {
        lemma_place(e, tokens as int, qd as int);
        let (t, j) = (e / (qd as int), e % (qd as int));
        lemma_qkv_element(x, tokens, in_w, w, bias, qd, kv_d, t, j, 0);
        lemma_qkv_element(x, tokens, in_w, w, bias, qd, kv_d, t, j, 1);
        lemma_two_bytes(p, t * all + j, bias, j);
    }
    assert forall|e: int| 0 <= e < tokens * kv_d implies #[trigger] word(k, e) == fk(e) by {
        lemma_place(e, tokens as int, kv_d as int);
        let (t, j) = (e / (kv_d as int), e % (kv_d as int));
        lemma_qkv_element(x, tokens, in_w, w, bias, qd, kv_d, t, j, 0);
        lemma_qkv_element(x, tokens, in_w, w, bias, qd, kv_d, t, j, 1);
        lemma_two_bytes(p, t * all + (qd + j), bias, qd + j);
    }
    assert forall|e: int| 0 <= e < tokens * kv_d implies #[trigger] word(v, e) == fv(e) by {
        lemma_place(e, tokens as int, kv_d as int);
        let (t, j) = (e / (kv_d as int), e % (kv_d as int));
        lemma_qkv_element(x, tokens, in_w, w, bias, qd, kv_d, t, j, 0);
        lemma_qkv_element(x, tokens, in_w, w, bias, qd, kv_d, t, j, 1);
        lemma_two_bytes(p, t * all + (qd + kv_d + j), bias, qd + kv_d + j);
    }
    lemma_words(q, tokens * qd, fq);
    lemma_words(k, tokens * kv_d, fk);
    lemma_words(v, tokens * kv_d, fv);
}

/// The two bytes of a biased word.
proof fn lemma_two_bytes(p: Seq<SymByte>, e: int, bias: Option<Seq<SymByte>>, c: int)
    ensures
        biased_word(word(p, e), bias, c) == (match bias {
            Some(b) => (
                crate::ops::laws::sum_byte(word(p, e), word(b, c), 0),
                crate::ops::laws::sum_byte(word(p, e), word(b, c), 1),
            ),
            None => (p[2 * e + 0], p[2 * e + 1]),
        }),
{
    match bias {
        Some(b) => {
            let given = seq![word(p, e), word(b, c)];
            assert(Seq::new(
                2,
                |k: int| crate::semantics::scalar(given[k].0, given[k].1),
            ) =~= seq![
                crate::semantics::scalar(given[0].0, given[0].1),
                crate::semantics::scalar(given[1].0, given[1].1),
            ]);
        },
        None => {},
    }
}

/// The length of a part of a fused projection.
proof fn lemma_part_len(
    fused: Seq<SymByte>,
    tokens: i64,
    width: i64,
    start: i64,
    cols: i64,
    bias: Option<Seq<SymByte>>,
)
    requires
        0 <= tokens,
        0 <= cols,
    ensures
        crate::executor::linear::part_value(fused, tokens, width, start, cols, bias).len() == 2 * (
        tokens * cols),
{
    reveal(crate::ops::result);
    crate::tensor::lemma_two_dims(tokens, cols);
    let line = cols * 2;
    assert(tokens * line == 2 * (tokens * cols) && 0 <= tokens * cols) by (nonlinear_arith)
        requires
            line == cols * 2,
            0 <= tokens,
            0 <= cols,
    ;
}

/// The gated block: of the columns of the fused projection the first half goes through the
/// activation and then multiplies the second half, which goes through none.
pub proof fn lemma_gated_words(
    x: Seq<SymByte>,
    tokens: i64,
    width: i64,
    gate_up: Seq<SymByte>,
    inter: i64,
    down: Seq<SymByte>,
    down_bias: Option<Seq<SymByte>>,
)
    requires
        0 <= tokens <= i64::MAX - 16,
        0 < width,
        0 < inter,
        inter * 2 <= i64::MAX,
        gate_up.len() == width * (inter * 2) * 2,
        down.len() == inter * width * 2,
    ensures
        ({
            let fused = product(x, tokens, width, gate_up, (inter * 2) as i64);
            let act = words(
                tokens * inter,
                |e: int|
                    times_word(
                        tanh_gelu_word(
                            word(fused, e / (inter as int) * (2 * inter) + e % (inter as int)),
                        ),
                        word(
                            fused,
                            e / (inter as int) * (2 * inter) + inter + e % (inter as int),
                        ),
                    ),
            );
            &&& act.len() == 2 * (tokens * inter)
            &&& geglu_value(x, tokens, width, gate_up, inter, down, down_bias) == affine(
                act,
                tokens,
                inter,
                down,
                down_bias,
                width,
            )
        }),
{
    let all = (inter * 2) as i64;
    let fused = product(x, tokens, width, gate_up, all);
    lemma_linear_product(x, tokens, width, gate_up, all);
    let shape = seq![tokens, inter];
    let gate = columns_value(fused, tokens, all, 0, inter);
    let up = columns_value(fused, tokens, all, inter, inter);
    let active = crate::ops::elementwise::gelu_value(gate, shape, true);
    let gated = crate::executor::blocks::gated_value(fused, tokens, inter);
    let f = |e: int|
        times_word(
            tanh_gelu_word(word(fused, e / (inter as int) * (2 * inter) + e % (inter as int))),
            word(fused, e / (inter as int) * (2 * inter) + inter + e % (inter as int)),
        );
    assert(0 <= tokens * inter) by (nonlinear_arith)
        requires
            0 <= tokens,
            0 < inter,
    ;
    assert(gated.len() == 2 * (tokens * inter)) by {
        reveal(crate::ops::result);
        crate::tensor::lemma_two_dims(tokens, inter);
    }
    assert forall|e: int| 0 <= e < tokens * inter implies #[trigger] word(gated, e) == f(e) by {
        lemma_place(e, tokens as int, inter as int);
        let (t, j) = (e / (inter as int), e % (inter as int));
        lemma_column_element(fused, tokens, all, 0, inter, t, j, 0);
        lemma_column_element(fused, tokens, all, 0, inter, t, j, 1);
        lemma_column_element(fused, tokens, all, inter, inter, t, j, 0);
        lemma_column_element(fused, tokens, all, inter, inter, t, j, 1);
        lemma_activation_word(gate, tokens, inter, e);
        lemma_product_word(active, up, tokens, inter, e);
    }
    lemma_words(gated, tokens * inter, f);
    lemma_affine(gated, tokens, inter, down, down_bias, width);
}

/// Element `e` of the state after a step is element `e` of the state before it, unscaled,
/// plus `dt` times element `e` of the velocity.
pub proof fn lemma_euler_word(
    state: Seq<SymByte>,
    velocity: Seq<SymByte>,
    dt: u32,
    rows: i64,
    cols: i64,
    e: int,
)
    requires
        0 <= cols,
        0 <= e < rows * cols,
    ensures
        euler_mul_value(state, velocity, dt, rows, cols).len() == 2 * (rows * cols),
        word(euler_mul_value(state, velocity, dt, rows, cols), e) == plus_word(
            word(state, e),
            scaled_word(word(velocity, e), dt),
        ),
{
    let shape = seq![rows, cols];
    lemma_scaled_word(velocity, dt, rows, cols, e);
    lemma_sum_word(
        state,
        crate::ops::elementwise::muls_value(velocity, dt, shape),
        rows,
        cols,
        e,
    );
}

/// One plus a word.
pub open spec fn one_plus(a: Word) -> Word {
    (
        SymByte::PlusOne { low: Box::new(a.0), high: Box::new(a.1), upper: false },
        SymByte::PlusOne { low: Box::new(a.0), high: Box::new(a.1), upper: true },
    )
}

/// Element `(r, c)` of an adaptive norm: the norm of row `r`, with a scale of one, times
/// one plus element `c` of the style, plus element `cols + c` of the style.
pub proof fn lemma_adaptive_word(
    x: Seq<SymByte>,
    style: Seq<SymByte>,
    rows: i64,
    cols: i64,
    eps: u32,
    r: int,
    c: int,
)
    requires
        0 <= r < rows,
        0 <= c < cols,
        x.len() == 2 * (rows * cols),
        style.len() >= cols * 4,
    ensures
        ({
            let ones = words(cols as int, |i: int| (SymByte::Lit(0), SymByte::Lit(0x3c)));
            let normed = rms_norm_value(
                x,
                filled((2 * (rows * cols)) as nat, 0),
                ones,
                rows,
                cols,
                Real::Single(eps),
            );
            &&& adaptive_value(x, style, rows, cols, eps).len() == 2 * (rows * cols)
            &&& word(adaptive_value(x, style, rows, cols, eps), r * cols + c) == plus_word(
                times_word(word(normed, r * cols + c), one_plus(word(style, c))),
                word(style, cols + c),
            )
        }),
{
    let shape = seq![rows, cols];
    let ones = literal(half_bytes(cols as nat, crate::encode::all_ones()));
    assert(crate::encode::byte_of(0x3c00, 0) == 0 && crate::encode::byte_of(0x3c00, 1) == 0x3c);
    assert(ones =~= words(cols as int, |i: int| (SymByte::Lit(0), SymByte::Lit(0x3c))));
    let normed = rms_norm_value(x, filled(x.len(), 0), ones, rows, cols, Real::Single(eps));
    let scale = plus_one(style, cols as nat);
    let shift = style.subrange(cols * 2, cols * 2 + cols * 2);
    let scales = replicate_value(scale, rows, cols);
    let shifts = replicate_value(shift, rows, cols);
    let e = r * cols + c;
    lemma_line(r, cols as int, c, rows as int);
    assert(r * (cols * 2) + 2 * c == 2 * e && r * (cols * 2) + (2 * c + 1) == 2 * e + 1)
        by (nonlinear_arith)
        requires
            e == r * cols + c,
    ;
    lemma_replicated_row(scale, rows, cols, r, 2 * c);
    lemma_replicated_row(scale, rows, cols, r, 2 * c + 1);
    lemma_replicated_row(shift, rows, cols, r, 2 * c);
    lemma_replicated_row(shift, rows, cols, r, 2 * c + 1);
    assert((2 * c) / 2 == c && (2 * c + 1) / 2 == c);
    assert(word(scale, c) == one_plus(word(style, c)));
    assert(word(shift, c) == word(style, cols + c));
    let scaled = crate::ops::elementwise::mul_value(normed, scales, shape);
    lemma_product_word(normed, scales, rows, cols, e);
    lemma_sum_word(scaled, shifts, rows, cols, e);
}

/// The cosine of the angle of a channel at a position. An odd last channel has none.
pub open spec fn cosine(theta: u32, d: i64, pos: int, ch: int) -> Word {
    let half = d as int / 2;
    if ch < 2 * half {
        let channel = ch % half;
        (
            SymByte::RopeCos { theta, d, pos, channel, upper: false },
            SymByte::RopeCos { theta, d, pos, channel, upper: true },
        )
    } else {
        (SymByte::Lit(0), SymByte::Lit(0))
    }
}

/// The sine of the angle of a channel at a position, negated in the first half of the
/// channels.
pub open spec fn sine(theta: u32, d: i64, pos: int, ch: int) -> Word {
    let half = d as int / 2;
    if ch < 2 * half {
        let channel = ch % half;
        let negated = ch < half;
        (
            SymByte::RopeSin { theta, d, pos, channel, negated, upper: false },
            SymByte::RopeSin { theta, d, pos, channel, negated, upper: true },
        )
    } else {
        (SymByte::Lit(0), SymByte::Lit(0))
    }
}

/// Channel `ch` of a head of token `t` after the rotation: the channel times the cosine of
/// position `offset + t`, plus the channel half a head away times the signed sine.
pub proof fn lemma_rotated_words(
    x: Seq<SymByte>,
    tokens: i64,
    heads: i64,
    d: i64,
    theta: u32,
    offset: usize,
    max_pos: usize,
)
    requires
        0 <= tokens,
        0 < heads,
        0 < d <= i32::MAX,
        tokens * heads <= i64::MAX,
        offset + tokens <= max_pos <= i64::MAX,
        offset + tokens <= i32::MAX,
    ensures
        rope_rows_value(x, tokens, heads, d, theta, offset, max_pos) == words(
            tokens * heads * d,
            |e: int|
                {
                    let ch = e % (d as int);
                    let half = d as int / 2;
                    let pos = offset + e / (heads * d);
                    let other = if ch < half {
                        e + half
                    } else {
                        e - half
                    };
                    plus_word(
                        times_word(word(x, e), cosine(theta, d, pos, ch)),
                        times_word(word(x, other), sine(theta, d, pos, ch)),
                    )
                },
        ),
{
    let rows = (tokens * heads) as i64;
    assert(0 <= tokens * heads && 0 <= tokens * heads * d) by (nonlinear_arith)
        requires
            0 <= tokens,
            0 < heads,
            0 < d,
    ;
    let shape = seq![rows, d];
    let pos_idx = literal(index_bytes(rows as nat, positions(heads as int, offset as int)));
    let rot_idx = literal(index_bytes(d as nat, rotation(d as int)));
    let cos = position_rows(
        rope_cos_table(theta, d, max_pos),
        max_pos as i64,
        d,
        pos_idx,
        rows,
    );
    let sin = position_rows(
        rope_sin_table(theta, d, max_pos),
        max_pos as i64,
        d,
        pos_idx,
        rows,
    );
    let turned = rotated_value(x, rows, d, rot_idx);
    let a = crate::ops::elementwise::mul_value(x, cos, shape);
    let b = crate::ops::elementwise::mul_value(turned, sin, shape);
    let y = rope_rows_value(x, tokens, heads, d, theta, offset, max_pos);
    let f = |e: int|
        {
            let ch = e % (d as int);
            let half = d as int / 2;
            let pos = offset + e / (heads * d);
            let other = if ch < half {
                e + half
            } else {
                e - half
            };
            plus_word(
                times_word(word(x, e), cosine(theta, d, pos, ch)),
                times_word(word(x, other), sine(theta, d, pos, ch)),
            )
        };
    assert(y.len() == 2 * (tokens * heads * d)) by {
        reveal(crate::ops::result);
        crate::tensor::lemma_two_dims(rows, d);
    }
    assert forall|e: int| 0 <= e < tokens * heads * d implies #[trigger] word(y, e) == f(e) by {
        lemma_place(e, rows as int, d as int);
        let r = e / (d as int);
        let ch = e % (d as int);
        let half = d as int / 2;
        lemma_div_denominator(e, d as int, heads as int);
        assert(d * heads == heads * d) by (nonlinear_arith);
        let t = r / (heads as int);
        assert(t == e / (heads * d));
        assert(0 <= t < tokens) by {
            lemma_place(r, tokens as int, heads as int);
        }
        let pos = offset + t;
        // the angles
        assert(r * (d * 2) + 2 * ch == 2 * e && r * (d * 2) + (2 * ch + 1) == 2 * e + 1)
            by (nonlinear_arith)
            requires
                e == r * d + ch,
        ;
        lemma_table_word(theta, d, max_pos, pos, ch);
        lemma_position_row(
            rope_cos_table(theta, d, max_pos),
            max_pos as i64,
            d,
            rows,
            heads,
            offset,
            r,
            2 * ch,
        );
        lemma_position_row(
            rope_cos_table(theta, d, max_pos),
            max_pos as i64,
            d,
            rows,
            heads,
            offset,
            r,
            2 * ch + 1,
        );
        lemma_position_row(
            rope_sin_table(theta, d, max_pos),
            max_pos as i64,
            d,
            rows,
            heads,
            offset,
            r,
            2 * ch,
        );
        lemma_position_row(
            rope_sin_table(theta, d, max_pos),
            max_pos as i64,
            d,
            rows,
            heads,
            offset,
            r,
            2 * ch + 1,
        );
        assert(word(cos, e) == cosine(theta, d, pos, ch));
        assert(word(sin, e) == sine(theta, d, pos, ch));
        // the channel half a head away
        let k = rotation(d as int)(ch);
        lemma_index_word(d as nat, rotation(d as int), ch);
        lemma_rotated_channel(x, rows, d, rot_idx, r, ch, k, 0);
        lemma_rotated_channel(x, rows, d, rot_idx, r, ch, k, 1);
        let other = if ch < half {
            e + half
        } else {
            e - half
        };
        assert(r * d + k == other);
        assert(word(turned, e) == word(x, other));
        lemma_product_word(x, cos, rows, d, e);
        lemma_product_word(turned, sin, rows, d, e);
        lemma_sum_word(a, b, rows, d, e);
    }
    lemma_words(y, tokens * heads * d, f);
}

/// A word of the position tables.
proof fn lemma_table_word(theta: u32, d: i64, max_pos: usize, pos: int, ch: int)
    requires
        0 <= pos < max_pos,
        0 <= ch < d,
    ensures
        ({
            let cos = rope_cos_table(theta, d, max_pos);
            let sin = rope_sin_table(theta, d, max_pos);
            let at = pos * (d * 2) + 2 * ch;
            &&& (cos[at], cos[at + 1]) == cosine(theta, d, pos, ch)
            &&& (sin[at], sin[at + 1]) == sine(theta, d, pos, ch)
        }),
{
    let e = pos * d + ch;
    lemma_line(pos, d as int, ch, max_pos as int);
    assert(pos * (d * 2) + 2 * ch == 2 * e) by (nonlinear_arith)
        requires
            e == pos * d + ch,
    ;
    assert((2 * e) / 2 == e && (2 * e) % 2 == 0 && (2 * e + 1) / 2 == e && (2 * e + 1) % 2 == 1);
}

} // verus!
