//! What the layers compute, element by element, and which rows a row depends on.

use vstd::prelude::*;

use crate::device::{Entry, Real};
use crate::encode::{cycle, index_bytes};
use crate::executor::blocks::{cat2_value, linear_bias_value, residual_value};
use crate::executor::linear::{
    bias_slice, biased_value, fused_value, k_value, linear_value, optional_value, part_value,
    q_value, v_value,
};
use crate::executor::vision::{columns, norm_value, VisionBuffers, VisionShape};
use crate::host::transpose_words;
use crate::ops::elementwise::gelu_value;
use crate::ops::fp16;
use crate::ops::laws::{
    lemma_biased_element, lemma_biased_rows, lemma_column_rows, lemma_gathered_row,
    lemma_gelu_rows, lemma_index_word, lemma_norm_rows, lemma_product_rows, lemma_sum_rows,
    lemma_transposed_product, lemma_window, lemma_window_rows, rows_agree, sum_byte, word,
};
use crate::ops::matmul::{aligned_rows, matmul_value, transposed};
use crate::ops::result;
use crate::ops::rows::{columns_value, gather_value, lemma_column_element};
use crate::semantics::{
    axis, filled, literal, made, part_at, stretch, stretches, DeviceState, SymByte,
};
use crate::tensor::lemma_two_dims;

verus! {

/// Two matrices laid one after the other are the rows of the first and then those of
/// the second.
pub proof fn lemma_cat2(a: Seq<SymByte>, a_rows: i64, b: Seq<SymByte>, b_rows: i64, cols: i64)
    requires
        0 <= a_rows,
        0 <= b_rows,
        0 <= cols,
        a_rows + b_rows <= i64::MAX,
        a.len() == a_rows * cols * 2,
        b.len() == b_rows * cols * 2,
    ensures
        cat2_value(a, a_rows, b, b_rows, cols) == a + b,
{
    reveal(result);
    let entry = Entry::Cat { dim: 0 };
    let inputs = seq![fp16(a, seq![a_rows, cols]), fp16(b, seq![b_rows, cols])];
    let parts = seq![a, b];
    let shapes = seq![seq![a_rows, cols], seq![b_rows, cols]];
    assert(Seq::new(parts.len(), |i: int| fp16(parts[i], shapes[i])) =~= inputs);
    let all = cat2_value(a, a_rows, b, b_rows, cols);
    lemma_two_dims(a_rows, cols);
    lemma_two_dims(b_rows, cols);
    lemma_two_dims((a_rows + b_rows) as i64, cols);
    assert((a_rows + b_rows) * cols * 2 == a_rows * cols * 2 + b_rows * cols * 2)
        by (nonlinear_arith);
    assert(inputs[0].dims.skip(0) =~= inputs[0].dims);
    assert(inputs[1].dims.skip(0) =~= inputs[1].dims);
    reveal_with_fuel(stretches, 3);
    reveal_with_fuel(part_at, 3);
    assert(stretch(inputs[0], 0) == a.len());
    assert(stretch(inputs[1], 0) == b.len());
    let line = stretches(inputs, 0, 2);
    assert(line == a.len() + b.len());
    assert(all.len() == line);
    assert forall|i: int| 0 <= i < line implies all[i] == (a + b)[i] by {
        vstd::arithmetic::div_mod::lemma_basic_div(i, line);
        vstd::arithmetic::div_mod::lemma_small_mod(i as nat, line as nat);
        assert(all[i] == made(entry, inputs, 0, i));
        assert(axis(0, inputs[0].dims.len()) == 0);
        if i >= a.len() {
            assert(part_at(inputs, 0, i, 2) == 1);
            assert(0 * stretch(inputs[1], 0) == 0);
        } else {
            assert(part_at(inputs, 0, i, 2) == 0);
            assert(0 * stretch(inputs[0], 0) == 0);
        }
    }
    assert(all =~= a + b);
}

/// A position table of `period` rows that is repeated over `rows` rows gives row `r` its
/// row `r % period`.
pub proof fn lemma_repeated_table(
    table: Seq<SymByte>,
    period: i64,
    width: i64,
    rows: i64,
    r: int,
    c: int,
)
    requires
        0 < period <= i32::MAX,
        0 <= r < rows,
        0 <= c < width * 2,
    ensures
        ({
            let index = literal(index_bytes(rows as nat, cycle(period as int)));
            gather_value(table, period, width, index, rows)[r * (width * 2) + c] == table[r % (
            period as int) * (width * 2) + c]
        }),
{
    let f = cycle(period as int);
    vstd::arithmetic::div_mod::lemma_mod_bound(r, period as int);
    lemma_index_word(rows as nat, f, r);
    lemma_gathered_row(
        table,
        period,
        width,
        literal(index_bytes(rows as nat, f)),
        rows,
        r,
        f(r),
        c,
    );
}

/// Element `(t, j)` of a part of a fused projection is element `(t, start + j)` of the
/// projection, plus element `start + j` of the bias where there is one.
pub proof fn lemma_part_element(
    fused: Seq<SymByte>,
    tokens: i64,
    width: i64,
    start: i64,
    cols: i64,
    bias: Option<Seq<SymByte>>,
    t: int,
    j: int,
    byte: int,
)
    requires
        0 <= t < tokens,
        0 <= j < cols,
        0 <= start,
        start + cols <= width,
        0 <= byte < 2,
        bias matches Some(b) ==> (start + cols) * 2 <= b.len(),
    ensures
        part_value(fused, tokens, width, start, cols, bias)[2 * (t * cols + j) + byte] == (
        match bias {
            Some(b) => sum_byte(
                word(fused, t * width + start + j),
                word(b, start + j),
                byte,
            ),
            None => fused[2 * (t * width + start + j) + byte],
        }),
{
    let x = columns_value(fused, tokens, width, start, cols);
    lemma_column_element(fused, tokens, width, start, cols, t, j, 0);
    lemma_column_element(fused, tokens, width, start, cols, t, j, 1);
    match bias {
        Some(b) => {
            let slice = b.subrange(start * 2, start * 2 + cols * 2);
            lemma_biased_element(x, slice, tokens, cols, t, j, byte);
            assert(word(slice, j) == word(b, start + j));
            assert(word(x, t * cols + j) == word(fused, t * width + start + j));
        },
        None => {
            assert(x.len() / 2 * 2 == x.len());
            assert(x.subrange(0, x.len() as int) =~= x);
        },
    }
}

/// The queries, keys and values of token `t` are cut from row `t` of the fused
/// projection: queries from the first `qd` columns, keys from the next `kv_d`, values
/// from the last `kv_d`. Each adds the bias of its own columns.
pub proof fn lemma_qkv_element(
    x: Seq<SymByte>,
    tokens: i64,
    in_w: i64,
    w: Seq<SymByte>,
    bias: Option<Seq<SymByte>>,
    qd: i64,
    kv_d: i64,
    t: int,
    j: int,
    byte: int,
)
    requires
        0 <= t < tokens,
        0 <= qd,
        0 <= kv_d,
        qd + 2 * kv_d <= i64::MAX,
        0 <= j,
        0 <= byte < 2,
        bias matches Some(b) ==> (qd + 2 * kv_d) * 2 <= b.len(),
    ensures
        ({
            let fused = fused_value(x, tokens, in_w, w, qd, kv_d);
            let width = qd + 2 * kv_d;
            let part = |c: int|
                match bias {
                    Some(b) => sum_byte(word(fused, t * width + c), word(b, c), byte),
                    None => fused[2 * (t * width + c) + byte],
                };
            &&& j < qd ==> q_value(x, tokens, in_w, w, bias, qd, kv_d)[2 * (t * qd + j) + byte]
                == part(j)
            &&& j < kv_d ==> k_value(x, tokens, in_w, w, bias, qd, kv_d)[2 * (t * kv_d + j) + byte]
                == part(qd + j)
            &&& j < kv_d ==> v_value(x, tokens, in_w, w, bias, qd, kv_d)[2 * (t * kv_d + j) + byte]
                == part(qd + kv_d + j)
        }),
{
    let fused = fused_value(x, tokens, in_w, w, qd, kv_d);
    let width = (qd + 2 * kv_d) as i64;
    if j < qd {
        lemma_part_element(fused, tokens, width, 0, qd, bias, t, j, byte);
    }
    if j < kv_d {
        lemma_part_element(fused, tokens, width, qd, kv_d, bias, t, j, byte);
        lemma_part_element(fused, tokens, width, (qd + kv_d) as i64, kv_d, bias, t, j, byte);
    }
}

/// A linear layer is the product of its input and its weight as it is stored, though the
/// kernel reads the weight transposed.
pub proof fn lemma_linear_product(
    x: Seq<SymByte>,
    tokens: i64,
    in_w: i64,
    w: Seq<SymByte>,
    out_w: i64,
)
    requires
        0 <= tokens <= i64::MAX - 16,
        0 <= in_w,
        0 < out_w,
        w.len() == in_w * out_w * 2,
    ensures
        linear_value(x, [tokens, in_w], w, [in_w, out_w]) == matmul_value(
            x,
            tokens,
            in_w,
            fp16(w, seq![in_w, out_w]),
            out_w,
        ),
{
    reveal(linear_value);
    assert(in_w * out_w == out_w * in_w) by (nonlinear_arith);
    vstd::arithmetic::div_mod::lemma_fundamental_div_mod_converse(
        (in_w * out_w) as int,
        out_w as int,
        in_w as int,
        0,
    );
    lemma_transposed_product(x, tokens, in_w, w, out_w, SymByte::Lit(0));
}

/// A row of a linear layer depends on that row of its input.
proof fn lemma_linear_rows(
    x: Seq<SymByte>,
    y: Seq<SymByte>,
    tokens: i64,
    in_w: i64,
    w: Seq<SymByte>,
    out_w: i64,
    first: int,
    end: int,
)
    requires
        0 <= tokens <= i64::MAX - 16,
        0 <= in_w,
        0 <= out_w,
        x.len() == tokens * in_w * 2,
        0 <= first,
        end <= tokens,
        rows_agree(x, y, in_w as int, first, end),
    ensures
        rows_agree(
            linear_value(x, [tokens, in_w], w, [in_w, out_w]),
            linear_value(y, [tokens, in_w], w, [in_w, out_w]),
            out_w as int,
            first,
            end,
        ),
        linear_value(x, [tokens, in_w], w, [in_w, out_w]).len() == tokens * out_w * 2,
{
    reveal(linear_value);
    reveal(result);
    let b = transposed(
        transpose_words(
            w,
            (w.len() / 2) as int / out_w as int,
            out_w as int,
            SymByte::Lit(0),
        ),
        in_w,
        out_w,
    );
    lemma_product_rows(x, y, tokens, in_w, b, out_w, first, end);
    let t = aligned_rows(tokens);
    lemma_two_dims(t, out_w);
    assert(0 <= tokens * out_w * 2 <= t * out_w * 2) by (nonlinear_arith)
        requires
            0 <= tokens <= t,
            0 <= out_w,
    ;
}

/// A row of a biased matrix depends on that row of the matrix.
proof fn lemma_optional_bias_rows(
    x: Seq<SymByte>,
    y: Seq<SymByte>,
    bias: Option<Seq<SymByte>>,
    rows: i64,
    cols: i64,
    first: int,
    end: int,
)
    requires
        0 <= rows,
        0 <= cols,
        x.len() == rows * cols * 2,
        0 <= first,
        end <= rows,
        rows_agree(x, y, cols as int, first, end),
    ensures
        rows_agree(
            biased_value(x, bias, rows, cols),
            biased_value(y, bias, rows, cols),
            cols as int,
            first,
            end,
        ),
        biased_value(x, bias, rows, cols).len() == rows * cols * 2,
{
    match bias {
        Some(b) => {
            reveal(result);
            lemma_two_dims(rows, cols);
            assert(0 <= rows * cols) by (nonlinear_arith)
                requires
                    0 <= rows,
                    0 <= cols,
            ;
            lemma_biased_rows(x, y, b, rows, cols, first, end);
        },
        None => {
            assert(x.len() / 2 * 2 == x.len());
            assert(x.subrange(0, x.len() as int) =~= x);
            assert(y.subrange(0, y.len() as int) =~= y);
        },
    }
}

/// A row of a linear layer with a bias and a residual depends on that row of its input
/// and of the residual.
proof fn lemma_residual_rows(
    x: Seq<SymByte>,
    y: Seq<SymByte>,
    p: Seq<SymByte>,
    q: Seq<SymByte>,
    tokens: i64,
    in_w: i64,
    w: Seq<SymByte>,
    bias: Option<Seq<SymByte>>,
    width: i64,
    first: int,
    end: int,
)
    requires
        0 <= tokens <= i64::MAX - 16,
        0 <= in_w,
        0 <= width,
        x.len() == tokens * in_w * 2,
        0 <= first,
        end <= tokens,
        rows_agree(x, y, in_w as int, first, end),
        rows_agree(p, q, width as int, first, end),
    ensures
        rows_agree(
            residual_value(x, tokens, in_w, w, bias, width, p),
            residual_value(y, tokens, in_w, w, bias, width, q),
            width as int,
            first,
            end,
        ),
        residual_value(x, tokens, in_w, w, bias, width, p).len() == tokens * width * 2,
{
    reveal(result);
    lemma_linear_rows(x, y, tokens, in_w, w, width, first, end);
    let u = linear_value(x, [tokens, in_w], w, [in_w, width]);
    let v = linear_value(y, [tokens, in_w], w, [in_w, width]);
    lemma_optional_bias_rows(u, v, bias, tokens, width, first, end);
    lemma_sum_rows(
        biased_value(u, bias, tokens, width),
        biased_value(v, bias, tokens, width),
        p,
        q,
        tokens,
        width,
        first,
        end,
    );
    lemma_two_dims(tokens, width);
    assert(0 <= tokens * width) by (nonlinear_arith)
        requires
            0 <= tokens,
            0 <= width,
    ;
}

/// A row of a part of a fused projection depends on that row of the projection.
proof fn lemma_part_rows(
    x: Seq<SymByte>,
    y: Seq<SymByte>,
    tokens: i64,
    width: i64,
    start: i64,
    cols: i64,
    bias: Option<Seq<SymByte>>,
    first: int,
    end: int,
)
    requires
        0 <= tokens,
        0 <= start,
        0 <= cols,
        start + cols <= width,
        0 <= first,
        end <= tokens,
        rows_agree(x, y, width as int, first, end),
    ensures
        rows_agree(
            part_value(x, tokens, width, start, cols, bias),
            part_value(y, tokens, width, start, cols, bias),
            cols as int,
            first,
            end,
        ),
        part_value(x, tokens, width, start, cols, bias).len() == tokens * cols * 2,
{
    assert(tokens * (cols * 2) == tokens * cols * 2 && 0 <= tokens * cols) by (nonlinear_arith)
        requires
            0 <= tokens,
            0 <= cols,
    ;
    lemma_column_rows(x, y, tokens, width, start, cols, first, end);
    lemma_optional_bias_rows(
        columns_value(x, tokens, width, start, cols),
        columns_value(y, tokens, width, start, cols),
        bias_slice(bias, start, cols),
        tokens,
        cols,
        first,
        end,
    );
}

/// A row of a layer norm depends on that row of its input.
proof fn lemma_norm_value_rows(
    x: Seq<SymByte>,
    y: Seq<SymByte>,
    gamma: Seq<SymByte>,
    beta: Seq<SymByte>,
    tokens: i64,
    width: i64,
    eps: u32,
    first: int,
    end: int,
)
    requires
        0 <= tokens,
        0 <= width,
        x.len() == tokens * width * 2,
        0 <= first,
        end <= tokens,
        rows_agree(x, y, width as int, first, end),
    ensures
        rows_agree(
            norm_value(x, gamma, beta, tokens, width, eps),
            norm_value(y, gamma, beta, tokens, width, eps),
            width as int,
            first,
            end,
        ),
        norm_value(x, gamma, beta, tokens, width, eps).len() == tokens * width * 2,
{
    reveal(result);
    lemma_norm_rows(
        x,
        y,
        filled(x.len(), 0),
        gamma,
        beta,
        tokens,
        width,
        Real::Single(eps),
        first,
        end,
    );
    lemma_two_dims(tokens, width);
}

/// The attention half of a vision layer stays within a view.
proof fn lemma_attention_isolated(
    w: VisionBuffers,
    st: DeviceState,
    x: Seq<SymByte>,
    y: Seq<SymByte>,
    shape: VisionShape,
    view: int,
)
    requires
        shape.fits(),
        x.len() == shape.tokens * shape.width * 2,
        0 <= view < shape.views(),
        rows_agree(
            x,
            y,
            shape.width as int,
            view * shape.per_view,
            (view + 1) * shape.per_view,
        ),
    ensures
        rows_agree(
            w.attention(st, x, shape),
            w.attention(st, y, shape),
            shape.qd() as int,
            view * shape.per_view,
            (view + 1) * shape.per_view,
        ),
        w.attention(st, x, shape).len() == shape.tokens * shape.qd() * 2,
{
    let first = view * shape.per_view;
    let end = (view + 1) * shape.per_view;
    lemma_view_rows(shape, view);
    let tokens = shape.tokens;
    let qd = shape.qd();
    let wide = (qd + 2 * qd) as i64;
    assert(0 <= shape.heads * shape.head_dim <= shape.heads * shape.head_dim * 3)
        by (nonlinear_arith)
        requires
            0 < shape.heads,
            0 < shape.head_dim,
    ;
    let gamma = st.value(w.norm1);
    let beta = st.value(w.norm1_bias);
    lemma_norm_value_rows(x, y, gamma, beta, tokens, shape.width, shape.eps, first, end);
    let nx = norm_value(x, gamma, beta, tokens, shape.width, shape.eps);
    let ny = norm_value(y, gamma, beta, tokens, shape.width, shape.eps);
    let wv = st.value(w.qkv);
    let b = optional_value(st, w.qkv_bias);
    lemma_linear_rows(nx, ny, tokens, shape.width, wv, wide, first, end);
    let fx = fused_value(nx, tokens, shape.width, wv, qd, qd);
    let fy = fused_value(ny, tokens, shape.width, wv, qd, qd);
    lemma_part_rows(fx, fy, tokens, wide, 0, qd, b, first, end);
    lemma_part_rows(fx, fy, tokens, wide, qd, qd, b, first, end);
    lemma_part_rows(fx, fy, tokens, wide, (qd + qd) as i64, qd, b, first, end);
    let views = shape.views();
    let per = shape.per_view;
    assert(tokens * qd * 2 == views * (per * qd * 2)) by (nonlinear_arith)
        requires
            views * per == tokens,
    ;
    let q = (
        q_value(nx, tokens, shape.width, wv, b, qd, qd),
        q_value(ny, tokens, shape.width, wv, b, qd, qd),
    );
    let k = (
        k_value(nx, tokens, shape.width, wv, b, qd, qd),
        k_value(ny, tokens, shape.width, wv, b, qd, qd),
    );
    let v = (
        v_value(nx, tokens, shape.width, wv, b, qd, qd),
        v_value(ny, tokens, shape.width, wv, b, qd, qd),
    );
    lemma_window_rows(q, k, v, views, per, shape.heads, shape.head_dim, None, view);
    lemma_window(
        q.0,
        k.0,
        v.0,
        views,
        per,
        shape.heads,
        shape.heads,
        shape.head_dim,
        None,
        view,
    );
}

/// The rows of a view lie among the tokens.
proof fn lemma_view_rows(shape: VisionShape, view: int)
    requires
        shape.fits(),
        0 <= view < shape.views(),
    ensures
        0 <= view * shape.per_view,
        (view + 1) * shape.per_view <= shape.tokens,
{
    let views = shape.views();
    let per = shape.per_view;
    assert(0 <= view * per && (view + 1) * per <= views * per) by (nonlinear_arith)
        requires
            0 <= view < views,
            0 < per,
    ;
}

/// No view of a vision layer depends on another: where two inputs agree on the rows of
/// a view, so do the results.
pub proof fn lemma_view_isolated(
    w: VisionBuffers,
    st: DeviceState,
    x: Seq<SymByte>,
    y: Seq<SymByte>,
    shape: VisionShape,
    view: int,
)
    requires
        w.ready(st, shape),
        x.len() == shape.tokens * shape.width * 2,
        0 <= view < shape.views(),
        rows_agree(
            x,
            y,
            shape.width as int,
            view * shape.per_view,
            (view + 1) * shape.per_view,
        ),
    ensures
        rows_agree(
            w.value(st, x, shape),
            w.value(st, y, shape),
            shape.width as int,
            view * shape.per_view,
            (view + 1) * shape.per_view,
        ),
        w.value(st, x, shape).len() == shape.tokens * shape.width * 2,
{
    let first = view * shape.per_view;
    let end = (view + 1) * shape.per_view;
    lemma_view_rows(shape, view);
    lemma_attention_isolated(w, st, x, y, shape, view);
    let tokens = shape.tokens;
    let qd = shape.qd();
    let width = shape.width;
    assert(0 <= shape.heads * shape.head_dim <= shape.heads * shape.head_dim * 3)
        by (nonlinear_arith)
        requires
            0 < shape.heads,
            0 < shape.head_dim,
    ;
    let ov = st.value(w.output);
    let ob = optional_value(st, w.output_bias);
    let ax = w.attention(st, x, shape);
    let ay = w.attention(st, y, shape);
    lemma_residual_rows(ax, ay, x, y, tokens, qd, ov, ob, width, first, end);
    let rx = residual_value(ax, tokens, qd, ov, ob, width, x);
    let ry = residual_value(ay, tokens, qd, ov, ob, width, y);
    let gamma = st.value(w.norm2);
    let beta = st.value(w.norm2_bias);
    lemma_norm_value_rows(rx, ry, gamma, beta, tokens, width, shape.eps, first, end);
    let nx = norm_value(rx, gamma, beta, tokens, width, shape.eps);
    let ny = norm_value(ry, gamma, beta, tokens, width, shape.eps);
    let inter = columns(w.fc1, width);
    let f1 = st.value(w.fc1);
    let b1 = optional_value(st, w.fc1_bias);
    lemma_linear_rows(nx, ny, tokens, width, f1, inter, first, end);
    let lx = linear_value(nx, [tokens, width], f1, [width, inter]);
    let ly = linear_value(ny, [tokens, width], f1, [width, inter]);
    lemma_optional_bias_rows(lx, ly, b1, tokens, inter, first, end);
    let hx = linear_bias_value(nx, tokens, width, f1, b1, inter);
    let hy = linear_bias_value(ny, tokens, width, f1, b1, inter);
    lemma_gelu_rows(hx, hy, tokens, inter, false, first, end);
    let gx = gelu_value(hx, seq![tokens, inter], false);
    let gy = gelu_value(hy, seq![tokens, inter], false);
    assert(gx.len() == tokens * inter * 2) by {
        reveal(result);
        lemma_two_dims(tokens, inter);
        assert(0 <= tokens * inter) by (nonlinear_arith)
            requires
                0 <= tokens,
                0 <= inter,
        ;
    }
    lemma_residual_rows(
        gx,
        gy,
        rx,
        ry,
        tokens,
        inter,
        st.value(w.fc2),
        optional_value(st, w.fc2_bias),
        width,
        first,
        end,
    );
}

} // verus!
