//! What a layer delivers, said of the fields of its weights and of single elements of its
//! input: which norm comes before which projection, what is attended to, and what by-passes
//! a block.

use vstd::prelude::*;

use crate::device::Real;
use crate::encode::cycle;
use crate::executor::action::{
    action_buffers, adaptive_value, ActionTensors, ActionValues,
};
use crate::executor::attention::{lemma_attention_sizes, AttentionShape};
use crate::executor::blocks::{geglu_value, linear_bias_value};
use crate::executor::language::{attention_shape, gated_width, language_buffers};
use crate::executor::laws::{lemma_cat2, lemma_repeated_table};
use crate::executor::linear::{k_value, optional_value, q_value, v_value};
use crate::executor::vision::{
    columns, patch_buffers, patch_shape, vision_buffers, vision_shape, VisionShape,
};
use crate::executor::words::{
    affine, biased_word, lemma_affine, lemma_qkv_words, lemma_rotated_words, product,
};
use crate::model::{
    optional_buffer, Bf16DeviceActionLayer, Bf16DeviceLanguageLayer, Bf16DeviceVisionBlock,
    Bf16LinearWeights, GemmaVariantConfig, Tensor,
};
use crate::ops::attention::{batch_attention_value, cross_attention_value};
use crate::ops::elementwise::{add_value, gelu_value};
use crate::ops::laws::word;
use crate::ops::norm::{layer_norm_value, rms_norm_value};
use crate::ops::words::{
    exact_gelu_word, lemma_activation_word, lemma_self_attention, lemma_sum_word, lemma_words,
    lemma_words_at, plus_word, words,
};
use crate::rope::rope_rows_value;
use crate::semantics::{filled, DeviceState, SymByte};

verus! {

/// What a tensor on the device holds.
pub open spec fn on(st: DeviceState, t: Tensor) -> Seq<SymByte> {
    st.value(t@.on_device())
}

/// What the bias of a linear layer holds, where it has one.
pub open spec fn bias_on(st: DeviceState, l: Bf16LinearWeights) -> Option<Seq<SymByte>> {
    match l.bias {
        Some(t) => Some(on(st, t)),
        None => None,
    }
}

/// The bias of a linear layer is on the device, where it has one.
pub open spec fn bias_there(l: Bf16LinearWeights) -> bool {
    l.bias matches Some(t) ==> t@.buffer() is Some
}

/// Columns `[first, first + cols)` of every row of a product with rows of `all` columns,
/// each with the bias of its column.
pub open spec fn part_words(
    p: Seq<SymByte>,
    rows: i64,
    all: int,
    bias: Option<Seq<SymByte>>,
    first: int,
    cols: int,
) -> Seq<SymByte> {
    words(
        rows * cols,
        |e: int|
            biased_word(
                word(p, e / cols * all + first + e % cols),
                bias,
                first + e % cols,
            ),
    )
}

/// The sum of two matrices, element by element.
pub open spec fn sum_words(a: Seq<SymByte>, b: Seq<SymByte>, n: int) -> Seq<SymByte> {
    words(n, |e: int| plus_word(word(a, e), word(b, e)))
}

/// A sum is the sum of the elements.
proof fn lemma_sum_words(a: Seq<SymByte>, b: Seq<SymByte>, rows: i64, cols: i64)
    requires
        0 <= rows,
        0 <= cols,
    ensures
        add_value(a, b, seq![rows, cols]) == sum_words(a, b, rows * cols),
        sum_words(a, b, rows * cols).len() == 2 * (rows * cols),
{
    let y = add_value(a, b, seq![rows, cols]);
    let f = |e: int| plus_word(word(a, e), word(b, e));
    assert(0 <= rows * cols) by (nonlinear_arith)
        requires
            0 <= rows,
            0 <= cols,
    ;
    assert(y.len() == 2 * (rows * cols)) by {
        reveal(crate::ops::result);
        crate::tensor::lemma_two_dims(rows, cols);
    }
    assert forall|e: int| 0 <= e < rows * cols implies #[trigger] word(y, e) == f(e) by {
        lemma_sum_word(a, b, rows, cols, e);
    }
    lemma_words(y, rows * cols, f);
}

/// The parts of a fused projection are columns of the product.
proof fn lemma_parts(
    x: Seq<SymByte>,
    rows: i64,
    in_w: i64,
    w: Seq<SymByte>,
    bias: Option<Seq<SymByte>>,
    qd: i64,
    kv_d: i64,
)
    requires
        0 <= rows <= i64::MAX - 16,
        0 <= in_w,
        0 <= qd,
        0 <= kv_d,
        0 < qd + 2 * kv_d <= i64::MAX,
        w.len() == in_w * (qd + 2 * kv_d) * 2,
        bias matches Some(b) ==> (qd + 2 * kv_d) * 2 <= b.len(),
    ensures
        ({
            let all = qd + 2 * kv_d;
            let p = product(x, rows, in_w, w, all as i64);
            &&& q_value(x, rows, in_w, w, bias, qd, kv_d) == part_words(
                p,
                rows,
                all,
                bias,
                0,
                qd as int,
            )
            &&& k_value(x, rows, in_w, w, bias, qd, kv_d) == part_words(
                p,
                rows,
                all,
                bias,
                qd as int,
                kv_d as int,
            )
            &&& v_value(x, rows, in_w, w, bias, qd, kv_d) == part_words(
                p,
                rows,
                all,
                bias,
                qd + kv_d,
                kv_d as int,
            )
        }),
{
    lemma_qkv_words(x, rows, in_w, w, bias, qd, kv_d);
    let all = qd + 2 * kv_d;
    let p = product(x, rows, in_w, w, all as i64);
    assert(q_value(x, rows, in_w, w, bias, qd, kv_d) =~= part_words(
        p,
        rows,
        all,
        bias,
        0,
        qd as int,
    ));
    assert(k_value(x, rows, in_w, w, bias, qd, kv_d) =~= part_words(
        p,
        rows,
        all,
        bias,
        qd as int,
        kv_d as int,
    ));
    assert(v_value(x, rows, in_w, w, bias, qd, kv_d) =~= part_words(
        p,
        rows,
        all,
        bias,
        qd + kv_d,
        kv_d as int,
    ));
}

/// A bias reads the same through the buffer behind it.
proof fn lemma_bias(st: DeviceState, l: Bf16LinearWeights)
    requires
        bias_there(l),
    ensures
        optional_value(st, optional_buffer(l.bias)) == bias_on(st, l),
{
}

/// Element by element, `out` is the block plus the residual, and the residual is what was
/// projected plus what by-passed the projection.
pub open spec fn adds_up(
    out: Seq<SymByte>,
    block: Seq<SymByte>,
    projected: Seq<SymByte>,
    x: Seq<SymByte>,
    n: int,
) -> bool {
    &&& out.len() == 2 * n
    &&& forall|e: int|
        0 <= e < n ==> #[trigger] word(out, e) == plus_word(
            word(block, e),
            plus_word(word(projected, e), word(x, e)),
        )
}

/// Two sums, one on top of the other.
proof fn lemma_adds_up(
    block: Seq<SymByte>,
    projected: Seq<SymByte>,
    x: Seq<SymByte>,
    rows: i64,
    cols: i64,
)
    requires
        0 <= rows,
        0 <= cols,
    ensures
        ({
            let shape = seq![rows, cols];
            adds_up(
                add_value(block, add_value(projected, x, shape), shape),
                block,
                projected,
                x,
                rows * cols,
            )
        }),
        add_value(projected, x, seq![rows, cols]) == words(
            rows * cols,
            |e: int| plus_word(word(projected, e), word(x, e)),
        ),
        add_value(projected, x, seq![rows, cols]).len() == 2 * (rows * cols),
{
    let shape = seq![rows, cols];
    let res = add_value(projected, x, shape);
    let out = add_value(block, res, shape);
    lemma_sum_words(projected, x, rows, cols);
    lemma_sum_words(block, res, rows, cols);
    assert forall|e: int| 0 <= e < rows * cols implies #[trigger] word(out, e) == plus_word(
        word(block, e),
        plus_word(word(projected, e), word(x, e)),
    ) by {
        lemma_sum_word(projected, x, rows, cols, e);
        lemma_sum_word(block, res, rows, cols, e);
    }
}

/// What by-passes the two blocks of a language layer, whatever the sizes of its weights.
pub proof fn lemma_language_stream(
    st: DeviceState,
    w: Bf16DeviceLanguageLayer,
    x: Seq<SymByte>,
    shape: AttentionShape,
    width: i64,
    eps: u32,
    max_pos: usize,
)
    requires
        0 <= shape.tokens,
        0 <= width,
        bias_there(w.output),
        bias_there(w.down),
    ensures
        ({
            let size = shape.tokens * width;
            let attn = language_buffers(w, true).attention(st, x, shape, width, eps, max_pos);
            let projected = linear_bias_value(
                attn,
                shape.tokens,
                shape.qd(),
                on(st, w.output.weight),
                bias_on(st, w.output),
                width,
            );
            let residual = words(size, |e: int| plus_word(word(projected, e), word(x, e)));
            let block = geglu_value(
                rms_norm_value(
                    residual,
                    filled((2 * size) as nat, 0),
                    on(st, w.post_attention_norm_scale),
                    shape.tokens,
                    width,
                    Real::Single(eps),
                ),
                shape.tokens,
                width,
                on(st, w.gate_up.weight),
                gated_width(w.gate_up.weight@.on_device(), width),
                on(st, w.down.weight),
                bias_on(st, w.down),
            );
            adds_up(
                language_buffers(w, true).hidden(st, x, shape, width, eps, max_pos),
                block,
                projected,
                x,
                size,
            )
        }),
{
    lemma_bias(st, w.output);
    lemma_bias(st, w.down);
    let size = shape.tokens * width;
    let attn = language_buffers(w, true).attention(st, x, shape, width, eps, max_pos);
    let projected = linear_bias_value(
        attn,
        shape.tokens,
        shape.qd(),
        on(st, w.output.weight),
        bias_on(st, w.output),
        width,
    );
    lemma_adds_up(Seq::empty(), projected, x, shape.tokens, width);
    let residual = words(size, |e: int| plus_word(word(projected, e), word(x, e)));
    let block = geglu_value(
        rms_norm_value(
            residual,
            filled((2 * size) as nat, 0),
            on(st, w.post_attention_norm_scale),
            shape.tokens,
            width,
            Real::Single(eps),
        ),
        shape.tokens,
        width,
        on(st, w.gate_up.weight),
        gated_width(w.gate_up.weight@.on_device(), width),
        on(st, w.down.weight),
        bias_on(st, w.down),
    );
    lemma_adds_up(block, projected, x, shape.tokens, width);
}

/// What by-passes the two blocks of a vision layer, whatever the sizes of its weights.
pub proof fn lemma_vision_stream(
    st: DeviceState,
    w: Bf16DeviceVisionBlock,
    x: Seq<SymByte>,
    shape: VisionShape,
)
    requires
        0 <= shape.tokens,
        0 <= shape.width,
        bias_there(w.output),
        bias_there(w.fc1),
        bias_there(w.fc2),
    ensures
        ({
            let size = shape.tokens * shape.width;
            let inter = columns(w.fc1.weight@.on_device(), shape.width);
            let projected = linear_bias_value(
                vision_buffers(w).attention(st, x, shape),
                shape.tokens,
                shape.qd(),
                on(st, w.output.weight),
                bias_on(st, w.output),
                shape.width,
            );
            let residual = words(size, |e: int| plus_word(word(projected, e), word(x, e)));
            let up = linear_bias_value(
                layer_norm_value(
                    residual,
                    filled((2 * size) as nat, 0),
                    on(st, w.norm2.weight),
                    on(st, w.norm2.bias),
                    shape.tokens,
                    shape.width,
                    Real::Single(shape.eps),
                ),
                shape.tokens,
                shape.width,
                on(st, w.fc1.weight),
                bias_on(st, w.fc1),
                inter,
            );
            let block = linear_bias_value(
                gelu_value(up, seq![shape.tokens, inter], false),
                shape.tokens,
                inter,
                on(st, w.fc2.weight),
                bias_on(st, w.fc2),
                shape.width,
            );
            adds_up(vision_buffers(w).value(st, x, shape), block, projected, x, size)
        }),
{
    lemma_bias(st, w.output);
    lemma_bias(st, w.fc1);
    lemma_bias(st, w.fc2);
    let size = shape.tokens * shape.width;
    let inter = columns(w.fc1.weight@.on_device(), shape.width);
    let projected = linear_bias_value(
        vision_buffers(w).attention(st, x, shape),
        shape.tokens,
        shape.qd(),
        on(st, w.output.weight),
        bias_on(st, w.output),
        shape.width,
    );
    lemma_adds_up(Seq::empty(), projected, x, shape.tokens, shape.width);
    let residual = words(size, |e: int| plus_word(word(projected, e), word(x, e)));
    let up = linear_bias_value(
        layer_norm_value(
            residual,
            filled((2 * size) as nat, 0),
            on(st, w.norm2.weight),
            on(st, w.norm2.bias),
            shape.tokens,
            shape.width,
            Real::Single(shape.eps),
        ),
        shape.tokens,
        shape.width,
        on(st, w.fc1.weight),
        bias_on(st, w.fc1),
        inter,
    );
    let block = linear_bias_value(
        gelu_value(up, seq![shape.tokens, inter], false),
        shape.tokens,
        inter,
        on(st, w.fc2.weight),
        bias_on(st, w.fc2),
        shape.width,
    );
    lemma_adds_up(block, projected, x, shape.tokens, shape.width);
}

/// What by-passes the two blocks of an action layer, whatever the sizes of its weights.
pub proof fn lemma_action_stream(
    st: DeviceState,
    w: Bf16DeviceActionLayer,
    n: Seq<SymByte>,
    vals: ActionValues,
    shape: AttentionShape,
    width: i64,
    eps: u32,
    max_pos: usize,
)
    requires
        0 <= shape.tokens,
        0 <= width,
        bias_there(w.output),
        bias_there(w.down),
    ensures
        ({
            let size = shape.tokens * width;
            let projected = linear_bias_value(
                action_buffers(w).attention(st, n, vals, shape, max_pos),
                shape.tokens,
                shape.qd(),
                on(st, w.output.weight),
                bias_on(st, w.output),
                width,
            );
            let residual = words(size, |e: int| plus_word(word(projected, e), word(n, e)));
            let block = geglu_value(
                adaptive_value(residual, vals.mlp_style, shape.tokens, width, eps),
                shape.tokens,
                width,
                on(st, w.gate_up.weight),
                gated_width(w.gate_up.weight@.on_device(), width),
                on(st, w.down.weight),
                bias_on(st, w.down),
            );
            let out = action_buffers(w).hidden(st, n, vals, shape, width, eps, max_pos);
            &&& adds_up(out, block, projected, n, size)
            &&& action_buffers(w).next(st, n, vals, shape, width, eps, max_pos) == adaptive_value(
                out,
                vals.next_style,
                shape.tokens,
                width,
                eps,
            )
        }),
{
    lemma_bias(st, w.output);
    lemma_bias(st, w.down);
    let size = shape.tokens * width;
    let projected = linear_bias_value(
        action_buffers(w).attention(st, n, vals, shape, max_pos),
        shape.tokens,
        shape.qd(),
        on(st, w.output.weight),
        bias_on(st, w.output),
        width,
    );
    lemma_adds_up(Seq::empty(), projected, n, shape.tokens, width);
    let residual = words(size, |e: int| plus_word(word(projected, e), word(n, e)));
    let block = geglu_value(
        adaptive_value(residual, vals.mlp_style, shape.tokens, width, eps),
        shape.tokens,
        width,
        on(st, w.gate_up.weight),
        gated_width(w.gate_up.weight@.on_device(), width),
        on(st, w.down.weight),
        bias_on(st, w.down),
    );
    lemma_adds_up(block, projected, n, shape.tokens, width);
}

/// The sizes of the attention of a layer that the laws speak of: there are channels, and
/// every position has its row in tables of `max_pos` rows.
pub open spec fn positions_covered(
    config: GemmaVariantConfig,
    tokens: usize,
    offset: usize,
    max_pos: usize,
) -> bool {
    &&& 0 < config.head_dim <= i32::MAX
    &&& offset + tokens <= i32::MAX
    &&& offset + tokens <= max_pos <= i64::MAX
}

/// Keys, values and attention of a language layer. The rows are normalized with the input
/// scale; queries, keys and values are the columns of their product with the fused weight;
/// queries and keys are rotated, values are not; every row attends to all rows.
pub proof fn lemma_language_attention(
    st: DeviceState,
    config: GemmaVariantConfig,
    w: Bf16DeviceLanguageLayer,
    tail: bool,
    x: Seq<SymByte>,
    tokens: usize,
    width: i64,
    offset: usize,
    eps: u32,
    theta: u32,
    max_pos: usize,
)
    requires
        config.num_heads <= i64::MAX,
        config.num_kv_heads <= i64::MAX,
        tokens <= i64::MAX,
        attention_shape(config, tokens, offset, theta).fits(),
        positions_covered(config, tokens, offset, max_pos),
        bias_there(w.qkv),
        x.len() == 2 * (tokens * width),
        ({
            let qd = config.num_heads * config.head_dim;
            let kv_d = config.num_kv_heads * config.head_dim;
            let in_w = if qd >= kv_d {
                qd
            } else {
                kv_d
            };
            &&& on(st, w.qkv.weight).len() == in_w * (qd + 2 * kv_d) * 2
            &&& bias_on(st, w.qkv) matches Some(b) ==> (qd + 2 * kv_d) * 2 <= b.len()
        }),
    ensures
        ({
            let shape = attention_shape(config, tokens, offset, theta);
            let layer = language_buffers(w, tail);
            let rows = tokens as i64;
            let d = config.head_dim as i64;
            let heads = config.num_heads as i64;
            let kv_heads = config.num_kv_heads as i64;
            let qd = heads * d;
            let kv_d = kv_heads * d;
            let in_w = if qd >= kv_d {
                qd
            } else {
                kv_d
            };
            let all = qd + 2 * kv_d;
            let n = rms_norm_value(
                x,
                filled((2 * (tokens * width)) as nat, 0),
                on(st, w.input_norm_scale),
                rows,
                width,
                Real::Single(eps),
            );
            let p = product(n, rows, in_w as i64, on(st, w.qkv.weight), all as i64);
            let bias = bias_on(st, w.qkv);
            let q = part_words(p, rows, all, bias, 0, qd);
            let k = part_words(p, rows, all, bias, qd, kv_d);
            let v = part_words(p, rows, all, bias, qd + kv_d, kv_d);
            let rq = rope_rows_value(q, rows, heads, d, theta, offset, max_pos);
            let rk = rope_rows_value(k, rows, kv_heads, d, theta, offset, max_pos);
            &&& layer.values(st, x, shape, width, eps) == v
            &&& layer.keys(st, x, shape, width, eps, max_pos) == rk
            &&& layer.attention(st, x, shape, width, eps, max_pos) == cross_attention_value(
                rq,
                rk,
                v,
                rows,
                rows,
                heads,
                kv_heads,
                d,
                None,
            )
        }),
{
    let shape = attention_shape(config, tokens, offset, theta);
    let rows = tokens as i64;
    let d = config.head_dim as i64;
    let heads = config.num_heads as i64;
    let kv_heads = config.num_kv_heads as i64;
    lemma_attention_sizes(shape);
    lemma_bias(st, w.qkv);
    assert(heads * d > 0) by (nonlinear_arith)
        requires
            heads > 0,
            d > 0,
    ;
    assert((heads >= kv_heads) == (heads * d >= kv_heads * d)) by (nonlinear_arith)
        requires
            d > 0,
    ;
    let n = rms_norm_value(
        x,
        filled(x.len(), 0),
        on(st, w.input_norm_scale),
        rows,
        width,
        Real::Single(eps),
    );
    lemma_parts(
        n,
        rows,
        shape.hidden(),
        on(st, w.qkv.weight),
        bias_on(st, w.qkv),
        shape.qd(),
        shape.kv_d(),
    );
    let p = product(
        n,
        rows,
        shape.hidden(),
        on(st, w.qkv.weight),
        (shape.qd() + 2 * shape.kv_d()) as i64,
    );
    let all = shape.qd() + 2 * shape.kv_d();
    let bias = bias_on(st, w.qkv);
    let q = part_words(p, rows, all, bias, 0, shape.qd() as int);
    let k = part_words(p, rows, all, bias, shape.qd() as int, shape.kv_d() as int);
    let v = part_words(p, rows, all, bias, shape.qd() + shape.kv_d(), shape.kv_d() as int);
    lemma_self_attention(
        rope_rows_value(q, rows, heads, d, theta, offset, max_pos),
        rope_rows_value(k, rows, kv_heads, d, theta, offset, max_pos),
        v,
        rows,
        heads,
        kv_heads,
        d,
    );
}

/// The hidden state after a language layer. The residual is the projected attention plus
/// the layer's input; the result is the gated block on the normalized residual, plus the
/// residual.
pub proof fn lemma_language_hidden(
    st: DeviceState,
    config: GemmaVariantConfig,
    w: Bf16DeviceLanguageLayer,
    x: Seq<SymByte>,
    tokens: usize,
    width: i64,
    inter: i64,
    offset: usize,
    eps: u32,
    theta: u32,
    max_pos: usize,
)
    requires
        tokens <= i64::MAX - 16,
        0 < width,
        0 < inter,
        inter * 2 <= i64::MAX,
        width * 2 <= i64::MAX,
        0 <= config.num_heads * config.head_dim <= i64::MAX,
        config.num_heads <= i64::MAX,
        config.head_dim <= i64::MAX,
        bias_there(w.output),
        bias_there(w.down),
        on(st, w.output.weight).len() == config.num_heads * config.head_dim * width * 2,
        on(st, w.gate_up.weight).len() == width * (inter * 2) * 2,
        on(st, w.gate_up.weight).len() == w.gate_up.weight@.on_device().len,
        on(st, w.down.weight).len() == inter * width * 2,
    ensures
        ({
            let shape = attention_shape(config, tokens, offset, theta);
            let layer = language_buffers(w, true);
            let rows = tokens as i64;
            let qd = (config.num_heads * config.head_dim) as i64;
            let size = tokens * width;
            let attn = layer.attention(st, x, shape, width, eps, max_pos);
            let projected = affine(
                attn,
                rows,
                qd,
                on(st, w.output.weight),
                bias_on(st, w.output),
                width,
            );
            let residual = words(size, |e: int| plus_word(word(projected, e), word(x, e)));
            let normed = rms_norm_value(
                residual,
                filled((2 * size) as nat, 0),
                on(st, w.post_attention_norm_scale),
                rows,
                width,
                Real::Single(eps),
            );
            let block = geglu_value(
                normed,
                rows,
                width,
                on(st, w.gate_up.weight),
                inter,
                on(st, w.down.weight),
                bias_on(st, w.down),
            );
            let out = layer.hidden(st, x, shape, width, eps, max_pos);
            &&& out.len() == 2 * size
            &&& forall|e: int|
                0 <= e < size ==> #[trigger] word(out, e) == plus_word(
                    word(block, e),
                    plus_word(word(projected, e), word(x, e)),
                )
        }),
{
    let shape = attention_shape(config, tokens, offset, theta);
    let layer = language_buffers(w, true);
    let rows = tokens as i64;
    let qd = (config.num_heads * config.head_dim) as i64;
    let size = tokens * width;
    let attn = layer.attention(st, x, shape, width, eps, max_pos);
    lemma_bias(st, w.output);
    lemma_bias(st, w.down);
    lemma_affine(attn, rows, qd, on(st, w.output.weight), bias_on(st, w.output), width);
    let projected = affine(attn, rows, qd, on(st, w.output.weight), bias_on(st, w.output), width);
    lemma_sum_words(projected, x, rows, width);
    let residual = sum_words(projected, x, size);
    assert(residual =~= words(size, |e: int| plus_word(word(projected, e), word(x, e))));
    lemma_gate_width(w.gate_up.weight, width, inter);
    let normed = rms_norm_value(
        residual,
        filled((2 * size) as nat, 0),
        on(st, w.post_attention_norm_scale),
        rows,
        width,
        Real::Single(eps),
    );
    let block = geglu_value(
        normed,
        rows,
        width,
        on(st, w.gate_up.weight),
        inter,
        on(st, w.down.weight),
        bias_on(st, w.down),
    );
    lemma_sum_words(block, residual, rows, width);
    lemma_words_at(size, |e: int| plus_word(word(projected, e), word(x, e)));
    lemma_words_at(size, |e: int| plus_word(word(block, e), word(residual, e)));
    let out = layer.hidden(st, x, shape, width, eps, max_pos);
    assert(out == sum_words(block, residual, size));
    assert forall|e: int| 0 <= e < size implies #[trigger] word(out, e) == plus_word(
        word(block, e),
        plus_word(word(projected, e), word(x, e)),
    ) by {
        assert(word(residual, e) == plus_word(word(projected, e), word(x, e)));
    }
}

/// The width of a gated block is what its fused weight has room for.
proof fn lemma_gate_width(t: Tensor, width: i64, inter: i64)
    requires
        0 < width,
        0 < inter,
        width * 2 <= i64::MAX,
        t@.on_device().len == width * (inter * 2) * 2,
    ensures
        gated_width(t@.on_device(), width) == inter,
{
    let words = (t@.on_device().len / 2) as int;
    assert(words == inter * (width * 2)) by (nonlinear_arith)
        requires
            words * 2 == width * (inter * 2) * 2,
    ;
    vstd::arithmetic::div_mod::lemma_fundamental_div_mod_converse(words, width * 2, inter as int, 0);
}

/// A vision layer. The rows are normalized with the first norm; queries, keys and values
/// are the columns of their product with the fused weight, and attend within their view; the
/// first residual is the projected attention plus the layer's input; the result is the
/// feed-forward block on the normalized residual, plus the residual.
pub proof fn lemma_vision_layer(
    st: DeviceState,
    w: Bf16DeviceVisionBlock,
    x: Seq<SymByte>,
    dims: Seq<usize>,
    per_view: usize,
    heads: usize,
    head_dim: usize,
    inter: i64,
    eps: u32,
)
    requires
        dims.len() >= 2,
        dims[0] <= i64::MAX - 16,
        0 < dims[1] <= i64::MAX,
        0 < per_view <= i64::MAX,
        0 < heads <= i64::MAX,
        0 < head_dim <= i64::MAX,
        heads * head_dim * 3 <= i64::MAX,
        0 < inter,
        bias_there(w.qkv),
        bias_there(w.output),
        bias_there(w.fc1),
        bias_there(w.fc2),
        x.len() == 2 * (dims[0] * dims[1]),
        on(st, w.qkv.weight).len() == dims[1] * (heads * head_dim * 3) * 2,
        bias_on(st, w.qkv) matches Some(b) ==> heads * head_dim * 3 * 2 <= b.len(),
        on(st, w.output.weight).len() == heads * head_dim * dims[1] * 2,
        on(st, w.fc1.weight).len() == dims[1] * inter * 2,
        on(st, w.fc1.weight).len() == w.fc1.weight@.on_device().len,
        on(st, w.fc2.weight).len() == inter * dims[1] * 2,
    ensures
        ({
            let shape = vision_shape(dims, per_view, heads, head_dim, eps);
            let rows = dims[0] as i64;
            let width = dims[1] as i64;
            let size = rows * width;
            let d = head_dim as i64;
            let qd = heads * head_dim;
            let zeros = filled((2 * size) as nat, 0);
            let n1 = layer_norm_value(
                x,
                zeros,
                on(st, w.norm1.weight),
                on(st, w.norm1.bias),
                rows,
                width,
                Real::Single(eps),
            );
            let p = product(n1, rows, width, on(st, w.qkv.weight), (3 * qd) as i64);
            let bias = bias_on(st, w.qkv);
            let attn = batch_attention_value(
                part_words(p, rows, 3 * qd, bias, 0, qd),
                part_words(p, rows, 3 * qd, bias, qd, qd),
                part_words(p, rows, 3 * qd, bias, 2 * qd, qd),
                (dims[0] as int / per_view as int) as i64,
                per_view as i64,
                heads as i64,
                heads as i64,
                d,
                None,
            );
            let projected = affine(
                attn,
                rows,
                qd as i64,
                on(st, w.output.weight),
                bias_on(st, w.output),
                width,
            );
            let residual = words(size, |e: int| plus_word(word(projected, e), word(x, e)));
            let n2 = layer_norm_value(
                residual,
                zeros,
                on(st, w.norm2.weight),
                on(st, w.norm2.bias),
                rows,
                width,
                Real::Single(eps),
            );
            let up = affine(n2, rows, width, on(st, w.fc1.weight), bias_on(st, w.fc1), inter);
            let act = words(rows * inter, |e: int| exact_gelu_word(word(up, e)));
            let block = affine(act, rows, inter, on(st, w.fc2.weight), bias_on(st, w.fc2), width);
            let out = vision_buffers(w).value(st, x, shape);
            &&& out.len() == 2 * size
            &&& forall|e: int|
                0 <= e < size ==> #[trigger] word(out, e) == plus_word(
                    word(block, e),
                    plus_word(word(projected, e), word(x, e)),
                )
        }),
{
    let shape = vision_shape(dims, per_view, heads, head_dim, eps);
    let rows = dims[0] as i64;
    let width = dims[1] as i64;
    let size = rows * width;
    let d = head_dim as i64;
    let qd = (heads * head_dim) as i64;
    let layer = vision_buffers(w);
    assert(heads * head_dim > 0 && heads * head_dim * 3 == 3 * (heads * head_dim)) by (nonlinear_arith)
        requires
            0 < heads,
            0 < head_dim,
    ;
    assert(shape.qd() == qd);
    let zeros = filled((2 * size) as nat, 0);
    lemma_bias(st, w.qkv);
    lemma_bias(st, w.output);
    lemma_bias(st, w.fc1);
    lemma_bias(st, w.fc2);
    let n1 = layer_norm_value(
        x,
        zeros,
        on(st, w.norm1.weight),
        on(st, w.norm1.bias),
        rows,
        width,
        Real::Single(eps),
    );
    lemma_parts(n1, rows, width, on(st, w.qkv.weight), bias_on(st, w.qkv), qd, qd);
    let p = product(n1, rows, width, on(st, w.qkv.weight), (3 * qd) as i64);
    let bias = bias_on(st, w.qkv);
    let q = part_words(p, rows, 3 * qd, bias, 0, qd as int);
    let k = part_words(p, rows, 3 * qd, bias, qd as int, qd as int);
    let v = part_words(p, rows, 3 * qd, bias, 2 * qd, qd as int);
    let attn = batch_attention_value(
        q,
        k,
        v,
        (dims[0] as int / per_view as int) as i64,
        per_view as i64,
        heads as i64,
        heads as i64,
        d,
        None,
    );
    assert(layer.attention(st, x, shape) == attn);
    lemma_affine(attn, rows, qd, on(st, w.output.weight), bias_on(st, w.output), width);
    let projected = affine(attn, rows, qd, on(st, w.output.weight), bias_on(st, w.output), width);
    lemma_sum_words(projected, x, rows, width);
    let residual = sum_words(projected, x, size);
    assert(residual =~= words(size, |e: int| plus_word(word(projected, e), word(x, e))));
    let n2 = layer_norm_value(
        residual,
        zeros,
        on(st, w.norm2.weight),
        on(st, w.norm2.bias),
        rows,
        width,
        Real::Single(eps),
    );
    lemma_columns(w.fc1.weight, width, inter);
    lemma_affine(n2, rows, width, on(st, w.fc1.weight), bias_on(st, w.fc1), inter);
    let up = affine(n2, rows, width, on(st, w.fc1.weight), bias_on(st, w.fc1), inter);
    let act = gelu_value(up, seq![rows, inter], false);
    let f = |e: int| exact_gelu_word(word(up, e));
    assert(0 <= rows * inter) by (nonlinear_arith)
        requires
            0 <= rows,
            0 < inter,
    ;
    assert(act.len() == 2 * (rows * inter)) by {
        reveal(crate::ops::result);
        crate::tensor::lemma_two_dims(rows, inter);
    }
    assert forall|e: int| 0 <= e < rows * inter implies #[trigger] word(act, e) == f(e) by {
        lemma_activation_word(up, rows, inter, e);
    }
    lemma_words(act, rows * inter, f);
    assert(act =~= words(rows * inter, |e: int| exact_gelu_word(word(up, e))));
    lemma_affine(act, rows, inter, on(st, w.fc2.weight), bias_on(st, w.fc2), width);
    let block = affine(act, rows, inter, on(st, w.fc2.weight), bias_on(st, w.fc2), width);
    lemma_sum_words(block, residual, rows, width);
    lemma_words_at(size, |e: int| plus_word(word(projected, e), word(x, e)));
    lemma_words_at(size, |e: int| plus_word(word(block, e), word(residual, e)));
    let out = layer.value(st, x, shape);
    assert(out == sum_words(block, residual, size));
    assert forall|e: int| 0 <= e < size implies #[trigger] word(out, e) == plus_word(
        word(block, e),
        plus_word(word(projected, e), word(x, e)),
    ) by {
        assert(word(residual, e) == plus_word(word(projected, e), word(x, e)));
    }
}

/// The columns of a weight are what it has room for.
proof fn lemma_columns(t: Tensor, width: i64, cols: i64)
    requires
        0 < width,
        0 <= cols,
        t@.on_device().len == width * cols * 2,
    ensures
        columns(t@.on_device(), width) == cols,
{
    let words = (t@.on_device().len / 2) as int;
    assert(words == cols * width) by (nonlinear_arith)
        requires
            words * 2 == width * cols * 2,
    ;
    vstd::arithmetic::div_mod::lemma_fundamental_div_mod_converse(
        words,
        width as int,
        cols as int,
        0,
    );
}

/// The patch embedding: element `(r, c)` is element `(r, c)` of the projected patches plus
/// element `(r % per_view, c)` of the position table.
pub proof fn lemma_patch_embedding(
    st: DeviceState,
    w: Bf16LinearWeights,
    positions: Tensor,
    patches: Seq<SymByte>,
    dims: Seq<usize>,
    per_view: usize,
    r: int,
    c: int,
)
    requires
        dims.len() >= 2,
        dims[0] <= i64::MAX - 16,
        dims[1] <= i64::MAX,
        w.weight@.dims.len() >= 2,
        w.weight@.dims[1] <= i64::MAX,
        0 < per_view <= i32::MAX,
        bias_there(w),
        on(st, w.weight).len() == dims[1] * w.weight@.dims[1] * 2,
        0 <= r < dims[0],
        0 <= c < w.weight@.dims[1],
    ensures
        ({
            let cols = w.weight@.dims[1] as i64;
            let projected = affine(
                patches,
                dims[0] as i64,
                dims[1] as i64,
                on(st, w.weight),
                bias_on(st, w),
                cols,
            );
            let out = patch_buffers(w, positions).value(
                st,
                patches,
                patch_shape(dims, w.weight@.dims, per_view),
            );
            &&& out.len() == 2 * (dims[0] * cols)
            &&& word(out, r * cols + c) == plus_word(
                word(projected, r * cols + c),
                word(on(st, positions), r % (per_view as int) * cols + c),
            )
        }),
{
    let rows = dims[0] as i64;
    let cols = w.weight@.dims[1] as i64;
    let e = r * cols + c;
    let table = on(st, positions);
    lemma_bias(st, w);
    lemma_affine(patches, rows, dims[1] as i64, on(st, w.weight), bias_on(st, w), cols);
    let projected = affine(
        patches,
        rows,
        dims[1] as i64,
        on(st, w.weight),
        bias_on(st, w),
        cols,
    );
    crate::ops::laws::lemma_line(r, cols as int, c, rows as int);
    lemma_repeated_table(table, per_view as i64, cols, rows, r, 2 * c);
    lemma_repeated_table(table, per_view as i64, cols, rows, r, 2 * c + 1);
    let s = r % (per_view as int);
    assert(r * (cols * 2) + 2 * c == 2 * e && r * (cols * 2) + (2 * c + 1) == 2 * e + 1 && s * (cols
        * 2) + 2 * c == 2 * (s * cols + c) && s * (cols * 2) + (2 * c + 1) == 2 * (s * cols + c)
        + 1) by (nonlinear_arith)
        requires
            e == r * cols + c,
    ;
    let index = crate::semantics::literal(
        crate::encode::index_bytes(rows as nat, cycle(per_view as int)),
    );
    let repeated = crate::ops::rows::gather_value(table, per_view as i64, cols, index, rows);
    lemma_sum_word(projected, repeated, rows, cols, e);
}

/// Where an action layer starts: from the rows that the layer before has normalized, or
/// from its own norm with the attention style.
pub proof fn lemma_action_start(
    st: DeviceState,
    t: ActionTensors,
    x: Seq<SymByte>,
    tokens: i64,
    width: i64,
    eps: u32,
)
    requires
        0 <= tokens,
        0 <= width,
        t.attention_normalized matches Some(n) ==> tokens * width * 2 <= on(st, *n).len(),
    ensures
        t.operands().normalized(st, x, tokens, width, eps) == (match t.attention_normalized {
            Some(n) => on(st, *n).take(tokens * width * 2),
            None => adaptive_value(x, on(st, *t.attention_style), tokens, width, eps),
        }),
{
    match t.attention_normalized {
        Some(n) => {
            let a = on(st, *n);
            assert(0 * width * 2 == 0 && (0 + tokens) * width * 2 == tokens * width * 2)
                by (nonlinear_arith);
            assert(a.subrange(0, tokens * width * 2) =~= a.take(tokens * width * 2));
        },
        None => {},
    }
}

/// What an action layer works on is what the tensors of the same names hold; the prefix has
/// as many rows as its keys have room for.
pub proof fn lemma_action_operands(st: DeviceState, t: ActionTensors, prefix: i64, kv_d: i64)
    requires
        0 < kv_d,
        0 <= prefix,
        t.prefix_k@.on_device().len == prefix * kv_d * 2,
    ensures
        t.operands().values(st, kv_d) == (ActionValues {
            mlp_style: on(st, *t.mlp_style),
            next_style: on(st, *t.next_norm_style),
            prefix_k: on(st, *t.prefix_k),
            prefix_v: on(st, *t.prefix_v),
            prefix_tokens: prefix,
        }),
{
    lemma_rows_of_weight(t.prefix_k@.on_device().len, prefix, kv_d);
}

/// The attention of an action layer from its normalized rows `n`. The keys are the rows of
/// the prefix keys and then the rotated keys of this chunk; the values are the rows of the
/// prefix values and then the values of this chunk.
pub proof fn lemma_action_attention(
    st: DeviceState,
    config: GemmaVariantConfig,
    w: Bf16DeviceActionLayer,
    vals: ActionValues,
    n: Seq<SymByte>,
    tokens: usize,
    in_w: i64,
    offset: usize,
    theta: u32,
    max_pos: usize,
)
    requires
        config.num_heads <= i64::MAX,
        config.num_kv_heads <= i64::MAX,
        tokens <= i64::MAX,
        attention_shape(config, tokens, offset, theta).fits(),
        positions_covered(config, tokens, offset, max_pos),
        bias_there(w.qkv),
        0 <= in_w,
        0 <= vals.prefix_tokens,
        vals.prefix_tokens + tokens <= i64::MAX,
        ({
            let qd = config.num_heads * config.head_dim;
            let kv_d = config.num_kv_heads * config.head_dim;
            &&& on(st, w.qkv.weight).len() == in_w * (qd + 2 * kv_d) * 2
            &&& on(st, w.qkv.weight).len() == w.qkv.weight@.on_device().len
            &&& bias_on(st, w.qkv) matches Some(b) ==> (qd + 2 * kv_d) * 2 <= b.len()
            &&& vals.prefix_k.len() == vals.prefix_tokens * kv_d * 2
            &&& vals.prefix_v.len() == vals.prefix_tokens * kv_d * 2
        }),
    ensures
        ({
            let shape = attention_shape(config, tokens, offset, theta);
            let rows = tokens as i64;
            let d = config.head_dim as i64;
            let heads = config.num_heads as i64;
            let kv_heads = config.num_kv_heads as i64;
            let qd = heads * d;
            let kv_d = kv_heads * d;
            let all = qd + 2 * kv_d;
            let p = product(n, rows, in_w, on(st, w.qkv.weight), all as i64);
            let bias = bias_on(st, w.qkv);
            let q = part_words(p, rows, all, bias, 0, qd);
            let k = part_words(p, rows, all, bias, qd, kv_d);
            let v = part_words(p, rows, all, bias, qd + kv_d, kv_d);
            action_buffers(w).attention(st, n, vals, shape, max_pos) == cross_attention_value(
                rope_rows_value(q, rows, heads, d, theta, offset, max_pos),
                vals.prefix_k + rope_rows_value(
                    k,
                    rows,
                    kv_heads,
                    d,
                    theta,
                    offset,
                    max_pos,
                ),
                vals.prefix_v + v,
                rows,
                (vals.prefix_tokens + tokens) as i64,
                heads,
                kv_heads,
                d,
                None,
            )
        }),
{
    let shape = attention_shape(config, tokens, offset, theta);
    let rows = tokens as i64;
    let d = config.head_dim as i64;
    let heads = config.num_heads as i64;
    let kv_heads = config.num_kv_heads as i64;
    lemma_attention_sizes(shape);
    lemma_bias(st, w.qkv);
    let qd = shape.qd();
    let kv_d = shape.kv_d();
    assert(heads * d > 0 && kv_heads * d > 0) by (nonlinear_arith)
        requires
            heads > 0,
            kv_heads > 0,
            d > 0,
    ;
    let all = (qd + 2 * kv_d) as i64;
    let weight = on(st, w.qkv.weight);
    let bias = bias_on(st, w.qkv);
    lemma_rows_of_weight(w.qkv.weight@.on_device().len, in_w, all);
    lemma_parts(n, rows, in_w, weight, bias, qd, kv_d);
    let p = product(n, rows, in_w, weight, all);
    let q = part_words(p, rows, all as int, bias, 0, qd as int);
    let k = part_words(p, rows, all as int, bias, qd as int, kv_d as int);
    let v = part_words(p, rows, all as int, bias, qd + kv_d, kv_d as int);
    let rk = rope_rows_value(k, rows, kv_heads, d, theta, offset, max_pos);
    assert(0 <= rows * kv_d && rows * kv_heads * d == rows * kv_d && rows * kv_d * 2 == 2 * (rows
        * kv_d)) by (nonlinear_arith)
        requires
            0 <= rows,
            0 < kv_d,
            kv_d == kv_heads * d,
    ;
    lemma_rotated_words(k, rows, kv_heads, d, theta, offset, max_pos);
    assert(rk.len() == 2 * (rows * kv_d));
    assert(v.len() == 2 * (rows * kv_d));
    lemma_cat2(vals.prefix_k, vals.prefix_tokens, rk, rows, kv_d);
    lemma_cat2(vals.prefix_v, vals.prefix_tokens, v, rows, kv_d);
}

/// The rows of a matrix of half-precision words are what it has room for.
proof fn lemma_rows_of_weight(len: usize, rows: i64, cols: i64)
    requires
        0 < cols,
        0 <= rows,
        len == rows * cols * 2,
    ensures
        (len / 2) as int / cols as int == rows,
{
    let words = (len / 2) as int;
    assert(words == rows * cols);
    vstd::arithmetic::div_mod::lemma_fundamental_div_mod_converse(words, cols as int, rows as int, 0);
}

/// The hidden state after an action layer from its normalized rows `n`. The residual is the
/// projected attention plus the normalized rows; the hidden state is the gated block on the
/// residual, normalized with the style of the block, plus the residual. What goes to the
/// next layer is the hidden state, normalized with the next style.
pub proof fn lemma_action_hidden(
    st: DeviceState,
    config: GemmaVariantConfig,
    w: Bf16DeviceActionLayer,
    vals: ActionValues,
    n: Seq<SymByte>,
    tokens: usize,
    width: i64,
    inter: i64,
    offset: usize,
    eps: u32,
    theta: u32,
    max_pos: usize,
)
    requires
        tokens <= i64::MAX - 16,
        0 < width,
        0 < inter,
        inter * 2 <= i64::MAX,
        width * 2 <= i64::MAX,
        0 <= config.num_heads * config.head_dim <= i64::MAX,
        config.num_heads <= i64::MAX,
        config.head_dim <= i64::MAX,
        bias_there(w.output),
        bias_there(w.down),
        on(st, w.output.weight).len() == config.num_heads * config.head_dim * width * 2,
        on(st, w.gate_up.weight).len() == width * (inter * 2) * 2,
        on(st, w.gate_up.weight).len() == w.gate_up.weight@.on_device().len,
        on(st, w.down.weight).len() == inter * width * 2,
    ensures
        ({
            let shape = attention_shape(config, tokens, offset, theta);
            let layer = action_buffers(w);
            let rows = tokens as i64;
            let qd = (config.num_heads * config.head_dim) as i64;
            let size = tokens * width;
            let attn = layer.attention(st, n, vals, shape, max_pos);
            let projected = affine(
                attn,
                rows,
                qd,
                on(st, w.output.weight),
                bias_on(st, w.output),
                width,
            );
            let residual = words(size, |e: int| plus_word(word(projected, e), word(n, e)));
            let block = geglu_value(
                adaptive_value(residual, vals.mlp_style, rows, width, eps),
                rows,
                width,
                on(st, w.gate_up.weight),
                inter,
                on(st, w.down.weight),
                bias_on(st, w.down),
            );
            let out = layer.hidden(st, n, vals, shape, width, eps, max_pos);
            &&& out.len() == 2 * size
            &&& forall|e: int|
                0 <= e < size ==> #[trigger] word(out, e) == plus_word(
                    word(block, e),
                    plus_word(word(projected, e), word(n, e)),
                )
            &&& layer.next(st, n, vals, shape, width, eps, max_pos) == adaptive_value(
                out,
                vals.next_style,
                rows,
                width,
                eps,
            )
        }),
{
    let shape = attention_shape(config, tokens, offset, theta);
    let layer = action_buffers(w);
    let rows = tokens as i64;
    let qd = (config.num_heads * config.head_dim) as i64;
    let size = tokens * width;
    let attn = layer.attention(st, n, vals, shape, max_pos);
    lemma_bias(st, w.output);
    lemma_bias(st, w.down);
    lemma_affine(attn, rows, qd, on(st, w.output.weight), bias_on(st, w.output), width);
    let projected = affine(attn, rows, qd, on(st, w.output.weight), bias_on(st, w.output), width);
    lemma_sum_words(projected, n, rows, width);
    let residual = sum_words(projected, n, size);
    assert(residual =~= words(size, |e: int| plus_word(word(projected, e), word(n, e))));
    lemma_gate_width(w.gate_up.weight, width, inter);
    let block = geglu_value(
        adaptive_value(residual, vals.mlp_style, rows, width, eps),
        rows,
        width,
        on(st, w.gate_up.weight),
        inter,
        on(st, w.down.weight),
        bias_on(st, w.down),
    );
    lemma_sum_words(block, residual, rows, width);
    lemma_words_at(size, |e: int| plus_word(word(projected, e), word(n, e)));
    lemma_words_at(size, |e: int| plus_word(word(block, e), word(residual, e)));
    let out = layer.hidden(st, n, vals, shape, width, eps, max_pos);
    assert(out == sum_words(block, residual, size));
    assert forall|e: int| 0 <= e < size implies #[trigger] word(out, e) == plus_word(
        word(block, e),
        plus_word(word(projected, e), word(n, e)),
    ) by {
        assert(word(residual, e) == plus_word(word(projected, e), word(n, e)));
    }
}

} // verus!
