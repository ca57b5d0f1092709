//! What the model computes, said of the fields of its weights and of single elements: which
//! weight makes which style, what a step adds to the state, which layer works on what.

use vstd::prelude::*;

use crate::device::{DeviceBuffer, Real};
use crate::executor::action::{action_buffers, adaptive_value, ActionValues};
use crate::executor::blocks::geglu_value;
use crate::executor::frame::{lemma_owns, owns};
use crate::executor::language::{attention_shape, language_buffers};
use crate::executor::layers::{bias_on, bias_there, lemma_action_hidden, on};
use crate::executor::linear::optional_value;
use crate::executor::vision::{patch_buffers, patch_shape, vision_buffers, vision_shape};
use crate::executor::words::{affine, lemma_affine, lemma_euler_word};
use crate::model::{
    optional_buffer, Bf16LinearWeights, Pi05Config, StaticBf16Pi05Weights, TensorInfo,
};
use crate::ops::elementwise::silu_value;
use crate::ops::laws::word;
use crate::ops::norm::layer_norm_value;
use crate::ops::words::{
    lemma_activation_word, lemma_words, plus_word, scaled_word, silu_word, words,
};
use crate::runtime::denoise::{
    flow, style_values, ActionWeights, PrefixValues, StepShape, StyleValues,
};
use crate::runtime::flow::{
    action_weights, flow_styles, prefix_buffers, step_shape, step_styles, style_count_error,
};
use crate::runtime::infer::inference;
use crate::runtime::methods::prefix_model;
use crate::runtime::pi05::{
    buffers_of, token_count_error, AscendPrefixKvCache, AscendStepStyles,
};
use crate::runtime::prefix::{
    kv_items, language_hidden, language_layer_buffers, prefix_keys, prefix_value, prefix_values,
};
use crate::runtime::prepare::{lemma_made_step, made_styles, time_of};
use crate::runtime::styles::{activated_value, linear_layer, sized, style_items, style_weights};
use crate::runtime::vision::{vision_stack, vision_tower};
use crate::semantics::{delivers, filled, lemma_delivers, DeviceState, SymByte};

verus! {

/// The weight of a linear layer is an `[in_w, dims[1]]` matrix on the device.
pub open spec fn is_linear(st: DeviceState, l: Bf16LinearWeights, in_w: int) -> bool {
    &&& l.weight@.dims.len() >= 2
    &&& 0 < l.weight@.dims[1] <= i64::MAX
    &&& 0 <= in_w <= i64::MAX
    &&& on(st, l.weight).len() == in_w * l.weight@.dims[1] * 2
    &&& bias_there(l)
}

/// What a linear layer of the model makes of rows: their product with the layer's weight,
/// plus the layer's bias.
pub open spec fn through(
    st: DeviceState,
    x: Seq<SymByte>,
    rows: i64,
    in_w: int,
    l: Bf16LinearWeights,
) -> Seq<SymByte> {
    affine(x, rows, in_w as i64, on(st, l.weight), bias_on(st, l), l.weight@.dims[1] as i64)
}

/// A linear layer reads the fields of its weights.
proof fn lemma_through(
    st: DeviceState,
    x: Seq<SymByte>,
    rows: i64,
    in_w: int,
    l: Bf16LinearWeights,
)
    requires
        0 <= rows <= i64::MAX - 16,
        is_linear(st, l, in_w),
    ensures
        linear_layer(l).value(st, x, rows, in_w as i64) == through(st, x, rows, in_w, l),
        through(st, x, rows, in_w, l).len() == 2 * (rows * l.weight@.dims[1]),
{
    assert(optional_value(st, optional_buffer(l.bias)) == bias_on(st, l));
    lemma_affine(
        x,
        rows,
        in_w as i64,
        on(st, l.weight),
        bias_on(st, l),
        l.weight@.dims[1] as i64,
    );
}

/// A linear layer and silu, element by element.
proof fn lemma_activated(
    st: DeviceState,
    x: Seq<SymByte>,
    rows: i64,
    in_w: int,
    l: Bf16LinearWeights,
)
    requires
        0 <= rows <= i64::MAX - 16,
        is_linear(st, l, in_w),
    ensures
        activated_value(st, x, rows, in_w as i64, linear_layer(l)) == words(
            rows * l.weight@.dims[1],
            |e: int| silu_word(word(through(st, x, rows, in_w, l), e)),
        ),
{
    let cols = l.weight@.dims[1] as i64;
    let y = through(st, x, rows, in_w, l);
    lemma_through(st, x, rows, in_w, l);
    let z = silu_value(y, seq![rows, cols]);
    let f = |e: int| silu_word(word(y, e));
    assert(0 <= rows * cols) by (nonlinear_arith)
        requires
            0 <= rows,
            0 < cols,
    ;
    assert(z.len() == 2 * (rows * cols)) by {
        reveal(crate::ops::result);
        crate::tensor::lemma_two_dims(rows, cols);
    }
    assert forall|e: int| 0 <= e < rows * cols implies #[trigger] word(z, e) == f(e) by {
        lemma_activation_word(y, rows, cols, e);
    }
    lemma_words(z, rows * cols, f);
}

/// The weights that styles are computed with have their sizes.
pub open spec fn style_sizes(st: DeviceState, w: StaticBf16Pi05Weights, width: int) -> bool {
    &&& is_linear(st, w.time_mlp_in, width)
    &&& is_linear(st, w.time_mlp_out, width)
    &&& is_linear(st, w.action_final_style, w.time_mlp_out.weight@.dims[1] as int)
    &&& forall|i: int|
        0 <= i < w.action_layers@.len() ==> is_linear(
            st,
            (#[trigger] w.action_layers@[i]).input_style,
            w.time_mlp_out.weight@.dims[1] as int,
        ) && is_linear(
            st,
            w.action_layers@[i].post_attention_style,
            w.time_mlp_out.weight@.dims[1] as int,
        )
}

/// The styles of a time embedding. The embedding goes through the two time layers, each
/// followed by silu; attention style `i` is what the input style layer of action layer `i`
/// makes of that, block style `i` what its post-attention style layer makes of it, and the
/// last style what the final style layer makes of it.
pub proof fn lemma_styles(st: DeviceState, w: StaticBf16Pi05Weights, time: TensorInfo)
    requires
        time.dims.len() >= 2,
        time.dims[0] <= i64::MAX - 16,
        time.dims[1] <= i64::MAX,
        style_sizes(st, w, time.dims[1] as int),
    ensures
        ({
            let rows = time.dims[0] as i64;
            let width = time.dims[1] as int;
            let embedding = st.value(time.on_device());
            let inner = words(
                rows * w.time_mlp_in.weight@.dims[1],
                |e: int| silu_word(word(through(st, embedding, rows, width, w.time_mlp_in), e)),
            );
            let cond = words(
                rows * w.time_mlp_out.weight@.dims[1],
                |e: int| silu_word(word(through(st, inner, rows, width, w.time_mlp_out), e)),
            );
            let cols = w.time_mlp_out.weight@.dims[1] as int;
            let made = made_styles(style_weights(w), st, time_of(time));
            &&& made.attention.len() == w.action_layers@.len()
            &&& made.mlp.len() == w.action_layers@.len()
            &&& forall|i: int|
                0 <= i < w.action_layers@.len() ==> #[trigger] made.attention[i] == through(
                    st,
                    cond,
                    rows,
                    cols,
                    w.action_layers@[i].input_style,
                )
            &&& forall|i: int|
                0 <= i < w.action_layers@.len() ==> #[trigger] made.mlp[i] == through(
                    st,
                    cond,
                    rows,
                    cols,
                    w.action_layers@[i].post_attention_style,
                )
            &&& made.last == through(st, cond, rows, cols, w.action_final_style)
        }),
{
    let rows = time.dims[0] as i64;
    let width = time.dims[1] as int;
    let embedding = st.value(time.on_device());
    let inner = words(
        rows * w.time_mlp_in.weight@.dims[1],
        |e: int| silu_word(word(through(st, embedding, rows, width, w.time_mlp_in), e)),
    );
    let cond = words(
        rows * w.time_mlp_out.weight@.dims[1],
        |e: int| silu_word(word(through(st, inner, rows, width, w.time_mlp_out), e)),
    );
    let cols = w.time_mlp_out.weight@.dims[1] as int;
    lemma_activated(st, embedding, rows, width, w.time_mlp_in);
    let first = activated_value(st, embedding, rows, width as i64, linear_layer(w.time_mlp_in));
    assert(first =~= inner);
    lemma_activated(st, inner, rows, width, w.time_mlp_out);
    let second = activated_value(st, inner, rows, width as i64, linear_layer(w.time_mlp_out));
    assert(second =~= cond);
    let plan = style_weights(w);
    assert(plan.conditioning(st, embedding, rows, width as i64) == cond);
    let made = made_styles(plan, st, time_of(time));
    assert forall|i: int| 0 <= i < w.action_layers@.len() implies #[trigger] made.attention[i]
        == through(st, cond, rows, cols, w.action_layers@[i].input_style) by {
        assert(is_linear(st, w.action_layers@[i].input_style, cols));
        lemma_through(st, cond, rows, cols, w.action_layers@[i].input_style);
    }
    assert forall|i: int| 0 <= i < w.action_layers@.len() implies #[trigger] made.mlp[i] == through(
        st,
        cond,
        rows,
        cols,
        w.action_layers@[i].post_attention_style,
    ) by {
        assert(is_linear(st, w.action_layers@[i].input_style, cols));
        lemma_through(st, cond, rows, cols, w.action_layers@[i].post_attention_style);
    }
    lemma_through(st, cond, rows, cols, w.action_final_style);
}

/// Styles that were prepared are on the device: the tensors of the result hold the styles
/// of the time embedding, each under its own name and in the order of the layers.
pub proof fn lemma_prepared_styles(
    before: DeviceState,
    after: DeviceState,
    w: StaticBf16Pi05Weights,
    time: TensorInfo,
    styles: AscendStepStyles,
)
    requires
        before.sane(),
        time.dims.len() >= 2,
        sized(style_weights(w), step_styles(styles), time.dims[0] as i64),
        owns(
            before,
            after,
            style_items(
                style_weights(w),
                step_styles(styles),
                before,
                before.value(time.on_device()),
                time.dims[0] as i64,
                time.dims[1] as i64,
            ),
        ),
    ensures
        ({
            let made = made_styles(style_weights(w), before, time_of(time));
            &&& styles.attention@.len() == w.action_layers@.len()
            &&& styles.mlp@.len() == w.action_layers@.len()
            &&& forall|i: int|
                0 <= i < w.action_layers@.len() ==> on(after, #[trigger] styles.attention@[i])
                    == made.attention[i]
            &&& forall|i: int|
                0 <= i < w.action_layers@.len() ==> on(after, #[trigger] styles.mlp@[i])
                    == made.mlp[i]
            &&& on(after, styles.final_norm) == made.last
        }),
{
    let plan = style_weights(w);
    let bufs = step_styles(styles);
    let t = time_of(time);
    let items = style_items(plan, bufs, before, before.value(t.buffer), t.rows, t.width);
    lemma_made_step(plan, bufs, before, after, t, items, 0);
    let made = made_styles(plan, before, t);
    assert forall|i: int| 0 <= i < w.action_layers@.len() implies on(
        after,
        #[trigger] styles.attention@[i],
    ) == made.attention[i] by {
        assert(bufs.values(after).attention[i] == after.value(bufs.attention[i]));
    }
    assert forall|i: int| 0 <= i < w.action_layers@.len() implies on(
        after,
        #[trigger] styles.mlp@[i],
    ) == made.mlp[i] by {
        assert(bufs.values(after).mlp[i] == after.value(bufs.mlp[i]));
    }
}

/// What a flow works on: step `k` sees what the style tensors of step `k` hold, and layer
/// `i` what the prefix tensors of index `i` hold.
pub proof fn lemma_flow_operands(
    st: DeviceState,
    styles: Seq<AscendStepStyles>,
    prefix: AscendPrefixKvCache,
    kv_d: i64,
    rows: i64,
    k: int,
    i: int,
)
    requires
        0 <= k < styles.len(),
        0 <= i < prefix.keys@.len(),
        prefix.keys@.len() == prefix.values@.len(),
        i < styles[k].attention@.len(),
        i < styles[k].mlp@.len(),
        0 < kv_d,
        0 <= rows,
        prefix.keys@[i]@.on_device().len == rows * kv_d * 2,
    ensures
        ({
            let seen = style_values(st, flow_styles(styles))[k];
            let kept = prefix_buffers(prefix).values(st, kv_d);
            &&& seen.attention[i] == on(st, styles[k].attention@[i])
            &&& seen.mlp[i] == on(st, styles[k].mlp@[i])
            &&& seen.last == on(st, styles[k].final_norm)
            &&& kept.keys[i] == on(st, prefix.keys@[i])
            &&& kept.values[i] == on(st, prefix.values@[i])
            &&& kept.rows[i] == rows
        }),
{
    let words = (prefix.keys@[i]@.on_device().len / 2) as int;
    assert(words == rows * kv_d);
    vstd::arithmetic::div_mod::lemma_fundamental_div_mod_converse(
        words,
        kv_d as int,
        rows as int,
        0,
    );
    assert(prefix_buffers(prefix).keys[i] == prefix.keys@[i]@.on_device());
    assert(prefix_buffers(prefix).values[i] == prefix.values@[i]@.on_device());
    assert(flow_styles(styles)[k] == step_styles(styles[k]));
}

/// Element `e` of the state after a flow step is element `e` of the state before it plus
/// `dt` times element `e` of what the output layer makes of the rows that the last layer
/// has normalized.
pub proof fn lemma_step(
    st: DeviceState,
    config: Pi05Config,
    w: StaticBf16Pi05Weights,
    state: Seq<SymByte>,
    styles: StyleValues,
    prefix: PrefixValues,
    rows: usize,
    state_width: usize,
    prefix_tokens: usize,
    max_pos: usize,
    dt: u32,
)
    requires
        rows <= i64::MAX - 16,
        w.action_in.weight@.dims.len() >= 2,
        w.action_in.weight@.dims[1] <= i64::MAX,
        is_linear(st, w.action_out, w.action_in.weight@.dims[1] as int),
    ensures
        ({
            let shape = step_shape(config, rows, state_width, prefix_tokens);
            let stack = action_weights(w);
            let last = stack.norms(
                st,
                state,
                styles,
                prefix,
                shape,
                max_pos,
                w.action_layers@.len(),
            );
            let velocity = through(
                st,
                last,
                rows as i64,
                w.action_in.weight@.dims[1] as int,
                w.action_out,
            );
            let size = rows * w.action_out.weight@.dims[1];
            let out = stack.step(st, state, styles, prefix, shape, max_pos, dt);
            &&& velocity.len() == 2 * size
            &&& forall|e: int|
                0 <= e < size ==> #[trigger] word(out, e) == plus_word(
                    word(state, e),
                    scaled_word(word(velocity, e), dt),
                )
        }),
{
    let shape = step_shape(config, rows, state_width, prefix_tokens);
    let stack = action_weights(w);
    let last = stack.norms(st, state, styles, prefix, shape, max_pos, w.action_layers@.len());
    let width = w.action_in.weight@.dims[1] as int;
    let cols = w.action_out.weight@.dims[1] as i64;
    lemma_through(st, last, rows as i64, width, w.action_out);
    let velocity = through(st, last, rows as i64, width, w.action_out);
    let out = stack.step(st, state, styles, prefix, shape, max_pos, dt);
    assert forall|e: int| 0 <= e < rows * cols implies #[trigger] word(out, e) == plus_word(
        word(state, e),
        scaled_word(word(velocity, e), dt),
    ) by {
        lemma_euler_word(state, velocity, dt, rows as i64, cols, e);
    }
}

/// What a flow step leaves in device memory: element by element the state it started from,
/// unscaled, plus `dt` times what the output layer makes of the rows that the last layer
/// has normalized.
pub proof fn lemma_step_delivered(
    before: DeviceState,
    after: DeviceState,
    out: DeviceBuffer,
    w: StaticBf16Pi05Weights,
    state: Seq<SymByte>,
    styles: StyleValues,
    prefix: PrefixValues,
    shape: StepShape,
    max_pos: usize,
    dt: u32,
)
    requires
        before.sane(),
        0 <= shape.attention.tokens,
        w.action_out.weight@.dims[1] <= i64::MAX,
        delivers(
            before,
            after,
            out,
            action_weights(w).step(before, state, styles, prefix, shape, max_pos, dt),
        ),
    ensures
        ({
            let last = action_weights(w).norms(
                before,
                state,
                styles,
                prefix,
                shape,
                max_pos,
                w.action_layers@.len(),
            );
            let velocity = linear_layer(w.action_out).value(
                before,
                last,
                shape.attention.tokens,
                w.action_in.weight@.dims[1] as i64,
            );
            forall|e: int|
                0 <= e < shape.attention.tokens * w.action_out.weight@.dims[1] ==> #[trigger] word(
                    after.value(out),
                    e,
                ) == plus_word(word(state, e), scaled_word(word(velocity, e), dt))
        }),
{
    lemma_delivers(
        before,
        after,
        out,
        action_weights(w).step(before, state, styles, prefix, shape, max_pos, dt),
    );
    let last = action_weights(w).norms(
        before,
        state,
        styles,
        prefix,
        shape,
        max_pos,
        w.action_layers@.len(),
    );
    let velocity = linear_layer(w.action_out).value(
        before,
        last,
        shape.attention.tokens,
        w.action_in.weight@.dims[1] as i64,
    );
    let cols = w.action_out.weight@.dims[1] as i64;
    assert forall|e: int| 0 <= e < shape.attention.tokens * cols implies #[trigger] word(
        after.value(out),
        e,
    ) == plus_word(word(state, e), scaled_word(word(velocity, e), dt)) by {
        lemma_euler_word(state, velocity, dt, shape.attention.tokens, cols, e);
    }
}

/// The rows that the first action layer starts from: the state through the input layer,
/// normalized with the first attention style.
pub proof fn lemma_first_norm(
    st: DeviceState,
    config: Pi05Config,
    w: StaticBf16Pi05Weights,
    state: Seq<SymByte>,
    styles: StyleValues,
    prefix: PrefixValues,
    rows: usize,
    state_width: usize,
    prefix_tokens: usize,
    max_pos: usize,
)
    requires
        rows <= i64::MAX - 16,
        is_linear(st, w.action_in, state_width as int),
    ensures
        action_weights(w).norms(
            st,
            state,
            styles,
            prefix,
            step_shape(config, rows, state_width, prefix_tokens),
            max_pos,
            0,
        ) == adaptive_value(
            through(st, state, rows as i64, state_width as int, w.action_in),
            styles.attention[0],
            rows as i64,
            w.action_in.weight@.dims[1] as i64,
            config.rms_norm_eps,
        ),
{
    lemma_through(st, state, rows as i64, state_width as int, w.action_in);
}

/// Action layer `i` of a step works on the rows that the layer before has normalized, with
/// the weights, the block style and the prefix keys and values of its own index, from the
/// position behind the prefix. Its residual is the projected attention plus those rows, its
/// hidden state the gated block plus the residual, and it is normalized with the attention
/// style of layer `i + 1`, or with the last style where there is no such layer.
pub proof fn lemma_next_norm(
    st: DeviceState,
    config: Pi05Config,
    w: StaticBf16Pi05Weights,
    state: Seq<SymByte>,
    styles: StyleValues,
    prefix: PrefixValues,
    rows: usize,
    state_width: usize,
    prefix_tokens: usize,
    max_pos: usize,
    i: int,
    inter: i64,
)
    requires
        0 <= i < w.action_layers@.len(),
        rows <= i64::MAX - 16,
        w.action_in.weight@.dims.len() >= 2,
        0 < w.action_in.weight@.dims[1],
        w.action_in.weight@.dims[1] * 2 <= i64::MAX,
        0 < inter,
        inter * 2 <= i64::MAX,
        config.action_expert.num_heads <= i64::MAX,
        config.action_expert.head_dim <= i64::MAX,
        config.action_expert.num_heads * config.action_expert.head_dim <= i64::MAX,
        ({
            let l = w.action_layers@[i];
            let width = w.action_in.weight@.dims[1];
            let qd = config.action_expert.num_heads * config.action_expert.head_dim;
            &&& bias_there(l.output)
            &&& bias_there(l.down)
            &&& on(st, l.output.weight).len() == qd * width * 2
            &&& on(st, l.gate_up.weight).len() == width * (inter * 2) * 2
            &&& on(st, l.gate_up.weight).len() == l.gate_up.weight@.on_device().len
            &&& on(st, l.down.weight).len() == inter * width * 2
        }),
    ensures
        ({
            let shape = step_shape(config, rows, state_width, prefix_tokens);
            let stack = action_weights(w);
            let n = stack.norms(st, state, styles, prefix, shape, max_pos, i as nat);
            let l = w.action_layers@[i];
            let width = w.action_in.weight@.dims[1] as i64;
            let eps = config.rms_norm_eps;
            let size = rows * width;
            let next = if i + 1 < w.action_layers@.len() {
                styles.attention[i + 1]
            } else {
                styles.last
            };
            let attn = action_buffers(l).attention(
                st,
                n,
                (ActionValues {
                    mlp_style: styles.mlp[i],
                    next_style: next,
                    prefix_k: prefix.keys[i],
                    prefix_v: prefix.values[i],
                    prefix_tokens: prefix.rows[i],
                }),
                attention_shape(config.action_expert, rows, prefix_tokens, config.rope_theta),
                max_pos,
            );
            let qd = (config.action_expert.num_heads * config.action_expert.head_dim) as i64;
            let projected = affine(
                attn,
                rows as i64,
                qd,
                on(st, l.output.weight),
                bias_on(st, l.output),
                width,
            );
            let residual = words(size, |e: int| plus_word(word(projected, e), word(n, e)));
            let block = geglu_value(
                adaptive_value(residual, styles.mlp[i], rows as i64, width, eps),
                rows as i64,
                width,
                on(st, l.gate_up.weight),
                inter,
                on(st, l.down.weight),
                bias_on(st, l.down),
            );
            let hidden = words(
                size,
                |e: int|
                    plus_word(word(block, e), plus_word(word(projected, e), word(n, e))),
            );
            stack.norms(st, state, styles, prefix, shape, max_pos, (i + 1) as nat)
                == adaptive_value(hidden, next, rows as i64, width, eps)
        }),
{
    let shape = step_shape(config, rows, state_width, prefix_tokens);
    let stack = action_weights(w);
    let n = stack.norms(st, state, styles, prefix, shape, max_pos, i as nat);
    let l = w.action_layers@[i];
    let width = w.action_in.weight@.dims[1] as i64;
    let eps = config.rms_norm_eps;
    let size = rows * width;
    let next = if i + 1 < w.action_layers@.len() {
        styles.attention[i + 1]
    } else {
        styles.last
    };
    let vals = ActionValues {
        mlp_style: styles.mlp[i],
        next_style: next,
        prefix_k: prefix.keys[i],
        prefix_v: prefix.values[i],
        prefix_tokens: prefix.rows[i],
    };
    assert(0 <= config.action_expert.num_heads * config.action_expert.head_dim)
        by (nonlinear_arith)
        requires
            0 <= config.action_expert.num_heads,
            0 <= config.action_expert.head_dim,
    ;
    assert(stack.layers[i] == action_buffers(l));
    lemma_action_hidden(
        st,
        config.action_expert,
        l,
        vals,
        n,
        rows,
        width,
        inter,
        prefix_tokens,
        eps,
        config.rope_theta,
        max_pos,
    );
    let attn = action_buffers(l).attention(st, n, vals, shape.attention, max_pos);
    let qd = (config.action_expert.num_heads * config.action_expert.head_dim) as i64;
    let projected = affine(
        attn,
        rows as i64,
        qd,
        on(st, l.output.weight),
        bias_on(st, l.output),
        width,
    );
    let residual = words(size, |e: int| plus_word(word(projected, e), word(n, e)));
    let block = geglu_value(
        adaptive_value(residual, styles.mlp[i], rows as i64, width, eps),
        rows as i64,
        width,
        on(st, l.gate_up.weight),
        inter,
        on(st, l.down.weight),
        bias_on(st, l.down),
    );
    let f = |e: int| plus_word(word(block, e), plus_word(word(projected, e), word(n, e)));
    let out = action_buffers(l).hidden(st, n, vals, shape.attention, width, eps, max_pos);
    lemma_words(out, size, f);
    assert(out =~= words(
        size,
        |e: int| plus_word(word(block, e), plus_word(word(projected, e), word(n, e))),
    ));
}

/// The vision tower: the patch embedding goes through the layers in their order.
pub proof fn lemma_tower_layers(
    st: DeviceState,
    config: Pi05Config,
    w: StaticBf16Pi05Weights,
    patches: Seq<SymByte>,
    rows: usize,
    cols: usize,
    i: int,
)
    requires
        0 <= i < w.vision_layers@.len(),
    ensures
        ({
            let tower = vision_tower(config, w, rows, cols);
            let side = config.image_size as int / config.patch_size as int;
            let per_view = (side * side) as usize;
            let after = |n: nat|
                vision_stack(
                    st,
                    tower.patch.value(st, patches, tower.patch_shape),
                    tower.layers,
                    tower.shape,
                    n,
                );
            &&& after(0) == patch_buffers(w.patch_embedding, w.position_embedding).value(
                st,
                patches,
                patch_shape(seq![rows, cols], w.patch_embedding.weight@.dims, per_view),
            )
            &&& after((i + 1) as nat) == vision_buffers(w.vision_layers@[i]).value(
                st,
                after(i as nat),
                vision_shape(
                    seq![rows, w.patch_embedding.weight@.dims[1]],
                    per_view,
                    config.vision_heads,
                    config.vision_head_dim,
                    config.layer_norm_eps,
                ),
            )
        }),
{
    let tower = vision_tower(config, w, rows, cols);
    assert(tower.layers[i] == vision_buffers(w.vision_layers@[i]));
}

/// The hidden state of the vision tower has one row for every patch.
proof fn lemma_stack_len(
    st: DeviceState,
    config: Pi05Config,
    w: StaticBf16Pi05Weights,
    patches: Seq<SymByte>,
    rows: usize,
    cols: usize,
)
    requires
        rows <= i64::MAX,
        w.patch_embedding.weight@.dims[1] <= i64::MAX,
    ensures
        ({
            let tower = vision_tower(config, w, rows, cols);
            vision_stack(
                st,
                tower.patch.value(st, patches, tower.patch_shape),
                tower.layers,
                tower.shape,
                w.vision_layers@.len(),
            ).len() == 2 * (rows * w.patch_embedding.weight@.dims[1])
        }),
{
    reveal(crate::ops::result);
    let width = w.patch_embedding.weight@.dims[1];
    crate::tensor::lemma_two_dims(rows as i64, width as i64);
    assert(0 <= rows * width) by (nonlinear_arith)
        requires
            0 <= rows,
            0 <= width,
    ;
}

/// What the vision tower hands on: what its layers leave, normalized with the last norm,
/// through the projector.
pub proof fn lemma_tower_projection(
    st: DeviceState,
    config: Pi05Config,
    w: StaticBf16Pi05Weights,
    patches: Seq<SymByte>,
    rows: usize,
    cols: usize,
)
    requires
        rows <= i64::MAX - 16,
        w.patch_embedding.weight@.dims.len() >= 2,
        0 < w.patch_embedding.weight@.dims[1] <= i64::MAX,
        is_linear(st, w.multimodal_projector, w.patch_embedding.weight@.dims[1] as int),
    ensures
        ({
            let tower = vision_tower(config, w, rows, cols);
            let width = w.patch_embedding.weight@.dims[1];
            let last = vision_stack(
                st,
                tower.patch.value(st, patches, tower.patch_shape),
                tower.layers,
                tower.shape,
                w.vision_layers@.len(),
            );
            tower.value(st, patches) == through(
                st,
                layer_norm_value(
                    last,
                    filled((2 * (rows * width)) as nat, 0),
                    on(st, w.vision_post_norm.weight),
                    on(st, w.vision_post_norm.bias),
                    rows as i64,
                    width as i64,
                    Real::Single(config.layer_norm_eps),
                ),
                rows as i64,
                width as int,
                w.multimodal_projector,
            )
        }),
{
    let tower = vision_tower(config, w, rows, cols);
    let width = w.patch_embedding.weight@.dims[1];
    lemma_stack_len(st, config, w, patches, rows, cols);
    let last = vision_stack(
        st,
        tower.patch.value(st, patches, tower.patch_shape),
        tower.layers,
        tower.shape,
        w.vision_layers@.len(),
    );
    let normed = layer_norm_value(
        last,
        filled((2 * (rows * width)) as nat, 0),
        on(st, w.vision_post_norm.weight),
        on(st, w.vision_post_norm.bias),
        rows as i64,
        width as i64,
        Real::Single(config.layer_norm_eps),
    );
    lemma_through(st, normed, rows as i64, width as int, w.multimodal_projector);
}

/// Keys and values that were kept are on the device: tensor `i` of the keys holds the keys
/// of language layer `i`, tensor `i` of the values its values. Layer `i` works on what
/// layer `i - 1` leaves, layer 0 on the prefix; every layer but the last of the configured
/// depth has its second half.
pub proof fn lemma_prefix_kept(
    before: DeviceState,
    after: DeviceState,
    config: Pi05Config,
    w: StaticBf16Pi05Weights,
    x: Seq<SymByte>,
    rows: usize,
    width: i64,
    max_pos: usize,
    kv: AscendPrefixKvCache,
    i: int,
)
    requires
        before.sane(),
        kv.keys@.len() == w.language_layers@.len(),
        kv.values@.len() == w.language_layers@.len(),
        owns(
            before,
            after,
            kv_items(
                buffers_of(kv.keys@),
                buffers_of(kv.values@),
                before,
                x,
                language_layer_buffers(w.language_layers@, config.language.depth),
                attention_shape(config.language, rows, 0, config.rope_theta),
                width,
                config.rms_norm_eps,
                max_pos,
                w.language_layers@.len(),
            ),
        ),
        0 <= i < w.language_layers@.len(),
    ensures
        ({
            let layers = language_layer_buffers(w.language_layers@, config.language.depth);
            let shape = attention_shape(config.language, rows, 0, config.rope_theta);
            let eps = config.rms_norm_eps;
            let layer = language_buffers(w.language_layers@[i], i + 1 < config.language.depth);
            let stream = |n: nat|
                language_hidden(before, x, layers, shape, width, eps, max_pos, n);
            &&& stream(0) == x
            &&& stream((i + 1) as nat) == layer.hidden(
                before,
                stream(i as nat),
                shape,
                width,
                eps,
                max_pos,
            )
            &&& on(after, kv.keys@[i]) == layer.keys(
                before,
                stream(i as nat),
                shape,
                width,
                eps,
                max_pos,
            )
            &&& on(after, kv.values@[i]) == layer.values(
                before,
                stream(i as nat),
                shape,
                width,
                eps,
            )
        }),
{
    let layers = language_layer_buffers(w.language_layers@, config.language.depth);
    let shape = attention_shape(config.language, rows, 0, config.rope_theta);
    let eps = config.rms_norm_eps;
    let keys = buffers_of(kv.keys@);
    let values = buffers_of(kv.values@);
    let items = kv_items(
        keys,
        values,
        before,
        x,
        layers,
        shape,
        width,
        eps,
        max_pos,
        w.language_layers@.len(),
    );
    lemma_owns(before, after, items);
    assert((2 * i) / 2 == i && (2 * i) % 2 == 0);
    assert((2 * i + 1) / 2 == i && (2 * i + 1) % 2 == 1);
    assert(items[2 * i] == (
        values[i],
        prefix_values(before, x, layers, shape, width, eps, max_pos, i),
    ));
    assert(items[2 * i + 1] == (
        keys[i],
        prefix_keys(before, x, layers, shape, width, eps, max_pos, i),
    ));
    assert(layers[i] == language_buffers(
        w.language_layers@[i],
        i + 1 < config.language.depth,
    ));
}

/// The flow depends on the styles of the steps that it makes.
proof fn lemma_flow_styles(
    stack: ActionWeights,
    st: DeviceState,
    noise: Seq<SymByte>,
    a: Seq<StyleValues>,
    b: Seq<StyleValues>,
    prefix: PrefixValues,
    shape: StepShape,
    max_pos: usize,
    dt: u32,
    n: nat,
)
    requires
        n <= a.len(),
        n <= b.len(),
        forall|i: int| 0 <= i < n ==> a[i] == #[trigger] b[i],
    ensures
        flow(stack, st, noise, a, prefix, shape, max_pos, dt, n) == flow(
            stack,
            st,
            noise,
            b,
            prefix,
            shape,
            max_pos,
            dt,
            n,
        ),
    decreases n,
{
    if n > 0 {
        lemma_flow_styles(
            stack,
            st,
            noise,
            a,
            b,
            prefix,
            shape,
            max_pos,
            dt,
            (n - 1) as nat,
        );
        assert(a[n - 1] == b[n - 1]);
    }
}

/// An inference without a step is its noise, and one with one more step makes that step,
/// with the styles that were added, from where the shorter inference ends. All steps see
/// the same prefix: keys and values of the language layers over the vision rows and the
/// embeddings of the tokens.
pub proof fn lemma_inference(
    st: DeviceState,
    config: Pi05Config,
    w: StaticBf16Pi05Weights,
    patch_tensor: TensorInfo,
    patches: Seq<SymByte>,
    ids: Seq<u32>,
    noise: Seq<SymByte>,
    styles: Seq<StyleValues>,
    more: StyleValues,
    shape: StepShape,
    language_span: usize,
    action_span: usize,
    dt: u32,
)
    ensures
        ({
            let model = prefix_model(config, w, patch_tensor, ids.len());
            let stack = action_weights(w);
            let run = |s: Seq<StyleValues>|
                inference(
                    model,
                    stack,
                    st,
                    patches,
                    ids,
                    noise,
                    s,
                    shape,
                    language_span,
                    action_span,
                    dt,
                );
            let layers = language_layer_buffers(w.language_layers@, config.language.depth);
            let tokens = (patch_tensor.dims[0] + ids.len()) as usize;
            let width = w.multimodal_projector.weight@.dims[1] as i64;
            let tower = vision_tower(config, w, patch_tensor.dims[0], patch_tensor.dims[1]);
            let x = prefix_value(
                tower.value(st, patches),
                patch_tensor.dims[0] as i64,
                on(st, w.token_embedding),
                w.token_embedding@.dims[0] as i64,
                width,
                ids,
            );
            let sizes = attention_shape(config.language, tokens, 0, config.rope_theta);
            let eps = config.rms_norm_eps;
            let kept = PrefixValues {
                keys: Seq::new(
                    w.language_layers@.len(),
                    |i: int|
                        prefix_keys(st, x, layers, sizes, width, eps, language_span, i),
                ),
                values: Seq::new(
                    w.language_layers@.len(),
                    |i: int|
                        prefix_values(st, x, layers, sizes, width, eps, language_span, i),
                ),
                rows: Seq::new(w.language_layers@.len(), |i: int| tokens as i64),
            };
            &&& run(Seq::empty()) == noise
            &&& run(styles.push(more)) == stack.step(
                st,
                run(styles),
                more,
                kept,
                shape,
                action_span,
                dt,
            )
        }),
{
    let model = prefix_model(config, w, patch_tensor, ids.len());
    let stack = action_weights(w);
    let kept = model.values(st, patches, ids, language_span);
    let layers = language_layer_buffers(w.language_layers@, config.language.depth);
    let tokens = (patch_tensor.dims[0] + ids.len()) as usize;
    let width = w.multimodal_projector.weight@.dims[1] as i64;
    let tower = vision_tower(config, w, patch_tensor.dims[0], patch_tensor.dims[1]);
    let x = prefix_value(
        tower.value(st, patches),
        patch_tensor.dims[0] as i64,
        on(st, w.token_embedding),
        w.token_embedding@.dims[0] as i64,
        width,
        ids,
    );
    let sizes = attention_shape(config.language, tokens, 0, config.rope_theta);
    let eps = config.rms_norm_eps;
    assert(model.input(st, patches, ids) == x);
    assert(kept.keys =~= Seq::new(
        w.language_layers@.len(),
        |i: int| prefix_keys(st, x, layers, sizes, width, eps, language_span, i),
    ));
    assert(kept.values =~= Seq::new(
        w.language_layers@.len(),
        |i: int| prefix_values(st, x, layers, sizes, width, eps, language_span, i),
    ));
    assert(kept.rows =~= Seq::new(w.language_layers@.len(), |i: int| tokens as i64));
    lemma_flow_styles(
        stack,
        st,
        noise,
        styles.push(more),
        styles,
        kept,
        shape,
        action_span,
        dt,
        styles.len(),
    );
}

/// A prompt is refused exactly where it is empty or longer than the model takes, and style
/// sets exactly where there are not as many as steps.
pub proof fn lemma_counts(count: nat, max: usize, steps: usize, sets: nat)
    ensures
        token_count_error(count, max) is None <==> 1 <= count <= max,
        style_count_error(steps, sets) is None <==> sets == steps,
{
}

} // verus!
