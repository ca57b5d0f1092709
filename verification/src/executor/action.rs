//! Layers of the action expert.

use vstd::prelude::*;

use crate::backend::{dims_fit, held, wrapped, AscendBackend};
use crate::cache::{lemma_delivers_stable, lemma_only_kept, lemma_stable_then, stable};
use crate::capture::{lemma_quiet_then, quiet};
use crate::context::AscendContext;
use crate::device::{Base, DeviceBuffer};
use crate::encode::{all_ones, half_bytes};
use crate::error::{first_error, Error, ErrorView};
use crate::executor::attention::{
    lemma_attention_sizes, rotate_pair, rotated, AttentionShape,
};
use crate::executor::blocks::{
    cat2, cat2_value, geglu, geglu_value, linear_bias_value, output_residual, residual_value,
};
use crate::executor::caches::{caches_kept, AscendCaches};
use crate::executor::frame::{
    drop_temp, is_item, item_id, lemma_delivers_three, lemma_dropped_stable, lemma_owns,
    lemma_owns_drop, lemma_owns_one, lemma_owns_then, lemma_settled, owns,
};
use crate::executor::language::{
    attention_shape, config_fits, gated_width, layer_norm_rows_value,
};
use crate::executor::layers::{adds_up, bias_on, lemma_action_stream};
use crate::executor::linear::{
    is_bias, is_fused_bias, is_weight, k_value, optional_value, project_qkv, q_value, v_value,
};
use crate::model::{
    linear_buffers, linear_error, optional_buffer, tensor_buf, Bf16DeviceActionLayer,
    GemmaVariantConfig, Tensor,
};
use crate::ops::attention::{cross_attention_value, prompt_flash_attention_cross_bsh_fp16};
use crate::ops::elementwise::{
    add_fp16, add_value, mul_fp16, mul_value, muls_fp16, muls_value,
};
use crate::ops::is_fp16;
use crate::ops::laws::word;
use crate::ops::matmul::{aligned_rows, lemma_aligned};
use crate::ops::rows::{
    replicate_value, row_replicate_fp16, rows_value, take_rows_fp16,
};
use crate::ops::words::{plus_word, words};
use crate::semantics::{
    delivers, gains, is_lasting, keeps, lemma_delivers, lemma_gains, lemma_whole_value,
    lemma_yields, literal, plus_one, yields, DeviceState, SymByte,
};
use crate::tensor::{fits, lemma_fits, lemma_fits_smaller, lemma_one_window};

verus! {

/// What [`adaptive_rms`] computes: the norm of the rows of `x`, times one plus the
/// first segment of the style, plus its second segment.
pub open spec fn adaptive_value(
    x: Seq<SymByte>,
    style: Seq<SymByte>,
    rows: i64,
    cols: i64,
    eps: u32,
) -> Seq<SymByte> {
    let shape = seq![rows, cols];
    let ones = literal(half_bytes(cols as nat, all_ones()));
    add_value(
        mul_value(
            layer_norm_rows_value(x, ones, rows, cols, eps),
            replicate_value(plus_one(style, cols as nat), rows, cols),
            shape,
        ),
        replicate_value(style.subrange(cols * 2, cols * 2 + cols * 2), rows, cols),
        shape,
    )
}

/// A style of three segments of `cols` words is there.
pub open spec fn is_style(st: DeviceState, style: DeviceBuffer, cols: i64) -> bool {
    st.holds(style) && is_lasting(style) && style.len == cols * 6
}

/// Scale and shift the rows of `x` by two rows that every row gets.
fn modulate(
    ctx: &mut AscendContext,
    x: &DeviceBuffer,
    scale: &DeviceBuffer,
    shift: &DeviceBuffer,
    rows: i64,
    cols: i64,
) -> (out: DeviceBuffer)
    requires
        old(ctx).wf(),
        is_fp16(old(ctx).state(), *x, seq![rows, cols]),
        old(ctx).state().holds(*scale),
        scale.len == cols * 2,
        old(ctx).state().holds(*shift),
        shift.len == cols * 2,
    ensures
        final(ctx).continues(old(ctx)),
        out.len == rows * cols * 2,
        ({
            let st = old(ctx).state();
            yields(
                st,
                final(ctx).state(),
                out,
                add_value(
                    mul_value(
                        st.value(*x),
                        replicate_value(st.value(*scale), rows, cols),
                        seq![rows, cols],
                    ),
                    replicate_value(st.value(*shift), rows, cols),
                    seq![rows, cols],
                ),
            )
        }),
{
    let ghost s0 = ctx.state();
    let ghost av = replicate_value(s0.value(*scale), rows, cols);
    let ghost bv = replicate_value(s0.value(*shift), rows, cols);
    proof {
        ctx.lemma_safe();
        lemma_fits(rows, cols);
    }
    let a = row_replicate_fp16(ctx, scale, rows, cols);
    let ghost s1 = ctx.state();
    proof {
        ctx.lemma_safe();
        lemma_gains(s0, s1, a, av);
    }
    let b = row_replicate_fp16(ctx, shift, rows, cols);
    let ghost s2 = ctx.state();
    proof {
        ctx.lemma_safe();
        lemma_gains(s1, s2, b, bv);
    }
    let shape: Vec<i64> = vec![rows, cols];
    assert(shape@ =~= seq![rows, cols]);
    let scaled = mul_fp16(ctx, x, &a, &shape);
    let ghost s3 = ctx.state();
    let ghost mv = mul_value(s0.value(*x), av, seq![rows, cols]);
    proof {
        ctx.lemma_safe();
        lemma_gains(s2, s3, scaled, mv);
    }
    let out = add_fp16(ctx, &scaled, &b, &shape);
    drop_temp(ctx, scaled, Ghost(s0));
    drop_temp(ctx, b, Ghost(s0));
    drop_temp(ctx, a, Ghost(s0));
    proof {
        match out.base {
            Base::Fresh(id) => {
                assert(ctx.state().fresh =~= s0.fresh.insert(
                    id,
                    add_value(mv, bv, seq![rows, cols]),
                ));
            },
            _ => {},
        }
    }
    out
}

/// The norm of the action expert: the norm of the rows of `x` without a weight,
/// scaled and shifted by the first two segments of the style.
pub fn adaptive_rms(
    be: &mut AscendBackend,
    caches: &mut AscendCaches,
    x: &DeviceBuffer,
    style: &DeviceBuffer,
    rows: i64,
    cols: i64,
    eps: u32,
) -> (out: DeviceBuffer)
    requires
        old(be).wf(),
        old(caches).wf(old(be).state()),
        is_fp16(old(be).state(), *x, seq![rows, cols]),
        is_lasting(*x),
        is_style(old(be).state(), *style, cols),
    ensures
        final(be).wf(),
        final(be).spec_device() == old(be).spec_device(),
        caches_kept(*old(caches), *final(caches), final(be).state()),
        final(caches).rope == old(caches).rope,
        final(caches).nz == old(caches).nz,
        out.len == rows * cols * 2,
        delivers(
            old(be).state(),
            final(be).state(),
            out,
            adaptive_value(
                old(be).state().value(*x),
                old(be).state().value(*style),
                rows,
                cols,
                eps,
            ),
        ),
{
    let ghost s0 = be.state();
    let ghost k0 = *caches;
    let ghost xv = s0.value(*x);
    let ghost stv = s0.value(*style);
    proof {
        be.ctx.lemma_safe();
        lemma_fits(rows, cols);
    }
    let ones = caches.rows.ones(&mut be.ctx, cols as usize);
    let ghost s1 = be.state();
    let ghost k1 = *caches;
    let ghost ov = literal(half_bytes(cols as nat, all_ones()));
    proof {
        be.ctx.lemma_safe();
        lemma_only_kept(s0, s1);
        k0.lemma_stable(s0, s1);
        assert(k1.wf(s1));
    }
    let normed = be.rms_norm_rows(x, &ones, rows, cols, eps);
    let ghost s2 = be.state();
    let ghost nv = layer_norm_rows_value(xv, ov, rows, cols, eps);
    proof {
        be.ctx.lemma_safe();
        lemma_delivers(s1, s2, normed, nv);
        lemma_delivers_stable(s1, s2, normed, nv);
        k1.lemma_stable(s1, s2);
        assert(s2.value(*style) == stv);
    }
    let (scale, shift) = caches.rows.style(&mut be.ctx, style, cols as usize);
    let ghost s3 = be.state();
    let ghost k3 = *caches;
    proof {
        be.ctx.lemma_safe();
        lemma_only_kept(s2, s3);
        k1.lemma_stable(s2, s3);
        assert(k3.wf(s3));
    }
    let out = modulate(&mut be.ctx, &normed, &scale, &shift, rows, cols);
    let ghost s4 = be.state();
    drop_temp(&mut be.ctx, normed, Ghost(s0));
    proof {
        let end = be.state();
        match out.base {
            Base::Fresh(id) => {
                assert(end.fresh =~= s0.fresh.insert(
                    id,
                    adaptive_value(xv, stv, rows, cols, eps),
                ));
            },
            _ => {},
        }
        assert(stable(s3, end));
        k3.lemma_stable(s3, end);
    }
    out
}

/// Rows of keys or values that a buffer holds.
pub open spec fn prefix_rows(b: DeviceBuffer, kv_d: i64) -> i64 {
    ((b.len / 2) as int / kv_d as int) as i64
}

/// Columns that the fused projection reads of each row.
pub open spec fn fused_rows(w: DeviceBuffer, shape: AttentionShape) -> i64 {
    ((w.len / 2) as int / (shape.qd() + 2 * shape.kv_d())) as i64
}

/// The weights of a projection are there.
pub open spec fn expert_ready(
    st: DeviceState,
    width: i64,
    w: DeviceBuffer,
    bias: Option<DeviceBuffer>,
    shape: AttentionShape,
) -> bool {
    let in_w = fused_rows(w, shape);
    let out_w = shape.qd() + 2 * shape.kv_d();
    &&& shape.fits()
    &&& 0 < shape.kv_d()
    &&& fits(aligned_rows(shape.tokens), in_w)
    &&& fits(aligned_rows(shape.tokens), out_w as i64)
    &&& in_w <= width
    &&& shape.tokens % 16 == 0 ==> in_w == width
    &&& is_weight(st, w, [in_w, out_w as i64])
    &&& is_fused_bias(st, bias, out_w)
}

/// A prefix of `rows` rows and this chunk can be described together.
pub open spec fn prefix_fits(rows: i64, shape: AttentionShape) -> bool {
    &&& rows + shape.tokens <= i64::MAX
    &&& fits((rows + shape.tokens) as i64, shape.kv_d())
}

/// The prefix that this chunk attends to is there.
pub open spec fn prefix_there(
    st: DeviceState,
    prefix_k: DeviceBuffer,
    prefix_v: DeviceBuffer,
    shape: AttentionShape,
) -> bool {
    let pt = prefix_rows(prefix_k, shape.kv_d());
    &&& is_lasting(prefix_k)
    &&& is_lasting(prefix_v)
    &&& prefix_k.len <= i64::MAX
    &&& is_fp16(st, prefix_k, seq![pt, shape.kv_d()])
    &&& is_fp16(st, prefix_v, seq![pt, shape.kv_d()])
    &&& prefix_fits(pt, shape)
}

/// The weights of a projection and the prefix that this chunk attends to are there.
pub open spec fn prefix_ready(
    st: DeviceState,
    width: i64,
    w: DeviceBuffer,
    bias: Option<DeviceBuffer>,
    prefix_k: DeviceBuffer,
    prefix_v: DeviceBuffer,
    shape: AttentionShape,
) -> bool {
    expert_ready(st, width, w, bias, shape) && prefix_there(st, prefix_k, prefix_v, shape)
}

/// Keys and values of `rows` rows are a prefix.
pub proof fn lemma_prefix_there(
    st: DeviceState,
    prefix_k: DeviceBuffer,
    prefix_v: DeviceBuffer,
    shape: AttentionShape,
    rows: i64,
)
    requires
        0 < shape.kv_d(),
        0 <= rows,
        0 <= shape.tokens,
        prefix_fits(rows, shape),
        st.holds(prefix_k),
        is_lasting(prefix_k),
        prefix_k.len == rows * shape.kv_d() * 2,
        st.holds(prefix_v),
        is_lasting(prefix_v),
        prefix_v.len == rows * shape.kv_d() * 2,
    ensures
        prefix_there(st, prefix_k, prefix_v, shape),
        prefix_rows(prefix_k, shape.kv_d()) == rows,
{
    let d = shape.kv_d() as int;
    lemma_fits_smaller((rows + shape.tokens) as i64, shape.kv_d(), rows, shape.kv_d());
    lemma_fits(rows, shape.kv_d());
    assert((prefix_k.len / 2) as int == rows * d);
    assert(rows * d == d * rows) by (nonlinear_arith);
    vstd::arithmetic::div_mod::lemma_fundamental_div_mod_converse(rows * d, d, rows as int, 0);
}

/// A lasting `[tokens, width]` matrix is there.
pub open spec fn is_rows(st: DeviceState, b: DeviceBuffer, tokens: i64, width: i64) -> bool {
    st.holds(b) && is_lasting(b) && b.len == tokens * width * 2
}

/// What [`cross_attention`] computes from normalized rows.
pub open spec fn cross_value(
    n: Seq<SymByte>,
    in_w: i64,
    w: Seq<SymByte>,
    bias: Option<Seq<SymByte>>,
    prefix_k: Seq<SymByte>,
    prefix_v: Seq<SymByte>,
    prefix_tokens: i64,
    shape: AttentionShape,
    max_pos: usize,
) -> Seq<SymByte> {
    let qd = shape.qd();
    let kv_d = shape.kv_d();
    let q = q_value(n, shape.tokens, in_w, w, bias, qd, kv_d);
    let k = k_value(n, shape.tokens, in_w, w, bias, qd, kv_d);
    let v = v_value(n, shape.tokens, in_w, w, bias, qd, kv_d);
    cross_attention_value(
        rotated(shape, q, shape.heads, max_pos),
        cat2_value(
            prefix_k,
            prefix_tokens,
            rotated(shape, k, shape.kv_heads, max_pos),
            shape.tokens,
            kv_d,
        ),
        cat2_value(prefix_v, prefix_tokens, v, shape.tokens, kv_d),
        shape.tokens,
        (prefix_tokens + shape.tokens) as i64,
        shape.heads,
        shape.kv_heads,
        shape.head_dim,
        None,
    )
}

/// Attention of `q` over the prefix and this chunk. Drops what it concatenates.
fn attend_prefix(
    ctx: &mut AscendContext,
    q: &DeviceBuffer,
    k: &DeviceBuffer,
    v: &DeviceBuffer,
    prefix_k: &DeviceBuffer,
    prefix_v: &DeviceBuffer,
    pt: i64,
    shape: AttentionShape,
) -> (attn: DeviceBuffer)
    requires
        old(ctx).wf(),
        shape.fits(),
        old(ctx).state().holds(*q),
        q.len == shape.tokens * shape.qd() * 2,
        old(ctx).state().holds(*k),
        k.len == shape.tokens * shape.kv_d() * 2,
        old(ctx).state().holds(*v),
        v.len == shape.tokens * shape.kv_d() * 2,
        is_fp16(old(ctx).state(), *prefix_k, seq![pt, shape.kv_d()]),
        is_fp16(old(ctx).state(), *prefix_v, seq![pt, shape.kv_d()]),
        pt + shape.tokens <= i64::MAX,
        fits(shape.tokens, shape.qd()),
        fits(shape.tokens, shape.kv_d()),
        fits((pt + shape.tokens) as i64, shape.kv_d()),
    ensures
        final(ctx).continues(old(ctx)),
        attn.len == shape.tokens * shape.qd() * 2,
        ({
            let st = old(ctx).state();
            let kv_d = shape.kv_d();
            yields(
                st,
                final(ctx).state(),
                attn,
                cross_attention_value(
                    st.value(*q),
                    cat2_value(st.value(*prefix_k), pt, st.value(*k), shape.tokens, kv_d),
                    cat2_value(st.value(*prefix_v), pt, st.value(*v), shape.tokens, kv_d),
                    shape.tokens,
                    (pt + shape.tokens) as i64,
                    shape.heads,
                    shape.kv_heads,
                    shape.head_dim,
                    None,
                ),
            )
        }),
{
    let ghost s0 = ctx.state();
    let tokens: i64 = shape.tokens;
    proof {
        ctx.lemma_safe();
        lemma_attention_sizes(shape);
        lemma_fits(tokens, shape.qd());
        lemma_fits(tokens, shape.kv_d());
        lemma_fits((pt + tokens) as i64, shape.kv_d());
        lemma_one_window(tokens, shape.qd());
        lemma_one_window((pt + tokens) as i64, shape.kv_d());
    }
    let kv_d: i64 = shape.kv_heads * shape.head_dim;
    let total: i64 = pt + tokens;
    let ghost kv = cat2_value(s0.value(*prefix_k), pt, s0.value(*k), tokens, kv_d);
    let ghost vv = cat2_value(s0.value(*prefix_v), pt, s0.value(*v), tokens, kv_d);
    let k_all = cat2(ctx, prefix_k, pt, k, tokens, kv_d);
    let ghost s1 = ctx.state();
    proof {
        ctx.lemma_safe();
        lemma_gains(s0, s1, k_all, kv);
    }
    let v_all = cat2(ctx, prefix_v, pt, v, tokens, kv_d);
    let ghost s2 = ctx.state();
    proof {
        ctx.lemma_safe();
        lemma_gains(s1, s2, v_all, vv);
    }
    let attn = prompt_flash_attention_cross_bsh_fp16(
        ctx,
        q,
        &k_all,
        &v_all,
        tokens,
        total,
        shape.heads,
        shape.kv_heads,
        shape.head_dim,
        None,
    );
    drop_temp(ctx, v_all, Ghost(s0));
    drop_temp(ctx, k_all, Ghost(s0));
    proof {
        let value = cross_attention_value(
            s0.value(*q),
            kv,
            vv,
            tokens,
            total,
            shape.heads,
            shape.kv_heads,
            shape.head_dim,
            None,
        );
        match attn.base {
            Base::Fresh(id) => {
                assert(ctx.state().fresh =~= s0.fresh.insert(id, value));
            },
            _ => {},
        }
    }
    attn
}

/// Projection, rotation and attention over the prefix and this chunk.
fn cross_attention(
    ctx: &mut AscendContext,
    caches: &mut AscendCaches,
    n: &DeviceBuffer,
    width: i64,
    w: &DeviceBuffer,
    bias: Option<DeviceBuffer>,
    prefix_k: &DeviceBuffer,
    prefix_v: &DeviceBuffer,
    shape: AttentionShape,
) -> (attn: DeviceBuffer)
    requires
        old(ctx).wf(),
        old(caches).wf(old(ctx).state()),
        is_rows(old(ctx).state(), *n, shape.tokens, width),
        prefix_ready(old(ctx).state(), width, *w, bias, *prefix_k, *prefix_v, shape),
    ensures
        final(ctx).continues(old(ctx)),
        caches_kept(*old(caches), *final(caches), final(ctx).state()),
        shape.table_span(*final(caches)) == shape.table_span(*old(caches)),
        attn.len == shape.tokens * shape.qd() * 2,
        yields(
            old(ctx).state(),
            final(ctx).state(),
            attn,
            cross_value(
                old(ctx).state().value(*n),
                fused_rows(*w, shape),
                old(ctx).state().value(*w),
                optional_value(old(ctx).state(), bias),
                old(ctx).state().value(*prefix_k),
                old(ctx).state().value(*prefix_v),
                prefix_rows(*prefix_k, shape.kv_d()),
                shape,
                shape.table_span(*old(caches)),
            ),
        ),
{
    let ghost s0 = ctx.state();
    let ghost mp = shape.table_span(*caches);
    let ghost nv = s0.value(*n);
    let ghost wv = s0.value(*w);
    let ghost bv = optional_value(s0, bias);
    let tokens: i64 = shape.tokens;
    proof {
        ctx.lemma_safe();
        lemma_attention_sizes(shape);
    }
    let qd: i64 = shape.heads * shape.head_dim;
    let kv_d: i64 = shape.kv_heads * shape.head_dim;
    let out_w: i64 = qd + 2 * kv_d;
    let in_w: i64 = (w.len / 2) as i64 / out_w;
    let pt: i64 = (prefix_k.len / 2) as i64 / kv_d;
    assert(in_w == fused_rows(*w, shape));
    assert(pt == prefix_rows(*prefix_k, kv_d));
    proof {
        lemma_aligned(tokens, out_w);
        lemma_fits_smaller(aligned_rows(tokens), out_w, tokens, qd);
        lemma_fits_smaller(aligned_rows(tokens), out_w, tokens, kv_d);
        assert(tokens * in_w * 2 <= tokens * width * 2) by (nonlinear_arith)
            requires
                tokens > 0,
                in_w <= width,
        ;
    }
    let raw = project_qkv(ctx, caches, n, tokens, in_w, w, bias, qd, kv_d);
    let ghost s1 = ctx.state();
    let ghost q = q_value(nv, tokens, in_w, wv, bv, qd, kv_d);
    let ghost k = k_value(nv, tokens, in_w, wv, bv, qd, kv_d);
    let ghost v = v_value(nv, tokens, in_w, wv, bv, qd, kv_d);
    proof {
        ctx.lemma_safe();
        lemma_delivers_three(s0, s1, raw.q, q, raw.k, k, raw.v, v);
    }
    let (q_rope, k_rope) = rotate_pair(ctx, caches, &raw.q, &raw.k, shape);
    let ghost s2 = ctx.state();
    let ghost k2 = *caches;
    let ghost qr = rotated(shape, q, shape.heads, mp);
    let ghost kr = rotated(shape, k, shape.kv_heads, mp);
    proof {
        ctx.lemma_safe();
        lemma_whole_value(s2, raw.v);
        lemma_whole_value(s2, q_rope);
        lemma_whole_value(s2, k_rope);
        assert(s1.holds(*prefix_k) && s1.value(*prefix_k) == s0.value(*prefix_k));
        assert(s1.holds(*prefix_v) && s1.value(*prefix_v) == s0.value(*prefix_v));
        lemma_still(s1, s2, *prefix_k, q_rope, qr, k_rope, kr);
        lemma_still(s1, s2, *prefix_v, q_rope, qr, k_rope, kr);
    }
    let attn = attend_prefix(ctx, &q_rope, &k_rope, &raw.v, prefix_k, prefix_v, pt, shape);
    drop_temp(ctx, k_rope, Ghost(s0));
    drop_temp(ctx, q_rope, Ghost(s0));
    drop_temp(ctx, raw.v, Ghost(s0));
    drop_temp(ctx, raw.k, Ghost(s0));
    drop_temp(ctx, raw.q, Ghost(s0));
    proof {
        let end = ctx.state();
        let value = cross_value(
            nv,
            in_w,
            wv,
            bv,
            s0.value(*prefix_k),
            s0.value(*prefix_v),
            pt,
            shape,
            mp,
        );
        match attn.base {
            Base::Fresh(id) => {
                assert(end.fresh =~= s0.fresh.insert(id, value));
            },
            _ => {},
        }
        assert(stable(s2, end));
        k2.lemma_stable(s2, end);
    }
    attn
}

/// A lasting buffer survives the addition of two others.
proof fn lemma_still(
    before: DeviceState,
    after: DeviceState,
    b: DeviceBuffer,
    x: DeviceBuffer,
    xv: Seq<SymByte>,
    y: DeviceBuffer,
    yv: Seq<SymByte>,
)
    requires
        before.sane(),
        before.holds(b),
        is_lasting(b),
        keeps(before, after),
        x.base is Fresh,
        y.base is Fresh,
        before.issued <= x.base->Fresh_0,
        before.issued <= y.base->Fresh_0,
        after.fresh == before.fresh.insert(x.base->Fresh_0, xv).insert(y.base->Fresh_0, yv),
    ensures
        after.holds(b),
        after.value(b) == before.value(b),
{
    match b.base {
        Base::Kept(id) => {
            assert(before.kept.contains_key(id));
        },
        Base::Fresh(id) => {
            assert(before.fresh.contains_key(id));
        },
        _ => {},
    }
}

/// What the attention of an action layer starts from.
#[derive(Debug, Clone, Copy)]
pub enum Start {
    /// Rows that the layer before has normalized.
    Normalized(DeviceBuffer),
    /// The style to normalize the input with.
    Style(DeviceBuffer),
}

/// The buffers of an action layer.
#[derive(Debug, Clone, Copy)]
pub struct ActionBuffers {
    pub qkv: DeviceBuffer,
    pub qkv_bias: Option<DeviceBuffer>,
    pub output: DeviceBuffer,
    pub output_bias: Option<DeviceBuffer>,
    pub gate_up: DeviceBuffer,
    pub down: DeviceBuffer,
    pub down_bias: Option<DeviceBuffer>,
}

/// What an action layer works on besides its weights and its input.
#[derive(Debug, Clone, Copy)]
pub struct ActionOperands {
    pub start: Start,
    pub mlp_style: DeviceBuffer,
    pub next_style: DeviceBuffer,
    pub prefix_k: DeviceBuffer,
    pub prefix_v: DeviceBuffer,
}

/// What the operands of an action layer hold.
pub struct ActionValues {
    pub mlp_style: Seq<SymByte>,
    pub next_style: Seq<SymByte>,
    pub prefix_k: Seq<SymByte>,
    pub prefix_v: Seq<SymByte>,
    pub prefix_tokens: i64,
}

impl ActionOperands {
    /// What the operands hold, apart from what the layer starts from.
    pub open spec fn values(self, st: DeviceState, kv_d: i64) -> ActionValues {
        ActionValues {
            mlp_style: st.value(self.mlp_style),
            next_style: st.value(self.next_style),
            prefix_k: st.value(self.prefix_k),
            prefix_v: st.value(self.prefix_v),
            prefix_tokens: prefix_rows(self.prefix_k, kv_d),
        }
    }

    /// What the layer starts from is there.
    pub open spec fn start_ready(self, st: DeviceState, tokens: i64, width: i64) -> bool {
        match self.start {
            Start::Normalized(b) => st.holds(b) && is_lasting(b) && tokens * width * 2 <= b.len,
            Start::Style(b) => is_style(st, b, width),
        }
    }

    /// The normalized input.
    pub open spec fn normalized(
        self,
        st: DeviceState,
        x: Seq<SymByte>,
        tokens: i64,
        width: i64,
        eps: u32,
    ) -> Seq<SymByte> {
        match self.start {
            Start::Normalized(b) => rows_value(st.value(b), 0, tokens, width),
            Start::Style(b) => adaptive_value(x, st.value(b), tokens, width, eps),
        }
    }
}

impl ActionBuffers {
    /// The buffers of the half that follows the attention are there.
    pub open spec fn rest_ready(self, st: DeviceState, tokens: i64, qd: i64, width: i64) -> bool {
        let inter = gated_width(self.gate_up, width);
        &&& 0 < width
        &&& width * 2 <= i64::MAX
        &&& 0 <= tokens <= i64::MAX - 16
        &&& fits(aligned_rows(tokens), qd)
        &&& fits(aligned_rows(tokens), width)
        &&& is_weight(st, self.output, [qd, width])
        &&& is_bias(st, self.output_bias, width)
        &&& 0 < inter
        &&& inter * 2 <= i64::MAX
        &&& fits(aligned_rows(tokens), (inter * 2) as i64)
        &&& is_weight(st, self.gate_up, [width, (inter * 2) as i64])
        &&& is_weight(st, self.down, [inter, width])
        &&& is_bias(st, self.down_bias, width)
    }

    /// The weights are there and have the sizes that the layer needs.
    pub open spec fn body_ready(
        self,
        st: DeviceState,
        shape: AttentionShape,
        width: i64,
    ) -> bool {
        &&& expert_ready(st, width, self.qkv, self.qkv_bias, shape)
        &&& self.rest_ready(st, shape.tokens, shape.qd(), width)
    }

    /// The weights, styles and prefix are there and have the sizes that the layer
    /// needs.
    pub open spec fn weights_ready(
        self,
        st: DeviceState,
        ops: ActionOperands,
        shape: AttentionShape,
        width: i64,
    ) -> bool {
        &&& prefix_ready(
            st,
            width,
            self.qkv,
            self.qkv_bias,
            ops.prefix_k,
            ops.prefix_v,
            shape,
        )
        &&& self.rest_ready(st, shape.tokens, shape.qd(), width)
        &&& is_style(st, ops.mlp_style, width)
        &&& is_style(st, ops.next_style, width)
    }

    /// Everything the layer reads is there and has the sizes that it needs.
    pub open spec fn ready(
        self,
        st: DeviceState,
        x: DeviceBuffer,
        ops: ActionOperands,
        shape: AttentionShape,
        width: i64,
    ) -> bool {
        &&& is_rows(st, x, shape.tokens, width)
        &&& ops.start_ready(st, shape.tokens, width)
        &&& self.weights_ready(st, ops, shape, width)
    }

    /// The attention of the layer.
    pub open spec fn attention(
        self,
        st: DeviceState,
        n: Seq<SymByte>,
        vals: ActionValues,
        shape: AttentionShape,
        max_pos: usize,
    ) -> Seq<SymByte> {
        cross_value(
            n,
            fused_rows(self.qkv, shape),
            st.value(self.qkv),
            optional_value(st, self.qkv_bias),
            vals.prefix_k,
            vals.prefix_v,
            vals.prefix_tokens,
            shape,
            max_pos,
        )
    }

    /// The gated block on top of `res`, with its residual.
    pub open spec fn feed_forward(
        self,
        st: DeviceState,
        res: Seq<SymByte>,
        style: Seq<SymByte>,
        tokens: i64,
        width: i64,
        eps: u32,
    ) -> Seq<SymByte> {
        add_value(
            geglu_value(
                adaptive_value(res, style, tokens, width, eps),
                tokens,
                width,
                st.value(self.gate_up),
                gated_width(self.gate_up, width),
                st.value(self.down),
                optional_value(st, self.down_bias),
            ),
            res,
            seq![tokens, width],
        )
    }

    /// The projected attention plus the normalized input `n`.
    pub open spec fn residual(
        self,
        st: DeviceState,
        n: Seq<SymByte>,
        vals: ActionValues,
        shape: AttentionShape,
        width: i64,
        max_pos: usize,
    ) -> Seq<SymByte> {
        residual_value(
            self.attention(st, n, vals, shape, max_pos),
            shape.tokens,
            shape.qd(),
            st.value(self.output),
            optional_value(st, self.output_bias),
            width,
            n,
        )
    }

    /// The hidden state after the layer, from the normalized input `n`.
    pub open spec fn hidden(
        self,
        st: DeviceState,
        n: Seq<SymByte>,
        vals: ActionValues,
        shape: AttentionShape,
        width: i64,
        eps: u32,
        max_pos: usize,
    ) -> Seq<SymByte> {
        self.feed_forward(
            st,
            self.residual(st, n, vals, shape, width, max_pos),
            vals.mlp_style,
            shape.tokens,
            width,
            eps,
        )
    }

    /// The hidden state normalized for the next layer, from the normalized input `n`.
    pub open spec fn next(
        self,
        st: DeviceState,
        n: Seq<SymByte>,
        vals: ActionValues,
        shape: AttentionShape,
        width: i64,
        eps: u32,
        max_pos: usize,
    ) -> Seq<SymByte> {
        adaptive_value(
            self.hidden(st, n, vals, shape, width, eps, max_pos),
            vals.next_style,
            shape.tokens,
            width,
            eps,
        )
    }

    /// The weights read the same in a later state.
    pub proof fn lemma_body_same(
        self,
        before: DeviceState,
        after: DeviceState,
        shape: AttentionShape,
        width: i64,
    )
        requires
            before.sane(),
            keeps(before, after),
            self.body_ready(before, shape, width),
            forall|b: DeviceBuffer| before.holds(b) && is_lasting(b) ==> #[trigger] after.holds(b),
            forall|b: DeviceBuffer|
                before.holds(b) && is_lasting(b) ==> #[trigger] after.value(b) == before.value(b),
        ensures
            self.body_ready(after, shape, width),
            after.value(self.qkv) == before.value(self.qkv),
            optional_value(after, self.qkv_bias) == optional_value(before, self.qkv_bias),
            after.value(self.output) == before.value(self.output),
            optional_value(after, self.output_bias) == optional_value(before, self.output_bias),
            after.value(self.gate_up) == before.value(self.gate_up),
            after.value(self.down) == before.value(self.down),
            optional_value(after, self.down_bias) == optional_value(before, self.down_bias),
    {
        lemma_settled(before, after);
    }

    /// The weights, styles and prefix read the same in a later state.
    pub proof fn lemma_weights_same(
        self,
        before: DeviceState,
        after: DeviceState,
        ops: ActionOperands,
        shape: AttentionShape,
        width: i64,
    )
        requires
            before.sane(),
            keeps(before, after),
            self.weights_ready(before, ops, shape, width),
            forall|b: DeviceBuffer| before.holds(b) && is_lasting(b) ==> #[trigger] after.holds(b),
            forall|b: DeviceBuffer|
                before.holds(b) && is_lasting(b) ==> #[trigger] after.value(b) == before.value(b),
        ensures
            self.weights_ready(after, ops, shape, width),
            after.value(self.qkv) == before.value(self.qkv),
            optional_value(after, self.qkv_bias) == optional_value(before, self.qkv_bias),
            after.value(ops.prefix_k) == before.value(ops.prefix_k),
            after.value(ops.prefix_v) == before.value(ops.prefix_v),
            after.value(self.output) == before.value(self.output),
            optional_value(after, self.output_bias) == optional_value(before, self.output_bias),
            after.value(self.gate_up) == before.value(self.gate_up),
            after.value(self.down) == before.value(self.down),
            optional_value(after, self.down_bias) == optional_value(before, self.down_bias),
            after.value(ops.mlp_style) == before.value(ops.mlp_style),
            after.value(ops.next_style) == before.value(ops.next_style),
            ops.values(after, shape.kv_d()) == ops.values(before, shape.kv_d()),
    {
        lemma_settled(before, after);
    }

    /// The operands read the same in a later state.
    pub proof fn lemma_same(
        self,
        before: DeviceState,
        after: DeviceState,
        x: DeviceBuffer,
        ops: ActionOperands,
        shape: AttentionShape,
        width: i64,
    )
        requires
            before.sane(),
            keeps(before, after),
            self.ready(before, x, ops, shape, width),
            forall|b: DeviceBuffer| before.holds(b) && is_lasting(b) ==> #[trigger] after.holds(b),
            forall|b: DeviceBuffer|
                before.holds(b) && is_lasting(b) ==> #[trigger] after.value(b) == before.value(b),
        ensures
            self.ready(after, x, ops, shape, width),
            after.value(x) == before.value(x),
            after.value(self.qkv) == before.value(self.qkv),
            optional_value(after, self.qkv_bias) == optional_value(before, self.qkv_bias),
            after.value(ops.prefix_k) == before.value(ops.prefix_k),
            after.value(ops.prefix_v) == before.value(ops.prefix_v),
            after.value(self.output) == before.value(self.output),
            optional_value(after, self.output_bias) == optional_value(before, self.output_bias),
            after.value(self.gate_up) == before.value(self.gate_up),
            after.value(self.down) == before.value(self.down),
            optional_value(after, self.down_bias) == optional_value(before, self.down_bias),
            after.value(ops.mlp_style) == before.value(ops.mlp_style),
            after.value(ops.next_style) == before.value(ops.next_style),
            match ops.start {
                Start::Normalized(b) => after.value(b) == before.value(b),
                Start::Style(b) => after.value(b) == before.value(b),
            },
    {
        lemma_settled(before, after);
    }
}

/// Norm, gated block and residual on top of `res`, and the norm of the next layer.
/// Returns the hidden state and its norm.
fn action_rest(
    be: &mut AscendBackend,
    caches: &mut AscendCaches,
    res: &DeviceBuffer,
    w: ActionBuffers,
    mlp_style: &DeviceBuffer,
    next_style: &DeviceBuffer,
    tokens: i64,
    qd: i64,
    width: i64,
    eps: u32,
) -> (out: (DeviceBuffer, DeviceBuffer))
    requires
        old(be).wf(),
        old(caches).wf(old(be).state()),
        w.rest_ready(old(be).state(), tokens, qd, width),
        is_rows(old(be).state(), *res, tokens, width),
        is_style(old(be).state(), *mlp_style, width),
        is_style(old(be).state(), *next_style, width),
    ensures
        final(be).wf(),
        final(be).spec_device() == old(be).spec_device(),
        caches_kept(*old(caches), *final(caches), final(be).state()),
        final(caches).rope == old(caches).rope,
        out.0.len == tokens * width * 2,
        out.1.len == tokens * width * 2,
        ({
            let st = old(be).state();
            let hv = w.feed_forward(
                st,
                st.value(*res),
                st.value(*mlp_style),
                tokens,
                width,
                eps,
            );
            owns(
                st,
                final(be).state(),
                seq![
                    (out.0, hv),
                    (out.1, adaptive_value(hv, st.value(*next_style), tokens, width, eps)),
                ],
            )
        }),
{
    let ghost s0 = be.state();
    let ghost rv = s0.value(*res);
    proof {
        be.ctx.lemma_safe();
        lemma_aligned(tokens, width);
        lemma_fits_smaller(aligned_rows(tokens), width, tokens, width);
        lemma_fits(tokens, width);
    }
    let inter: i64 = (w.gate_up.len / 2) as i64 / (width * 2);
    assert(inter == gated_width(w.gate_up, width));
    let normed = adaptive_rms(be, caches, res, mlp_style, tokens, width, eps);
    let ghost s1 = be.state();
    let ghost nv = adaptive_value(rv, s0.value(*mlp_style), tokens, width, eps);
    proof {
        be.ctx.lemma_safe();
        lemma_delivers(s0, s1, normed, nv);
        lemma_settled(s0, s1);
        assert(s1.value(w.gate_up) == s0.value(w.gate_up));
        assert(s1.value(w.down) == s0.value(w.down));
        assert(optional_value(s1, w.down_bias) == optional_value(s0, w.down_bias));
        assert(s1.value(*res) == rv);
        assert(s1.value(*next_style) == s0.value(*next_style));
    }
    let mlp = geglu(
        &mut be.ctx,
        caches,
        &normed,
        tokens,
        width,
        &w.gate_up,
        inter,
        &w.down,
        w.down_bias,
    );
    let ghost s2 = be.state();
    let ghost k2 = *caches;
    let ghost mv = geglu_value(
        nv,
        tokens,
        width,
        s0.value(w.gate_up),
        inter,
        s0.value(w.down),
        optional_value(s0, w.down_bias),
    );
    proof {
        be.ctx.lemma_safe();
        lemma_yields(s1, s2, mlp, mv);
    }
    let shape: Vec<i64> = vec![tokens, width];
    assert(shape@ =~= seq![tokens, width]);
    let hidden = add_fp16(&mut be.ctx, &mlp, res, &shape);
    let ghost s3 = be.state();
    let ghost hv = add_value(mv, rv, seq![tokens, width]);
    proof {
        be.ctx.lemma_safe();
        lemma_gains(s2, s3, hidden, hv);
        lemma_delivers_stable(s2, s3, hidden, hv);
        k2.lemma_stable(s2, s3);
        assert(s3.value(*next_style) == s0.value(*next_style));
    }
    let next = adaptive_rms(be, caches, &hidden, next_style, tokens, width, eps);
    let ghost s4 = be.state();
    let ghost k4 = *caches;
    let ghost xv = adaptive_value(hv, s0.value(*next_style), tokens, width, eps);
    proof {
        be.ctx.lemma_safe();
        lemma_owns_one(s0, s1, normed, nv);
        lemma_owns_one(s1, s2, mlp, mv);
        lemma_owns_one(s2, s3, hidden, hv);
        lemma_owns_one(s3, s4, next, xv);
        lemma_owns_then(s0, s1, s2, seq![(normed, nv)], seq![(mlp, mv)]);
        lemma_owns_then(s0, s2, s3, seq![(normed, nv)] + seq![(mlp, mv)], seq![(hidden, hv)]);
        lemma_owns_then(
            s0,
            s3,
            s4,
            seq![(normed, nv)] + seq![(mlp, mv)] + seq![(hidden, hv)],
            seq![(next, xv)],
        );
        let items = seq![(normed, nv)] + seq![(mlp, mv)] + seq![(hidden, hv)] + seq![(next, xv)];
        assert(items =~= seq![(normed, nv), (mlp, mv), (hidden, hv), (next, xv)]);
        assert(is_item(items[0], s4.fresh, s0.issued, s4.issued));
        assert(is_item(items[1], s4.fresh, s0.issued, s4.issued));
        assert(item_id(items[0]) != item_id(items[1]));
    }
    drop_temp(&mut be.ctx, mlp, Ghost(s0));
    let ghost s5 = be.state();
    drop_temp(&mut be.ctx, normed, Ghost(s0));
    proof {
        let items = seq![(normed, nv), (mlp, mv), (hidden, hv), (next, xv)];
        lemma_owns_drop(s0, s4, s5, items, 1);
        assert(items.remove(1) =~= seq![(normed, nv), (hidden, hv), (next, xv)]);
        let rest = seq![(normed, nv), (hidden, hv), (next, xv)];
        lemma_owns_drop(s0, s5, be.state(), rest, 0);
        assert(rest.remove(0) =~= seq![(hidden, hv), (next, xv)]);
        lemma_dropped_stable(s4, s5, mlp);
        lemma_dropped_stable(s5, be.state(), normed);
        lemma_stable_then(s4, s5, be.state());
        k4.lemma_stable(s4, be.state());
    }
    (hidden, next)
}

/// What the attention of an action layer starts from.
fn start_rows(
    be: &mut AscendBackend,
    caches: &mut AscendCaches,
    x: &DeviceBuffer,
    ops: ActionOperands,
    tokens: i64,
    width: i64,
    eps: u32,
) -> (n: DeviceBuffer)
    requires
        old(be).wf(),
        old(caches).wf(old(be).state()),
        fits(tokens, width),
        is_rows(old(be).state(), *x, tokens, width),
        ops.start_ready(old(be).state(), tokens, width),
    ensures
        final(be).wf(),
        final(be).spec_device() == old(be).spec_device(),
        caches_kept(*old(caches), *final(caches), final(be).state()),
        final(caches).rope == old(caches).rope,
        n.len == tokens * width * 2,
        delivers(
            old(be).state(),
            final(be).state(),
            n,
            ops.normalized(old(be).state(), old(be).state().value(*x), tokens, width, eps),
        ),
{
    proof {
        be.ctx.lemma_safe();
        lemma_fits(tokens, width);
    }
    match ops.start {
        Start::Normalized(b) => {
            let ghost s0 = be.state();
            let ghost k0 = *caches;
            let n = take_rows_fp16(&mut be.ctx, &b, 0, tokens, width);
            proof {
                lemma_delivers_stable(
                    s0,
                    be.state(),
                    n,
                    rows_value(s0.value(b), 0, tokens, width),
                );
                k0.lemma_stable(s0, be.state());
            }
            n
        },
        Start::Style(b) => adaptive_rms(be, caches, x, &b, tokens, width, eps),
    }
}

/// Norm, attention, output projection and residual.
fn action_residual(
    be: &mut AscendBackend,
    caches: &mut AscendCaches,
    x: &DeviceBuffer,
    w: ActionBuffers,
    ops: ActionOperands,
    shape: AttentionShape,
    width: i64,
    eps: u32,
) -> (res: DeviceBuffer)
    requires
        old(be).wf(),
        old(caches).wf(old(be).state()),
        w.ready(old(be).state(), *x, ops, shape, width),
    ensures
        final(be).wf(),
        final(be).spec_device() == old(be).spec_device(),
        caches_kept(*old(caches), *final(caches), final(be).state()),
        shape.table_span(*final(caches)) == shape.table_span(*old(caches)),
        res.len == shape.tokens * width * 2,
        delivers(
            old(be).state(),
            final(be).state(),
            res,
            w.residual(
                old(be).state(),
                ops.normalized(
                    old(be).state(),
                    old(be).state().value(*x),
                    shape.tokens,
                    width,
                    eps,
                ),
                ops.values(old(be).state(), shape.kv_d()),
                shape,
                width,
                shape.table_span(*old(caches)),
            ),
        ),
{
    let ghost s0 = be.state();
    let ghost xv = s0.value(*x);
    let ghost mp = shape.table_span(*caches);
    let tokens: i64 = shape.tokens;
    proof {
        be.ctx.lemma_safe();
        lemma_attention_sizes(shape);
        lemma_aligned(tokens, width);
        lemma_fits_smaller(aligned_rows(tokens), width, tokens, width);
        lemma_fits(tokens, width);
    }
    let qd: i64 = shape.heads * shape.head_dim;
    let n = start_rows(be, caches, x, ops, tokens, width, eps);
    let ghost s1 = be.state();
    let ghost nv = ops.normalized(s0, xv, tokens, width, eps);
    proof {
        be.ctx.lemma_safe();
        lemma_delivers(s0, s1, n, nv);
        w.lemma_same(s0, s1, *x, ops, shape, width);
    }
    let attn = cross_attention(
        &mut be.ctx,
        caches,
        &n,
        width,
        &w.qkv,
        w.qkv_bias,
        &ops.prefix_k,
        &ops.prefix_v,
        shape,
    );
    let ghost s2 = be.state();
    let ghost vals = ops.values(s0, shape.kv_d());
    let ghost av = w.attention(s0, nv, vals, shape, mp);
    proof {
        be.ctx.lemma_safe();
        lemma_yields(s1, s2, attn, av);
        w.lemma_same(s1, s2, *x, ops, shape, width);
    }
    let res = output_residual(
        &mut be.ctx,
        caches,
        &attn,
        tokens,
        qd,
        &w.output,
        w.output_bias,
        width,
        &n,
    );
    let ghost s3 = be.state();
    let ghost k3 = *caches;
    drop_temp(&mut be.ctx, attn, Ghost(s0));
    drop_temp(&mut be.ctx, n, Ghost(s0));
    proof {
        let end = be.state();
        match res.base {
            Base::Fresh(id) => {
                assert(end.fresh =~= s0.fresh.insert(
                    id,
                    w.residual(s0, nv, vals, shape, width, mp),
                ));
            },
            _ => {},
        }
        assert(stable(s3, end));
        k3.lemma_stable(s3, end);
    }
    res
}

/// An action layer on buffers. Returns the hidden state and the rows that it
/// normalized for the next layer.
pub fn action_layer(
    be: &mut AscendBackend,
    caches: &mut AscendCaches,
    x: &DeviceBuffer,
    w: ActionBuffers,
    ops: ActionOperands,
    shape: AttentionShape,
    width: i64,
    eps: u32,
) -> (out: (DeviceBuffer, DeviceBuffer))
    requires
        old(be).wf(),
        old(caches).wf(old(be).state()),
        w.ready(old(be).state(), *x, ops, shape, width),
    ensures
        final(be).wf(),
        final(be).spec_device() == old(be).spec_device(),
        caches_kept(*old(caches), *final(caches), final(be).state()),
        shape.table_span(*final(caches)) == shape.table_span(*old(caches)),
        out.0.len == x.len,
        out.1.len == x.len,
        ({
            let st = old(be).state();
            let n = ops.normalized(st, st.value(*x), shape.tokens, width, eps);
            let mp = shape.table_span(*old(caches));
            let vals = ops.values(st, shape.kv_d());
            owns(
                st,
                final(be).state(),
                seq![
                    (out.0, w.hidden(st, n, vals, shape, width, eps, mp)),
                    (out.1, w.next(st, n, vals, shape, width, eps, mp)),
                ],
            )
        }),
{
    let ghost s0 = be.state();
    let ghost mp = shape.table_span(*caches);
    let ghost nv = ops.normalized(s0, s0.value(*x), shape.tokens, width, eps);
    let ghost vals = ops.values(s0, shape.kv_d());
    let ghost rv = w.residual(s0, nv, vals, shape, width, mp);
    proof {
        be.ctx.lemma_safe();
        lemma_attention_sizes(shape);
    }
    let qd: i64 = shape.heads * shape.head_dim;
    let res = action_residual(be, caches, x, w, ops, shape, width, eps);
    let ghost s1 = be.state();
    proof {
        be.ctx.lemma_safe();
        lemma_delivers(s0, s1, res, rv);
        w.lemma_same(s0, s1, *x, ops, shape, width);
    }
    let (hidden, next) = action_rest(
        be,
        caches,
        &res,
        w,
        &ops.mlp_style,
        &ops.next_style,
        shape.tokens,
        qd,
        width,
        eps,
    );
    let ghost s2 = be.state();
    let ghost k2 = *caches;
    let ghost hv = w.hidden(s0, nv, vals, shape, width, eps, mp);
    let ghost xn = w.next(s0, nv, vals, shape, width, eps, mp);
    let ghost items = seq![(res, rv), (hidden, hv), (next, xn)];
    proof {
        assert(hv == w.feed_forward(s1, rv, vals.mlp_style, shape.tokens, width, eps));
        lemma_owns_one(s0, s1, res, rv);
        lemma_owns_then(s0, s1, s2, seq![(res, rv)], seq![(hidden, hv), (next, xn)]);
        assert(seq![(res, rv)] + seq![(hidden, hv), (next, xn)] =~= items);
        assert(is_item(items[0], s2.fresh, s0.issued, s2.issued));
    }
    drop_temp(&mut be.ctx, res, Ghost(s0));
    proof {
        let end = be.state();
        lemma_owns_drop(s0, s2, end, items, 0);
        assert(items.remove(0) =~= seq![(hidden, hv), (next, xn)]);
        assert(stable(s2, end));
        k2.lemma_stable(s2, end);
    }
    (hidden, next)
}

/// What is wrong with what the attention of an action layer starts from.
pub open spec fn start_error(normalized: Option<Tensor>, style: Tensor) -> Option<ErrorView> {
    match normalized {
        Some(t) => t@.residency_error(),
        None => style@.residency_error(),
    }
}

/// What the attention of an action layer starts from.
pub open spec fn start_buffer(normalized: Option<Tensor>, style: Tensor) -> Start {
    match normalized {
        Some(t) => Start::Normalized(t@.on_device()),
        None => Start::Style(style@.on_device()),
    }
}

/// Find what the attention of an action layer starts from.
fn resolve_start(normalized: Option<&Tensor>, style: &Tensor) -> (r: Result<Start, Error>)
    ensures
        ({
            let n = match normalized {
                Some(t) => Some(*t),
                None => None,
            };
            match r {
                Ok(s) => start_error(n, *style) is None && s == start_buffer(n, *style),
                Err(e) => start_error(n, *style) == Some(e@),
            }
        }),
{
    match normalized {
        Some(t) => Ok(Start::Normalized(tensor_buf(t)?)),
        None => Ok(Start::Style(tensor_buf(style)?)),
    }
}

/// The buffers behind the weights of an action layer.
pub open spec fn action_buffers(w: Bf16DeviceActionLayer) -> ActionBuffers {
    ActionBuffers {
        qkv: w.qkv.weight@.on_device(),
        qkv_bias: optional_buffer(w.qkv.bias),
        output: w.output.weight@.on_device(),
        output_bias: optional_buffer(w.output.bias),
        gate_up: w.gate_up.weight@.on_device(),
        down: w.down.weight@.on_device(),
        down_bias: optional_buffer(w.down.bias),
    }
}

/// The tensors that an action layer works on besides its weights and its input.
#[derive(Debug)]
pub struct ActionTensors<'a> {
    /// The input normalized by the layer before, where there is one.
    pub attention_normalized: Option<&'a Tensor>,
    pub attention_style: &'a Tensor,
    pub mlp_style: &'a Tensor,
    pub next_norm_style: &'a Tensor,
    pub prefix_k: &'a Tensor,
    pub prefix_v: &'a Tensor,
}

impl<'a> ActionTensors<'a> {
    pub open spec fn normalized_input(self) -> Option<Tensor> {
        match self.attention_normalized {
            Some(t) => Some(*t),
            None => None,
        }
    }

    pub open spec fn operands(self) -> ActionOperands {
        ActionOperands {
            start: start_buffer(self.normalized_input(), *self.attention_style),
            mlp_style: self.mlp_style@.on_device(),
            next_style: self.next_norm_style@.on_device(),
            prefix_k: self.prefix_k@.on_device(),
            prefix_v: self.prefix_v@.on_device(),
        }
    }
}

/// What is wrong with the tensors of an action layer, apart from its input.
pub open spec fn action_error(w: Bf16DeviceActionLayer, t: ActionTensors) -> Option<ErrorView> {
    first_error(
        start_error(t.normalized_input(), *t.attention_style),
        first_error(
            linear_error(w.qkv),
            first_error(
                t.prefix_k@.residency_error(),
                first_error(
                    t.prefix_v@.residency_error(),
                    first_error(
                        linear_error(w.output),
                        first_error(
                            t.mlp_style@.residency_error(),
                            first_error(
                                w.gate_up.weight@.residency_error(),
                                first_error(
                                    linear_error(w.down),
                                    t.next_norm_style@.residency_error(),
                                ),
                            ),
                        ),
                    ),
                ),
            ),
        ),
    )
}

/// Find the buffers of an action layer.
pub fn resolve_action(w: &Bf16DeviceActionLayer, t: &ActionTensors) -> (r: Result<
    (ActionBuffers, ActionOperands),
    Error,
>)
    ensures
        match r {
            Ok(b) => action_error(*w, *t) is None && b == (action_buffers(*w), t.operands()),
            Err(e) => action_error(*w, *t) == Some(e@),
        },
{
    let start = resolve_start(t.attention_normalized, t.attention_style)?;
    let (qkv, qkv_bias) = linear_buffers(&w.qkv)?;
    let prefix_k = tensor_buf(t.prefix_k)?;
    let prefix_v = tensor_buf(t.prefix_v)?;
    let (output, output_bias) = linear_buffers(&w.output)?;
    let mlp_style = tensor_buf(t.mlp_style)?;
    let gate_up = tensor_buf(&w.gate_up.weight)?;
    let (down, down_bias) = linear_buffers(&w.down)?;
    let next_style = tensor_buf(t.next_norm_style)?;
    Ok(
        (
            ActionBuffers { qkv, qkv_bias, output, output_bias, gate_up, down, down_bias },
            ActionOperands { start, mlp_style, next_style, prefix_k, prefix_v },
        ),
    )
}

/// The result of [`action_layer_ascend`].
#[derive(Debug)]
pub struct ActionLayerOutput {
    pub hidden: Tensor,
    pub next_normalized: Tensor,
}

/// A layer of the action expert: attention over the language prefix and this chunk,
/// and a gated block, each after a norm with a style. Errors are found before
/// anything is recorded.
pub fn action_layer_ascend(
    be: &mut AscendBackend,
    caches: &mut AscendCaches,
    config: GemmaVariantConfig,
    weights: &Bf16DeviceActionLayer,
    input: &Tensor,
    attention_normalized: Option<&Tensor>,
    attention_style: &Tensor,
    mlp_style: &Tensor,
    next_norm_style: &Tensor,
    prefix_k: &Tensor,
    prefix_v: &Tensor,
    position_offset: usize,
    rms_eps: u32,
    rope_theta: u32,
) -> (r: Result<ActionLayerOutput, Error>)
    requires
        old(be).wf(),
        old(caches).wf(old(be).state()),
        input@.dims.len() >= 2,
        dims_fit(input@.dims),
        config_fits(config),
        ({
            let tensors = (ActionTensors {
                attention_normalized,
                attention_style,
                mlp_style,
                next_norm_style,
                prefix_k,
                prefix_v,
            });
            first_error(input@.residency_error(), action_error(*weights, tensors)) is None
                ==> action_buffers(*weights).ready(
                old(be).state(),
                input@.on_device(),
                tensors.operands(),
                attention_shape(config, input@.dims[0], position_offset, rope_theta),
                input@.dims[1] as i64,
            )
        }),
    ensures
        ({
            let tensors = (ActionTensors {
                attention_normalized,
                attention_style,
                mlp_style,
                next_norm_style,
                prefix_k,
                prefix_v,
            });
            let error = first_error(input@.residency_error(), action_error(*weights, tensors));
            let st = old(be).state();
            let w = action_buffers(*weights);
            let ops = tensors.operands();
            let shape = attention_shape(config, input@.dims[0], position_offset, rope_theta);
            let vals = ops.values(st, shape.kv_d());
            let width = input@.dims[1] as i64;
            let xn = ops.normalized(st, held(st, input@), shape.tokens, width, rms_eps);
            let mp = shape.table_span(*old(caches));
            let device = old(be).spec_device();
            let dims = seq![input@.dims[0], input@.dims[1]];
            match r {
                Err(e) => {
                    &&& error == Some(e@)
                    &&& *final(be) == *old(be)
                    &&& *final(caches) == *old(caches)
                },
                Ok(out) => {
                    let h = out.hidden@.on_device();
                    let n = out.next_normalized@.on_device();
                    &&& error is None
                    &&& final(be).wf()
                    &&& final(be).spec_device() == device
                    &&& caches_kept(*old(caches), *final(caches), final(be).state())
                    &&& out.hidden@ == wrapped(device, h, dims)
                    &&& out.next_normalized@ == wrapped(device, n, dims)
                    &&& owns(
                        st,
                        final(be).state(),
                        seq![
                            (h, w.hidden(st, xn, vals, shape, width, rms_eps, mp)),
                            (n, w.next(st, xn, vals, shape, width, rms_eps, mp)),
                        ],
                    )
                    &&& ({
                        let size = shape.tokens * width;
                        let projected = linear_bias_value(
                            w.attention(st, xn, vals, shape, mp),
                            shape.tokens,
                            shape.qd(),
                            held(st, weights.output.weight@),
                            bias_on(st, weights.output),
                            width,
                        );
                        let residual = words(
                            size,
                            |e: int| plus_word(word(projected, e), word(xn, e)),
                        );
                        let block = geglu_value(
                            adaptive_value(
                                residual,
                                held(st, mlp_style@),
                                shape.tokens,
                                width,
                                rms_eps,
                            ),
                            shape.tokens,
                            width,
                            held(st, weights.gate_up.weight@),
                            gated_width(weights.gate_up.weight@.on_device(), width),
                            held(st, weights.down.weight@),
                            bias_on(st, weights.down),
                        );
                        let hidden = held(final(be).state(), out.hidden@);
                        &&& adds_up(hidden, block, projected, xn, size)
                        &&& held(final(be).state(), out.next_normalized@) == adaptive_value(
                            hidden,
                            held(st, next_norm_style@),
                            shape.tokens,
                            width,
                            rms_eps,
                        )
                    })
                },
            }
        }),
{
    let x = tensor_buf(input)?;
    let tensors = ActionTensors {
        attention_normalized,
        attention_style,
        mlp_style,
        next_norm_style,
        prefix_k,
        prefix_v,
    };
    let (w, ops) = resolve_action(weights, &tensors)?;
    let shape = AttentionShape {
        tokens: input.dims[0] as i64,
        heads: config.num_heads as i64,
        kv_heads: config.num_kv_heads as i64,
        head_dim: config.head_dim as i64,
        offset: position_offset,
        theta: rope_theta,
    };
    let width: i64 = input.dims[1] as i64;
    let ghost st = be.state();
    let ghost vals = ops.values(st, shape.kv_d());
    let ghost xn = ops.normalized(st, st.value(x), shape.tokens, width, rms_eps);
    let ghost mp = shape.table_span(*caches);
    proof {
        be.ctx.lemma_safe();
    }
    let (h, n) = action_layer(be, caches, &x, w, ops, shape, width, rms_eps);
    proof {
        lemma_action_stream(st, *weights, xn, vals, shape, width, rms_eps, mp);
        let items = seq![
            (h, w.hidden(st, xn, vals, shape, width, rms_eps, mp)),
            (n, w.next(st, xn, vals, shape, width, rms_eps, mp)),
        ];
        lemma_owns(st, be.state(), items);
        assert(items[0].0 == h && items[1].0 == n);
    }
    let hidden_dims: Vec<usize> = vec![input.dims[0], input.dims[1]];
    let next_dims: Vec<usize> = vec![input.dims[0], input.dims[1]];
    assert(hidden_dims@ =~= seq![input@.dims[0], input@.dims[1]]);
    assert(next_dims@ =~= seq![input@.dims[0], input@.dims[1]]);
    let hidden = be.wrap_fp16(h, hidden_dims);
    let next_normalized = be.wrap_fp16(n, next_dims);
    Ok(ActionLayerOutput { hidden, next_normalized })
}

/// What [`euler_mul`] computes: `state + dt * velocity`.
pub open spec fn euler_mul_value(
    state: Seq<SymByte>,
    velocity: Seq<SymByte>,
    dt: u32,
    rows: i64,
    cols: i64,
) -> Seq<SymByte> {
    add_value(state, muls_value(velocity, dt, seq![rows, cols]), seq![rows, cols])
}

/// One explicit step of the flow: `state + dt * velocity`. The step size is a
/// single-precision pattern.
pub fn euler_mul(
    ctx: &mut AscendContext,
    state: &DeviceBuffer,
    velocity: &DeviceBuffer,
    dt: u32,
    rows: i64,
    cols: i64,
) -> (out: DeviceBuffer)
    requires
        old(ctx).wf(),
        is_fp16(old(ctx).state(), *state, seq![rows, cols]),
        is_fp16(old(ctx).state(), *velocity, seq![rows, cols]),
    ensures
        final(ctx).continues(old(ctx)),
        quiet(*old(ctx), *final(ctx)),
        out.len == rows * cols * 2,
        gains(
            old(ctx).state(),
            final(ctx).state(),
            out,
            euler_mul_value(
                old(ctx).state().value(*state),
                old(ctx).state().value(*velocity),
                dt,
                rows,
                cols,
            ),
        ),
{
    let ghost c0 = *ctx;
    let ghost s0 = ctx.state();
    proof {
        ctx.lemma_safe();
        lemma_fits(rows, cols);
    }
    let shape: Vec<i64> = vec![rows, cols];
    assert(shape@ =~= seq![rows, cols]);
    let scaled = muls_fp16(ctx, velocity, dt, &shape);
    let ghost c1 = *ctx;
    let ghost s1 = ctx.state();
    let ghost mv = muls_value(s0.value(*velocity), dt, seq![rows, cols]);
    proof {
        ctx.lemma_safe();
        lemma_gains(s0, s1, scaled, mv);
    }
    let out = add_fp16(ctx, state, &scaled, &shape);
    let ghost c2 = *ctx;
    drop_temp(ctx, scaled, Ghost(s0));
    proof {
        match out.base {
            Base::Fresh(id) => {
                assert(ctx.state().fresh =~= s0.fresh.insert(
                    id,
                    add_value(s0.value(*state), mv, seq![rows, cols]),
                ));
            },
            _ => {},
        }
        lemma_quiet_then(c0, c1, c2);
        lemma_quiet_then(c0, c2, *ctx);
    }
    out
}

} // verus!
