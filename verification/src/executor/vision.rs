//! Layers of the vision tower.

use vstd::prelude::*;

use crate::backend::{dims_fit, held, produced, AscendBackend};
use crate::cache::{lemma_delivers_stable, lemma_only_kept, stable, RowKey};
use crate::capture::{lemma_quiet_then, quiet};
use crate::device::{Base, DeviceBuffer, Real};
use crate::error::{first_error, Error, ErrorView};
use crate::executor::blocks::{
    linear_bias, linear_bias_value, linear_ready, output_residual, residual_value,
};
use crate::executor::caches::{caches_kept, weight_warm, AscendCaches};
use crate::executor::frame::{drop_temp, lemma_delivers_three, lemma_settled};
use crate::executor::layers::{adds_up, bias_on, lemma_vision_stream};
use crate::executor::linear::{
    is_bias, is_fused_bias, is_weight, k_value, optional_value, project_qkv, q_value, qkv_warm,
    v_value,
};
use crate::model::{
    linear_buffers, linear_error, optional_buffer, tensor_buf, Bf16DeviceVisionBlock,
    Bf16LinearWeights, Tensor,
};
use crate::ops::attention::{
    batch_attention_value, prompt_flash_attention_bsh_batch_fp16, row_width,
};
use crate::ops::elementwise::{add_fp16, add_value, gelu_fp16, gelu_value};
use crate::ops::is_fp16;
use crate::ops::laws::word;
use crate::ops::matmul::{aligned_rows, lemma_aligned};
use crate::ops::norm::{is_row, layer_norm_value};
use crate::ops::rows::{gather_rows_fp16, gather_value};
use crate::ops::words::{plus_word, words};
use crate::semantics::{
    delivers, elements, filled, is_lasting, keeps, lemma_delivers, lemma_gains, lemma_yields,
    DeviceState, SymByte,
};
use crate::tensor::{fits, lemma_fits, lemma_fits_smaller, lemma_three_dims, lemma_two_dims, shape_fits};

verus! {

/// Sizes of a vision layer.
#[derive(Debug, Clone, Copy, PartialEq, Eq, Structural)]
pub struct VisionShape {
    pub tokens: i64,
    pub width: i64,
    /// Tokens of one view; attention stays within a view.
    pub per_view: i64,
    pub heads: i64,
    pub head_dim: i64,
    /// A single-precision pattern.
    pub eps: u32,
}

impl VisionShape {
    pub open spec fn qd(self) -> i64 {
        row_width(self.heads, self.head_dim)
    }

    pub open spec fn views(self) -> i64 {
        (self.tokens as int / self.per_view as int) as i64
    }

    /// The layer has tokens, heads and whole views, and everything it makes can be
    /// described.
    pub open spec fn fits(self) -> bool {
        &&& 0 < self.tokens <= i64::MAX - 16
        &&& 0 < self.width
        &&& 0 < self.per_view
        &&& self.views() * self.per_view == self.tokens
        &&& 0 < self.heads
        &&& 0 < self.head_dim
        &&& self.heads * self.head_dim * 3 <= i64::MAX
        &&& fits(aligned_rows(self.tokens), self.width)
        &&& fits(aligned_rows(self.tokens), (self.qd() * 3) as i64)
    }
}

/// A tensor of whole views can be described view by view.
proof fn lemma_windows(views: i64, length: i64, tokens: i64, cols: i64)
    requires
        fits(tokens, cols),
        0 < length,
        0 < tokens,
        views * length == tokens,
    ensures
        shape_fits(seq![views, length, cols]),
        elements(seq![views, length, cols]) == tokens * cols,
{
    lemma_three_dims(views, length, cols);
    lemma_two_dims(tokens, cols);
    let t = seq![tokens, cols];
    assert(t[0] >= 0 && t[1] >= 0);
    assert(views > 0) by (nonlinear_arith)
        requires
            views * length == tokens,
            0 < length,
            0 < tokens,
    ;
    assert(views * (length * cols) == tokens * cols) by (nonlinear_arith)
        requires
            views * length == tokens,
    ;
    let c = crate::tensor::at_least_one(cols);
    assert(views * (length * c) == tokens * c) by (nonlinear_arith)
        requires
            views * length == tokens,
    ;
    let s = seq![views, length, cols];
    assert forall|i: int| 0 <= i < s.len() implies #[trigger] s[i] >= 0 by {}
}

/// The buffers of a vision layer.
#[derive(Debug, Clone, Copy)]
pub struct VisionBuffers {
    pub norm1: DeviceBuffer,
    pub norm1_bias: DeviceBuffer,
    pub qkv: DeviceBuffer,
    pub qkv_bias: Option<DeviceBuffer>,
    pub output: DeviceBuffer,
    pub output_bias: Option<DeviceBuffer>,
    pub norm2: DeviceBuffer,
    pub norm2_bias: DeviceBuffer,
    pub fc1: DeviceBuffer,
    pub fc1_bias: Option<DeviceBuffer>,
    pub fc2: DeviceBuffer,
    pub fc2_bias: Option<DeviceBuffer>,
}

/// Columns of a weight with `width` rows.
pub open spec fn columns(w: DeviceBuffer, width: i64) -> i64 {
    ((w.len / 2) as int / width as int) as i64
}

/// A layer norm of rows.
pub open spec fn norm_value(
    x: Seq<SymByte>,
    gamma: Seq<SymByte>,
    beta: Seq<SymByte>,
    tokens: i64,
    width: i64,
    eps: u32,
) -> Seq<SymByte> {
    layer_norm_value(x, filled(x.len(), 0), gamma, beta, tokens, width, Real::Single(eps))
}

/// A lasting row of `n` words.
pub open spec fn is_lasting_row(st: DeviceState, b: DeviceBuffer, n: i64) -> bool {
    is_row(st, b, n) && is_lasting(b)
}

impl VisionBuffers {
    /// The buffers of the attention half are there.
    pub open spec fn attention_ready(self, st: DeviceState, shape: VisionShape) -> bool {
        &&& is_lasting_row(st, self.norm1, shape.width)
        &&& is_lasting_row(st, self.norm1_bias, shape.width)
        &&& is_weight(st, self.qkv, [shape.width, (shape.qd() * 3) as i64])
        &&& is_fused_bias(st, self.qkv_bias, shape.qd() * 3)
    }

    /// The buffers of the other half are there.
    pub open spec fn rest_ready(self, st: DeviceState, shape: VisionShape) -> bool {
        let inter = columns(self.fc1, shape.width);
        &&& is_weight(st, self.output, [shape.qd(), shape.width])
        &&& is_bias(st, self.output_bias, shape.width)
        &&& is_lasting_row(st, self.norm2, shape.width)
        &&& is_lasting_row(st, self.norm2_bias, shape.width)
        &&& 0 < inter
        &&& fits(aligned_rows(shape.tokens), inter)
        &&& is_weight(st, self.fc1, [shape.width, inter])
        &&& is_bias(st, self.fc1_bias, inter)
        &&& is_weight(st, self.fc2, [inter, shape.width])
        &&& is_bias(st, self.fc2_bias, shape.width)
    }

    /// The buffers are there and have the sizes that the layer needs.
    pub open spec fn ready(self, st: DeviceState, shape: VisionShape) -> bool {
        shape.fits() && self.attention_ready(st, shape) && self.rest_ready(st, shape)
    }

    /// The attention of the layer within each view.
    pub open spec fn attention(
        self,
        st: DeviceState,
        x: Seq<SymByte>,
        shape: VisionShape,
    ) -> Seq<SymByte> {
        let n = norm_value(
            x,
            st.value(self.norm1),
            st.value(self.norm1_bias),
            shape.tokens,
            shape.width,
            shape.eps,
        );
        let w = st.value(self.qkv);
        let b = optional_value(st, self.qkv_bias);
        let qd = shape.qd();
        batch_attention_value(
            q_value(n, shape.tokens, shape.width, w, b, qd, qd),
            k_value(n, shape.tokens, shape.width, w, b, qd, qd),
            v_value(n, shape.tokens, shape.width, w, b, qd, qd),
            shape.views(),
            shape.per_view,
            shape.heads,
            shape.heads,
            shape.head_dim,
            None,
        )
    }

    /// The feed-forward block of the layer, with its residual.
    pub open spec fn feed_forward(
        self,
        st: DeviceState,
        res: Seq<SymByte>,
        shape: VisionShape,
    ) -> Seq<SymByte> {
        let inter = columns(self.fc1, shape.width);
        let n = norm_value(
            res,
            st.value(self.norm2),
            st.value(self.norm2_bias),
            shape.tokens,
            shape.width,
            shape.eps,
        );
        let act = gelu_value(
            linear_bias_value(
                n,
                shape.tokens,
                shape.width,
                st.value(self.fc1),
                optional_value(st, self.fc1_bias),
                inter,
            ),
            seq![shape.tokens, inter],
            false,
        );
        residual_value(
            act,
            shape.tokens,
            inter,
            st.value(self.fc2),
            optional_value(st, self.fc2_bias),
            shape.width,
            res,
        )
    }

    /// What the layer computes.
    pub open spec fn value(
        self,
        st: DeviceState,
        x: Seq<SymByte>,
        shape: VisionShape,
    ) -> Seq<SymByte> {
        let res = residual_value(
            self.attention(st, x, shape),
            shape.tokens,
            shape.qd(),
            st.value(self.output),
            optional_value(st, self.output_bias),
            shape.width,
            x,
        );
        self.feed_forward(st, res, shape)
    }

    /// Everything that the layer looks up is there already.
    pub open spec fn warm(
        self,
        be: AscendBackend,
        caches: AscendCaches,
        shape: VisionShape,
    ) -> bool {
        &&& be.zeros_ready((shape.tokens * shape.width * 2) as usize)
        &&& qkv_warm(caches, self.qkv, self.qkv_bias, shape.qd(), shape.qd())
        &&& weight_warm(caches, self.output, shape.width)
        &&& weight_warm(caches, self.fc1, columns(self.fc1, shape.width))
        &&& weight_warm(caches, self.fc2, shape.width)
    }

    /// The operands read the same in a later state.
    pub proof fn lemma_same(self, before: DeviceState, after: DeviceState, shape: VisionShape)
        requires
            before.sane(),
            keeps(before, after),
            self.ready(before, shape),
            forall|b: DeviceBuffer| before.holds(b) && is_lasting(b) ==> #[trigger] after.holds(b),
            forall|b: DeviceBuffer|
                before.holds(b) && is_lasting(b) ==> #[trigger] after.value(b) == before.value(b),
        ensures
            self.ready(after, shape),
            forall|x: Seq<SymByte>| #[trigger]
                self.attention(after, x, shape) == self.attention(before, x, shape),
            forall|x: Seq<SymByte>| #[trigger]
                self.feed_forward(after, x, shape) == self.feed_forward(before, x, shape),
            forall|x: Seq<SymByte>| #[trigger]
                self.value(after, x, shape) == self.value(before, x, shape),
            after.value(self.output) == before.value(self.output),
            optional_value(after, self.output_bias) == optional_value(before, self.output_bias),
    {
        lemma_settled(before, after);
        assert(after.value(self.norm1) == before.value(self.norm1));
        assert(after.value(self.norm1_bias) == before.value(self.norm1_bias));
        assert(after.value(self.norm2) == before.value(self.norm2));
        assert(after.value(self.norm2_bias) == before.value(self.norm2_bias));
        assert(optional_value(after, self.qkv_bias) == optional_value(before, self.qkv_bias));
        assert(optional_value(after, self.fc1_bias) == optional_value(before, self.fc1_bias));
        assert(optional_value(after, self.fc2_bias) == optional_value(before, self.fc2_bias));
    }
}

/// A layer that was warm stays so while the zero buffer keeps its size.
pub proof fn lemma_vision_warm(
    w: VisionBuffers,
    before: AscendCaches,
    after: AscendCaches,
    be: AscendBackend,
    shape: VisionShape,
)
    requires
        after.includes(before),
        be.zeros_ready((shape.tokens * shape.width * 2) as usize),
        qkv_warm(before, w.qkv, w.qkv_bias, shape.qd(), shape.qd()),
        weight_warm(before, w.output, shape.width),
        weight_warm(before, w.fc1, columns(w.fc1, shape.width)),
        weight_warm(before, w.fc2, shape.width),
    ensures
        w.warm(be, after, shape),
{
}

/// Norm, projection and attention within each view.
fn vision_attention(
    be: &mut AscendBackend,
    caches: &mut AscendCaches,
    x: &DeviceBuffer,
    w: VisionBuffers,
    shape: VisionShape,
) -> (attn: DeviceBuffer)
    requires
        old(be).wf(),
        old(caches).wf(old(be).state()),
        shape.fits(),
        w.attention_ready(old(be).state(), shape),
        old(be).state().holds(*x),
        is_lasting(*x),
        x.len == shape.tokens * shape.width * 2,
    ensures
        final(be).wf(),
        final(be).spec_device() == old(be).spec_device(),
        final(be).zeros_ready(x.len),
        caches_kept(*old(caches), *final(caches), final(be).state()),
        final(caches).rope == old(caches).rope,
        attn.len == shape.tokens * shape.qd() * 2,
        delivers(
            old(be).state(),
            final(be).state(),
            attn,
            w.attention(old(be).state(), old(be).state().value(*x), shape),
        ),
        qkv_warm(*final(caches), w.qkv, w.qkv_bias, shape.qd(), shape.qd()),
        old(be).zeros_ready(x.len) && qkv_warm(
            *old(caches),
            w.qkv,
            w.qkv_bias,
            shape.qd(),
            shape.qd(),
        ) ==> quiet(old(be).ctx, final(be).ctx) && *final(caches) == *old(caches),
{
    let ghost c0 = be.ctx;
    let ghost s0 = be.state();
    let ghost k0 = *caches;
    let ghost warm = be.zeros_ready(x.len) && qkv_warm(
        *caches,
        w.qkv,
        w.qkv_bias,
        shape.qd(),
        shape.qd(),
    );
    let ghost wv = s0.value(w.qkv);
    let ghost bv = optional_value(s0, w.qkv_bias);
    let tokens: i64 = shape.tokens;
    let width: i64 = shape.width;
    proof {
        be.ctx.lemma_safe();
        assert(0 < shape.heads * shape.head_dim) by (nonlinear_arith)
            requires
                0 < shape.heads,
                0 < shape.head_dim,
        ;
    }
    let qd: i64 = shape.heads * shape.head_dim;
    proof {
        lemma_aligned(tokens, width);
        lemma_fits_smaller(aligned_rows(tokens), width, tokens, width);
        lemma_fits(tokens, width);
        lemma_aligned(tokens, (qd * 3) as i64);
        lemma_fits_smaller(aligned_rows(tokens), (qd * 3) as i64, tokens, qd);
        lemma_fits(tokens, qd);
    }
    let norm = be.layer_norm_rows(x, &w.norm1, &w.norm1_bias, tokens, width, shape.eps);
    let ghost c1 = be.ctx;
    let ghost s1 = be.state();
    let ghost nv = norm_value(
        s0.value(*x),
        s0.value(w.norm1),
        s0.value(w.norm1_bias),
        tokens,
        width,
        shape.eps,
    );
    proof {
        be.ctx.lemma_safe();
        lemma_delivers(s0, s1, norm, nv);
        lemma_settled(s0, s1);
        lemma_delivers_stable(s0, s1, norm, nv);
        k0.lemma_stable(s0, s1);
        assert(s1.value(w.qkv) == wv);
        assert(optional_value(s1, w.qkv_bias) == bv);
    }
    let raw = project_qkv(
        &mut be.ctx,
        caches,
        &norm,
        tokens,
        width,
        &w.qkv,
        w.qkv_bias,
        qd,
        qd,
    );
    let ghost c2 = be.ctx;
    let ghost s2 = be.state();
    let ghost k2 = *caches;
    let ghost q = q_value(nv, tokens, width, wv, bv, qd, qd);
    let ghost k = k_value(nv, tokens, width, wv, bv, qd, qd);
    let ghost v = v_value(nv, tokens, width, wv, bv, qd, qd);
    let views: i64 = tokens / shape.per_view;
    proof {
        be.ctx.lemma_safe();
        lemma_delivers_three(s1, s2, raw.q, q, raw.k, k, raw.v, v);
        lemma_windows(views, shape.per_view, tokens, qd);
    }
    let attn = prompt_flash_attention_bsh_batch_fp16(
        &mut be.ctx,
        &raw.q,
        &raw.k,
        &raw.v,
        views,
        shape.per_view,
        shape.heads,
        shape.heads,
        shape.head_dim,
        None,
    );
    let ghost c3 = be.ctx;
    drop_temp(&mut be.ctx, raw.v, Ghost(s0));
    let ghost c4 = be.ctx;
    drop_temp(&mut be.ctx, raw.k, Ghost(s0));
    let ghost c5 = be.ctx;
    drop_temp(&mut be.ctx, raw.q, Ghost(s0));
    let ghost c6 = be.ctx;
    drop_temp(&mut be.ctx, norm, Ghost(s0));
    proof {
        let end = be.state();
        match attn.base {
            Base::Fresh(id) => {
                assert(end.fresh =~= s0.fresh.insert(
                    id,
                    w.attention(s0, s0.value(*x), shape),
                ));
            },
            _ => {},
        }
        assert(stable(s2, end));
        k2.lemma_stable(s2, end);
        lemma_quiet_then(c2, c3, c4);
        lemma_quiet_then(c2, c4, c5);
        lemma_quiet_then(c2, c5, c6);
        lemma_quiet_then(c2, c6, be.ctx);
        if warm {
            lemma_quiet_then(c0, c1, c2);
            lemma_quiet_then(c0, c2, be.ctx);
        }
    }
    attn
}

/// Norm, feed-forward block and residual.
fn vision_feed_forward(
    be: &mut AscendBackend,
    caches: &mut AscendCaches,
    res: &DeviceBuffer,
    w: VisionBuffers,
    shape: VisionShape,
) -> (out: DeviceBuffer)
    requires
        old(be).wf(),
        old(caches).wf(old(be).state()),
        shape.fits(),
        w.rest_ready(old(be).state(), shape),
        old(be).state().holds(*res),
        is_lasting(*res),
        res.len == shape.tokens * shape.width * 2,
    ensures
        final(be).wf(),
        final(be).spec_device() == old(be).spec_device(),
        final(be).zeros_ready(res.len),
        caches_kept(*old(caches), *final(caches), final(be).state()),
        final(caches).rope == old(caches).rope,
        out.len == shape.tokens * shape.width * 2,
        delivers(
            old(be).state(),
            final(be).state(),
            out,
            w.feed_forward(old(be).state(), old(be).state().value(*res), shape),
        ),
        weight_warm(*final(caches), w.fc1, columns(w.fc1, shape.width)),
        weight_warm(*final(caches), w.fc2, shape.width),
        old(be).zeros_ready(res.len) && weight_warm(
            *old(caches),
            w.fc1,
            columns(w.fc1, shape.width),
        ) && weight_warm(*old(caches), w.fc2, shape.width) ==> quiet(old(be).ctx, final(be).ctx)
            && *final(caches) == *old(caches),
{
    let ghost c0 = be.ctx;
    let ghost s0 = be.state();
    let ghost k0 = *caches;
    let ghost warm = be.zeros_ready(res.len) && weight_warm(
        *caches,
        w.fc1,
        columns(w.fc1, shape.width),
    ) && weight_warm(*caches, w.fc2, shape.width);
    let tokens: i64 = shape.tokens;
    let width: i64 = shape.width;
    let inter: i64 = (w.fc1.len / 2) as i64 / width;
    assert(inter == columns(w.fc1, width));
    proof {
        be.ctx.lemma_safe();
        lemma_aligned(tokens, width);
        lemma_fits_smaller(aligned_rows(tokens), width, tokens, width);
        lemma_fits(tokens, width);
        lemma_aligned(tokens, inter);
        lemma_fits_smaller(aligned_rows(tokens), inter, tokens, inter);
        lemma_fits(tokens, inter);
    }
    let norm = be.layer_norm_rows(res, &w.norm2, &w.norm2_bias, tokens, width, shape.eps);
    let ghost c1 = be.ctx;
    let ghost s1 = be.state();
    let ghost nv = norm_value(
        s0.value(*res),
        s0.value(w.norm2),
        s0.value(w.norm2_bias),
        tokens,
        width,
        shape.eps,
    );
    proof {
        be.ctx.lemma_safe();
        lemma_delivers(s0, s1, norm, nv);
        lemma_settled(s0, s1);
        lemma_delivers_stable(s0, s1, norm, nv);
        k0.lemma_stable(s0, s1);
        assert(s1.value(w.fc1) == s0.value(w.fc1));
        assert(optional_value(s1, w.fc1_bias) == optional_value(s0, w.fc1_bias));
    }
    let fc = linear_bias(&mut be.ctx, caches, &norm, tokens, width, &w.fc1, w.fc1_bias, inter);
    let ghost c2 = be.ctx;
    let ghost s2 = be.state();
    let ghost k2 = *caches;
    let ghost fv = linear_bias_value(
        nv,
        tokens,
        width,
        s0.value(w.fc1),
        optional_value(s0, w.fc1_bias),
        inter,
    );
    proof {
        be.ctx.lemma_safe();
        lemma_yields(s1, s2, fc, fv);
        lemma_settled(s1, s2);
    }
    let inner: Vec<i64> = vec![tokens, inter];
    assert(inner@ =~= seq![tokens, inter]);
    let act = gelu_fp16(&mut be.ctx, &fc, &inner, false);
    let ghost c3 = be.ctx;
    let ghost s3 = be.state();
    let ghost av = gelu_value(fv, seq![tokens, inter], false);
    proof {
        be.ctx.lemma_safe();
        lemma_gains(s2, s3, act, av);
        lemma_settled(s2, s3);
        lemma_delivers_stable(s2, s3, act, av);
        k2.lemma_stable(s2, s3);
        assert(s3.value(w.fc2) == s0.value(w.fc2));
        assert(optional_value(s3, w.fc2_bias) == optional_value(s0, w.fc2_bias));
        assert(s3.value(*res) == s0.value(*res));
    }
    let out = output_residual(
        &mut be.ctx,
        caches,
        &act,
        tokens,
        inter,
        &w.fc2,
        w.fc2_bias,
        width,
        res,
    );
    let ghost c4 = be.ctx;
    let ghost s4 = be.state();
    let ghost k4 = *caches;
    drop_temp(&mut be.ctx, act, Ghost(s0));
    let ghost c5 = be.ctx;
    drop_temp(&mut be.ctx, fc, Ghost(s0));
    let ghost c6 = be.ctx;
    drop_temp(&mut be.ctx, norm, Ghost(s0));
    proof {
        let end = be.state();
        match out.base {
            Base::Fresh(id) => {
                assert(end.fresh =~= s0.fresh.insert(
                    id,
                    w.feed_forward(s0, s0.value(*res), shape),
                ));
            },
            _ => {},
        }
        assert(stable(s4, end));
        k4.lemma_stable(s4, end);
        lemma_quiet_then(c4, c5, c6);
        lemma_quiet_then(c4, c6, be.ctx);
        if warm {
            lemma_quiet_then(c0, c1, c2);
            lemma_quiet_then(c0, c2, c3);
            lemma_quiet_then(c0, c3, c4);
            lemma_quiet_then(c0, c4, be.ctx);
        }
    }
    out
}

/// A vision layer on buffers.
pub fn vision_layer(
    be: &mut AscendBackend,
    caches: &mut AscendCaches,
    x: &DeviceBuffer,
    w: VisionBuffers,
    shape: VisionShape,
) -> (out: DeviceBuffer)
    requires
        old(be).wf(),
        old(caches).wf(old(be).state()),
        w.ready(old(be).state(), shape),
        old(be).state().holds(*x),
        is_lasting(*x),
        x.len == shape.tokens * shape.width * 2,
    ensures
        final(be).wf(),
        final(be).spec_device() == old(be).spec_device(),
        caches_kept(*old(caches), *final(caches), final(be).state()),
        final(caches).rope == old(caches).rope,
        out.len == x.len,
        delivers(
            old(be).state(),
            final(be).state(),
            out,
            w.value(old(be).state(), old(be).state().value(*x), shape),
        ),
        w.warm(*final(be), *final(caches), shape),
        w.warm(*old(be), *old(caches), shape) ==> quiet(old(be).ctx, final(be).ctx)
            && *final(caches) == *old(caches),
{
    let ghost c0 = be.ctx;
    let ghost s0 = be.state();
    let ghost xv = s0.value(*x);
    let ghost warm = w.warm(*be, *caches, shape);
    let ghost av = w.attention(s0, xv, shape);
    let tokens: i64 = shape.tokens;
    let width: i64 = shape.width;
    proof {
        be.ctx.lemma_safe();
        assert(0 < shape.heads * shape.head_dim) by (nonlinear_arith)
            requires
                0 < shape.heads,
                0 < shape.head_dim,
        ;
    }
    let qd: i64 = shape.heads * shape.head_dim;
    proof {
        lemma_aligned(tokens, (qd * 3) as i64);
        lemma_fits_smaller(
            aligned_rows(tokens),
            (qd * 3) as i64,
            aligned_rows(tokens),
            qd,
        );
    }
    let attn = vision_attention(be, caches, x, w, shape);
    let ghost c1 = be.ctx;
    let ghost s1 = be.state();
    proof {
        be.ctx.lemma_safe();
        lemma_delivers(s0, s1, attn, av);
        w.lemma_same(s0, s1, shape);
    }
    let res = output_residual(
        &mut be.ctx,
        caches,
        &attn,
        tokens,
        qd,
        &w.output,
        w.output_bias,
        width,
        x,
    );
    let ghost c2 = be.ctx;
    let ghost s2 = be.state();
    let ghost rv = residual_value(
        av,
        tokens,
        qd,
        s0.value(w.output),
        optional_value(s0, w.output_bias),
        width,
        xv,
    );
    proof {
        be.ctx.lemma_safe();
        lemma_yields(s1, s2, res, rv);
        w.lemma_same(s1, s2, shape);
    }
    let out = vision_feed_forward(be, caches, &res, w, shape);
    let ghost c3 = be.ctx;
    let ghost s3 = be.state();
    let ghost k3 = *caches;
    drop_temp(&mut be.ctx, res, Ghost(s0));
    let ghost c4 = be.ctx;
    drop_temp(&mut be.ctx, attn, Ghost(s0));
    proof {
        let end = be.state();
        match out.base {
            Base::Fresh(id) => {
                assert(end.fresh =~= s0.fresh.insert(id, w.value(s0, xv, shape)));
            },
            _ => {},
        }
        assert(stable(s3, end));
        k3.lemma_stable(s3, end);
        lemma_quiet_then(c3, c4, be.ctx);
        if warm {
            lemma_quiet_then(c0, c1, c2);
            lemma_quiet_then(c0, c2, c3);
            lemma_quiet_then(c0, c3, be.ctx);
        }
    }
    out
}

/// What is wrong with the weights of a vision layer.
pub open spec fn vision_weights_error(w: Bf16DeviceVisionBlock) -> Option<ErrorView> {
    first_error(
        w.norm1.weight@.residency_error(),
        first_error(
            w.norm1.bias@.residency_error(),
            first_error(
                linear_error(w.qkv),
                first_error(
                    linear_error(w.output),
                    first_error(
                        w.norm2.weight@.residency_error(),
                        first_error(
                            w.norm2.bias@.residency_error(),
                            first_error(linear_error(w.fc1), linear_error(w.fc2)),
                        ),
                    ),
                ),
            ),
        ),
    )
}

/// The buffers behind the weights of a vision layer.
pub open spec fn vision_buffers(w: Bf16DeviceVisionBlock) -> VisionBuffers {
    VisionBuffers {
        norm1: w.norm1.weight@.on_device(),
        norm1_bias: w.norm1.bias@.on_device(),
        qkv: w.qkv.weight@.on_device(),
        qkv_bias: optional_buffer(w.qkv.bias),
        output: w.output.weight@.on_device(),
        output_bias: optional_buffer(w.output.bias),
        norm2: w.norm2.weight@.on_device(),
        norm2_bias: w.norm2.bias@.on_device(),
        fc1: w.fc1.weight@.on_device(),
        fc1_bias: optional_buffer(w.fc1.bias),
        fc2: w.fc2.weight@.on_device(),
        fc2_bias: optional_buffer(w.fc2.bias),
    }
}

/// Find the buffers of a vision layer.
pub fn resolve_vision(w: &Bf16DeviceVisionBlock) -> (r: Result<VisionBuffers, Error>)
    ensures
        match r {
            Ok(b) => vision_weights_error(*w) is None && b == vision_buffers(*w),
            Err(e) => vision_weights_error(*w) == Some(e@),
        },
{
    let norm1 = tensor_buf(&w.norm1.weight)?;
    let norm1_bias = tensor_buf(&w.norm1.bias)?;
    let (qkv, qkv_bias) = linear_buffers(&w.qkv)?;
    let (output, output_bias) = linear_buffers(&w.output)?;
    let norm2 = tensor_buf(&w.norm2.weight)?;
    let norm2_bias = tensor_buf(&w.norm2.bias)?;
    let (fc1, fc1_bias) = linear_buffers(&w.fc1)?;
    let (fc2, fc2_bias) = linear_buffers(&w.fc2)?;
    Ok(
        VisionBuffers {
            norm1,
            norm1_bias,
            qkv,
            qkv_bias,
            output,
            output_bias,
            norm2,
            norm2_bias,
            fc1,
            fc1_bias,
            fc2,
            fc2_bias,
        },
    )
}

/// The sizes of a vision layer on a `[tokens, width]` input.
pub open spec fn vision_shape(
    dims: Seq<usize>,
    patches_per_view: usize,
    heads: usize,
    head_dim: usize,
    eps: u32,
) -> VisionShape {
    VisionShape {
        tokens: dims[0] as i64,
        width: dims[1] as i64,
        per_view: patches_per_view as i64,
        heads: heads as i64,
        head_dim: head_dim as i64,
        eps,
    }
}

/// A vision layer: norm, attention within each view and residual; norm,
/// feed-forward block and residual. Errors are found before anything is recorded.
pub fn vision_layer_ascend(
    be: &mut AscendBackend,
    caches: &mut AscendCaches,
    weights: &Bf16DeviceVisionBlock,
    input: &Tensor,
    patches_per_view: usize,
    heads: usize,
    head_dim: usize,
    layer_norm_eps: u32,
) -> (r: Result<Tensor, Error>)
    requires
        old(be).wf(),
        old(caches).wf(old(be).state()),
        input@.dims.len() >= 2,
        dims_fit(input@.dims),
        patches_per_view <= i64::MAX,
        heads <= i64::MAX,
        head_dim <= i64::MAX,
        first_error(input@.residency_error(), vision_weights_error(*weights)) is None ==> {
            let shape = vision_shape(input@.dims, patches_per_view, heads, head_dim, layer_norm_eps);
            let b = input@.on_device();
            &&& vision_buffers(*weights).ready(old(be).state(), shape)
            &&& old(be).state().holds(b)
            &&& is_lasting(b)
            &&& b.len == shape.tokens * shape.width * 2
        },
    ensures
        ({
            let error = first_error(input@.residency_error(), vision_weights_error(*weights));
            let shape = vision_shape(input@.dims, patches_per_view, heads, head_dim, layer_norm_eps);
            let w = vision_buffers(*weights);
            match r {
                Err(e) => {
                    &&& error == Some(e@)
                    &&& *final(be) == *old(be)
                    &&& *final(caches) == *old(caches)
                },
                Ok(t) => {
                    &&& error is None
                    &&& produced(
                        *old(be),
                        *final(be),
                        t@,
                        seq![input@.dims[0], input@.dims[1]],
                        w.value(old(be).state(), held(old(be).state(), input@), shape),
                    )
                    &&& ({
                        let st = old(be).state();
                        let xv = held(st, input@);
                        let size = shape.tokens * shape.width;
                        let inter = columns(weights.fc1.weight@.on_device(), shape.width);
                        let projected = linear_bias_value(
                            w.attention(st, xv, shape),
                            shape.tokens,
                            shape.qd(),
                            held(st, weights.output.weight@),
                            bias_on(st, weights.output),
                            shape.width,
                        );
                        let residual = words(
                            size,
                            |e: int| plus_word(word(projected, e), word(xv, e)),
                        );
                        let up = linear_bias_value(
                            layer_norm_value(
                                residual,
                                filled((2 * size) as nat, 0),
                                held(st, weights.norm2.weight@),
                                held(st, weights.norm2.bias@),
                                shape.tokens,
                                shape.width,
                                Real::Single(layer_norm_eps),
                            ),
                            shape.tokens,
                            shape.width,
                            held(st, weights.fc1.weight@),
                            bias_on(st, weights.fc1),
                            inter,
                        );
                        let block = linear_bias_value(
                            gelu_value(up, seq![shape.tokens, inter], false),
                            shape.tokens,
                            inter,
                            held(st, weights.fc2.weight@),
                            bias_on(st, weights.fc2),
                            shape.width,
                        );
                        adds_up(held(final(be).state(), t@), block, projected, xv, size)
                    })
                    &&& caches_kept(*old(caches), *final(caches), final(be).state())
                    &&& w.warm(*final(be), *final(caches), shape)
                    &&& w.warm(*old(be), *old(caches), shape) ==> quiet(
                        old(be).ctx,
                        final(be).ctx,
                    ) && *final(caches) == *old(caches)
                },
            }
        }),
{
    let x = tensor_buf(input)?;
    let w = resolve_vision(weights)?;
    let shape = VisionShape {
        tokens: input.dims[0] as i64,
        width: input.dims[1] as i64,
        per_view: patches_per_view as i64,
        heads: heads as i64,
        head_dim: head_dim as i64,
        eps: layer_norm_eps,
    };
    let ghost st = be.state();
    let ghost xv = st.value(x);
    proof {
        be.ctx.lemma_safe();
    }
    let out = vision_layer(be, caches, &x, w, shape);
    proof {
        lemma_vision_stream(st, *weights, xv, shape);
        lemma_delivers(st, be.state(), out, w.value(st, xv, shape));
    }
    let dims: Vec<usize> = vec![input.dims[0], input.dims[1]];
    assert(dims@ =~= seq![input@.dims[0], input@.dims[1]]);
    Ok(be.wrap_fp16(out, dims))
}

/// The buffers of the patch embedding.
#[derive(Debug, Clone, Copy)]
pub struct PatchBuffers {
    pub weight: DeviceBuffer,
    pub bias: Option<DeviceBuffer>,
    /// One row for every patch of a view.
    pub positions: DeviceBuffer,
}

/// Sizes of the patch embedding.
#[derive(Debug, Clone, Copy, PartialEq, Eq, Structural)]
pub struct PatchShape {
    pub tokens: i64,
    pub in_width: i64,
    pub out_width: i64,
    pub per_view: i64,
}

impl PatchBuffers {
    /// The buffers are there and have the sizes that the embedding needs.
    pub open spec fn ready(self, st: DeviceState, patches: DeviceBuffer, shape: PatchShape) -> bool {
        &&& linear_ready(
            st,
            patches,
            shape.tokens,
            shape.in_width,
            self.weight,
            self.bias,
            shape.out_width,
        )
        &&& 0 < shape.per_view
        &&& is_fp16(st, self.positions, seq![shape.per_view, shape.out_width])
        &&& is_lasting(self.positions)
    }

    /// What the embedding computes: row `r` of the projection plus row
    /// `r % per_view` of the position table.
    pub open spec fn value(
        self,
        st: DeviceState,
        patches: Seq<SymByte>,
        shape: PatchShape,
    ) -> Seq<SymByte> {
        add_value(
            linear_bias_value(
                patches,
                shape.tokens,
                shape.in_width,
                st.value(self.weight),
                optional_value(st, self.bias),
                shape.out_width,
            ),
            gather_value(
                st.value(self.positions),
                shape.per_view,
                shape.out_width,
                (RowKey::Cycle { tokens: shape.tokens, period: shape.per_view }).content(st),
                shape.tokens,
            ),
            seq![shape.tokens, shape.out_width],
        )
    }

    /// Everything that the embedding looks up is there already.
    pub open spec fn warm(self, caches: AscendCaches, shape: PatchShape) -> bool {
        &&& weight_warm(caches, self.weight, shape.out_width)
        &&& caches.rows.has(RowKey::Cycle { tokens: shape.tokens, period: shape.per_view })
    }
}

/// The patch embedding on buffers.
pub fn patch_embed(
    be: &mut AscendBackend,
    caches: &mut AscendCaches,
    patches: &DeviceBuffer,
    w: PatchBuffers,
    shape: PatchShape,
) -> (out: DeviceBuffer)
    requires
        old(be).wf(),
        old(caches).wf(old(be).state()),
        w.ready(old(be).state(), *patches, shape),
    ensures
        final(be).wf(),
        final(be).spec_device() == old(be).spec_device(),
        final(be).zero_slot == old(be).zero_slot,
        caches_kept(*old(caches), *final(caches), final(be).state()),
        final(caches).rope == old(caches).rope,
        out.len == shape.tokens * shape.out_width * 2,
        delivers(
            old(be).state(),
            final(be).state(),
            out,
            w.value(old(be).state(), old(be).state().value(*patches), shape),
        ),
        w.warm(*final(caches), shape),
        w.warm(*old(caches), shape) ==> quiet(old(be).ctx, final(be).ctx) && *final(caches)
            == *old(caches),
{
    let ghost c0 = be.ctx;
    let ghost s0 = be.state();
    let ghost warm = w.warm(*caches, shape);
    let tokens: i64 = shape.tokens;
    let out_w: i64 = shape.out_width;
    proof {
        be.ctx.lemma_safe();
    }
    let proj = linear_bias(
        &mut be.ctx,
        caches,
        patches,
        tokens,
        shape.in_width,
        &w.weight,
        w.bias,
        out_w,
    );
    let ghost c1 = be.ctx;
    let ghost s1 = be.state();
    let ghost k1 = *caches;
    let ghost pv = linear_bias_value(
        s0.value(*patches),
        tokens,
        shape.in_width,
        s0.value(w.weight),
        optional_value(s0, w.bias),
        out_w,
    );
    proof {
        be.ctx.lemma_safe();
        lemma_yields(s0, s1, proj, pv);
        lemma_fits(tokens, out_w);
    }
    let index = caches.rows.cycle(&mut be.ctx, tokens, shape.per_view);
    let ghost c2 = be.ctx;
    let ghost s2 = be.state();
    let ghost k2 = *caches;
    proof {
        be.ctx.lemma_safe();
        lemma_only_kept(s1, s2);
        k1.lemma_stable(s1, s2);
        assert(s2.value(w.positions) == s0.value(w.positions));
        assert(k2.wf(s2));
    }
    let rows = gather_rows_fp16(&mut be.ctx, &w.positions, shape.per_view, out_w, &index, tokens);
    let ghost c3 = be.ctx;
    let ghost s3 = be.state();
    let ghost rv = gather_value(
        s0.value(w.positions),
        shape.per_view,
        out_w,
        (RowKey::Cycle { tokens, period: shape.per_view }).content(s0),
        tokens,
    );
    proof {
        be.ctx.lemma_safe();
        lemma_gains(s2, s3, rows, rv);
    }
    let dims: Vec<i64> = vec![tokens, out_w];
    assert(dims@ =~= seq![tokens, out_w]);
    let out = add_fp16(&mut be.ctx, &proj, &rows, &dims);
    let ghost c4 = be.ctx;
    drop_temp(&mut be.ctx, rows, Ghost(s0));
    let ghost c5 = be.ctx;
    drop_temp(&mut be.ctx, proj, Ghost(s0));
    proof {
        let end = be.state();
        match out.base {
            Base::Fresh(id) => {
                assert(end.fresh =~= s0.fresh.insert(id, w.value(s0, s0.value(*patches), shape)));
            },
            _ => {},
        }
        assert(stable(s2, end));
        k2.lemma_stable(s2, end);
        lemma_quiet_then(c2, c3, c4);
        lemma_quiet_then(c2, c4, c5);
        lemma_quiet_then(c2, c5, be.ctx);
        if warm {
            lemma_quiet_then(c0, c1, be.ctx);
        }
    }
    out
}

/// What is wrong with the operands of the patch embedding.
pub open spec fn patch_error(patches: Tensor, w: Bf16LinearWeights, positions: Tensor) -> Option<
    ErrorView,
> {
    first_error(
        patches@.residency_error(),
        first_error(linear_error(w), positions@.residency_error()),
    )
}

/// The buffers of the patch embedding.
pub open spec fn patch_buffers(w: Bf16LinearWeights, positions: Tensor) -> PatchBuffers {
    PatchBuffers {
        weight: w.weight@.on_device(),
        bias: optional_buffer(w.bias),
        positions: positions@.on_device(),
    }
}

/// The sizes of the patch embedding.
pub open spec fn patch_shape(patches: Seq<usize>, weight: Seq<usize>, per_view: usize) -> PatchShape {
    PatchShape {
        tokens: patches[0] as i64,
        in_width: patches[1] as i64,
        out_width: weight[1] as i64,
        per_view: per_view as i64,
    }
}

/// Patch embedding: projection, bias and position table, which repeats from view to
/// view. Errors are found before anything is recorded.
pub fn vision_patch_embed_ascend(
    be: &mut AscendBackend,
    caches: &mut AscendCaches,
    weights: &Bf16LinearWeights,
    position_embedding: &Tensor,
    patches: &Tensor,
    patches_per_view: usize,
) -> (r: Result<Tensor, Error>)
    requires
        old(be).wf(),
        old(caches).wf(old(be).state()),
        patches@.dims.len() >= 2,
        dims_fit(patches@.dims),
        weights.weight@.dims.len() >= 2,
        dims_fit(weights.weight@.dims),
        patches_per_view <= i64::MAX,
        patch_error(*patches, *weights, *position_embedding) is None ==> patch_buffers(
            *weights,
            *position_embedding,
        ).ready(
            old(be).state(),
            patches@.on_device(),
            patch_shape(patches@.dims, weights.weight@.dims, patches_per_view),
        ),
    ensures
        ({
            let w = patch_buffers(*weights, *position_embedding);
            let shape = patch_shape(patches@.dims, weights.weight@.dims, patches_per_view);
            match r {
                Err(e) => {
                    &&& patch_error(*patches, *weights, *position_embedding) == Some(e@)
                    &&& *final(be) == *old(be)
                    &&& *final(caches) == *old(caches)
                },
                Ok(t) => {
                    &&& patch_error(*patches, *weights, *position_embedding) is None
                    &&& produced(
                        *old(be),
                        *final(be),
                        t@,
                        seq![patches@.dims[0], weights.weight@.dims[1]],
                        w.value(old(be).state(), held(old(be).state(), patches@), shape),
                    )
                    &&& caches_kept(*old(caches), *final(caches), final(be).state())
                    &&& w.warm(*final(caches), shape)
                    &&& w.warm(*old(caches), shape) ==> quiet(old(be).ctx, final(be).ctx)
                        && *final(caches) == *old(caches)
                },
            }
        }),
{
    let x = tensor_buf(patches)?;
    let (weight, bias) = linear_buffers(weights)?;
    let positions = tensor_buf(position_embedding)?;
    let shape = PatchShape {
        tokens: patches.dims[0] as i64,
        in_width: patches.dims[1] as i64,
        out_width: weights.weight.dims[1] as i64,
        per_view: patches_per_view as i64,
    };
    let out = patch_embed(be, caches, &x, PatchBuffers { weight, bias, positions }, shape);
    let dims: Vec<usize> = vec![patches.dims[0], weights.weight.dims[1]];
    assert(dims@ =~= seq![patches@.dims[0], weights.weight@.dims[1]]);
    Ok(be.wrap_fp16(out, dims))
}

} // verus!
