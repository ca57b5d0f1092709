//! Layers of the language model.

use vstd::prelude::*;

use crate::backend::{dims_fit, held, matrix_error, operand_error, wrapped, AscendBackend};
use crate::cache::{lemma_delivers_stable, lemma_stable_then, stable};
use crate::capture::{lemma_quiet_then, quiet};
use crate::device::{Base, DeviceBuffer, Real};
use crate::error::{first_error, Error, ErrorView};
use crate::executor::attention::{
    lemma_attention_sizes, rotate_pair, rotated, self_attention_value, AttentionShape,
};
use crate::executor::blocks::{
    geglu, geglu_value, geglu_warm, linear_bias_value, output_residual, residual_value,
};
use crate::executor::caches::{caches_kept, weight_warm, AscendCaches};
use crate::executor::frame::{
    delivers_three, drop_temp, is_item, lemma_delivers_three, lemma_dropped_stable, lemma_owns,
    lemma_owns_drop, lemma_owns_one, lemma_owns_then, lemma_owns_three, lemma_settled, owns, Item,
};
use crate::executor::layers::{adds_up, bias_on, lemma_language_stream};
use crate::executor::linear::{
    is_bias, is_fused_bias, is_weight, k_value, optional_value, project_qkv, q_value, qkv_warm,
    v_value,
};
use crate::model::{
    linear_buffers, linear_error, optional_buffer, tensor_buf, Bf16DeviceLanguageLayer,
    GemmaVariantConfig, Tensor,
};
use crate::ops::attention::prompt_flash_attention_bsh_fp16;
use crate::ops::elementwise::{add_fp16, add_value};
use crate::ops::is_fp16;
use crate::ops::laws::word;
use crate::ops::matmul::{aligned_rows, lemma_aligned};
use crate::ops::norm::{is_row, rms_norm_value};
use crate::ops::rows::{rows_value, take_rows_fp16};
use crate::ops::words::{plus_word, words};
use crate::semantics::{
    delivers, filled, is_lasting, keeps, lemma_delivers, lemma_gains, lemma_whole_value, lemma_yields,
    DeviceState, SymByte,
};
use crate::rope::positions_needed;
use crate::tensor::{fits, lemma_fits, lemma_fits_smaller, lemma_one_window};

verus! {

/// The norm that a layer starts with.
pub open spec fn layer_norm_rows_value(
    x: Seq<SymByte>,
    gamma: Seq<SymByte>,
    tokens: i64,
    width: i64,
    eps: u32,
) -> Seq<SymByte> {
    rms_norm_value(x, filled(x.len(), 0), gamma, tokens, width, Real::Single(eps))
}

/// The weights of the attention half of a language layer are there.
pub open spec fn projection_ready(
    st: DeviceState,
    gamma: DeviceBuffer,
    width: i64,
    hidden: i64,
    w: DeviceBuffer,
    bias: Option<DeviceBuffer>,
    shape: AttentionShape,
) -> bool {
    &&& shape.fits()
    &&& is_row(st, gamma, width)
    &&& is_lasting(gamma)
    &&& fits(aligned_rows(shape.tokens), hidden)
    &&& fits(aligned_rows(shape.tokens), (shape.qd() + 2 * shape.kv_d()) as i64)
    &&& hidden <= width
    &&& shape.tokens % 16 == 0 ==> hidden == width
    &&& is_weight(st, w, [hidden, (shape.qd() + 2 * shape.kv_d()) as i64])
    &&& is_fused_bias(st, bias, shape.qd() + 2 * shape.kv_d())
}

/// The operands of the attention half of a language layer are there.
pub open spec fn attention_ready(
    st: DeviceState,
    x: DeviceBuffer,
    gamma: DeviceBuffer,
    width: i64,
    hidden: i64,
    w: DeviceBuffer,
    bias: Option<DeviceBuffer>,
    shape: AttentionShape,
) -> bool {
    &&& is_fp16(st, x, seq![shape.tokens, width])
    &&& is_lasting(x)
    &&& projection_ready(st, gamma, width, hidden, w, bias, shape)
}

/// Everything that the attention half of a language layer looks up is there
/// already.
pub open spec fn attention_warm(
    be: AscendBackend,
    caches: AscendCaches,
    x: DeviceBuffer,
    w: DeviceBuffer,
    bias: Option<DeviceBuffer>,
    shape: AttentionShape,
) -> bool {
    &&& be.zeros_ready(x.len)
    &&& qkv_warm(caches, w, bias, shape.qd(), shape.kv_d())
    &&& shape.rope_warm(caches)
}

/// Norm, projection, rotation and attention. Returns the values, the rotated keys
/// and the attention.
fn language_attention(
    be: &mut AscendBackend,
    caches: &mut AscendCaches,
    x: &DeviceBuffer,
    gamma: &DeviceBuffer,
    width: i64,
    hidden: i64,
    w: &DeviceBuffer,
    bias: Option<DeviceBuffer>,
    shape: AttentionShape,
    eps: u32,
) -> (out: (DeviceBuffer, DeviceBuffer, DeviceBuffer))
    requires
        old(be).wf(),
        old(caches).wf(old(be).state()),
        attention_ready(old(be).state(), *x, *gamma, width, hidden, *w, bias, shape),
    ensures
        final(be).wf(),
        final(be).spec_device() == old(be).spec_device(),
        final(be).zeros_ready(x.len),
        caches_kept(*old(caches), *final(caches), final(be).state()),
        shape.table_span(*final(caches)) == shape.table_span(*old(caches)),
        out.0.len == shape.tokens * shape.kv_d() * 2,
        out.1.len == shape.tokens * shape.kv_d() * 2,
        out.2.len == shape.tokens * shape.qd() * 2,
        ({
            let st = old(be).state();
            let n = layer_norm_rows_value(
                st.value(*x),
                st.value(*gamma),
                shape.tokens,
                width,
                eps,
            );
            let wv = st.value(*w);
            let bv = optional_value(st, bias);
            let mp = shape.table_span(*old(caches));
            let q = q_value(n, shape.tokens, hidden, wv, bv, shape.qd(), shape.kv_d());
            let k = k_value(n, shape.tokens, hidden, wv, bv, shape.qd(), shape.kv_d());
            let v = v_value(n, shape.tokens, hidden, wv, bv, shape.qd(), shape.kv_d());
            delivers_three(
                st,
                final(be).state(),
                out.0,
                v,
                out.1,
                rotated(shape, k, shape.kv_heads, mp),
                out.2,
                self_attention_value(shape, q, k, v, mp),
            )
        }),
        attention_warm(*final(be), *final(caches), *x, *w, bias, shape),
        attention_warm(*old(be), *old(caches), *x, *w, bias, shape) ==> quiet(
            old(be).ctx,
            final(be).ctx,
        ) && *final(caches) == *old(caches),
{
    let ghost c0 = be.ctx;
    let ghost s0 = be.state();
    let ghost k0 = *caches;
    let ghost warm = attention_warm(*be, *caches, *x, *w, bias, shape);
    let ghost mp = shape.table_span(*caches);
    let ghost wv = s0.value(*w);
    let ghost bv = optional_value(s0, bias);
    let tokens: i64 = shape.tokens;
    proof {
        be.ctx.lemma_safe();
        lemma_attention_sizes(shape);
        lemma_fits(tokens, width);
        lemma_aligned(tokens, hidden);
        assert(tokens * hidden <= tokens * width) by (nonlinear_arith)
            requires
                tokens > 0,
                hidden <= width,
        ;
    }
    let qd: i64 = shape.heads * shape.head_dim;
    let kv_d: i64 = shape.kv_heads * shape.head_dim;
    let norm = be.rms_norm_rows(x, gamma, tokens, width, eps);
    let ghost c1 = be.ctx;
    let ghost s1 = be.state();
    let ghost nv = layer_norm_rows_value(s0.value(*x), s0.value(*gamma), tokens, width, eps);
    proof {
        be.ctx.lemma_safe();
        lemma_delivers(s0, s1, norm, nv);
        lemma_settled(s0, s1);
        lemma_delivers_stable(s0, s1, norm, nv);
        k0.lemma_stable(s0, s1);
        assert(s1.value(*w) == wv);
        assert(optional_value(s1, bias) == bv);
    }
    let raw = project_qkv(&mut be.ctx, caches, &norm, tokens, hidden, w, bias, qd, kv_d);
    let ghost c2 = be.ctx;
    let ghost s2 = be.state();
    let ghost q = q_value(nv, tokens, hidden, wv, bv, qd, kv_d);
    let ghost k = k_value(nv, tokens, hidden, wv, bv, qd, kv_d);
    let ghost v = v_value(nv, tokens, hidden, wv, bv, qd, kv_d);
    proof {
        be.ctx.lemma_safe();
        lemma_delivers_three(s1, s2, raw.q, q, raw.k, k, raw.v, v);
    }
    let (q_rope, k_rope) = rotate_pair(&mut be.ctx, caches, &raw.q, &raw.k, shape);
    let ghost c3 = be.ctx;
    let ghost s3 = be.state();
    let ghost k3 = *caches;
    proof {
        be.ctx.lemma_safe();
        lemma_fits((tokens * shape.heads) as i64, shape.head_dim);
        lemma_fits_smaller(aligned_rows(tokens), (qd + 2 * kv_d) as i64, tokens, qd);
        lemma_fits_smaller(aligned_rows(tokens), (qd + 2 * kv_d) as i64, tokens, kv_d);
        lemma_one_window(tokens, qd);
        lemma_one_window(tokens, kv_d);
        lemma_whole_value(s3, raw.v);
        lemma_whole_value(s3, q_rope);
        lemma_whole_value(s3, k_rope);
    }
    let attn = prompt_flash_attention_bsh_fp16(
        &mut be.ctx,
        &q_rope,
        &k_rope,
        &raw.v,
        tokens,
        shape.heads,
        shape.kv_heads,
        shape.head_dim,
        None,
    );
    let ghost c4 = be.ctx;
    drop_temp(&mut be.ctx, q_rope, Ghost(s0));
    let ghost c5 = be.ctx;
    drop_temp(&mut be.ctx, raw.k, Ghost(s0));
    let ghost c6 = be.ctx;
    drop_temp(&mut be.ctx, raw.q, Ghost(s0));
    let ghost c7 = be.ctx;
    drop_temp(&mut be.ctx, norm, Ghost(s0));
    proof {
        let end = be.state();
        match (raw.v.base, k_rope.base, attn.base) {
            (Base::Fresh(i), Base::Fresh(j), Base::Fresh(l)) => {
                assert(end.fresh =~= s0.fresh.insert(i, v).insert(
                    j,
                    rotated(shape, k, shape.kv_heads, mp),
                ).insert(l, self_attention_value(shape, q, k, v, mp)));
            },
            _ => {},
        }
        assert(stable(s3, end));
        k3.lemma_stable(s3, end);
        lemma_quiet_then(c3, c4, c5);
        lemma_quiet_then(c3, c5, c6);
        lemma_quiet_then(c3, c6, c7);
        lemma_quiet_then(c3, c7, be.ctx);
        if warm {
            lemma_quiet_then(c0, c1, c2);
            lemma_quiet_then(c0, c2, c3);
            lemma_quiet_then(c0, c3, be.ctx);
        }
    }
    (raw.v, k_rope, attn)
}

/// The buffers of the half of a language layer that follows its attention.
#[derive(Debug, Clone, Copy)]
pub struct TailBuffers {
    pub output: DeviceBuffer,
    pub output_bias: Option<DeviceBuffer>,
    pub norm: DeviceBuffer,
    pub gate_up: DeviceBuffer,
    pub down: DeviceBuffer,
    pub down_bias: Option<DeviceBuffer>,
}

/// Width of the hidden layer of a gated block with this fused weight.
pub open spec fn gated_width(gate_up: DeviceBuffer, width: i64) -> i64 {
    ((gate_up.len / 2) as int / (width * 2)) as i64
}

impl TailBuffers {
    /// The buffers are there and have the sizes that the layer needs.
    pub open spec fn ready(self, st: DeviceState, tokens: i64, qd: i64, width: i64) -> bool {
        let inter = gated_width(self.gate_up, width);
        &&& 0 < width
        &&& width * 2 <= i64::MAX
        &&& 0 <= tokens <= i64::MAX - 16
        &&& fits(aligned_rows(tokens), qd)
        &&& fits(aligned_rows(tokens), width)
        &&& is_weight(st, self.output, [qd, width])
        &&& is_bias(st, self.output_bias, width)
        &&& is_row(st, self.norm, width)
        &&& is_lasting(self.norm)
        &&& 0 < inter
        &&& inter * 2 <= i64::MAX
        &&& fits(aligned_rows(tokens), (inter * 2) as i64)
        &&& is_weight(st, self.gate_up, [width, (inter * 2) as i64])
        &&& is_weight(st, self.down, [inter, width])
        &&& is_bias(st, self.down_bias, width)
    }

    /// The sum of the projected attention and the layer's input.
    pub open spec fn residual(
        self,
        st: DeviceState,
        attn: Seq<SymByte>,
        x: Seq<SymByte>,
        tokens: i64,
        qd: i64,
        width: i64,
    ) -> Seq<SymByte> {
        residual_value(
            attn,
            tokens,
            qd,
            st.value(self.output),
            optional_value(st, self.output_bias),
            width,
            x,
        )
    }

    /// What the half layer computes from the attention and the layer's input.
    pub open spec fn value(
        self,
        st: DeviceState,
        attn: Seq<SymByte>,
        x: Seq<SymByte>,
        tokens: i64,
        qd: i64,
        width: i64,
        eps: u32,
    ) -> Seq<SymByte> {
        let res = self.residual(st, attn, x, tokens, qd, width);
        add_value(
            geglu_value(
                layer_norm_rows_value(res, st.value(self.norm), tokens, width, eps),
                tokens,
                width,
                st.value(self.gate_up),
                gated_width(self.gate_up, width),
                st.value(self.down),
                optional_value(st, self.down_bias),
            ),
            res,
            seq![tokens, width],
        )
    }

    /// Everything that the half layer looks up is there already.
    pub open spec fn warm(
        self,
        be: AscendBackend,
        caches: AscendCaches,
        tokens: i64,
        width: i64,
    ) -> bool {
        &&& be.zeros_ready((tokens * width * 2) as usize)
        &&& weight_warm(caches, self.output, width)
        &&& geglu_warm(
            caches,
            width,
            self.gate_up,
            gated_width(self.gate_up, width),
            self.down,
        )
    }
}

/// Output projection, residual, norm, gated block and residual.
fn language_tail(
    be: &mut AscendBackend,
    caches: &mut AscendCaches,
    attn: &DeviceBuffer,
    x: &DeviceBuffer,
    w: TailBuffers,
    tokens: i64,
    qd: i64,
    width: i64,
    eps: u32,
) -> (out: DeviceBuffer)
    requires
        old(be).wf(),
        old(caches).wf(old(be).state()),
        w.ready(old(be).state(), tokens, qd, width),
        old(be).state().holds(*attn),
        is_lasting(*attn),
        attn.len == tokens * qd * 2,
        old(be).state().holds(*x),
        is_lasting(*x),
        x.len == tokens * width * 2,
    ensures
        final(be).wf(),
        final(be).spec_device() == old(be).spec_device(),
        caches_kept(*old(caches), *final(caches), final(be).state()),
        final(caches).rope == old(caches).rope,
        out.len == tokens * width * 2,
        delivers(
            old(be).state(),
            final(be).state(),
            out,
            w.value(
                old(be).state(),
                old(be).state().value(*attn),
                old(be).state().value(*x),
                tokens,
                qd,
                width,
                eps,
            ),
        ),
        w.warm(*final(be), *final(caches), tokens, width),
        w.warm(*old(be), *old(caches), tokens, width) ==> quiet(old(be).ctx, final(be).ctx)
            && *final(caches) == *old(caches),
{
    let ghost c0 = be.ctx;
    let ghost s0 = be.state();
    let ghost warm = w.warm(*be, *caches, tokens, width);
    let ghost rv = w.residual(s0, s0.value(*attn), s0.value(*x), tokens, qd, width);
    proof {
        be.ctx.lemma_safe();
        lemma_aligned(tokens, width);
        lemma_fits_smaller(aligned_rows(tokens), width, tokens, width);
        lemma_fits(tokens, width);
    }
    let inter: i64 = (w.gate_up.len / 2) as i64 / (width * 2);
    assert(inter == gated_width(w.gate_up, width));
    let res = output_residual(
        &mut be.ctx,
        caches,
        attn,
        tokens,
        qd,
        &w.output,
        w.output_bias,
        width,
        x,
    );
    let ghost c1 = be.ctx;
    let ghost s1 = be.state();
    let ghost k1 = *caches;
    proof {
        be.ctx.lemma_safe();
        lemma_yields(s0, s1, res, rv);
        lemma_settled(s0, s1);
        assert(rows_value(rv, 0, tokens, width) =~= rv);
    }
    let copy = take_rows_fp16(&mut be.ctx, &res, 0, tokens, width);
    let ghost c2 = be.ctx;
    let ghost s2 = be.state();
    proof {
        be.ctx.lemma_safe();
        lemma_gains(s1, s2, copy, rv);
        lemma_settled(s1, s2);
        lemma_delivers_stable(s1, s2, copy, rv);
        assert(s2.value(w.norm) == s0.value(w.norm));
    }
    let norm = be.rms_norm_rows(&copy, &w.norm, tokens, width, eps);
    let ghost c3 = be.ctx;
    let ghost s3 = be.state();
    let ghost nv = layer_norm_rows_value(rv, s0.value(w.norm), tokens, width, eps);
    proof {
        be.ctx.lemma_safe();
        lemma_delivers(s2, s3, norm, nv);
        lemma_settled(s2, s3);
        lemma_delivers_stable(s2, s3, norm, nv);
        lemma_stable_then(s1, s2, s3);
        k1.lemma_stable(s1, s3);
        assert(s3.value(w.gate_up) == s0.value(w.gate_up));
        assert(s3.value(w.down) == s0.value(w.down));
        assert(optional_value(s3, w.down_bias) == optional_value(s0, w.down_bias));
    }
    let mlp = geglu(
        &mut be.ctx,
        caches,
        &norm,
        tokens,
        width,
        &w.gate_up,
        inter,
        &w.down,
        w.down_bias,
    );
    let ghost c4 = be.ctx;
    let ghost s4 = be.state();
    let ghost k4 = *caches;
    let ghost mv = geglu_value(
        nv,
        tokens,
        width,
        s0.value(w.gate_up),
        inter,
        s0.value(w.down),
        optional_value(s0, w.down_bias),
    );
    proof {
        be.ctx.lemma_safe();
        lemma_yields(s3, s4, mlp, mv);
        assert(s3.value(res) == rv);
    }
    let shape: Vec<i64> = vec![tokens, width];
    assert(shape@ =~= seq![tokens, width]);
    let out = add_fp16(&mut be.ctx, &mlp, &res, &shape);
    let ghost c5 = be.ctx;
    drop_temp(&mut be.ctx, mlp, Ghost(s0));
    let ghost c6 = be.ctx;
    drop_temp(&mut be.ctx, norm, Ghost(s0));
    let ghost c7 = be.ctx;
    drop_temp(&mut be.ctx, copy, Ghost(s0));
    let ghost c8 = be.ctx;
    drop_temp(&mut be.ctx, res, Ghost(s0));
    proof {
        let end = be.state();
        match out.base {
            Base::Fresh(id) => {
                assert(end.fresh =~= s0.fresh.insert(
                    id,
                    add_value(mv, rv, seq![tokens, width]),
                ));
            },
            _ => {},
        }
        assert(stable(s4, end));
        k4.lemma_stable(s4, end);
        lemma_quiet_then(c4, c5, c6);
        lemma_quiet_then(c4, c6, c7);
        lemma_quiet_then(c4, c7, c8);
        lemma_quiet_then(c4, c8, be.ctx);
        if warm {
            lemma_quiet_then(c0, c1, c2);
            lemma_quiet_then(c0, c2, c3);
            lemma_quiet_then(c0, c3, c4);
            lemma_quiet_then(c0, c4, be.ctx);
        }
    }
    out
}

/// The buffers of a language layer. A layer whose hidden state nobody needs has no
/// second half.
#[derive(Debug, Clone, Copy)]
pub struct LanguageBuffers {
    pub norm: DeviceBuffer,
    pub qkv: DeviceBuffer,
    pub qkv_bias: Option<DeviceBuffer>,
    pub tail: Option<TailBuffers>,
}

impl LanguageBuffers {
    /// The weights are there and have the sizes that the layer needs.
    pub open spec fn weights_ready(
        self,
        st: DeviceState,
        shape: AttentionShape,
        width: i64,
    ) -> bool {
        &&& projection_ready(
            st,
            self.norm,
            width,
            shape.hidden(),
            self.qkv,
            self.qkv_bias,
            shape,
        )
        &&& self.tail matches Some(t) ==> t.ready(st, shape.tokens, shape.qd(), width)
    }

    /// Input and weights are there and have the sizes that the layer needs.
    pub open spec fn ready(
        self,
        st: DeviceState,
        x: DeviceBuffer,
        shape: AttentionShape,
        width: i64,
    ) -> bool {
        &&& is_fp16(st, x, seq![shape.tokens, width])
        &&& is_lasting(x)
        &&& self.weights_ready(st, shape, width)
    }

    /// The normalized input.
    pub open spec fn normed(
        self,
        st: DeviceState,
        x: Seq<SymByte>,
        shape: AttentionShape,
        width: i64,
        eps: u32,
    ) -> Seq<SymByte> {
        layer_norm_rows_value(x, st.value(self.norm), shape.tokens, width, eps)
    }

    /// The values of the layer.
    pub open spec fn values(
        self,
        st: DeviceState,
        x: Seq<SymByte>,
        shape: AttentionShape,
        width: i64,
        eps: u32,
    ) -> Seq<SymByte> {
        v_value(
            self.normed(st, x, shape, width, eps),
            shape.tokens,
            shape.hidden(),
            st.value(self.qkv),
            optional_value(st, self.qkv_bias),
            shape.qd(),
            shape.kv_d(),
        )
    }

    /// The keys of the layer before they are rotated.
    pub open spec fn raw_keys(
        self,
        st: DeviceState,
        x: Seq<SymByte>,
        shape: AttentionShape,
        width: i64,
        eps: u32,
    ) -> Seq<SymByte> {
        k_value(
            self.normed(st, x, shape, width, eps),
            shape.tokens,
            shape.hidden(),
            st.value(self.qkv),
            optional_value(st, self.qkv_bias),
            shape.qd(),
            shape.kv_d(),
        )
    }

    /// The keys of the layer.
    pub open spec fn keys(
        self,
        st: DeviceState,
        x: Seq<SymByte>,
        shape: AttentionShape,
        width: i64,
        eps: u32,
        max_pos: usize,
    ) -> Seq<SymByte> {
        rotated(shape, self.raw_keys(st, x, shape, width, eps), shape.kv_heads, max_pos)
    }

    /// The attention of the layer.
    pub open spec fn attention(
        self,
        st: DeviceState,
        x: Seq<SymByte>,
        shape: AttentionShape,
        width: i64,
        eps: u32,
        max_pos: usize,
    ) -> Seq<SymByte> {
        self_attention_value(
            shape,
            q_value(
                self.normed(st, x, shape, width, eps),
                shape.tokens,
                shape.hidden(),
                st.value(self.qkv),
                optional_value(st, self.qkv_bias),
                shape.qd(),
                shape.kv_d(),
            ),
            self.raw_keys(st, x, shape, width, eps),
            self.values(st, x, shape, width, eps),
            max_pos,
        )
    }

    /// The hidden state after the layer: without a second half, the input.
    pub open spec fn hidden(
        self,
        st: DeviceState,
        x: Seq<SymByte>,
        shape: AttentionShape,
        width: i64,
        eps: u32,
        max_pos: usize,
    ) -> Seq<SymByte> {
        match self.tail {
            Some(t) => t.value(
                st,
                self.attention(st, x, shape, width, eps, max_pos),
                x,
                shape.tokens,
                shape.qd(),
                width,
                eps,
            ),
            None => x,
        }
    }

    /// Everything that the layer looks up is there already.
    pub open spec fn warm(
        self,
        be: AscendBackend,
        caches: AscendCaches,
        x: DeviceBuffer,
        shape: AttentionShape,
        width: i64,
    ) -> bool {
        &&& attention_warm(be, caches, x, self.qkv, self.qkv_bias, shape)
        &&& self.tail matches Some(t) ==> t.warm(be, caches, shape.tokens, width)
    }

    /// The weights read the same in a later state.
    pub proof fn lemma_same(
        self,
        before: DeviceState,
        after: DeviceState,
        shape: AttentionShape,
        width: i64,
    )
        requires
            before.sane(),
            keeps(before, after),
            self.weights_ready(before, shape, width),
            forall|b: DeviceBuffer| before.holds(b) && is_lasting(b) ==> #[trigger] after.holds(b),
            forall|b: DeviceBuffer|
                before.holds(b) && is_lasting(b) ==> #[trigger] after.value(b) == before.value(b),
        ensures
            self.weights_ready(after, shape, width),
            after.value(self.norm) == before.value(self.norm),
            after.value(self.qkv) == before.value(self.qkv),
            optional_value(after, self.qkv_bias) == optional_value(before, self.qkv_bias),
            self.tail matches Some(t) ==> {
                &&& after.value(t.output) == before.value(t.output)
                &&& optional_value(after, t.output_bias) == optional_value(before, t.output_bias)
                &&& after.value(t.norm) == before.value(t.norm)
                &&& after.value(t.gate_up) == before.value(t.gate_up)
                &&& after.value(t.down) == before.value(t.down)
                &&& optional_value(after, t.down_bias) == optional_value(before, t.down_bias)
            },
    {
        lemma_settled(before, after);
    }
}

/// A layer that was warm stays so while the zero buffer keeps its size.
pub proof fn lemma_language_warm(
    w: LanguageBuffers,
    be: AscendBackend,
    caches: AscendCaches,
    later_be: AscendBackend,
    later: AscendCaches,
    x: DeviceBuffer,
    y: DeviceBuffer,
    shape: AttentionShape,
    width: i64,
)
    requires
        w.warm(be, caches, x, shape, width),
        later.includes(caches),
        later_be.zeros_ready(x.len),
        y.len == x.len,
        x.len == shape.tokens * width * 2,
    ensures
        w.warm(later_be, later, y, shape, width),
{
    let pos = positions_needed(shape.tokens, shape.offset);
    let i = choose|i: int|
        0 <= i < caches.rope.built().len() && (#[trigger] caches.rope.built()[i]).serves(
            shape.theta,
            shape.head_dim,
            pos,
        );
    assert(later.rope.built()[i] == caches.rope.built()[i]);
}

/// What a language layer makes: keys, values and, with a second half, the hidden
/// state.
#[derive(Debug, Clone, Copy)]
pub struct LayerBuffers {
    pub hidden: Option<DeviceBuffer>,
    pub key: DeviceBuffer,
    pub value: DeviceBuffer,
}

/// What a language layer adds to device memory.
pub open spec fn layer_items(
    out: LayerBuffers,
    values: Seq<SymByte>,
    keys: Seq<SymByte>,
    hidden: Seq<SymByte>,
) -> Seq<Item> {
    match out.hidden {
        Some(h) => seq![(out.value, values), (out.key, keys), (h, hidden)],
        None => seq![(out.value, values), (out.key, keys)],
    }
}

/// A language layer on buffers.
pub fn language_layer(
    be: &mut AscendBackend,
    caches: &mut AscendCaches,
    x: &DeviceBuffer,
    w: LanguageBuffers,
    shape: AttentionShape,
    width: i64,
    eps: u32,
) -> (out: LayerBuffers)
    requires
        old(be).wf(),
        old(caches).wf(old(be).state()),
        w.ready(old(be).state(), *x, shape, width),
    ensures
        final(be).wf(),
        final(be).spec_device() == old(be).spec_device(),
        caches_kept(*old(caches), *final(caches), final(be).state()),
        shape.table_span(*final(caches)) == shape.table_span(*old(caches)),
        out.hidden is Some == w.tail is Some,
        out.value.len == shape.tokens * shape.kv_d() * 2,
        out.key.len == shape.tokens * shape.kv_d() * 2,
        out.hidden matches Some(h) ==> h.len == x.len,
        ({
            let st = old(be).state();
            let xv = st.value(*x);
            let mp = shape.table_span(*old(caches));
            owns(
                st,
                final(be).state(),
                layer_items(
                    out,
                    w.values(st, xv, shape, width, eps),
                    w.keys(st, xv, shape, width, eps, mp),
                    w.hidden(st, xv, shape, width, eps, mp),
                ),
            )
        }),
        w.warm(*final(be), *final(caches), *x, shape, width),
        w.warm(*old(be), *old(caches), *x, shape, width) ==> quiet(old(be).ctx, final(be).ctx)
            && *final(caches) == *old(caches),
{
    let ghost c0 = be.ctx;
    let ghost s0 = be.state();
    let ghost xv = s0.value(*x);
    let ghost mp = shape.table_span(*caches);
    let ghost warm = w.warm(*be, *caches, *x, shape, width);
    let ghost vv = w.values(s0, xv, shape, width, eps);
    let ghost kv = w.keys(s0, xv, shape, width, eps, mp);
    let ghost av = w.attention(s0, xv, shape, width, eps, mp);
    proof {
        be.ctx.lemma_safe();
        lemma_attention_sizes(shape);
        lemma_fits(shape.tokens, width);
    }
    let qd: i64 = shape.heads * shape.head_dim;
    let hidden: i64 = if shape.heads >= shape.kv_heads {
        qd
    } else {
        shape.kv_heads * shape.head_dim
    };
    let (value, key, attn) = language_attention(
        be,
        caches,
        x,
        &w.norm,
        width,
        hidden,
        &w.qkv,
        w.qkv_bias,
        shape,
        eps,
    );
    let ghost c1 = be.ctx;
    let ghost s1 = be.state();
    let ghost k1 = *caches;
    proof {
        be.ctx.lemma_safe();
        lemma_delivers_three(s0, s1, value, vv, key, kv, attn, av);
        lemma_owns_three(s0, s1, value, vv, key, kv, attn, av);
        w.lemma_same(s0, s1, shape, width);
    }
    match w.tail {
        None => {
            drop_temp(&mut be.ctx, attn, Ghost(s0));
            proof {
                let items = seq![(value, vv), (key, kv), (attn, av)];
                lemma_owns_drop(s0, s1, be.state(), items, 2);
                assert(items.remove(2) =~= seq![(value, vv), (key, kv)]);
                lemma_dropped_stable(s1, be.state(), attn);
                k1.lemma_stable(s1, be.state());
                if warm {
                    lemma_quiet_then(c0, c1, be.ctx);
                }
            }
            LayerBuffers { hidden: None, key, value }
        },
        Some(t) => {
            let h = language_tail(be, caches, &attn, x, t, shape.tokens, qd, width, eps);
            let ghost c2 = be.ctx;
            let ghost s2 = be.state();
            let ghost k2 = *caches;
            let ghost hv = w.hidden(s0, xv, shape, width, eps, mp);
            proof {
                be.ctx.lemma_safe();
                assert(hv == t.value(s1, av, xv, shape.tokens, qd, width, eps));
                lemma_owns_one(s1, s2, h, hv);
                let items = seq![(value, vv), (key, kv), (attn, av)];
                lemma_owns_then(s0, s1, s2, items, seq![(h, hv)]);
                assert((items + seq![(h, hv)])[2] == (attn, av));
                assert(is_item(items[2], s1.fresh, s0.issued, s1.issued));
            }
            drop_temp(&mut be.ctx, attn, Ghost(s0));
            proof {
                let items = seq![(value, vv), (key, kv), (attn, av)] + seq![(h, hv)];
                lemma_owns_drop(s0, s2, be.state(), items, 2);
                assert(items.remove(2) =~= seq![(value, vv), (key, kv), (h, hv)]);
                lemma_dropped_stable(s2, be.state(), attn);
                k2.lemma_stable(s2, be.state());
                if warm {
                    lemma_quiet_then(c0, c1, c2);
                    lemma_quiet_then(c0, c2, be.ctx);
                }
            }
            LayerBuffers { hidden: Some(h), key, value }
        },
    }
}

/// What is wrong with the weights of the second half of a layer.
pub open spec fn tail_error(w: Bf16DeviceLanguageLayer) -> Option<ErrorView> {
    first_error(
        linear_error(w.output),
        first_error(
            operand_error(w.post_attention_norm_scale@),
            first_error(w.gate_up.weight@.residency_error(), linear_error(w.down)),
        ),
    )
}

/// What is wrong with the weights of a layer.
pub open spec fn language_weights_error(w: Bf16DeviceLanguageLayer, tail: bool) -> Option<
    ErrorView,
> {
    first_error(
        operand_error(w.input_norm_scale@),
        first_error(
            linear_error(w.qkv),
            if tail {
                tail_error(w)
            } else {
                None
            },
        ),
    )
}

/// The buffers behind the weights of a layer.
pub open spec fn language_buffers(w: Bf16DeviceLanguageLayer, tail: bool) -> LanguageBuffers {
    LanguageBuffers {
        norm: w.input_norm_scale@.on_device(),
        qkv: w.qkv.weight@.on_device(),
        qkv_bias: optional_buffer(w.qkv.bias),
        tail: if tail {
            Some(
                TailBuffers {
                    output: w.output.weight@.on_device(),
                    output_bias: optional_buffer(w.output.bias),
                    norm: w.post_attention_norm_scale@.on_device(),
                    gate_up: w.gate_up.weight@.on_device(),
                    down: w.down.weight@.on_device(),
                    down_bias: optional_buffer(w.down.bias),
                },
            )
        } else {
            None
        },
    }
}

/// Find the buffers of a layer.
pub fn resolve_language(w: &Bf16DeviceLanguageLayer, tail: bool) -> (r: Result<
    LanguageBuffers,
    Error,
>)
    ensures
        match r {
            Ok(b) => language_weights_error(*w, tail) is None && b == language_buffers(*w, tail),
            Err(e) => language_weights_error(*w, tail) == Some(e@),
        },
{
    let norm = AscendBackend::buf(&w.input_norm_scale)?;
    let (qkv, qkv_bias) = linear_buffers(&w.qkv)?;
    if !tail {
        return Ok(LanguageBuffers { norm, qkv, qkv_bias, tail: None });
    }
    let (output, output_bias) = linear_buffers(&w.output)?;
    let post_norm = AscendBackend::buf(&w.post_attention_norm_scale)?;
    let gate_up = tensor_buf(&w.gate_up.weight)?;
    let (down, down_bias) = linear_buffers(&w.down)?;
    let tail = TailBuffers { output, output_bias, norm: post_norm, gate_up, down, down_bias };
    Ok(LanguageBuffers { norm, qkv, qkv_bias, tail: Some(tail) })
}

/// The counts of a stack are descriptor dimensions.
pub open spec fn config_fits(config: GemmaVariantConfig) -> bool {
    &&& config.num_heads <= i64::MAX
    &&& config.num_kv_heads <= i64::MAX
    &&& config.head_dim <= i64::MAX
}

/// The attention sizes of a layer of a stack.
pub open spec fn attention_shape(
    config: GemmaVariantConfig,
    tokens: usize,
    offset: usize,
    theta: u32,
) -> AttentionShape {
    AttentionShape {
        tokens: tokens as i64,
        heads: config.num_heads as i64,
        kv_heads: config.num_kv_heads as i64,
        head_dim: config.head_dim as i64,
        offset,
        theta,
    }
}

/// The result of [`language_layer_ascend`].
#[derive(Debug)]
pub struct LanguageLayerOutput {
    pub hidden: Tensor,
    pub key: Tensor,
    pub value: Tensor,
}

/// A language layer: norm, attention and, where the hidden state is needed, the
/// rest. Errors are found before anything is recorded.
pub fn language_layer_ascend(
    be: &mut AscendBackend,
    caches: &mut AscendCaches,
    config: GemmaVariantConfig,
    weights: &Bf16DeviceLanguageLayer,
    input: &Tensor,
    compute_tail: bool,
    position_offset: usize,
    rms_eps: u32,
    rope_theta: u32,
) -> (r: Result<LanguageLayerOutput, Error>)
    requires
        old(be).wf(),
        old(caches).wf(old(be).state()),
        dims_fit(input@.dims),
        config_fits(config),
        first_error(matrix_error(input@), language_weights_error(*weights, compute_tail)) is None
            ==> language_buffers(*weights, compute_tail).ready(
            old(be).state(),
            input@.on_device(),
            attention_shape(config, input@.dims[0], position_offset, rope_theta),
            input@.dims[1] as i64,
        ),
    ensures
        match r {
            Err(e) => {
                &&& first_error(
                    matrix_error(input@),
                    language_weights_error(*weights, compute_tail),
                ) == Some(e@)
                &&& *final(be) == *old(be)
                &&& *final(caches) == *old(caches)
            },
            Ok(out) => {
                let st = old(be).state();
                let w = language_buffers(*weights, compute_tail);
                let shape = attention_shape(
                    config,
                    input@.dims[0],
                    position_offset,
                    rope_theta,
                );
                let width = input@.dims[1] as i64;
                let xv = held(st, input@);
                let mp = shape.table_span(*old(caches));
                let kv_dims = seq![input@.dims[0], shape.kv_d() as usize];
                let device = old(be).spec_device();
                &&& first_error(
                    matrix_error(input@),
                    language_weights_error(*weights, compute_tail),
                ) is None
                &&& final(be).wf()
                &&& final(be).spec_device() == device
                &&& caches_kept(*old(caches), *final(caches), final(be).state())
                &&& out.key@ == wrapped(device, out.key@.on_device(), kv_dims)
                &&& out.value@ == wrapped(device, out.value@.on_device(), kv_dims)
                &&& if compute_tail {
                    out.hidden@ == wrapped(device, out.hidden@.on_device(), input@.dims)
                } else {
                    out.hidden@ == input@
                }
                &&& owns(
                    st,
                    final(be).state(),
                    layer_items(
                        (LayerBuffers {
                            hidden: if compute_tail {
                                Some(out.hidden@.on_device())
                            } else {
                                None
                            },
                            key: out.key@.on_device(),
                            value: out.value@.on_device(),
                        }),
                        w.values(st, xv, shape, width, rms_eps),
                        w.keys(st, xv, shape, width, rms_eps, mp),
                        w.hidden(st, xv, shape, width, rms_eps, mp),
                    ),
                )
                &&& compute_tail ==> {
                    let size = shape.tokens * width;
                    let projected = linear_bias_value(
                        w.attention(st, xv, shape, width, rms_eps, mp),
                        shape.tokens,
                        shape.qd(),
                        held(st, weights.output.weight@),
                        bias_on(st, weights.output),
                        width,
                    );
                    let residual = words(
                        size,
                        |e: int| plus_word(word(projected, e), word(xv, e)),
                    );
                    let block = geglu_value(
                        rms_norm_value(
                            residual,
                            filled((2 * size) as nat, 0),
                            held(st, weights.post_attention_norm_scale@),
                            shape.tokens,
                            width,
                            Real::Single(rms_eps),
                        ),
                        shape.tokens,
                        width,
                        held(st, weights.gate_up.weight@),
                        gated_width(weights.gate_up.weight@.on_device(), width),
                        held(st, weights.down.weight@),
                        bias_on(st, weights.down),
                    );
                    adds_up(held(final(be).state(), out.hidden@), block, projected, xv, size)
                }
                &&& w.warm(*final(be), *final(caches), input@.on_device(), shape, width)
                &&& w.warm(*old(be), *old(caches), input@.on_device(), shape, width) ==> quiet(
                    old(be).ctx,
                    final(be).ctx,
                ) && *final(caches) == *old(caches)
            },
        },
{
    let x = AscendBackend::matrix(input)?;
    let w = resolve_language(weights, compute_tail)?;
    let tokens: usize = input.dims[0];
    let width: usize = input.dims[1];
    let shape = AttentionShape {
        tokens: tokens as i64,
        heads: config.num_heads as i64,
        kv_heads: config.num_kv_heads as i64,
        head_dim: config.head_dim as i64,
        offset: position_offset,
        theta: rope_theta,
    };
    proof {
        lemma_attention_sizes(shape);
    }
    let ghost st = be.state();
    let ghost xv = st.value(x);
    let ghost mp = shape.table_span(*caches);
    proof {
        be.ctx.lemma_safe();
    }
    let out = language_layer(be, caches, &x, w, shape, width as i64, rms_eps);
    proof {
        if compute_tail {
            lemma_language_stream(st, *weights, xv, shape, width as i64, rms_eps, mp);
            let items = layer_items(
                out,
                w.values(st, xv, shape, width as i64, rms_eps),
                w.keys(st, xv, shape, width as i64, rms_eps, mp),
                w.hidden(st, xv, shape, width as i64, rms_eps, mp),
            );
            lemma_owns(st, be.state(), items);
            assert(items[2] == (
                out.hidden->0,
                w.hidden(st, xv, shape, width as i64, rms_eps, mp),
            ));
        }
    }
    let kv_d: usize = (shape.kv_heads * shape.head_dim) as usize;
    let key_dims: Vec<usize> = vec![tokens, kv_d];
    let value_dims: Vec<usize> = vec![tokens, kv_d];
    assert(key_dims@ =~= seq![tokens, shape.kv_d() as usize]);
    assert(value_dims@ =~= seq![tokens, shape.kv_d() as usize]);
    let hidden = match out.hidden {
        Some(h) => {
            let dims: Vec<usize> = vec![tokens, width];
            assert(dims@ =~= input@.dims);
            be.wrap_fp16(h, dims)
        },
        None => input.share(),
    };
    let key = be.wrap_fp16(out.key, key_dims);
    let value = be.wrap_fp16(out.value, value_dims);
    Ok(LanguageLayerOutput { hidden, key, value })
}

} // verus!
