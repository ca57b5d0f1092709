//! Sizes of attention layers, and the rotation of their queries and keys.

use vstd::prelude::*;

use crate::cache::RowKey;
use crate::capture::{lemma_quiet_then, quiet};
use crate::context::AscendContext;
use crate::device::{Base, DeviceBuffer};
use crate::executor::caches::{caches_kept, AscendCaches};
use crate::executor::frame::is_whole;
use crate::executor::rotate::{apply_rope_rows, rope_ready, row_words};
use crate::ops::attention::{bsh_attention_value, heads_fit, row_width};
use crate::rope::{positions_needed, rope_rows_value, span};
use crate::semantics::{is_lasting, keeps, lemma_yields, SymByte};
use crate::tensor::{fits, lemma_fits};

verus! {

/// Sizes of an attention layer.
#[derive(Debug, Clone, Copy, PartialEq, Eq, Structural)]
pub struct AttentionShape {
    pub tokens: i64,
    pub heads: i64,
    pub kv_heads: i64,
    pub head_dim: i64,
    /// Position of the first token.
    pub offset: usize,
    /// Base frequency of the rotation, a single-precision pattern.
    pub theta: u32,
}

impl AttentionShape {
    /// Width of the queries.
    pub open spec fn qd(self) -> i64 {
        row_width(self.heads, self.head_dim)
    }

    /// Width of the keys and values.
    pub open spec fn kv_d(self) -> i64 {
        row_width(self.kv_heads, self.head_dim)
    }

    /// Width of the rows that the fused projection of a language layer reads: that
    /// of the larger of queries and keys.
    pub open spec fn hidden(self) -> i64 {
        if self.heads >= self.kv_heads {
            self.qd()
        } else {
            self.kv_d()
        }
    }

    /// The layer has tokens and heads, and everything it makes can be described.
    pub open spec fn fits(self) -> bool {
        &&& 0 < self.tokens <= i64::MAX - 16
        &&& 0 < self.heads
        &&& 0 < self.kv_heads
        &&& 0 <= self.head_dim
        &&& (self.heads + 2 * self.kv_heads) * self.head_dim <= i64::MAX
        &&& self.tokens * self.heads <= i64::MAX
        &&& fits((self.tokens * self.heads) as i64, self.head_dim)
        &&& self.tokens * self.kv_heads <= i64::MAX
        &&& fits((self.tokens * self.kv_heads) as i64, self.head_dim)
        &&& self.offset + self.tokens <= i64::MAX
        &&& self.offset + self.tokens <= usize::MAX
        &&& fits(positions_needed(self.tokens, self.offset) as i64, self.head_dim)
    }

    /// The length of the position tables that the layer uses.
    pub open spec fn table_span(self, caches: AscendCaches) -> usize {
        span(
            caches.rope.built(),
            self.theta,
            self.head_dim,
            positions_needed(self.tokens, self.offset),
        )
    }

    /// Everything that rotating queries and keys looks up is there already.
    pub open spec fn rope_warm(self, caches: AscendCaches) -> bool {
        &&& caches.rope.has(
            self.theta,
            self.head_dim,
            positions_needed(self.tokens, self.offset),
        )
        &&& caches.rows.has(
            RowKey::Positions { tokens: self.tokens, heads: self.heads, offset: self.offset },
        )
        &&& caches.rows.has(
            RowKey::Positions { tokens: self.tokens, heads: self.kv_heads, offset: self.offset },
        )
    }
}

/// Queries or keys of `heads` heads, rotated.
pub open spec fn rotated(
    shape: AttentionShape,
    x: Seq<SymByte>,
    heads: i64,
    max_pos: usize,
) -> Seq<SymByte> {
    rope_rows_value(x, shape.tokens, heads, shape.head_dim, shape.theta, shape.offset, max_pos)
}

pub proof fn lemma_attention_sizes(shape: AttentionShape)
    requires
        shape.fits(),
    ensures
        shape.qd() == shape.heads * shape.head_dim,
        shape.kv_d() == shape.kv_heads * shape.head_dim,
        0 <= shape.kv_d(),
        0 <= shape.qd(),
        shape.qd() <= shape.hidden(),
        shape.kv_d() <= shape.hidden(),
        shape.qd() + 2 * shape.kv_d() <= i64::MAX,
        heads_fit(shape.heads, shape.head_dim),
        heads_fit(shape.kv_heads, shape.head_dim),
        shape.tokens * shape.qd() == shape.tokens * shape.heads * shape.head_dim,
        shape.tokens * shape.kv_d() == shape.tokens * shape.kv_heads * shape.head_dim,
        shape.tokens * shape.kv_heads <= i64::MAX,
        fits((shape.tokens * shape.kv_heads) as i64, shape.head_dim),
{
    let t = shape.tokens;
    let h = shape.heads;
    let k = shape.kv_heads;
    let d = shape.head_dim;
    assert(0 <= k * d && 0 <= h * d && (h + 2 * k) * d == h * d + 2 * (k * d))
        by (nonlinear_arith)
        requires
            0 < k,
            0 < h,
            0 <= d,
    ;
    assert(h >= k ==> k * d <= h * d) by (nonlinear_arith)
        requires
            0 <= d,
    ;
    assert(h < k ==> h * d <= k * d) by (nonlinear_arith)
        requires
            0 <= d,
    ;
    assert(t * (h * d) == t * h * d && t * (k * d) == t * k * d) by (nonlinear_arith);
}

/// A buffer of one row per token and head has rows of the head width.
pub proof fn lemma_row_words(x: DeviceBuffer, tokens: i64, heads: i64, d: i64)
    requires
        tokens > 0,
        heads > 0,
        d >= 0,
        x.len == tokens * heads * d * 2,
    ensures
        row_words(x, tokens, heads) == d,
{
    let n = tokens * heads;
    assert(n > 0) by (nonlinear_arith)
        requires
            tokens > 0,
            heads > 0,
            n == tokens * heads,
    ;
    assert((x.len / 2) as int == n * d);
    vstd::arithmetic::div_mod::lemma_fundamental_div_mod_converse(n * d, n, d as int, 0);
}

/// Queries, keys and values after the rotation, and the attention over them.
pub open spec fn self_attention_value(
    shape: AttentionShape,
    q: Seq<SymByte>,
    k: Seq<SymByte>,
    v: Seq<SymByte>,
    max_pos: usize,
) -> Seq<SymByte> {
    bsh_attention_value(
        rotated(shape, q, shape.heads, max_pos),
        rotated(shape, k, shape.kv_heads, max_pos),
        v,
        shape.tokens,
        shape.heads,
        shape.kv_heads,
        shape.head_dim,
        None,
    )
}

/// Rotate queries and keys.
pub fn rotate_pair(
    ctx: &mut AscendContext,
    caches: &mut AscendCaches,
    q: &DeviceBuffer,
    k: &DeviceBuffer,
    shape: AttentionShape,
) -> (out: (DeviceBuffer, DeviceBuffer))
    requires
        old(ctx).wf(),
        old(caches).wf(old(ctx).state()),
        shape.fits(),
        old(ctx).state().holds(*q),
        is_lasting(*q),
        q.len == shape.tokens * shape.qd() * 2,
        old(ctx).state().holds(*k),
        is_lasting(*k),
        k.len == shape.tokens * shape.kv_d() * 2,
    ensures
        final(ctx).continues(old(ctx)),
        caches_kept(*old(caches), *final(caches), final(ctx).state()),
        final(caches).nz == old(caches).nz,
        shape.table_span(*final(caches)) == shape.table_span(*old(caches)),
        final(ctx).state().slots == old(ctx).state().slots,
        keeps(old(ctx).state(), final(ctx).state()),
        out.0.len == q.len,
        out.1.len == k.len,
        ({
            let st = old(ctx).state();
            let end = final(ctx).state();
            let mp = shape.table_span(*old(caches));
            let qv = rotated(shape, st.value(*q), shape.heads, mp);
            let kv = rotated(shape, st.value(*k), shape.kv_heads, mp);
            match (out.0.base, out.1.base) {
                (Base::Fresh(i), Base::Fresh(j)) => {
                    &&& is_whole(out.0, i, qv)
                    &&& is_whole(out.1, j, kv)
                    &&& st.issued <= i < j < end.issued
                    &&& end.fresh == st.fresh.insert(i, qv).insert(j, kv)
                },
                _ => false,
            }
        }),
        shape.rope_warm(*final(caches)),
        shape.rope_warm(*old(caches)) ==> quiet(*old(ctx), *final(ctx)) && *final(caches) == *old(
            caches,
        ),
{
    let ghost c0 = *ctx;
    let ghost s0 = ctx.state();
    let ghost warm = shape.rope_warm(*caches);
    let ghost mp = shape.table_span(*caches);
    proof {
        ctx.lemma_safe();
        lemma_attention_sizes(shape);
        lemma_fits((shape.tokens * shape.heads) as i64, shape.head_dim);
        lemma_fits((shape.tokens * shape.kv_heads) as i64, shape.head_dim);
        lemma_row_words(*q, shape.tokens, shape.heads, shape.head_dim);
        lemma_row_words(*k, shape.tokens, shape.kv_heads, shape.head_dim);
    }
    let q_rope = apply_rope_rows(
        ctx,
        caches,
        q,
        shape.tokens,
        shape.heads,
        shape.theta,
        shape.offset,
    );
    let ghost c1 = *ctx;
    let ghost s1 = ctx.state();
    proof {
        ctx.lemma_safe();
        lemma_yields(s0, s1, q_rope, rotated(shape, s0.value(*q), shape.heads, mp));
        assert(s1.holds(*k));
        assert(shape.tokens * shape.kv_heads > 0) by (nonlinear_arith)
            requires
                shape.tokens > 0,
                shape.kv_heads > 0,
        ;
        assert(rope_ready(s1, *k, shape.tokens, shape.kv_heads, shape.offset));
    }
    let k_rope = apply_rope_rows(
        ctx,
        caches,
        k,
        shape.tokens,
        shape.kv_heads,
        shape.theta,
        shape.offset,
    );
    proof {
        if warm {
            lemma_quiet_then(c0, c1, *ctx);
        }
    }
    (q_rope, k_rope)
}

} // verus!
