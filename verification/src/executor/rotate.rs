//! Rotating the rows of queries and keys.

use vstd::prelude::*;

use crate::cache::{lemma_delivers_stable, lemma_only_kept, RowKey};
use crate::capture::{lemma_quiet, lemma_quiet_then, quiet};
use crate::context::AscendContext;
use crate::device::{Base, Call, DeviceBuffer};
use crate::encode::{index_bytes, positions};
use crate::executor::caches::{caches_kept, AscendCaches};
use crate::ops::rotary::rope_rotate_half_fp16;
use crate::rope::{gather_positions, position_rows, positions_needed, rope_rows_value, span};
use crate::semantics::{
    is_lasting, lemma_releasable, lemma_yields, literal, yields, DeviceState,
};
use crate::tensor::{fits, lemma_fits, lemma_one_dim};

verus! {

/// Words in each row of a buffer with one row for every token and head.
pub open spec fn row_words(x: DeviceBuffer, tokens: i64, heads: i64) -> i64 {
    ((x.len / 2) as int / (tokens * heads)) as i64
}

/// `x` holds one row for every token and head, and tables for its positions can be
/// described.
pub open spec fn rope_ready(
    st: DeviceState,
    x: DeviceBuffer,
    tokens: i64,
    heads: i64,
    offset: usize,
) -> bool {
    let d = row_words(x, tokens, heads);
    &&& tokens > 0
    &&& heads > 0
    &&& tokens * heads <= i64::MAX
    &&& st.holds(x)
    &&& is_lasting(x)
    &&& x.len <= i64::MAX
    &&& fits((tokens * heads) as i64, d)
    &&& x.len == tokens * heads * d * 2
    &&& offset + tokens <= i64::MAX
    &&& offset + tokens <= usize::MAX
    &&& fits(positions_needed(tokens, offset) as i64, d)
}

/// Everything that rotating these rows looks up is there already.
pub open spec fn rope_warm(
    caches: AscendCaches,
    x: DeviceBuffer,
    tokens: i64,
    heads: i64,
    theta: u32,
    offset: usize,
) -> bool {
    &&& caches.rope.has(theta, row_words(x, tokens, heads), positions_needed(tokens, offset))
    &&& caches.rows.has(RowKey::Positions { tokens, heads, offset })
}

/// The length of the tables that rotating these rows uses.
pub open spec fn rope_span(
    caches: AscendCaches,
    x: DeviceBuffer,
    tokens: i64,
    heads: i64,
    theta: u32,
    offset: usize,
) -> usize {
    span(
        caches.rope.built(),
        theta,
        row_words(x, tokens, heads),
        positions_needed(tokens, offset),
    )
}

/// Rotate the rows of `x`, which holds `heads` rows for every token, by the angles
/// of the tokens' positions, which start at `pos_offset`.
pub fn apply_rope_rows(
    ctx: &mut AscendContext,
    caches: &mut AscendCaches,
    x: &DeviceBuffer,
    tokens: i64,
    heads: i64,
    theta: u32,
    pos_offset: usize,
) -> (out: DeviceBuffer)
    requires
        old(ctx).wf(),
        old(caches).wf(old(ctx).state()),
        rope_ready(old(ctx).state(), *x, tokens, heads, pos_offset),
    ensures
        final(ctx).continues(old(ctx)),
        caches_kept(*old(caches), *final(caches), final(ctx).state()),
        out.len == x.len,
        yields(
            old(ctx).state(),
            final(ctx).state(),
            out,
            rope_rows_value(
                old(ctx).state().value(*x),
                tokens,
                heads,
                row_words(*x, tokens, heads),
                theta,
                pos_offset,
                rope_span(*old(caches), *x, tokens, heads, theta, pos_offset),
            ),
        ),
        rope_span(*final(caches), *x, tokens, heads, theta, pos_offset) == rope_span(
            *old(caches),
            *x,
            tokens,
            heads,
            theta,
            pos_offset,
        ),
        rope_warm(*final(caches), *x, tokens, heads, theta, pos_offset),
        final(caches).nz == old(caches).nz,
        rope_warm(*old(caches), *x, tokens, heads, theta, pos_offset) ==> quiet(
            *old(ctx),
            *final(ctx),
        ) && *final(caches) == *old(caches),
{
    let ghost c0 = *ctx;
    let ghost s0 = ctx.state();
    let ghost k0 = *caches;
    let ghost xv = s0.value(*x);
    proof {
        ctx.lemma_safe();
        assert(tokens * heads > 0) by (nonlinear_arith)
            requires
                tokens > 0,
                heads > 0,
        ;
    }
    let rows: i64 = tokens * heads;
    let total: i64 = (x.len / 2) as i64;
    let d: i64 = total / rows;
    assert(d == row_words(*x, tokens, heads));
    proof {
        lemma_fits(rows, d);
    }
    let pos_buf = caches.rows.positions(ctx, tokens, heads, pos_offset);
    let ghost c1 = *ctx;
    let ghost s1 = ctx.state();
    proof {
        lemma_only_kept(s0, s1);
        k0.lemma_stable(s0, s1);
    }
    let reach: usize = pos_offset + tokens as usize;
    let needed: usize = if reach > 1 {
        reach
    } else {
        1
    };
    let t = caches.rope.tables(ctx, theta, d, needed);
    let ghost c2 = *ctx;
    let ghost s2 = ctx.state();
    let ghost k2 = *caches;
    proof {
        ctx.lemma_safe();
        lemma_only_kept(s1, s2);
        caches.rows.lemma_stable(s1, s2);
        k0.lemma_stable(s1, s2);
        assert(k2.wf(s2));
        assert(s2.holds(pos_buf));
        assert(s2.value(pos_buf) == s1.value(pos_buf));
    }
    let (cos_pos, sin_pos) = gather_positions(ctx, &t, &pos_buf, rows);
    let ghost c3 = *ctx;
    let ghost s3 = ctx.state();
    let ghost pv = literal(index_bytes(rows as nat, positions(heads as int, pos_offset as int)));
    let ghost sv = position_rows(s2.value(t.sin_signed), t.max_pos as i64, d, pv, rows);
    proof {
        ctx.lemma_safe();
        lemma_yields(s2, s3, sin_pos, sv);
        assert(s2.value(*x) == xv);
        assert(s3.value(*x) == xv);
        assert(s3.holds(*x));
        assert(s3.holds(t.rot_idx));
        assert(s3.value(t.rot_idx) == s2.value(t.rot_idx));
        lemma_one_dim(d);
    }
    let out = rope_rotate_half_fp16(ctx, x, rows, d, &cos_pos, &sin_pos, &t.rot_idx);
    let ghost c4 = *ctx;
    let ghost s4 = ctx.state();
    proof {
        match sin_pos.base {
            Base::Fresh(id) => {
                lemma_releasable(s2, s4, id);
            },
            _ => {},
        }
    }
    ctx.release(sin_pos);
    proof {
        let end = ctx.state();
        let value = rope_rows_value(xv, tokens, heads, d, theta, pos_offset, t.max_pos);
        match out.base {
            Base::Fresh(id) => {
                assert(end.fresh =~= s0.fresh.insert(id, value));
            },
            _ => {},
        }
        assert(yields(s0, end, out, value));
        lemma_delivers_stable(s2, end, out, value);
        k2.lemma_stable(s2, end);
        lemma_quiet(c4, *ctx, seq![Call::Release { base: sin_pos.base }]);
        lemma_quiet_then(c2, c3, c4);
        lemma_quiet_then(c2, c4, *ctx);
    }
    out
}

} // verus!
