//! Linear layers and the fused attention projection.

use vstd::prelude::*;

use crate::cache::{
    lemma_delivers_stable, lemma_only_kept, only_kept, stable, RowKey,
};
use crate::capture::{lemma_quiet_then, quiet};
use crate::context::AscendContext;
use crate::device::{Base, DeviceBuffer};
use crate::executor::caches::{caches_kept, weight_warm, AscendCaches};
use crate::executor::frame::{
    delivers_three, drop_temp, is_whole, lemma_delivers_three, lemma_settled,
};
use crate::host::{lemma_transposed_element, transpose_words};
use crate::ops::elementwise::{bias_add_fp16, bias_value};
use crate::ops::is_fp16;
use crate::ops::matmul::{
    aligned_rows, lemma_aligned, matmul_b_t_fp16, matmul_value, transposed,
};
use crate::ops::rows::{columns_value, rows_value, take_columns_fp16, take_rows_fp16};
use crate::semantics::{
    gains, is_lasting, keeps, lemma_gains, lemma_yields, yields, DeviceState, SymByte,
};
use crate::tensor::{fits, lemma_fits, lemma_fits_smaller};

verus! {

/// What [`matmul`] computes: the product of `a` and the weight `w`, which the
/// kernel reads through a transposed view of the transposed weight.
#[verifier::opaque]
pub open spec fn linear_value(
    a: Seq<SymByte>,
    ash: [i64; 2],
    w: Seq<SymByte>,
    bsh: [i64; 2],
) -> Seq<SymByte> {
    matmul_value(
        a,
        ash[0],
        ash[1],
        transposed(
            transpose_words(
                w,
                (w.len() / 2) as int / bsh[1] as int,
                bsh[1] as int,
                SymByte::Lit(0),
            ),
            bsh[0],
            bsh[1],
        ),
        bsh[1],
    )
}

/// The right operand of [`matmul`] reads element `(i, j)` of the weight at position
/// `(i, j)`, byte by byte.
pub proof fn lemma_linear_operand(w: Seq<SymByte>, k: i64, n: i64, i: int, j: int, b: int)
    requires
        0 <= i < k,
        0 <= j < n,
        0 <= b < 2,
        w.len() == k * n * 2,
    ensures
        ({
            let operand = transposed(
                transpose_words(
                    w,
                    (w.len() / 2) as int / n as int,
                    n as int,
                    SymByte::Lit(0),
                ),
                k,
                n,
            );
            let at = i * operand.strides[0] + j * operand.strides[1];
            operand.bytes[2 * at + b] == w[2 * (i * n + j) + b]
        }),
{
    let rows = (w.len() / 2) as int / n as int;
    assert(k * n == n * k) by (nonlinear_arith);
    vstd::arithmetic::div_mod::lemma_fundamental_div_mod_converse(
        (k * n) as int,
        n as int,
        k as int,
        0,
    );
    assert(rows == k);
    lemma_transposed_element(w, k as int, n as int, i, j, b, SymByte::Lit(0));
}

/// `w` is a weight on the device that the host may read back, with at least
/// `bsh[0]` rows of `bsh[1]` columns.
pub open spec fn is_weight(st: DeviceState, w: DeviceBuffer, bsh: [i64; 2]) -> bool {
    &&& st.holds(w)
    &&& st.settled(w)
    &&& is_lasting(w)
    &&& w.len <= i64::MAX
    &&& bsh[0] >= 0
    &&& bsh[1] > 0
    &&& bsh[0] * bsh[1] * 2 <= w.len / 2 * 2
}

/// `a` is live and holds the left operand `[ash[0], ash[1]]` of a product with `n`
/// columns. Only an operand that is copied to be padded may be longer.
pub open spec fn is_left_operand(st: DeviceState, a: DeviceBuffer, ash: [i64; 2], n: i64) -> bool {
    &&& ash[0] >= 0
    &&& ash[0] <= i64::MAX - 16
    &&& fits(aligned_rows(ash[0]), ash[1])
    &&& fits(aligned_rows(ash[0]), n)
    &&& st.holds(a)
    &&& is_lasting(a)
    &&& ash[0] * ash[1] * 2 <= a.len
    &&& ash[0] % 16 == 0 ==> a.len == ash[0] * ash[1] * 2
}

/// `a @ w` through the transposed weight.
pub fn matmul(
    ctx: &mut AscendContext,
    caches: &mut AscendCaches,
    a: &DeviceBuffer,
    ash: [i64; 2],
    w: &DeviceBuffer,
    bsh: [i64; 2],
) -> (out: DeviceBuffer)
    requires
        old(ctx).wf(),
        old(caches).wf(old(ctx).state()),
        is_weight(old(ctx).state(), *w, bsh),
        is_left_operand(old(ctx).state(), *a, ash, bsh[1]),
    ensures
        final(ctx).continues(old(ctx)),
        caches_kept(*old(caches), *final(caches), final(ctx).state()),
        final(caches).rope == old(caches).rope,
        out.len == ash[0] * bsh[1] * 2,
        yields(
            old(ctx).state(),
            final(ctx).state(),
            out,
            linear_value(
                old(ctx).state().value(*a),
                ash,
                old(ctx).state().value(*w),
                bsh,
            ),
        ),
        weight_warm(*final(caches), *w, bsh[1]),
        weight_warm(*old(caches), *w, bsh[1]) ==> quiet(*old(ctx), *final(ctx))
            && *final(caches) == *old(caches),
{
    let ghost s0 = ctx.state();
    let ghost k0 = *caches;
    let bt = caches.weight(ctx, w, bsh[1]);
    let ghost s1 = ctx.state();
    proof {
        lemma_only_kept(s0, s1);
        k0.lemma_stable(s0, s1);
        assert(s1.value(*a) == s0.value(*a));
        assert(s0.value(*w).len() == w.len);
    }
    let out = matmul_b_t_fp16(ctx, a, ash, &bt, bsh[0], bsh[1]);
    proof {
        let s2 = ctx.state();
        reveal(linear_value);
        let value = linear_value(s0.value(*a), ash, s0.value(*w), bsh);
        lemma_delivers_stable(s1, s2, out, value);
        caches.lemma_stable(s1, s2);
    }
    out
}

/// What [`bias_add`] computes: the sum where there is a bias, else a copy.
pub open spec fn biased_value(
    x: Seq<SymByte>,
    bias: Option<Seq<SymByte>>,
    rows: i64,
    cols: i64,
) -> Seq<SymByte> {
    match bias {
        Some(b) => bias_value(x, b, rows, cols),
        None => x.subrange(0, (x.len() / 2 * 2) as int),
    }
}

/// What an optional buffer holds.
pub open spec fn optional_value(st: DeviceState, b: Option<DeviceBuffer>) -> Option<Seq<SymByte>> {
    match b {
        Some(b) => Some(st.value(b)),
        None => None,
    }
}

/// A bias row of `cols` words, where there is one, is live and lasting.
pub open spec fn is_bias(st: DeviceState, b: Option<DeviceBuffer>, cols: i64) -> bool {
    b matches Some(b) ==> st.holds(b) && is_lasting(b) && b.len == cols * 2
}

/// Add a bias row to every row of `x`, or copy `x` where there is no bias.
pub fn bias_add(
    ctx: &mut AscendContext,
    x: &DeviceBuffer,
    bias: Option<DeviceBuffer>,
    rows: i64,
    cols: i64,
) -> (out: DeviceBuffer)
    requires
        old(ctx).wf(),
        is_fp16(old(ctx).state(), *x, seq![rows, cols]),
        is_bias(old(ctx).state(), bias, cols),
    ensures
        final(ctx).continues(old(ctx)),
        quiet(*old(ctx), *final(ctx)),
        out.len == rows * cols * 2,
        gains(
            old(ctx).state(),
            final(ctx).state(),
            out,
            biased_value(
                old(ctx).state().value(*x),
                optional_value(old(ctx).state(), bias),
                rows,
                cols,
            ),
        ),
{
    proof {
        lemma_fits(rows, cols);
    }
    match bias {
        Some(b) => bias_add_fp16(ctx, x, &b, rows, cols),
        None => {
            proof {
                let v = ctx.state().value(*x);
                assert(v.len() == x.len);
                assert(rows_value(v, 0, (x.len / 2) as i64, 1) =~= v.subrange(
                    0,
                    (v.len() / 2 * 2) as int,
                ));
            }
            take_rows_fp16(ctx, x, 0, (x.len / 2) as i64, 1)
        },
    }
}

/// The slice of a bias that one part of a fused layer adds.
pub open spec fn bias_slice(bias: Option<Seq<SymByte>>, start: i64, len: i64) -> Option<
    Seq<SymByte>,
> {
    match bias {
        Some(b) => Some(b.subrange(start * 2, start * 2 + len * 2)),
        None => None,
    }
}

/// A fused bias of `words` words, where there is one, is live and the host may read
/// it back.
pub open spec fn is_fused_bias(st: DeviceState, b: Option<DeviceBuffer>, words: int) -> bool {
    b matches Some(b) ==> {
        &&& st.holds(b)
        &&& st.settled(b)
        &&& is_lasting(b)
        &&& words * 2 <= b.len
        &&& words * 2 <= i64::MAX
    }
}

/// The slice has been made already.
pub open spec fn slice_warm(
    caches: AscendCaches,
    b: Option<DeviceBuffer>,
    start: i64,
    len: i64,
) -> bool {
    b matches Some(b) ==> caches.rows.has(RowKey::Bias { at: b.ptr(), start, len })
}

/// The slice `[start, start + len)` of a fused bias, made at its first use.
pub fn kv_bias(
    ctx: &mut AscendContext,
    caches: &mut AscendCaches,
    bias: Option<DeviceBuffer>,
    start: i64,
    len: i64,
) -> (slice: Option<DeviceBuffer>)
    requires
        old(ctx).wf(),
        old(caches).wf(old(ctx).state()),
        0 <= start,
        0 <= len,
        is_fused_bias(old(ctx).state(), bias, start + len),
    ensures
        final(ctx).continues(old(ctx)),
        caches_kept(*old(caches), *final(caches), final(ctx).state()),
        final(caches).rope == old(caches).rope,
        final(caches).nz == old(caches).nz,
        only_kept(old(ctx).state(), final(ctx).state()),
        is_bias(final(ctx).state(), slice, len),
        optional_value(final(ctx).state(), slice) == bias_slice(
            optional_value(old(ctx).state(), bias),
            start,
            len,
        ),
        slice_warm(*final(caches), bias, start, len),
        slice_warm(*old(caches), bias, start, len) ==> *final(ctx) == *old(ctx)
            && *final(caches) == *old(caches),
{
    match bias {
        None => None,
        Some(b) => {
            let ghost s0 = ctx.state();
            let ghost k0 = *caches;
            let out = caches.rows.bias(ctx, &b, start, len);
            proof {
                lemma_only_kept(s0, ctx.state());
                k0.lemma_stable(s0, ctx.state());
            }
            Some(out)
        },
    }
}

/// Queries, keys and values of an attention layer.
#[derive(Debug, Clone, Copy)]
pub struct Qkv {
    pub q: DeviceBuffer,
    pub k: DeviceBuffer,
    pub v: DeviceBuffer,
}

/// Part of a fused projection with rows of `width` columns: columns `[start, start +
/// cols)` of every row, with the same slice of the bias.
pub open spec fn part_value(
    fused: Seq<SymByte>,
    tokens: i64,
    width: i64,
    start: i64,
    cols: i64,
    bias: Option<Seq<SymByte>>,
) -> Seq<SymByte> {
    biased_value(
        columns_value(fused, tokens, width, start, cols),
        bias_slice(bias, start, cols),
        tokens,
        cols,
    )
}

/// The fused projection before it is split.
pub open spec fn fused_value(
    x: Seq<SymByte>,
    tokens: i64,
    in_w: i64,
    w: Seq<SymByte>,
    qd: i64,
    kv_d: i64,
) -> Seq<SymByte> {
    linear_value(x, [tokens, in_w], w, [in_w, (qd + 2 * kv_d) as i64])
}

/// Queries: the first `qd` columns.
pub open spec fn q_value(
    x: Seq<SymByte>,
    tokens: i64,
    in_w: i64,
    w: Seq<SymByte>,
    bias: Option<Seq<SymByte>>,
    qd: i64,
    kv_d: i64,
) -> Seq<SymByte> {
    part_value(
        fused_value(x, tokens, in_w, w, qd, kv_d),
        tokens,
        (qd + 2 * kv_d) as i64,
        0,
        qd,
        bias,
    )
}

/// Keys: the next `kv_d` columns.
pub open spec fn k_value(
    x: Seq<SymByte>,
    tokens: i64,
    in_w: i64,
    w: Seq<SymByte>,
    bias: Option<Seq<SymByte>>,
    qd: i64,
    kv_d: i64,
) -> Seq<SymByte> {
    part_value(
        fused_value(x, tokens, in_w, w, qd, kv_d),
        tokens,
        (qd + 2 * kv_d) as i64,
        qd,
        kv_d,
        bias,
    )
}

/// Values: the last `kv_d` columns.
pub open spec fn v_value(
    x: Seq<SymByte>,
    tokens: i64,
    in_w: i64,
    w: Seq<SymByte>,
    bias: Option<Seq<SymByte>>,
    qd: i64,
    kv_d: i64,
) -> Seq<SymByte> {
    part_value(
        fused_value(x, tokens, in_w, w, qd, kv_d),
        tokens,
        (qd + 2 * kv_d) as i64,
        (qd + kv_d) as i64,
        kv_d,
        bias,
    )
}

/// The operands of a fused projection are there.
pub open spec fn qkv_ready(
    st: DeviceState,
    x: DeviceBuffer,
    tokens: i64,
    in_w: i64,
    w: DeviceBuffer,
    bias: Option<DeviceBuffer>,
    qd: i64,
    kv_d: i64,
) -> bool {
    &&& 0 <= kv_d
    &&& 0 <= qd
    &&& qd + 2 * kv_d <= i64::MAX
    &&& is_weight(st, w, [in_w, (qd + 2 * kv_d) as i64])
    &&& is_left_operand(st, x, [tokens, in_w], (qd + 2 * kv_d) as i64)
    &&& is_fused_bias(st, bias, qd + 2 * kv_d)
}

/// Everything that a fused projection looks up is there already.
pub open spec fn qkv_warm(
    caches: AscendCaches,
    w: DeviceBuffer,
    bias: Option<DeviceBuffer>,
    qd: i64,
    kv_d: i64,
) -> bool {
    &&& weight_warm(caches, w, (qd + 2 * kv_d) as i64)
    &&& slice_warm(caches, bias, 0, qd)
    &&& slice_warm(caches, bias, qd, kv_d)
    &&& slice_warm(caches, bias, (qd + kv_d) as i64, kv_d)
}

proof fn lemma_qkv_sizes(tokens: i64, qd: i64, kv_d: i64)
    requires
        tokens >= 0,
        tokens <= i64::MAX - 16,
        0 <= kv_d,
        0 <= qd,
        qd + 2 * kv_d <= i64::MAX,
        fits(aligned_rows(tokens), (qd + 2 * kv_d) as i64),
    ensures
        fits(tokens, qd),
        fits(tokens, kv_d),
        fits(tokens, (qd + 2 * kv_d) as i64),
        tokens * (qd + 2 * kv_d) * 2 <= i64::MAX,
{
    let out_w = (qd + 2 * kv_d) as i64;
    lemma_aligned(tokens, out_w);
    lemma_fits_smaller(aligned_rows(tokens), out_w, tokens, out_w);
    lemma_fits_smaller(aligned_rows(tokens), out_w, tokens, qd);
    lemma_fits_smaller(aligned_rows(tokens), out_w, tokens, kv_d);
    lemma_fits(tokens, out_w);
}

/// Split the columns of a fused projection into queries, keys and values.
fn split_fused(
    ctx: &mut AscendContext,
    fused: &DeviceBuffer,
    tokens: i64,
    qd: i64,
    kv_d: i64,
) -> (out: Qkv)
    requires
        old(ctx).wf(),
        old(ctx).state().holds(*fused),
        is_lasting(*fused),
        0 <= tokens <= i64::MAX - 16,
        0 <= kv_d,
        0 <= qd,
        qd + 2 * kv_d <= i64::MAX,
        fits(aligned_rows(tokens), (qd + 2 * kv_d) as i64),
        fused.len == tokens * (qd + 2 * kv_d) * 2,
    ensures
        final(ctx).continues(old(ctx)),
        quiet(*old(ctx), *final(ctx)),
        final(ctx).state().slots == old(ctx).state().slots,
        out.q.len == tokens * qd * 2,
        out.k.len == tokens * kv_d * 2,
        out.v.len == tokens * kv_d * 2,
        ({
            let fv = old(ctx).state().value(*fused);
            let out_w = (qd + 2 * kv_d) as i64;
            delivers_three(
                old(ctx).state(),
                final(ctx).state(),
                out.q,
                columns_value(fv, tokens, out_w, 0, qd),
                out.k,
                columns_value(fv, tokens, out_w, qd, kv_d),
                out.v,
                columns_value(fv, tokens, out_w, (qd + kv_d) as i64, kv_d),
            )
        }),
{
    let ghost c0 = *ctx;
    let ghost s0 = ctx.state();
    let ghost fv = s0.value(*fused);
    proof {
        ctx.lemma_safe();
        lemma_qkv_sizes(tokens, qd, kv_d);
        lemma_fits(tokens, qd);
        lemma_fits(tokens, kv_d);
    }
    let out_w: i64 = qd + 2 * kv_d;
    let q = take_columns_fp16(ctx, fused, tokens, out_w, 0, qd);
    let ghost c1 = *ctx;
    proof {
        ctx.lemma_safe();
        lemma_gains(s0, c1.state(), q, columns_value(fv, tokens, out_w, 0, qd));
    }
    let k = take_columns_fp16(ctx, fused, tokens, out_w, qd, kv_d);
    let ghost c2 = *ctx;
    proof {
        ctx.lemma_safe();
        lemma_gains(c1.state(), c2.state(), k, columns_value(fv, tokens, out_w, qd, kv_d));
    }
    let v = take_columns_fp16(ctx, fused, tokens, out_w, qd + kv_d, kv_d);
    proof {
        lemma_quiet_then(c0, c1, c2);
        lemma_quiet_then(c0, c2, *ctx);
    }
    Qkv { q, k, v }
}

/// Add a bias row to each of three parts and drop the parts.
fn add_three(
    ctx: &mut AscendContext,
    raw: Qkv,
    q_bias: Option<DeviceBuffer>,
    k_bias: Option<DeviceBuffer>,
    v_bias: Option<DeviceBuffer>,
    tokens: i64,
    qd: i64,
    kv_d: i64,
    start: Ghost<DeviceState>,
) -> (out: Qkv)
    requires
        old(ctx).wf(),
        start@.sane(),
        old(ctx).state().tensors == start@.tensors,
        is_fp16(old(ctx).state(), raw.q, seq![tokens, qd]),
        is_fp16(old(ctx).state(), raw.k, seq![tokens, kv_d]),
        is_fp16(old(ctx).state(), raw.v, seq![tokens, kv_d]),
        is_bias(old(ctx).state(), q_bias, qd),
        is_bias(old(ctx).state(), k_bias, kv_d),
        is_bias(old(ctx).state(), v_bias, kv_d),
        match (raw.q.base, raw.k.base, raw.v.base) {
            (Base::Fresh(i), Base::Fresh(j), Base::Fresh(k)) => start@.issued <= i < j < k,
            _ => false,
        },
    ensures
        final(ctx).continues(old(ctx)),
        quiet(*old(ctx), *final(ctx)),
        final(ctx).state().slots == old(ctx).state().slots,
        out.q.len == tokens * qd * 2,
        out.k.len == tokens * kv_d * 2,
        out.v.len == tokens * kv_d * 2,
        ({
            let st = old(ctx).state();
            let end = final(ctx).state();
            let qv = biased_value(st.value(raw.q), optional_value(st, q_bias), tokens, qd);
            let kv = biased_value(st.value(raw.k), optional_value(st, k_bias), tokens, kv_d);
            let vv = biased_value(st.value(raw.v), optional_value(st, v_bias), tokens, kv_d);
            &&& keeps(st, end)
            &&& match (raw.q.base, raw.k.base, raw.v.base, out.q.base, out.k.base, out.v.base) {
                (
                    Base::Fresh(a),
                    Base::Fresh(b),
                    Base::Fresh(c),
                    Base::Fresh(i),
                    Base::Fresh(j),
                    Base::Fresh(k),
                ) => {
                    &&& is_whole(out.q, i, qv)
                    &&& is_whole(out.k, j, kv)
                    &&& is_whole(out.v, k, vv)
                    &&& st.issued <= i < j < k < end.issued
                    &&& end.fresh == st.fresh.remove(a).remove(b).remove(c).insert(i, qv).insert(
                        j,
                        kv,
                    ).insert(k, vv)
                },
                _ => false,
            }
        }),
{
    let ghost c0 = *ctx;
    let ghost s0 = ctx.state();
    let ghost qv = biased_value(s0.value(raw.q), optional_value(s0, q_bias), tokens, qd);
    let ghost kv = biased_value(s0.value(raw.k), optional_value(s0, k_bias), tokens, kv_d);
    let ghost vv = biased_value(s0.value(raw.v), optional_value(s0, v_bias), tokens, kv_d);
    proof {
        ctx.lemma_safe();
        lemma_fits(tokens, qd);
        lemma_fits(tokens, kv_d);
    }
    let q = bias_add(ctx, &raw.q, q_bias, tokens, qd);
    let ghost c1 = *ctx;
    let ghost s1 = ctx.state();
    proof {
        ctx.lemma_safe();
        lemma_gains(s0, s1, q, qv);
    }
    let k = bias_add(ctx, &raw.k, k_bias, tokens, kv_d);
    let ghost c2 = *ctx;
    let ghost s2 = ctx.state();
    proof {
        ctx.lemma_safe();
        lemma_gains(s1, s2, k, kv);
    }
    let v = bias_add(ctx, &raw.v, v_bias, tokens, kv_d);
    let ghost c3 = *ctx;
    drop_temp(ctx, raw.v, start);
    let ghost c4 = *ctx;
    drop_temp(ctx, raw.k, start);
    let ghost c5 = *ctx;
    drop_temp(ctx, raw.q, start);
    proof {
        let end = ctx.state();
        match (raw.q.base, raw.k.base, raw.v.base, q.base, k.base, v.base) {
            (
                Base::Fresh(a),
                Base::Fresh(b),
                Base::Fresh(c),
                Base::Fresh(i),
                Base::Fresh(j),
                Base::Fresh(l),
            ) => {
                assert(end.fresh =~= s0.fresh.remove(a).remove(b).remove(c).insert(i, qv).insert(
                    j,
                    kv,
                ).insert(l, vv));
            },
            _ => {},
        }
        lemma_quiet_then(c0, c1, c2);
        lemma_quiet_then(c0, c2, c3);
        lemma_quiet_then(c0, c3, c4);
        lemma_quiet_then(c0, c4, c5);
        lemma_quiet_then(c0, c5, *ctx);
    }
    Qkv { q, k, v }
}

/// The bias slices of queries, keys and values.
fn qkv_biases(
    ctx: &mut AscendContext,
    caches: &mut AscendCaches,
    fused_bias: Option<DeviceBuffer>,
    qd: i64,
    kv_d: i64,
) -> (out: (Option<DeviceBuffer>, Option<DeviceBuffer>, Option<DeviceBuffer>))
    requires
        old(ctx).wf(),
        old(caches).wf(old(ctx).state()),
        0 <= kv_d,
        0 <= qd,
        qd + 2 * kv_d <= i64::MAX,
        is_fused_bias(old(ctx).state(), fused_bias, qd + 2 * kv_d),
    ensures
        final(ctx).continues(old(ctx)),
        caches_kept(*old(caches), *final(caches), final(ctx).state()),
        final(caches).rope == old(caches).rope,
        final(caches).nz == old(caches).nz,
        only_kept(old(ctx).state(), final(ctx).state()),
        is_bias(final(ctx).state(), out.0, qd),
        is_bias(final(ctx).state(), out.1, kv_d),
        is_bias(final(ctx).state(), out.2, kv_d),
        ({
            let bv = optional_value(old(ctx).state(), fused_bias);
            let end = final(ctx).state();
            &&& optional_value(end, out.0) == bias_slice(bv, 0, qd)
            &&& optional_value(end, out.1) == bias_slice(bv, qd, kv_d)
            &&& optional_value(end, out.2) == bias_slice(bv, (qd + kv_d) as i64, kv_d)
        }),
        slice_warm(*final(caches), fused_bias, 0, qd),
        slice_warm(*final(caches), fused_bias, qd, kv_d),
        slice_warm(*final(caches), fused_bias, (qd + kv_d) as i64, kv_d),
        slice_warm(*old(caches), fused_bias, 0, qd) && slice_warm(
            *old(caches),
            fused_bias,
            qd,
            kv_d,
        ) && slice_warm(*old(caches), fused_bias, (qd + kv_d) as i64, kv_d) ==> *final(ctx)
            == *old(ctx) && *final(caches) == *old(caches),
{
    let ghost s0 = ctx.state();
    proof {
        ctx.lemma_safe();
    }
    let q_bias = kv_bias(ctx, caches, fused_bias, 0, qd);
    let ghost s1 = ctx.state();
    proof {
        ctx.lemma_safe();
        lemma_only_kept(s0, s1);
        lemma_settled(s0, s1);
    }
    let k_bias = kv_bias(ctx, caches, fused_bias, qd, kv_d);
    let ghost s2 = ctx.state();
    proof {
        lemma_only_kept(s1, s2);
        lemma_settled(s1, s2);
    }
    let v_bias = kv_bias(ctx, caches, fused_bias, qd + kv_d, kv_d);
    proof {
        lemma_only_kept(s2, ctx.state());
    }
    (q_bias, k_bias, v_bias)
}

/// Project `x` to queries, keys and values through one fused weight. The columns of
/// the fused result are split, and each part adds its slice of the bias.
pub fn project_qkv(
    ctx: &mut AscendContext,
    caches: &mut AscendCaches,
    x: &DeviceBuffer,
    tokens: i64,
    in_w: i64,
    w: &DeviceBuffer,
    fused_bias: Option<DeviceBuffer>,
    qd: i64,
    kv_d: i64,
) -> (out: Qkv)
    requires
        old(ctx).wf(),
        old(caches).wf(old(ctx).state()),
        qkv_ready(old(ctx).state(), *x, tokens, in_w, *w, fused_bias, qd, kv_d),
    ensures
        final(ctx).continues(old(ctx)),
        caches_kept(*old(caches), *final(caches), final(ctx).state()),
        final(caches).rope == old(caches).rope,
        final(ctx).state().slots == old(ctx).state().slots,
        out.q.len == tokens * qd * 2,
        out.k.len == tokens * kv_d * 2,
        out.v.len == tokens * kv_d * 2,
        ({
            let st = old(ctx).state();
            let xv = st.value(*x);
            let wv = st.value(*w);
            let bv = optional_value(st, fused_bias);
            delivers_three(
                st,
                final(ctx).state(),
                out.q,
                q_value(xv, tokens, in_w, wv, bv, qd, kv_d),
                out.k,
                k_value(xv, tokens, in_w, wv, bv, qd, kv_d),
                out.v,
                v_value(xv, tokens, in_w, wv, bv, qd, kv_d),
            )
        }),
        qkv_warm(*final(caches), *w, fused_bias, qd, kv_d),
        qkv_warm(*old(caches), *w, fused_bias, qd, kv_d) ==> quiet(*old(ctx), *final(ctx))
            && *final(caches) == *old(caches),
{
    let ghost c0 = *ctx;
    let ghost s0 = ctx.state();
    let ghost warm = qkv_warm(*caches, *w, fused_bias, qd, kv_d);
    let ghost fv = fused_value(s0.value(*x), tokens, in_w, s0.value(*w), qd, kv_d);
    let ghost bv = optional_value(s0, fused_bias);
    let out_w: i64 = qd + 2 * kv_d;
    proof {
        ctx.lemma_safe();
        lemma_qkv_sizes(tokens, qd, kv_d);
        lemma_fits(tokens, qd);
        lemma_fits(tokens, kv_d);
    }
    let fused = matmul(ctx, caches, x, [tokens, in_w], w, [in_w, out_w]);
    let ghost c1 = *ctx;
    let ghost s1 = ctx.state();
    let ghost k1 = *caches;
    proof {
        ctx.lemma_safe();
        lemma_yields(s0, s1, fused, fv);
        lemma_settled(s0, s1);
    }
    let raw = split_fused(ctx, &fused, tokens, qd, kv_d);
    let ghost c2 = *ctx;
    let ghost s2 = ctx.state();
    proof {
        ctx.lemma_safe();
        lemma_delivers_three(
            s1,
            s2,
            raw.q,
            columns_value(fv, tokens, out_w, 0, qd),
            raw.k,
            columns_value(fv, tokens, out_w, qd, kv_d),
            raw.v,
            columns_value(fv, tokens, out_w, (qd + kv_d) as i64, kv_d),
        );
        lemma_settled(s1, s2);
        k1.lemma_stable(s1, s2);
    }
    let (q_bias, k_bias, v_bias) = qkv_biases(ctx, caches, fused_bias, qd, kv_d);
    let ghost c3 = *ctx;
    let ghost s3 = ctx.state();
    let ghost k3 = *caches;
    proof {
        lemma_only_kept(s2, s3);
    }
    let out = add_three(ctx, raw, q_bias, k_bias, v_bias, tokens, qd, kv_d, Ghost(s0));
    let ghost c4 = *ctx;
    drop_temp(ctx, fused, Ghost(s0));
    proof {
        let end = ctx.state();
        match (out.q.base, out.k.base, out.v.base) {
            (Base::Fresh(i), Base::Fresh(j), Base::Fresh(l)) => {
                let xv = s0.value(*x);
                let wv = s0.value(*w);
                assert(end.fresh =~= s0.fresh.insert(
                    i,
                    q_value(xv, tokens, in_w, wv, bv, qd, kv_d),
                ).insert(j, k_value(xv, tokens, in_w, wv, bv, qd, kv_d)).insert(
                    l,
                    v_value(xv, tokens, in_w, wv, bv, qd, kv_d),
                ));
            },
            _ => {},
        }
        assert(stable(s3, end));
        k3.lemma_stable(s3, end);
        lemma_quiet_then(c3, c4, *ctx);
        if warm {
            lemma_quiet_then(c0, c1, c2);
            lemma_quiet_then(c0, c2, *ctx);
        }
    }
    out
}

} // verus!
