//! Fused attention kernels.

use vstd::prelude::*;

use crate::context::AscendContext;
use crate::device::{AclTensor, DeviceBuffer, Entry, Layout, Scale, ACL_FLOAT16};
use crate::kernel::{values, views, Order};
use crate::ops::{fp16, is_fp16, ran, result, single};
use crate::semantics::{gains, nd_view, SymByte};

verus! {

/// The scale that attention uses: one over the square root of the head
/// dimension unless overridden.
pub open spec fn scale_of(scale: Option<u64>, d: i64) -> Scale {
    match scale {
        Some(bits) => Scale::Given(bits),
        None => Scale::InverseSqrt(d),
    }
}

fn choose_scale(scale: Option<u64>, d: i64) -> (chosen: Scale)
    ensures
        chosen == scale_of(scale, d),
{
    match scale {
        Some(bits) => Scale::Given(bits),
        None => Scale::InverseSqrt(d),
    }
}

/// Width of a row that holds `heads` heads.
pub open spec fn row_width(heads: i64, head_dim: i64) -> i64 {
    (heads * head_dim) as i64
}

/// The heads of one row can be counted.
pub open spec fn heads_fit(heads: i64, head_dim: i64) -> bool {
    0 <= heads && 0 <= head_dim && heads * head_dim <= i64::MAX
}

/// What [`prompt_flash_attention_fp16`] computes.
pub open spec fn attention_value(q: Seq<SymByte>, k: Seq<SymByte>, v: Seq<SymByte>, shape: [i64; 4], scale: Option<u64>) -> Seq<SymByte> {
    result(
        (Entry::PromptFlashAttentionV3 { heads: shape[1], scale: scale_of(scale, shape[3]), layout: Layout::Bnsd, kv_heads: shape[1] }),
        seq![fp16(q, shape@), fp16(k, shape@), fp16(v, shape@)],
        shape@,
    )
}

/// Full attention without a mask, all operands contiguous `[b, n, s, d]`. The scale
/// is a double-precision pattern.
pub fn prompt_flash_attention_fp16(
    ctx: &mut AscendContext,
    q: &DeviceBuffer,
    k: &DeviceBuffer,
    v: &DeviceBuffer,
    shape: [i64; 4],
    scale: Option<u64>,
) -> (out: DeviceBuffer)
    requires
        old(ctx).wf(),
        is_fp16(old(ctx).state(), *q, shape@),
        is_fp16(old(ctx).state(), *k, shape@),
        is_fp16(old(ctx).state(), *v, shape@),
    ensures
        ran(
            *old(ctx),
            *final(ctx),
            out,
            (Entry::PromptFlashAttentionV3 { heads: shape[1], scale: scale_of(scale, shape[3]), layout: Layout::Bnsd, kv_heads: shape[1] }),
            Order::OutputsFirst,
            seq![nd_view(*q, shape@, ACL_FLOAT16), nd_view(*k, shape@, ACL_FLOAT16), nd_view(*v, shape@, ACL_FLOAT16)],
            shape@,
            "aclnnPromptFlashAttentionV3"@,
            "aclnnPromptFlashAttentionV3"@,
        ),
        gains(
            old(ctx).state(),
            final(ctx).state(),
            out,
            attention_value(old(ctx).state().value(*q), old(ctx).state().value(*k), old(ctx).state().value(*v), shape, scale),
        ),
{
    let dims: Vec<i64> = vec![shape[0], shape[1], shape[2], shape[3]];
    assert(dims@ =~= shape@);
    let inputs: Vec<AclTensor> = vec![AclTensor::fp16_nd(q, &dims), AclTensor::fp16_nd(k, &dims), AclTensor::fp16_nd(v, &dims)];
    proof {
        let st = ctx.state();
        let ins = seq![nd_view(*q, shape@, ACL_FLOAT16), nd_view(*k, shape@, ACL_FLOAT16), nd_view(*v, shape@, ACL_FLOAT16)];
        assert(views(inputs@) =~= ins);
        assert(values(st, ins) =~= seq![fp16(st.value(*q), shape@), fp16(st.value(*k), shape@), fp16(st.value(*v), shape@)]);
    }
    single(ctx, Entry::PromptFlashAttentionV3 {
            heads: shape[1],
            scale: choose_scale(scale, shape[3]),
            layout: Layout::Bnsd,
            kv_heads: shape[1],
        }, Order::OutputsFirst, inputs, &dims, "aclnnPromptFlashAttentionV3", "aclnnPromptFlashAttentionV3")
}

/// What [`prompt_flash_attention_bsh_fp16`] computes.
pub open spec fn bsh_attention_value(q: Seq<SymByte>, k: Seq<SymByte>, v: Seq<SymByte>, tokens: i64, heads: i64, kv_heads: i64, head_dim: i64, scale: Option<u64>) -> Seq<SymByte> {
    result(
        (Entry::PromptFlashAttentionV3 { heads: heads, scale: scale_of(scale, head_dim), layout: Layout::Bsh, kv_heads: kv_heads }),
        seq![fp16(q, seq![1i64, tokens, row_width(heads, head_dim)]), fp16(k, seq![1i64, tokens, row_width(kv_heads, head_dim)]), fp16(v, seq![1i64, tokens, row_width(kv_heads, head_dim)])],
        seq![1i64, tokens, row_width(heads, head_dim)],
    )
}

/// Full attention in the linear layout: `q` and the result are
/// `[tokens, heads * head_dim]`, `k` and `v` are `[tokens, kv_heads * head_dim]`.
pub fn prompt_flash_attention_bsh_fp16(
    ctx: &mut AscendContext,
    q: &DeviceBuffer,
    k: &DeviceBuffer,
    v: &DeviceBuffer,
    tokens: i64,
    heads: i64,
    kv_heads: i64,
    head_dim: i64,
    scale: Option<u64>,
) -> (out: DeviceBuffer)
    requires
        old(ctx).wf(),
        heads_fit(heads, head_dim),
        heads_fit(kv_heads, head_dim),
        is_fp16(old(ctx).state(), *q, seq![1i64, tokens, row_width(heads, head_dim)]),
        is_fp16(old(ctx).state(), *k, seq![1i64, tokens, row_width(kv_heads, head_dim)]),
        is_fp16(old(ctx).state(), *v, seq![1i64, tokens, row_width(kv_heads, head_dim)]),
    ensures
        ran(
            *old(ctx),
            *final(ctx),
            out,
            (Entry::PromptFlashAttentionV3 { heads: heads, scale: scale_of(scale, head_dim), layout: Layout::Bsh, kv_heads: kv_heads }),
            Order::OutputsFirst,
            seq![nd_view(*q, seq![1i64, tokens, row_width(heads, head_dim)], ACL_FLOAT16), nd_view(*k, seq![1i64, tokens, row_width(kv_heads, head_dim)], ACL_FLOAT16), nd_view(*v, seq![1i64, tokens, row_width(kv_heads, head_dim)], ACL_FLOAT16)],
            seq![1i64, tokens, row_width(heads, head_dim)],
            "aclnnPromptFlashAttentionV3(BSH)"@,
            "aclnnPromptFlashAttentionV3(BSH)"@,
        ),
        gains(
            old(ctx).state(),
            final(ctx).state(),
            out,
            bsh_attention_value(old(ctx).state().value(*q), old(ctx).state().value(*k), old(ctx).state().value(*v), tokens, heads, kv_heads, head_dim, scale),
        ),
{
    let q_shape: Vec<i64> = vec![1, tokens, heads * head_dim];
    let kv_shape: Vec<i64> = vec![1, tokens, kv_heads * head_dim];
    assert(q_shape@ =~= seq![1i64, tokens, row_width(heads, head_dim)]);
    assert(kv_shape@ =~= seq![1i64, tokens, row_width(kv_heads, head_dim)]);
    let inputs: Vec<AclTensor> = vec![AclTensor::fp16_nd(q, &q_shape), AclTensor::fp16_nd(k, &kv_shape), AclTensor::fp16_nd(v, &kv_shape)];
    proof {
        let st = ctx.state();
        let ins = seq![nd_view(*q, seq![1i64, tokens, row_width(heads, head_dim)], ACL_FLOAT16), nd_view(*k, seq![1i64, tokens, row_width(kv_heads, head_dim)], ACL_FLOAT16), nd_view(*v, seq![1i64, tokens, row_width(kv_heads, head_dim)], ACL_FLOAT16)];
        assert(views(inputs@) =~= ins);
        assert(values(st, ins) =~= seq![fp16(st.value(*q), seq![1i64, tokens, row_width(heads, head_dim)]), fp16(st.value(*k), seq![1i64, tokens, row_width(kv_heads, head_dim)]), fp16(st.value(*v), seq![1i64, tokens, row_width(kv_heads, head_dim)])]);
    }
    single(ctx, Entry::PromptFlashAttentionV3 {
            heads: heads,
            scale: choose_scale(scale, head_dim),
            layout: Layout::Bsh,
            kv_heads: kv_heads,
        }, Order::OutputsFirst, inputs, &q_shape, "aclnnPromptFlashAttentionV3(BSH)", "aclnnPromptFlashAttentionV3(BSH)")
}

/// What [`prompt_flash_attention_bsh_batch_fp16`] computes.
pub open spec fn batch_attention_value(q: Seq<SymByte>, k: Seq<SymByte>, v: Seq<SymByte>, batch: i64, length: i64, heads: i64, kv_heads: i64, head_dim: i64, scale: Option<u64>) -> Seq<SymByte> {
    result(
        (Entry::PromptFlashAttentionV3 { heads: heads, scale: scale_of(scale, head_dim), layout: Layout::Bsh, kv_heads: kv_heads }),
        seq![fp16(q, seq![batch, length, row_width(heads, head_dim)]), fp16(k, seq![batch, length, row_width(kv_heads, head_dim)]), fp16(v, seq![batch, length, row_width(kv_heads, head_dim)])],
        seq![batch, length, row_width(heads, head_dim)],
    )
}

/// Full attention within each of `batch` windows of `length` rows. The operands are
/// contiguous over all windows.
pub fn prompt_flash_attention_bsh_batch_fp16(
    ctx: &mut AscendContext,
    q: &DeviceBuffer,
    k: &DeviceBuffer,
    v: &DeviceBuffer,
    batch: i64,
    length: i64,
    heads: i64,
    kv_heads: i64,
    head_dim: i64,
    scale: Option<u64>,
) -> (out: DeviceBuffer)
    requires
        old(ctx).wf(),
        heads_fit(heads, head_dim),
        heads_fit(kv_heads, head_dim),
        is_fp16(old(ctx).state(), *q, seq![batch, length, row_width(heads, head_dim)]),
        is_fp16(old(ctx).state(), *k, seq![batch, length, row_width(kv_heads, head_dim)]),
        is_fp16(old(ctx).state(), *v, seq![batch, length, row_width(kv_heads, head_dim)]),
    ensures
        ran(
            *old(ctx),
            *final(ctx),
            out,
            (Entry::PromptFlashAttentionV3 { heads: heads, scale: scale_of(scale, head_dim), layout: Layout::Bsh, kv_heads: kv_heads }),
            Order::OutputsFirst,
            seq![nd_view(*q, seq![batch, length, row_width(heads, head_dim)], ACL_FLOAT16), nd_view(*k, seq![batch, length, row_width(kv_heads, head_dim)], ACL_FLOAT16), nd_view(*v, seq![batch, length, row_width(kv_heads, head_dim)], ACL_FLOAT16)],
            seq![batch, length, row_width(heads, head_dim)],
            "aclnnPromptFlashAttentionV3(BSH,batch)"@,
            "aclnnPromptFlashAttentionV3(BSH,batch)"@,
        ),
        gains(
            old(ctx).state(),
            final(ctx).state(),
            out,
            batch_attention_value(old(ctx).state().value(*q), old(ctx).state().value(*k), old(ctx).state().value(*v), batch, length, heads, kv_heads, head_dim, scale),
        ),
{
    let q_shape: Vec<i64> = vec![batch, length, heads * head_dim];
    let kv_shape: Vec<i64> = vec![batch, length, kv_heads * head_dim];
    assert(q_shape@ =~= seq![batch, length, row_width(heads, head_dim)]);
    assert(kv_shape@ =~= seq![batch, length, row_width(kv_heads, head_dim)]);
    let inputs: Vec<AclTensor> = vec![AclTensor::fp16_nd(q, &q_shape), AclTensor::fp16_nd(k, &kv_shape), AclTensor::fp16_nd(v, &kv_shape)];
    proof {
        let st = ctx.state();
        let ins = seq![nd_view(*q, seq![batch, length, row_width(heads, head_dim)], ACL_FLOAT16), nd_view(*k, seq![batch, length, row_width(kv_heads, head_dim)], ACL_FLOAT16), nd_view(*v, seq![batch, length, row_width(kv_heads, head_dim)], ACL_FLOAT16)];
        assert(views(inputs@) =~= ins);
        assert(values(st, ins) =~= seq![fp16(st.value(*q), seq![batch, length, row_width(heads, head_dim)]), fp16(st.value(*k), seq![batch, length, row_width(kv_heads, head_dim)]), fp16(st.value(*v), seq![batch, length, row_width(kv_heads, head_dim)])]);
    }
    single(ctx, Entry::PromptFlashAttentionV3 {
            heads: heads,
            scale: choose_scale(scale, head_dim),
            layout: Layout::Bsh,
            kv_heads: kv_heads,
        }, Order::OutputsFirst, inputs, &q_shape, "aclnnPromptFlashAttentionV3(BSH,batch)", "aclnnPromptFlashAttentionV3(BSH,batch)")
}

/// What [`prompt_flash_attention_cross_bsh_fp16`] computes.
pub open spec fn cross_attention_value(q: Seq<SymByte>, k: Seq<SymByte>, v: Seq<SymByte>, q_tokens: i64, kv_tokens: i64, heads: i64, kv_heads: i64, head_dim: i64, scale: Option<u64>) -> Seq<SymByte> {
    result(
        (Entry::PromptFlashAttentionV3 { heads: heads, scale: scale_of(scale, head_dim), layout: Layout::Bsh, kv_heads: kv_heads }),
        seq![fp16(q, seq![1i64, q_tokens, row_width(heads, head_dim)]), fp16(k, seq![1i64, kv_tokens, row_width(kv_heads, head_dim)]), fp16(v, seq![1i64, kv_tokens, row_width(kv_heads, head_dim)])],
        seq![1i64, q_tokens, row_width(heads, head_dim)],
    )
}

/// Full attention of `q_tokens` rows over `kv_tokens` rows.
pub fn prompt_flash_attention_cross_bsh_fp16(
    ctx: &mut AscendContext,
    q: &DeviceBuffer,
    k: &DeviceBuffer,
    v: &DeviceBuffer,
    q_tokens: i64,
    kv_tokens: i64,
    heads: i64,
    kv_heads: i64,
    head_dim: i64,
    scale: Option<u64>,
) -> (out: DeviceBuffer)
    requires
        old(ctx).wf(),
        heads_fit(heads, head_dim),
        heads_fit(kv_heads, head_dim),
        is_fp16(old(ctx).state(), *q, seq![1i64, q_tokens, row_width(heads, head_dim)]),
        is_fp16(old(ctx).state(), *k, seq![1i64, kv_tokens, row_width(kv_heads, head_dim)]),
        is_fp16(old(ctx).state(), *v, seq![1i64, kv_tokens, row_width(kv_heads, head_dim)]),
    ensures
        ran(
            *old(ctx),
            *final(ctx),
            out,
            (Entry::PromptFlashAttentionV3 { heads: heads, scale: scale_of(scale, head_dim), layout: Layout::Bsh, kv_heads: kv_heads }),
            Order::OutputsFirst,
            seq![nd_view(*q, seq![1i64, q_tokens, row_width(heads, head_dim)], ACL_FLOAT16), nd_view(*k, seq![1i64, kv_tokens, row_width(kv_heads, head_dim)], ACL_FLOAT16), nd_view(*v, seq![1i64, kv_tokens, row_width(kv_heads, head_dim)], ACL_FLOAT16)],
            seq![1i64, q_tokens, row_width(heads, head_dim)],
            "aclnnPromptFlashAttentionV3(BSH,cross)"@,
            "aclnnPromptFlashAttentionV3(BSH,cross)"@,
        ),
        gains(
            old(ctx).state(),
            final(ctx).state(),
            out,
            cross_attention_value(old(ctx).state().value(*q), old(ctx).state().value(*k), old(ctx).state().value(*v), q_tokens, kv_tokens, heads, kv_heads, head_dim, scale),
        ),
{
    let q_shape: Vec<i64> = vec![1, q_tokens, heads * head_dim];
    let kv_shape: Vec<i64> = vec![1, kv_tokens, kv_heads * head_dim];
    assert(q_shape@ =~= seq![1i64, q_tokens, row_width(heads, head_dim)]);
    assert(kv_shape@ =~= seq![1i64, kv_tokens, row_width(kv_heads, head_dim)]);
    let inputs: Vec<AclTensor> = vec![AclTensor::fp16_nd(q, &q_shape), AclTensor::fp16_nd(k, &kv_shape), AclTensor::fp16_nd(v, &kv_shape)];
    proof {
        let st = ctx.state();
        let ins = seq![nd_view(*q, seq![1i64, q_tokens, row_width(heads, head_dim)], ACL_FLOAT16), nd_view(*k, seq![1i64, kv_tokens, row_width(kv_heads, head_dim)], ACL_FLOAT16), nd_view(*v, seq![1i64, kv_tokens, row_width(kv_heads, head_dim)], ACL_FLOAT16)];
        assert(views(inputs@) =~= ins);
        assert(values(st, ins) =~= seq![fp16(st.value(*q), seq![1i64, q_tokens, row_width(heads, head_dim)]), fp16(st.value(*k), seq![1i64, kv_tokens, row_width(kv_heads, head_dim)]), fp16(st.value(*v), seq![1i64, kv_tokens, row_width(kv_heads, head_dim)])]);
    }
    single(ctx, Entry::PromptFlashAttentionV3 {
            heads: heads,
            scale: choose_scale(scale, head_dim),
            layout: Layout::Bsh,
            kv_heads: kv_heads,
        }, Order::OutputsFirst, inputs, &q_shape, "aclnnPromptFlashAttentionV3(BSH,cross)", "aclnnPromptFlashAttentionV3(BSH,cross)")
}

} // verus!
