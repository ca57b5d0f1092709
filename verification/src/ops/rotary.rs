//! Rotary position embedding, composed of a gather, two products and a sum.

use vstd::prelude::*;

use crate::capture::{lemma_quiet, lemma_quiet_then, quiet};
use crate::context::AscendContext;
use crate::device::{AclTensor, Base, Call, DeviceBuffer, Entry, ACL_FLOAT16, ACL_INT32};
use crate::kernel::{kernel_calls, lemma_recorded, values, views, whole, Order};
use crate::ops::elementwise::{
    add_calls, add_fp16, add_value, mul_calls, mul_fp16, mul_value,
};
use crate::ops::{fp16, fp16_out, is_fp16, is_i32_row, result, single};
use crate::semantics::{gains, lemma_gains, lemma_releasable, nd, nd_view, SymByte};
use crate::tensor::{lemma_fits, lemma_one_dim};

verus! {

/// The channels of `x` in the order of `rot_idx`.
pub open spec fn rotated_value(x: Seq<SymByte>, rows: i64, d: i64, rot_idx: Seq<SymByte>) -> Seq<
    SymByte,
> {
    result(
        (Entry::GatherV2 { dim: 1 }),
        seq![fp16(x, seq![rows, d]), nd(rot_idx, seq![d], ACL_INT32)],
        seq![rows, d],
    )
}

/// What [`rope_rotate_half_fp16`] computes: `x * cos + rotated(x) * sin`.
pub open spec fn rope_value(
    x: Seq<SymByte>,
    rows: i64,
    d: i64,
    cos_pos: Seq<SymByte>,
    sin_signed: Seq<SymByte>,
    rot_idx: Seq<SymByte>,
) -> Seq<SymByte> {
    let shape = seq![rows, d];
    add_value(
        mul_value(x, cos_pos, shape),
        mul_value(rotated_value(x, rows, d, rot_idx), sin_signed, shape),
        shape,
    )
}

pub open spec fn rope_calls(
    issued: nat,
    x: DeviceBuffer,
    rows: i64,
    d: i64,
    cos_pos: DeviceBuffer,
    sin_signed: DeviceBuffer,
    rot_idx: DeviceBuffer,
) -> Seq<Call> {
    let shape = seq![rows, d];
    let len = rows * d * 2;
    let rotated = whole(issued + 2, len);
    let t1 = whole(issued + 4, len);
    let t2 = whole(issued + 8, len);
    kernel_calls(
        issued,
        Entry::GatherV2 { dim: 1 },
        Order::InputsFirst,
        seq![nd_view(x, shape, ACL_FLOAT16), nd_view(rot_idx, seq![d], ACL_INT32)],
        fp16_out(shape),
        "aclnnGatherV2(rope)"@,
        "aclnnGatherV2(rope)"@,
    ) + mul_calls(issued + 4, x, cos_pos, shape) + mul_calls(
        issued + 8,
        rotated,
        sin_signed,
        shape,
    ) + add_calls(issued + 12, t1, t2, shape) + seq![
        Call::Release { base: Base::Fresh((issued + 8) as usize) },
        Call::Release { base: Base::Fresh((issued + 4) as usize) },
        Call::Release { base: Base::Fresh((issued + 2) as usize) },
    ]
}

/// Rotate-half position embedding of the rows of `x`.
///
/// `cos_pos` and `sin_signed` hold one row per row of `x`, and the sine rows
/// carry the sign of the rotation. `rot_idx` holds, for each channel, the channel
/// half a row away.
pub fn rope_rotate_half_fp16(
    ctx: &mut AscendContext,
    x: &DeviceBuffer,
    rows: i64,
    d: i64,
    cos_pos: &DeviceBuffer,
    sin_signed: &DeviceBuffer,
    rot_idx: &DeviceBuffer,
) -> (out: DeviceBuffer)
    requires
        old(ctx).wf(),
        is_fp16(old(ctx).state(), *x, seq![rows, d]),
        is_fp16(old(ctx).state(), *cos_pos, seq![rows, d]),
        is_fp16(old(ctx).state(), *sin_signed, seq![rows, d]),
        is_i32_row(old(ctx).state(), *rot_idx, d),
    ensures
        final(ctx).recorded(
            old(ctx),
            rope_calls(
                old(ctx).state().issued,
                *x,
                rows,
                d,
                *cos_pos,
                *sin_signed,
                *rot_idx,
            ),
        ),
        quiet(*old(ctx), *final(ctx)),
        out.len == rows * d * 2,
        gains(
            old(ctx).state(),
            final(ctx).state(),
            out,
            rope_value(
                old(ctx).state().value(*x),
                rows,
                d,
                old(ctx).state().value(*cos_pos),
                old(ctx).state().value(*sin_signed),
                old(ctx).state().value(*rot_idx),
            ),
        ),
{
    let ghost c0 = *ctx;
    let ghost s0 = ctx.state();
    let ghost xv = s0.value(*x);
    let ghost cv = s0.value(*cos_pos);
    let ghost sv = s0.value(*sin_signed);
    let ghost rv = s0.value(*rot_idx);
    proof {
        lemma_fits(rows, d);
        lemma_one_dim(d);
    }
    let shape: Vec<i64> = vec![rows, d];
    let channels: Vec<i64> = vec![d];
    assert(shape@ =~= seq![rows, d]);
    assert(channels@ =~= seq![d]);
    let inputs: Vec<AclTensor> = vec![
        AclTensor::fp16_nd(x, &shape),
        AclTensor::i32_nd(rot_idx, &channels),
    ];
    let ghost ins = seq![
        nd_view(*x, seq![rows, d], ACL_FLOAT16),
        nd_view(*rot_idx, seq![d], ACL_INT32),
    ];
    proof {
        assert(views(inputs@) =~= ins);
        assert(values(s0, ins) =~= seq![
            fp16(xv, seq![rows, d]),
            nd(rv, seq![d], ACL_INT32),
        ]);
    }
    let rotated = single(
        ctx,
        Entry::GatherV2 { dim: 1 },
        Order::InputsFirst,
        inputs,
        &shape,
        "aclnnGatherV2(rope)",
        "aclnnGatherV2(rope)",
    );
    let ghost c1 = *ctx;
    let ghost n1 = rotated_value(xv, rows, d, rv);
    proof {
        c0.lemma_safe();
        c1.lemma_safe();
        lemma_gains(s0, c1.state(), rotated, n1);
    }
    let t1 = mul_fp16(ctx, x, cos_pos, &shape);
    let ghost c2 = *ctx;
    let ghost n2 = mul_value(xv, cv, seq![rows, d]);
    proof {
        c2.lemma_safe();
        lemma_gains(c1.state(), c2.state(), t1, n2);
    }
    let t2 = mul_fp16(ctx, &rotated, sin_signed, &shape);
    let ghost c3 = *ctx;
    let ghost n3 = mul_value(n1, sv, seq![rows, d]);
    proof {
        c3.lemma_safe();
        lemma_gains(c2.state(), c3.state(), t2, n3);
    }
    let out = add_fp16(ctx, &t1, &t2, &shape);
    let ghost c4 = *ctx;
    proof {
        lemma_releasable(s0, ctx.state(), (s0.issued + 8) as usize);
    }
    ctx.release(t2);
    let ghost c5 = *ctx;
    proof {
        lemma_releasable(s0, ctx.state(), (s0.issued + 4) as usize);
    }
    ctx.release(t1);
    let ghost c6 = *ctx;
    proof {
        lemma_releasable(s0, ctx.state(), (s0.issued + 2) as usize);
    }
    ctx.release(rotated);
    proof {
        let sh = seq![rows, d];
        let p1 = kernel_calls(
            s0.issued,
            Entry::GatherV2 { dim: 1 },
            Order::InputsFirst,
            ins,
            fp16_out(sh),
            "aclnnGatherV2(rope)"@,
            "aclnnGatherV2(rope)"@,
        );
        let p2 = mul_calls(s0.issued + 4, *x, *cos_pos, sh);
        let p3 = mul_calls(s0.issued + 8, rotated, *sin_signed, sh);
        let p4 = add_calls(s0.issued + 12, t1, t2, sh);
        let r5 = seq![Call::Release { base: Base::Fresh((s0.issued + 8) as usize) }];
        let r6 = seq![Call::Release { base: Base::Fresh((s0.issued + 4) as usize) }];
        let r7 = seq![Call::Release { base: Base::Fresh((s0.issued + 2) as usize) }];
        lemma_quiet(c4, c5, r5);
        lemma_quiet(c5, c6, r6);
        lemma_quiet(c6, *ctx, r7);
        lemma_quiet_then(c0, c1, c2);
        lemma_quiet_then(c0, c2, c3);
        lemma_quiet_then(c0, c3, c4);
        lemma_quiet_then(c0, c4, c5);
        lemma_quiet_then(c0, c5, c6);
        lemma_quiet_then(c0, c6, *ctx);
        lemma_recorded(c0, c1, c2, p1, p2);
        lemma_recorded(c0, c2, c3, p1 + p2, p3);
        lemma_recorded(c0, c3, c4, p1 + p2 + p3, p4);
        lemma_recorded(c0, c4, c5, p1 + p2 + p3 + p4, r5);
        lemma_recorded(c0, c5, c6, p1 + p2 + p3 + p4 + r5, r6);
        lemma_recorded(c0, c6, *ctx, p1 + p2 + p3 + p4 + r5 + r6, r7);
        assert(p1 + p2 + p3 + p4 + r5 + r6 + r7 =~= p1 + p2 + p3 + p4 + seq![
            Call::Release { base: Base::Fresh((s0.issued + 8) as usize) },
            Call::Release { base: Base::Fresh((s0.issued + 4) as usize) },
            Call::Release { base: Base::Fresh((s0.issued + 2) as usize) },
        ]);
        match out.base {
            Base::Fresh(id) => {
                assert(ctx.state().fresh =~= s0.fresh.insert(
                    id,
                    rope_value(xv, rows, d, cv, sv, rv),
                ));
            },
            _ => {},
        }
    }
    out
}

} // verus!
