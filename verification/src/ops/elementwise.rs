//! Elementwise kernels.

use vstd::prelude::*;

use crate::capture::{lemma_quiet, lemma_quiet_then, quiet};
use crate::context::AscendContext;
use crate::device::{AclTensor, Base, Call, DeviceBuffer, Entry, ACL_FLOAT16};
use crate::kernel::{kernel_calls, lemma_recorded, values, views, whole, Order};
use crate::ops::{fp16, fp16_out, is_fp16, ran, result, single};
use crate::semantics::{
    elements, gains, lemma_gains, lemma_releasable, nd_view, SymByte, TensorValue,
};
use crate::tensor::{lemma_fits, row_broadcast_view};

verus! {

/// The single-precision pattern of one.
pub const ONE: u32 = 0x3f80_0000;

/// The single-precision pattern of minus one.
pub const MINUS_ONE: u32 = 0xbf80_0000;

/// What [`silu_fp16`] computes.
pub open spec fn silu_value(a: Seq<SymByte>, shape: Seq<i64>) -> Seq<SymByte> {
    result(
        Entry::Silu,
        seq![fp16(a, shape)],
        shape,
    )
}

/// `silu(a)`, elementwise.
pub fn silu_fp16(
    ctx: &mut AscendContext,
    a: &DeviceBuffer,
    shape: &[i64],
) -> (out: DeviceBuffer)
    requires
        old(ctx).wf(),
        is_fp16(old(ctx).state(), *a, shape@),
    ensures
        ran(
            *old(ctx),
            *final(ctx),
            out,
            Entry::Silu,
            Order::OutputsFirst,
            seq![nd_view(*a, shape@, ACL_FLOAT16)],
            shape@,
            "aclnnSilu"@,
            "aclnnSilu"@,
        ),
        gains(
            old(ctx).state(),
            final(ctx).state(),
            out,
            silu_value(old(ctx).state().value(*a), shape@),
        ),
{
    let inputs: Vec<AclTensor> = vec![AclTensor::fp16_nd(a, shape)];
    proof {
        let st = ctx.state();
        let ins = seq![nd_view(*a, shape@, ACL_FLOAT16)];
        assert(views(inputs@) =~= ins);
        assert(values(st, ins) =~= seq![fp16(st.value(*a), shape@)]);
    }
    single(ctx, Entry::Silu, Order::OutputsFirst, inputs, shape, "aclnnSilu", "aclnnSilu")
}

/// What [`gelu_fp16`] computes.
pub open spec fn gelu_value(a: Seq<SymByte>, shape: Seq<i64>, tanh_approx: bool) -> Seq<SymByte> {
    result(
        gelu_entry(tanh_approx),
        seq![fp16(a, shape)],
        shape,
    )
}

/// `gelu(a)`, elementwise. `tanh_approx` selects the tanh approximation over the
/// exact form.
pub fn gelu_fp16(
    ctx: &mut AscendContext,
    a: &DeviceBuffer,
    shape: &[i64],
    tanh_approx: bool,
) -> (out: DeviceBuffer)
    requires
        old(ctx).wf(),
        is_fp16(old(ctx).state(), *a, shape@),
    ensures
        ran(
            *old(ctx),
            *final(ctx),
            out,
            gelu_entry(tanh_approx),
            Order::OutputsFirst,
            seq![nd_view(*a, shape@, ACL_FLOAT16)],
            shape@,
            "aclnnGeluV2"@,
            "aclnnGeluV2"@,
        ),
        gains(
            old(ctx).state(),
            final(ctx).state(),
            out,
            gelu_value(old(ctx).state().value(*a), shape@, tanh_approx),
        ),
{
    let inputs: Vec<AclTensor> = vec![AclTensor::fp16_nd(a, shape)];
    proof {
        let st = ctx.state();
        let ins = seq![nd_view(*a, shape@, ACL_FLOAT16)];
        assert(views(inputs@) =~= ins);
        assert(values(st, ins) =~= seq![fp16(st.value(*a), shape@)]);
    }
    single(ctx, gelu_exec_entry(tanh_approx), Order::OutputsFirst, inputs, shape, "aclnnGeluV2", "aclnnGeluV2")
}

/// What [`add_fp16`] computes.
pub open spec fn add_value(a: Seq<SymByte>, b: Seq<SymByte>, shape: Seq<i64>) -> Seq<SymByte> {
    result(
        (Entry::Add { alpha: ONE }),
        seq![fp16(a, shape), fp16(b, shape)],
        shape,
    )
}

/// `a + b`, elementwise.
pub fn add_fp16(
    ctx: &mut AscendContext,
    a: &DeviceBuffer,
    b: &DeviceBuffer,
    shape: &[i64],
) -> (out: DeviceBuffer)
    requires
        old(ctx).wf(),
        is_fp16(old(ctx).state(), *a, shape@),
        is_fp16(old(ctx).state(), *b, shape@),
    ensures
        ran(
            *old(ctx),
            *final(ctx),
            out,
            (Entry::Add { alpha: ONE }),
            Order::OutputsFirst,
            seq![nd_view(*a, shape@, ACL_FLOAT16), nd_view(*b, shape@, ACL_FLOAT16)],
            shape@,
            "aclnnAdd"@,
            "aclnnAdd"@,
        ),
        gains(
            old(ctx).state(),
            final(ctx).state(),
            out,
            add_value(old(ctx).state().value(*a), old(ctx).state().value(*b), shape@),
        ),
{
    let inputs: Vec<AclTensor> = vec![AclTensor::fp16_nd(a, shape), AclTensor::fp16_nd(b, shape)];
    proof {
        let st = ctx.state();
        let ins = seq![nd_view(*a, shape@, ACL_FLOAT16), nd_view(*b, shape@, ACL_FLOAT16)];
        assert(views(inputs@) =~= ins);
        assert(values(st, ins) =~= seq![fp16(st.value(*a), shape@), fp16(st.value(*b), shape@)]);
    }
    single(ctx, Entry::Add { alpha: ONE }, Order::OutputsFirst, inputs, shape, "aclnnAdd", "aclnnAdd")
}

/// What [`mul_fp16`] computes.
pub open spec fn mul_value(a: Seq<SymByte>, b: Seq<SymByte>, shape: Seq<i64>) -> Seq<SymByte> {
    result(
        Entry::Mul,
        seq![fp16(a, shape), fp16(b, shape)],
        shape,
    )
}

/// `a * b`, elementwise.
pub fn mul_fp16(
    ctx: &mut AscendContext,
    a: &DeviceBuffer,
    b: &DeviceBuffer,
    shape: &[i64],
) -> (out: DeviceBuffer)
    requires
        old(ctx).wf(),
        is_fp16(old(ctx).state(), *a, shape@),
        is_fp16(old(ctx).state(), *b, shape@),
    ensures
        ran(
            *old(ctx),
            *final(ctx),
            out,
            Entry::Mul,
            Order::OutputsFirst,
            seq![nd_view(*a, shape@, ACL_FLOAT16), nd_view(*b, shape@, ACL_FLOAT16)],
            shape@,
            "aclnnMul"@,
            "aclnnMul"@,
        ),
        gains(
            old(ctx).state(),
            final(ctx).state(),
            out,
            mul_value(old(ctx).state().value(*a), old(ctx).state().value(*b), shape@),
        ),
{
    let inputs: Vec<AclTensor> = vec![AclTensor::fp16_nd(a, shape), AclTensor::fp16_nd(b, shape)];
    proof {
        let st = ctx.state();
        let ins = seq![nd_view(*a, shape@, ACL_FLOAT16), nd_view(*b, shape@, ACL_FLOAT16)];
        assert(views(inputs@) =~= ins);
        assert(values(st, ins) =~= seq![fp16(st.value(*a), shape@), fp16(st.value(*b), shape@)]);
    }
    single(ctx, Entry::Mul, Order::OutputsFirst, inputs, shape, "aclnnMul", "aclnnMul")
}

/// What [`muls_fp16`] computes.
pub open spec fn muls_value(a: Seq<SymByte>, scalar: u32, shape: Seq<i64>) -> Seq<SymByte> {
    result(
        (Entry::Muls { factor: scalar }),
        seq![fp16(a, shape)],
        shape,
    )
}

/// `a * scalar`, elementwise. The scalar is a single-precision pattern.
pub fn muls_fp16(
    ctx: &mut AscendContext,
    a: &DeviceBuffer,
    scalar: u32,
    shape: &[i64],
) -> (out: DeviceBuffer)
    requires
        old(ctx).wf(),
        is_fp16(old(ctx).state(), *a, shape@),
    ensures
        ran(
            *old(ctx),
            *final(ctx),
            out,
            (Entry::Muls { factor: scalar }),
            Order::OutputsFirst,
            seq![nd_view(*a, shape@, ACL_FLOAT16)],
            shape@,
            "aclnnMuls"@,
            "aclnnMuls"@,
        ),
        gains(
            old(ctx).state(),
            final(ctx).state(),
            out,
            muls_value(old(ctx).state().value(*a), scalar, shape@),
        ),
{
    let inputs: Vec<AclTensor> = vec![AclTensor::fp16_nd(a, shape)];
    proof {
        let st = ctx.state();
        let ins = seq![nd_view(*a, shape@, ACL_FLOAT16)];
        assert(views(inputs@) =~= ins);
        assert(values(st, ins) =~= seq![fp16(st.value(*a), shape@)]);
    }
    single(ctx, Entry::Muls { factor: scalar }, Order::OutputsFirst, inputs, shape, "aclnnMuls", "aclnnMuls")
}

fn gelu_exec_entry(tanh_approx: bool) -> (entry: Entry)
    ensures
        entry == gelu_entry(tanh_approx),
{
    if tanh_approx {
        Entry::GeluV2 { approximate: 1 }
    } else {
        Entry::GeluV2 { approximate: 0 }
    }
}

pub open spec fn gelu_entry(tanh_approx: bool) -> Entry {
    Entry::GeluV2 {
        approximate: if tanh_approx {
            1
        } else {
            0
        },
    }
}

/// One row read as `rows` equal rows.
pub open spec fn row_broadcast(bytes: Seq<SymByte>, rows: i64, cols: i64) -> TensorValue {
    TensorValue {
        dims: seq![rows, cols],
        strides: seq![0i64, 1i64],
        dtype: ACL_FLOAT16,
        format: crate::device::ACL_FORMAT_ND,
        storage: Some(seq![cols]),
        bytes,
    }
}

/// What [`bias_add_fp16`] computes.
pub open spec fn bias_value(x: Seq<SymByte>, bias: Seq<SymByte>, rows: i64, cols: i64) -> Seq<SymByte> {
    result(
        (Entry::Add { alpha: ONE }),
        seq![fp16(x, seq![rows, cols]), row_broadcast(bias, rows, cols)],
        seq![rows, cols],
    )
}

/// `x + bias` for `x` of `[rows, cols]` and one row `bias` of `[cols]`, which is
/// broadcast without being expanded.
pub fn bias_add_fp16(
    ctx: &mut AscendContext,
    x: &DeviceBuffer,
    bias: &DeviceBuffer,
    rows: i64,
    cols: i64,
) -> (out: DeviceBuffer)
    requires
        old(ctx).wf(),
        is_fp16(old(ctx).state(), *x, seq![rows, cols]),
        old(ctx).state().holds(*bias),
        bias.len == cols * 2,
    ensures
        ran(
            *old(ctx),
            *final(ctx),
            out,
            (Entry::Add { alpha: ONE }),
            Order::OutputsFirst,
            seq![nd_view(*x, seq![rows, cols], ACL_FLOAT16), row_broadcast_view(*bias, rows, cols)],
            seq![rows, cols],
            "aclnnAdd(bias)"@,
            "aclnnAdd(bias)"@,
        ),
        gains(
            old(ctx).state(),
            final(ctx).state(),
            out,
            bias_value(old(ctx).state().value(*x), old(ctx).state().value(*bias), rows, cols),
        ),
{
    proof {
        lemma_fits(rows, cols);
    }
    let shape: Vec<i64> = vec![rows, cols];
    assert(shape@ =~= seq![rows, cols]);
    let inputs: Vec<AclTensor> = vec![AclTensor::fp16_nd(x, &shape), AclTensor::fp16_row_broadcast(bias, rows, cols)];
    proof {
        let st = ctx.state();
        let ins = seq![nd_view(*x, seq![rows, cols], ACL_FLOAT16), row_broadcast_view(*bias, rows, cols)];
        assert(views(inputs@) =~= ins);
        assert(values(st, ins) =~= seq![fp16(st.value(*x), seq![rows, cols]), row_broadcast(st.value(*bias), rows, cols)]);
    }
    single(ctx, Entry::Add { alpha: ONE }, Order::OutputsFirst, inputs, &shape, "aclnnAdd(bias)", "aclnnAdd(bias)")
}

/// The steps of [`add_fp16`].
pub open spec fn add_calls(
    issued: nat,
    a: DeviceBuffer,
    b: DeviceBuffer,
    shape: Seq<i64>,
) -> Seq<Call> {
    kernel_calls(
        issued,
        Entry::Add { alpha: ONE },
        Order::OutputsFirst,
        seq![nd_view(a, shape, ACL_FLOAT16), nd_view(b, shape, ACL_FLOAT16)],
        fp16_out(shape),
        "aclnnAdd"@,
        "aclnnAdd"@,
    )
}

/// The steps of [`mul_fp16`].
pub open spec fn mul_calls(
    issued: nat,
    a: DeviceBuffer,
    b: DeviceBuffer,
    shape: Seq<i64>,
) -> Seq<Call> {
    kernel_calls(
        issued,
        Entry::Mul,
        Order::OutputsFirst,
        seq![nd_view(a, shape, ACL_FLOAT16), nd_view(b, shape, ACL_FLOAT16)],
        fp16_out(shape),
        "aclnnMul"@,
        "aclnnMul"@,
    )
}

/// The steps of [`muls_fp16`].
pub open spec fn muls_calls(issued: nat, a: DeviceBuffer, scalar: u32, shape: Seq<i64>) -> Seq<
    Call,
> {
    kernel_calls(
        issued,
        Entry::Muls { factor: scalar },
        Order::OutputsFirst,
        seq![nd_view(a, shape, ACL_FLOAT16)],
        fp16_out(shape),
        "aclnnMuls"@,
        "aclnnMuls"@,
    )
}

/// What [`euler_update_fp16`] computes: `x0 + sigma * (x1 - x0)`, with the
/// difference as `x1 + (-1) * x0`.
pub open spec fn euler_value(
    x0: Seq<SymByte>,
    x1: Seq<SymByte>,
    sigma: u32,
    shape: Seq<i64>,
) -> Seq<SymByte> {
    let dx = add_value(x1, muls_value(x0, MINUS_ONE, shape), shape);
    add_value(x0, muls_value(dx, sigma, shape), shape)
}

pub open spec fn euler_calls(
    issued: nat,
    x0: DeviceBuffer,
    x1: DeviceBuffer,
    sigma: u32,
    shape: Seq<i64>,
) -> Seq<Call> {
    let len = elements(shape) * 2;
    let neg = whole(issued, len);
    let dx = whole(issued + 3, len);
    let scaled = whole(issued + 7, len);
    muls_calls(issued, x0, MINUS_ONE, shape) + add_calls(issued + 3, x1, neg, shape) + muls_calls(
        issued + 7,
        dx,
        sigma,
        shape,
    ) + add_calls(issued + 10, x0, scaled, shape) + seq![
        Call::Release { base: Base::Fresh((issued + 7) as usize) },
        Call::Release { base: Base::Fresh((issued + 3) as usize) },
        Call::Release { base: Base::Fresh(issued as usize) },
    ]
}

/// One Euler step of flow matching: `x0 + sigma * (x1 - x0)`. `sigma` is a
/// single-precision pattern.
pub fn euler_update_fp16(
    ctx: &mut AscendContext,
    x0: &DeviceBuffer,
    x1: &DeviceBuffer,
    sigma: u32,
    shape: &[i64],
) -> (out: DeviceBuffer)
    requires
        old(ctx).wf(),
        is_fp16(old(ctx).state(), *x0, shape@),
        is_fp16(old(ctx).state(), *x1, shape@),
    ensures
        final(ctx).recorded(
            old(ctx),
            euler_calls(old(ctx).state().issued, *x0, *x1, sigma, shape@),
        ),
        quiet(*old(ctx), *final(ctx)),
        gains(
            old(ctx).state(),
            final(ctx).state(),
            out,
            euler_value(
                old(ctx).state().value(*x0),
                old(ctx).state().value(*x1),
                sigma,
                shape@,
            ),
        ),
{
    let ghost c0 = *ctx;
    let ghost s0 = ctx.state();
    let ghost v0 = s0.value(*x0);
    let ghost v1 = s0.value(*x1);
    let neg = muls_fp16(ctx, x0, MINUS_ONE, shape);
    let ghost c1 = *ctx;
    let ghost n1 = muls_value(v0, MINUS_ONE, shape@);
    proof {
        c0.lemma_safe();
        c1.lemma_safe();
        lemma_gains(s0, c1.state(), neg, n1);
    }
    let dx = add_fp16(ctx, x1, &neg, shape);
    let ghost c2 = *ctx;
    let ghost n2 = add_value(v1, n1, shape@);
    proof {
        c2.lemma_safe();
        lemma_gains(c1.state(), c2.state(), dx, n2);
    }
    let scaled = muls_fp16(ctx, &dx, sigma, shape);
    let ghost c3 = *ctx;
    let ghost n3 = muls_value(n2, sigma, shape@);
    proof {
        c3.lemma_safe();
        lemma_gains(c2.state(), c3.state(), scaled, n3);
    }
    let out = add_fp16(ctx, x0, &scaled, shape);
    let ghost c4 = *ctx;
    proof {
        lemma_releasable(s0, ctx.state(), (s0.issued + 7) as usize);
    }
    ctx.release(scaled);
    let ghost c5 = *ctx;
    proof {
        lemma_releasable(s0, ctx.state(), (s0.issued + 3) as usize);
    }
    ctx.release(dx);
    let ghost c6 = *ctx;
    proof {
        lemma_releasable(s0, ctx.state(), s0.issued as usize);
    }
    ctx.release(neg);
    proof {
        let p1 = muls_calls(s0.issued, *x0, MINUS_ONE, shape@);
        let p2 = add_calls(s0.issued + 3, *x1, neg, shape@);
        let p3 = muls_calls(s0.issued + 7, dx, sigma, shape@);
        let p4 = add_calls(s0.issued + 10, *x0, scaled, shape@);
        let r5 = seq![Call::Release { base: Base::Fresh((s0.issued + 7) as usize) }];
        let r6 = seq![Call::Release { base: Base::Fresh((s0.issued + 3) as usize) }];
        let r7 = seq![Call::Release { base: Base::Fresh(s0.issued as usize) }];
        lemma_quiet(c4, c5, r5);
        lemma_quiet(c5, c6, r6);
        lemma_quiet(c6, *ctx, r7);
        lemma_quiet_then(c0, c1, c2);
        lemma_quiet_then(c0, c2, c3);
        lemma_quiet_then(c0, c3, c4);
        lemma_quiet_then(c0, c4, c5);
        lemma_quiet_then(c0, c5, c6);
        lemma_quiet_then(c0, c6, *ctx);
        lemma_recorded(c0, c1, c2, p1, p2);
        lemma_recorded(c0, c2, c3, p1 + p2, p3);
        lemma_recorded(c0, c3, c4, p1 + p2 + p3, p4);
        lemma_recorded(c0, c4, c5, p1 + p2 + p3 + p4, r5);
        lemma_recorded(c0, c5, c6, p1 + p2 + p3 + p4 + r5, r6);
        lemma_recorded(c0, c6, *ctx, p1 + p2 + p3 + p4 + r5 + r6, r7);
        assert(p1 + p2 + p3 + p4 + r5 + r6 + r7 =~= p1 + p2 + p3 + p4 + seq![
            Call::Release { base: Base::Fresh((s0.issued + 7) as usize) },
            Call::Release { base: Base::Fresh((s0.issued + 3) as usize) },
            Call::Release { base: Base::Fresh(s0.issued as usize) },
        ]);
        match out.base {
            Base::Fresh(id) => {
                assert(ctx.state().fresh =~= s0.fresh.insert(
                    id,
                    euler_value(v0, v1, sigma, shape@),
                ));
            },
            _ => {},
        }
    }
    out
}

} // verus!
