//! Fused normalisation kernels.

use vstd::prelude::*;

use crate::capture::{lemma_kernel_quiet, lemma_quiet, lemma_quiet_then, quiet};
use crate::context::AscendContext;
use crate::device::{AclTensor, Base, Call, DeviceBuffer, Entry, Real, ACL_FLOAT, ACL_FLOAT16};
use crate::kernel::{
    kernel, kernel_calls, lemma_recorded, output_views, values, views, whole, Order, Output,
    OutputView,
};
use crate::ops::{fp16, is_fp16, result};
use crate::semantics::{computed, gains, keeps, lemma_releasable, nd_view, DeviceState, SymByte};
use crate::tensor::{lemma_fits, lemma_one_dim, lemma_two_dims};

verus! {

/// `buf` is live and holds exactly `n` half-precision words.
pub open spec fn is_row(st: DeviceState, buf: DeviceBuffer, n: i64) -> bool {
    st.holds(buf) && buf.len == n * 2
}

/// What [`layer_norm_fp16`] computes.
pub open spec fn layer_norm_value(
    x: Seq<SymByte>,
    zeros: Seq<SymByte>,
    gamma: Seq<SymByte>,
    beta: Seq<SymByte>,
    rows: i64,
    cols: i64,
    eps: Real,
) -> Seq<SymByte> {
    result(
        (Entry::AddLayerNorm { epsilon: eps }),
        seq![
            fp16(x, seq![rows, cols]),
            fp16(zeros, seq![rows, cols]),
            fp16(gamma, seq![cols]),
            fp16(beta, seq![cols]),
        ],
        seq![rows, cols],
    )
}

/// The result, mean, reciprocal deviation and sum of a layer norm.
pub open spec fn layer_norm_outputs(rows: i64, cols: i64) -> Seq<OutputView> {
    seq![
        OutputView { dims: seq![rows, cols], dtype: ACL_FLOAT16 },
        OutputView { dims: seq![rows, 1i64], dtype: ACL_FLOAT },
        OutputView { dims: seq![rows, 1i64], dtype: ACL_FLOAT },
        OutputView { dims: seq![rows, cols], dtype: ACL_FLOAT16 },
    ]
}

pub open spec fn layer_norm_calls(
    issued: nat,
    x: DeviceBuffer,
    zeros: DeviceBuffer,
    gamma: DeviceBuffer,
    beta: DeviceBuffer,
    rows: i64,
    cols: i64,
    eps: Real,
) -> Seq<Call> {
    kernel_calls(
        issued,
        Entry::AddLayerNorm { epsilon: eps },
        Order::OutputsFirst,
        seq![
            nd_view(x, seq![rows, cols], ACL_FLOAT16),
            nd_view(zeros, seq![rows, cols], ACL_FLOAT16),
            nd_view(gamma, seq![cols], ACL_FLOAT16),
            nd_view(beta, seq![cols], ACL_FLOAT16),
        ],
        layer_norm_outputs(rows, cols),
        "aclnnAddLayerNorm"@,
        "aclnnAddLayerNorm"@,
    ) + seq![
        Call::Release { base: Base::Fresh((issued + 3) as usize) },
        Call::Release { base: Base::Fresh((issued + 2) as usize) },
        Call::Release { base: Base::Fresh((issued + 1) as usize) },
    ]
}

/// Layer norm of the rows of `x` through the fused kernel that first adds
/// `zeros`, which must be as large as `x`.
pub fn layer_norm_fp16(
    ctx: &mut AscendContext,
    x: &DeviceBuffer,
    zeros: &DeviceBuffer,
    gamma: &DeviceBuffer,
    beta: &DeviceBuffer,
    rows: i64,
    cols: i64,
    eps: Real,
) -> (out: DeviceBuffer)
    requires
        old(ctx).wf(),
        is_fp16(old(ctx).state(), *x, seq![rows, cols]),
        is_fp16(old(ctx).state(), *zeros, seq![rows, cols]),
        is_row(old(ctx).state(), *gamma, cols),
        is_row(old(ctx).state(), *beta, cols),
    ensures
        final(ctx).recorded(
            old(ctx),
            layer_norm_calls(
                old(ctx).state().issued,
                *x,
                *zeros,
                *gamma,
                *beta,
                rows,
                cols,
                eps,
            ),
        ),
        quiet(*old(ctx), *final(ctx)),
        gains(
            old(ctx).state(),
            final(ctx).state(),
            out,
            layer_norm_value(
                old(ctx).state().value(*x),
                old(ctx).state().value(*zeros),
                old(ctx).state().value(*gamma),
                old(ctx).state().value(*beta),
                rows,
                cols,
                eps,
            ),
        ),
{
    let ghost st = ctx.state();
    let ghost c0 = *ctx;
    proof {
        ctx.lemma_safe();
        lemma_fits(rows, cols);
        lemma_one_dim(cols);
        lemma_two_dims(rows, 1);
    }
    let shape: Vec<i64> = vec![rows, cols];
    let row: Vec<i64> = vec![cols];
    assert(shape@ =~= seq![rows, cols]);
    assert(row@ =~= seq![cols]);
    let inputs: Vec<AclTensor> = vec![
        AclTensor::fp16_nd(x, &shape),
        AclTensor::fp16_nd(zeros, &shape),
        AclTensor::fp16_nd(gamma, &row),
        AclTensor::fp16_nd(beta, &row),
    ];
    let outputs: Vec<Output> = vec![
        Output { dims: vec![rows, cols], dtype: ACL_FLOAT16 },
        Output { dims: vec![rows, 1], dtype: ACL_FLOAT },
        Output { dims: vec![rows, 1], dtype: ACL_FLOAT },
        Output { dims: vec![rows, cols], dtype: ACL_FLOAT16 },
    ];
    let entry = Entry::AddLayerNorm { epsilon: eps };
    let ghost ins = seq![
        nd_view(*x, seq![rows, cols], ACL_FLOAT16),
        nd_view(*zeros, seq![rows, cols], ACL_FLOAT16),
        nd_view(*gamma, seq![cols], ACL_FLOAT16),
        nd_view(*beta, seq![cols], ACL_FLOAT16),
    ];
    let ghost vals = seq![
        fp16(st.value(*x), seq![rows, cols]),
        fp16(st.value(*zeros), seq![rows, cols]),
        fp16(st.value(*gamma), seq![cols]),
        fp16(st.value(*beta), seq![cols]),
    ];
    let ghost outs = layer_norm_outputs(rows, cols);
    proof {
        assert(views(inputs@) =~= ins);
        assert(values(st, ins) =~= vals);
        assert(outputs@[0]@.dims =~= seq![rows, cols]);
        assert(outputs@[1]@.dims =~= seq![rows, 1i64]);
        assert(outputs@[2]@.dims =~= seq![rows, 1i64]);
        assert(outputs@[3]@.dims =~= seq![rows, cols]);
        assert(output_views(outputs@) =~= outs);
    }
    let bufs = kernel(
        ctx,
        entry,
        Order::OutputsFirst,
        inputs,
        outputs,
        "aclnnAddLayerNorm",
        "aclnnAddLayerNorm",
    );
    let y = bufs[0];
    let mean = bufs[1];
    let rstd = bufs[2];
    let x_out = bufs[3];
    let ghost c1 = *ctx;
    proof {
        lemma_releasable(st, ctx.state(), (st.issued + 3) as usize);
    }
    ctx.release(x_out);
    let ghost c2 = *ctx;
    proof {
        lemma_releasable(st, ctx.state(), (st.issued + 2) as usize);
    }
    ctx.release(rstd);
    let ghost c3 = *ctx;
    proof {
        lemma_releasable(st, ctx.state(), (st.issued + 1) as usize);
    }
    ctx.release(mean);
    proof {
        let run_calls = kernel_calls(
            st.issued,
            entry,
            Order::OutputsFirst,
            ins,
            outs,
            "aclnnAddLayerNorm"@,
            "aclnnAddLayerNorm"@,
        );
        let r3 = seq![Call::Release { base: Base::Fresh((st.issued + 3) as usize) }];
        let r2 = seq![Call::Release { base: Base::Fresh((st.issued + 2) as usize) }];
        let r1 = seq![Call::Release { base: Base::Fresh((st.issued + 1) as usize) }];
        lemma_kernel_quiet(
            st.issued,
            entry,
            Order::OutputsFirst,
            ins,
            outs,
            "aclnnAddLayerNorm"@,
            "aclnnAddLayerNorm"@,
        );
        lemma_quiet(c0, c1, run_calls);
        lemma_quiet(c1, c2, r3);
        lemma_quiet(c2, c3, r2);
        lemma_quiet(c3, *ctx, r1);
        lemma_quiet_then(c0, c1, c2);
        lemma_quiet_then(c0, c2, c3);
        lemma_quiet_then(c0, c3, *ctx);
        lemma_recorded(c0, c1, c2, run_calls, r3);
        lemma_recorded(c0, c2, c3, run_calls + r3, r2);
        lemma_recorded(c0, c3, *ctx, run_calls + r3 + r2, r1);
        assert(run_calls + r3 + r2 + r1 =~= layer_norm_calls(
            st.issued,
            *x,
            *zeros,
            *gamma,
            *beta,
            rows,
            cols,
            eps,
        ));
        reveal(result);
        assert(ctx.state().fresh =~= st.fresh.insert(
            st.issued as usize,
            result(entry, vals, seq![rows, cols]),
        ));
    }
    y
}

/// The operands of the fused residual norm.
pub open spec fn rms_norm_operands(
    x1: Seq<SymByte>,
    x2: Seq<SymByte>,
    gamma: Seq<SymByte>,
    rows: i64,
    cols: i64,
) -> Seq<crate::semantics::TensorValue> {
    seq![
        fp16(x1, seq![rows, cols]),
        fp16(x2, seq![rows, cols]),
        fp16(gamma, seq![cols]),
    ]
}

/// The first result of [`add_rms_norm_fp16`].
pub open spec fn rms_norm_value(
    x1: Seq<SymByte>,
    x2: Seq<SymByte>,
    gamma: Seq<SymByte>,
    rows: i64,
    cols: i64,
    eps: Real,
) -> Seq<SymByte> {
    result(
        (Entry::AddRmsNorm { epsilon: eps }),
        rms_norm_operands(x1, x2, gamma, rows, cols),
        seq![rows, cols],
    )
}

/// The second result of [`add_rms_norm_fp16`].
pub open spec fn rstd_value(
    x1: Seq<SymByte>,
    x2: Seq<SymByte>,
    gamma: Seq<SymByte>,
    rows: i64,
    cols: i64,
    eps: Real,
) -> Seq<SymByte> {
    computed(
        (Entry::AddRmsNorm { epsilon: eps }),
        rms_norm_operands(x1, x2, gamma, rows, cols),
        1,
        (rows * 4) as nat,
    )
}

pub open spec fn rms_norm_outputs(rows: i64, cols: i64) -> Seq<OutputView> {
    seq![
        OutputView { dims: seq![rows, cols], dtype: ACL_FLOAT16 },
        OutputView { dims: seq![rows, 1i64], dtype: ACL_FLOAT },
        OutputView { dims: seq![rows, cols], dtype: ACL_FLOAT16 },
    ]
}

pub open spec fn rms_norm_calls(
    issued: nat,
    x1: DeviceBuffer,
    x2: DeviceBuffer,
    gamma: DeviceBuffer,
    rows: i64,
    cols: i64,
    eps: Real,
) -> Seq<Call> {
    kernel_calls(
        issued,
        Entry::AddRmsNorm { epsilon: eps },
        Order::OutputsFirst,
        seq![
            nd_view(x1, seq![rows, cols], ACL_FLOAT16),
            nd_view(x2, seq![rows, cols], ACL_FLOAT16),
            nd_view(gamma, seq![cols], ACL_FLOAT16),
        ],
        rms_norm_outputs(rows, cols),
        "aclnnAddRmsNorm"@,
        "aclnnAddRmsNorm"@,
    ) + seq![Call::Release { base: Base::Fresh((issued + 2) as usize) }]
}

/// `rmsnorm(x1 + x2) * gamma` over the rows of `[rows, cols]` operands, and the
/// reciprocal deviation of each row in single precision.
pub fn add_rms_norm_fp16(
    ctx: &mut AscendContext,
    x1: &DeviceBuffer,
    x2: &DeviceBuffer,
    gamma: &DeviceBuffer,
    shape: [i64; 2],
    epsilon: Real,
) -> (out: (DeviceBuffer, DeviceBuffer))
    requires
        old(ctx).wf(),
        is_fp16(old(ctx).state(), *x1, shape@),
        is_fp16(old(ctx).state(), *x2, shape@),
        is_row(old(ctx).state(), *gamma, shape[1]),
    ensures
        ({
            let st = old(ctx).state();
            let end = final(ctx).state();
            let y = rms_norm_value(
                st.value(*x1),
                st.value(*x2),
                st.value(*gamma),
                shape[0],
                shape[1],
                epsilon,
            );
            let rstd = rstd_value(
                st.value(*x1),
                st.value(*x2),
                st.value(*gamma),
                shape[0],
                shape[1],
                epsilon,
            );
            &&& final(ctx).recorded(
                old(ctx),
                rms_norm_calls(st.issued, *x1, *x2, *gamma, shape[0], shape[1], epsilon),
            )
            &&& quiet(*old(ctx), *final(ctx))
            &&& out.0 == whole(st.issued, shape[0] * shape[1] * 2)
            &&& out.1 == whole(st.issued + 1, shape[0] * 4)
            &&& st.issued + 1 <= usize::MAX
            &&& end.fresh == st.fresh.insert(st.issued as usize, y).insert(
                (st.issued + 1) as usize,
                rstd,
            )
            &&& end.kept == st.kept
            &&& end.pool == st.pool
            &&& end.slots == st.slots
            &&& keeps(st, end)
            &&& end.issued >= st.issued + 2
        }),
{
    let ghost st = ctx.state();
    let ghost c0 = *ctx;
    let rows: i64 = shape[0];
    let cols: i64 = shape[1];
    proof {
        ctx.lemma_safe();
        assert(shape@ =~= seq![rows, cols]);
        lemma_fits(rows, cols);
        lemma_one_dim(cols);
        lemma_two_dims(rows, 1);
    }
    let dims: Vec<i64> = vec![rows, cols];
    let row: Vec<i64> = vec![cols];
    assert(dims@ =~= seq![rows, cols]);
    assert(row@ =~= seq![cols]);
    let inputs: Vec<AclTensor> = vec![
        AclTensor::fp16_nd(x1, &dims),
        AclTensor::fp16_nd(x2, &dims),
        AclTensor::fp16_nd(gamma, &row),
    ];
    let outputs: Vec<Output> = vec![
        Output { dims: vec![rows, cols], dtype: ACL_FLOAT16 },
        Output { dims: vec![rows, 1], dtype: ACL_FLOAT },
        Output { dims: vec![rows, cols], dtype: ACL_FLOAT16 },
    ];
    let entry = Entry::AddRmsNorm { epsilon };
    let ghost ins = seq![
        nd_view(*x1, seq![rows, cols], ACL_FLOAT16),
        nd_view(*x2, seq![rows, cols], ACL_FLOAT16),
        nd_view(*gamma, seq![cols], ACL_FLOAT16),
    ];
    let ghost vals = rms_norm_operands(
        st.value(*x1),
        st.value(*x2),
        st.value(*gamma),
        rows,
        cols,
    );
    let ghost outs = rms_norm_outputs(rows, cols);
    proof {
        assert(views(inputs@) =~= ins);
        assert(values(st, ins) =~= vals);
        assert(outputs@[0]@.dims =~= seq![rows, cols]);
        assert(outputs@[1]@.dims =~= seq![rows, 1i64]);
        assert(outputs@[2]@.dims =~= seq![rows, cols]);
        assert(output_views(outputs@) =~= outs);
    }
    let bufs = kernel(
        ctx,
        entry,
        Order::OutputsFirst,
        inputs,
        outputs,
        "aclnnAddRmsNorm",
        "aclnnAddRmsNorm",
    );
    let y = bufs[0];
    let rstd = bufs[1];
    let x_out = bufs[2];
    let ghost c1 = *ctx;
    proof {
        lemma_releasable(st, ctx.state(), (st.issued + 2) as usize);
    }
    ctx.release(x_out);
    proof {
        let run_calls = kernel_calls(
            st.issued,
            entry,
            Order::OutputsFirst,
            ins,
            outs,
            "aclnnAddRmsNorm"@,
            "aclnnAddRmsNorm"@,
        );
        let gone = seq![Call::Release { base: Base::Fresh((st.issued + 2) as usize) }];
        lemma_recorded(c0, c1, *ctx, run_calls, gone);
        lemma_kernel_quiet(
            st.issued,
            entry,
            Order::OutputsFirst,
            ins,
            outs,
            "aclnnAddRmsNorm"@,
            "aclnnAddRmsNorm"@,
        );
        lemma_quiet(c0, c1, run_calls);
        lemma_quiet(c1, *ctx, gone);
        lemma_quiet_then(c0, c1, *ctx);
        reveal(result);
        assert(ctx.state().fresh =~= st.fresh.insert(
            st.issued as usize,
            result(entry, vals, seq![rows, cols]),
        ).insert((st.issued + 1) as usize, computed(entry, vals, 1, (rows * 4) as nat)));
    }
    (y, rstd)
}

} // verus!
