//! Matrix products.

use vstd::prelude::*;

use crate::capture::{lemma_quiet, lemma_quiet_then, quiet};
use crate::context::AscendContext;
use crate::device::{
    AclTensor, Base, Call, DeviceBuffer, Entry, LaunchMode, TensorView, ACL_FLOAT16,
};
use crate::kernel::{
    first_output, kernel_calls, lemma_recorded, lemma_recorded_next, lemma_recorded_nothing, values,
    views, whole, Order,
};
use crate::ops::elementwise::ONE;
use crate::ops::rows::{rows_value, take_rows_calls, take_rows_fp16};
use crate::ops::{fp16, fp16_out, is_fp16, lemma_result_len, ran, result, single};
use crate::semantics::{
    covered, elements, filled, gains, lemma_gains, lemma_releasable, lemma_whole_value,
    lemma_write_whole, nd_view, read_through, undefined, yields, DeviceState, SymByte, TensorValue,
};
use crate::tensor::{fits, lemma_fits, nz_view, transposed_view};

verus! {

/// Matrix products compute in the element type of their operands.
pub const CUBE_MATH_KEEP_DTYPE: i8 = 1;

/// What [`mm_fp16`] computes.
pub open spec fn mm_value(a: Seq<SymByte>, ash: [i64; 2], b: Seq<SymByte>, bsh: [i64; 2]) -> Seq<SymByte> {
    result(
        (Entry::Mm { cube_math: 2 }),
        seq![fp16(a, ash@), fp16(b, bsh@)],
        seq![ash[0], bsh[1]],
    )
}

/// `a @ b` for row-major `a` of `[m, k]` and `b` of `[k, n]` through the plain
/// matrix-product entry.
pub fn mm_fp16(
    ctx: &mut AscendContext,
    a: &DeviceBuffer,
    ash: [i64; 2],
    b: &DeviceBuffer,
    bsh: [i64; 2],
) -> (out: DeviceBuffer)
    requires
        old(ctx).wf(),
        is_fp16(old(ctx).state(), *a, ash@),
        is_fp16(old(ctx).state(), *b, bsh@),
        fits(ash[0], bsh[1]),
    ensures
        ran(
            *old(ctx),
            *final(ctx),
            out,
            (Entry::Mm { cube_math: 2 }),
            Order::OutputsFirst,
            seq![nd_view(*a, ash@, ACL_FLOAT16), nd_view(*b, bsh@, ACL_FLOAT16)],
            seq![ash[0], bsh[1]],
            "aclnnMm"@,
            "aclnnMm"@,
        ),
        gains(
            old(ctx).state(),
            final(ctx).state(),
            out,
            mm_value(old(ctx).state().value(*a), ash, old(ctx).state().value(*b), bsh),
        ),
{
    let a_shape: Vec<i64> = vec![ash[0], ash[1]];
    let b_shape: Vec<i64> = vec![bsh[0], bsh[1]];
    let shape: Vec<i64> = vec![ash[0], bsh[1]];
    assert(a_shape@ =~= ash@);
    assert(b_shape@ =~= bsh@);
    assert(shape@ =~= seq![ash[0], bsh[1]]);
    let inputs: Vec<AclTensor> = vec![AclTensor::fp16_nd(a, &a_shape), AclTensor::fp16_nd(b, &b_shape)];
    proof {
        let st = ctx.state();
        let ins = seq![nd_view(*a, ash@, ACL_FLOAT16), nd_view(*b, bsh@, ACL_FLOAT16)];
        assert(views(inputs@) =~= ins);
        assert(values(st, ins) =~= seq![fp16(st.value(*a), ash@), fp16(st.value(*b), bsh@)]);
    }
    single(ctx, Entry::Mm { cube_math: 2 }, Order::OutputsFirst, inputs, &shape, "aclnnMm", "aclnnMm")
}

/// A `[k, n]` operand over memory that holds the `[n, k]` matrix row by row.
pub open spec fn transposed(bytes: Seq<SymByte>, k: i64, n: i64) -> TensorValue {
    TensorValue {
        dims: seq![k, n],
        strides: seq![1i64, k],
        dtype: ACL_FLOAT16,
        format: crate::device::ACL_FORMAT_ND,
        storage: None,
        bytes,
    }
}

/// `b_t` is live and holds at least the `[n, k]` matrix.
pub open spec fn holds_transposed(st: DeviceState, b_t: DeviceBuffer, k: i64, n: i64) -> bool {
    &&& st.holds(b_t)
    &&& k >= 0
    &&& n >= 0
    &&& k * n * 2 <= b_t.len
}

/// What [`mm_b_t_fp16`] computes.
pub open spec fn mm_b_t_value(a: Seq<SymByte>, ash: [i64; 2], b_t: Seq<SymByte>, k: i64, n: i64) -> Seq<SymByte> {
    result(
        (Entry::Mm { cube_math: 2 }),
        seq![fp16(a, ash@), transposed(b_t, k, n)],
        seq![ash[0], n],
    )
}

/// `a @ b` through the plain matrix-product entry where `b_t` holds `b`
/// transposed, `[n, k]` row by row.
pub fn mm_b_t_fp16(
    ctx: &mut AscendContext,
    a: &DeviceBuffer,
    ash: [i64; 2],
    b_t: &DeviceBuffer,
    k: i64,
    n: i64,
) -> (out: DeviceBuffer)
    requires
        old(ctx).wf(),
        is_fp16(old(ctx).state(), *a, ash@),
        holds_transposed(old(ctx).state(), *b_t, k, n),
        fits(ash[0], n),
    ensures
        ran(
            *old(ctx),
            *final(ctx),
            out,
            (Entry::Mm { cube_math: 2 }),
            Order::OutputsFirst,
            seq![nd_view(*a, ash@, ACL_FLOAT16), transposed_view(*b_t, k, n, "aclCreateTensor(mm t-b)"@)],
            seq![ash[0], n],
            "aclnnMm(t-b)"@,
            "aclnnMm(t-b)"@,
        ),
        gains(
            old(ctx).state(),
            final(ctx).state(),
            out,
            mm_b_t_value(old(ctx).state().value(*a), ash, old(ctx).state().value(*b_t), k, n),
        ),
{
    let a_shape: Vec<i64> = vec![ash[0], ash[1]];
    let shape: Vec<i64> = vec![ash[0], n];
    assert(a_shape@ =~= ash@);
    assert(shape@ =~= seq![ash[0], n]);
    let inputs: Vec<AclTensor> = vec![AclTensor::fp16_nd(a, &a_shape), AclTensor::transposed(b_t, k, n, "aclCreateTensor(mm t-b)")];
    proof {
        let st = ctx.state();
        let ins = seq![nd_view(*a, ash@, ACL_FLOAT16), transposed_view(*b_t, k, n, "aclCreateTensor(mm t-b)"@)];
        assert(views(inputs@) =~= ins);
        assert(values(st, ins) =~= seq![fp16(st.value(*a), ash@), transposed(st.value(*b_t), k, n)]);
    }
    single(ctx, Entry::Mm { cube_math: 2 }, Order::OutputsFirst, inputs, &shape, "aclnnMm(t-b)", "aclnnMm(t-b)")
}

/// An operand in the blocked layout.
pub open spec fn blocked(bytes: Seq<SymByte>, dims: Seq<i64>, strides: Seq<i64>) -> TensorValue {
    TensorValue {
        dims,
        strides,
        dtype: ACL_FLOAT16,
        format: crate::device::ACL_FORMAT_FRACTAL_NZ,
        storage: Some(dims),
        bytes,
    }
}

/// A descriptor over memory in the blocked layout of
/// [`host_nz_reorder`](crate::host::host_nz_reorder).
pub fn nz_tensor(buf: &DeviceBuffer, dims: &[i64], strides: &[i64]) -> (t: AclTensor)
    requires
        covered(nz_view(*buf, dims@, strides@)),
    ensures
        t@ == nz_view(*buf, dims@, strides@),
{
    AclTensor::fractal_nz(buf, dims, strides)
}

/// What [`matmul_weight_nz_fp16`] computes.
pub open spec fn weight_nz_value(a: Seq<SymByte>, ash: [i64; 2], b_nz: Seq<SymByte>, b_dims: Seq<i64>, b_strides: Seq<i64>, out_cols: i64) -> Seq<SymByte> {
    result(
        (Entry::MatmulWeightNz { cube_math: CUBE_MATH_KEEP_DTYPE }),
        seq![fp16(a, ash@), blocked(b_nz, b_dims, b_strides)],
        seq![ash[0], out_cols],
    )
}

/// `a @ b` where the weight is held in the blocked layout.
pub fn matmul_weight_nz_fp16(
    ctx: &mut AscendContext,
    a: &DeviceBuffer,
    ash: [i64; 2],
    b_nz: &DeviceBuffer,
    b_dims: &[i64],
    b_strides: &[i64],
    out_cols: i64,
) -> (out: DeviceBuffer)
    requires
        old(ctx).wf(),
        is_fp16(old(ctx).state(), *a, ash@),
        old(ctx).state().holds(*b_nz),
        covered(nz_view(*b_nz, b_dims@, b_strides@)),
        fits(ash[0], out_cols),
    ensures
        ran(
            *old(ctx),
            *final(ctx),
            out,
            (Entry::MatmulWeightNz { cube_math: CUBE_MATH_KEEP_DTYPE }),
            Order::OutputsFirst,
            seq![nd_view(*a, ash@, ACL_FLOAT16), nz_view(*b_nz, b_dims@, b_strides@)],
            seq![ash[0], out_cols],
            "aclnnMatmulWeightNzGetWorkspaceSize"@,
            "aclnnMatmulWeightNz"@,
        ),
        gains(
            old(ctx).state(),
            final(ctx).state(),
            out,
            weight_nz_value(old(ctx).state().value(*a), ash, old(ctx).state().value(*b_nz), b_dims@, b_strides@, out_cols),
        ),
{
    let a_shape: Vec<i64> = vec![ash[0], ash[1]];
    let shape: Vec<i64> = vec![ash[0], out_cols];
    assert(a_shape@ =~= ash@);
    assert(shape@ =~= seq![ash[0], out_cols]);
    let inputs: Vec<AclTensor> = vec![AclTensor::fp16_nd(a, &a_shape), nz_tensor(b_nz, b_dims, b_strides)];
    proof {
        let st = ctx.state();
        let ins = seq![nd_view(*a, ash@, ACL_FLOAT16), nz_view(*b_nz, b_dims@, b_strides@)];
        assert(views(inputs@) =~= ins);
        assert(values(st, ins) =~= seq![fp16(st.value(*a), ash@), blocked(st.value(*b_nz), b_dims@, b_strides@)]);
    }
    single(ctx, Entry::MatmulWeightNz { cube_math: CUBE_MATH_KEEP_DTYPE }, Order::OutputsFirst, inputs, &shape, "aclnnMatmulWeightNzGetWorkspaceSize", "aclnnMatmulWeightNz")
}

/// Row counts of the left operand are padded to a multiple of this: with wide
/// outputs the kernel faults on any other row count.
pub const MATMUL_M_ALIGN: i64 = 16;

/// The least multiple of the row alignment that is at least `m`.
pub open spec fn aligned_rows(m: i64) -> i64 {
    ((m + 15) / 16 * 16) as i64
}

/// The first `used` bytes of `a`, then zeros up to `total` bytes.
pub open spec fn zero_padded(a: Seq<SymByte>, used: int, total: int) -> Seq<SymByte> {
    a.subrange(0, used) + filled((total - used) as nat, 0)
}

/// What [`matmul_fp16`] and [`matmul_b_t_fp16`] compute: the product of `a`,
/// padded with zero rows to the row alignment, and `b`; of it the first `m` rows.
pub open spec fn matmul_value(a: Seq<SymByte>, m: i64, k: i64, b: TensorValue, n: i64) -> Seq<
    SymByte,
> {
    let t = aligned_rows(m);
    result(
        (Entry::Matmul { cube_math: CUBE_MATH_KEEP_DTYPE }),
        seq![fp16(zero_padded(a, m * k * 2, t * k * 2), seq![t, k]), b],
        seq![t, n],
    ).subrange(0, m * n * 2)
}

/// The pooled buffer in which a padded operand is built.
pub open spec fn pad_buffer(m: i64, k: i64) -> DeviceBuffer {
    let len = (aligned_rows(m) * k * 2) as usize;
    DeviceBuffer { base: Base::Pool(len), offset: 0, len }
}

/// The first `len` bytes of a buffer.
pub open spec fn front(buf: DeviceBuffer, len: int) -> DeviceBuffer {
    DeviceBuffer { base: buf.base, offset: buf.offset, len: len as usize }
}

pub open spec fn pad_calls(a: DeviceBuffer, m: i64, k: i64) -> Seq<Call> {
    let buf = pad_buffer(m, k);
    seq![
        Call::Scratch { len: buf.len },
        Call::Fill { buffer: buf, value: 0 },
        Call::Copy {
            dst: front(buf, m * k * 2),
            src: front(a, m * k * 2),
            op: "aclrtMemcpyAsync(m-pad)"@,
        },
    ]
}

/// Every step of a product: padding and slicing only where they are needed.
pub open spec fn matmul_calls(
    issued: nat,
    a: DeviceBuffer,
    m: i64,
    k: i64,
    b: TensorView,
    n: i64,
    order: Order,
    plan_op: Seq<char>,
    run_op: Seq<char>,
) -> Seq<Call> {
    let t = aligned_rows(m);
    let entry = Entry::Matmul { cube_math: CUBE_MATH_KEEP_DTYPE };
    if t == m {
        kernel_calls(
            issued,
            entry,
            order,
            seq![nd_view(a, seq![m, k], ACL_FLOAT16), b],
            fp16_out(seq![m, n]),
            plan_op,
            run_op,
        )
    } else {
        let id = first_output(issued, order, 2);
        pad_calls(a, m, k) + kernel_calls(
            issued,
            entry,
            order,
            seq![nd_view(pad_buffer(m, k), seq![t, k], ACL_FLOAT16), b],
            fp16_out(seq![t, n]),
            plan_op,
            run_op,
        ) + take_rows_calls(issued + 4, whole(id, t * n * 2), 0, m, n) + seq![
            Call::Release { base: Base::Fresh(id as usize) },
        ]
    }
}

/// The operands of a product are live, of the sizes that their shapes ask for, and not
/// in the scratch buffer in which the left operand is padded, where it is.
pub open spec fn matmul_ready(
    st: DeviceState,
    a: DeviceBuffer,
    m: i64,
    k: i64,
    b: DeviceBuffer,
    n: i64,
) -> bool {
    &&& m >= 0
    &&& m <= i64::MAX - 16
    &&& fits(aligned_rows(m), k)
    &&& fits(aligned_rows(m), n)
    &&& st.holds(a)
    &&& m * k * 2 <= a.len
    &&& m % 16 == 0 ==> a.len == m * k * 2
    &&& m % 16 != 0 ==> a.base != pad_buffer(m, k).base && b.base != pad_buffer(m, k).base
    &&& st.holds(b)
}

pub proof fn lemma_aligned(m: i64, k: i64)
    requires
        0 <= m <= i64::MAX - 16,
        fits(aligned_rows(m), k),
    ensures
        m <= aligned_rows(m) < m + 16,
        aligned_rows(m) == (m + 15) / 16 * 16,
        aligned_rows(m) % 16 == 0,
        (m % 16 == 0) == (aligned_rows(m) == m),
        k >= 0,
        0 <= m * k <= aligned_rows(m) * k,
        aligned_rows(m) * k * 4 <= isize::MAX,
        aligned_rows(m) * k * 4 <= i64::MAX,
        elements(seq![aligned_rows(m), k]) == aligned_rows(m) * k,
{
    let q: int = (m + 15) / 16;
    assert(16 * q <= m + 15 < 16 * q + 16);
    let t = aligned_rows(m);
    assert(t == q * 16);
    assert((m % 16 == 0) == (q * 16 == m));
    lemma_fits(t, k);
    assert(0 <= m * k <= t * k) by (nonlinear_arith)
        requires
            0 <= m <= t,
            k >= 0,
    ;
}

/// Build a copy of the `[m, k]` matrix `a` in scratch memory, padded with zero
/// rows to the row alignment.
fn pad_rows(ctx: &mut AscendContext, a: &DeviceBuffer, m: i64, k: i64, target: i64) -> (out:
    DeviceBuffer)
    requires
        old(ctx).wf(),
        0 <= m <= i64::MAX - 16,
        target == aligned_rows(m),
        fits(target, k),
        old(ctx).state().holds(*a),
        a.base != pad_buffer(m, k).base,
        m * k * 2 <= a.len,
    ensures
        out == pad_buffer(m, k),
        out.len == target * k * 2,
        final(ctx).recorded(old(ctx), pad_calls(*a, m, k)),
        quiet(*old(ctx), *final(ctx)),
        final(ctx).state() == (DeviceState {
            pool: final(ctx).state().pool,
            dirty: old(ctx).state().dirty.insert(out.base),
            ..old(ctx).state()
        }),
        forall|b: DeviceBuffer|
            old(ctx).state().holds(b) && b.base != out.base ==> (
            #[trigger] final(ctx).state().holds(b)) && final(ctx).state().value(b) == old(ctx).state().value(b),
        final(ctx).state().holds_whole(out),
        final(ctx).state().value(out) == zero_padded(
            old(ctx).state().value(*a),
            m * k * 2,
            target * k * 2,
        ),
{
    let ghost s0 = ctx.state();
    let ghost c0 = *ctx;
    proof {
        lemma_aligned(m, k);
    }
    let len: usize = (target * k * 2) as usize;
    let bytes: usize = (m * k * 2) as usize;
    let padded = ctx.scratch_buf(len);
    let ghost c1 = *ctx;
    ctx.memset_async(&padded, 0);
    let ghost c2 = *ctx;
    let ghost zeros = filled(len as nat, 0);
    proof {
        lemma_write_whole(c1.state(), padded, zeros);
        assert(c2.state().content(padded.base) == zeros);
    }
    let dst = DeviceBuffer { base: padded.base, offset: 0, len: bytes };
    let src = DeviceBuffer { base: a.base, offset: a.offset, len: bytes };
    ctx.copy_async(&dst, &src, "aclrtMemcpyAsync(m-pad)");
    proof {
        let scratch = seq![Call::Scratch { len }];
        let fill = seq![Call::Fill { buffer: padded, value: 0 }];
        let copy = seq![Call::Copy { dst, src, op: "aclrtMemcpyAsync(m-pad)"@ }];
        lemma_recorded(c0, c1, c2, scratch, fill);
        lemma_recorded(c0, c2, *ctx, scratch + fill, copy);
        assert(scratch + fill + copy =~= pad_calls(*a, m, k));
        lemma_quiet(c0, *ctx, pad_calls(*a, m, k));
        assert(c2.state().value(src) =~= s0.value(*a).subrange(0, bytes as int));
        let goal = zero_padded(s0.value(*a), m * k * 2, target * k * 2);
        assert(ctx.state().content(padded.base) =~= goal);
        assert(ctx.state().value(padded) =~= goal);
        assert(ctx.state().dirty =~= s0.dirty.insert(padded.base));
    }
    padded
}

/// `a @ b` for a prepared right operand.
fn product(
    ctx: &mut AscendContext,
    a: &DeviceBuffer,
    m: i64,
    k: i64,
    b: AclTensor,
    n: i64,
    order: Order,
    plan_op: &'static str,
    run_op: &'static str,
) -> (out: DeviceBuffer)
    requires
        old(ctx).wf(),
        matmul_ready(old(ctx).state(), *a, m, k, b@.buffer, n),
        covered(b@),
    ensures
        final(ctx).recorded(
            old(ctx),
            matmul_calls(old(ctx).state().issued, *a, m, k, b@, n, order, plan_op@, run_op@),
        ),
        quiet(*old(ctx), *final(ctx)),
        out.len == m * n * 2,
        yields(
            old(ctx).state(),
            final(ctx).state(),
            out,
            matmul_value(
                old(ctx).state().value(*a),
                m,
                k,
                read_through(b@, old(ctx).state().value(b@.buffer)),
                n,
            ),
        ),
        final(ctx).state().kept == old(ctx).state().kept,
{
    let ghost s0 = ctx.state();
    let ghost c0 = *ctx;
    let ghost bv = b@;
    let ghost bb = read_through(bv, s0.value(bv.buffer));
    let ghost av = s0.value(*a);
    proof {
        ctx.lemma_safe();
        lemma_aligned(m, k);
        lemma_aligned(m, n);
    }
    let entry = Entry::Matmul { cube_math: CUBE_MATH_KEEP_DTYPE };
    let target: i64 = (m + MATMUL_M_ALIGN - 1) / MATMUL_M_ALIGN * MATMUL_M_ALIGN;
    let a_shape: Vec<i64> = vec![target, k];
    let shape: Vec<i64> = vec![target, n];
    assert(a_shape@ =~= seq![target, k]);
    assert(shape@ =~= seq![target, n]);
    if target == m {
        let inputs: Vec<AclTensor> = vec![AclTensor::fp16_nd(a, &a_shape), b];
        proof {
            let ins = seq![nd_view(*a, seq![m, k], ACL_FLOAT16), bv];
            assert(views(inputs@) =~= ins);
            assert(values(s0, ins) =~= seq![fp16(av, seq![m, k]), bb]);
            assert(zero_padded(av, m * k * 2, m * k * 2) =~= av);
            let all = result(entry, seq![fp16(av, seq![m, k]), bb], seq![m, n]);
            lemma_result_len(entry, seq![fp16(av, seq![m, k]), bb], seq![m, n]);
            assert(all.subrange(0, m * n * 2) =~= all);
        }
        single(ctx, entry, order, inputs, &shape, plan_op, run_op)
    } else {
        let padded = pad_rows(ctx, a, m, k, target);
        let ghost c1 = *ctx;
        let ghost s1 = ctx.state();
        let ghost pv = zero_padded(av, m * k * 2, target * k * 2);
        let inputs: Vec<AclTensor> = vec![AclTensor::fp16_nd(&padded, &a_shape), b];
        proof {
            ctx.lemma_safe();
            let ins = seq![nd_view(padded, seq![target, k], ACL_FLOAT16), bv];
            assert(views(inputs@) =~= ins);
            assert(s1.holds(bv.buffer));
            assert(s1.value(bv.buffer) == s0.value(bv.buffer));
            assert(values(s1, ins) =~= seq![fp16(pv, seq![target, k]), bb]);
        }
        let full = single(ctx, entry, order, inputs, &shape, plan_op, run_op);
        let ghost c2 = *ctx;
        let ghost s2 = ctx.state();
        let ghost fv = result(entry, seq![fp16(pv, seq![target, k]), bb], seq![target, n]);
        proof {
            ctx.lemma_safe();
            lemma_result_len(entry, seq![fp16(pv, seq![target, k]), bb], seq![target, n]);
            lemma_gains(s1, s2, full, fv);
        }
        let out = take_rows_fp16(ctx, &full, 0, m, n);
        let ghost c3 = *ctx;
        let ghost s3 = ctx.state();
        proof {
            let id = first_output(s1.issued, order, 2) as usize;
            lemma_releasable(s0, s3, id);
        }
        ctx.release(full);
        proof {
            let pad = pad_calls(*a, m, k);
            let id = first_output(s1.issued, order, 2);
            let run_calls = kernel_calls(
                s1.issued,
                entry,
                order,
                seq![nd_view(padded, seq![target, k], ACL_FLOAT16), bv],
                fp16_out(seq![target, n]),
                plan_op@,
                run_op@,
            );
            let take = take_rows_calls(s2.issued, full, 0, m, n);
            lemma_recorded(c0, c1, c2, pad, run_calls);
            lemma_recorded(c0, c2, c3, pad + run_calls, take);
            let gone = seq![Call::Release { base: Base::Fresh(id as usize) }];
            lemma_recorded(c0, c3, *ctx, pad + run_calls + take, gone);
            lemma_quiet(c3, *ctx, gone);
            lemma_quiet_then(c0, c1, c2);
            lemma_quiet_then(c0, c2, c3);
            lemma_quiet_then(c0, c3, *ctx);
            let goal = matmul_value(av, m, k, bb, n);
            assert(rows_value(fv, 0, m, n) =~= goal);
            match out.base {
                Base::Fresh(i) => {
                    assert(ctx.state().fresh =~= s0.fresh.insert(i, goal));
                },
                _ => {},
            }
        }
        out
    }
}

/// `a @ b` for row-major `a` of `[m, k]` and `b` of `[k, n]`.
pub fn matmul_fp16(
    ctx: &mut AscendContext,
    a: &DeviceBuffer,
    a_shape: [i64; 2],
    b: &DeviceBuffer,
    b_shape: [i64; 2],
) -> (out: DeviceBuffer)
    requires
        old(ctx).wf(),
        a_shape[1] == b_shape[0],
        matmul_ready(old(ctx).state(), *a, a_shape[0], a_shape[1], *b, b_shape[1]),
        is_fp16(old(ctx).state(), *b, b_shape@),
    ensures
        final(ctx).recorded(
            old(ctx),
            matmul_calls(
                old(ctx).state().issued,
                *a,
                a_shape[0],
                a_shape[1],
                nd_view(*b, b_shape@, ACL_FLOAT16),
                b_shape[1],
                Order::InputsFirst,
                "aclnnMatmulGetWorkspaceSize"@,
                "aclnnMatmul"@,
            ),
        ),
        quiet(*old(ctx), *final(ctx)),
        out.len == a_shape[0] * b_shape[1] * 2,
        yields(
            old(ctx).state(),
            final(ctx).state(),
            out,
            matmul_value(
                old(ctx).state().value(*a),
                a_shape[0],
                a_shape[1],
                fp16(old(ctx).state().value(*b), b_shape@),
                b_shape[1],
            ),
        ),
        final(ctx).state().kept == old(ctx).state().kept,
{
    let dims: Vec<i64> = vec![b_shape[0], b_shape[1]];
    assert(dims@ =~= b_shape@);
    let tb = AclTensor::fp16_nd(b, &dims);
    product(
        ctx,
        a,
        a_shape[0],
        a_shape[1],
        tb,
        b_shape[1],
        Order::InputsFirst,
        "aclnnMatmulGetWorkspaceSize",
        "aclnnMatmul",
    )
}

/// `a @ b` where `b_t` holds `b` transposed, `[n, k]` row by row.
pub fn matmul_b_t_fp16(
    ctx: &mut AscendContext,
    a: &DeviceBuffer,
    ash: [i64; 2],
    b_t: &DeviceBuffer,
    k: i64,
    n: i64,
) -> (out: DeviceBuffer)
    requires
        old(ctx).wf(),
        matmul_ready(old(ctx).state(), *a, ash[0], ash[1], *b_t, n),
        holds_transposed(old(ctx).state(), *b_t, k, n),
    ensures
        final(ctx).recorded(
            old(ctx),
            matmul_calls(
                old(ctx).state().issued,
                *a,
                ash[0],
                ash[1],
                transposed_view(*b_t, k, n, "aclCreateTensor(transposed b)"@),
                n,
                Order::OutputsFirst,
                "aclnnMatmul(t-b) plan"@,
                "aclnnMatmul(t-b) run"@,
            ),
        ),
        quiet(*old(ctx), *final(ctx)),
        out.len == ash[0] * n * 2,
        yields(
            old(ctx).state(),
            final(ctx).state(),
            out,
            matmul_value(
                old(ctx).state().value(*a),
                ash[0],
                ash[1],
                transposed(old(ctx).state().value(*b_t), k, n),
                n,
            ),
        ),
        final(ctx).state().kept == old(ctx).state().kept,
{
    let tb = AclTensor::transposed(b_t, k, n, "aclCreateTensor(transposed b)");
    product(
        ctx,
        a,
        ash[0],
        ash[1],
        tb,
        n,
        Order::OutputsFirst,
        "aclnnMatmul(t-b) plan",
        "aclnnMatmul(t-b) run",
    )
}

/// The general matrix product `1 * a * b^T + 0 * c`.
pub open spec fn gemm_entry() -> Entry {
    Entry::Gemm { alpha: ONE, beta: 0, trans_a: 0, trans_b: 1, cube_math: 2 }
}

/// What [`gemm_b_t_fp16`] computes. `c` is the result's memory before the kernel
/// runs; the kernel multiplies it by zero.
pub open spec fn gemm_value(
    a: Seq<SymByte>,
    ash: [i64; 2],
    b_t: Seq<SymByte>,
    k: i64,
    n: i64,
    c: Seq<SymByte>,
) -> Seq<SymByte> {
    result(
        gemm_entry(),
        seq![fp16(a, ash@), fp16(b_t, seq![n, k]), fp16(c, seq![ash[0], n])],
        seq![ash[0], n],
    )
}

pub open spec fn gemm_calls(
    issued: nat,
    a: DeviceBuffer,
    ash: [i64; 2],
    b_t: DeviceBuffer,
    k: i64,
    n: i64,
) -> Seq<Call> {
    let out = whole(issued, ash[0] * n * 2);
    let result_view = nd_view(out, seq![ash[0], n], ACL_FLOAT16);
    seq![
        Call::Malloc { base: out.base, len: out.len },
        Call::Describe {
            id: (issued + 1) as usize,
            tensor: nd_view(a, ash@, ACL_FLOAT16),
        },
        Call::Describe {
            id: (issued + 2) as usize,
            tensor: nd_view(b_t, seq![n, k], ACL_FLOAT16),
        },
        Call::Describe { id: (issued + 3) as usize, tensor: result_view },
        Call::Describe { id: (issued + 4) as usize, tensor: result_view },
        Call::Launch {
            entry: gemm_entry(),
            inputs: seq![(issued + 1) as usize, (issued + 2) as usize, (issued + 3) as usize],
            outputs: seq![(issued + 4) as usize],
            mode: LaunchMode::TwoStage,
            plan_op: "aclnnGemm(tB)"@,
            run_op: "aclnnGemm(tB)"@,
        },
        Call::Undescribe { id: (issued + 4) as usize },
        Call::Undescribe { id: (issued + 3) as usize },
        Call::Undescribe { id: (issued + 2) as usize },
        Call::Undescribe { id: (issued + 1) as usize },
    ]
}

/// `a @ b` through the general matrix product, where `b_t` holds `b` transposed,
/// `[n, k]` row by row. The result doubles as the addend, which is scaled by zero.
pub fn gemm_b_t_fp16(
    ctx: &mut AscendContext,
    a: &DeviceBuffer,
    ash: [i64; 2],
    b_t: &DeviceBuffer,
    k: i64,
    n: i64,
) -> (out: DeviceBuffer)
    requires
        old(ctx).wf(),
        is_fp16(old(ctx).state(), *a, ash@),
        is_fp16(old(ctx).state(), *b_t, seq![n, k]),
        fits(ash[0], n),
    ensures
        out == whole(old(ctx).state().issued, ash[0] * n * 2),
        final(ctx).recorded(
            old(ctx),
            gemm_calls(old(ctx).state().issued, *a, ash, *b_t, k, n),
        ),
        quiet(*old(ctx), *final(ctx)),
        gains(
            old(ctx).state(),
            final(ctx).state(),
            out,
            gemm_value(
                old(ctx).state().value(*a),
                ash,
                old(ctx).state().value(*b_t),
                k,
                n,
                undefined(out.base, out.len as nat),
            ),
        ),
{
    let ghost c0 = *ctx;
    let ghost s0 = ctx.state();
    let ghost av = s0.value(*a);
    let ghost bv = s0.value(*b_t);
    proof {
        ctx.lemma_safe();
        lemma_fits(ash[0], n);
    }
    let m: i64 = ash[0];
    let len: usize = (m * n * 2) as usize;
    let out = ctx.malloc(len);
    let ghost c1 = *ctx;
    let a_shape: Vec<i64> = vec![ash[0], ash[1]];
    let b_shape: Vec<i64> = vec![n, k];
    let shape: Vec<i64> = vec![m, n];
    assert(a_shape@ =~= ash@);
    assert(b_shape@ =~= seq![n, k]);
    assert(shape@ =~= seq![m, n]);
    let ghost uv = undefined(out.base, out.len as nat);
    proof {
        lemma_whole_value(c1.state(), out);
    }
    let ta = ctx.describe(AclTensor::fp16_nd(a, &a_shape));
    let ghost c2 = *ctx;
    let tb = ctx.describe(AclTensor::fp16_nd(b_t, &b_shape));
    let ghost c3 = *ctx;
    let tc = ctx.describe(AclTensor::fp16_nd(&out, &shape));
    let ghost c4 = *ctx;
    let tout = ctx.describe(AclTensor::fp16_nd(&out, &shape));
    let ghost c5 = *ctx;
    let ghost s5 = ctx.state();
    let entry = Entry::Gemm { alpha: ONE, beta: 0, trans_a: 0, trans_b: 1, cube_math: 2 };
    let inputs: Vec<usize> = vec![ta, tb, tc];
    let outputs: Vec<usize> = vec![tout];
    let ghost ins = seq![ta, tb, tc];
    let ghost outs = seq![tout];
    let ghost operands = seq![
        fp16(av, ash@),
        fp16(bv, seq![n, k]),
        fp16(uv, seq![m, n]),
    ];
    proof {
        assert(inputs@ =~= ins);
        assert(outputs@ =~= outs);
        assert(s5.operands(ins) =~= operands);
        reveal(result);
        reveal_with_fuel(DeviceState::with_outputs, 2);
        lemma_write_whole(s5, out, result(entry, operands, seq![m, n]));
    }
    ctx.launch(
        entry,
        inputs,
        outputs,
        LaunchMode::TwoStage,
        "aclnnGemm(tB)",
        "aclnnGemm(tB)",
    );
    let ghost c6 = *ctx;
    ctx.undescribe(tout);
    let ghost c7 = *ctx;
    ctx.undescribe(tc);
    let ghost c8 = *ctx;
    ctx.undescribe(tb);
    let ghost c9 = *ctx;
    ctx.undescribe(ta);
    proof {
        let all = gemm_calls(s0.issued, *a, ash, *b_t, k, n);
        lemma_recorded_nothing(c0);
        assert(all.take(0) =~= Seq::<Call>::empty());
        lemma_recorded_next(c0, c0, c1, all, 0);
        lemma_recorded_next(c0, c1, c2, all, 1);
        lemma_recorded_next(c0, c2, c3, all, 2);
        lemma_recorded_next(c0, c3, c4, all, 3);
        lemma_recorded_next(c0, c4, c5, all, 4);
        lemma_recorded_next(c0, c5, c6, all, 5);
        lemma_recorded_next(c0, c6, c7, all, 6);
        lemma_recorded_next(c0, c7, c8, all, 7);
        lemma_recorded_next(c0, c8, c9, all, 8);
        lemma_recorded_next(c0, c9, *ctx, all, 9);
        assert(all.take(10) =~= all);
        lemma_quiet(c0, *ctx, all);
        let goal = s0.fresh.insert(s0.issued as usize, result(entry, operands, seq![m, n]));
        assert(ctx.state().fresh =~= goal);
        assert(ctx.state().tensors =~= s0.tensors);
    }
    out
}

} // verus!
