//! Kernel compositions: each operation records its steps and returns a new
//! buffer whose content is stated as a function of its operands' content.

use vstd::prelude::*;

use crate::capture::{lemma_kernel_quiet, lemma_quiet, quiet};
use crate::context::AscendContext;
use crate::device::{AclTensor, DeviceBuffer, Entry, TensorView, ACL_FLOAT16};
use crate::kernel::{
    first_output, kernel, kernel_calls, output_views, values, views, whole, Order, Output,
    OutputView,
};
use crate::semantics::{computed, covered, elements, gains, nd, DeviceState, SymByte, TensorValue};
use crate::tensor::{copy_dims, lemma_elements, shape_fits};

pub mod attention;
pub mod elementwise;
pub mod laws;
pub mod matmul;
pub mod norm;
pub mod rotary;
pub mod rows;
pub mod words;

pub use attention::{
    prompt_flash_attention_bsh_batch_fp16, prompt_flash_attention_bsh_fp16,
    prompt_flash_attention_cross_bsh_fp16, prompt_flash_attention_fp16,
};
pub use elementwise::{
    add_fp16, bias_add_fp16, euler_update_fp16, gelu_fp16, mul_fp16, muls_fp16, silu_fp16,
};
pub use matmul::{
    gemm_b_t_fp16, matmul_b_t_fp16, matmul_fp16, matmul_weight_nz_fp16, mm_b_t_fp16, mm_fp16,
    nz_tensor,
};
pub use norm::{add_rms_norm_fp16, layer_norm_fp16};
pub use rotary::rope_rotate_half_fp16;
pub use rows::{
    cat_fp16, gather_rows_fp16, row_replicate_fp16, take_columns_fp16, take_rows_fp16,
};

verus! {

/// `buf` is live and holds exactly a half-precision tensor of this shape.
pub open spec fn is_fp16(st: DeviceState, buf: DeviceBuffer, shape: Seq<i64>) -> bool {
    &&& st.holds(buf)
    &&& shape_fits(shape)
    &&& buf.len == elements(shape) * 2
}

/// `buf` is live and holds exactly `n` 32-bit integers.
pub open spec fn is_i32_row(st: DeviceState, buf: DeviceBuffer, n: i64) -> bool {
    &&& st.holds(buf)
    &&& shape_fits(seq![n])
    &&& buf.len == n * 4
}

/// A half-precision output of this shape.
pub open spec fn fp16_out(shape: Seq<i64>) -> Seq<OutputView> {
    seq![OutputView { dims: shape, dtype: ACL_FLOAT16 }]
}

/// The first output of a kernel with a half-precision result of this shape.
#[verifier::opaque]
pub open spec fn result(entry: Entry, inputs: Seq<TensorValue>, shape: Seq<i64>) -> Seq<SymByte> {
    computed(entry, inputs, 0, (elements(shape) * 2) as nat)
}

/// A result is as long as its shape asks for.
pub proof fn lemma_result_len(entry: Entry, inputs: Seq<TensorValue>, shape: Seq<i64>)
    requires
        shape_fits(shape),
    ensures
        result(entry, inputs, shape).len() == elements(shape) * 2,
{
    reveal(result);
    lemma_elements(shape);
}

/// A contiguous half-precision operand.
pub open spec fn fp16(bytes: Seq<SymByte>, shape: Seq<i64>) -> TensorValue {
    nd(bytes, shape, ACL_FLOAT16)
}

/// From `before` to `after` exactly one kernel with one half-precision output,
/// `out`, was recorded.
pub open spec fn ran(
    before: AscendContext,
    after: AscendContext,
    out: DeviceBuffer,
    entry: Entry,
    order: Order,
    inputs: Seq<TensorView>,
    shape: Seq<i64>,
    plan_op: Seq<char>,
    run_op: Seq<char>,
) -> bool {
    let issued = before.state().issued;
    &&& out == whole(first_output(issued, order, inputs.len()), elements(shape) * 2)
    &&& after.state().issued == issued + inputs.len() + 2
    &&& after.recorded(
        &before,
        kernel_calls(issued, entry, order, inputs, fp16_out(shape), plan_op, run_op),
    )
    &&& quiet(before, after)
}

/// Run a kernel with one half-precision output.
pub(crate) fn single(
    ctx: &mut AscendContext,
    entry: Entry,
    order: Order,
    inputs: Vec<AclTensor>,
    shape: &[i64],
    plan_op: &'static str,
    run_op: &'static str,
) -> (out: DeviceBuffer)
    requires
        old(ctx).wf(),
        forall|i: int|
            0 <= i < inputs@.len() ==> old(ctx).state().holds((#[trigger] inputs@[i])@.buffer)
                && covered(inputs@[i]@),
        shape_fits(shape@),
    ensures
        ran(
            *old(ctx),
            *final(ctx),
            out,
            entry,
            order,
            views(inputs@),
            shape@,
            plan_op@,
            run_op@,
        ),
        gains(
            old(ctx).state(),
            final(ctx).state(),
            out,
            result(entry, values(old(ctx).state(), views(inputs@)), shape@),
        ),
{
    let ghost c0 = *ctx;
    let ghost st = ctx.state();
    let ghost ins = views(inputs@);
    let outputs: Vec<Output> = vec![Output { dims: copy_dims(shape), dtype: ACL_FLOAT16 }];
    proof {
        ctx.lemma_safe();
        assert(output_views(outputs@) =~= fp16_out(shape@));
    }
    let bufs = kernel(ctx, entry, order, inputs, outputs, plan_op, run_op);
    let out = bufs[0];
    proof {
        reveal(result);
        lemma_elements(shape@);
        let first = first_output(st.issued, order, ins.len());
        let outs = fp16_out(shape@);
        lemma_kernel_quiet(st.issued, entry, order, ins, outs, plan_op@, run_op@);
        lemma_quiet(
            c0,
            *ctx,
            kernel_calls(st.issued, entry, order, ins, outs, plan_op@, run_op@),
        );
        assert(out == whole(first, elements(shape@) * 2));
        assert(ctx.state().fresh =~= st.fresh.insert(
            first as usize,
            result(entry, values(st, ins), shape@),
        ));
    }
    out
}

} // verus!
