//! Blocks that several kinds of layer share.

use vstd::prelude::*;

use crate::cache::{lemma_delivers_stable, stable};
use crate::capture::{lemma_quiet_then, quiet};
use crate::context::AscendContext;
use crate::device::{Base, DeviceBuffer};
use crate::executor::caches::{caches_kept, weight_warm, AscendCaches};
use crate::executor::frame::{drop_temp, lemma_settled};
use crate::executor::linear::{
    bias_add, biased_value, is_bias, is_left_operand, is_weight, linear_value, matmul,
    optional_value,
};
use crate::ops::elementwise::{add_fp16, add_value, gelu_fp16, gelu_value, mul_fp16, mul_value};
use crate::ops::matmul::{aligned_rows, lemma_aligned};
use crate::ops::is_fp16;
use crate::ops::rows::{
    cat_fp16, cat_value, columns_value, contents, shapes_of, take_columns_fp16,
};
use crate::semantics::{gains, is_lasting, lemma_gains, lemma_yields, yields, DeviceState, SymByte};
use crate::tensor::{fits, lemma_fits, lemma_fits_smaller};

verus! {

/// What [`gated`] computes: in every row, the first `inter` columns through the tanh
/// form of gelu, times the other `inter` columns.
pub open spec fn gated_value(gate_up: Seq<SymByte>, tokens: i64, inter: i64) -> Seq<SymByte> {
    let shape = seq![tokens, inter];
    mul_value(
        gelu_value(columns_value(gate_up, tokens, (inter * 2) as i64, 0, inter), shape, true),
        columns_value(gate_up, tokens, (inter * 2) as i64, inter, inter),
        shape,
    )
}

/// Split the columns of a fused gate and up projection in two, and multiply the
/// activation of the first half by the second.
fn gated(ctx: &mut AscendContext, gate_up: &DeviceBuffer, tokens: i64, inter: i64) -> (act:
    DeviceBuffer)
    requires
        old(ctx).wf(),
        old(ctx).state().holds(*gate_up),
        0 <= tokens,
        0 <= inter,
        inter * 2 <= i64::MAX,
        fits(tokens, inter),
        gate_up.len == tokens * (inter * 2) * 2,
        tokens * (inter * 2) * 2 <= i64::MAX,
    ensures
        final(ctx).continues(old(ctx)),
        quiet(*old(ctx), *final(ctx)),
        act.len == tokens * inter * 2,
        gains(
            old(ctx).state(),
            final(ctx).state(),
            act,
            gated_value(old(ctx).state().value(*gate_up), tokens, inter),
        ),
{
    let ghost c0 = *ctx;
    let ghost s0 = ctx.state();
    let ghost fv = s0.value(*gate_up);
    proof {
        ctx.lemma_safe();
        lemma_fits(tokens, inter);
    }
    let shape: Vec<i64> = vec![tokens, inter];
    assert(shape@ =~= seq![tokens, inter]);
    let gate = take_columns_fp16(ctx, gate_up, tokens, inter * 2, 0, inter);
    let ghost c1 = *ctx;
    proof {
        ctx.lemma_safe();
        lemma_gains(s0, c1.state(), gate, columns_value(fv, tokens, (inter * 2) as i64, 0, inter));
    }
    let up = take_columns_fp16(ctx, gate_up, tokens, inter * 2, inter, inter);
    let ghost c2 = *ctx;
    proof {
        ctx.lemma_safe();
        lemma_gains(c1.state(), c2.state(), up, columns_value(fv, tokens, (inter * 2) as i64, inter, inter));
    }
    let gate_g = gelu_fp16(ctx, &gate, &shape, true);
    let ghost c3 = *ctx;
    proof {
        ctx.lemma_safe();
        lemma_gains(
            c2.state(),
            c3.state(),
            gate_g,
            gelu_value(columns_value(fv, tokens, (inter * 2) as i64, 0, inter), seq![tokens, inter], true),
        );
    }
    let act = mul_fp16(ctx, &gate_g, &up, &shape);
    let ghost c4 = *ctx;
    drop_temp(ctx, gate_g, Ghost(s0));
    let ghost c5 = *ctx;
    drop_temp(ctx, up, Ghost(s0));
    let ghost c6 = *ctx;
    drop_temp(ctx, gate, Ghost(s0));
    proof {
        match act.base {
            Base::Fresh(id) => {
                assert(ctx.state().fresh =~= s0.fresh.insert(
                    id,
                    gated_value(fv, tokens, inter),
                ));
            },
            _ => {},
        }
        lemma_quiet_then(c0, c1, c2);
        lemma_quiet_then(c0, c2, c3);
        lemma_quiet_then(c0, c3, c4);
        lemma_quiet_then(c0, c4, c5);
        lemma_quiet_then(c0, c5, c6);
        lemma_quiet_then(c0, c6, *ctx);
    }
    act
}

/// What [`linear_bias`] computes.
pub open spec fn linear_bias_value(
    x: Seq<SymByte>,
    tokens: i64,
    in_w: i64,
    w: Seq<SymByte>,
    bias: Option<Seq<SymByte>>,
    out_w: i64,
) -> Seq<SymByte> {
    biased_value(linear_value(x, [tokens, in_w], w, [in_w, out_w]), bias, tokens, out_w)
}

/// The operands of a linear layer are there.
pub open spec fn linear_ready(
    st: DeviceState,
    x: DeviceBuffer,
    tokens: i64,
    in_w: i64,
    w: DeviceBuffer,
    bias: Option<DeviceBuffer>,
    out_w: i64,
) -> bool {
    &&& is_weight(st, w, [in_w, out_w])
    &&& is_left_operand(st, x, [tokens, in_w], out_w)
    &&& is_bias(st, bias, out_w)
}

/// `x @ w + bias`, without the sum where there is no bias.
pub fn linear_bias(
    ctx: &mut AscendContext,
    caches: &mut AscendCaches,
    x: &DeviceBuffer,
    tokens: i64,
    in_w: i64,
    w: &DeviceBuffer,
    bias: Option<DeviceBuffer>,
    out_w: i64,
) -> (out: DeviceBuffer)
    requires
        old(ctx).wf(),
        old(caches).wf(old(ctx).state()),
        linear_ready(old(ctx).state(), *x, tokens, in_w, *w, bias, out_w),
    ensures
        final(ctx).continues(old(ctx)),
        caches_kept(*old(caches), *final(caches), final(ctx).state()),
        final(caches).rope == old(caches).rope,
        out.len == tokens * out_w * 2,
        fits(tokens, out_w),
        yields(
            old(ctx).state(),
            final(ctx).state(),
            out,
            linear_bias_value(
                old(ctx).state().value(*x),
                tokens,
                in_w,
                old(ctx).state().value(*w),
                optional_value(old(ctx).state(), bias),
                out_w,
            ),
        ),
        weight_warm(*final(caches), *w, out_w),
        weight_warm(*old(caches), *w, out_w) ==> quiet(*old(ctx), *final(ctx))
            && *final(caches) == *old(caches),
{
    let ghost c0 = *ctx;
    let ghost s0 = ctx.state();
    let ghost warm = weight_warm(*caches, *w, out_w);
    proof {
        ctx.lemma_safe();
        lemma_aligned(tokens, out_w);
        lemma_fits_smaller(aligned_rows(tokens), out_w, tokens, out_w);
        lemma_fits(tokens, out_w);
    }
    let proj = matmul(ctx, caches, x, [tokens, in_w], w, [in_w, out_w]);
    let ghost c1 = *ctx;
    let ghost s1 = ctx.state();
    let ghost k1 = *caches;
    let ghost pv = linear_value(s0.value(*x), [tokens, in_w], s0.value(*w), [in_w, out_w]);
    proof {
        ctx.lemma_safe();
        lemma_yields(s0, s1, proj, pv);
    }
    let out = bias_add(ctx, &proj, bias, tokens, out_w);
    let ghost c2 = *ctx;
    drop_temp(ctx, proj, Ghost(s0));
    proof {
        let end = ctx.state();
        let value = linear_bias_value(
            s0.value(*x),
            tokens,
            in_w,
            s0.value(*w),
            optional_value(s0, bias),
            out_w,
        );
        match out.base {
            Base::Fresh(id) => {
                assert(end.fresh =~= s0.fresh.insert(id, value));
            },
            _ => {},
        }
        assert(stable(s1, end));
        k1.lemma_stable(s1, end);
        lemma_quiet_then(c1, c2, *ctx);
        if warm {
            lemma_quiet_then(c0, c1, *ctx);
        }
    }
    out
}

/// What [`geglu`] computes.
pub open spec fn geglu_value(
    x: Seq<SymByte>,
    tokens: i64,
    width: i64,
    gate_up: Seq<SymByte>,
    inter: i64,
    down: Seq<SymByte>,
    down_bias: Option<Seq<SymByte>>,
) -> Seq<SymByte> {
    let fused = linear_value(x, [tokens, width], gate_up, [width, (inter * 2) as i64]);
    linear_bias_value(gated_value(fused, tokens, inter), tokens, inter, down, down_bias, width)
}

/// The operands of a gated feed-forward block are there.
pub open spec fn geglu_ready(
    st: DeviceState,
    x: DeviceBuffer,
    tokens: i64,
    width: i64,
    gate_up: DeviceBuffer,
    inter: i64,
    down: DeviceBuffer,
    down_bias: Option<DeviceBuffer>,
) -> bool {
    &&& 0 < inter
    &&& inter * 2 <= i64::MAX
    &&& is_weight(st, gate_up, [width, (inter * 2) as i64])
    &&& is_left_operand(st, x, [tokens, width], (inter * 2) as i64)
    &&& is_weight(st, down, [inter, width])
    &&& fits(aligned_rows(tokens), width)
    &&& is_bias(st, down_bias, width)
}

/// Everything that a gated feed-forward block looks up is there already.
pub open spec fn geglu_warm(
    caches: AscendCaches,
    width: i64,
    gate_up: DeviceBuffer,
    inter: i64,
    down: DeviceBuffer,
) -> bool {
    weight_warm(caches, gate_up, (inter * 2) as i64) && weight_warm(caches, down, width)
}

/// A gated feed-forward block.
pub fn geglu(
    ctx: &mut AscendContext,
    caches: &mut AscendCaches,
    x: &DeviceBuffer,
    tokens: i64,
    width: i64,
    gate_up: &DeviceBuffer,
    inter: i64,
    down: &DeviceBuffer,
    down_bias: Option<DeviceBuffer>,
) -> (out: DeviceBuffer)
    requires
        old(ctx).wf(),
        old(caches).wf(old(ctx).state()),
        geglu_ready(
            old(ctx).state(),
            *x,
            tokens,
            width,
            *gate_up,
            inter,
            *down,
            down_bias,
        ),
    ensures
        final(ctx).continues(old(ctx)),
        caches_kept(*old(caches), *final(caches), final(ctx).state()),
        final(caches).rope == old(caches).rope,
        out.len == tokens * width * 2,
        yields(
            old(ctx).state(),
            final(ctx).state(),
            out,
            geglu_value(
                old(ctx).state().value(*x),
                tokens,
                width,
                old(ctx).state().value(*gate_up),
                inter,
                old(ctx).state().value(*down),
                optional_value(old(ctx).state(), down_bias),
            ),
        ),
        geglu_warm(*final(caches), width, *gate_up, inter, *down),
        geglu_warm(*old(caches), width, *gate_up, inter, *down) ==> quiet(
            *old(ctx),
            *final(ctx),
        ) && *final(caches) == *old(caches),
{
    let ghost c0 = *ctx;
    let ghost s0 = ctx.state();
    let ghost warm = geglu_warm(*caches, width, *gate_up, inter, *down);
    let ghost dv = s0.value(*down);
    let ghost bv = optional_value(s0, down_bias);
    proof {
        ctx.lemma_safe();
        lemma_aligned(tokens, (inter * 2) as i64);
        lemma_fits_smaller(aligned_rows(tokens), (inter * 2) as i64, tokens, inter);
        lemma_fits_smaller(aligned_rows(tokens), (inter * 2) as i64, aligned_rows(tokens), inter);
        lemma_fits(tokens, inter);
    }
    let fused = matmul(ctx, caches, x, [tokens, width], gate_up, [width, inter * 2]);
    let ghost c1 = *ctx;
    let ghost s1 = ctx.state();
    let ghost k1 = *caches;
    let ghost fv = linear_value(
        s0.value(*x),
        [tokens, width],
        s0.value(*gate_up),
        [width, (inter * 2) as i64],
    );
    proof {
        ctx.lemma_safe();
        lemma_yields(s0, s1, fused, fv);
        lemma_settled(s0, s1);
        assert(tokens * (inter * 2) * 2 <= aligned_rows(tokens) * (inter * 2) * 2)
            by (nonlinear_arith)
            requires
                0 <= tokens <= aligned_rows(tokens),
                0 < inter,
        ;
    }
    let act = gated(ctx, &fused, tokens, inter);
    let ghost c2 = *ctx;
    let ghost s2 = ctx.state();
    let ghost av = gated_value(fv, tokens, inter);
    proof {
        ctx.lemma_safe();
        lemma_gains(s1, s2, act, av);
        lemma_settled(s1, s2);
        lemma_delivers_stable(s1, s2, act, av);
        k1.lemma_stable(s1, s2);
        assert(s2.value(*down) == dv);
        assert(optional_value(s2, down_bias) == bv);
    }
    let out = linear_bias(ctx, caches, &act, tokens, inter, down, down_bias, width);
    let ghost c3 = *ctx;
    let ghost s3 = ctx.state();
    let ghost k3 = *caches;
    drop_temp(ctx, act, Ghost(s0));
    let ghost c4 = *ctx;
    drop_temp(ctx, fused, Ghost(s0));
    proof {
        let end = ctx.state();
        match out.base {
            Base::Fresh(id) => {
                assert(end.fresh =~= s0.fresh.insert(
                    id,
                    linear_bias_value(av, tokens, inter, dv, bv, width),
                ));
            },
            _ => {},
        }
        assert(stable(s3, end));
        k3.lemma_stable(s3, end);
        lemma_quiet_then(c3, c4, *ctx);
        if warm {
            lemma_quiet_then(c0, c1, c2);
            lemma_quiet_then(c0, c2, c3);
            lemma_quiet_then(c0, c3, *ctx);
        }
    }
    out
}

/// What [`output_residual`] computes.
pub open spec fn residual_value(
    x: Seq<SymByte>,
    tokens: i64,
    in_w: i64,
    w: Seq<SymByte>,
    bias: Option<Seq<SymByte>>,
    width: i64,
    residual: Seq<SymByte>,
) -> Seq<SymByte> {
    add_value(
        linear_bias_value(x, tokens, in_w, w, bias, width),
        residual,
        seq![tokens, width],
    )
}

/// A linear layer plus what by-passes it.
pub fn output_residual(
    ctx: &mut AscendContext,
    caches: &mut AscendCaches,
    x: &DeviceBuffer,
    tokens: i64,
    in_w: i64,
    w: &DeviceBuffer,
    bias: Option<DeviceBuffer>,
    width: i64,
    residual: &DeviceBuffer,
) -> (out: DeviceBuffer)
    requires
        old(ctx).wf(),
        old(caches).wf(old(ctx).state()),
        linear_ready(old(ctx).state(), *x, tokens, in_w, *w, bias, width),
        old(ctx).state().holds(*residual),
        is_lasting(*residual),
        residual.len == tokens * width * 2,
    ensures
        final(ctx).continues(old(ctx)),
        caches_kept(*old(caches), *final(caches), final(ctx).state()),
        final(caches).rope == old(caches).rope,
        out.len == tokens * width * 2,
        fits(tokens, width),
        yields(
            old(ctx).state(),
            final(ctx).state(),
            out,
            residual_value(
                old(ctx).state().value(*x),
                tokens,
                in_w,
                old(ctx).state().value(*w),
                optional_value(old(ctx).state(), bias),
                width,
                old(ctx).state().value(*residual),
            ),
        ),
        weight_warm(*final(caches), *w, width),
        weight_warm(*old(caches), *w, width) ==> quiet(*old(ctx), *final(ctx))
            && *final(caches) == *old(caches),
{
    let ghost c0 = *ctx;
    let ghost s0 = ctx.state();
    let ghost warm = weight_warm(*caches, *w, width);
    proof {
        ctx.lemma_safe();
    }
    let proj = linear_bias(ctx, caches, x, tokens, in_w, w, bias, width);
    let ghost c1 = *ctx;
    let ghost s1 = ctx.state();
    let ghost k1 = *caches;
    let ghost pv = linear_bias_value(
        s0.value(*x),
        tokens,
        in_w,
        s0.value(*w),
        optional_value(s0, bias),
        width,
    );
    proof {
        ctx.lemma_safe();
        lemma_yields(s0, s1, proj, pv);
        lemma_fits(tokens, width);
    }
    let shape: Vec<i64> = vec![tokens, width];
    assert(shape@ =~= seq![tokens, width]);
    let out = add_fp16(ctx, &proj, residual, &shape);
    let ghost c2 = *ctx;
    drop_temp(ctx, proj, Ghost(s0));
    proof {
        let end = ctx.state();
        match out.base {
            Base::Fresh(id) => {
                assert(end.fresh =~= s0.fresh.insert(
                    id,
                    add_value(pv, s0.value(*residual), seq![tokens, width]),
                ));
            },
            _ => {},
        }
        assert(stable(s1, end));
        k1.lemma_stable(s1, end);
        lemma_quiet_then(c1, c2, *ctx);
        if warm {
            lemma_quiet_then(c0, c1, *ctx);
        }
    }
    out
}

/// What [`cat2`] computes.
pub open spec fn cat2_value(
    a: Seq<SymByte>,
    a_rows: i64,
    b: Seq<SymByte>,
    b_rows: i64,
    cols: i64,
) -> Seq<SymByte> {
    cat_value(
        seq![a, b],
        seq![seq![a_rows, cols], seq![b_rows, cols]],
        0,
        seq![(a_rows + b_rows) as i64, cols],
    )
}

/// The rows of `a` and then those of `b`.
pub fn cat2(
    ctx: &mut AscendContext,
    a: &DeviceBuffer,
    a_rows: i64,
    b: &DeviceBuffer,
    b_rows: i64,
    cols: i64,
) -> (out: DeviceBuffer)
    requires
        old(ctx).wf(),
        is_fp16(old(ctx).state(), *a, seq![a_rows, cols]),
        is_fp16(old(ctx).state(), *b, seq![b_rows, cols]),
        a_rows + b_rows <= i64::MAX,
        fits((a_rows + b_rows) as i64, cols),
    ensures
        final(ctx).continues(old(ctx)),
        quiet(*old(ctx), *final(ctx)),
        out.len == (a_rows + b_rows) * cols * 2,
        gains(
            old(ctx).state(),
            final(ctx).state(),
            out,
            cat2_value(
                old(ctx).state().value(*a),
                a_rows,
                old(ctx).state().value(*b),
                b_rows,
                cols,
            ),
        ),
{
    let parts: Vec<DeviceBuffer> = vec![*a, *b];
    let a_shape: Vec<i64> = vec![a_rows, cols];
    let b_shape: Vec<i64> = vec![b_rows, cols];
    assert(a_shape@ =~= seq![a_rows, cols]);
    assert(b_shape@ =~= seq![b_rows, cols]);
    let shapes: Vec<Vec<i64>> = vec![a_shape, b_shape];
    let out_shape: Vec<i64> = vec![a_rows + b_rows, cols];
    proof {
        assert(out_shape@ =~= seq![(a_rows + b_rows) as i64, cols]);
        assert(shapes_of(shapes@) =~= seq![seq![a_rows, cols], seq![b_rows, cols]]);
        assert(contents(ctx.state(), parts@) =~= seq![
            ctx.state().value(*a),
            ctx.state().value(*b),
        ]);
        lemma_fits((a_rows + b_rows) as i64, cols);
        assert forall|i: int| 0 <= i < parts@.len() implies is_fp16(
            ctx.state(),
            #[trigger] parts@[i],
            shapes@[i]@,
        ) by {
            if i == 0 {
                assert(shapes@[0]@ == seq![a_rows, cols]);
            } else {
                assert(shapes@[1]@ == seq![b_rows, cols]);
            }
        }
    }
    cat_fp16(ctx, &parts, &shapes, 0, &out_shape)
}

} // verus!
