//! The styles of a flow step: rows that scale and shift the norms of the action
//! expert, computed from the step's time embedding.

use vstd::prelude::*;

use crate::cache::stable;
use crate::context::AscendContext;
use crate::device::{Base, DeviceBuffer};
use crate::error::{first_error, first_of, lemma_first_of, Error, ErrorView};
use crate::executor::blocks::{linear_bias, linear_bias_value};
use crate::executor::caches::{caches_kept, AscendCaches};
use crate::executor::frame::{
    drop_temp, is_item, lemma_dropped_stable, lemma_owns, lemma_owns_drop, lemma_owns_nothing,
    lemma_owns_one, lemma_owns_then, lemma_settled, owns, Item,
};
use crate::executor::linear::{is_bias, is_weight, optional_value};
use crate::model::{
    linear_buffers, linear_error, optional_buffer, Bf16DeviceActionLayer, Bf16LinearWeights,
    StaticBf16Pi05Weights,
};
use crate::ops::elementwise::{silu_fp16, silu_value};
use crate::ops::matmul::aligned_rows;
use crate::semantics::{is_lasting, keeps, lemma_yields, yields, DeviceState, SymByte};
use crate::tensor::{fits, lemma_fits};

verus! {

/// A linear layer: `[in, out_width]` weight and optional bias.
#[derive(Debug, Clone, Copy)]
pub struct LinearBuffers {
    pub weight: DeviceBuffer,
    pub bias: Option<DeviceBuffer>,
    pub out_width: i64,
}

impl LinearBuffers {
    /// The buffers are there and have the sizes that `[rows, in_w]` operands need.
    pub open spec fn ready(self, st: DeviceState, rows: i64, in_w: i64) -> bool {
        &&& 0 <= rows <= i64::MAX - 16
        &&& fits(aligned_rows(rows), in_w)
        &&& fits(aligned_rows(rows), self.out_width)
        &&& is_weight(st, self.weight, [in_w, self.out_width])
        &&& is_bias(st, self.bias, self.out_width)
    }

    pub open spec fn value(
        self,
        st: DeviceState,
        x: Seq<SymByte>,
        rows: i64,
        in_w: i64,
    ) -> Seq<SymByte> {
        linear_bias_value(
            x,
            rows,
            in_w,
            st.value(self.weight),
            optional_value(st, self.bias),
            self.out_width,
        )
    }
}

/// A linear layer reads the same in a later state.
pub proof fn lemma_linear_same(
    w: LinearBuffers,
    before: DeviceState,
    after: DeviceState,
    rows: i64,
    in_w: i64,
)
    requires
        before.sane(),
        keeps(before, after),
        w.ready(before, rows, in_w),
        forall|b: DeviceBuffer| before.holds(b) && is_lasting(b) ==> #[trigger] after.holds(b),
        forall|b: DeviceBuffer|
            before.holds(b) && is_lasting(b) ==> #[trigger] after.value(b) == before.value(b),
    ensures
        w.ready(after, rows, in_w),
        forall|x: Seq<SymByte>| #[trigger]
            w.value(after, x, rows, in_w) == w.value(before, x, rows, in_w),
{
    lemma_settled(before, after);
    assert(optional_value(after, w.bias) == optional_value(before, w.bias));
    assert(after.value(w.weight) == before.value(w.weight));
}

/// `x` holds at least the `[rows, in_w]` operand, and exactly that where it is not
/// copied to be padded.
pub open spec fn holds_operand(st: DeviceState, x: DeviceBuffer, rows: i64, in_w: i64) -> bool {
    &&& st.holds(x)
    &&& is_lasting(x)
    &&& rows * in_w * 2 <= x.len
    &&& rows % 16 == 0 ==> x.len == rows * in_w * 2
}

/// Apply a linear layer.
pub fn linear(
    ctx: &mut AscendContext,
    caches: &mut AscendCaches,
    x: &DeviceBuffer,
    rows: i64,
    in_w: i64,
    w: LinearBuffers,
) -> (out: DeviceBuffer)
    requires
        old(ctx).wf(),
        old(caches).wf(old(ctx).state()),
        w.ready(old(ctx).state(), rows, in_w),
        holds_operand(old(ctx).state(), *x, rows, in_w),
    ensures
        final(ctx).continues(old(ctx)),
        caches_kept(*old(caches), *final(caches), final(ctx).state()),
        final(caches).rope == old(caches).rope,
        out.len == rows * w.out_width * 2,
        fits(rows, w.out_width),
        yields(
            old(ctx).state(),
            final(ctx).state(),
            out,
            w.value(old(ctx).state(), old(ctx).state().value(*x), rows, in_w),
        ),
{
    linear_bias(ctx, caches, x, rows, in_w, &w.weight, w.bias, w.out_width)
}

/// A linear layer and silu.
pub open spec fn activated_value(
    st: DeviceState,
    x: Seq<SymByte>,
    rows: i64,
    in_w: i64,
    w: LinearBuffers,
) -> Seq<SymByte> {
    silu_value(w.value(st, x, rows, in_w), seq![rows, w.out_width])
}

/// A linear layer and silu.
fn activated(
    ctx: &mut AscendContext,
    caches: &mut AscendCaches,
    x: &DeviceBuffer,
    rows: i64,
    in_w: i64,
    w: LinearBuffers,
) -> (out: DeviceBuffer)
    requires
        old(ctx).wf(),
        old(caches).wf(old(ctx).state()),
        w.ready(old(ctx).state(), rows, in_w),
        holds_operand(old(ctx).state(), *x, rows, in_w),
    ensures
        final(ctx).continues(old(ctx)),
        caches_kept(*old(caches), *final(caches), final(ctx).state()),
        final(caches).rope == old(caches).rope,
        out.len == rows * w.out_width * 2,
        yields(
            old(ctx).state(),
            final(ctx).state(),
            out,
            activated_value(old(ctx).state(), old(ctx).state().value(*x), rows, in_w, w),
        ),
{
    let ghost s0 = ctx.state();
    proof {
        ctx.lemma_safe();
    }
    let biased = linear(ctx, caches, x, rows, in_w, w);
    let ghost s1 = ctx.state();
    let ghost k1 = *caches;
    let ghost bv = w.value(s0, s0.value(*x), rows, in_w);
    proof {
        ctx.lemma_safe();
        lemma_yields(s0, s1, biased, bv);
        lemma_fits(rows, w.out_width);
    }
    let shape: Vec<i64> = vec![rows, w.out_width];
    assert(shape@ =~= seq![rows, w.out_width]);
    let out = silu_fp16(ctx, &biased, &shape);
    drop_temp(ctx, biased, Ghost(s0));
    proof {
        let end = ctx.state();
        match out.base {
            Base::Fresh(id) => {
                assert(end.fresh =~= s0.fresh.insert(
                    id,
                    silu_value(bv, seq![rows, w.out_width]),
                ));
            },
            _ => {},
        }
        assert(stable(s1, end));
        k1.lemma_stable(s1, end);
    }
    out
}

/// The style layers of one layer of the action expert.
#[derive(Debug, Clone, Copy)]
pub struct LayerStyles {
    pub attention: LinearBuffers,
    pub mlp: LinearBuffers,
}

/// The layers that styles are computed with.
#[derive(Debug)]
pub struct StylePlan {
    pub time_in: LinearBuffers,
    pub time_out: LinearBuffers,
    pub layers: Vec<LayerStyles>,
    pub last: LinearBuffers,
}

/// What a [`StylePlan`] says.
pub struct StyleWeights {
    pub time_in: LinearBuffers,
    pub time_out: LinearBuffers,
    pub layers: Seq<LayerStyles>,
    pub last: LinearBuffers,
}

impl View for StylePlan {
    type V = StyleWeights;

    open spec fn view(&self) -> StyleWeights {
        StyleWeights {
            time_in: self.time_in,
            time_out: self.time_out,
            layers: self.layers@,
            last: self.last,
        }
    }
}

impl StyleWeights {
    /// Everything is there and fits together for `[rows, width]` time embeddings.
    pub open spec fn ready(self, st: DeviceState, rows: i64, width: i64) -> bool {
        let cond = self.time_out.out_width;
        &&& self.time_in.ready(st, rows, width)
        &&& width <= self.time_in.out_width
        &&& rows % 16 == 0 ==> width == self.time_in.out_width
        &&& self.time_out.ready(st, rows, width)
        &&& forall|i: int|
            0 <= i < self.layers.len() ==> (#[trigger] self.layers[i]).attention.ready(
                st,
                rows,
                cond,
            ) && self.layers[i].mlp.ready(st, rows, cond)
        &&& self.last.ready(st, rows, cond)
    }

    /// What all styles of a step are computed from.
    pub open spec fn conditioning(
        self,
        st: DeviceState,
        time: Seq<SymByte>,
        rows: i64,
        width: i64,
    ) -> Seq<SymByte> {
        activated_value(
            st,
            activated_value(st, time, rows, width, self.time_in),
            rows,
            width,
            self.time_out,
        )
    }

    /// The style of the attention norm of layer `i`.
    pub open spec fn attention(
        self,
        st: DeviceState,
        time: Seq<SymByte>,
        rows: i64,
        width: i64,
        i: int,
    ) -> Seq<SymByte> {
        self.layers[i].attention.value(
            st,
            self.conditioning(st, time, rows, width),
            rows,
            self.time_out.out_width,
        )
    }

    /// The style of the feed-forward norm of layer `i`.
    pub open spec fn mlp(
        self,
        st: DeviceState,
        time: Seq<SymByte>,
        rows: i64,
        width: i64,
        i: int,
    ) -> Seq<SymByte> {
        self.layers[i].mlp.value(
            st,
            self.conditioning(st, time, rows, width),
            rows,
            self.time_out.out_width,
        )
    }

    /// The style of the last norm.
    pub open spec fn final_norm(
        self,
        st: DeviceState,
        time: Seq<SymByte>,
        rows: i64,
        width: i64,
    ) -> Seq<SymByte> {
        self.last.value(
            st,
            self.conditioning(st, time, rows, width),
            rows,
            self.time_out.out_width,
        )
    }
}

/// The styles of one step.
#[derive(Debug)]
pub struct StyleBuffers {
    pub attention: Vec<DeviceBuffer>,
    pub mlp: Vec<DeviceBuffer>,
    pub last: DeviceBuffer,
}

/// What [`StyleBuffers`] say.
pub struct Styles {
    pub attention: Seq<DeviceBuffer>,
    pub mlp: Seq<DeviceBuffer>,
    pub last: DeviceBuffer,
}

impl View for StyleBuffers {
    type V = Styles;

    open spec fn view(&self) -> Styles {
        Styles { attention: self.attention@, mlp: self.mlp@, last: self.last }
    }
}

/// The styles of the steps.
pub open spec fn styles_of(styles: Seq<StyleBuffers>) -> Seq<Styles> {
    Seq::new(styles.len(), |i: int| styles[i]@)
}

/// The styles of the first `n` layers in device memory.
pub open spec fn layer_style_items(
    plan: StyleWeights,
    attention: Seq<DeviceBuffer>,
    mlp: Seq<DeviceBuffer>,
    st: DeviceState,
    time: Seq<SymByte>,
    rows: i64,
    width: i64,
    n: nat,
) -> Seq<Item> {
    Seq::new(
        2 * n,
        |j: int|
            if j % 2 == 0 {
                (attention[j / 2], plan.attention(st, time, rows, width, j / 2))
            } else {
                (mlp[j / 2], plan.mlp(st, time, rows, width, j / 2))
            },
    )
}

/// The styles of a step in device memory.
pub open spec fn style_items(
    plan: StyleWeights,
    styles: Styles,
    st: DeviceState,
    time: Seq<SymByte>,
    rows: i64,
    width: i64,
) -> Seq<Item> {
    layer_style_items(
        plan,
        styles.attention,
        styles.mlp,
        st,
        time,
        rows,
        width,
        plan.layers.len(),
    ) + seq![(styles.last, plan.final_norm(st, time, rows, width))]
}

proof fn lemma_next_styles(
    plan: StyleWeights,
    attention: Seq<DeviceBuffer>,
    mlp: Seq<DeviceBuffer>,
    a: DeviceBuffer,
    m: DeviceBuffer,
    st: DeviceState,
    time: Seq<SymByte>,
    rows: i64,
    width: i64,
    n: nat,
)
    requires
        attention.len() == n,
        mlp.len() == n,
    ensures
        layer_style_items(plan, attention, mlp, st, time, rows, width, n) + seq![
            (a, plan.attention(st, time, rows, width, n as int)),
        ] + seq![(m, plan.mlp(st, time, rows, width, n as int))] == layer_style_items(
            plan,
            attention.push(a),
            mlp.push(m),
            st,
            time,
            rows,
            width,
            n + 1,
        ),
{
    let x = layer_style_items(plan, attention, mlp, st, time, rows, width, n) + seq![
        (a, plan.attention(st, time, rows, width, n as int)),
    ] + seq![(m, plan.mlp(st, time, rows, width, n as int))];
    let y = layer_style_items(
        plan,
        attention.push(a),
        mlp.push(m),
        st,
        time,
        rows,
        width,
        n + 1,
    );
    assert(x.len() == y.len());
    assert forall|j: int| 0 <= j < x.len() implies x[j] == y[j] by {
        if j < 2 * n {
            assert(j / 2 < n);
        } else {
            assert(j / 2 == n);
        }
    }
    assert(x =~= y);
}

/// What all styles of a step are computed from.
fn run_conditioning(
    ctx: &mut AscendContext,
    caches: &mut AscendCaches,
    time: &DeviceBuffer,
    rows: i64,
    width: i64,
    plan: &StylePlan,
) -> (out: DeviceBuffer)
    requires
        old(ctx).wf(),
        old(caches).wf(old(ctx).state()),
        plan@.ready(old(ctx).state(), rows, width),
        holds_operand(old(ctx).state(), *time, rows, width),
    ensures
        final(ctx).continues(old(ctx)),
        caches_kept(*old(caches), *final(caches), final(ctx).state()),
        final(caches).rope == old(caches).rope,
        out.len == rows * plan.time_out.out_width * 2,
        yields(
            old(ctx).state(),
            final(ctx).state(),
            out,
            plan@.conditioning(old(ctx).state(), old(ctx).state().value(*time), rows, width),
        ),
{
    let ghost s0 = ctx.state();
    proof {
        ctx.lemma_safe();
    }
    let hidden = activated(ctx, caches, time, rows, width, plan.time_in);
    let ghost s1 = ctx.state();
    let ghost hv = activated_value(s0, s0.value(*time), rows, width, plan.time_in);
    proof {
        ctx.lemma_safe();
        lemma_yields(s0, s1, hidden, hv);
        lemma_linear_same(plan.time_out, s0, s1, rows, width);
        assert(rows * width * 2 <= rows * plan.time_in.out_width * 2) by (nonlinear_arith)
            requires
                0 <= rows,
                width <= plan.time_in.out_width,
        ;
    }
    let out = activated(ctx, caches, &hidden, rows, width, plan.time_out);
    let ghost s2 = ctx.state();
    let ghost k2 = *caches;
    drop_temp(ctx, hidden, Ghost(s0));
    proof {
        let end = ctx.state();
        match out.base {
            Base::Fresh(id) => {
                assert(end.fresh =~= s0.fresh.insert(
                    id,
                    plan@.conditioning(s0, s0.value(*time), rows, width),
                ));
            },
            _ => {},
        }
        assert(stable(s2, end));
        k2.lemma_stable(s2, end);
    }
    out
}

/// A style that is added to what is there.
fn add_style(
    ctx: &mut AscendContext,
    caches: &mut AscendCaches,
    cond: &DeviceBuffer,
    rows: i64,
    in_w: i64,
    w: LinearBuffers,
    start: Ghost<DeviceState>,
    cv: Ghost<Seq<SymByte>>,
    items: Ghost<Seq<Item>>,
) -> (out: DeviceBuffer)
    requires
        old(ctx).wf(),
        old(caches).wf(old(ctx).state()),
        start@.sane(),
        w.ready(start@, rows, in_w),
        cond.len == rows * in_w * 2,
        items@.len() > 0,
        items@[0] == (*cond, cv@),
        owns(start@, old(ctx).state(), items@),
    ensures
        final(ctx).continues(old(ctx)),
        caches_kept(*old(caches), *final(caches), final(ctx).state()),
        final(caches).rope == old(caches).rope,
        final(ctx).state().slots == old(ctx).state().slots,
        out.len == rows * w.out_width * 2,
        owns(
            start@,
            final(ctx).state(),
            items@ + seq![(out, w.value(start@, cv@, rows, in_w))],
        ),
{
    let ghost s1 = ctx.state();
    proof {
        ctx.lemma_safe();
        lemma_owns(start@, s1, items@);
        lemma_linear_same(w, start@, s1, rows, in_w);
    }
    let out = linear(ctx, caches, cond, rows, in_w, w);
    proof {
        let value = w.value(start@, cv@, rows, in_w);
        lemma_owns_one(s1, ctx.state(), out, value);
        lemma_owns_then(start@, s1, ctx.state(), items@, seq![(out, value)]);
    }
    out
}

/// Compute the styles of a step from its time embedding.
pub fn run_step_styles(
    ctx: &mut AscendContext,
    caches: &mut AscendCaches,
    time: &DeviceBuffer,
    rows: i64,
    width: i64,
    plan: &StylePlan,
) -> (out: StyleBuffers)
    requires
        old(ctx).wf(),
        old(caches).wf(old(ctx).state()),
        plan@.ready(old(ctx).state(), rows, width),
        holds_operand(old(ctx).state(), *time, rows, width),
    ensures
        final(ctx).continues(old(ctx)),
        caches_kept(*old(caches), *final(caches), final(ctx).state()),
        final(caches).rope == old(caches).rope,
        final(ctx).state().slots == old(ctx).state().slots,
        out.attention@.len() == plan.layers@.len(),
        out.mlp@.len() == plan.layers@.len(),
        forall|i: int|
            0 <= i < plan.layers@.len() ==> (#[trigger] out.attention@[i]).len == rows
                * plan.layers@[i].attention.out_width * 2,
        forall|i: int|
            0 <= i < plan.layers@.len() ==> (#[trigger] out.mlp@[i]).len == rows
                * plan.layers@[i].mlp.out_width * 2,
        out.last.len == rows * plan.last.out_width * 2,
        owns(
            old(ctx).state(),
            final(ctx).state(),
            style_items(
                plan@,
                out@,
                old(ctx).state(),
                old(ctx).state().value(*time),
                rows,
                width,
            ),
        ),
{
    let ghost s0 = ctx.state();
    let ghost c0 = *ctx;
    let ghost k0 = *caches;
    let ghost tv = s0.value(*time);
    let ghost cv = plan@.conditioning(s0, tv, rows, width);
    let in_w: i64 = plan.time_out.out_width;
    proof {
        ctx.lemma_safe();
    }
    let cond = run_conditioning(ctx, caches, time, rows, width, plan);
    let mut attention: Vec<DeviceBuffer> = Vec::new();
    let mut mlp: Vec<DeviceBuffer> = Vec::new();
    let mut i: usize = 0;
    proof {
        ctx.lemma_safe();
        lemma_owns_one(s0, ctx.state(), cond, cv);
        assert(seq![(cond, cv)] + layer_style_items(
            plan@,
            attention@,
            mlp@,
            s0,
            tv,
            rows,
            width,
            0,
        ) =~= seq![(cond, cv)]);
    }
    while i < plan.layers.len()
        invariant
            i <= plan.layers@.len(),
            ctx.wf(),
            ctx.continues(&c0),
            s0 == c0.state(),
            s0.sane(),
            caches_kept(k0, *caches, ctx.state()),
            caches.rope == k0.rope,
            ctx.state().slots == s0.slots,
            plan@.ready(s0, rows, width),
            in_w == plan.time_out.out_width,
            cv == plan@.conditioning(s0, tv, rows, width),
            cond.len == rows * in_w * 2,
            attention@.len() == i,
            mlp@.len() == i,
            forall|j: int|
                0 <= j < i ==> (#[trigger] attention@[j]).len == rows
                    * plan.layers@[j].attention.out_width * 2,
            forall|j: int|
                0 <= j < i ==> (#[trigger] mlp@[j]).len == rows * plan.layers@[j].mlp.out_width
                    * 2,
            owns(
                s0,
                ctx.state(),
                seq![(cond, cv)] + layer_style_items(
                    plan@,
                    attention@,
                    mlp@,
                    s0,
                    tv,
                    rows,
                    width,
                    i as nat,
                ),
            ),
        decreases plan.layers@.len() - i,
    {
        let w = plan.layers[i];
        let ghost attention1 = attention@;
        let ghost mlp1 = mlp@;
        let ghost items = layer_style_items(
            plan@,
            attention@,
            mlp@,
            s0,
            tv,
            rows,
            width,
            i as nat,
        );
        let ghost a_items = seq![(cond, cv)] + items;
        assert(plan.layers@[i as int].attention.ready(s0, rows, in_w));
        let a = add_style(
            ctx,
            caches,
            &cond,
            rows,
            in_w,
            w.attention,
            Ghost(s0),
            Ghost(cv),
            Ghost(a_items),
        );
        let ghost av = plan@.attention(s0, tv, rows, width, i as int);
        let ghost m_items = a_items + seq![(a, av)];
        let m = add_style(
            ctx,
            caches,
            &cond,
            rows,
            in_w,
            w.mlp,
            Ghost(s0),
            Ghost(cv),
            Ghost(m_items),
        );
        let ghost mv = plan@.mlp(s0, tv, rows, width, i as int);
        attention.push(a);
        mlp.push(m);
        proof {
            lemma_next_styles(plan@, attention1, mlp1, a, m, s0, tv, rows, width, i as nat);
            assert(m_items + seq![(m, mv)] =~= seq![(cond, cv)] + (items + seq![(a, av)] + seq![
                (m, mv),
            ]));
        }
        i = i + 1;
    }
    let ghost items = layer_style_items(
        plan@,
        attention@,
        mlp@,
        s0,
        tv,
        rows,
        width,
        i as nat,
    );
    let last = add_style(
        ctx,
        caches,
        &cond,
        rows,
        in_w,
        plan.last,
        Ghost(s0),
        Ghost(cv),
        Ghost(seq![(cond, cv)] + items),
    );
    let ghost s2 = ctx.state();
    let ghost k2 = *caches;
    let ghost lv = plan@.final_norm(s0, tv, rows, width);
    let ghost all = seq![(cond, cv)] + items + seq![(last, lv)];
    proof {
        assert(all[0] == (cond, cv));
        assert(is_item(all[0], s2.fresh, s0.issued, s2.issued));
    }
    drop_temp(ctx, cond, Ghost(s0));
    proof {
        lemma_owns_drop(s0, s2, ctx.state(), all, 0);
        assert(all.remove(0) =~= items + seq![(last, lv)]);
        lemma_dropped_stable(s2, ctx.state(), cond);
        k2.lemma_stable(s2, ctx.state());
    }
    StyleBuffers { attention, mlp, last }
}

/// What is wrong with the style layers of a layer of the action expert.
pub open spec fn layer_style_error(w: Bf16DeviceActionLayer) -> Option<ErrorView> {
    first_error(linear_error(w.input_style), linear_error(w.post_attention_style))
}

pub open spec fn layer_style_errors(layers: Seq<Bf16DeviceActionLayer>) -> Seq<
    Option<ErrorView>,
> {
    Seq::new(layers.len(), |i: int| layer_style_error(layers[i]))
}

/// What is wrong with the layers that styles are computed with.
pub open spec fn style_weights_error(w: StaticBf16Pi05Weights) -> Option<ErrorView> {
    first_error(
        linear_error(w.time_mlp_in),
        first_error(
            linear_error(w.time_mlp_out),
            first_error(
                first_of(layer_style_errors(w.action_layers@)),
                linear_error(w.action_final_style),
            ),
        ),
    )
}

/// A linear layer has the axis that its width is taken from.
pub open spec fn linear_axes(w: Bf16LinearWeights) -> bool {
    w.weight@.dims.len() >= 2 && w.weight@.dims[1] <= i64::MAX
}

/// The buffers of a linear layer.
pub open spec fn linear_layer(w: Bf16LinearWeights) -> LinearBuffers {
    LinearBuffers {
        weight: w.weight@.on_device(),
        bias: optional_buffer(w.bias),
        out_width: w.weight@.dims[1] as i64,
    }
}

/// Find the buffers of a linear layer.
pub fn resolve_linear(w: &Bf16LinearWeights) -> (r: Result<LinearBuffers, Error>)
    requires
        linear_axes(*w),
    ensures
        match r {
            Ok(b) => linear_error(*w) is None && b == linear_layer(*w),
            Err(e) => linear_error(*w) == Some(e@),
        },
{
    let (weight, bias) = linear_buffers(w)?;
    Ok(LinearBuffers { weight, bias, out_width: w.weight.dims[1] as i64 })
}

pub open spec fn layer_styles(w: Bf16DeviceActionLayer) -> LayerStyles {
    LayerStyles {
        attention: linear_layer(w.input_style),
        mlp: linear_layer(w.post_attention_style),
    }
}

/// The style layers have the axes that their widths are taken from.
pub open spec fn style_axes(w: StaticBf16Pi05Weights) -> bool {
    &&& linear_axes(w.time_mlp_in)
    &&& linear_axes(w.time_mlp_out)
    &&& linear_axes(w.action_final_style)
    &&& forall|i: int|
        0 <= i < w.action_layers@.len() ==> linear_axes(
            (#[trigger] w.action_layers@[i]).input_style,
        ) && linear_axes(w.action_layers@[i].post_attention_style)
}

/// The layers that styles are computed with.
pub open spec fn style_weights(w: StaticBf16Pi05Weights) -> StyleWeights {
    StyleWeights {
        time_in: linear_layer(w.time_mlp_in),
        time_out: linear_layer(w.time_mlp_out),
        layers: Seq::new(w.action_layers@.len(), |i: int| layer_styles(w.action_layers@[i])),
        last: linear_layer(w.action_final_style),
    }
}

/// Find the layers that styles are computed with.
pub fn plan_styles(w: &StaticBf16Pi05Weights) -> (r: Result<StylePlan, Error>)
    requires
        style_axes(*w),
    ensures
        match r {
            Ok(plan) => style_weights_error(*w) is None && plan@ == style_weights(*w),
            Err(e) => style_weights_error(*w) == Some(e@),
        },
{
    let time_in = resolve_linear(&w.time_mlp_in)?;
    let time_out = resolve_linear(&w.time_mlp_out)?;
    let ghost errors = layer_style_errors(w.action_layers@);
    let mut layers: Vec<LayerStyles> = Vec::new();
    let mut i: usize = 0;
    while i < w.action_layers.len()
        invariant
            i <= w.action_layers@.len(),
            style_axes(*w),
            linear_error(w.time_mlp_in) is None,
            linear_error(w.time_mlp_out) is None,
            errors == layer_style_errors(w.action_layers@),
            layers@.len() == i,
            forall|j: int|
                0 <= j < i ==> #[trigger] layers@[j] == layer_styles(w.action_layers@[j]),
            forall|j: int| 0 <= j < i ==> (#[trigger] errors[j]) is None,
        decreases w.action_layers@.len() - i,
    {
        proof {
            lemma_first_of(errors, i as int);
            assert(errors[i as int] == layer_style_error(w.action_layers@[i as int]));
            let at = w.action_layers@[i as int];
            assert(linear_axes(at.input_style));
        }
        let attention = resolve_linear(&w.action_layers[i].input_style)?;
        let mlp = resolve_linear(&w.action_layers[i].post_attention_style)?;
        layers.push(LayerStyles { attention, mlp });
        i = i + 1;
    }
    proof {
        lemma_first_of(errors, w.action_layers@.len() as int);
        assert(layers@ =~= Seq::new(
            w.action_layers@.len(),
            |i: int| layer_styles(w.action_layers@[i]),
        ));
    }
    let last = resolve_linear(&w.action_final_style)?;
    Ok(StylePlan { time_in, time_out, layers, last })
}

/// A time embedding of `[rows, width]` words.
#[derive(Debug, Clone, Copy)]
pub struct TimeBuffer {
    pub buffer: DeviceBuffer,
    pub rows: i64,
    pub width: i64,
}

/// The styles of the first `n` steps in device memory.
pub open spec fn all_style_items(
    plan: StyleWeights,
    styles: Seq<Styles>,
    st: DeviceState,
    times: Seq<TimeBuffer>,
    n: nat,
) -> Seq<Item>
    decreases n,
{
    if n == 0 {
        Seq::empty()
    } else {
        let t = times[n - 1];
        all_style_items(plan, styles, st, times, (n - 1) as nat) + style_items(
            plan,
            styles[n - 1],
            st,
            st.value(t.buffer),
            t.rows,
            t.width,
        )
    }
}

/// Only the styles of the first `n` steps matter.
proof fn lemma_items_prefix(
    plan: StyleWeights,
    a: Seq<Styles>,
    b: Seq<Styles>,
    st: DeviceState,
    times: Seq<TimeBuffer>,
    n: nat,
)
    requires
        n <= a.len(),
        n <= b.len(),
        forall|i: int| 0 <= i < n ==> #[trigger] a[i] == b[i],
    ensures
        all_style_items(plan, a, st, times, n) == all_style_items(plan, b, st, times, n),
    decreases n,
{
    if n > 0 {
        lemma_items_prefix(plan, a, b, st, times, (n - 1) as nat);
        assert(a[n - 1] == b[n - 1]);
    }
}

/// The style layers read the same in a later state.
pub proof fn lemma_styles_same(
    plan: StyleWeights,
    styles: Styles,
    before: DeviceState,
    after: DeviceState,
    time: Seq<SymByte>,
    rows: i64,
    width: i64,
)
    requires
        before.sane(),
        keeps(before, after),
        plan.ready(before, rows, width),
        forall|b: DeviceBuffer| before.holds(b) && is_lasting(b) ==> #[trigger] after.holds(b),
        forall|b: DeviceBuffer|
            before.holds(b) && is_lasting(b) ==> #[trigger] after.value(b) == before.value(b),
    ensures
        plan.ready(after, rows, width),
        style_items(plan, styles, after, time, rows, width) == style_items(
            plan,
            styles,
            before,
            time,
            rows,
            width,
        ),
{
    let cond = plan.time_out.out_width;
    lemma_linear_same(plan.time_in, before, after, rows, width);
    lemma_linear_same(plan.time_out, before, after, rows, width);
    lemma_linear_same(plan.last, before, after, rows, cond);
    let hv = plan.time_in.value(before, time, rows, width);
    assert(plan.time_in.value(after, time, rows, width) == hv);
    let av = silu_value(hv, seq![rows, plan.time_in.out_width]);
    assert(plan.time_out.value(after, av, rows, width) == plan.time_out.value(
        before,
        av,
        rows,
        width,
    ));
    let cv = plan.conditioning(before, time, rows, width);
    assert(plan.conditioning(after, time, rows, width) == cv);
    assert(plan.last.value(after, cv, rows, cond) == plan.last.value(before, cv, rows, cond));
    assert forall|i: int| 0 <= i < plan.layers.len() implies (
    #[trigger] plan.layers[i]).attention.ready(after, rows, cond) && plan.layers[i].mlp.ready(
        after,
        rows,
        cond,
    ) && plan.attention(after, time, rows, width, i) == plan.attention(
        before,
        time,
        rows,
        width,
        i,
    ) && plan.mlp(after, time, rows, width, i) == plan.mlp(before, time, rows, width, i) by {
        lemma_linear_same(plan.layers[i].attention, before, after, rows, cond);
        lemma_linear_same(plan.layers[i].mlp, before, after, rows, cond);
        assert(plan.layers[i].attention.value(after, cv, rows, cond)
            == plan.layers[i].attention.value(before, cv, rows, cond));
        assert(plan.layers[i].mlp.value(after, cv, rows, cond) == plan.layers[i].mlp.value(
            before,
            cv,
            rows,
            cond,
        ));
    }
    let x = style_items(plan, styles, after, time, rows, width);
    let y = style_items(plan, styles, before, time, rows, width);
    assert forall|j: int| 0 <= j < x.len() implies x[j] == y[j] by {
        if j < 2 * plan.layers.len() {
            let i = j / 2;
            assert(0 <= i < plan.layers.len());
            assert(plan.layers[i].attention.ready(after, rows, cond));
        }
    }
    assert(x =~= y);
}

/// The styles of a step have the sizes that their layers give them.
pub open spec fn sized(plan: StyleWeights, styles: Styles, rows: i64) -> bool {
    &&& styles.attention.len() == plan.layers.len()
    &&& styles.mlp.len() == plan.layers.len()
    &&& forall|i: int|
        0 <= i < plan.layers.len() ==> (#[trigger] styles.attention[i]).len == rows
            * plan.layers[i].attention.out_width * 2
    &&& forall|i: int|
        0 <= i < plan.layers.len() ==> (#[trigger] styles.mlp[i]).len == rows
            * plan.layers[i].mlp.out_width * 2
    &&& styles.last.len == rows * plan.last.out_width * 2
}

/// The time embedding is there, and so is what its step needs.
pub open spec fn time_ready(plan: StyleWeights, st: DeviceState, t: TimeBuffer) -> bool {
    plan.ready(st, t.rows, t.width) && holds_operand(st, t.buffer, t.rows, t.width)
}

/// Compute the styles of all steps.
pub fn run_all_styles(
    ctx: &mut AscendContext,
    caches: &mut AscendCaches,
    times: &Vec<TimeBuffer>,
    plan: &StylePlan,
) -> (out: Vec<StyleBuffers>)
    requires
        old(ctx).wf(),
        old(caches).wf(old(ctx).state()),
        forall|i: int|
            0 <= i < times@.len() ==> time_ready(plan@, old(ctx).state(), #[trigger] times@[i]),
    ensures
        final(ctx).continues(old(ctx)),
        caches_kept(*old(caches), *final(caches), final(ctx).state()),
        final(caches).rope == old(caches).rope,
        final(ctx).state().slots == old(ctx).state().slots,
        out@.len() == times@.len(),
        forall|i: int|
            0 <= i < out@.len() ==> sized(plan@, (#[trigger] out@[i])@, times@[i].rows),
        owns(
            old(ctx).state(),
            final(ctx).state(),
            all_style_items(
                plan@,
                styles_of(out@),
                old(ctx).state(),
                times@,
                times@.len(),
            ),
        ),
{
    let ghost s0 = ctx.state();
    let ghost c0 = *ctx;
    let ghost k0 = *caches;
    let mut out: Vec<StyleBuffers> = Vec::new();
    let mut i: usize = 0;
    proof {
        ctx.lemma_safe();
        lemma_owns_nothing(s0);
    }
    while i < times.len()
        invariant
            i <= times@.len(),
            ctx.wf(),
            ctx.continues(&c0),
            s0 == c0.state(),
            s0.sane(),
            caches_kept(k0, *caches, ctx.state()),
            caches.rope == k0.rope,
            ctx.state().slots == s0.slots,
            forall|j: int|
                0 <= j < times@.len() ==> time_ready(plan@, s0, #[trigger] times@[j]),
            out@.len() == i,
            forall|j: int| 0 <= j < i ==> sized(plan@, (#[trigger] out@[j])@, times@[j].rows),
            owns(
                s0,
                ctx.state(),
                all_style_items(plan@, styles_of(out@), s0, times@, i as nat),
            ),
        decreases times@.len() - i,
    {
        let t = times[i];
        let ghost s1 = ctx.state();
        let ghost done = all_style_items(plan@, styles_of(out@), s0, times@, i as nat);
        let ghost out1 = out@;
        proof {
            ctx.lemma_safe();
            assert(time_ready(plan@, s0, times@[i as int]));
            lemma_owns(s0, s1, done);
            lemma_styles_same(
                plan@,
                Styles { attention: Seq::empty(), mlp: Seq::empty(), last: t.buffer },
                s0,
                s1,
                s0.value(t.buffer),
                t.rows,
                t.width,
            );
        }
        let styles = run_step_styles(ctx, caches, &t.buffer, t.rows, t.width, plan);
        let ghost sv = styles@;
        out.push(styles);
        proof {
            let more = style_items(plan@, sv, s0, s0.value(t.buffer), t.rows, t.width);
            lemma_styles_same(plan@, sv, s0, s1, s0.value(t.buffer), t.rows, t.width);
            lemma_owns_then(s0, s1, ctx.state(), done, more);
            assert(styles_of(out@)[i as int] == sv);
            lemma_items_prefix(
                plan@,
                styles_of(out1),
                styles_of(out@),
                s0,
                times@,
                i as nat,
            );
        }
        i = i + 1;
    }
    out
}

/// The buffers of a step's styles, in the order of their items.
pub open spec fn style_buffers(styles: Styles) -> Seq<DeviceBuffer> {
    Seq::new(
        2 * styles.attention.len(),
        |j: int|
            if j % 2 == 0 {
                styles.attention[j / 2]
            } else {
                styles.mlp[j / 2]
            },
    ) + seq![styles.last]
}

/// The buffers of the styles of the first `n` steps.
pub open spec fn all_style_buffers(styles: Seq<Styles>, n: nat) -> Seq<DeviceBuffer>
    decreases n,
{
    if n == 0 {
        Seq::empty()
    } else {
        all_style_buffers(styles, (n - 1) as nat) + style_buffers(styles[n - 1])
    }
}

/// List the buffers of the styles.
pub(crate) fn list_styles(styles: &Vec<StyleBuffers>) -> (out: Vec<DeviceBuffer>)
    requires
        forall|i: int|
            0 <= i < styles@.len() ==> (#[trigger] styles@[i]).attention@.len()
                == styles@[i].mlp@.len(),
    ensures
        out@ == all_style_buffers(styles_of(styles@), styles@.len()),
{
    let ghost all = styles_of(styles@);
    let mut out: Vec<DeviceBuffer> = Vec::new();
    let mut i: usize = 0;
    while i < styles.len()
        invariant
            i <= styles@.len(),
            all == styles_of(styles@),
            forall|j: int|
                0 <= j < styles@.len() ==> (#[trigger] styles@[j]).attention@.len()
                    == styles@[j].mlp@.len(),
            out@ == all_style_buffers(all, i as nat),
        decreases styles@.len() - i,
    {
        let ghost before = out@;
        let ghost at = styles@[i as int]@;
        let mut j: usize = 0;
        while j < styles[i].attention.len()
            invariant
                i < styles@.len(),
                at == styles@[i as int]@,
                at.attention.len() == at.mlp.len(),
                j <= at.attention.len(),
                out@.len() == before.len() + 2 * j,
                out@ == before + style_buffers(at).take(2 * j),
            decreases at.attention.len() - j,
        {
            out.push(styles[i].attention[j]);
            out.push(styles[i].mlp[j]);
            j = j + 1;
            proof {
                let x = before + style_buffers(at).take(2 * (j - 1));
                assert(style_buffers(at)[2 * (j - 1)] == at.attention[j - 1]);
                assert(style_buffers(at)[2 * (j - 1) + 1] == at.mlp[j - 1]);
                assert(out@ =~= before + style_buffers(at).take(2 * j));
            }
        }
        out.push(styles[i].last);
        proof {
            assert(out@ =~= before + style_buffers(at));
        }
        i = i + 1;
    }
    out
}

/// The items of the styles are their buffers, in order.
pub proof fn lemma_style_buffers(
    plan: StyleWeights,
    styles: Seq<Styles>,
    st: DeviceState,
    times: Seq<TimeBuffer>,
    n: nat,
)
    requires
        n <= styles.len(),
        n <= times.len(),
        forall|i: int| 0 <= i < n ==> sized(plan, #[trigger] styles[i], times[i].rows),
    ensures
        all_style_items(plan, styles, st, times, n).len() == all_style_buffers(styles, n).len(),
        forall|j: int|
            0 <= j < all_style_items(plan, styles, st, times, n).len() ==> (
            #[trigger] all_style_items(plan, styles, st, times, n)[j]).0 == all_style_buffers(
                styles,
                n,
            )[j],
    decreases n,
{
    if n > 0 {
        lemma_style_buffers(plan, styles, st, times, (n - 1) as nat);
        assert(sized(plan, styles[n - 1], times[n - 1].rows));
        let items = all_style_items(plan, styles, st, times, n);
        let bufs = all_style_buffers(styles, n);
        let k = all_style_buffers(styles, (n - 1) as nat).len();
        assert forall|j: int| 0 <= j < items.len() implies (#[trigger] items[j]).0 == bufs[j] by {
            if j < k {
                assert(items[j] == all_style_items(plan, styles, st, times, (n - 1) as nat)[j]);
            }
        }
    }
}

} // verus!
