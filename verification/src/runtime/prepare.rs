//! Preparing the styles of flow steps, and steps that prepare their own.

use vstd::prelude::*;
use vstd::string::StringExecFns;

use crate::backend::{dims_fit, held, wrapped, AscendBackend};
use crate::device::DeviceBuffer;
use crate::error::{first_error, first_of, lemma_first_of, Device, Error, ErrorView};
use crate::executor::action::is_style;
use crate::executor::caches::caches_kept;
use crate::executor::frame::{lemma_owns, owns, Item};
use crate::model::{tensor_buf, StaticBf16Pi05Weights, Tensor, TensorInfo};
use crate::runtime::denoise::{flow, style_values, styles_there, values_of, StyleValues};
use crate::runtime::flow::{flow_styles, step_styles};
use crate::runtime::pi05::{buffers_of, AscendStepStyles, Pi05AscendRuntime};
use crate::runtime::styles::{
    all_style_items, linear_layer, plan_styles, run_all_styles, run_step_styles, sized, style_axes, style_items,
    style_weights, style_weights_error, styles_of, time_ready, StyleBuffers, StylePlan,
    StyleWeights, Styles, TimeBuffer,
};
use crate::semantics::{is_lasting, DeviceState};
use crate::runtime::words::lemma_prepared_styles;
use crate::text::{append_size, decimal};

verus! {

/// A tensor as a time embedding.
pub open spec fn time_of(t: TensorInfo) -> TimeBuffer {
    TimeBuffer { buffer: t.on_device(), rows: t.dims[0] as i64, width: t.dims[1] as i64 }
}

/// Tensors as time embeddings.
pub open spec fn times_of(tensors: Seq<Tensor>) -> Seq<TimeBuffer> {
    Seq::new(tensors.len(), |i: int| time_of(tensors[i]@))
}

/// The styles that a time embedding gives.
pub open spec fn made_styles(w: StyleWeights, st: DeviceState, t: TimeBuffer) -> StyleValues {
    let time = st.value(t.buffer);
    StyleValues {
        attention: Seq::new(
            w.layers.len(),
            |i: int| w.attention(st, time, t.rows, t.width, i),
        ),
        mlp: Seq::new(w.layers.len(), |i: int| w.mlp(st, time, t.rows, t.width, i)),
        last: w.final_norm(st, time, t.rows, t.width),
    }
}

/// The styles that time embeddings give.
pub open spec fn all_made_styles(w: StyleWeights, st: DeviceState, times: Seq<TimeBuffer>) -> Seq<
    StyleValues,
> {
    Seq::new(times.len(), |i: int| made_styles(w, st, times[i]))
}

/// Styles that were made hold what they should.
pub proof fn lemma_made_step(
    w: StyleWeights,
    styles: Styles,
    before: DeviceState,
    after: DeviceState,
    t: TimeBuffer,
    items: Seq<Item>,
    from: int,
)
    requires
        before.sane(),
        owns(before, after, items),
        sized(w, styles, t.rows),
        0 <= from,
        from + 2 * w.layers.len() < items.len(),
        ({
            let made = style_items(w, styles, before, before.value(t.buffer), t.rows, t.width);
            forall|j: int|
                0 <= j < made.len() ==> #[trigger] items[from + j] == made[j]
        }),
    ensures
        styles.values(after) == made_styles(w, before, t),
        forall|i: int|
            0 <= i < w.layers.len() ==> after.holds(#[trigger] styles.attention[i]) && is_lasting(
                styles.attention[i],
            ),
        forall|i: int|
            0 <= i < w.layers.len() ==> after.holds(#[trigger] styles.mlp[i]) && is_lasting(
                styles.mlp[i],
            ),
        after.holds(styles.last),
        is_lasting(styles.last),
{
    let time = before.value(t.buffer);
    let made = style_items(w, styles, before, time, t.rows, t.width);
    lemma_owns(before, after, items);
    assert forall|i: int| 0 <= i < w.layers.len() implies after.holds(
        #[trigger] styles.attention[i],
    ) && is_lasting(styles.attention[i]) && after.value(styles.attention[i]) == w.attention(
        before,
        time,
        t.rows,
        t.width,
        i,
    ) by {
        let j = 2 * i;
        assert(j / 2 == i && j % 2 == 0);
        assert(made[j] == (
            styles.attention[i],
            w.attention(before, time, t.rows, t.width, i),
        ));
        assert(items[from + j] == made[j]);
    }
    assert forall|i: int| 0 <= i < w.layers.len() implies after.holds(#[trigger] styles.mlp[i])
        && is_lasting(styles.mlp[i]) && after.value(styles.mlp[i]) == w.mlp(
        before,
        time,
        t.rows,
        t.width,
        i,
    ) by {
        let j = 2 * i + 1;
        assert(j / 2 == i && j % 2 == 1);
        assert(made[j] == (styles.mlp[i], w.mlp(before, time, t.rows, t.width, i)));
        assert(items[from + j] == made[j]);
    }
    let last = 2 * w.layers.len() as int;
    assert(made[last] == (styles.last, w.final_norm(before, time, t.rows, t.width)));
    assert(items[from + last] == made[last]);
    let vals = made_styles(w, before, t);
    assert(values_of(after, styles.attention) =~= vals.attention);
    assert(values_of(after, styles.mlp) =~= vals.mlp);
}

/// Where the styles of step `k` start among the items of all steps.
spec fn style_offset(w: StyleWeights, k: int) -> int {
    k * (2 * w.layers.len() + 1)
}

/// The items of step `k` among the items of all steps.
proof fn lemma_items_of_step(
    w: StyleWeights,
    styles: Seq<Styles>,
    st: DeviceState,
    times: Seq<TimeBuffer>,
    n: nat,
    k: int,
)
    requires
        0 <= k < n,
        n <= styles.len(),
        n <= times.len(),
        forall|i: int| 0 <= i < n ==> sized(w, #[trigger] styles[i], times[i].rows),
    ensures
        all_style_items(w, styles, st, times, n).len() == style_offset(w, n as int),
        0 <= style_offset(w, k),
        style_offset(w, k) + 2 * w.layers.len() < style_offset(w, n as int),
        ({
            let all = all_style_items(w, styles, st, times, n);
            let t = times[k];
            let made = style_items(w, styles[k], st, st.value(t.buffer), t.rows, t.width);
            forall|j: int|
                0 <= j < made.len() ==> #[trigger] all[style_offset(w, k) + j] == made[j]
        }),
    decreases n,
{
    let size = 2 * w.layers.len() + 1;
    lemma_items_len(w, styles, st, times, n);
    lemma_items_len(w, styles, st, times, (n - 1) as nat);
    assert(style_offset(w, k) + size <= style_offset(w, n as int) && 0 <= style_offset(w, k))
        by (nonlinear_arith)
        requires
            0 <= k < n,
            size == 2 * w.layers.len() + 1,
            style_offset(w, k) == k * size,
            style_offset(w, n as int) == n * size,
    ;
    let all = all_style_items(w, styles, st, times, n);
    let t = times[k];
    let made = style_items(w, styles[k], st, st.value(t.buffer), t.rows, t.width);
    if k < n - 1 {
        lemma_items_of_step(w, styles, st, times, (n - 1) as nat, k);
        let before = all_style_items(w, styles, st, times, (n - 1) as nat);
        assert forall|j: int| 0 <= j < made.len() implies #[trigger] all[style_offset(w, k) + j]
            == made[j] by {
            assert(all[style_offset(w, k) + j] == before[style_offset(w, k) + j]);
        }
    }
}

proof fn lemma_items_len(
    w: StyleWeights,
    styles: Seq<Styles>,
    st: DeviceState,
    times: Seq<TimeBuffer>,
    n: nat,
)
    ensures
        all_style_items(w, styles, st, times, n).len() == style_offset(w, n as int),
    decreases n,
{
    let size = 2 * w.layers.len() + 1;
    if n > 0 {
        lemma_items_len(w, styles, st, times, (n - 1) as nat);
        assert((n - 1) * size + size == n * size) by (nonlinear_arith);
    } else {
        assert(0 * size == 0);
    }
}

/// The styles of all steps have the size of a style of `width` columns.
pub open spec fn styles_fit(w: StyleWeights, rows: i64, width: i64) -> bool {
    &&& forall|i: int|
        0 <= i < w.layers.len() ==> rows * (#[trigger] w.layers[i]).attention.out_width == width
            * 3 && rows * w.layers[i].mlp.out_width == width * 3
    &&& rows * w.last.out_width == width * 3
}

/// Styles that were made are there and hold what they should.
pub proof fn lemma_made(
    w: StyleWeights,
    styles: Seq<Styles>,
    before: DeviceState,
    after: DeviceState,
    times: Seq<TimeBuffer>,
    width: i64,
)
    requires
        before.sane(),
        styles.len() == times.len(),
        forall|i: int| 0 <= i < times.len() ==> sized(w, #[trigger] styles[i], times[i].rows),
        forall|i: int|
            0 <= i < times.len() ==> styles_fit(w, (#[trigger] times[i]).rows, width),
        owns(before, after, all_style_items(w, styles, before, times, times.len())),
    ensures
        style_values(after, styles) == all_made_styles(w, before, times),
        forall|k: int|
            0 <= k < styles.len() ==> styles_there(
                after,
                #[trigger] styles[k],
                w.layers.len(),
                width,
            ),
{
    let n = times.len();
    let items = all_style_items(w, styles, before, times, n);
    assert forall|k: int| 0 <= k < n implies styles_there(
        after,
        #[trigger] styles[k],
        w.layers.len(),
        width,
    ) && styles[k].values(after) == made_styles(w, before, times[k]) by {
        lemma_items_of_step(w, styles, before, times, n, k);
        assert(sized(w, styles[k], times[k].rows));
        assert(styles_fit(w, times[k].rows, width));
        lemma_made_step(w, styles[k], before, after, times[k], items, style_offset(w, k));
        assert forall|i: int| 0 <= i < w.layers.len() implies is_style(
            after,
            #[trigger] styles[k].attention[i],
            width,
        ) by {
            assert(rows_fit(w, times[k].rows, width, i));
        }
        assert forall|i: int| 0 <= i < w.layers.len() implies is_style(
            after,
            #[trigger] styles[k].mlp[i],
            width,
        ) by {
            assert(rows_fit(w, times[k].rows, width, i));
        }
    }
    assert(style_values(after, styles) =~= all_made_styles(w, before, times));
}

/// Styles that were prepared for all steps: the tensors of step `k` hold the styles that
/// time embedding `k` gives, each under its own name and in the order of the layers.
pub proof fn lemma_all_prepared_styles(
    before: DeviceState,
    after: DeviceState,
    w: StaticBf16Pi05Weights,
    times: Seq<Tensor>,
    styles: Seq<AscendStepStyles>,
    k: int,
)
    requires
        before.sane(),
        styles.len() == times.len(),
        forall|i: int|
            0 <= i < times.len() ==> sized(
                style_weights(w),
                step_styles(#[trigger] styles[i]),
                times[i]@.dims[0] as i64,
            ),
        owns(
            before,
            after,
            all_style_items(
                style_weights(w),
                flow_styles(styles),
                before,
                times_of(times),
                times.len(),
            ),
        ),
        0 <= k < times.len(),
    ensures
        ({
            let made = made_styles(style_weights(w), before, time_of(times[k]@));
            &&& all_made_styles(style_weights(w), before, times_of(times))[k] == made
            &&& styles[k].attention@.len() == w.action_layers@.len()
            &&& styles[k].mlp@.len() == w.action_layers@.len()
            &&& forall|i: int|
                0 <= i < w.action_layers@.len() ==> held(
                    after,
                    (#[trigger] styles[k].attention@[i])@,
                ) == made.attention[i]
            &&& forall|i: int|
                0 <= i < w.action_layers@.len() ==> held(after, (#[trigger] styles[k].mlp@[i])@)
                    == made.mlp[i]
            &&& held(after, styles[k].final_norm@) == made.last
        }),
{
    let plan = style_weights(w);
    let bufs = flow_styles(styles);
    let ts = times_of(times);
    let n = times.len();
    let items = all_style_items(plan, bufs, before, ts, n);
    assert forall|i: int| 0 <= i < n implies sized(plan, #[trigger] bufs[i], ts[i].rows) by {
        assert(sized(plan, step_styles(styles[i]), times[i]@.dims[0] as i64));
    }
    assert(sized(plan, bufs[k], ts[k].rows));
    lemma_items_of_step(plan, bufs, before, ts, n, k);
    lemma_made_step(plan, bufs[k], before, after, ts[k], items, style_offset(plan, k));
    let made = made_styles(plan, before, ts[k]);
    assert forall|i: int| 0 <= i < w.action_layers@.len() implies held(
        after,
        (#[trigger] styles[k].attention@[i])@,
    ) == made.attention[i] by {
        assert(bufs[k].values(after).attention[i] == after.value(bufs[k].attention[i]));
    }
    assert forall|i: int| 0 <= i < w.action_layers@.len() implies held(
        after,
        (#[trigger] styles[k].mlp@[i])@,
    ) == made.mlp[i] by {
        assert(bufs[k].values(after).mlp[i] == after.value(bufs[k].mlp[i]));
    }
}

spec fn rows_fit(w: StyleWeights, rows: i64, width: i64, i: int) -> bool {
    rows * w.layers[i].attention.out_width == width * 3 && rows * w.layers[i].mlp.out_width
        == width * 3
}

/// A style tensor: one row of all its words.
pub open spec fn style_tensor(device: Device, b: DeviceBuffer) -> TensorInfo {
    wrapped(device, b, seq![(b.len / 2) as usize])
}

fn wrap_row(be: &AscendBackend, b: DeviceBuffer) -> (t: Tensor)
    ensures
        t@ == style_tensor(be.spec_device(), b),
{
    let dims: Vec<usize> = vec![b.len / 2];
    assert(dims@ =~= seq![(b.len / 2) as usize]);
    be.wrap_fp16(b, dims)
}

fn wrap_rows(be: &AscendBackend, bufs: &Vec<DeviceBuffer>) -> (out: Vec<Tensor>)
    ensures
        buffers_of(out@) == bufs@,
        forall|i: int|
            0 <= i < out@.len() ==> (#[trigger] out@[i])@ == style_tensor(
                be.spec_device(),
                bufs@[i],
            ),
{
    let mut out: Vec<Tensor> = Vec::new();
    let mut i: usize = 0;
    while i < bufs.len()
        invariant
            i <= bufs@.len(),
            out@.len() == i,
            forall|j: int|
                0 <= j < i ==> (#[trigger] out@[j])@ == style_tensor(be.spec_device(), bufs@[j]),
        decreases bufs@.len() - i,
    {
        out.push(wrap_row(be, bufs[i]));
        i = i + 1;
    }
    assert(buffers_of(out@) =~= bufs@);
    out
}

/// The tensors are the style rows of `device`.
pub open spec fn are_styles(device: Device, s: AscendStepStyles) -> bool {
    &&& forall|i: int|
        0 <= i < s.attention@.len() ==> (#[trigger] s.attention@[i])@ == style_tensor(
            device,
            s.attention@[i]@.on_device(),
        )
    &&& forall|i: int|
        0 <= i < s.mlp@.len() ==> (#[trigger] s.mlp@[i])@ == style_tensor(
            device,
            s.mlp@[i]@.on_device(),
        )
    &&& s.final_norm@ == style_tensor(device, s.final_norm@.on_device())
}

fn wrap_styles(be: &AscendBackend, s: &StyleBuffers) -> (out: AscendStepStyles)
    ensures
        step_styles(out) == s@,
        are_styles(be.spec_device(), out),
{
    let attention = wrap_rows(be, &s.attention);
    let mlp = wrap_rows(be, &s.mlp);
    let final_norm = wrap_row(be, s.last);
    let out = AscendStepStyles { attention, mlp, final_norm };
    proof {
        let a = buffers_of(attention@);
        assert forall|i: int| 0 <= i < out.attention@.len() implies (
        #[trigger] out.attention@[i])@ == style_tensor(
            be.spec_device(),
            out.attention@[i]@.on_device(),
        ) by {
            assert(a[i] == s.attention@[i]);
        }
        let m = buffers_of(mlp@);
        assert forall|i: int| 0 <= i < out.mlp@.len() implies (#[trigger] out.mlp@[i])@
            == style_tensor(be.spec_device(), out.mlp@[i]@.on_device()) by {
            assert(m[i] == s.mlp@[i]);
        }
    }
    out
}

/// What is wrong with the preparation of one step's styles.
pub open spec fn prepare_error(w: StaticBf16Pi05Weights, t: TensorInfo) -> Option<ErrorView> {
    first_error(t.residency_error(), style_weights_error(w))
}

/// The errors of the preparation of all steps' styles.
pub open spec fn prepare_errors(w: StaticBf16Pi05Weights, times: Seq<Tensor>) -> Seq<
    Option<ErrorView>,
> {
    Seq::new(times.len(), |i: int| prepare_error(w, times[i]@))
}

/// What is wrong with the number of time embeddings.
pub open spec fn time_count_error(expected: usize, got: nat) -> Option<ErrorView> {
    if got != expected {
        Some(
            ErrorView::Other(
                "π0.5 expected "@ + decimal(expected as int) + " timestep embeddings, got "@
                    + decimal(got as int),
            ),
        )
    } else {
        None
    }
}

fn check_time_count(expected: usize, got: usize) -> (r: Result<(), Error>)
    ensures
        match r {
            Ok(()) => time_count_error(expected, got as nat) is None,
            Err(e) => time_count_error(expected, got as nat) == Some(e@),
        },
{
    if got != expected {
        let mut text = String::new();
        text.append("π0.5 expected ");
        append_size(&mut text, expected);
        text.append(" timestep embeddings, got ");
        append_size(&mut text, got);
        assert(text@ =~= "π0.5 expected "@ + decimal(expected as int)
            + " timestep embeddings, got "@ + decimal(got as int));
        return Err(Error::Other(text));
    }
    Ok(())
}

/// What is wrong with the preparation of all styles.
pub open spec fn all_styles_error(
    expected: usize,
    w: StaticBf16Pi05Weights,
    times: Seq<Tensor>,
) -> Option<ErrorView> {
    first_error(
        time_count_error(expected, times.len()),
        first_of(prepare_errors(w, times)),
    )
}

/// The time embeddings have the axes that their sizes are taken from.
pub open spec fn time_axes(times: Seq<Tensor>) -> bool {
    forall|i: int|
        0 <= i < times.len() ==> (#[trigger] times[i])@.dims.len() >= 2 && dims_fit(times[i]@.dims)
}

/// Check the preparation of all styles and find its buffers. Without a step there
/// is nothing to find.
pub(crate) fn check_times(expected: usize, w: &StaticBf16Pi05Weights, times: &[Tensor]) -> (r:
    Result<(Option<StylePlan>, Vec<TimeBuffer>), Error>)
    requires
        style_axes(*w),
        time_axes(times@),
    ensures
        match r {
            Ok((plan, bufs)) => {
                &&& all_styles_error(expected, *w, times@) is None
                &&& bufs@ == times_of(times@)
                &&& (plan is Some) == (times@.len() > 0)
                &&& plan matches Some(p) ==> p@ == style_weights(*w)
            },
            Err(e) => all_styles_error(expected, *w, times@) == Some(e@),
        },
{
    check_time_count(expected, times.len())?;
    let ghost errors = prepare_errors(*w, times@);
    let mut plan: Option<StylePlan> = None;
    let mut bufs: Vec<TimeBuffer> = Vec::new();
    let mut i: usize = 0;
    while i < times.len()
        invariant
            i <= times@.len(),
            style_axes(*w),
            time_axes(times@),
            time_count_error(expected, times@.len()) is None,
            errors == prepare_errors(*w, times@),
            bufs@.len() == i,
            forall|j: int| 0 <= j < i ==> #[trigger] bufs@[j] == time_of(times@[j]@),
            forall|j: int| 0 <= j < i ==> (#[trigger] errors[j]) is None,
            (plan is Some) == (i > 0),
            plan matches Some(p) ==> p@ == style_weights(*w),
        decreases times@.len() - i,
    {
        let t = &times[i];
        proof {
            assert(errors[i as int] == prepare_error(*w, times@[i as int]@));
            lemma_first_of(errors, i as int);
            let at = times@[i as int];
            assert(at@.dims.len() >= 2);
        }
        let buffer = tensor_buf(t)?;
        let found = plan_styles(w)?;
        plan = Some(found);
        bufs.push(TimeBuffer { buffer, rows: t.dims[0] as i64, width: t.dims[1] as i64 });
        i = i + 1;
    }
    proof {
        lemma_first_of(errors, times@.len() as int);
        assert(bufs@ =~= times_of(times@));
    }
    Ok((plan, bufs))
}

impl Pi05AscendRuntime {
    /// Compute the styles of one step from its time embedding. Errors are found
    /// before anything is recorded.
    pub fn prepare_step_styles(&mut self, time_embedding: &Tensor) -> (r: Result<
        AscendStepStyles,
        Error,
    >)
        requires
            old(self).wf(),
            style_axes(old(self).weights),
            time_embedding@.dims.len() >= 2,
            dims_fit(time_embedding@.dims),
            prepare_error(old(self).weights, time_embedding@) is None ==> time_ready(
                style_weights(old(self).weights),
                old(self).state(),
                time_of(time_embedding@),
            ),
        ensures
            ({
                let w = style_weights(old(self).weights);
                let t = time_of(time_embedding@);
                let st = old(self).state();
                match r {
                    Err(e) => {
                        &&& prepare_error(old(self).weights, time_embedding@) == Some(e@)
                        &&& *final(self) == *old(self)
                    },
                    Ok(styles) => {
                        &&& prepare_error(old(self).weights, time_embedding@) is None
                        &&& final(self).wf()
                        &&& final(self).same_model(*old(self))
                        &&& final(self).backend.spec_device()
                            == old(self).backend.spec_device()
                        &&& caches_kept(
                            old(self).caches,
                            final(self).caches,
                            final(self).state(),
                        )
                        &&& are_styles(old(self).backend.spec_device(), styles)
                        &&& sized(w, step_styles(styles), t.rows)
                        &&& owns(
                            st,
                            final(self).state(),
                            style_items(
                                w,
                                step_styles(styles),
                                st,
                                st.value(t.buffer),
                                t.rows,
                                t.width,
                            ),
                        )
                        &&& ({
                            let model = old(self).weights;
                            let now = final(self).state();
                            let cond = w.conditioning(st, st.value(t.buffer), t.rows, t.width);
                            let cols = linear_layer(model.time_mlp_out).out_width;
                            &&& styles.attention@.len() == model.action_layers@.len()
                            &&& styles.mlp@.len() == model.action_layers@.len()
                            &&& forall|i: int|
                                0 <= i < model.action_layers@.len() ==> held(
                                    now,
                                    (#[trigger] styles.attention@[i])@,
                                ) == linear_layer(model.action_layers@[i].input_style).value(
                                    st,
                                    cond,
                                    t.rows,
                                    cols,
                                )
                            &&& forall|i: int|
                                0 <= i < model.action_layers@.len() ==> held(
                                    now,
                                    (#[trigger] styles.mlp@[i])@,
                                ) == linear_layer(
                                    model.action_layers@[i].post_attention_style,
                                ).value(st, cond, t.rows, cols)
                            &&& held(now, styles.final_norm@) == linear_layer(
                                model.action_final_style,
                            ).value(st, cond, t.rows, cols)
                        })
                    },
                }
            }),
    {
        let buffer = tensor_buf(time_embedding)?;
        let plan = plan_styles(&self.weights)?;
        let rows: i64 = time_embedding.dims[0] as i64;
        let width: i64 = time_embedding.dims[1] as i64;
        let ghost st = self.state();
        proof {
            self.backend.ctx.lemma_safe();
        }
        let out = run_step_styles(
            &mut self.backend.ctx,
            &mut self.caches,
            &buffer,
            rows,
            width,
            &plan,
        );
        let styles = wrap_styles(&self.backend, &out);
        proof {
            lemma_prepared_styles(st, self.state(), self.weights, time_embedding@, styles);
        }
        Ok(styles)
    }

    /// Compute the styles of all steps. Errors are found before anything is
    /// recorded.
    pub fn prepare_all_styles(&mut self, time_embeddings: &[Tensor]) -> (r: Result<
        Vec<AscendStepStyles>,
        Error,
    >)
        requires
            old(self).wf(),
            style_axes(old(self).weights),
            time_axes(time_embeddings@),
            all_styles_error(
                old(self).config.num_flow_steps,
                old(self).weights,
                time_embeddings@,
            ) is None ==> forall|i: int|
                0 <= i < time_embeddings@.len() ==> time_ready(
                    style_weights(old(self).weights),
                    old(self).state(),
                    time_of((#[trigger] time_embeddings@[i])@),
                ),
        ensures
            ({
                let w = style_weights(old(self).weights);
                let times = times_of(time_embeddings@);
                let st = old(self).state();
                let error = all_styles_error(
                    old(self).config.num_flow_steps,
                    old(self).weights,
                    time_embeddings@,
                );
                match r {
                    Err(e) => error == Some(e@) && *final(self) == *old(self),
                    Ok(styles) => {
                        &&& error is None
                        &&& final(self).wf()
                        &&& final(self).same_model(*old(self))
                        &&& final(self).backend.spec_device()
                            == old(self).backend.spec_device()
                        &&& caches_kept(
                            old(self).caches,
                            final(self).caches,
                            final(self).state(),
                        )
                        &&& styles@.len() == times.len()
                        &&& forall|i: int|
                            0 <= i < styles@.len() ==> are_styles(
                                old(self).backend.spec_device(),
                                #[trigger] styles@[i],
                            ) && sized(w, step_styles(styles@[i]), times[i].rows)
                        &&& owns(
                            st,
                            final(self).state(),
                            all_style_items(
                                w,
                                flow_styles(styles@),
                                st,
                                times,
                                times.len(),
                            ),
                        )
                    },
                }
            }),
    {
        let (plan, times) = check_times(
            self.config.num_flow_steps,
            &self.weights,
            time_embeddings,
        )?;
        let plan = match plan {
            Some(p) => p,
            None => {
                proof {
                    crate::executor::frame::lemma_owns_nothing(self.state());
                    self.caches.lemma_stable(self.state(), self.state());
                }
                return Ok(Vec::new());
            },
        };
        proof {
            assert forall|i: int| 0 <= i < times@.len() implies time_ready(
                plan@,
                self.state(),
                #[trigger] times@[i],
            ) by {
                assert(times@[i] == time_of(time_embeddings@[i]@));
            }
        }
        let bufs = run_all_styles(&mut self.backend.ctx, &mut self.caches, &times, &plan);
        let mut out: Vec<AscendStepStyles> = Vec::new();
        let mut i: usize = 0;
        while i < bufs.len()
            invariant
                i <= bufs@.len(),
                out@.len() == i,
                forall|j: int|
                    0 <= j < i ==> step_styles(#[trigger] out@[j]) == bufs@[j]@ && are_styles(
                        self.backend.spec_device(),
                        out@[j],
                    ),
            decreases bufs@.len() - i,
        {
            out.push(wrap_styles(&self.backend, &bufs[i]));
            i = i + 1;
        }
        proof {
            assert(flow_styles(out@) =~= styles_of(bufs@));
            assert forall|k: int| 0 <= k < out@.len() implies are_styles(
                old(self).backend.spec_device(),
                #[trigger] out@[k],
            ) && sized(plan@, step_styles(out@[k]), times@[k].rows) by {
                assert(step_styles(out@[k]) == bufs@[k]@);
            }
        }
        Ok(out)
    }
}

} // verus!
