//! A whole inference on buffers.

use vstd::prelude::*;

use crate::backend::AscendBackend;
use crate::device::DeviceBuffer;
use crate::executor::action::{
    is_rows, lemma_prefix_there, prefix_fits, prefix_rows, prefix_there,
};
use crate::executor::attention::{lemma_attention_sizes, AttentionShape};
use crate::executor::caches::{caches_kept, AscendCaches};
use crate::executor::frame::{
    drop_all, lemma_keeps_then, lemma_owns, lemma_owns_one, lemma_owns_swap, lemma_owns_then,
    owns, Item,
};
use crate::executor::language::LanguageBuffers;
use crate::runtime::denoise::{
    flow, layers_there, lemma_body_same, lemma_flow_same, lemma_step_ready, lemma_styles_there, run_flow, style_values,
    styles_there, values_of, ActionStack, ActionWeights, PrefixValues, StepShape, StyleValues,
};
use crate::runtime::prefix::{
    kv_items, lemma_kv_at, lemma_kv_same, lemma_layers_same, list_prefix, prefix_keys,
    prefix_value, prefix_values, run_embed, run_prefix, table_ready, Prefix, PrefixBuffers,
};
use crate::runtime::prepare::{all_made_styles, lemma_made, styles_fit};
use crate::runtime::styles::{
    all_style_items, lemma_style_buffers, list_styles, run_all_styles, sized, styles_of,
    time_ready, StyleBuffers, StylePlan, TimeBuffer,
};
use crate::runtime::vision::{lemma_tower_same, run_vision, VisionPlan, VisionTower};
use crate::semantics::{
    delivers, is_lasting, keeps, lemma_delivers, DeviceState, SymByte,
};
use crate::tensor::{fits, lemma_fits};

verus! {

/// The buffers and sizes of the prefix: vision tower, token table and language
/// layers.
#[derive(Debug)]
pub struct PrefixPlan {
    pub vision: VisionPlan,
    pub table: DeviceBuffer,
    pub vocab: i64,
    pub layers: Vec<LanguageBuffers>,
    /// The sizes of a language layer.
    pub shape: AttentionShape,
    /// A single-precision pattern.
    pub eps: u32,
}

/// What a [`PrefixPlan`] says.
pub struct PrefixModel {
    pub vision: VisionTower,
    pub table: DeviceBuffer,
    pub vocab: i64,
    pub layers: Seq<LanguageBuffers>,
    pub shape: AttentionShape,
    pub eps: u32,
}

impl View for PrefixPlan {
    type V = PrefixModel;

    open spec fn view(&self) -> PrefixModel {
        PrefixModel {
            vision: self.vision@,
            table: self.table,
            vocab: self.vocab,
            layers: self.layers@,
            shape: self.shape,
            eps: self.eps,
        }
    }
}

impl PrefixModel {
    /// Everything is there and fits together.
    pub open spec fn ready(self, st: DeviceState, patches: DeviceBuffer, count: nat) -> bool {
        let rows = self.vision.shape.tokens;
        let width = self.vision.out_width;
        &&& self.vision.ready(st, patches)
        &&& table_ready(st, rows, self.table, self.vocab, width, count)
        &&& self.shape.fits()
        &&& self.shape.tokens == rows + count
        &&& forall|i: int|
            0 <= i < self.layers.len() ==> (#[trigger] self.layers[i]).weights_ready(
                st,
                self.shape,
                width,
            )
    }

    /// The rows that go into the language layers.
    pub open spec fn input(
        self,
        st: DeviceState,
        patches: Seq<SymByte>,
        ids: Seq<u32>,
    ) -> Seq<SymByte> {
        prefix_value(
            self.vision.value(st, patches),
            self.vision.shape.tokens,
            st.value(self.table),
            self.vocab,
            self.vision.out_width,
            ids,
        )
    }

    /// Keys and values of the language layers.
    pub open spec fn values(
        self,
        st: DeviceState,
        patches: Seq<SymByte>,
        ids: Seq<u32>,
        max_pos: usize,
    ) -> PrefixValues {
        let x = self.input(st, patches, ids);
        let width = self.vision.out_width;
        PrefixValues {
            keys: Seq::new(
                self.layers.len(),
                |i: int|
                    prefix_keys(st, x, self.layers, self.shape, width, self.eps, max_pos, i),
            ),
            values: Seq::new(
                self.layers.len(),
                |i: int|
                    prefix_values(st, x, self.layers, self.shape, width, self.eps, max_pos, i),
            ),
            rows: Seq::new(self.layers.len(), |i: int| self.shape.tokens),
        }
    }
}

/// The prefix in device memory: vision rows, prefix rows, keys and values.
pub open spec fn prefix_items(
    model: PrefixModel,
    vision: DeviceBuffer,
    rows: DeviceBuffer,
    prefix: Prefix,
    st: DeviceState,
    patches: Seq<SymByte>,
    ids: Seq<u32>,
    max_pos: usize,
) -> Seq<Item> {
    seq![
        (vision, model.vision.value(st, patches)),
        (rows, model.input(st, patches, ids)),
    ] + kv_items(
        prefix.keys,
        prefix.values,
        st,
        model.input(st, patches, ids),
        model.layers,
        model.shape,
        model.vision.out_width,
        model.eps,
        max_pos,
        model.layers.len(),
    )
}

/// Keys and values that were made hold what they should.
proof fn lemma_kv_values(
    model: PrefixModel,
    vision: DeviceBuffer,
    rows: DeviceBuffer,
    prefix: Prefix,
    before: DeviceState,
    after: DeviceState,
    patches: Seq<SymByte>,
    ids: Seq<u32>,
    max_pos: usize,
)
    requires
        before.sane(),
        prefix.keys.len() == model.layers.len(),
        prefix.values.len() == model.layers.len(),
        owns(
            before,
            after,
            prefix_items(model, vision, rows, prefix, before, patches, ids, max_pos),
        ),
    ensures
        values_of(after, prefix.keys) == model.values(before, patches, ids, max_pos).keys,
        values_of(after, prefix.values) == model.values(before, patches, ids, max_pos).values,
        forall|i: int|
            0 <= i < prefix.keys.len() ==> after.holds(#[trigger] prefix.keys[i]) && is_lasting(
                prefix.keys[i],
            ),
        forall|i: int|
            0 <= i < prefix.values.len() ==> after.holds(#[trigger] prefix.values[i])
                && is_lasting(prefix.values[i]),
{
    let items = prefix_items(model, vision, rows, prefix, before, patches, ids, max_pos);
    let x = model.input(before, patches, ids);
    lemma_owns(before, after, items);
    assert forall|i: int| 0 <= i < prefix.keys.len() implies after.holds(
        #[trigger] prefix.keys[i],
    ) && is_lasting(prefix.keys[i]) && after.value(prefix.keys[i]) == prefix_keys(
        before,
        x,
        model.layers,
        model.shape,
        model.vision.out_width,
        model.eps,
        max_pos,
        i,
    ) by {
        assert((2 * i + 1) / 2 == i && (2 * i + 1) % 2 == 1);
        assert(items[2 + (2 * i + 1)].0 == prefix.keys[i]);
    }
    assert forall|i: int| 0 <= i < prefix.values.len() implies after.holds(
        #[trigger] prefix.values[i],
    ) && is_lasting(prefix.values[i]) && after.value(prefix.values[i]) == prefix_values(
        before,
        x,
        model.layers,
        model.shape,
        model.vision.out_width,
        model.eps,
        max_pos,
        i,
    ) by {
        assert((2 * i) / 2 == i && (2 * i) % 2 == 0);
        assert(items[2 + 2 * i].0 == prefix.values[i]);
    }
    let vals = model.values(before, patches, ids, max_pos);
    assert(values_of(after, prefix.keys) =~= vals.keys);
    assert(values_of(after, prefix.values) =~= vals.values);
}

/// Make the prefix. Returns vision rows, prefix rows, and keys and values.
fn make_prefix(
    be: &mut AscendBackend,
    caches: &mut AscendCaches,
    patches: &DeviceBuffer,
    ids: &[u32],
    plan: &PrefixPlan,
) -> (out: (DeviceBuffer, DeviceBuffer, PrefixBuffers))
    requires
        old(be).wf(),
        old(caches).wf(old(be).state()),
        plan@.ready(old(be).state(), *patches, ids@.len()),
    ensures
        final(be).wf(),
        final(be).spec_device() == old(be).spec_device(),
        caches_kept(*old(caches), *final(caches), final(be).state()),
        out.2.keys@.len() == plan.layers@.len(),
        out.2.values@.len() == plan.layers@.len(),
        forall|i: int|
            0 <= i < plan.layers@.len() ==> (#[trigger] out.2.keys@[i]).len == plan.shape.tokens
                * plan.shape.kv_d() * 2,
        forall|i: int|
            0 <= i < plan.layers@.len() ==> (#[trigger] out.2.values@[i]).len
                == plan.shape.tokens * plan.shape.kv_d() * 2,
        owns(
            old(be).state(),
            final(be).state(),
            prefix_items(
                plan@,
                out.0,
                out.1,
                out.2@,
                old(be).state(),
                old(be).state().value(*patches),
                ids@,
                plan.shape.table_span(*old(caches)),
            ),
        ),
{
    let ghost s0 = be.state();
    let ghost pv = s0.value(*patches);
    let ghost mp = plan.shape.table_span(*caches);
    let tokens: i64 = plan.vision.shape.tokens;
    let width: i64 = plan.vision.out_width;
    proof {
        be.ctx.lemma_safe();
    }
    let vision = run_vision(be, caches, patches, &plan.vision);
    let ghost s1 = be.state();
    let ghost vv = plan@.vision.value(s0, pv);
    proof {
        be.ctx.lemma_safe();
        lemma_delivers(s0, s1, vision, vv);
        lemma_fits(tokens, width);
        assert(s1.value(plan.table) == s0.value(plan.table));
    }
    let rows = run_embed(
        be,
        caches,
        &vision,
        tokens,
        &plan.table,
        plan.vocab,
        width,
        ids,
    );
    let ghost s2 = be.state();
    let ghost xv = plan@.input(s0, pv, ids@);
    proof {
        be.ctx.lemma_safe();
        lemma_delivers(s1, s2, rows, xv);
        lemma_keeps_then(s0, s1, s2);
        lemma_fits(plan.shape.tokens, width);
        lemma_layers_same(plan@.layers, s0, s2, plan.shape, width);
    }
    let kv = run_prefix(be, caches, &rows, &plan.layers, plan.shape, width, plan.eps);
    proof {
        let s3 = be.state();
        lemma_owns_one(s0, s1, vision, vv);
        lemma_owns_one(s1, s2, rows, xv);
        lemma_owns_then(s0, s1, s2, seq![(vision, vv)], seq![(rows, xv)]);
        let first = seq![(vision, vv)] + seq![(rows, xv)];
        let last = kv_items(
            kv.keys@,
            kv.values@,
            s0,
            xv,
            plan.layers@,
            plan.shape,
            width,
            plan.eps,
            mp,
            plan.layers@.len(),
        );
        lemma_kv_same(
            kv@,
            s0,
            s2,
            xv,
            plan.layers@,
            plan.shape,
            width,
            plan.eps,
            mp,
        );
        lemma_owns_then(s0, s2, s3, first, last);
        assert(first + last =~= prefix_items(plan@, vision, rows, kv@, s0, pv, ids@, mp));
    }
    (vision, rows, kv)
}

/// What a whole inference computes.
pub open spec fn inference(
    model: PrefixModel,
    stack: ActionWeights,
    st: DeviceState,
    patches: Seq<SymByte>,
    ids: Seq<u32>,
    noise: Seq<SymByte>,
    styles: Seq<StyleValues>,
    shape: StepShape,
    language_span: usize,
    action_span: usize,
    dt: u32,
) -> Seq<SymByte> {
    flow(
        stack,
        st,
        noise,
        styles,
        model.values(st, patches, ids, language_span),
        shape,
        action_span,
        dt,
        styles.len(),
    )
}

/// The action expert fits to the prefix.
pub open spec fn expert_fits(
    model: PrefixModel,
    stack: ActionWeights,
    st: DeviceState,
    noise: DeviceBuffer,
    shape: StepShape,
) -> bool {
    &&& stack.body_ready(st, shape)
    &&& stack.layers.len() == model.layers.len()
    &&& model.shape.kv_d() == shape.attention.kv_d()
    &&& prefix_fits(model.shape.tokens, shape.attention)
    &&& is_rows(st, noise, shape.attention.tokens, shape.state_width)
}

/// Run the flow over a prefix that was made.
fn flow_over(
    be: &mut AscendBackend,
    caches: &mut AscendCaches,
    noise: &DeviceBuffer,
    stack: &ActionStack,
    styles: &Vec<StyleBuffers>,
    prefix: &PrefixBuffers,
    shape: StepShape,
    dt: u32,
    start: Ghost<DeviceState>,
) -> (out: DeviceBuffer)
    requires
        old(be).wf(),
        old(caches).wf(old(be).state()),
        start@.sane(),
        keeps(start@, old(be).state()),
        forall|b: DeviceBuffer|
            start@.holds(b) && is_lasting(b) ==> #[trigger] old(be).state().holds(b),
        forall|b: DeviceBuffer|
            start@.holds(b) && is_lasting(b) ==> #[trigger] old(be).state().value(b)
                == start@.value(b),
        styles@.len() > 0,
        stack@.body_ready(start@, shape),
        is_rows(start@, *noise, shape.attention.tokens, shape.state_width),
        forall|k: int|
            0 <= k < styles@.len() ==> styles_there(
                start@,
                (#[trigger] styles@[k])@,
                stack.layers@.len(),
                stack@.width(),
            ),
        layers_there(old(be).state(), prefix@, stack.layers@.len(), shape.attention),
    ensures
        final(be).wf(),
        final(be).spec_device() == old(be).spec_device(),
        caches_kept(*old(caches), *final(caches), final(be).state()),
        out.len == noise.len,
        delivers(
            old(be).state(),
            final(be).state(),
            out,
            flow(
                stack@,
                start@,
                start@.value(*noise),
                style_values(start@, styles_of(styles@)),
                prefix@.values(old(be).state(), shape.attention.kv_d()),
                shape,
                shape.attention.table_span(*final(caches)),
                dt,
                styles@.len(),
            ),
        ),
{
    let ghost s0 = start@;
    let ghost s1 = be.state();
    proof {
        be.ctx.lemma_safe();
        lemma_body_same(stack@, s0, s1, shape);
        let depth = stack.layers@.len();
        assert forall|k: int| 0 <= k < styles@.len() implies stack@.ready(
            s1,
            (#[trigger] styles@[k])@,
            prefix@,
            shape,
        ) && styles@[k]@.values(s1) == styles@[k]@.values(s0) by {
            lemma_styles_there(s0, s1, styles@[k]@, depth, stack@.width());
            lemma_step_ready(stack@, s1, styles@[k]@, prefix@, shape);
        }
        assert(style_values(s1, styles_of(styles@)) =~= style_values(s0, styles_of(styles@)));
    }
    let out = run_flow(be, caches, noise, stack, styles, prefix, shape, dt);
    proof {
        lemma_flow_same(
            stack@,
            s0,
            s1,
            s0.value(*noise),
            style_values(s0, styles_of(styles@)),
            prefix@.values(s1, shape.attention.kv_d()),
            shape,
            shape.attention.table_span(*caches),
            dt,
            styles@.len(),
        );
    }
    out
}

/// Run a whole inference. Without a flow step the result is the noise itself.
pub fn run_infer(
    be: &mut AscendBackend,
    caches: &mut AscendCaches,
    patches: &DeviceBuffer,
    ids: &[u32],
    noise: &DeviceBuffer,
    plan: &PrefixPlan,
    stack: &Option<ActionStack>,
    styles: &Vec<StyleBuffers>,
    shape: StepShape,
    dt: u32,
) -> (out: DeviceBuffer)
    requires
        old(be).wf(),
        old(caches).wf(old(be).state()),
        plan@.ready(old(be).state(), *patches, ids@.len()),
        (stack is Some) == (styles@.len() > 0),
        stack matches Some(s) ==> {
            &&& expert_fits(plan@, s@, old(be).state(), *noise, shape)
            &&& forall|k: int|
                0 <= k < styles@.len() ==> styles_there(
                    old(be).state(),
                    (#[trigger] styles@[k])@,
                    s.layers@.len(),
                    s@.width(),
                )
        },
    ensures
        final(be).wf(),
        final(be).spec_device() == old(be).spec_device(),
        caches_kept(*old(caches), *final(caches), final(be).state()),
        stack is None ==> out == *noise && owns(
            old(be).state(),
            final(be).state(),
            Seq::<Item>::empty(),
        ),
        stack matches Some(s) ==> out.len == noise.len && delivers(
            old(be).state(),
            final(be).state(),
            out,
            inference(
                plan@,
                s@,
                old(be).state(),
                old(be).state().value(*patches),
                ids@,
                old(be).state().value(*noise),
                style_values(old(be).state(), styles_of(styles@)),
                shape,
                plan.shape.table_span(*old(caches)),
                shape.attention.table_span(*final(caches)),
                dt,
            ),
        ),
{
    let ghost s0 = be.state();
    let ghost pv = s0.value(*patches);
    let ghost mp = plan.shape.table_span(*caches);
    proof {
        be.ctx.lemma_safe();
        lemma_attention_sizes(plan.shape);
    }
    let (vision, rows, kv) = make_prefix(be, caches, patches, ids, plan);
    let ghost s1 = be.state();
    let ghost items = prefix_items(plan@, vision, rows, kv@, s0, pv, ids@, mp);
    let ghost vals = plan@.values(s0, pv, ids@, mp);
    let mut bufs = list_prefix(&kv);
    let ghost listed = bufs@;
    bufs.insert(0, rows);
    bufs.insert(0, vision);
    proof {
        be.ctx.lemma_safe();
        lemma_owns(s0, s1, items);
        lemma_kv_values(plan@, vision, rows, kv@, s0, s1, pv, ids@, mp);
        assert(bufs@ =~= seq![vision, rows] + listed);
        assert forall|j: int| 0 <= j < items.len() implies (#[trigger] items[j]).0 == bufs@[j] by {
            if j >= 2 {
                assert(bufs@[j] == listed[j - 2]);
            }
        }
    }
    match stack {
        None => {
            let ghost k1 = *caches;
            proof {
                assert(Seq::<Item>::empty() + items =~= items);
            }
            drop_all(
                &mut be.ctx,
                &bufs,
                Ghost(s0),
                Ghost(Seq::<Item>::empty()),
                Ghost(items),
            );
            proof {
                k1.lemma_stable(s1, be.state());
            }
            *noise
        },
        Some(s) => {
            proof {
                let d = shape.attention.kv_d();
                let depth = s.layers@.len();
                assert(s@.layers[0].body_ready(s0, shape.attention, s@.width()));
                assert forall|i: int| 0 <= i < depth implies prefix_there(
                    s1,
                    #[trigger] kv@.keys[i],
                    kv@.values[i],
                    shape.attention,
                ) && prefix_rows(kv@.keys[i], d) == plan.shape.tokens by {
                    assert(s1.holds(kv@.values[i]));
                    lemma_prefix_there(
                        s1,
                        kv@.keys[i],
                        kv@.values[i],
                        shape.attention,
                        plan.shape.tokens,
                    );
                }
                assert(kv@.values(s1, d).rows =~= vals.rows);
                assert(kv@.values(s1, d) == vals);
            }
            let out = flow_over(be, caches, noise, s, styles, &kv, shape, dt, Ghost(s0));
            let ghost s2 = be.state();
            let ghost k2 = *caches;
            let ghost value = inference(
                plan@,
                s@,
                s0,
                pv,
                ids@,
                s0.value(*noise),
                style_values(s0, styles_of(styles@)),
                shape,
                mp,
                shape.attention.table_span(*caches),
                dt,
            );
            proof {
                be.ctx.lemma_safe();
                lemma_owns_one(s1, s2, out, value);
                lemma_owns_then(s0, s1, s2, items, seq![(out, value)]);
                lemma_owns_swap(s0, s2, items, seq![(out, value)]);
            }
            let ghost kept = seq![(out, value)];
            drop_all(&mut be.ctx, &bufs, Ghost(s0), Ghost(kept), Ghost(items));
            proof {
                k2.lemma_stable(s2, be.state());
                lemma_owns_one(s0, be.state(), out, value);
            }
            out
        },
    }
}

/// The prefix is the same in a later state.
proof fn lemma_model_same(
    model: PrefixModel,
    before: DeviceState,
    after: DeviceState,
    patches: DeviceBuffer,
    ids: Seq<u32>,
    max_pos: usize,
)
    requires
        before.sane(),
        keeps(before, after),
        model.ready(before, patches, ids.len()),
        forall|b: DeviceBuffer| before.holds(b) && is_lasting(b) ==> #[trigger] after.holds(b),
        forall|b: DeviceBuffer|
            before.holds(b) && is_lasting(b) ==> #[trigger] after.value(b) == before.value(b),
    ensures
        model.ready(after, patches, ids.len()),
        after.value(patches) == before.value(patches),
        model.values(after, before.value(patches), ids, max_pos) == model.values(
            before,
            before.value(patches),
            ids,
            max_pos,
        ),
{
    let p = before.value(patches);
    let width = model.vision.out_width;
    lemma_tower_same(model.vision, before, after, patches, p);
    lemma_layers_same(model.layers, before, after, model.shape, width);
    assert(after.value(model.table) == before.value(model.table));
    let x = model.input(before, p, ids);
    assert(model.input(after, p, ids) == x);
    let a = model.values(after, p, ids, max_pos);
    let b = model.values(before, p, ids, max_pos);
    assert forall|i: int| 0 <= i < model.layers.len() implies a.keys[i] == b.keys[i] && a.values[i]
        == b.values[i] by {
        lemma_kv_at(model.layers, before, after, x, model.shape, width, model.eps, max_pos, i);
    }
    assert(a.keys =~= b.keys);
    assert(a.values =~= b.values);
}

/// Run a whole inference that makes its own styles. Without a flow step the result
/// is the noise itself.
pub fn run_styled_infer(
    be: &mut AscendBackend,
    caches: &mut AscendCaches,
    patches: &DeviceBuffer,
    ids: &[u32],
    noise: &DeviceBuffer,
    plan: &PrefixPlan,
    stack: &Option<ActionStack>,
    style_plan: &StylePlan,
    times: &Vec<TimeBuffer>,
    shape: StepShape,
    dt: u32,
) -> (out: DeviceBuffer)
    requires
        old(be).wf(),
        old(caches).wf(old(be).state()),
        plan@.ready(old(be).state(), *patches, ids@.len()),
        (stack is Some) == (times@.len() > 0),
        forall|i: int|
            0 <= i < times@.len() ==> time_ready(
                style_plan@,
                old(be).state(),
                #[trigger] times@[i],
            ),
        stack matches Some(s) ==> {
            &&& expert_fits(plan@, s@, old(be).state(), *noise, shape)
            &&& s.layers@.len() == style_plan.layers@.len()
            &&& forall|i: int|
                0 <= i < times@.len() ==> styles_fit(
                    style_plan@,
                    (#[trigger] times@[i]).rows,
                    s@.width(),
                )
        },
    ensures
        final(be).wf(),
        final(be).spec_device() == old(be).spec_device(),
        caches_kept(*old(caches), *final(caches), final(be).state()),
        stack is None ==> out == *noise && owns(
            old(be).state(),
            final(be).state(),
            Seq::<Item>::empty(),
        ),
        stack matches Some(s) ==> out.len == noise.len && delivers(
            old(be).state(),
            final(be).state(),
            out,
            inference(
                plan@,
                s@,
                old(be).state(),
                old(be).state().value(*patches),
                ids@,
                old(be).state().value(*noise),
                all_made_styles(style_plan@, old(be).state(), times@),
                shape,
                plan.shape.table_span(*old(caches)),
                shape.attention.table_span(*final(caches)),
                dt,
            ),
        ),
{
    let ghost s0 = be.state();
    let ghost mp = plan.shape.table_span(*caches);
    proof {
        be.ctx.lemma_safe();
    }
    let styles = run_all_styles(&mut be.ctx, caches, times, style_plan);
    let ghost s1 = be.state();
    let ghost all = styles_of(styles@);
    let ghost items = all_style_items(style_plan@, all, s0, times@, times@.len());
    let ghost made = all_made_styles(style_plan@, s0, times@);
    proof {
        be.ctx.lemma_safe();
        lemma_owns(s0, s1, items);
        lemma_model_same(plan@, s0, s1, *patches, ids@, mp);
        assert forall|i: int| 0 <= i < times@.len() implies sized(
            style_plan@,
            #[trigger] all[i],
            times@[i].rows,
        ) by {
            assert(all[i] == styles@[i]@);
        }
        match stack {
            Some(s) => {
                lemma_made(style_plan@, all, s0, s1, times@, s@.width());
                lemma_body_same(s@, s0, s1, shape);
                assert forall|k: int| 0 <= k < styles@.len() implies styles_there(
                    s1,
                    (#[trigger] styles@[k])@,
                    s.layers@.len(),
                    s@.width(),
                ) by {
                    assert(all[k] == styles@[k]@);
                }
            },
            None => {},
        }
    }
    let out = run_infer(be, caches, patches, ids, noise, plan, stack, &styles, shape, dt);
    let ghost s2 = be.state();
    let ghost k2 = *caches;
    proof {
        be.ctx.lemma_safe();
        assert forall|i: int| 0 <= i < styles@.len() implies (
        #[trigger] styles@[i]).attention@.len() == styles@[i].mlp@.len() by {
            assert(sized(style_plan@, all[i], times@[i].rows));
            assert(all[i] == styles@[i]@);
        }
        lemma_style_buffers(style_plan@, all, s0, times@, times@.len());
    }
    let bufs = list_styles(&styles);
    let ghost mut kept: Seq<Item> = Seq::empty();
    proof {
        match stack {
            Some(s) => {
                let span = shape.attention.table_span(*caches);
                let value = inference(
                    plan@,
                    s@,
                    s0,
                    s0.value(*patches),
                    ids@,
                    s0.value(*noise),
                    made,
                    shape,
                    mp,
                    span,
                    dt,
                );
                lemma_flow_same(
                    s@,
                    s0,
                    s1,
                    s0.value(*noise),
                    made,
                    plan@.values(s0, s0.value(*patches), ids@, mp),
                    shape,
                    span,
                    dt,
                    times@.len(),
                );
                lemma_owns_one(s1, s2, out, value);
                kept = seq![(out, value)];
            },
            None => {},
        }
        lemma_owns_then(s0, s1, s2, items, kept);
        lemma_owns_swap(s0, s2, items, kept);
    }
    drop_all(&mut be.ctx, &bufs, Ghost(s0), Ghost(kept), Ghost(items));
    proof {
        k2.lemma_stable(s2, be.state());
        match stack {
            Some(s) => {
                lemma_owns_one(s0, be.state(), out, kept[0].1);
            },
            None => {},
        }
    }
    out
}

} // verus!
