//! Flow steps that prepare their own styles, and whole inferences, on tensors.

use vstd::prelude::*;

use crate::backend::{dims_fit, held, produced, AscendBackend};
use crate::device::DeviceBuffer;
use crate::error::{first_error, first_of, Error, ErrorView};
use crate::executor::action::is_rows;
use crate::executor::attention::AttentionShape;
use crate::executor::caches::{caches_kept, AscendCaches};
use crate::executor::frame::{
    drop_all, lemma_owns, lemma_owns_one, lemma_owns_swap, lemma_owns_then, owns, Item,
};
use crate::executor::language::{attention_shape, config_fits};
use crate::model::{tensor_buf, Pi05Config, StaticBf16Pi05Weights, Tensor, TensorInfo};
use crate::ops::laws::word;
use crate::ops::words::{plus_word, scaled_word};
use crate::runtime::denoise::{
    flow, layers_there, lemma_body_same, lemma_flow_same, lemma_layers_there, lemma_step_ready,
    run_flow, style_values, styles_there, ActionStack, ActionWeights, StepShape,
};
use crate::runtime::flow::{
    action_weights, check_step, check_steps, collect_prefix, expert_axes, flow_styles,
    make_step_shape, prefix_buffers, step_error, step_shape, step_styles, steps_error,
};
use crate::runtime::infer::{
    expert_fits, inference, run_infer, run_styled_infer, PrefixModel, PrefixPlan,
};
use crate::runtime::pi05::{
    check_token_count, token_count_error, AscendPrefixKvCache, AscendStepStyles,
    Pi05AscendRuntime,
};
use crate::runtime::prefix::{
    language_layer_buffers, language_layer_errors, plan_language, PrefixBuffers,
};
use crate::runtime::prepare::{
    all_made_styles, all_styles_error, check_times, lemma_made, made_styles, prepare_error,
    styles_fit, time_axes, time_of, times_of,
};
use crate::runtime::styles::{
    all_style_items, lemma_style_buffers, linear_layer, list_styles, plan_styles, run_all_styles, sized,
    style_axes, style_weights, styles_of, time_ready, StylePlan, StyleWeights, TimeBuffer,
};
use crate::runtime::vision::{plan_vision, vision_axes, vision_tower, vision_tower_error};
use crate::runtime::words::lemma_step_delivered;
use crate::semantics::{delivers, DeviceState};

verus! {

/// Weights, time embeddings, prefix and state make flow steps.
pub open spec fn made_flow_ready(
    st: DeviceState,
    state: DeviceBuffer,
    stack: ActionWeights,
    styles: StyleWeights,
    times: Seq<TimeBuffer>,
    prefix: crate::runtime::prefix::Prefix,
    shape: StepShape,
) -> bool {
    &&& stack.body_ready(st, shape)
    &&& stack.layers.len() == styles.layers.len()
    &&& layers_there(st, prefix, stack.layers.len(), shape.attention)
    &&& is_rows(st, state, shape.attention.tokens, shape.state_width)
    &&& forall|i: int|
        0 <= i < times.len() ==> time_ready(styles, st, #[trigger] times[i]) && styles_fit(
            styles,
            times[i].rows,
            stack.width(),
        )
}

/// Make the styles of some steps, run the steps, and release the styles.
fn run_made_flow(
    be: &mut AscendBackend,
    caches: &mut AscendCaches,
    noise: &DeviceBuffer,
    stack: &ActionStack,
    plan: &StylePlan,
    times: &Vec<TimeBuffer>,
    prefix: &PrefixBuffers,
    shape: StepShape,
    dt: u32,
) -> (out: DeviceBuffer)
    requires
        old(be).wf(),
        old(caches).wf(old(be).state()),
        times@.len() > 0,
        made_flow_ready(
            old(be).state(),
            *noise,
            stack@,
            plan@,
            times@,
            prefix@,
            shape,
        ),
    ensures
        final(be).wf(),
        final(be).spec_device() == old(be).spec_device(),
        caches_kept(*old(caches), *final(caches), final(be).state()),
        out.len == noise.len,
        delivers(
            old(be).state(),
            final(be).state(),
            out,
            flow(
                stack@,
                old(be).state(),
                old(be).state().value(*noise),
                all_made_styles(plan@, old(be).state(), times@),
                prefix@.values(old(be).state(), shape.attention.kv_d()),
                shape,
                shape.attention.table_span(*old(caches)),
                dt,
                times@.len(),
            ),
        ),
{
    let ghost s0 = be.state();
    let ghost mp = shape.attention.table_span(*caches);
    let ghost depth = stack.layers@.len();
    proof {
        be.ctx.lemma_safe();
    }
    let styles = run_all_styles(&mut be.ctx, caches, times, plan);
    let ghost s1 = be.state();
    let ghost all = styles_of(styles@);
    let ghost items = all_style_items(plan@, all, s0, times@, times@.len());
    let ghost made = all_made_styles(plan@, s0, times@);
    let ghost pv = prefix@.values(s0, shape.attention.kv_d());
    proof {
        be.ctx.lemma_safe();
        lemma_owns(s0, s1, items);
        assert forall|i: int| 0 <= i < times@.len() implies sized(
            plan@,
            #[trigger] all[i],
            times@[i].rows,
        ) by {
            assert(all[i] == styles@[i]@);
        }
        lemma_made(plan@, all, s0, s1, times@, stack@.width());
        lemma_body_same(stack@, s0, s1, shape);
        lemma_layers_there(s0, s1, prefix@, depth, shape.attention);
        assert forall|k: int| 0 <= k < styles@.len() implies stack@.ready(
            s1,
            (#[trigger] styles@[k])@,
            prefix@,
            shape,
        ) by {
            assert(all[k] == styles@[k]@);
            assert(styles_there(s1, all[k], depth, stack@.width()));
            lemma_step_ready(stack@, s1, all[k], prefix@, shape);
        }
    }
    let out = run_flow(be, caches, noise, stack, &styles, prefix, shape, dt);
    let ghost s2 = be.state();
    let ghost k2 = *caches;
    let ghost value = flow(
        stack@,
        s0,
        s0.value(*noise),
        made,
        pv,
        shape,
        mp,
        dt,
        times@.len(),
    );
    let ghost kept = seq![(out, value)];
    proof {
        be.ctx.lemma_safe();
        lemma_flow_same(
            stack@,
            s0,
            s1,
            s0.value(*noise),
            made,
            pv,
            shape,
            mp,
            dt,
            times@.len(),
        );
        lemma_owns_one(s1, s2, out, value);
        lemma_owns_then(s0, s1, s2, items, kept);
        lemma_owns_swap(s0, s2, items, kept);
        assert forall|i: int| 0 <= i < styles@.len() implies (
        #[trigger] styles@[i]).attention@.len() == styles@[i].mlp@.len() by {
            assert(sized(plan@, all[i], times@[i].rows));
            assert(all[i] == styles@[i]@);
        }
        lemma_style_buffers(plan@, all, s0, times@, times@.len());
    }
    let bufs = list_styles(&styles);
    drop_all(&mut be.ctx, &bufs, Ghost(s0), Ghost(kept), Ghost(items));
    proof {
        k2.lemma_stable(s2, be.state());
        lemma_owns_one(s0, be.state(), out, value);
    }
    out
}

/// What is wrong with a step that prepares its own styles.
pub open spec fn styled_step_error(
    config: Pi05Config,
    w: StaticBf16Pi05Weights,
    state: TensorInfo,
    time: TensorInfo,
    prefix: AscendPrefixKvCache,
) -> Option<ErrorView> {
    first_error(
        prepare_error(w, time),
        step_error(config, w, state.residency_error(), None, Some(&prefix)),
    )
}

/// What is wrong with a run of all steps that prepares its own styles.
pub open spec fn styled_steps_error(
    config: Pi05Config,
    w: StaticBf16Pi05Weights,
    noise: TensorInfo,
    times: Seq<Tensor>,
    prefix: Option<&AscendPrefixKvCache>,
) -> Option<ErrorView> {
    first_error(
        all_styles_error(config.num_flow_steps, w, times),
        if times.len() == 0 {
            None
        } else {
            step_error(config, w, noise.residency_error(), None, prefix)
        },
    )
}

impl Pi05AscendRuntime {
    /// One step of the flow from `state`, of size `dt`, with styles from the step's
    /// time embedding. Errors are found before anything is recorded.
    pub fn denoise_step(
        &mut self,
        state: &Tensor,
        time_embedding: &Tensor,
        prefix: &AscendPrefixKvCache,
        dt: u32,
    ) -> (r: Result<Tensor, Error>)
        requires
            old(self).wf(),
            expert_axes(old(self).config, old(self).weights),
            style_axes(old(self).weights),
            state@.dims.len() >= 2,
            dims_fit(state@.dims),
            time_embedding@.dims.len() >= 2,
            dims_fit(time_embedding@.dims),
            styled_step_error(
                old(self).config,
                old(self).weights,
                state@,
                time_embedding@,
                *prefix,
            ) is None ==> made_flow_ready(
                old(self).state(),
                state@.on_device(),
                action_weights(old(self).weights),
                style_weights(old(self).weights),
                seq![time_of(time_embedding@)],
                prefix_buffers(*prefix),
                step_shape(old(self).config, state@.dims[0], state@.dims[1], prefix.tokens),
            ),
        ensures
            ({
                let config = old(self).config;
                let w = old(self).weights;
                let error = styled_step_error(config, w, state@, time_embedding@, *prefix);
                let shape = step_shape(config, state@.dims[0], state@.dims[1], prefix.tokens);
                let st = old(self).state();
                match r {
                    Err(e) => error == Some(e@) && *final(self) == *old(self),
                    Ok(t) => {
                        &&& error is None
                        &&& final(self).wf()
                        &&& final(self).same_model(*old(self))
                        &&& caches_kept(
                            old(self).caches,
                            final(self).caches,
                            final(self).state(),
                        )
                        &&& produced(
                            old(self).backend,
                            final(self).backend,
                            t@,
                            seq![state@.dims[0], w.action_out.weight@.dims[1]],
                            action_weights(w).step(
                                st,
                                held(st, state@),
                                made_styles(style_weights(w), st, time_of(time_embedding@)),
                                prefix_buffers(*prefix).values(st, shape.attention.kv_d()),
                                shape,
                                shape.attention.table_span(old(self).caches),
                                dt,
                            ),
                        )
                        &&& ({
                            let last = action_weights(w).norms(
                                st,
                                held(st, state@),
                                made_styles(style_weights(w), st, time_of(time_embedding@)),
                                prefix_buffers(*prefix).values(st, shape.attention.kv_d()),
                                shape,
                                shape.attention.table_span(old(self).caches),
                                w.action_layers@.len(),
                            );
                            let velocity = linear_layer(w.action_out).value(
                                st,
                                last,
                                shape.attention.tokens,
                                w.action_in.weight@.dims[1] as i64,
                            );
                            forall|e: int|
                                0 <= e < shape.attention.tokens * w.action_out.weight@.dims[1]
                                    ==> #[trigger] word(held(final(self).state(), t@), e)
                                    == plus_word(
                                    word(held(st, state@), e),
                                    scaled_word(word(velocity, e), dt),
                                )
                        })
                    },
                }
            }),
    {
        let buffer = tensor_buf(time_embedding)?;
        let plan = plan_styles(&self.weights)?;
        let stack = check_step(&self.config, &self.weights, Some(state), None, Some(prefix))?;
        let x = tensor_buf(state)?;
        let prefix_bufs = collect_prefix(prefix)?;
        let times: Vec<TimeBuffer> = vec![
            TimeBuffer {
                buffer,
                rows: time_embedding.dims[0] as i64,
                width: time_embedding.dims[1] as i64,
            },
        ];
        assert(times@ =~= seq![time_of(time_embedding@)]);
        let shape = make_step_shape(&self.config, state.dims[0], state.dims[1], prefix.tokens);
        let ghost st = self.state();
        let ghost st0 = st;
        let ghost span = shape.attention.table_span(self.caches);
        proof {
            self.backend.ctx.lemma_safe();
        }
        let out = run_made_flow(
            &mut self.backend,
            &mut self.caches,
            &x,
            &stack,
            &plan,
            &times,
            &prefix_bufs,
            shape,
            dt,
        );
        proof {
            reveal_with_fuel(flow, 2);
            let made = all_made_styles(plan@, st, times@);
            assert(made[0] == made_styles(plan@, st, time_of(time_embedding@)));
        }
        proof {
            lemma_step_delivered(
                st0,
                self.state(),
                out,
                self.weights,
                st0.value(x),
                made_styles(plan@, st, time_of(time_embedding@)),
                prefix_bufs@.values(st0, shape.attention.kv_d()),
                shape,
                span,
                dt,
            );
        }
        let dims: Vec<usize> = vec![state.dims[0], self.weights.action_out.weight.dims[1]];
        assert(dims@ =~= seq![
            state@.dims[0],
            old(self).weights.action_out.weight@.dims[1],
        ]);
        Ok(self.backend.wrap_fp16(out, dims))
    }

    /// All steps of the flow from `noise`, each of size `dt`, with styles from the
    /// steps' time embeddings. Errors are found before anything is recorded.
    pub fn denoise_all_steps(
        &mut self,
        noise: &Tensor,
        time_embeddings: &[Tensor],
        prefix: &AscendPrefixKvCache,
        dt: u32,
    ) -> (r: Result<Tensor, Error>)
        requires
            old(self).wf(),
            expert_axes(old(self).config, old(self).weights),
            style_axes(old(self).weights),
            time_axes(time_embeddings@),
            noise@.dims.len() >= 2,
            dims_fit(noise@.dims),
            styled_steps_error(
                old(self).config,
                old(self).weights,
                noise@,
                time_embeddings@,
                Some(prefix),
            ) is None && time_embeddings@.len() > 0 ==> made_flow_ready(
                old(self).state(),
                noise@.on_device(),
                action_weights(old(self).weights),
                style_weights(old(self).weights),
                times_of(time_embeddings@),
                prefix_buffers(*prefix),
                step_shape(old(self).config, noise@.dims[0], noise@.dims[1], prefix.tokens),
            ),
        ensures
            ({
                let config = old(self).config;
                let w = old(self).weights;
                let error = styled_steps_error(
                    config,
                    w,
                    noise@,
                    time_embeddings@,
                    Some(prefix),
                );
                let shape = step_shape(config, noise@.dims[0], noise@.dims[1], prefix.tokens);
                let st = old(self).state();
                match r {
                    Err(e) => error == Some(e@) && *final(self) == *old(self),
                    Ok(t) => {
                        &&& error is None
                        &&& final(self).wf()
                        &&& final(self).same_model(*old(self))
                        &&& time_embeddings@.len() == 0 ==> t@ == noise@ && *final(self) == *old(
                            self,
                        )
                        &&& time_embeddings@.len() > 0 ==> {
                            &&& caches_kept(
                                old(self).caches,
                                final(self).caches,
                                final(self).state(),
                            )
                            &&& produced(
                                old(self).backend,
                                final(self).backend,
                                t@,
                                seq![noise@.dims[0], w.action_out.weight@.dims[1]],
                                flow(
                                    action_weights(w),
                                    st,
                                    held(st, noise@),
                                    all_made_styles(
                                        style_weights(w),
                                        st,
                                        times_of(time_embeddings@),
                                    ),
                                    prefix_buffers(*prefix).values(st, shape.attention.kv_d()),
                                    shape,
                                    shape.attention.table_span(old(self).caches),
                                    dt,
                                    time_embeddings@.len(),
                                ),
                            )
                        }
                    },
                }
            }),
    {
        let (plan, times) = check_times(
            self.config.num_flow_steps,
            &self.weights,
            time_embeddings,
        )?;
        let plan = match plan {
            Some(p) => p,
            None => {
                return Ok(noise.share());
            },
        };
        let stack = check_step(&self.config, &self.weights, Some(noise), None, Some(prefix))?;
        let x = tensor_buf(noise)?;
        let prefix_bufs = collect_prefix(prefix)?;
        let shape = make_step_shape(&self.config, noise.dims[0], noise.dims[1], prefix.tokens);
        let out = run_made_flow(
            &mut self.backend,
            &mut self.caches,
            &x,
            &stack,
            &plan,
            &times,
            &prefix_bufs,
            shape,
            dt,
        );
        let dims: Vec<usize> = vec![noise.dims[0], self.weights.action_out.weight.dims[1]];
        assert(dims@ =~= seq![
            noise@.dims[0],
            old(self).weights.action_out.weight@.dims[1],
        ]);
        Ok(self.backend.wrap_fp16(out, dims))
    }
}

/// The model that makes the prefix of an inference.
pub open spec fn prefix_model(
    config: Pi05Config,
    w: StaticBf16Pi05Weights,
    patches: TensorInfo,
    count: nat,
) -> PrefixModel {
    PrefixModel {
        vision: vision_tower(config, w, patches.dims[0], patches.dims[1]),
        table: w.token_embedding@.on_device(),
        vocab: w.token_embedding@.dims[0] as i64,
        layers: language_layer_buffers(w.language_layers@, config.language.depth),
        shape: attention_shape(
            config.language,
            (patches.dims[0] + count) as usize,
            0,
            config.rope_theta,
        ),
        eps: config.rms_norm_eps,
    }
}

/// What is wrong with the prefix of an inference.
pub open spec fn prefix_model_error(
    config: Pi05Config,
    w: StaticBf16Pi05Weights,
    patches: TensorInfo,
    count: nat,
) -> Option<ErrorView> {
    first_error(
        patches.residency_error(),
        first_error(
            vision_tower_error(w),
            first_error(
                token_count_error(count, config.max_token_len),
                first_error(
                    w.token_embedding@.residency_error(),
                    first_of(language_layer_errors(w.language_layers@, config.language.depth)),
                ),
            ),
        ),
    )
}

/// The model has the axes that it takes its sizes from.
pub open spec fn model_axes(config: Pi05Config, w: StaticBf16Pi05Weights) -> bool {
    &&& vision_axes(config, w)
    &&& w.token_embedding@.dims.len() >= 1
    &&& w.token_embedding@.dims[0] <= i64::MAX
    &&& config_fits(config.language)
    &&& expert_axes(config, w)
}

/// Find what makes the prefix of an inference.
fn plan_prefix(
    config: &Pi05Config,
    w: &StaticBf16Pi05Weights,
    patches: &Tensor,
    count: usize,
) -> (r: Result<(DeviceBuffer, PrefixPlan), Error>)
    requires
        model_axes(*config, *w),
        w.language_layers@.len() == config.language.depth,
        patches@.dims.len() >= 2,
        dims_fit(patches@.dims),
        patches@.dims[0] + count <= usize::MAX,
        patches@.dims[0] + count <= i64::MAX,
    ensures
        match r {
            Ok((x, plan)) => {
                &&& prefix_model_error(*config, *w, patches@, count as nat) is None
                &&& x == patches@.on_device()
                &&& plan@ == prefix_model(*config, *w, patches@, count as nat)
            },
            Err(e) => prefix_model_error(*config, *w, patches@, count as nat) == Some(e@),
        },
{
    let x = tensor_buf(patches)?;
    let vision = plan_vision(config, w, patches.dims[0], patches.dims[1])?;
    check_token_count(count, config.max_token_len)?;
    let table = tensor_buf(&w.token_embedding)?;
    let layers = plan_language(&w.language_layers, config.language.depth)?;
    let shape = AttentionShape {
        tokens: (patches.dims[0] + count) as i64,
        heads: config.language.num_heads as i64,
        kv_heads: config.language.num_kv_heads as i64,
        head_dim: config.language.head_dim as i64,
        offset: 0,
        theta: config.rope_theta,
    };
    let vocab: i64 = w.token_embedding.dims[0] as i64;
    Ok((x, PrefixPlan { vision, table, vocab, layers, shape, eps: config.rms_norm_eps }))
}

/// The sizes of the flow steps of an inference.
pub open spec fn infer_shape(
    config: Pi05Config,
    noise: TensorInfo,
    patches: TensorInfo,
    count: nat,
) -> StepShape {
    step_shape(config, noise.dims[0], noise.dims[1], (patches.dims[0] + count) as usize)
}

impl Pi05AscendRuntime {
    /// A whole inference with given styles: vision, prefix and all flow steps, each
    /// of size `dt`. Errors are found before anything is recorded.
    pub fn infer_with_styles(
        &mut self,
        patches: &Tensor,
        token_ids: &[u32],
        noise: &Tensor,
        styles: &[AscendStepStyles],
        dt: u32,
    ) -> (r: Result<Tensor, Error>)
        requires
            old(self).wf(),
            model_axes(old(self).config, old(self).weights),
            patches@.dims.len() >= 2,
            dims_fit(patches@.dims),
            patches@.dims[0] + token_ids@.len() <= i64::MAX,
            patches@.dims[0] + token_ids@.len() <= usize::MAX,
            noise@.dims.len() >= 2,
            dims_fit(noise@.dims),
            ({
                let config = old(self).config;
                let w = old(self).weights;
                let count = token_ids@.len();
                let st = old(self).state();
                let model = prefix_model(config, w, patches@, count);
                let stack = action_weights(w);
                first_error(
                    prefix_model_error(config, w, patches@, count),
                    steps_error(config, w, noise@.residency_error(), styles@, None),
                ) is None ==> {
                    &&& model.ready(st, patches@.on_device(), count)
                    &&& styles@.len() > 0 ==> {
                        &&& expert_fits(
                            model,
                            stack,
                            st,
                            noise@.on_device(),
                            infer_shape(config, noise@, patches@, count),
                        )
                        &&& forall|k: int|
                            0 <= k < styles@.len() ==> styles_there(
                                st,
                                step_styles(#[trigger] styles@[k]),
                                stack.layers.len(),
                                stack.width(),
                            )
                    }
                }
            }),
        ensures
            ({
                let config = old(self).config;
                let w = old(self).weights;
                let count = token_ids@.len();
                let st = old(self).state();
                let model = prefix_model(config, w, patches@, count);
                let shape = infer_shape(config, noise@, patches@, count);
                let error = first_error(
                    prefix_model_error(config, w, patches@, count),
                    steps_error(config, w, noise@.residency_error(), styles@, None),
                );
                match r {
                    Err(e) => error == Some(e@) && *final(self) == *old(self),
                    Ok(t) => {
                        &&& error is None
                        &&& final(self).wf()
                        &&& final(self).same_model(*old(self))
                        &&& final(self).backend.spec_device() == old(self).backend.spec_device()
                        &&& caches_kept(
                            old(self).caches,
                            final(self).caches,
                            final(self).state(),
                        )
                        &&& styles@.len() == 0 ==> t@ == noise@ && owns(
                            st,
                            final(self).state(),
                            Seq::<Item>::empty(),
                        )
                        &&& styles@.len() > 0 ==> produced(
                            old(self).backend,
                            final(self).backend,
                            t@,
                            seq![noise@.dims[0], w.action_out.weight@.dims[1]],
                            inference(
                                model,
                                action_weights(w),
                                st,
                                held(st, patches@),
                                token_ids@,
                                held(st, noise@),
                                style_values(st, flow_styles(styles@)),
                                shape,
                                model.shape.table_span(old(self).caches),
                                shape.attention.table_span(final(self).caches),
                                dt,
                            ),
                        )
                    },
                }
            }),
    {
        let (x, plan) = plan_prefix(&self.config, &self.weights, patches, token_ids.len())?;
        let (stack, style_bufs) = check_steps(
            &self.config,
            &self.weights,
            noise,
            styles,
            None,
        )?;
        let shape = make_step_shape(
            &self.config,
            noise.dims[0],
            noise.dims[1],
            patches.dims[0] + token_ids.len(),
        );
        let noise_buf = match stack {
            Some(_) => tensor_buf(noise)?,
            None => x,
        };
        proof {
            let found = styles_of(style_bufs@);
            assert forall|k: int| 0 <= k < style_bufs@.len() implies #[trigger] style_bufs@[k]@
                == step_styles(styles@[k]) by {
                assert(found[k] == style_bufs@[k]@);
                assert(found[k] == flow_styles(styles@)[k]);
            }
        }
        let out = run_infer(
            &mut self.backend,
            &mut self.caches,
            &x,
            token_ids,
            &noise_buf,
            &plan,
            &stack,
            &style_bufs,
            shape,
            dt,
        );
        if styles.len() == 0 {
            return Ok(noise.share());
        }
        let dims: Vec<usize> = vec![noise.dims[0], self.weights.action_out.weight.dims[1]];
        assert(dims@ =~= seq![
            noise@.dims[0],
            old(self).weights.action_out.weight@.dims[1],
        ]);
        Ok(self.backend.wrap_fp16(out, dims))
    }

    /// A whole inference: styles, vision, prefix and all flow steps, each of size
    /// `dt`. Errors are found before anything is recorded.
    pub fn infer(
        &mut self,
        patches: &Tensor,
        token_ids: &[u32],
        noise: &Tensor,
        time_embeddings: &[Tensor],
        dt: u32,
    ) -> (r: Result<Tensor, Error>)
        requires
            old(self).wf(),
            model_axes(old(self).config, old(self).weights),
            style_axes(old(self).weights),
            time_axes(time_embeddings@),
            patches@.dims.len() >= 2,
            dims_fit(patches@.dims),
            patches@.dims[0] + token_ids@.len() <= i64::MAX,
            patches@.dims[0] + token_ids@.len() <= usize::MAX,
            noise@.dims.len() >= 2,
            dims_fit(noise@.dims),
            ({
                let config = old(self).config;
                let w = old(self).weights;
                let count = token_ids@.len();
                let st = old(self).state();
                let model = prefix_model(config, w, patches@, count);
                let stack = action_weights(w);
                let times = times_of(time_embeddings@);
                infer_error(config, w, patches@, count, noise@, time_embeddings@) is None ==> {
                    &&& model.ready(st, patches@.on_device(), count)
                    &&& times.len() > 0 ==> expert_fits(
                        model,
                        stack,
                        st,
                        noise@.on_device(),
                        infer_shape(config, noise@, patches@, count),
                    )
                    &&& forall|i: int|
                        0 <= i < times.len() ==> time_ready(
                            style_weights(w),
                            st,
                            #[trigger] times[i],
                        ) && styles_fit(style_weights(w), times[i].rows, stack.width())
                }
            }),
        ensures
            ({
                let config = old(self).config;
                let w = old(self).weights;
                let count = token_ids@.len();
                let st = old(self).state();
                let model = prefix_model(config, w, patches@, count);
                let shape = infer_shape(config, noise@, patches@, count);
                let error = infer_error(
                    config,
                    w,
                    patches@,
                    count,
                    noise@,
                    time_embeddings@,
                );
                match r {
                    Err(e) => error == Some(e@) && *final(self) == *old(self),
                    Ok(t) => {
                        &&& error is None
                        &&& final(self).wf()
                        &&& final(self).same_model(*old(self))
                        &&& final(self).backend.spec_device() == old(self).backend.spec_device()
                        &&& caches_kept(
                            old(self).caches,
                            final(self).caches,
                            final(self).state(),
                        )
                        &&& time_embeddings@.len() == 0 ==> t@ == noise@ && owns(
                            st,
                            final(self).state(),
                            Seq::<Item>::empty(),
                        )
                        &&& time_embeddings@.len() > 0 ==> produced(
                            old(self).backend,
                            final(self).backend,
                            t@,
                            seq![noise@.dims[0], w.action_out.weight@.dims[1]],
                            inference(
                                model,
                                action_weights(w),
                                st,
                                held(st, patches@),
                                token_ids@,
                                held(st, noise@),
                                all_made_styles(
                                    style_weights(w),
                                    st,
                                    times_of(time_embeddings@),
                                ),
                                shape,
                                model.shape.table_span(old(self).caches),
                                shape.attention.table_span(final(self).caches),
                                dt,
                            ),
                        )
                    },
                }
            }),
    {
        let (style_plan, times) = check_times(
            self.config.num_flow_steps,
            &self.weights,
            time_embeddings,
        )?;
        let (x, plan) = plan_prefix(&self.config, &self.weights, patches, token_ids.len())?;
        let shape = make_step_shape(
            &self.config,
            noise.dims[0],
            noise.dims[1],
            patches.dims[0] + token_ids.len(),
        );
        let style_plan = match style_plan {
            Some(p) => p,
            None => {
                let _ = run_infer(
                    &mut self.backend,
                    &mut self.caches,
                    &x,
                    token_ids,
                    &x,
                    &plan,
                    &None,
                    &Vec::new(),
                    shape,
                    dt,
                );
                return Ok(noise.share());
            },
        };
        let stack = check_step(&self.config, &self.weights, Some(noise), None, None)?;
        let noise_buf = tensor_buf(noise)?;
        let stack = Some(stack);
        let out = run_styled_infer(
            &mut self.backend,
            &mut self.caches,
            &x,
            token_ids,
            &noise_buf,
            &plan,
            &stack,
            &style_plan,
            &times,
            shape,
            dt,
        );
        let dims: Vec<usize> = vec![noise.dims[0], self.weights.action_out.weight.dims[1]];
        assert(dims@ =~= seq![
            noise@.dims[0],
            old(self).weights.action_out.weight@.dims[1],
        ]);
        Ok(self.backend.wrap_fp16(out, dims))
    }
}

/// What is wrong with a whole inference.
pub open spec fn infer_error(
    config: Pi05Config,
    w: StaticBf16Pi05Weights,
    patches: TensorInfo,
    count: nat,
    noise: TensorInfo,
    times: Seq<Tensor>,
) -> Option<ErrorView> {
    first_error(
        all_styles_error(config.num_flow_steps, w, times),
        first_error(
            prefix_model_error(config, w, patches, count),
            if times.len() == 0 {
                None
            } else {
                step_error(config, w, noise.residency_error(), None, None)
            },
        ),
    )
}

} // verus!
