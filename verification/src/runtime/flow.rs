//! Styles and flow steps on tensors.

use vstd::prelude::*;
use vstd::string::StringExecFns;

use crate::backend::{dims_fit, held, produced};
use crate::device::DeviceBuffer;
use crate::error::{
    first_error, first_of, lemma_first_of, lemma_first_of_none, other, Error, ErrorView,
};
use crate::executor::action::{action_buffers, is_rows, ActionBuffers};
use crate::executor::attention::AttentionShape;
use crate::executor::caches::caches_kept;
use crate::executor::language::{attention_shape, config_fits};
use crate::model::{
    linear_buffers, linear_error, tensor_buf, Bf16DeviceActionLayer, Pi05Config,
    StaticBf16Pi05Weights, Tensor,
};
use crate::ops::laws::word;
use crate::ops::words::{plus_word, scaled_word};
use crate::runtime::denoise::{
    flow, run_flow, run_step, style_values, ActionStack, ActionWeights, StepShape,
};
use crate::runtime::pi05::{
    buffers_of, AscendPrefixKvCache, AscendStepStyles, Pi05AscendRuntime,
};
use crate::runtime::prefix::{Prefix, PrefixBuffers};
use crate::runtime::styles::{
    linear_axes, linear_layer, resolve_linear, styles_of, StyleBuffers, Styles,
};
use crate::runtime::words::lemma_step_delivered;
use crate::text::{append_size, decimal};

verus! {

/// Every tensor is on the device.
pub open spec fn all_resident(tensors: Seq<Tensor>) -> bool {
    forall|i: int| 0 <= i < tensors.len() ==> (#[trigger] tensors[i])@.residency_error() is None
}

/// The buffers behind tensors.
fn collect(tensors: &Vec<Tensor>) -> (r: Result<Vec<DeviceBuffer>, Error>)
    ensures
        match r {
            Ok(b) => all_resident(tensors@) && b@ == buffers_of(tensors@),
            Err(_) => !all_resident(tensors@),
        },
{
    let mut out: Vec<DeviceBuffer> = Vec::new();
    let mut i: usize = 0;
    while i < tensors.len()
        invariant
            i <= tensors@.len(),
            out@.len() == i,
            forall|j: int|
                0 <= j < i ==> (#[trigger] tensors@[j])@.residency_error() is None && out@[j]
                    == tensors@[j]@.on_device(),
        decreases tensors@.len() - i,
    {
        let b = tensor_buf(&tensors[i])?;
        out.push(b);
        i = i + 1;
    }
    assert(out@ =~= buffers_of(tensors@));
    Ok(out)
}

/// The buffers of a step's styles.
pub open spec fn step_styles(styles: AscendStepStyles) -> Styles {
    Styles {
        attention: buffers_of(styles.attention@),
        mlp: buffers_of(styles.mlp@),
        last: styles.final_norm@.on_device(),
    }
}

fn collect_styles(styles: &AscendStepStyles) -> (r: Result<StyleBuffers, Error>)
    ensures
        match r {
            Ok(b) => b@ == step_styles(*styles),
            Err(_) => !(all_resident(styles.attention@) && all_resident(styles.mlp@)
                && styles.final_norm@.residency_error() is None),
        },
{
    let attention = collect(&styles.attention)?;
    let mlp = collect(&styles.mlp)?;
    let last = tensor_buf(&styles.final_norm)?;
    Ok(StyleBuffers { attention, mlp, last })
}

/// The buffers of a prefix.
pub open spec fn prefix_buffers(prefix: AscendPrefixKvCache) -> Prefix {
    Prefix { keys: buffers_of(prefix.keys@), values: buffers_of(prefix.values@) }
}

pub(crate) fn collect_prefix(prefix: &AscendPrefixKvCache) -> (r: Result<PrefixBuffers, Error>)
    ensures
        match r {
            Ok(b) => b@ == prefix_buffers(*prefix),
            Err(_) => !(all_resident(prefix.keys@) && all_resident(prefix.values@)),
        },
{
    let keys = collect(&prefix.keys)?;
    let values = collect(&prefix.values)?;
    Ok(PrefixBuffers { keys, values })
}

/// What is wrong with the attention style of layer `i`. Styles and prefixes that
/// are still to be made will be on the device.
pub open spec fn attention_style_error(styles: Option<&AscendStepStyles>, i: int) -> Option<
    ErrorView,
> {
    match styles {
        Some(s) => s.attention@[i]@.residency_error(),
        None => None,
    }
}

pub open spec fn mlp_style_error(styles: Option<&AscendStepStyles>, i: int) -> Option<ErrorView> {
    match styles {
        Some(s) => s.mlp@[i]@.residency_error(),
        None => None,
    }
}

/// What is wrong with the style of the norm that follows layer `i`.
pub open spec fn next_style_error(
    styles: Option<&AscendStepStyles>,
    depth: nat,
    i: int,
) -> Option<ErrorView> {
    match styles {
        Some(s) => if i + 1 < depth {
            s.attention@[i + 1]@.residency_error()
        } else {
            s.final_norm@.residency_error()
        },
        None => None,
    }
}

pub open spec fn key_error(prefix: Option<&AscendPrefixKvCache>, i: int) -> Option<ErrorView> {
    match prefix {
        Some(p) => p.keys@[i]@.residency_error(),
        None => None,
    }
}

pub open spec fn value_error(prefix: Option<&AscendPrefixKvCache>, i: int) -> Option<ErrorView> {
    match prefix {
        Some(p) => p.values@[i]@.residency_error(),
        None => None,
    }
}

/// What is wrong with layer `i` of the action expert and what it works on.
pub open spec fn expert_layer_error(
    w: Bf16DeviceActionLayer,
    styles: Option<&AscendStepStyles>,
    prefix: Option<&AscendPrefixKvCache>,
    depth: nat,
    i: int,
) -> Option<ErrorView> {
    let start = if i == 0 {
        attention_style_error(styles, 0)
    } else {
        None
    };
    first_error(
        start,
        first_error(
            linear_error(w.qkv),
            first_error(
                key_error(prefix, i),
                first_error(
                    value_error(prefix, i),
                    first_error(
                        linear_error(w.output),
                        first_error(
                            mlp_style_error(styles, i),
                            first_error(
                                w.gate_up.weight@.residency_error(),
                                first_error(
                                    linear_error(w.down),
                                    next_style_error(styles, depth, i),
                                ),
                            ),
                        ),
                    ),
                ),
            ),
        ),
    )
}

/// Styles and prefix, where they are given, have an entry for every layer.
pub open spec fn counts_fit(
    styles: Option<&AscendStepStyles>,
    prefix: Option<&AscendPrefixKvCache>,
    depth: nat,
) -> bool {
    &&& styles matches Some(s) ==> s.attention@.len() == depth && s.mlp@.len() == depth
    &&& prefix matches Some(p) ==> p.keys@.len() == depth && p.values@.len() == depth
}

fn check_optional(t: Option<&Tensor>) -> (r: Result<(), Error>)
    ensures
        match r {
            Ok(()) => t matches Some(t) ==> t@.residency_error() is None,
            Err(e) => t matches Some(t) && t@.residency_error() == Some(e@),
        },
{
    match t {
        Some(t) => {
            let _ = tensor_buf(t)?;
            Ok(())
        },
        None => Ok(()),
    }
}

/// Check layer `i` of the action expert and what it works on, in the order in which
/// the layer uses them.
fn check_layer(
    w: &Bf16DeviceActionLayer,
    styles: Option<&AscendStepStyles>,
    prefix: Option<&AscendPrefixKvCache>,
    depth: usize,
    i: usize,
) -> (r: Result<ActionBuffers, Error>)
    requires
        i < depth,
        counts_fit(styles, prefix, depth as nat),
    ensures
        match r {
            Ok(b) => expert_layer_error(*w, styles, prefix, depth as nat, i as int) is None && b
                == action_buffers(*w),
            Err(e) => expert_layer_error(*w, styles, prefix, depth as nat, i as int) == Some(e@),
        },
{
    let first = match styles {
        Some(s) => if i == 0 {
            Some(&s.attention[0])
        } else {
            None
        },
        None => None,
    };
    let mlp = match styles {
        Some(s) => Some(&s.mlp[i]),
        None => None,
    };
    let next = match styles {
        Some(s) => if i + 1 < depth {
            Some(&s.attention[i + 1])
        } else {
            Some(&s.final_norm)
        },
        None => None,
    };
    let key = match prefix {
        Some(p) => Some(&p.keys[i]),
        None => None,
    };
    let value = match prefix {
        Some(p) => Some(&p.values[i]),
        None => None,
    };
    check_optional(first)?;
    let (qkv, qkv_bias) = linear_buffers(&w.qkv)?;
    check_optional(key)?;
    check_optional(value)?;
    let (output, output_bias) = linear_buffers(&w.output)?;
    check_optional(mlp)?;
    let gate_up = tensor_buf(&w.gate_up.weight)?;
    let (down, down_bias) = linear_buffers(&w.down)?;
    check_optional(next)?;
    Ok(ActionBuffers { qkv, qkv_bias, output, output_bias, gate_up, down, down_bias })
}

/// The errors of the layers of the action expert.
pub open spec fn expert_layer_errors(
    layers: Seq<Bf16DeviceActionLayer>,
    styles: Option<&AscendStepStyles>,
    prefix: Option<&AscendPrefixKvCache>,
) -> Seq<Option<ErrorView>> {
    Seq::new(
        layers.len(),
        |i: int| expert_layer_error(layers[i], styles, prefix, layers.len(), i),
    )
}

/// What is wrong with an action expert without layers.
pub open spec fn no_layer_error(layers: Seq<Bf16DeviceActionLayer>) -> Option<ErrorView> {
    if layers.len() == 0 {
        Some(ErrorView::Other("π0.5 action expert must contain at least one layer"@))
    } else {
        None
    }
}

/// What is wrong with the action expert and what a step works on.
pub open spec fn expert_error(
    w: StaticBf16Pi05Weights,
    styles: Option<&AscendStepStyles>,
    prefix: Option<&AscendPrefixKvCache>,
) -> Option<ErrorView> {
    first_error(
        linear_error(w.action_in),
        first_error(
            first_of(expert_layer_errors(w.action_layers@, styles, prefix)),
            first_error(no_layer_error(w.action_layers@), linear_error(w.action_out)),
        ),
    )
}

/// The weights of the action expert.
pub open spec fn action_weights(w: StaticBf16Pi05Weights) -> ActionWeights {
    ActionWeights {
        input: linear_layer(w.action_in),
        in_width: w.action_in.weight@.dims[0] as i64,
        layers: Seq::new(w.action_layers@.len(), |i: int| action_buffers(w.action_layers@[i])),
        output: linear_layer(w.action_out),
    }
}

/// Check the action expert and what a step works on, in the order in which the step
/// uses them.
fn check_expert(
    w: &StaticBf16Pi05Weights,
    styles: Option<&AscendStepStyles>,
    prefix: Option<&AscendPrefixKvCache>,
) -> (r: Result<ActionStack, Error>)
    requires
        linear_axes(w.action_in),
        linear_axes(w.action_out),
        counts_fit(styles, prefix, w.action_layers@.len()),
    ensures
        match r {
            Ok(stack) => expert_error(*w, styles, prefix) is None && stack@ == action_weights(*w),
            Err(e) => expert_error(*w, styles, prefix) == Some(e@),
        },
{
    let input = resolve_linear(&w.action_in)?;
    let ghost errors = expert_layer_errors(w.action_layers@, styles, prefix);
    let depth: usize = w.action_layers.len();
    let mut layers: Vec<ActionBuffers> = Vec::new();
    let mut i: usize = 0;
    while i < depth
        invariant
            i <= depth,
            depth == w.action_layers@.len(),
            counts_fit(styles, prefix, depth as nat),
            linear_error(w.action_in) is None,
            errors == expert_layer_errors(w.action_layers@, styles, prefix),
            layers@.len() == i,
            forall|j: int|
                0 <= j < i ==> #[trigger] layers@[j] == action_buffers(w.action_layers@[j]),
            forall|j: int| 0 <= j < i ==> (#[trigger] errors[j]) is None,
        decreases depth - i,
    {
        match check_layer(&w.action_layers[i], styles, prefix, depth, i) {
            Ok(b) => {
                layers.push(b);
            },
            Err(e) => {
                proof {
                    lemma_first_of(errors, i as int);
                }
                return Err(e);
            },
        }
        i = i + 1;
    }
    proof {
        lemma_first_of(errors, depth as int);
        assert(layers@ =~= action_weights(*w).layers);
    }
    if depth == 0 {
        return Err(other("π0.5 action expert must contain at least one layer"));
    }
    let output = resolve_linear(&w.action_out)?;
    let in_width: i64 = w.action_in.weight.dims[0] as i64;
    Ok(ActionStack { input, in_width, layers, output })
}

/// Where a step has no error, its styles and its prefix are on the device.
proof fn lemma_step_resident(
    w: StaticBf16Pi05Weights,
    styles: Option<&AscendStepStyles>,
    prefix: Option<&AscendPrefixKvCache>,
)
    requires
        counts_fit(styles, prefix, w.action_layers@.len()),
        expert_error(w, styles, prefix) is None,
    ensures
        styles matches Some(s) ==> all_resident(s.attention@) && all_resident(s.mlp@)
            && s.final_norm@.residency_error() is None,
        prefix matches Some(p) ==> all_resident(p.keys@) && all_resident(p.values@),
{
    let depth = w.action_layers@.len();
    let errors = expert_layer_errors(w.action_layers@, styles, prefix);
    lemma_first_of_none(errors);
    assert forall|i: int| 0 <= i < depth implies expert_layer_error(
        w.action_layers@[i],
        styles,
        prefix,
        depth,
        i,
    ) is None by {
        assert(errors[i] is None);
    }
    match styles {
        Some(s) => {
            assert forall|i: int| 0 <= i < depth implies (
            #[trigger] s.attention@[i])@.residency_error() is None by {
                if i == 0 {
                    assert(errors[0] is None);
                } else {
                    assert(errors[i - 1] is None);
                }
            }
            assert forall|i: int| 0 <= i < depth implies (
            #[trigger] s.mlp@[i])@.residency_error() is None by {
                assert(errors[i] is None);
            }
            assert(errors[depth - 1] is None);
        },
        None => {},
    }
    match prefix {
        Some(p) => {
            assert forall|i: int| 0 <= i < depth implies (
            #[trigger] p.keys@[i])@.residency_error() is None by {
                assert(errors[i] is None);
            }
            assert forall|i: int| 0 <= i < depth implies (
            #[trigger] p.values@[i])@.residency_error() is None by {
                assert(errors[i] is None);
            }
        },
        None => {},
    }
}

/// What is wrong with the number of layers that styles and prefix are for.
pub open spec fn count_error(
    depth: usize,
    keys: nat,
    values: nat,
    attention: nat,
    mlp: nat,
) -> Option<ErrorView> {
    if keys != depth || values != depth || attention != depth || mlp != depth {
        Some(ErrorView::Other("π0.5 Ascend prefix/style depth mismatch"@))
    } else {
        None
    }
}

fn check_counts(depth: usize, keys: usize, values: usize, attention: usize, mlp: usize) -> (r:
    Result<(), Error>)
    ensures
        match r {
            Ok(()) => count_error(
                depth,
                keys as nat,
                values as nat,
                attention as nat,
                mlp as nat,
            ) is None,
            Err(e) => count_error(
                depth,
                keys as nat,
                values as nat,
                attention as nat,
                mlp as nat,
            ) == Some(e@),
        },
{
    if keys != depth || values != depth || attention != depth || mlp != depth {
        return Err(other("π0.5 Ascend prefix/style depth mismatch"));
    }
    Ok(())
}

/// How many layers a prefix has keys for. One that is still to be made will have
/// one for every language layer.
pub open spec fn key_count(config: Pi05Config, prefix: Option<&AscendPrefixKvCache>) -> nat {
    match prefix {
        Some(p) => p.keys@.len(),
        None => config.language.depth as nat,
    }
}

pub open spec fn value_count(config: Pi05Config, prefix: Option<&AscendPrefixKvCache>) -> nat {
    match prefix {
        Some(p) => p.values@.len(),
        None => config.language.depth as nat,
    }
}

/// How many layers there are attention styles for. Styles that are still to be made
/// will have one for every layer of the action expert.
pub open spec fn attention_count(config: Pi05Config, styles: Option<&AscendStepStyles>) -> nat {
    match styles {
        Some(s) => s.attention@.len(),
        None => config.action_expert.depth as nat,
    }
}

pub open spec fn mlp_count(config: Pi05Config, styles: Option<&AscendStepStyles>) -> nat {
    match styles {
        Some(s) => s.mlp@.len(),
        None => config.action_expert.depth as nat,
    }
}

/// What is wrong with a step. `state` is the error of its state.
pub open spec fn step_error(
    config: Pi05Config,
    w: StaticBf16Pi05Weights,
    state: Option<ErrorView>,
    styles: Option<&AscendStepStyles>,
    prefix: Option<&AscendPrefixKvCache>,
) -> Option<ErrorView> {
    first_error(
        count_error(
            config.action_expert.depth,
            key_count(config, prefix),
            value_count(config, prefix),
            attention_count(config, styles),
            mlp_count(config, styles),
        ),
        first_error(state, expert_error(w, styles, prefix)),
    )
}

/// Check a step, in the order in which it uses things. The state is checked where
/// it is given.
pub(crate) fn check_step(
    config: &Pi05Config,
    w: &StaticBf16Pi05Weights,
    state: Option<&Tensor>,
    styles: Option<&AscendStepStyles>,
    prefix: Option<&AscendPrefixKvCache>,
) -> (r: Result<ActionStack, Error>)
    requires
        linear_axes(w.action_in),
        linear_axes(w.action_out),
        w.action_layers@.len() == config.action_expert.depth,
    ensures
        ({
            let state_error = match state {
                Some(t) => t@.residency_error(),
                None => None,
            };
            let error = step_error(*config, *w, state_error, styles, prefix);
            match r {
                Ok(stack) => {
                    &&& error is None
                    &&& stack@ == action_weights(*w)
                    &&& counts_fit(styles, prefix, w.action_layers@.len())
                    &&& styles matches Some(s) ==> all_resident(s.attention@) && all_resident(
                        s.mlp@,
                    ) && s.final_norm@.residency_error() is None
                    &&& prefix matches Some(p) ==> all_resident(p.keys@) && all_resident(p.values@)
                },
                Err(e) => error == Some(e@),
            }
        }),
{
    let (keys, values) = match prefix {
        Some(p) => (p.keys.len(), p.values.len()),
        None => (config.language.depth, config.language.depth),
    };
    let (attention, mlp) = match styles {
        Some(s) => (s.attention.len(), s.mlp.len()),
        None => (config.action_expert.depth, config.action_expert.depth),
    };
    check_counts(config.action_expert.depth, keys, values, attention, mlp)?;
    check_optional(state)?;
    let stack = check_expert(w, styles, prefix)?;
    proof {
        lemma_step_resident(*w, styles, prefix);
    }
    Ok(stack)
}

/// The sizes of a step.
pub open spec fn step_shape(
    config: Pi05Config,
    rows: usize,
    state_width: usize,
    prefix_tokens: usize,
) -> StepShape {
    StepShape {
        attention: attention_shape(
            config.action_expert,
            rows,
            prefix_tokens,
            config.rope_theta,
        ),
        state_width: state_width as i64,
        eps: config.rms_norm_eps,
    }
}

pub(crate) fn make_step_shape(
    config: &Pi05Config,
    rows: usize,
    state_width: usize,
    prefix_tokens: usize,
) -> (shape: StepShape)
    requires
        config_fits(config.action_expert),
        rows <= i64::MAX,
        state_width <= i64::MAX,
    ensures
        shape == step_shape(*config, rows, state_width, prefix_tokens),
{
    StepShape {
        attention: AttentionShape {
            tokens: rows as i64,
            heads: config.action_expert.num_heads as i64,
            kv_heads: config.action_expert.num_kv_heads as i64,
            head_dim: config.action_expert.head_dim as i64,
            offset: prefix_tokens,
            theta: config.rope_theta,
        },
        state_width: state_width as i64,
        eps: config.rms_norm_eps,
    }
}

/// The action expert has the axes that it takes its sizes from.
pub open spec fn expert_axes(config: Pi05Config, w: StaticBf16Pi05Weights) -> bool {
    &&& config_fits(config.action_expert)
    &&& linear_axes(w.action_in)
    &&& linear_axes(w.action_out)
}

impl Pi05AscendRuntime {
    /// One step of the flow from `state`, of size `dt`, a single-precision pattern.
    /// Errors are found before anything is recorded.
    pub fn denoise_step_with_styles(
        &mut self,
        state: &Tensor,
        styles: &AscendStepStyles,
        prefix: &AscendPrefixKvCache,
        dt: u32,
    ) -> (r: Result<Tensor, Error>)
        requires
            old(self).wf(),
            expert_axes(old(self).config, old(self).weights),
            state@.dims.len() >= 2,
            dims_fit(state@.dims),
            step_error(
                old(self).config,
                old(self).weights,
                state@.residency_error(),
                Some(styles),
                Some(prefix),
            ) is None ==> {
                let shape = step_shape(
                    old(self).config,
                    state@.dims[0],
                    state@.dims[1],
                    prefix.tokens,
                );
                &&& action_weights(old(self).weights).ready(
                    old(self).state(),
                    step_styles(*styles),
                    prefix_buffers(*prefix),
                    shape,
                )
                &&& is_rows(
                    old(self).state(),
                    state@.on_device(),
                    shape.attention.tokens,
                    shape.state_width,
                )
            },
        ensures
            ({
                let config = old(self).config;
                let w = old(self).weights;
                let error = step_error(
                    config,
                    w,
                    state@.residency_error(),
                    Some(styles),
                    Some(prefix),
                );
                let shape = step_shape(config, state@.dims[0], state@.dims[1], prefix.tokens);
                let st = old(self).state();
                match r {
                    Err(e) => error == Some(e@) && *final(self) == *old(self),
                    Ok(t) => {
                        &&& error is None
                        &&& final(self).wf()
                        &&& final(self).same_model(*old(self))
                        &&& caches_kept(
                            old(self).caches,
                            final(self).caches,
                            final(self).state(),
                        )
                        &&& produced(
                            old(self).backend,
                            final(self).backend,
                            t@,
                            seq![state@.dims[0], w.action_out.weight@.dims[1]],
                            action_weights(w).step(
                                st,
                                held(st, state@),
                                step_styles(*styles).values(st),
                                prefix_buffers(*prefix).values(st, shape.attention.kv_d()),
                                shape,
                                shape.attention.table_span(old(self).caches),
                                dt,
                            ),
                        )
                        &&& ({
                            let last = action_weights(w).norms(
                                st,
                                held(st, state@),
                                step_styles(*styles).values(st),
                                prefix_buffers(*prefix).values(st, shape.attention.kv_d()),
                                shape,
                                shape.attention.table_span(old(self).caches),
                                w.action_layers@.len(),
                            );
                            let velocity = linear_layer(w.action_out).value(
                                st,
                                last,
                                shape.attention.tokens,
                                w.action_in.weight@.dims[1] as i64,
                            );
                            forall|e: int|
                                0 <= e < shape.attention.tokens * w.action_out.weight@.dims[1]
                                    ==> #[trigger] word(held(final(self).state(), t@), e)
                                    == plus_word(
                                    word(held(st, state@), e),
                                    scaled_word(word(velocity, e), dt),
                                )
                        })
                    },
                }
            }),
    {
        let stack = check_step(
            &self.config,
            &self.weights,
            Some(state),
            Some(styles),
            Some(prefix),
        )?;
        let x = tensor_buf(state)?;
        let style_bufs = collect_styles(styles)?;
        let prefix_bufs = collect_prefix(prefix)?;
        let shape = make_step_shape(
            &self.config,
            state.dims[0],
            state.dims[1],
            prefix.tokens,
        );
        let ghost st0 = self.state();
        let ghost span = shape.attention.table_span(self.caches);
        proof {
            self.backend.ctx.lemma_safe();
        }
        let out = run_step(
            &mut self.backend,
            &mut self.caches,
            &x,
            &stack,
            &style_bufs,
            &prefix_bufs,
            shape,
            dt,
        );
        proof {
            lemma_step_delivered(
                st0,
                self.state(),
                out,
                self.weights,
                st0.value(x),
                style_bufs@.values(st0),
                prefix_bufs@.values(st0, shape.attention.kv_d()),
                shape,
                span,
                dt,
            );
        }
        let dims: Vec<usize> = vec![state.dims[0], self.weights.action_out.weight.dims[1]];
        assert(dims@ =~= seq![
            state@.dims[0],
            old(self).weights.action_out.weight@.dims[1],
        ]);
        Ok(self.backend.wrap_fp16(out, dims))
    }
}

/// The error of step `k`: only the first works on the noise.
pub open spec fn flow_error(
    config: Pi05Config,
    w: StaticBf16Pi05Weights,
    noise: Option<ErrorView>,
    styles: Seq<AscendStepStyles>,
    prefix: Option<&AscendPrefixKvCache>,
    k: int,
) -> Option<ErrorView> {
    step_error(
        config,
        w,
        if k == 0 {
            noise
        } else {
            None
        },
        Some(&styles[k]),
        prefix,
    )
}

/// The errors of the steps.
pub open spec fn flow_errors(
    config: Pi05Config,
    w: StaticBf16Pi05Weights,
    noise: Option<ErrorView>,
    styles: Seq<AscendStepStyles>,
    prefix: Option<&AscendPrefixKvCache>,
) -> Seq<Option<ErrorView>> {
    Seq::new(styles.len(), |k: int| flow_error(config, w, noise, styles, prefix, k))
}

/// What is wrong with the number of style sets.
pub open spec fn style_count_error(expected: usize, got: nat) -> Option<ErrorView> {
    if got != expected {
        Some(
            ErrorView::Other(
                "π0.5 expected "@ + decimal(expected as int) + " precomputed style sets, got "@
                    + decimal(got as int),
            ),
        )
    } else {
        None
    }
}

fn check_style_count(expected: usize, got: usize) -> (r: Result<(), Error>)
    ensures
        match r {
            Ok(()) => style_count_error(expected, got as nat) is None,
            Err(e) => style_count_error(expected, got as nat) == Some(e@),
        },
{
    if got != expected {
        let mut text = String::new();
        text.append("π0.5 expected ");
        append_size(&mut text, expected);
        text.append(" precomputed style sets, got ");
        append_size(&mut text, got);
        assert(text@ =~= "π0.5 expected "@ + decimal(expected as int)
            + " precomputed style sets, got "@ + decimal(got as int));
        return Err(Error::Other(text));
    }
    Ok(())
}

/// What is wrong with a run of all steps.
pub open spec fn steps_error(
    config: Pi05Config,
    w: StaticBf16Pi05Weights,
    noise: Option<ErrorView>,
    styles: Seq<AscendStepStyles>,
    prefix: Option<&AscendPrefixKvCache>,
) -> Option<ErrorView> {
    first_error(
        style_count_error(config.num_flow_steps, styles.len()),
        first_of(flow_errors(config, w, noise, styles, prefix)),
    )
}

/// The buffers of the styles of all steps.
pub open spec fn flow_styles(styles: Seq<AscendStepStyles>) -> Seq<Styles> {
    Seq::new(styles.len(), |k: int| step_styles(styles[k]))
}

/// Check a run of all steps and find its buffers. Without a step there is nothing
/// to find.
pub(crate) fn check_steps(
    config: &Pi05Config,
    w: &StaticBf16Pi05Weights,
    noise: &Tensor,
    styles: &[AscendStepStyles],
    prefix: Option<&AscendPrefixKvCache>,
) -> (r: Result<(Option<ActionStack>, Vec<StyleBuffers>), Error>)
    requires
        linear_axes(w.action_in),
        linear_axes(w.action_out),
        w.action_layers@.len() == config.action_expert.depth,
    ensures
        ({
            let error = steps_error(*config, *w, noise@.residency_error(), styles@, prefix);
            match r {
                Ok((stack, bufs)) => {
                    &&& error is None
                    &&& styles_of(bufs@) == flow_styles(styles@)
                    &&& bufs@.len() == styles@.len()
                    &&& (stack is Some) == (styles@.len() > 0)
                    &&& stack matches Some(s) ==> {
                        &&& s@ == action_weights(*w)
                        &&& noise@.residency_error() is None
                        &&& key_count(*config, prefix) == config.action_expert.depth
                        &&& prefix matches Some(p) ==> p.keys@.len() == w.action_layers@.len()
                            && p.values@.len() == w.action_layers@.len() && all_resident(p.keys@)
                            && all_resident(p.values@)
                    }
                },
                Err(e) => error == Some(e@),
            }
        }),
{
    check_style_count(config.num_flow_steps, styles.len())?;
    let ghost errors = flow_errors(*config, *w, noise@.residency_error(), styles@, prefix);
    let mut stack: Option<ActionStack> = None;
    let mut bufs: Vec<StyleBuffers> = Vec::new();
    let mut k: usize = 0;
    while k < styles.len()
        invariant
            k <= styles@.len(),
            linear_axes(w.action_in),
            linear_axes(w.action_out),
            w.action_layers@.len() == config.action_expert.depth,
            style_count_error(config.num_flow_steps, styles@.len()) is None,
            errors == flow_errors(*config, *w, noise@.residency_error(), styles@, prefix),
            bufs@.len() == k,
            forall|j: int| 0 <= j < k ==> (#[trigger] bufs@[j])@ == step_styles(styles@[j]),
            forall|j: int| 0 <= j < k ==> (#[trigger] errors[j]) is None,
            (stack is Some) == (k > 0),
            stack matches Some(s) ==> {
                &&& s@ == action_weights(*w)
                &&& noise@.residency_error() is None
                &&& key_count(*config, prefix) == config.action_expert.depth
                &&& prefix matches Some(p) ==> p.keys@.len() == w.action_layers@.len()
                    && p.values@.len() == w.action_layers@.len() && all_resident(p.keys@)
                    && all_resident(p.values@)
            },
        decreases styles@.len() - k,
    {
        let at = &styles[k];
        proof {
            assert(errors[k as int] == flow_error(
                *config,
                *w,
                noise@.residency_error(),
                styles@,
                prefix,
                k as int,
            ));
            lemma_first_of(errors, k as int);
        }
        let state = if k == 0 {
            Some(noise)
        } else {
            None
        };
        let checked = check_step(config, w, state, Some(at), prefix)?;
        let found = collect_styles(at)?;
        stack = Some(checked);
        bufs.push(found);
        k = k + 1;
    }
    proof {
        lemma_first_of(errors, styles@.len() as int);
        assert(styles_of(bufs@) =~= flow_styles(styles@));
    }
    Ok((stack, bufs))
}

impl Pi05AscendRuntime {
    /// All steps of the flow from `noise`, each of size `dt`, a single-precision
    /// pattern. Errors are found before anything is recorded.
    pub fn denoise_all_steps_with_styles(
        &mut self,
        noise: &Tensor,
        styles: &[AscendStepStyles],
        prefix: &AscendPrefixKvCache,
        dt: u32,
    ) -> (r: Result<Tensor, Error>)
        requires
            old(self).wf(),
            expert_axes(old(self).config, old(self).weights),
            noise@.dims.len() >= 2,
            dims_fit(noise@.dims),
            steps_error(
                old(self).config,
                old(self).weights,
                noise@.residency_error(),
                styles@,
                Some(prefix),
            ) is None && styles@.len() > 0 ==> {
                let shape = step_shape(
                    old(self).config,
                    noise@.dims[0],
                    noise@.dims[1],
                    prefix.tokens,
                );
                &&& forall|k: int|
                    0 <= k < styles@.len() ==> action_weights(old(self).weights).ready(
                        old(self).state(),
                        step_styles(#[trigger] styles@[k]),
                        prefix_buffers(*prefix),
                        shape,
                    )
                &&& is_rows(
                    old(self).state(),
                    noise@.on_device(),
                    shape.attention.tokens,
                    shape.state_width,
                )
            },
        ensures
            ({
                let config = old(self).config;
                let w = old(self).weights;
                let error = steps_error(
                    config,
                    w,
                    noise@.residency_error(),
                    styles@,
                    Some(prefix),
                );
                let shape = step_shape(config, noise@.dims[0], noise@.dims[1], prefix.tokens);
                let st = old(self).state();
                match r {
                    Err(e) => error == Some(e@) && *final(self) == *old(self),
                    Ok(t) => {
                        &&& error is None
                        &&& final(self).wf()
                        &&& final(self).same_model(*old(self))
                        &&& styles@.len() == 0 ==> t@ == noise@ && *final(self) == *old(self)
                        &&& styles@.len() > 0 ==> {
                            &&& caches_kept(
                                old(self).caches,
                                final(self).caches,
                                final(self).state(),
                            )
                            &&& produced(
                                old(self).backend,
                                final(self).backend,
                                t@,
                                seq![noise@.dims[0], w.action_out.weight@.dims[1]],
                                flow(
                                    action_weights(w),
                                    st,
                                    held(st, noise@),
                                    style_values(st, flow_styles(styles@)),
                                    prefix_buffers(*prefix).values(st, shape.attention.kv_d()),
                                    shape,
                                    shape.attention.table_span(old(self).caches),
                                    dt,
                                    styles@.len(),
                                ),
                            )
                        }
                    },
                }
            }),
    {
        let (stack, style_bufs) = check_steps(
            &self.config,
            &self.weights,
            noise,
            styles,
            Some(prefix),
        )?;
        let stack = match stack {
            Some(s) => s,
            None => {
                return Ok(noise.share());
            },
        };
        let x = tensor_buf(noise)?;
        let prefix_bufs = collect_prefix(prefix)?;
        let shape = make_step_shape(
            &self.config,
            noise.dims[0],
            noise.dims[1],
            prefix.tokens,
        );
        proof {
            let found = styles_of(style_bufs@);
            assert forall|k: int| 0 <= k < style_bufs@.len() implies stack@.ready(
                self.state(),
                (#[trigger] style_bufs@[k])@,
                prefix_bufs@,
                shape,
            ) by {
                assert(found[k] == style_bufs@[k]@);
                assert(found[k] == step_styles(styles@[k]));
            }
        }
        let out = run_flow(
            &mut self.backend,
            &mut self.caches,
            &x,
            &stack,
            &style_bufs,
            &prefix_bufs,
            shape,
            dt,
        );
        let dims: Vec<usize> = vec![noise.dims[0], self.weights.action_out.weight.dims[1]];
        assert(dims@ =~= seq![
            noise@.dims[0],
            old(self).weights.action_out.weight@.dims[1],
        ]);
        Ok(self.backend.wrap_fp16(out, dims))
    }
}

} // verus!
