//! The model on tensors.

use vstd::prelude::*;
use vstd::string::StringExecFns;

use crate::backend::{
    dims_fit, held, matrix_error, produced, wrapped, AscendBackend,
};
use crate::capture::quiet;
use crate::device::{Call, DeviceBuffer};
use crate::driver::session::{salvaged, Session};
use crate::error::{first_error, first_of, other, Error, ErrorView};
use crate::executor::attention::{lemma_attention_sizes, AttentionShape};
use crate::executor::caches::{caches_kept, AscendCaches};
use crate::executor::frame::owns;
use crate::executor::language::{attention_shape, config_fits};
use crate::model::{
    tensor_buf, Pi05Config, StaticBf16Pi05Weights, Tensor, TensorInfo,
};
use crate::runtime::prefix::{
    embed_ready, kv_items, language_layer_buffers, language_layer_errors, layers_ready,
    layers_warm, plan_language, prefix_value, run_embed, run_prefix,
};
use crate::runtime::vision::{
    plan_vision, run_vision, vision_axes, vision_tower, vision_tower_error,
};
use crate::semantics::{run, DeviceState};
use crate::tensor::lemma_fits;
use crate::text::{append_size, decimal};

verus! {

/// Keys and values of the language layers over the prefix.
#[derive(Debug)]
pub struct AscendPrefixKvCache {
    pub keys: Vec<Tensor>,
    pub values: Vec<Tensor>,
    pub tokens: usize,
}

/// The styles of a flow step.
#[derive(Debug)]
pub struct AscendStepStyles {
    pub attention: Vec<Tensor>,
    pub mlp: Vec<Tensor>,
    pub final_norm: Tensor,
}

/// The model on the accelerator: what was recorded, configuration, weights and what
/// is kept from call to call.
pub struct Pi05AscendRuntime {
    pub backend: AscendBackend,
    pub config: Pi05Config,
    pub weights: StaticBf16Pi05Weights,
    pub caches: AscendCaches,
}

/// There are as many layers as the configuration says.
pub open spec fn depths_match(config: Pi05Config, w: StaticBf16Pi05Weights) -> bool {
    &&& w.vision_layers@.len() == config.vision_depth
    &&& w.language_layers@.len() == config.language.depth
    &&& w.action_layers@.len() == config.action_expert.depth
}

/// No fused gate and up weight is interleaved for another accelerator.
pub open spec fn plain_gates(w: StaticBf16Pi05Weights) -> bool {
    &&& forall|i: int|
        0 <= i < w.language_layers@.len() ==> !(
        #[trigger] w.language_layers@[i]).gate_up.bf16_dual_geglu_interleaved
    &&& forall|i: int|
        0 <= i < w.action_layers@.len() ==> !(
        #[trigger] w.action_layers@[i]).gate_up.bf16_dual_geglu_interleaved
}

/// What is wrong with a model that is to run here. `validated` is the verdict on
/// the configuration itself.
pub open spec fn runtime_error(
    validated: Result<(), Error>,
    config: Pi05Config,
    w: StaticBf16Pi05Weights,
) -> Option<ErrorView> {
    match validated {
        Err(e) => Some(e@),
        Ok(()) => if !depths_match(config, w) {
            Some(ErrorView::Other("π0.5 Ascend device weight depth mismatch"@))
        } else if !plain_gates(w) {
            Some(
                ErrorView::Other(
                    "π0.5 Ascend path requires plain [gate; up] gate_up weights (interleaved tactic layout is CUDA-only)"@,
                ),
            )
        } else {
            None
        },
    }
}

/// Whether no fused gate and up weight is interleaved.
fn has_plain_gates(w: &StaticBf16Pi05Weights) -> (plain: bool)
    ensures
        plain == plain_gates(*w),
{
    let mut i: usize = 0;
    while i < w.language_layers.len()
        invariant
            i <= w.language_layers@.len(),
            forall|j: int|
                0 <= j < i ==> !(
                #[trigger] w.language_layers@[j]).gate_up.bf16_dual_geglu_interleaved,
        decreases w.language_layers@.len() - i,
    {
        if w.language_layers[i].gate_up.bf16_dual_geglu_interleaved {
            return false;
        }
        i = i + 1;
    }
    let mut k: usize = 0;
    while k < w.action_layers.len()
        invariant
            k <= w.action_layers@.len(),
            forall|j: int|
                0 <= j < k ==> !(
                #[trigger] w.action_layers@[j]).gate_up.bf16_dual_geglu_interleaved,
        decreases w.action_layers@.len() - k,
    {
        if w.action_layers[k].gate_up.bf16_dual_geglu_interleaved {
            return false;
        }
        k = k + 1;
    }
    true
}

/// The buffers behind tensors.
pub open spec fn buffers_of(tensors: Seq<Tensor>) -> Seq<DeviceBuffer> {
    Seq::new(tensors.len(), |i: int| tensors[i]@.on_device())
}

/// Wrap buffers as `[rows, cols]` matrices.
fn wrap_all(be: &AscendBackend, bufs: &Vec<DeviceBuffer>, rows: usize, cols: usize) -> (out: Vec<
    Tensor,
>)
    ensures
        out@.len() == bufs@.len(),
        forall|i: int|
            0 <= i < out@.len() ==> (#[trigger] out@[i])@ == wrapped(
                be.spec_device(),
                bufs@[i],
                seq![rows, cols],
            ),
        buffers_of(out@) == bufs@,
{
    let mut out: Vec<Tensor> = Vec::new();
    let mut i: usize = 0;
    while i < bufs.len()
        invariant
            i <= bufs@.len(),
            out@.len() == i,
            forall|j: int|
                0 <= j < i ==> (#[trigger] out@[j])@ == wrapped(
                    be.spec_device(),
                    bufs@[j],
                    seq![rows, cols],
                ),
        decreases bufs@.len() - i,
    {
        let dims: Vec<usize> = vec![rows, cols];
        assert(dims@ =~= seq![rows, cols]);
        out.push(be.wrap_fp16(bufs[i], dims));
        i = i + 1;
    }
    assert(buffers_of(out@) =~= bufs@);
    out
}

impl Pi05AscendRuntime {
    /// What was recorded is consistent, what is kept is what it should be, and there
    /// are as many layers as the configuration says.
    pub open spec fn wf(&self) -> bool {
        &&& self.backend.wf()
        &&& self.caches.wf(self.backend.state())
        &&& depths_match(self.config, self.weights)
    }

    pub open spec fn state(&self) -> DeviceState {
        self.backend.state()
    }

    /// A call leaves configuration and weights alone.
    pub open spec fn same_model(&self, before: Pi05AscendRuntime) -> bool {
        self.config == before.config && self.weights == before.weights
    }

    pub fn new(
        backend: AscendBackend,
        config: Pi05Config,
        weights: StaticBf16Pi05Weights,
        validated: Result<(), Error>,
    ) -> (r: Result<Pi05AscendRuntime, Error>)
        requires
            backend.wf(),
        ensures
            match r {
                Err(e) => runtime_error(validated, config, weights) == Some(e@),
                Ok(rt) => {
                    &&& runtime_error(validated, config, weights) is None
                    &&& rt.wf()
                    &&& rt.backend == backend
                    &&& rt.config == config
                    &&& rt.weights == weights
                    &&& rt.caches.is_fresh()
                },
            },
    {
        match validated {
            Err(e) => {
                return Err(e);
            },
            Ok(()) => {},
        }
        if weights.vision_layers.len() != config.vision_depth || weights.language_layers.len()
            != config.language.depth || weights.action_layers.len()
            != config.action_expert.depth {
            return Err(other("π0.5 Ascend device weight depth mismatch"));
        }
        if !has_plain_gates(&weights) {
            return Err(
                other(
                    "π0.5 Ascend path requires plain [gate; up] gate_up weights (interleaved tactic layout is CUDA-only)",
                ),
            );
        }
        Ok(Pi05AscendRuntime { backend, config, weights, caches: AscendCaches::new() })
    }

    /// Go on after a program of this runtime broke: the model stays, as does what was
    /// allocated before that program, and the caches start anew. The handles are those
    /// of descriptors to be destroyed.
    pub fn recover(&mut self, session: &mut Session) -> (handles: Vec<usize>)
        requires
            old(self).wf(),
            old(session).wf(),
            old(session).broken(),
            old(self).backend.ctx.start() == run(old(session).start(), old(session).calls()),
        ensures
            final(self).wf(),
            final(self).same_model(*old(self)),
            final(self).caches.is_fresh(),
            final(self).backend.zero_slot is None,
            final(self).backend.spec_device() == old(self).backend.spec_device(),
            final(self).backend.ctx.calls() == Seq::<Call>::empty(),
            final(self).backend.ctx.start() == final(session).here(),
            final(self).state() == salvaged(
                old(session).here(),
                old(session).start().issued,
                old(session).current(),
                old(self).state().issued,
            ),
            final(session).wf(),
            final(session).finished(),
            final(session).here() == final(self).state(),
            handles@ == old(session).runner().live_handles(
                old(self).backend.ctx.start().issued,
            ),
    {
        let handles = self.backend.recover(session);
        self.caches = AscendCaches::new();
        handles
    }

    pub fn config(&self) -> (config: &Pi05Config)
        ensures
            *config == self.config,
    {
        &self.config
    }

    /// Encode image patches to vision tokens. Errors are found before anything is
    /// recorded.
    pub fn encode_vision(&mut self, patches: &Tensor) -> (r: Result<Tensor, Error>)
        requires
            old(self).wf(),
            vision_axes(old(self).config, old(self).weights),
            patches@.dims.len() >= 2,
            dims_fit(patches@.dims),
            first_error(patches@.residency_error(), vision_tower_error(old(self).weights)) is None
                ==> vision_tower(
                old(self).config,
                old(self).weights,
                patches@.dims[0],
                patches@.dims[1],
            ).ready(old(self).state(), patches@.on_device()),
        ensures
            ({
                let w = old(self).weights;
                let error = first_error(patches@.residency_error(), vision_tower_error(w));
                let tower = vision_tower(
                    old(self).config,
                    w,
                    patches@.dims[0],
                    patches@.dims[1],
                );
                match r {
                    Err(e) => error == Some(e@) && *final(self) == *old(self),
                    Ok(t) => {
                        &&& error is None
                        &&& final(self).wf()
                        &&& final(self).same_model(*old(self))
                        &&& produced(
                            old(self).backend,
                            final(self).backend,
                            t@,
                            seq![patches@.dims[0], w.multimodal_projector.weight@.dims[1]],
                            tower.value(old(self).state(), held(old(self).state(), patches@)),
                        )
                        &&& caches_kept(
                            old(self).caches,
                            final(self).caches,
                            final(self).state(),
                        )
                        &&& tower.warm(final(self).backend, final(self).caches)
                        &&& tower.warm(old(self).backend, old(self).caches) ==> quiet(
                            old(self).backend.ctx,
                            final(self).backend.ctx,
                        ) && final(self).caches == old(self).caches
                    },
                }
            }),
    {
        let x = tensor_buf(patches)?;
        let plan = plan_vision(&self.config, &self.weights, patches.dims[0], patches.dims[1])?;
        let out = run_vision(&mut self.backend, &mut self.caches, &x, &plan);
        let dims: Vec<usize> = vec![
            patches.dims[0],
            self.weights.multimodal_projector.weight.dims[1],
        ];
        assert(dims@ =~= seq![
            patches@.dims[0],
            old(self).weights.multimodal_projector.weight@.dims[1],
        ]);
        Ok(self.backend.wrap_fp16(out, dims))
    }
}

/// What is wrong with the number of tokens.
pub open spec fn token_count_error(count: nat, max: usize) -> Option<ErrorView> {
    if count == 0 || count > max {
        Some(
            ErrorView::Other(
                "π0.5 token count must be in 1..="@ + decimal(max as int) + ", got "@ + decimal(
                    count as int,
                ),
            ),
        )
    } else {
        None
    }
}

/// Check the number of tokens.
pub(crate) fn check_token_count(count: usize, max: usize) -> (r: Result<(), Error>)
    ensures
        match r {
            Ok(()) => token_count_error(count as nat, max) is None,
            Err(e) => token_count_error(count as nat, max) == Some(e@),
        },
{
    if count == 0 || count > max {
        let mut text = String::new();
        text.append("π0.5 token count must be in 1..=");
        append_size(&mut text, max);
        text.append(", got ");
        append_size(&mut text, count);
        assert(text@ =~= "π0.5 token count must be in 1..="@ + decimal(max as int) + ", got "@
            + decimal(count as int));
        return Err(Error::Other(text));
    }
    Ok(())
}

/// What is wrong with the operands of the prefix.
pub open spec fn embed_error(
    config: Pi05Config,
    w: StaticBf16Pi05Weights,
    vision: TensorInfo,
    count: nat,
) -> Option<ErrorView> {
    first_error(
        token_count_error(count, config.max_token_len),
        first_error(w.token_embedding@.residency_error(), vision.residency_error()),
    )
}

impl Pi05AscendRuntime {
    /// The prefix: vision tokens and then the embeddings of the language tokens.
    /// Errors are found before anything is recorded.
    pub fn embed_prefix(&mut self, vision_tokens: &Tensor, token_ids: &[u32]) -> (r: Result<
        Tensor,
        Error,
    >)
        requires
            old(self).wf(),
            vision_tokens@.dims.len() >= 2,
            dims_fit(vision_tokens@.dims),
            old(self).weights.token_embedding@.dims.len() >= 1,
            dims_fit(old(self).weights.token_embedding@.dims),
            embed_error(
                old(self).config,
                old(self).weights,
                vision_tokens@,
                token_ids@.len(),
            ) is None ==> embed_ready(
                old(self).state(),
                vision_tokens@.on_device(),
                vision_tokens@.dims[0] as i64,
                old(self).weights.token_embedding@.on_device(),
                old(self).weights.token_embedding@.dims[0] as i64,
                vision_tokens@.dims[1] as i64,
                token_ids@.len(),
            ),
        ensures
            ({
                let w = old(self).weights;
                let st = old(self).state();
                let rows = vision_tokens@.dims[0];
                let width = vision_tokens@.dims[1];
                match r {
                    Err(e) => {
                        &&& embed_error(old(self).config, w, vision_tokens@, token_ids@.len())
                            == Some(e@)
                        &&& *final(self) == *old(self)
                    },
                    Ok(t) => {
                        &&& embed_error(
                            old(self).config,
                            w,
                            vision_tokens@,
                            token_ids@.len(),
                        ) is None
                        &&& final(self).wf()
                        &&& final(self).same_model(*old(self))
                        &&& produced(
                            old(self).backend,
                            final(self).backend,
                            t@,
                            seq![(rows + token_ids@.len()) as usize, width],
                            prefix_value(
                                held(st, vision_tokens@),
                                rows as i64,
                                held(st, w.token_embedding@),
                                w.token_embedding@.dims[0] as i64,
                                width as i64,
                                token_ids@,
                            ),
                        )
                        &&& caches_kept(
                            old(self).caches,
                            final(self).caches,
                            final(self).state(),
                        )
                        &&& final(self).caches.has_tokens(token_ids@)
                        &&& old(self).caches.has_tokens(token_ids@) ==> quiet(
                            old(self).backend.ctx,
                            final(self).backend.ctx,
                        ) && final(self).caches == old(self).caches
                    },
                }
            }),
    {
        check_token_count(token_ids.len(), self.config.max_token_len)?;
        let table = tensor_buf(&self.weights.token_embedding)?;
        let vision = tensor_buf(vision_tokens)?;
        let rows: usize = vision_tokens.dims[0];
        let width: usize = vision_tokens.dims[1];
        let vocab: i64 = self.weights.token_embedding.dims[0] as i64;
        proof {
            lemma_fits((rows + token_ids@.len()) as i64, width as i64);
        }
        let out = run_embed(
            &mut self.backend,
            &mut self.caches,
            &vision,
            rows as i64,
            &table,
            vocab,
            width as i64,
            token_ids,
        );
        let dims: Vec<usize> = vec![rows + token_ids.len(), width];
        assert(dims@ =~= seq![(rows + token_ids@.len()) as usize, width]);
        Ok(self.backend.wrap_fp16(out, dims))
    }
}

/// What is wrong with a run of the language layers over `prefix`. Without a layer
/// nothing looks at the prefix.
pub open spec fn prefix_error(
    config: Pi05Config,
    w: StaticBf16Pi05Weights,
    prefix: TensorInfo,
) -> Option<ErrorView> {
    if w.language_layers@.len() == 0 {
        None
    } else {
        first_error(
            matrix_error(prefix),
            first_of(language_layer_errors(w.language_layers@, config.language.depth)),
        )
    }
}

impl Pi05AscendRuntime {
    /// Run the language layers over the prefix and keep their keys and values.
    /// Errors are found before anything is recorded.
    pub fn prefix_forward(&mut self, prefix: &Tensor) -> (r: Result<AscendPrefixKvCache, Error>)
        requires
            old(self).wf(),
            prefix@.dims.len() >= 1,
            dims_fit(prefix@.dims),
            config_fits(old(self).config.language),
            prefix_error(old(self).config, old(self).weights, prefix@) is None ==> layers_ready(
                old(self).state(),
                prefix@.on_device(),
                language_layer_buffers(
                    old(self).weights.language_layers@,
                    old(self).config.language.depth,
                ),
                attention_shape(
                    old(self).config.language,
                    prefix@.dims[0],
                    0,
                    old(self).config.rope_theta,
                ),
                prefix@.dims[1] as i64,
            ),
        ensures
            ({
                let config = old(self).config;
                let w = old(self).weights;
                let st = old(self).state();
                let layers = language_layer_buffers(w.language_layers@, config.language.depth);
                let shape = attention_shape(
                    config.language,
                    prefix@.dims[0],
                    0,
                    config.rope_theta,
                );
                let width = prefix@.dims[1] as i64;
                let x = prefix@.on_device();
                let device = old(self).backend.spec_device();
                let dims = seq![prefix@.dims[0], shape.kv_d() as usize];
                match r {
                    Err(e) => {
                        &&& prefix_error(config, w, prefix@) == Some(e@)
                        &&& *final(self) == *old(self)
                    },
                    Ok(kv) => {
                        &&& prefix_error(config, w, prefix@) is None
                        &&& final(self).wf()
                        &&& final(self).same_model(*old(self))
                        &&& final(self).backend.spec_device() == device
                        &&& caches_kept(
                            old(self).caches,
                            final(self).caches,
                            final(self).state(),
                        )
                        &&& kv.tokens == prefix@.dims[0]
                        &&& kv.keys@.len() == layers.len()
                        &&& kv.values@.len() == layers.len()
                        &&& forall|i: int|
                            0 <= i < layers.len() ==> (#[trigger] kv.keys@[i])@ == wrapped(
                                device,
                                kv.keys@[i]@.on_device(),
                                dims,
                            )
                        &&& forall|i: int|
                            0 <= i < layers.len() ==> (#[trigger] kv.values@[i])@ == wrapped(
                                device,
                                kv.values@[i]@.on_device(),
                                dims,
                            )
                        &&& owns(
                            st,
                            final(self).state(),
                            kv_items(
                                buffers_of(kv.keys@),
                                buffers_of(kv.values@),
                                st,
                                held(st, prefix@),
                                layers,
                                shape,
                                width,
                                config.rms_norm_eps,
                                shape.table_span(old(self).caches),
                                layers.len(),
                            ),
                        )
                        &&& layers_warm(
                            final(self).backend,
                            final(self).caches,
                            x,
                            layers,
                            shape,
                            width,
                        )
                        &&& layers_warm(
                            old(self).backend,
                            old(self).caches,
                            x,
                            layers,
                            shape,
                            width,
                        ) ==> quiet(old(self).backend.ctx, final(self).backend.ctx)
                            && final(self).caches == old(self).caches
                    },
                }
            }),
    {
        let tokens: usize = prefix.dims[0];
        if self.weights.language_layers.len() == 0 {
            proof {
                crate::executor::frame::lemma_owns_nothing(self.state());
                assert(language_layer_buffers(
                    self.weights.language_layers@,
                    self.config.language.depth,
                ) =~= Seq::empty());
                let kv = kv_items(
                    buffers_of(Seq::empty()),
                    buffers_of(Seq::empty()),
                    self.state(),
                    held(self.state(), prefix@),
                    Seq::empty(),
                    attention_shape(self.config.language, tokens, 0, self.config.rope_theta),
                    prefix@.dims[1] as i64,
                    self.config.rms_norm_eps,
                    attention_shape(
                        self.config.language,
                        tokens,
                        0,
                        self.config.rope_theta,
                    ).table_span(self.caches),
                    0,
                );
                assert(kv =~= Seq::empty());
                crate::capture::lemma_quiet_same(self.backend.ctx);
            }
            return Ok(
                AscendPrefixKvCache { keys: Vec::new(), values: Vec::new(), tokens },
            );
        }
        let x = AscendBackend::matrix(prefix)?;
        let layers = plan_language(&self.weights.language_layers, self.config.language.depth)?;
        let width: i64 = prefix.dims[1] as i64;
        let shape = AttentionShape {
            tokens: tokens as i64,
            heads: self.config.language.num_heads as i64,
            kv_heads: self.config.language.num_kv_heads as i64,
            head_dim: self.config.language.head_dim as i64,
            offset: 0,
            theta: self.config.rope_theta,
        };
        proof {
            lemma_attention_sizes(shape);
        }
        let out = run_prefix(
            &mut self.backend,
            &mut self.caches,
            &x,
            &layers,
            shape,
            width,
            self.config.rms_norm_eps,
        );
        let kv_d: usize = (shape.kv_heads * shape.head_dim) as usize;
        let keys = wrap_all(&self.backend, &out.keys, tokens, kv_d);
        let values = wrap_all(&self.backend, &out.values, tokens, kv_d);
        Ok(AscendPrefixKvCache { keys, values, tokens })
    }
}

} // verus!
