//! The model as it is asked for actions: observations come in, actions go out.

use vstd::prelude::*;

use crate::backend::{dims_fit, held, operand_error, wrapped};
use crate::cache::lemma_delivers_stable;
use crate::device::{Base, Call, DeviceBuffer};
use crate::error::{first_error, other, Device, Error, ErrorView};
use crate::exchange::{lemma_sent, sent, words_value, OnHost};
use crate::executor::caches::{caches_kept, AscendCaches};
use crate::executor::frame::{lemma_keeps_then, owns, Item};
use crate::model::{DType, Pi05Config, StaticBf16Pi05Weights, Storage, Tensor, TensorInfo};
use crate::runtime::flow::{action_weights, step_shape};
use crate::runtime::infer::{expert_fits, inference};
use crate::runtime::methods::{infer_error, infer_shape, model_axes, prefix_model};
use crate::runtime::pi05::Pi05AscendRuntime;
use crate::runtime::prepare::{
    all_made_styles, made_styles, styles_fit, time_axes, time_of, times_of,
};
use crate::runtime::styles::{style_axes, style_weights, time_ready};
use crate::semantics::{
    delivers, is_lasting, keeps, lemma_delivers, lemma_write_whole, run, DeviceState, SymByte,
};

verus! {

/// What the model sees.
#[derive(Debug)]
pub enum VisionObservation {
    /// Image patches that have been cut out and normalized. `words` are the elements
    /// in half precision, where the host could read them.
    Patches { tensor: Tensor, words: Result<Vec<u16>, Error> },
    /// Raw images.
    RgbU8,
}

/// Where the flow starts.
#[derive(Debug)]
pub enum InitialLatent {
    /// At a given tensor.
    Provided { tensor: Tensor, words: Result<Vec<u16>, Error> },
    /// At generated noise, given as half-precision words.
    Generate { drawn: Vec<u16> },
}

/// A request for an action.
#[derive(Debug)]
pub struct VlaRequest {
    pub vision: VisionObservation,
    pub token_ids: Vec<u32>,
    pub latent: InitialLatent,
}

/// An action, as it is on the device.
#[derive(Debug)]
pub struct Action {
    pub tensor: Tensor,
}

impl Action {
    pub fn new(tensor: Tensor) -> (action: Action)
        ensures
            action.tensor == tensor,
    {
        Action { tensor }
    }

    pub fn tensor(&self) -> (t: &Tensor)
        ensures
            *t == self.tensor,
    {
        &self.tensor
    }
}

/// What the model takes and gives.
#[derive(Debug, Clone, Copy, PartialEq, Eq, Structural)]
pub struct VlaContract {
    pub action_rows: usize,
    pub action_cols: usize,
    pub patch_rows: usize,
    pub patch_cols: usize,
    pub max_token_len: usize,
    pub num_views: usize,
    pub image_size: usize,
    pub patch_size: usize,
    pub accepts_rgb_u8: bool,
}

/// What is wrong with bringing a tensor to the device.
pub open spec fn sending_error(
    device: Device,
    tensor: TensorInfo,
    words: Result<Vec<u16>, Error>,
) -> Option<ErrorView> {
    if tensor.device == device {
        None
    } else {
        match words {
            Ok(_) => None,
            Err(e) => Some(e@),
        }
    }
}

/// The words of a tensor, where there are any.
pub open spec fn given_words(words: Result<Vec<u16>, Error>) -> Seq<u16> {
    match words {
        Ok(w) => w@,
        Err(_) => seq![],
    }
}

/// What is wrong with an observation.
pub open spec fn vision_error(device: Device, vision: VisionObservation) -> Option<ErrorView> {
    match vision {
        VisionObservation::Patches { tensor, words } => sending_error(device, tensor@, words),
        VisionObservation::RgbU8 => Some(
            ErrorView::Other(
                "π0.5 ascend path expects preprocessed patches (rgb-u8 patchify pending)"@,
            ),
        ),
    }
}

/// The tensor that the flow starts at, before it is brought to the device.
pub open spec fn latent_tensor(config: Pi05Config, latent: InitialLatent) -> TensorInfo {
    match latent {
        InitialLatent::Provided { tensor, words } => tensor@,
        InitialLatent::Generate { drawn } => TensorInfo {
            dims: seq![config.action_horizon, config.action_dim],
            dtype: DType::F16,
            device: Device::Cpu,
            storage: Storage::Cpu,
        },
    }
}

/// The words of that tensor.
pub open spec fn latent_words(latent: InitialLatent) -> Result<Seq<u16>, ErrorView> {
    match latent {
        InitialLatent::Provided { tensor, words } => match words {
            Ok(w) => Ok(w@),
            Err(e) => Err(e@),
        },
        InitialLatent::Generate { drawn } => Ok(drawn@),
    }
}

/// Drawn noise is an `[action_horizon, action_dim]` tensor on the device that holds the
/// drawn words, bit for bit what a generator writes to its output for them.
pub proof fn lemma_noise(
    st: DeviceState,
    device: Device,
    config: Pi05Config,
    drawn: Vec<u16>,
    output: DeviceBuffer,
)
    requires
        device != Device::Cpu,
        st.holds_whole(output),
        output.len == 2 * drawn@.len(),
    ensures
        ({
            let latent = InitialLatent::Generate { drawn };
            let (after, noise) = sent(st, device, latent_tensor(config, latent), drawn@);
            let b = noise.on_device();
            &&& latent_words(latent) == Ok::<Seq<u16>, ErrorView>(drawn@)
            &&& noise == wrapped(device, b, seq![config.action_horizon, config.action_dim])
            &&& after.value(b) == words_value(drawn@)
            &&& after.value(b) == st.with_content(output.base, words_value(drawn@)).value(output)
        }),
{
    let latent = InitialLatent::Generate { drawn };
    lemma_sent(st, device, latent_tensor(config, latent), drawn@);
    lemma_write_whole(st, output, words_value(drawn@));
}

/// What is wrong with the start of the flow.
pub open spec fn latent_error(device: Device, config: Pi05Config, latent: InitialLatent) -> Option<
    ErrorView,
> {
    if latent_tensor(config, latent).device == device {
        None
    } else {
        match latent_words(latent) {
            Ok(_) => None,
            Err(e) => Some(e),
        }
    }
}

/// What is wrong with a request before the model sees it.
pub open spec fn request_error(
    device: Device,
    config: Pi05Config,
    request: VlaRequest,
) -> Option<ErrorView> {
    first_error(
        vision_error(device, request.vision),
        latent_error(device, config, request.latent),
    )
}

/// The device with the patches and the start of the flow of a request on it, and the
/// two tensors there.
pub open spec fn brought(
    st: DeviceState,
    device: Device,
    config: Pi05Config,
    request: VlaRequest,
) -> (DeviceState, TensorInfo, TensorInfo) {
    let (s1, patches) = sent(
        st,
        device,
        request.vision->tensor@,
        given_words(request.vision->words),
    );
    let noise_words = match latent_words(request.latent) {
        Ok(w) => w,
        Err(_) => seq![],
    };
    let (s2, noise) = sent(s1, device, latent_tensor(config, request.latent), noise_words);
    (s2, patches, noise)
}

/// A model on device state `st` can make an action out of these tensors.
#[verifier::opaque]
pub open spec fn infer_ready(
    config: Pi05Config,
    w: StaticBf16Pi05Weights,
    st: DeviceState,
    patches: TensorInfo,
    count: nat,
    noise: TensorInfo,
    times: Seq<Tensor>,
) -> bool {
    &&& patches.dims.len() >= 2
    &&& dims_fit(patches.dims)
    &&& patches.dims[0] + count <= i64::MAX
    &&& patches.dims[0] + count <= usize::MAX
    &&& noise.dims.len() >= 2
    &&& dims_fit(noise.dims)
    &&& infer_error(config, w, patches, count, noise, times) is None ==> {
        let model = prefix_model(config, w, patches, count);
        let stack = action_weights(w);
        &&& model.ready(st, patches.on_device(), count)
        &&& times.len() > 0 ==> expert_fits(
            model,
            stack,
            st,
            noise.on_device(),
            infer_shape(config, noise, patches, count),
        )
        &&& forall|i: int|
            0 <= i < times.len() ==> time_ready(
                style_weights(w),
                st,
                #[trigger] times_of(times)[i],
            ) && styles_fit(style_weights(w), times_of(times)[i].rows, stack.width())
    }
}

/// The model with the time embeddings of its flow steps, which do not depend on
/// requests, and the step size, a single-precision pattern.
pub struct Pi05AscendVlaRuntime {
    pub runtime: Pi05AscendRuntime,
    pub time_embeddings: Vec<Tensor>,
    pub dt: u32,
}

impl Pi05AscendRuntime {
    /// Bring a tensor to the device.
    pub fn bring(&mut self, tensor: &Tensor, words: Result<Vec<u16>, Error>) -> (r: Result<
        Tensor,
        Error,
    >)
        requires
            old(self).wf(),
        ensures
            final(self).wf(),
            final(self).same_model(*old(self)),
            final(self).caches == old(self).caches,
            final(self).backend.spec_device() == old(self).backend.spec_device(),
            ({
                let device = old(self).backend.spec_device();
                match sending_error(device, tensor@, words) {
                    Some(e) => *final(self) == *old(self) && (r matches Err(f) && f@ == e),
                    None => r matches Ok(t) && (final(self).state(), t@) == sent(
                        old(self).state(),
                        device,
                        tensor@,
                        given_words(words),
                    ) && (tensor@.device != device ==> delivers(
                        old(self).state(),
                        final(self).state(),
                        t@.on_device(),
                        words_value(given_words(words)),
                    )),
                }
            }),
    {
        let ghost st = self.state();
        let ghost value = words_value(given_words(words));
        let t = self.backend.to_device(tensor, words)?;
        proof {
            if tensor@.device != old(self).backend.spec_device() {
                lemma_delivers_stable(st, self.state(), t@.on_device(), value);
                self.caches.lemma_stable(st, self.state());
            }
        }
        Ok(t)
    }

    /// Give back a tensor that was brought for one request.
    fn discard(&mut self, t: &Tensor, Ghost(id): Ghost<usize>)
        requires
            old(self).wf(),
            t@.buffer() matches Some(b) && b.base == Base::Fresh(id),
            old(self).state().fresh.contains_key(id),
        ensures
            final(self).wf(),
            final(self).same_model(*old(self)),
            final(self).caches == old(self).caches,
            final(self).backend.spec_device() == old(self).backend.spec_device(),
            final(self).state() == (DeviceState {
                fresh: old(self).state().fresh.remove(id),
                ..old(self).state()
            }),
    {
        let ghost st = self.state();
        match t.storage {
            Storage::Gpu { device: _, buffer } => match buffer {
                Some(b) => {
                    self.backend.ctx.release(b);
                },
                None => {},
            },
            Storage::Cpu => {},
        }
        proof {
            self.caches.lemma_stable(st, self.state());
        }
    }
}

/// Live memory that its creator releases, with a tensor brought for a request or not.
pub open spec fn with_sent(
    fresh: Map<usize, Seq<SymByte>>,
    added: bool,
    id: usize,
    value: Seq<SymByte>,
) -> Map<usize, Seq<SymByte>> {
    if added {
        fresh.insert(id, value)
    } else {
        fresh
    }
}

/// Two tensors on the device that were brought for a request, or were there.
struct Pair {
    patches: Tensor,
    noise: Tensor,
    patches_sent: bool,
    noise_sent: bool,
}

impl Pair {
    /// `self` was brought between `s0`, `s1` and `s2`.
    spec fn came(&self, s0: DeviceState, s1: DeviceState, s2: DeviceState) -> bool {
        let p = s0.issued as usize;
        let n = s1.issued as usize;
        &&& s0.issued <= usize::MAX
        &&& s1.issued <= usize::MAX
        &&& s0.issued <= s1.issued <= s2.issued
        &&& !s0.fresh.contains_key(p)
        &&& !s1.fresh.contains_key(n)
        &&& self.patches_sent ==> p < s1.issued && (self.patches@.buffer() matches Some(b) && b.base
            == Base::Fresh(p))
        &&& self.noise_sent ==> n < s2.issued && (self.noise@.buffer() matches Some(b) && b.base
            == Base::Fresh(n) && s2.holds_whole(b))
        &&& s1.fresh == with_sent(s0.fresh, self.patches_sent, p, s1.fresh[p])
        &&& s2.fresh == with_sent(s1.fresh, self.noise_sent, n, s2.fresh[n])
        &&& keeps(s0, s2)
    }
}

impl Pi05AscendRuntime {
    /// Bring the patches and the start of the flow of a request.
    fn bring_pair(
        &mut self,
        patch_tensor: Tensor,
        patch_words: Result<Vec<u16>, Error>,
        noise_tensor: Tensor,
        noise_words: Result<Vec<u16>, Error>,
    ) -> (r: Result<Pair, Error>)
        requires
            old(self).wf(),
        ensures
            final(self).wf(),
            final(self).same_model(*old(self)),
            final(self).caches == old(self).caches,
            final(self).backend.spec_device() == old(self).backend.spec_device(),
            ({
                let device = old(self).backend.spec_device();
                let s0 = old(self).state();
                let (s1, p) = sent(s0, device, patch_tensor@, given_words(patch_words));
                let (s2, n) = sent(s1, device, noise_tensor@, given_words(noise_words));
                let error = first_error(
                    sending_error(device, patch_tensor@, patch_words),
                    sending_error(device, noise_tensor@, noise_words),
                );
                match r {
                    Err(e) => {
                        &&& error == Some(e@)
                        &&& final(self).state().fresh == s0.fresh
                        &&& keeps(s0, final(self).state())
                    },
                    Ok(pair) => {
                        &&& error is None
                        &&& final(self).state() == s2
                        &&& pair.patches@ == p
                        &&& pair.noise@ == n
                        &&& pair.came(s0, s1, s2)
                        &&& pair.noise_sent == (noise_tensor@.device != device)
                    },
                }
            }),
    {
        let ghost s0 = self.state();
        let here = self.backend.device();
        let patches_sent: bool = patch_tensor.device != here;
        let noise_sent: bool = noise_tensor.device != here;
        proof {
            self.backend.ctx.lemma_safe();
            self.backend.ctx.lemma_issued();
        }
        let patches = self.bring(&patch_tensor, patch_words)?;
        let ghost s1 = self.state();
        let ghost p = s0.issued as usize;
        proof {
            self.backend.ctx.lemma_safe();
            self.backend.ctx.lemma_issued();
            assert(!s0.fresh.contains_key(p));
            assert(keeps(s0, s1));
            assert(s1.fresh =~= with_sent(s0.fresh, patches_sent, p, s1.fresh[p]));
        }
        let noise = match self.bring(&noise_tensor, noise_words) {
            Ok(t) => t,
            Err(e) => {
                if patches_sent {
                    self.discard(&patches, Ghost(p));
                    assert(self.state().fresh =~= s0.fresh);
                }
                return Err(e);
            },
        };
        proof {
            let s2 = self.state();
            let n = s1.issued as usize;
            self.backend.ctx.lemma_safe();
            assert(!s1.fresh.contains_key(n));
            assert(keeps(s1, s2));
            lemma_keeps_then(s0, s1, s2);
            assert(s2.fresh =~= with_sent(s1.fresh, noise_sent, n, s2.fresh[n]));
        }
        Ok(Pair { patches, noise, patches_sent, noise_sent })
    }

    /// Give back what was brought for a request, the start of the flow only where
    /// `noise_too`.
    fn give_back(
        &mut self,
        pair: &Pair,
        noise_too: bool,
        Ghost(s0): Ghost<DeviceState>,
        Ghost(s1): Ghost<DeviceState>,
        Ghost(s2): Ghost<DeviceState>,
    )
        requires
            old(self).wf(),
            pair.came(s0, s1, s2),
            forall|id: usize| #[trigger]
                s2.fresh.contains_key(id) ==> old(self).state().fresh.contains_key(id),
        ensures
            final(self).wf(),
            final(self).same_model(*old(self)),
            final(self).caches == old(self).caches,
            final(self).backend.spec_device() == old(self).backend.spec_device(),
            ({
                let fresh = old(self).state().fresh;
                let part = if pair.patches_sent {
                    fresh.remove(s0.issued as usize)
                } else {
                    fresh
                };
                final(self).state() == (DeviceState {
                    fresh: if pair.noise_sent && noise_too {
                        part.remove(s1.issued as usize)
                    } else {
                        part
                    },
                    ..old(self).state()
                })
            }),
    {
        proof {
            if pair.patches_sent {
                assert(s1.fresh.contains_key(s0.issued as usize));
                assert(s2.fresh.contains_key(s0.issued as usize));
            }
            if pair.noise_sent {
                assert(s2.fresh.contains_key(s1.issued as usize));
            }
        }
        if pair.patches_sent {
            self.discard(&pair.patches, Ghost(s0.issued as usize));
        }
        if pair.noise_sent && noise_too {
            self.discard(&pair.noise, Ghost(s1.issued as usize));
        }
    }
}

/// The bytes of the action that the model computes. The rotation tables are those of
/// the caches before the prefix and of `caches` for the flow.
#[verifier::opaque]
pub open spec fn action_value(
    vla: Pi05AscendVlaRuntime,
    caches: AscendCaches,
    patches: TensorInfo,
    token_ids: Seq<u32>,
    noise: TensorInfo,
) -> Seq<SymByte> {
    let rt = vla.runtime;
    let st = rt.state();
    let model = prefix_model(rt.config, rt.weights, patches, token_ids.len());
    let shape = infer_shape(rt.config, noise, patches, token_ids.len());
    inference(
        model,
        action_weights(rt.weights),
        st,
        held(st, patches),
        token_ids,
        held(st, noise),
        all_made_styles(style_weights(rt.weights), st, times_of(vla.time_embeddings@)),
        shape,
        model.shape.table_span(rt.caches),
        shape.attention.table_span(caches),
        vla.dt,
    )
}

/// What the model makes of patches, tokens and the start of the flow that are on the
/// device: the action, in memory that is new since `start` and holds what the model
/// computes, or, without a flow step, the start of the flow itself.
pub open spec fn made(
    start: DeviceState,
    before: Pi05AscendVlaRuntime,
    after: Pi05AscendVlaRuntime,
    patches: TensorInfo,
    token_ids: Seq<u32>,
    noise: TensorInfo,
    action: TensorInfo,
) -> bool {
    let rt = before.runtime;
    if before.time_embeddings@.len() == 0 {
        action == noise
    } else {
        &&& action.buffer() matches Some(buf) && {
            &&& action == wrapped(
                rt.backend.spec_device(),
                buf,
                seq![noise.dims[0], rt.weights.action_out.weight@.dims[1]],
            )
            &&& delivers(
                start,
                after.runtime.state(),
                buf,
                action_value(before, after.runtime.caches, patches, token_ids, noise),
            )
        }
    }
}

/// What came of a request: the patches and the start of the flow were brought to the
/// device, and the model made the action of them.
pub open spec fn acted(
    before: Pi05AscendVlaRuntime,
    after: Pi05AscendVlaRuntime,
    request: VlaRequest,
    action: TensorInfo,
) -> bool {
    let rt = before.runtime;
    let (st, patches, noise) = brought(rt.state(), rt.backend.spec_device(), rt.config, request);
    exists|mid: Pi05AscendVlaRuntime|
        {
            &&& mid.runtime.state() == st
            &&& mid.same_model(before)
            &&& mid.runtime.caches == rt.caches
            &&& #[trigger] made(
                rt.state(),
                mid,
                after,
                patches,
                request.token_ids@,
                noise,
                action,
            )
        }
}

/// The answer to a request with patches on the host and drawn noise: what the model infers
/// from the words of the patches, the tokens and the drawn words, one step for every time
/// embedding in their order, from the patch rows and token embeddings as the prefix.
pub proof fn lemma_answer(
    before: Pi05AscendVlaRuntime,
    after: Pi05AscendVlaRuntime,
    request: VlaRequest,
    action: TensorInfo,
)
    requires
        acted(before, after, request, action),
        before.runtime.state().sane(),
        before.runtime.state().issued + 2 <= usize::MAX,
        before.runtime.backend.spec_device() != Device::Cpu,
        before.time_embeddings@.len() > 0,
        request.vision matches VisionObservation::Patches { tensor, words } && tensor@.device
            != before.runtime.backend.spec_device() && words is Ok && 2 * words->Ok_0@.len()
            <= usize::MAX,
        request.latent matches InitialLatent::Generate { drawn } && 2 * drawn@.len() <= usize::MAX,
    ensures
        ({
            let rt = before.runtime;
            let w = rt.weights;
            let device = rt.backend.spec_device();
            let st = brought(rt.state(), device, rt.config, request).0;
            let ids = request.token_ids@;
            let patch_tensor = wrapped(
                device,
                brought(rt.state(), device, rt.config, request).1.on_device(),
                request.vision->tensor@.dims,
            );
            let model = prefix_model(rt.config, w, patch_tensor, ids.len());
            let shape = step_shape(
                rt.config,
                rt.config.action_horizon,
                rt.config.action_dim,
                (request.vision->tensor@.dims[0] + ids.len()) as usize,
            );
            let steps = before.time_embeddings@;
            after.runtime.state().value(action.on_device()) == inference(
                model,
                action_weights(w),
                st,
                words_value((request.vision->words)->Ok_0@),
                ids,
                words_value(request.latent->drawn@),
                Seq::new(
                    steps.len(),
                    |k: int| made_styles(style_weights(w), st, time_of(steps[k]@)),
                ),
                shape,
                model.shape.table_span(rt.caches),
                shape.attention.table_span(after.runtime.caches),
                before.dt,
            )
        }),
{
    reveal(action_value);
    let rt = before.runtime;
    let device = rt.backend.spec_device();
    let s0 = rt.state();
    let tensor = request.vision->tensor@;
    let words = (request.vision->words)->Ok_0@;
    let drawn = request.latent->drawn@;
    let latent = latent_tensor(rt.config, request.latent);
    lemma_sent(s0, device, tensor, words);
    let (s1, patches) = sent(s0, device, tensor, words);
    lemma_sent(s1, device, latent, drawn);
    let (s2, noise) = sent(s1, device, latent, drawn);
    assert(brought(s0, device, rt.config, request) == (s2, patches, noise));
    assert(s2.value(patches.on_device()) == s1.value(patches.on_device()));
    let mid = choose|mid: Pi05AscendVlaRuntime|
        {
            &&& mid.runtime.state() == s2
            &&& mid.same_model(before)
            &&& mid.runtime.caches == rt.caches
            &&& #[trigger] made(s0, mid, after, patches, request.token_ids@, noise, action)
        };
    let value = action_value(mid, after.runtime.caches, patches, request.token_ids@, noise);
    lemma_delivers(s0, after.runtime.state(), action.on_device(), value);
    let steps = before.time_embeddings@;
    let styles = all_made_styles(style_weights(rt.weights), s2, times_of(steps));
    assert(styles =~= Seq::new(
        steps.len(),
        |k: int| made_styles(style_weights(rt.weights), s2, time_of(steps[k]@)),
    ));
}

/// Without a flow step, the start of the flow is still where it was: what was live
/// stays live, and so does the start of the flow where it was brought.
pub open spec fn start_kept(
    before: Pi05AscendVlaRuntime,
    after: DeviceState,
    request: VlaRequest,
) -> bool {
    let rt = before.runtime;
    let device = rt.backend.spec_device();
    let s0 = rt.state();
    let (st, patches, noise) = brought(s0, device, rt.config, request);
    &&& forall|id: usize| #[trigger]
        s0.fresh.contains_key(id) ==> after.fresh.contains_key(id) && after.fresh[id]
            == s0.fresh[id]
    &&& latent_tensor(rt.config, request.latent).device != device ==> after.holds_whole(
        noise.on_device(),
    ) && after.value(noise.on_device()) == st.value(noise.on_device())
}

/// What is wrong with a request.
pub open spec fn action_error(vla: Pi05AscendVlaRuntime, request: VlaRequest) -> Option<ErrorView> {
    let rt = vla.runtime;
    let device = rt.backend.spec_device();
    let (st, patches, noise) = brought(rt.state(), device, rt.config, request);
    first_error(
        request_error(device, rt.config, request),
        infer_error(
            rt.config,
            rt.weights,
            patches,
            request.token_ids@.len(),
            noise,
            vla.time_embeddings@,
        ),
    )
}

/// What an answered request comes to. Where it is refused, the memory that someone is
/// to release is as it was; where it is answered, the action is on the device, and the
/// stream has finished writing it.
pub open spec fn concluded(
    before: Pi05AscendVlaRuntime,
    after: Pi05AscendVlaRuntime,
    request: VlaRequest,
    r: Result<Action, Error>,
) -> bool {
    &&& keeps(before.runtime.state(), after.runtime.state())
    &&& match r {
        Err(e) => {
            &&& action_error(before, request) == Some(e@)
            &&& after.runtime.caches == before.runtime.caches
            &&& after.runtime.state().fresh == before.runtime.state().fresh
        },
        Ok(action) => {
            &&& action_error(before, request) is None
            &&& acted(before, after, request, action.tensor@)
            &&& caches_kept(before.runtime.caches, after.runtime.caches, after.runtime.state())
            &&& after.runtime.state().dirty == Set::<Base>::empty()
            &&& before.time_embeddings@.len() == 0 ==> start_kept(
                before,
                after.runtime.state(),
                request,
            )
        },
    }
}

/// Waiting for the stream changes nothing about an action.
proof fn lemma_settled(
    before: Pi05AscendVlaRuntime,
    mid: Pi05AscendVlaRuntime,
    after: Pi05AscendVlaRuntime,
    request: VlaRequest,
    action: TensorInfo,
)
    requires
        acted(before, mid, request, action),
        after.runtime.caches == mid.runtime.caches,
        after.runtime.state() == mid.runtime.state().step(Call::Sync),
        keeps(before.runtime.state(), mid.runtime.state()),
    ensures
        acted(before, after, request, action),
        keeps(before.runtime.state(), after.runtime.state()),
{
    let rt = before.runtime;
    let (st, patches, noise) = brought(rt.state(), rt.backend.spec_device(), rt.config, request);
    let one = choose|one: Pi05AscendVlaRuntime|
        {
            &&& one.runtime.state() == st
            &&& one.same_model(before)
            &&& one.runtime.caches == rt.caches
            &&& #[trigger] made(
                rt.state(),
                one,
                mid,
                patches,
                request.token_ids@,
                noise,
                action,
            )
        };
    assert(made(rt.state(), one, after, patches, request.token_ids@, noise, action));
}

/// The model can be asked for this.
pub open spec fn request_ready(vla: Pi05AscendVlaRuntime, request: VlaRequest) -> bool {
    let rt = vla.runtime;
    let device = rt.backend.spec_device();
    let (st, patches, noise) = brought(rt.state(), device, rt.config, request);
    request_error(device, rt.config, request) is None ==> infer_ready(
        rt.config,
        rt.weights,
        st,
        patches,
        request.token_ids@.len(),
        noise,
        vla.time_embeddings@,
    )
}

/// After the model has run, what was brought for the request is still there.
proof fn lemma_after(
    s0: DeviceState,
    s1: DeviceState,
    s2: DeviceState,
    s3: DeviceState,
    pair: &Pair,
    r: Result<Tensor, Error>,
    steps: nat,
)
    requires
        pair.came(s0, s1, s2),
        r is Err ==> s3 == s2,
        r is Ok && steps == 0 ==> owns(s2, s3, Seq::<Item>::empty()),
        r is Ok && steps > 0 ==> exists|bytes: Seq<SymByte>|
            delivers(s2, s3, r->Ok_0@.on_device(), bytes),
    ensures
        keeps(s0, s3),
        forall|id: usize| #[trigger] s2.fresh.contains_key(id) ==> s3.fresh.contains_key(id),
{
    assert(keeps(s2, s3));
    lemma_keeps_then(s0, s2, s3);
}

/// Where nothing was added, the memory that its creators release is as it was.
proof fn lemma_untouched(before: DeviceState, after: DeviceState)
    requires
        owns(before, after, Seq::<Item>::empty()),
    ensures
        after.fresh == before.fresh,
{
    assert(after.fresh =~= before.fresh);
}

/// What is left after giving back what was brought: the memory from before, and the
/// action.
proof fn lemma_left(
    s0: DeviceState,
    s1: DeviceState,
    s2: DeviceState,
    s3: DeviceState,
    end: DeviceState,
    pair: &Pair,
    out: TensorInfo,
)
    requires
        pair.came(s0, s1, s2),
        s0.sane(),
        exists|bytes: Seq<SymByte>| delivers(s2, s3, out.on_device(), bytes),
        end == (DeviceState {
            fresh: {
                let part = if pair.patches_sent {
                    s3.fresh.remove(s0.issued as usize)
                } else {
                    s3.fresh
                };
                if pair.noise_sent {
                    part.remove(s1.issued as usize)
                } else {
                    part
                }
            },
            ..s3
        }),
        keeps(s0, s3),
    ensures
        forall|bytes: Seq<SymByte>|
            delivers(s2, s3, out.on_device(), bytes) ==> delivers(s0, end, out.on_device(), bytes),
{
    assert forall|bytes: Seq<SymByte>| delivers(s2, s3, out.on_device(), bytes) implies delivers(
        s0,
        end,
        out.on_device(),
        bytes,
    ) by {
        match out.on_device().base {
            Base::Fresh(id) => {
                assert(end.fresh =~= s0.fresh.insert(id, bytes));
            },
            _ => {},
        }
    }
}

/// `t` is a row of `width` elements on the device that holds these words.
pub open spec fn is_time_row(
    st: DeviceState,
    device: Device,
    t: TensorInfo,
    width: usize,
    words: Seq<u16>,
) -> bool {
    let b = t.on_device();
    &&& t == wrapped(device, b, seq![1usize, width])
    &&& st.holds(b)
    &&& is_lasting(b)
    &&& st.value(b) == words_value(words)
}

fn copy_words(words: &Vec<u16>) -> (out: Vec<u16>)
    ensures
        out@ == words@,
{
    let mut out: Vec<u16> = Vec::new();
    let mut i: usize = 0;
    while i < words.len()
        invariant
            i <= words@.len(),
            out@ == words@.take(i as int),
        decreases words@.len() - i,
    {
        out.push(words[i]);
        i = i + 1;
        assert(out@ =~= words@.take(i as int));
    }
    assert(words@.take(i as int) =~= words@);
    out
}

impl Pi05AscendVlaRuntime {
    pub open spec fn wf(&self) -> bool {
        &&& self.runtime.wf()
        &&& model_axes(self.runtime.config, self.runtime.weights)
        &&& style_axes(self.runtime.weights)
        &&& time_axes(self.time_embeddings@)
    }

    /// Bring the time embeddings of the flow steps to the device, one row of
    /// half-precision words for each step.
    pub fn new(runtime: Pi05AscendRuntime, embeddings: Vec<Vec<u16>>, dt: u32) -> (r: Result<
        Pi05AscendVlaRuntime,
        Error,
    >)
        requires
            runtime.wf(),
            model_axes(runtime.config, runtime.weights),
            style_axes(runtime.weights),
            runtime.config.action_expert.width <= i64::MAX,
            embeddings@.len() == runtime.config.num_flow_steps,
            forall|i: int|
                0 <= i < embeddings@.len() ==> (#[trigger] embeddings@[i])@.len()
                    == runtime.config.action_expert.width,
        ensures
            r matches Ok(vla) && {
                &&& vla.wf()
                &&& vla.dt == dt
                &&& vla.runtime.same_model(runtime)
                &&& vla.runtime.caches == runtime.caches
                &&& vla.runtime.backend.spec_device() == runtime.backend.spec_device()
                &&& keeps(runtime.state(), vla.runtime.state())
                &&& vla.time_embeddings@.len() == embeddings@.len()
                &&& forall|i: int|
                    0 <= i < embeddings@.len() ==> is_time_row(
                        vla.runtime.state(),
                        runtime.backend.spec_device(),
                        (#[trigger] vla.time_embeddings@[i])@,
                        runtime.config.action_expert.width,
                        embeddings@[i]@,
                    )
            },
    {
        let mut rt = runtime;
        let ghost device = rt.backend.spec_device();
        let width: usize = rt.config.action_expert.width;
        let mut times: Vec<Tensor> = Vec::new();
        let mut rest = embeddings;
        let total: usize = rest.len();
        let mut step: usize = 0;
        while step < total
            invariant
                step <= total,
                total == embeddings@.len(),
                rest@ == embeddings@,
                rt.wf(),
                rt.same_model(runtime),
                rt.caches == runtime.caches,
                rt.backend.spec_device() == device,
                device == runtime.backend.spec_device(),
                device is Ascend,
                width == runtime.config.action_expert.width,
                width <= i64::MAX,
                keeps(runtime.state(), rt.state()),
                times@.len() == step,
                forall|i: int|
                    0 <= i < step ==> is_time_row(
                        rt.state(),
                        device,
                        (#[trigger] times@[i])@,
                        width,
                        embeddings@[i]@,
                    ),
            decreases total - step,
        {
            let ghost before = rt.state();
            proof {
                rt.backend.ctx.lemma_safe();
            }
            let dims: Vec<usize> = vec![1, width];
            assert(dims@ =~= seq![1usize, width]);
            let row = Tensor {
                dims,
                dtype: DType::BF16,
                device: Device::Cpu,
                storage: Storage::Cpu,
            };
            let words = copy_words(&rest[step]);
            let t = rt.bring(&row, Ok(words))?;
            proof {
                let now = rt.state();
                lemma_delivers(before, now, t@.on_device(), words_value(embeddings@[step as int]@));
                lemma_keeps_then(runtime.state(), before, now);
                assert forall|i: int| 0 <= i < step implies is_time_row(
                    now,
                    device,
                    (#[trigger] times@[i])@,
                    width,
                    embeddings@[i]@,
                ) by {
                    assert(is_time_row(before, device, times@[i]@, width, embeddings@[i]@));
                }
            }
            times.push(t);
            step = step + 1;
        }
        proof {
            assert forall|i: int| 0 <= i < times@.len() implies (
            #[trigger] times@[i])@.dims.len() >= 2 && dims_fit(times@[i]@.dims) by {
                assert(is_time_row(rt.state(), device, times@[i]@, width, embeddings@[i]@));
            }
        }
        Ok(Pi05AscendVlaRuntime { runtime: rt, time_embeddings: times, dt })
    }

    /// A call leaves the model and its time embeddings alone.
    pub open spec fn same_model(&self, before: Pi05AscendVlaRuntime) -> bool {
        &&& self.runtime.same_model(before.runtime)
        &&& self.runtime.backend.spec_device() == before.runtime.backend.spec_device()
        &&& self.time_embeddings == before.time_embeddings
        &&& self.dt == before.dt
    }

    /// The shapes that the model takes and gives.
    pub fn contract(&self) -> (c: VlaContract)
        requires
            self.runtime.config.patches_fit(),
            self.runtime.config.num_views * self.runtime.config.spec_patches_per_view()
                <= usize::MAX,
            3 * self.runtime.config.patch_size * self.runtime.config.patch_size <= usize::MAX,
        ensures
            ({
                let config = self.runtime.config;
                c == VlaContract {
                    action_rows: config.action_horizon,
                    action_cols: config.action_dim,
                    patch_rows: (config.num_views * config.spec_patches_per_view()) as usize,
                    patch_cols: (3 * config.patch_size * config.patch_size) as usize,
                    max_token_len: config.max_token_len,
                    num_views: config.num_views,
                    image_size: config.image_size,
                    patch_size: config.patch_size,
                    accepts_rgb_u8: false,
                }
            }),
    {
        let config = &self.runtime.config;
        let per_view: usize = config.patches_per_view();
        proof {
            let p = config.patch_size as int;
            assert(3 * p <= 3 * p * p) by (nonlinear_arith)
                requires
                    p > 0,
            ;
        }
        let patch_cols: usize = 3 * config.patch_size * config.patch_size;
        VlaContract {
            action_rows: config.action_horizon,
            action_cols: config.action_dim,
            patch_rows: config.num_views * per_view,
            patch_cols,
            max_token_len: config.max_token_len,
            num_views: config.num_views,
            image_size: config.image_size,
            patch_size: config.patch_size,
            accepts_rgb_u8: false,
        }
    }

    /// The tensor that the flow starts at, and its words.
    fn latent_source(config: &Pi05Config, latent: InitialLatent) -> (out: (
        Tensor,
        Result<Vec<u16>, Error>,
    ))
        ensures
            out.0@ == latent_tensor(*config, latent),
            match latent_words(latent) {
                Ok(w) => out.1 matches Ok(v) && v@ == w,
                Err(e) => out.1 matches Err(f) && f@ == e,
            },
    {
        match latent {
            InitialLatent::Provided { tensor, words } => (tensor, words),
            InitialLatent::Generate { drawn } => {
                let dims: Vec<usize> = vec![config.action_horizon, config.action_dim];
                assert(dims@ =~= seq![config.action_horizon, config.action_dim]);
                (
                    Tensor {
                        dims,
                        dtype: DType::F16,
                        device: Device::Cpu,
                        storage: Storage::Cpu,
                    },
                    Ok(drawn),
                )
            },
        }
    }

    /// Make an action out of tensors on the device.
    fn run_brought(&mut self, patches: &Tensor, token_ids: &Vec<u32>, noise: &Tensor) -> (r: Result<
        Tensor,
        Error,
    >)
        requires
            old(self).wf(),
            infer_ready(
                old(self).runtime.config,
                old(self).runtime.weights,
                old(self).runtime.state(),
                patches@,
                token_ids@.len(),
                noise@,
                old(self).time_embeddings@,
            ),
        ensures
            final(self).wf(),
            final(self).same_model(*old(self)),
            ({
                let rt = old(self).runtime;
                let st = rt.state();
                let error = infer_error(
                    rt.config,
                    rt.weights,
                    patches@,
                    token_ids@.len(),
                    noise@,
                    old(self).time_embeddings@,
                );
                match r {
                    Err(e) => error == Some(e@) && *final(self) == *old(self),
                    Ok(t) => {
                        &&& error is None
                        &&& caches_kept(
                            rt.caches,
                            final(self).runtime.caches,
                            final(self).runtime.state(),
                        )
                        &&& made(st, *old(self), *final(self), patches@, token_ids@, noise@, t@)
                        &&& old(self).time_embeddings@.len() == 0 ==> owns(
                            st,
                            final(self).runtime.state(),
                            Seq::<Item>::empty(),
                        )
                    },
                }
            }),
    {
        proof {
            reveal(infer_ready);
            reveal(action_value);
        }
        self.runtime.infer(patches, token_ids, noise, &self.time_embeddings, self.dt)
    }

    /// Make an action out of what was brought for a request, and give that back.
    fn run_pair(
        &mut self,
        pair: Pair,
        token_ids: Vec<u32>,
        Ghost(s0): Ghost<DeviceState>,
        Ghost(s1): Ghost<DeviceState>,
    ) -> (r: Result<Action, Error>)
        requires
            old(self).wf(),
            s0.sane(),
            pair.came(s0, s1, old(self).runtime.state()),
            infer_ready(
                old(self).runtime.config,
                old(self).runtime.weights,
                old(self).runtime.state(),
                pair.patches@,
                token_ids@.len(),
                pair.noise@,
                old(self).time_embeddings@,
            ),
        ensures
            final(self).wf(),
            final(self).same_model(*old(self)),
            keeps(s0, final(self).runtime.state()),
            ({
                let rt = old(self).runtime;
                let error = infer_error(
                    rt.config,
                    rt.weights,
                    pair.patches@,
                    token_ids@.len(),
                    pair.noise@,
                    old(self).time_embeddings@,
                );
                match r {
                    Err(e) => {
                        &&& error == Some(e@)
                        &&& final(self).runtime.caches == rt.caches
                        &&& final(self).runtime.state().fresh == s0.fresh
                    },
                    Ok(action) => {
                        &&& error is None
                        &&& made(
                            s0,
                            *old(self),
                            *final(self),
                            pair.patches@,
                            token_ids@,
                            pair.noise@,
                            action.tensor@,
                        )
                        &&& caches_kept(
                            rt.caches,
                            final(self).runtime.caches,
                            final(self).runtime.state(),
                        )
                        &&& old(self).time_embeddings@.len() == 0 ==> {
                            &&& final(self).runtime.state().fresh == with_sent(
                                s0.fresh,
                                pair.noise_sent,
                                s1.issued as usize,
                                rt.state().fresh[s1.issued as usize],
                            )
                        }
                    },
                }
            }),
    {
        let ghost s2 = self.runtime.state();
        let r = self.run_brought(&pair.patches, &token_ids, &pair.noise);
        let ghost s3 = self.runtime.state();
        let steps: usize = self.time_embeddings.len();
        let done: bool = r.is_ok();
        proof {
            lemma_after(s0, s1, s2, s3, &pair, r, steps as nat);
        }
        self.runtime.give_back(&pair, !done || steps > 0, Ghost(s0), Ghost(s1), Ghost(s2));
        match r {
            Ok(out) => {
                proof {
                    if steps > 0 {
                        lemma_left(s0, s1, s2, s3, self.runtime.state(), &pair, out@);
                    } else {
                        lemma_untouched(s2, s3);
                        let n = s1.issued as usize;
                        assert(self.runtime.state().fresh =~= with_sent(
                            s0.fresh,
                            pair.noise_sent,
                            n,
                            s2.fresh[n],
                        ));
                    }
                }
                Ok(Action::new(out))
            },
            Err(e) => {
                assert(self.runtime.state().fresh =~= s0.fresh);
                Err(e)
            },
        }
    }

    /// Make an action. What was brought for the request is given back.
    fn run(&mut self, request: VlaRequest) -> (r: Result<Action, Error>)
        requires
            old(self).wf(),
            request_ready(*old(self), request),
        ensures
            final(self).wf(),
            final(self).same_model(*old(self)),
            match r {
                Err(e) => {
                    &&& action_error(*old(self), request) == Some(e@)
                    &&& final(self).runtime.caches == old(self).runtime.caches
                    &&& final(self).runtime.state().fresh == old(self).runtime.state().fresh
                    &&& keeps(old(self).runtime.state(), final(self).runtime.state())
                },
                Ok(action) => {
                    &&& action_error(*old(self), request) is None
                    &&& acted(*old(self), *final(self), request, action.tensor@)
                    &&& caches_kept(
                        old(self).runtime.caches,
                        final(self).runtime.caches,
                        final(self).runtime.state(),
                    )
                    &&& keeps(old(self).runtime.state(), final(self).runtime.state())
                    &&& old(self).time_embeddings@.len() == 0 ==> start_kept(
                        *old(self),
                        final(self).runtime.state(),
                        request,
                    )
                },
            },
    {
        let ghost s0 = self.runtime.state();
        proof {
            self.runtime.backend.ctx.lemma_safe();
        }
        let (patch_tensor, patch_words) = match request.vision {
            VisionObservation::Patches { tensor, words } => (tensor, words),
            VisionObservation::RgbU8 => {
                return Err(
                    other(
                        "π0.5 ascend path expects preprocessed patches (rgb-u8 patchify pending)",
                    ),
                );
            },
        };
        let (noise_tensor, noise_words) = Self::latent_source(&self.runtime.config, request.latent);
        let ghost s1 = sent(
            s0,
            self.runtime.backend.spec_device(),
            patch_tensor@,
            given_words(patch_words),
        ).0;
        let pair = self.runtime.bring_pair(patch_tensor, patch_words, noise_tensor, noise_words)?;
        self.run_pair(pair, request.token_ids, Ghost(s0), Ghost(s1))
    }

    /// Make an action and wait until it is there. `observation` and `spec` are the
    /// verdicts on the observation and on the shapes that it asks for.
    pub fn infer(
        &mut self,
        request: VlaRequest,
        observation: Result<(), Error>,
        spec: Result<(), Error>,
    ) -> (r: Result<Action, Error>)
        requires
            old(self).wf(),
            observation is Ok && spec is Ok ==> request_ready(*old(self), request),
        ensures
            final(self).wf(),
            final(self).same_model(*old(self)),
            match (observation, spec) {
                (Err(e), _) => *final(self) == *old(self) && r == Err::<Action, Error>(e),
                (Ok(_), Err(e)) => *final(self) == *old(self) && r == Err::<Action, Error>(e),
                (Ok(_), Ok(_)) => concluded(*old(self), *final(self), request, r),
            },
    {
        observation?;
        spec?;
        self.answer(request)
    }

    /// Prepare for requests of a shape. `valid` is the verdict on the shape.
    pub fn prepare<S>(&self, spec: S, valid: Result<(), Error>) -> (r: Result<
        AscendEagerPrepared<S>,
        Error,
    >)
        ensures
            match valid {
                Ok(_) => r matches Ok(p) && p.spec == spec,
                Err(e) => r matches Err(f) && f == e,
            },
    {
        match valid {
            Ok(_) => Ok(AscendEagerPrepared { spec }),
            Err(e) => Err(e),
        }
    }

    /// Make an action and wait until it is there.
    fn answer(&mut self, request: VlaRequest) -> (r: Result<Action, Error>)
        requires
            old(self).wf(),
            request_ready(*old(self), request),
        ensures
            final(self).wf(),
            final(self).same_model(*old(self)),
            concluded(*old(self), *final(self), request, r),
    {
        let action = self.run(request)?;
        let ghost mid = *self;
        self.runtime.backend.synchronize();
        proof {
            let st = mid.runtime.state();
            mid.runtime.caches.lemma_stable(st, self.runtime.state());
            lemma_settled(*old(self), mid, *self, request, action.tensor@);
        }
        Ok(action)
    }

    /// Make an action and bring it to the host, into a staging slot that the caller
    /// drops once it has read the bytes.
    pub fn infer_host_f32(
        &mut self,
        request: VlaRequest,
        observation: Result<(), Error>,
        spec: Result<(), Error>,
    ) -> (r: Result<OnHost, Error>)
        requires
            old(self).wf(),
            observation is Ok && spec is Ok ==> request_ready(*old(self), request),
            old(self).time_embeddings@.len() == 0 ==> start_there(*old(self), request),
        ensures
            final(self).same_model(*old(self)),
            match (observation, spec) {
                (Err(e), _) => *final(self) == *old(self) && r == Err::<OnHost, Error>(e),
                (Ok(_), Err(e)) => *final(self) == *old(self) && r == Err::<OnHost, Error>(e),
                (Ok(_), Ok(_)) => read_back(*old(self), *final(self), request, r),
            },
    {
        proof {
            self.runtime.backend.ctx.lemma_safe();
        }
        let action = self.infer(request, observation, spec)?;
        let ghost mid = *self;
        proof {
            lemma_action_there(*old(self), mid, request, action);
        }
        let r = self.runtime.backend.to_cpu(action.tensor());
        proof {
            assert(concluded(*old(self), mid, request, Ok(action)));
        }
        r
    }
}

/// The start of the flow, where it is given on the device, is live there.
pub open spec fn start_there(vla: Pi05AscendVlaRuntime, request: VlaRequest) -> bool {
    let rt = vla.runtime;
    let device = rt.backend.spec_device();
    let tensor = latent_tensor(rt.config, request.latent);
    tensor.device == device && operand_error(tensor) is None ==> rt.state().holds(
        tensor.on_device(),
    ) && is_lasting(tensor.on_device())
}

/// An action that was made is live, and the stream is done with it.
proof fn lemma_action_there(
    before: Pi05AscendVlaRuntime,
    mid: Pi05AscendVlaRuntime,
    request: VlaRequest,
    action: Action,
)
    requires
        before.wf(),
        before.runtime.state().sane(),
        before.time_embeddings@.len() == 0 ==> start_there(before, request),
        concluded(before, mid, request, Ok(action)),
    ensures
        operand_error(action.tensor@) is None ==> {
            &&& action.tensor@.buffer() matches Some(b) && mid.runtime.state().holds(b)
                && mid.runtime.state().settled(b)
        },
{
    let rt = before.runtime;
    let s0 = rt.state();
    let device = rt.backend.spec_device();
    let tensor = latent_tensor(rt.config, request.latent);
    let (st, patches, noise) = brought(s0, device, rt.config, request);
    let one = choose|one: Pi05AscendVlaRuntime|
        {
            &&& one.runtime.state() == st
            &&& one.same_model(before)
            &&& one.runtime.caches == rt.caches
            &&& #[trigger] made(
                rt.state(),
                one,
                mid,
                patches,
                request.token_ids@,
                noise,
                action.tensor@,
            )
        };
    if before.time_embeddings@.len() == 0 {
        if operand_error(action.tensor@) is None && tensor.device == device {
            let b = tensor.on_device();
            match b.base {
                Base::Fresh(id) => {
                    assert(s0.fresh.contains_key(id));
                },
                Base::Kept(id) => {
                    assert(s0.kept.contains_key(id));
                },
                _ => {},
            }
        }
    } else {
        lemma_delivers(
            s0,
            mid.runtime.state(),
            action.tensor@.on_device(),
            action_value(one, mid.runtime.caches, patches, request.token_ids@, noise),
        );
    }
}

/// What bringing an action to the host comes to: its bytes are in a new slot, or, where
/// the start of the flow was never on the device, it is held already.
pub open spec fn read_back(
    before: Pi05AscendVlaRuntime,
    after: Pi05AscendVlaRuntime,
    request: VlaRequest,
    r: Result<OnHost, Error>,
) -> bool {
    exists|mid: Pi05AscendVlaRuntime, made: Result<Action, Error>|
        #![trigger concluded(before, mid, request, made)]
        {
            &&& concluded(before, mid, request, made)
            &&& match made {
                Err(e) => r == Err::<OnHost, Error>(e) && after == mid,
                Ok(action) => {
                    let t = action.tensor@;
                    if t.device == Device::Cpu {
                        r matches Ok(OnHost::Held(u)) && u@ == t
                    } else {
                        match operand_error(t) {
                            Some(e) => r matches Err(f) && f@ == e,
                            None => r matches Ok(OnHost::Slot(slot)) && slot
                                == mid.runtime.state().issued && after.runtime.backend.ctx.issues(
                                &mid.runtime.backend.ctx,
                                Call::Download { src: t.on_device(), slot },
                            ) && after.runtime.state().staged[slot] == mid.runtime.state().value(
                                t.on_device(),
                            ),
                        }
                    }
                },
            }
        }
}

/// A model that was prepared for requests of one shape.
#[derive(Debug)]
pub struct AscendEagerPrepared<S> {
    pub spec: S,
}

impl<S> AscendEagerPrepared<S> {
    /// The shape that was prepared for.
    pub fn shape(&self) -> (shape: &S)
        ensures
            *shape == self.spec,
    {
        &self.spec
    }

    /// Make an action for a request that has the prepared shape, and wait until it is
    /// there. `fits` is whether it has.
    pub fn run(&self, vla: &mut Pi05AscendVlaRuntime, request: VlaRequest, fits: bool) -> (r:
        Result<Action, Error>)
        requires
            old(vla).wf(),
            fits ==> request_ready(*old(vla), request),
        ensures
            final(vla).wf(),
            final(vla).same_model(*old(vla)),
            if fits {
                concluded(*old(vla), *final(vla), request, r)
            } else {
                *final(vla) == *old(vla) && (r matches Err(e) && e@ == ErrorView::Other(
                    "π0.5 ascend prepared spec does not match the request"@,
                ))
            },
    {
        if !fits {
            return Err(other("π0.5 ascend prepared spec does not match the request"));
        }
        vla.answer(request)
    }
}

} // verus!
