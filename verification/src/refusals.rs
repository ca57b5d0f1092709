//! What is refused, and with which error: every tensor that has to be on the device and is
//! not, counts that do not agree, and which of several errors is the one that is reported.

use vstd::prelude::*;

use crate::backend::{
    descriptor_dims, matmul_error, matrix_error, operand_error, pair_error, rms_norm_error,
};
use crate::error::{first_of, lemma_first_of, lemma_first_of_none, Device, Error, ErrorView};
use crate::exchange::{generator_error, output_error};
use crate::executor::action::{action_error, ActionTensors};
use crate::executor::language::language_weights_error;
use crate::executor::vision::{patch_error, vision_weights_error};
use crate::model::{
    linear_error, Bf16DeviceActionLayer, Bf16DeviceLanguageLayer, Bf16DeviceVisionBlock,
    Bf16LinearWeights, DType, Pi05Config, StaticBf16Pi05Weights, Tensor, TensorInfo,
};
use crate::runtime::flow::{expert_error, expert_layer_error, step_error, steps_error};
use crate::runtime::methods::{infer_error, styled_step_error, styled_steps_error};
use crate::runtime::pi05::{
    embed_error, prefix_error, runtime_error, token_count_error, AscendPrefixKvCache,
    AscendStepStyles,
};
use crate::runtime::prepare::{all_styles_error, prepare_error};
use crate::runtime::vision::vision_tower_error;
use crate::text::{bracketed, decimal};
use crate::vla::{request_error, InitialLatent, VisionObservation, VlaRequest};

verus! {

/// A tensor is taken exactly where it has a buffer on a device; an operand of the backend
/// exactly where that device is an accelerator of its kind. A tensor on the host is refused
/// with the device that it says it is on.
pub proof fn lemma_tensor_refused(t: TensorInfo)
    ensures
        t.residency_error() is None <==> (t.storage is Gpu && t.storage->buffer is Some),
        t.storage is Cpu ==> t.residency_error() == Some(ErrorView::UnsupportedDevice(t.device)),
        t.storage is Gpu && t.storage->buffer is None ==> t.residency_error() == Some(
            ErrorView::Other("tensor missing ascend storage"@),
        ),
        operand_error(t) is None <==> (t.storage is Gpu && t.storage->Gpu_device is Ascend
            && t.storage->buffer is Some),
        !(t.storage is Gpu && t.storage->Gpu_device is Ascend) ==> operand_error(t) == Some(
            ErrorView::UnsupportedDevice(t.device),
        ),
        t.storage is Gpu && t.storage->Gpu_device is Ascend && t.storage->buffer is None
            ==> operand_error(t) == Some(
            ErrorView::Other("ascend tensor storage missing DeviceBuffer"@),
        ),
        output_error(t) is None <==> (t.storage is Gpu && t.storage->buffer is Some),
        t.storage is Cpu ==> output_error(t) == Some(ErrorView::UnsupportedDevice(t.device)),
{
}

/// A generator takes only half-precision tensors of its own device.
pub proof fn lemma_generator_refused(device: Device, t: TensorInfo)
    ensures
        generator_error(device, t) is None <==> (t.device == device && t.dtype == DType::F16
            && t.storage is Gpu && t.storage->Gpu_device is Ascend && t.storage->buffer is Some),
        t.device != device ==> generator_error(device, t) == Some(
            ErrorView::UnsupportedDevice(t.device),
        ),
{
}

/// A linear layer is taken exactly where its weight is on the device, and its bias where it
/// has one. The weight is looked at first.
pub proof fn lemma_linear_refused(w: Bf16LinearWeights)
    ensures
        linear_error(w) == first_of(
            seq![
                w.weight@.residency_error(),
                match w.bias {
                    Some(b) => b@.residency_error(),
                    None => None,
                },
            ],
        ),
{
    reveal_with_fuel(first_of, 3);
}

/// A norm wants a matrix, and a product two matrices that agree on the axis that is summed
/// over; the shapes are looked at before the operands, and the first operand before the
/// second.
pub proof fn lemma_operands_refused(a: TensorInfo, b: TensorInfo)
    ensures
        pair_error(a, b) == first_of(seq![operand_error(a), operand_error(b)]),
        a.dims.len() == 2 ==> matrix_error(a) == operand_error(a),
        a.dims.len() != 2 ==> matrix_error(a) == Some(
            ErrorView::Other(
                "ascend rms_norm expects 2-D [seq, hidden], got "@ + bracketed(
                    descriptor_dims(a.dims),
                ) + " (flatten first)"@,
            ),
        ),
        rms_norm_error(a, b) == first_of(seq![matrix_error(a), operand_error(b)]),
        a.dims.len() == 2 && b.dims.len() == 2 && a.dims[1] as i64 == b.dims[0] as i64
            ==> matmul_error(a, b) == first_of(seq![operand_error(a), operand_error(b)]),
        !(a.dims.len() == 2 && b.dims.len() == 2 && a.dims[1] as i64 == b.dims[0] as i64)
            ==> matmul_error(a, b) == Some(
            ErrorView::Other(
                "ascend matmul expects 2-D [m,k]x[k,n], got "@ + bracketed(descriptor_dims(a.dims))
                    + "x"@ + bracketed(descriptor_dims(b.dims)),
            ),
        ),
{
    reveal_with_fuel(first_of, 3);
}

/// The weights of a vision block are looked at in the order in which the block uses them,
/// and so are those of the tower.
pub proof fn lemma_vision_refused(
    block: Bf16DeviceVisionBlock,
    w: StaticBf16Pi05Weights,
    patches: Tensor,
    linear: Bf16LinearWeights,
    positions: Tensor,
)
    ensures
        vision_weights_error(block) == first_of(
            seq![
                block.norm1.weight@.residency_error(),
                block.norm1.bias@.residency_error(),
                linear_error(block.qkv),
                linear_error(block.output),
                block.norm2.weight@.residency_error(),
                block.norm2.bias@.residency_error(),
                linear_error(block.fc1),
                linear_error(block.fc2),
            ],
        ),
        vision_tower_error(w) == first_of(
            seq![
                linear_error(w.patch_embedding),
                w.position_embedding@.residency_error(),
                first_of(
                    Seq::new(
                        w.vision_layers@.len(),
                        |i: int| vision_weights_error(w.vision_layers@[i]),
                    ),
                ),
                w.vision_post_norm.weight@.residency_error(),
                w.vision_post_norm.bias@.residency_error(),
                linear_error(w.multimodal_projector),
            ],
        ),
        patch_error(patches, linear, positions) == first_of(
            seq![
                patches@.residency_error(),
                linear_error(linear),
                positions@.residency_error(),
            ],
        ),
{
    reveal_with_fuel(first_of, 9);
}

/// A language layer is looked at up to its keys and values, and to its end only where it
/// computes a hidden state.
pub proof fn lemma_language_refused(w: Bf16DeviceLanguageLayer)
    ensures
        language_weights_error(w, false) == first_of(
            seq![operand_error(w.input_norm_scale@), linear_error(w.qkv)],
        ),
        language_weights_error(w, true) == first_of(
            seq![
                operand_error(w.input_norm_scale@),
                linear_error(w.qkv),
                linear_error(w.output),
                operand_error(w.post_attention_norm_scale@),
                w.gate_up.weight@.residency_error(),
                linear_error(w.down),
            ],
        ),
{
    reveal_with_fuel(first_of, 7);
}

/// What an action layer works on is looked at in the order in which the layer uses it. The
/// style of its first norm counts only where the layer before has not normalized its input.
pub proof fn lemma_action_refused(w: Bf16DeviceActionLayer, t: ActionTensors)
    ensures
        action_error(w, t) == first_of(
            seq![
                match t.attention_normalized {
                    Some(x) => x@.residency_error(),
                    None => t.attention_style@.residency_error(),
                },
                linear_error(w.qkv),
                t.prefix_k@.residency_error(),
                t.prefix_v@.residency_error(),
                linear_error(w.output),
                t.mlp_style@.residency_error(),
                w.gate_up.weight@.residency_error(),
                linear_error(w.down),
                t.next_norm_style@.residency_error(),
            ],
        ),
{
    reveal_with_fuel(first_of, 10);
}

/// In a step with given styles and a given prefix, layer `i` is looked at with the keys and
/// values of that layer, with its own styles, and with the style of the norm that follows:
/// the next layer's first one, or the last norm's.
pub proof fn lemma_expert_layer_refused(
    w: Bf16DeviceActionLayer,
    styles: AscendStepStyles,
    prefix: AscendPrefixKvCache,
    depth: nat,
    i: int,
)
    ensures
        expert_layer_error(w, Some(&styles), Some(&prefix), depth, i) == first_of(
            seq![
                if i == 0 {
                    styles.attention@[0]@.residency_error()
                } else {
                    None
                },
                linear_error(w.qkv),
                prefix.keys@[i]@.residency_error(),
                prefix.values@[i]@.residency_error(),
                linear_error(w.output),
                styles.mlp@[i]@.residency_error(),
                w.gate_up.weight@.residency_error(),
                linear_error(w.down),
                if i + 1 < depth {
                    styles.attention@[i + 1]@.residency_error()
                } else {
                    styles.final_norm@.residency_error()
                },
            ],
        ),
        expert_layer_error(w, None, None, depth, i) == first_of(
            seq![
                linear_error(w.qkv),
                linear_error(w.output),
                w.gate_up.weight@.residency_error(),
                linear_error(w.down),
            ],
        ),
{
    reveal_with_fuel(first_of, 10);
}

/// A model runs here exactly where its configuration is valid, it has as many layers of each
/// kind as the configuration says, and no fused weight of a gated block is interleaved. The
/// verdict on the configuration comes first, and the depths before the layout.
pub proof fn lemma_model_refused(
    validated: Result<(), Error>,
    config: Pi05Config,
    w: StaticBf16Pi05Weights,
)
    ensures
        ({
            let depths = w.vision_layers@.len() == config.vision_depth
                && w.language_layers@.len() == config.language.depth
                && w.action_layers@.len() == config.action_expert.depth;
            let plain = (forall|i: int|
                0 <= i < w.language_layers@.len() ==> !(
                #[trigger] w.language_layers@[i]).gate_up.bf16_dual_geglu_interleaved) && (forall|
                i: int,
            |
                0 <= i < w.action_layers@.len() ==> !(
                #[trigger] w.action_layers@[i]).gate_up.bf16_dual_geglu_interleaved);
            let error = runtime_error(validated, config, w);
            &&& error is None <==> (validated is Ok && depths && plain)
            &&& validated is Err ==> error == Some((validated->Err_0)@)
            &&& validated is Ok && !depths ==> error == Some(
                ErrorView::Other("π0.5 Ascend device weight depth mismatch"@),
            )
        }),
{
}

/// A step is refused first where the keys, the values or one kind of styles are not as many
/// as the layers of the action expert, then for its state, then for what it works on: the
/// input projection, the layers in their order, and the output projection. An action expert
/// without layers is refused.
pub proof fn lemma_step_refused(
    config: Pi05Config,
    w: StaticBf16Pi05Weights,
    state: Option<ErrorView>,
    styles: AscendStepStyles,
    prefix: AscendPrefixKvCache,
)
    ensures
        ({
            let depth = config.action_expert.depth;
            let agree = prefix.keys@.len() == depth && prefix.values@.len() == depth
                && styles.attention@.len() == depth && styles.mlp@.len() == depth;
            let layers = w.action_layers@;
            let error = step_error(config, w, state, Some(&styles), Some(&prefix));
            &&& !agree ==> error == Some(
                ErrorView::Other("π0.5 Ascend prefix/style depth mismatch"@),
            )
            &&& agree ==> error == first_of(
                seq![
                    state,
                    linear_error(w.action_in),
                    first_of(
                        Seq::new(
                            layers.len(),
                            |i: int|
                                expert_layer_error(
                                    layers[i],
                                    Some(&styles),
                                    Some(&prefix),
                                    layers.len(),
                                    i,
                                ),
                        ),
                    ),
                    if layers.len() == 0 {
                        Some(
                            ErrorView::Other(
                                "π0.5 action expert must contain at least one layer"@,
                            ),
                        )
                    } else {
                        None
                    },
                    linear_error(w.action_out),
                ],
            )
        }),
{
    reveal_with_fuel(first_of, 6);
}

/// Where the prefix and the styles are still to be made, a step is refused exactly where the
/// language model has not as many layers as the action expert, or for its state or the
/// weights of the expert.
pub proof fn lemma_own_step_refused(
    config: Pi05Config,
    w: StaticBf16Pi05Weights,
    state: Option<ErrorView>,
)
    ensures
        config.language.depth != config.action_expert.depth ==> step_error(
            config,
            w,
            state,
            None,
            None,
        ) == Some(ErrorView::Other("π0.5 Ascend prefix/style depth mismatch"@)),
        config.language.depth == config.action_expert.depth ==> step_error(
            config,
            w,
            state,
            None,
            None,
        ) == first_of(seq![state, expert_error(w, None, None)]),
{
    reveal_with_fuel(first_of, 3);
}

/// A run with given styles is refused first where there is not one set for every step, then
/// for the first step that is refused. Only the first step works on the noise.
pub proof fn lemma_run_refused(
    config: Pi05Config,
    w: StaticBf16Pi05Weights,
    noise: Option<ErrorView>,
    styles: Seq<AscendStepStyles>,
    prefix: Option<&AscendPrefixKvCache>,
)
    ensures
        styles.len() != config.num_flow_steps ==> steps_error(config, w, noise, styles, prefix)
            == Some(
            ErrorView::Other(
                "π0.5 expected "@ + decimal(config.num_flow_steps as int)
                    + " precomputed style sets, got "@ + decimal(styles.len() as int),
            ),
        ),
        styles.len() == config.num_flow_steps ==> steps_error(config, w, noise, styles, prefix)
            == first_of(
            Seq::new(
                styles.len(),
                |k: int|
                    step_error(
                        config,
                        w,
                        if k == 0 {
                            noise
                        } else {
                            None
                        },
                        Some(&styles[k]),
                        prefix,
                    ),
            ),
        ),
{
    let each = Seq::new(
        styles.len(),
        |k: int|
            step_error(
                config,
                w,
                if k == 0 {
                    noise
                } else {
                    None
                },
                Some(&styles[k]),
                prefix,
            ),
    );
    assert(crate::runtime::flow::flow_errors(config, w, noise, styles, prefix) =~= each);
}

/// Styles are made only of a time embedding on the device, through the two layers of the time
/// network and the two style layers of every layer of the action expert, and the style layer
/// of the last norm; of all steps only where there is one embedding for each.
pub proof fn lemma_styles_refused(
    config: Pi05Config,
    w: StaticBf16Pi05Weights,
    t: TensorInfo,
    times: Seq<Tensor>,
)
    ensures
        prepare_error(w, t) == first_of(
            seq![
                t.residency_error(),
                linear_error(w.time_mlp_in),
                linear_error(w.time_mlp_out),
                first_of(
                    Seq::new(
                        w.action_layers@.len(),
                        |i: int|
                            first_of(
                                seq![
                                    linear_error(w.action_layers@[i].input_style),
                                    linear_error(w.action_layers@[i].post_attention_style),
                                ],
                            ),
                    ),
                ),
                linear_error(w.action_final_style),
            ],
        ),
        times.len() != config.num_flow_steps ==> all_styles_error(config.num_flow_steps, w, times)
            == Some(
            ErrorView::Other(
                "π0.5 expected "@ + decimal(config.num_flow_steps as int)
                    + " timestep embeddings, got "@ + decimal(times.len() as int),
            ),
        ),
        times.len() == config.num_flow_steps ==> all_styles_error(config.num_flow_steps, w, times)
            == first_of(Seq::new(times.len(), |k: int| prepare_error(w, times[k]@))),
{
    reveal_with_fuel(first_of, 6);
    let layers = Seq::new(
        w.action_layers@.len(),
        |i: int|
            first_of(
                seq![
                    linear_error(w.action_layers@[i].input_style),
                    linear_error(w.action_layers@[i].post_attention_style),
                ],
            ),
    );
    assert(crate::runtime::styles::layer_style_errors(w.action_layers@) =~= layers);
}

/// The prefix wants a number of tokens that the model takes, then the embedding table and
/// the vision tokens on the device; its layers a matrix, where there are layers.
pub proof fn lemma_prefix_refused(
    config: Pi05Config,
    w: StaticBf16Pi05Weights,
    vision: TensorInfo,
    count: nat,
    prefix: TensorInfo,
)
    ensures
        1 <= count <= config.max_token_len ==> embed_error(config, w, vision, count) == first_of(
            seq![w.token_embedding@.residency_error(), vision.residency_error()],
        ),
        !(1 <= count <= config.max_token_len) ==> embed_error(config, w, vision, count) == Some(
            ErrorView::Other(
                "π0.5 token count must be in 1..="@ + decimal(config.max_token_len as int)
                    + ", got "@ + decimal(count as int),
            ),
        ),
        w.language_layers@.len() == 0 ==> prefix_error(config, w, prefix) is None,
        w.language_layers@.len() > 0 ==> prefix_error(config, w, prefix) == first_of(
            seq![
                matrix_error(prefix),
                first_of(
                    Seq::new(
                        w.language_layers@.len(),
                        |i: int|
                            language_weights_error(
                                w.language_layers@[i],
                                i + 1 < config.language.depth,
                            ),
                    ),
                ),
            ],
        ),
{
    reveal_with_fuel(first_of, 3);
}

/// An inference is refused first for its time embeddings and the layers that make styles of
/// them, then for its patches and the tower, for the number of tokens, the embedding table
/// and the language layers, and last, where there are steps, for the noise and the expert.
pub proof fn lemma_inference_refused(
    config: Pi05Config,
    w: StaticBf16Pi05Weights,
    patches: TensorInfo,
    count: nat,
    noise: TensorInfo,
    times: Seq<Tensor>,
    time: TensorInfo,
    prefix: AscendPrefixKvCache,
)
    ensures
        infer_error(config, w, patches, count, noise, times) == first_of(
            seq![
                all_styles_error(config.num_flow_steps, w, times),
                patches.residency_error(),
                vision_tower_error(w),
                token_count_error(count, config.max_token_len),
                w.token_embedding@.residency_error(),
                first_of(
                    Seq::new(
                        w.language_layers@.len(),
                        |i: int|
                            language_weights_error(
                                w.language_layers@[i],
                                i + 1 < config.language.depth,
                            ),
                    ),
                ),
                if times.len() == 0 {
                    None
                } else {
                    step_error(config, w, noise.residency_error(), None, None)
                },
            ],
        ),
        styled_step_error(config, w, noise, time, prefix) == first_of(
            seq![
                prepare_error(w, time),
                step_error(config, w, noise.residency_error(), None, Some(&prefix)),
            ],
        ),
        times.len() > 0 ==> styled_steps_error(config, w, noise, times, Some(&prefix))
            == first_of(
            seq![
                all_styles_error(config.num_flow_steps, w, times),
                step_error(config, w, noise.residency_error(), None, Some(&prefix)),
            ],
        ),
        times.len() == 0 ==> styled_steps_error(config, w, noise, times, Some(&prefix))
            == all_styles_error(config.num_flow_steps, w, times),
{
    reveal_with_fuel(first_of, 8);
}

/// A request with raw images is refused. What is on the device already is taken as it is;
/// of anything else the host has to have read the words, and the patches are looked at
/// before the start of the flow. Drawn noise is never refused.
pub proof fn lemma_request_refused(device: Device, config: Pi05Config, request: VlaRequest)
    ensures
        request.vision is RgbU8 ==> request_error(device, config, request) == Some(
            ErrorView::Other(
                "π0.5 ascend path expects preprocessed patches (rgb-u8 patchify pending)"@,
            ),
        ),
        request.vision matches VisionObservation::Patches { tensor, words } ==> ({
            let unread = match words {
                Ok(_) => None,
                Err(e) => if tensor@.device == device {
                    None
                } else {
                    Some(e@)
                },
            };
            &&& unread is Some ==> request_error(device, config, request) == unread
            &&& unread is None && request.latent is Generate ==> request_error(
                device,
                config,
                request,
            ) is None
            &&& unread is None ==> (request.latent matches InitialLatent::Provided {
                tensor: start,
                words: given,
            } ==> request_error(device, config, request) == (match given {
                Ok(_) => None,
                Err(e) => if start@.device == device {
                    None
                } else {
                    Some(e@)
                },
            }))
        }),
{
}

/// Of a list of errors the first one is reported, and none exactly where there is none.
pub proof fn lemma_reported(errors: Seq<Option<ErrorView>>)
    ensures
        first_of(errors) is None <==> (forall|j: int|
            0 <= j < errors.len() ==> (#[trigger] errors[j]) is None),
        forall|i: int|
            0 <= i < errors.len() && (#[trigger] errors[i]) is Some && (forall|j: int|
                0 <= j < i ==> (#[trigger] errors[j]) is None) ==> first_of(errors) == errors[i],
{
    if first_of(errors) is None {
        lemma_first_of_none(errors);
    }
    if forall|j: int| 0 <= j < errors.len() ==> (#[trigger] errors[j]) is None {
        lemma_first_of(errors, errors.len() as int);
    }
    assert forall|i: int|
        0 <= i < errors.len() && (#[trigger] errors[i]) is Some && (forall|j: int|
            0 <= j < i ==> (#[trigger] errors[j]) is None) implies first_of(errors)
        == errors[i] by {
        lemma_first_of(errors, i);
    }
}

} // verus!
