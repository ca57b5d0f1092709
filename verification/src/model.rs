//! Tensors, weights and configuration of the model layer.

use vstd::prelude::*;

use crate::device::DeviceBuffer;
use crate::error::{first_error, other, Device, Error, ErrorView};

verus! {

/// Element type of a tensor.
#[derive(Debug, Clone, Copy, PartialEq, Eq, Structural)]
pub enum DType {
    F32,
    F16,
    BF16,
}

/// Where the elements of a tensor are.
#[derive(Debug, Clone, Copy, PartialEq, Eq, Structural)]
pub enum Storage {
    /// In host memory, which the caller holds.
    Cpu,
    /// In device memory. A tensor of another backend has no buffer here.
    Gpu { device: Device, buffer: Option<DeviceBuffer> },
}

/// A tensor.
#[derive(Debug)]
pub struct Tensor {
    pub dims: Vec<usize>,
    pub dtype: DType,
    pub device: Device,
    pub storage: Storage,
}

/// What a [`Tensor`] says.
#[verifier::ext_equal]
pub struct TensorInfo {
    pub dims: Seq<usize>,
    pub dtype: DType,
    pub device: Device,
    pub storage: Storage,
}

impl View for Tensor {
    type V = TensorInfo;

    open spec fn view(&self) -> TensorInfo {
        TensorInfo {
            dims: self.dims@,
            dtype: self.dtype,
            device: self.device,
            storage: self.storage,
        }
    }
}

impl Tensor {
    /// Another handle on the same elements.
    pub fn share(&self) -> (t: Tensor)
        ensures
            t@ == self@,
    {
        let mut dims: Vec<usize> = Vec::new();
        let mut i: usize = 0;
        while i < self.dims.len()
            invariant
                i <= self.dims@.len(),
                dims@ == self.dims@.take(i as int),
            decreases self.dims@.len() - i,
        {
            dims.push(self.dims[i]);
            i = i + 1;
            assert(dims@ =~= self.dims@.take(i as int));
        }
        assert(self.dims@.take(i as int) =~= self.dims@);
        Tensor { dims, dtype: self.dtype, device: self.device, storage: self.storage }
    }
}

impl TensorInfo {
    /// The device buffer behind the tensor, where there is one.
    pub open spec fn buffer(self) -> Option<DeviceBuffer> {
        match self.storage {
            Storage::Gpu { device, buffer } => buffer,
            Storage::Cpu => None,
        }
    }

    /// The device buffer behind a tensor that has one.
    pub open spec fn on_device(self) -> DeviceBuffer {
        self.buffer()->0
    }

    /// What is wrong with a tensor that is to be on the device.
    pub open spec fn residency_error(self) -> Option<ErrorView> {
        match self.storage {
            Storage::Gpu { device, buffer } => match buffer {
                Some(_) => None,
                None => Some(ErrorView::Other("tensor missing ascend storage"@)),
            },
            Storage::Cpu => Some(ErrorView::UnsupportedDevice(self.device)),
        }
    }
}

/// The device buffer behind a tensor.
pub fn tensor_buf(t: &Tensor) -> (r: Result<DeviceBuffer, Error>)
    ensures
        match r {
            Ok(b) => t@.residency_error() is None && t@.buffer() == Some(b),
            Err(e) => t@.residency_error() == Some(e@),
        },
{
    match t.storage {
        Storage::Gpu { device: _, buffer } => match buffer {
            Some(b) => Ok(b),
            None => Err(other("tensor missing ascend storage")),
        },
        Storage::Cpu => Err(Error::UnsupportedDevice(t.device)),
    }
}

/// What is wrong with an optional tensor that is to be on the device.
pub open spec fn optional_error(t: Option<Tensor>) -> Option<ErrorView> {
    match t {
        Some(t) => t@.residency_error(),
        None => None,
    }
}

/// The device buffer behind an optional tensor.
pub open spec fn optional_buffer(t: Option<Tensor>) -> Option<DeviceBuffer> {
    match t {
        Some(t) => t@.buffer(),
        None => None,
    }
}

/// The device buffer behind a tensor that may be absent.
pub fn tensor_opt(t: &Option<Tensor>) -> (r: Result<Option<DeviceBuffer>, Error>)
    ensures
        match r {
            Ok(b) => optional_error(*t) is None && optional_buffer(*t) == b,
            Err(e) => optional_error(*t) == Some(e@),
        },
{
    match t {
        Some(t) => match tensor_buf(t) {
            Ok(b) => Ok(Some(b)),
            Err(e) => Err(e),
        },
        None => Ok(None),
    }
}

/// What is wrong with a linear layer that is to be on the device.
pub open spec fn linear_error(w: Bf16LinearWeights) -> Option<ErrorView> {
    first_error(w.weight@.residency_error(), optional_error(w.bias))
}

/// The buffers of a linear layer: weight and bias.
pub fn linear_buffers(w: &Bf16LinearWeights) -> (r: Result<
    (DeviceBuffer, Option<DeviceBuffer>),
    Error,
>)
    ensures
        match r {
            Ok(b) => linear_error(*w) is None && b == (
                w.weight@.on_device(),
                optional_buffer(w.bias),
            ),
            Err(e) => linear_error(*w) == Some(e@),
        },
{
    let weight = tensor_buf(&w.weight)?;
    let bias = tensor_opt(&w.bias)?;
    Ok((weight, bias))
}

/// A linear layer on the device: `[in, out]` weight and `[out]` bias.
#[derive(Debug)]
pub struct Bf16LinearWeights {
    pub weight: Tensor,
    pub bias: Option<Tensor>,
    /// Whether gate and up columns are interleaved, as another accelerator wants them.
    pub bf16_dual_geglu_interleaved: bool,
}

/// Scale and shift of a layer norm.
#[derive(Debug)]
pub struct Bf16LayerNormWeights {
    pub weight: Tensor,
    pub bias: Tensor,
}

/// A block of the vision tower.
#[derive(Debug)]
pub struct Bf16DeviceVisionBlock {
    pub norm1: Bf16LayerNormWeights,
    pub qkv: Bf16LinearWeights,
    pub output: Bf16LinearWeights,
    pub norm2: Bf16LayerNormWeights,
    pub fc1: Bf16LinearWeights,
    pub fc2: Bf16LinearWeights,
}

/// A layer of the language model.
#[derive(Debug)]
pub struct Bf16DeviceLanguageLayer {
    pub input_norm_scale: Tensor,
    pub qkv: Bf16LinearWeights,
    pub output: Bf16LinearWeights,
    pub post_attention_norm_scale: Tensor,
    pub gate_up: Bf16LinearWeights,
    pub down: Bf16LinearWeights,
}

/// A layer of the action expert.
#[derive(Debug)]
pub struct Bf16DeviceActionLayer {
    pub input_style: Bf16LinearWeights,
    pub qkv: Bf16LinearWeights,
    pub output: Bf16LinearWeights,
    pub post_attention_style: Bf16LinearWeights,
    pub gate_up: Bf16LinearWeights,
    pub down: Bf16LinearWeights,
}

/// All weights of the model on the device.
#[derive(Debug)]
pub struct StaticBf16Pi05Weights {
    pub patch_embedding: Bf16LinearWeights,
    pub position_embedding: Tensor,
    pub vision_layers: Vec<Bf16DeviceVisionBlock>,
    pub vision_post_norm: Bf16LayerNormWeights,
    pub multimodal_projector: Bf16LinearWeights,
    pub token_embedding: Tensor,
    pub language_layers: Vec<Bf16DeviceLanguageLayer>,
    pub action_layers: Vec<Bf16DeviceActionLayer>,
    pub action_final_style: Bf16LinearWeights,
    pub action_in: Bf16LinearWeights,
    pub action_out: Bf16LinearWeights,
    pub time_mlp_in: Bf16LinearWeights,
    pub time_mlp_out: Bf16LinearWeights,
}

/// Shape of a transformer stack.
#[derive(Debug, Clone, Copy, PartialEq, Eq, Structural)]
pub struct GemmaVariantConfig {
    pub width: usize,
    pub depth: usize,
    pub mlp_dim: usize,
    pub num_heads: usize,
    pub num_kv_heads: usize,
    pub head_dim: usize,
}

/// Configuration of the model. Reals are single-precision patterns.
#[derive(Debug, Clone, Copy, PartialEq, Eq, Structural)]
pub struct Pi05Config {
    pub vision_depth: usize,
    pub vision_width: usize,
    pub vision_heads: usize,
    pub vision_head_dim: usize,
    pub language: GemmaVariantConfig,
    pub action_expert: GemmaVariantConfig,
    pub num_views: usize,
    pub image_size: usize,
    pub patch_size: usize,
    pub action_horizon: usize,
    pub action_dim: usize,
    pub max_token_len: usize,
    pub num_flow_steps: usize,
    pub layer_norm_eps: u32,
    pub rms_norm_eps: u32,
    pub rope_theta: u32,
}

impl Pi05Config {
    /// Patches along one side of an image.
    pub open spec fn patches_per_side(&self) -> int {
        self.image_size as int / self.patch_size as int
    }

    /// Patches of one view: an image is cut into squares.
    pub open spec fn spec_patches_per_view(&self) -> int {
        self.patches_per_side() * self.patches_per_side()
    }

    /// Patches can be counted.
    pub open spec fn patches_fit(&self) -> bool {
        self.patch_size > 0 && self.spec_patches_per_view() <= usize::MAX
    }

    /// Patches of one view: an image is cut into squares.
    pub fn patches_per_view(&self) -> (n: usize)
        requires
            self.patches_fit(),
        ensures
            n == self.spec_patches_per_view(),
    {
        let side: usize = self.image_size / self.patch_size;
        side * side
    }
}

} // verus!
