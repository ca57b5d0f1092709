//! The vocabulary of a device program: buffers, tensor descriptors, kernel
//! entry points, and the commands that a program is made of.

use vstd::prelude::*;

verus! {

/// Element type codes of the runtime.
pub const ACL_FLOAT: u32 = 0;

pub const ACL_FLOAT16: u32 = 1;

pub const ACL_INT32: u32 = 3;

/// Tensor format codes of the runtime.
pub const ACL_FORMAT_ND: u32 = 2;

pub const ACL_FORMAT_FRACTAL_NZ: u32 = 29;

/// Where a device address comes from.
///
/// Identifiers are handed out once and never reused, so two buffers with the
/// same origin always mean the same allocation.
#[derive(Debug, Clone, Copy, PartialEq, Eq, Structural)]
pub enum Base {
    /// An allocation that its creator releases.
    Fresh(usize),
    /// An allocation that a cache holds for the life of the process.
    Kept(usize),
    /// The one pooled scratch buffer of this many bytes.
    Pool(usize),
    /// An allocation that a one-entry cache holds until the entry is replaced.
    Slot(usize),
}

/// A device address: an allocation and a byte offset into it.
#[derive(Debug, Clone, Copy, PartialEq, Eq, Structural)]
pub struct DevicePtr {
    pub base: Base,
    pub offset: usize,
}

/// A range of device memory.
#[derive(Debug, Clone, Copy, PartialEq, Eq, Structural)]
pub struct DeviceBuffer {
    pub base: Base,
    pub offset: usize,
    pub len: usize,
}

impl DeviceBuffer {
    /// Where the buffer begins.
    pub open spec fn ptr(self) -> DevicePtr {
        DevicePtr { base: self.base, offset: self.offset }
    }

    pub fn as_ptr(&self) -> (ptr: DevicePtr)
        ensures
            ptr == self.ptr(),
    {
        DevicePtr { base: self.base, offset: self.offset }
    }

    pub fn len(&self) -> (len: usize)
        ensures
            len == self.len,
    {
        self.len
    }

    pub fn is_empty(&self) -> (empty: bool)
        ensures
            empty == (self.len == 0),
    {
        self.len == 0
    }

    /// A view into `backing` at a byte offset. The backing buffer keeps the
    /// allocation and must outlive the view.
    pub fn view_of(backing: &DeviceBuffer, offset_bytes: usize, len_bytes: usize) -> (view:
        DeviceBuffer)
        requires
            offset_bytes + len_bytes <= backing.len,
            backing.offset + backing.len <= usize::MAX,
        ensures
            view.base == backing.base,
            view.offset == backing.offset + offset_bytes,
            view.len == len_bytes,
    {
        DeviceBuffer {
            base: backing.base,
            offset: backing.offset + offset_bytes,
            len: len_bytes,
        }
    }
}

/// A real parameter of a kernel, carried as its bit pattern.
#[derive(Debug, Clone, Copy, PartialEq, Eq, Structural)]
pub enum Real {
    /// A single-precision pattern, to be widened to double precision.
    Single(u32),
    /// A double-precision pattern.
    Double(u64),
}

/// The factor that attention scores are scaled by.
#[derive(Debug, Clone, Copy, PartialEq, Eq, Structural)]
pub enum Scale {
    /// One over the square root of the head dimension.
    InverseSqrt(i64),
    /// An explicit double-precision pattern.
    Given(u64),
}

/// Axis order of the attention operands.
#[derive(Debug, Clone, Copy, PartialEq, Eq, Structural)]
pub enum Layout {
    Bnsd,
    Bsh,
}

/// A kernel entry point with its non-tensor parameters.
#[derive(Debug, Clone, Copy, PartialEq, Eq, Structural)]
pub enum Entry {
    Matmul { cube_math: i8 },
    MatmulWeightNz { cube_math: i8 },
    Mm { cube_math: i8 },
    /// `alpha` and `beta` are single-precision patterns.
    Gemm { alpha: u32, beta: u32, trans_a: i64, trans_b: i64, cube_math: i8 },
    /// `alpha` is a single-precision pattern.
    Add { alpha: u32 },
    Mul,
    /// `factor` is a single-precision pattern.
    Muls { factor: u32 },
    Silu,
    GeluV2 { approximate: i64 },
    AddRmsNorm { epsilon: Real },
    AddLayerNorm { epsilon: Real },
    /// The inputs are gathered into one tensor list, which owns them from then on.
    Cat { dim: i64 },
    GatherV2 { dim: i64 },
    /// Unmasked attention: unrestricted look-back, no look-ahead window,
    /// no sparse mode, default inner precision.
    PromptFlashAttentionV3 { heads: i64, scale: Scale, layout: Layout, kv_heads: i64 },
}

/// How a kernel is started and how its failure is reported.
#[derive(Debug, Clone, Copy, PartialEq, Eq, Structural)]
pub enum LaunchMode {
    /// Plan, allocate the workspace that the plan asks for, run.
    TwoStage,
    /// Plan and run without a workspace.
    Bare,
}

/// A computation on host memory between a readback and an upload. Slots are
/// host staging areas.
#[derive(Debug, Clone, Copy, PartialEq, Eq, Structural)]
pub enum HostTask {
    /// Transpose the `[rows, cols]` half-precision matrix in `from`.
    Transpose { from: usize, rows: i64, cols: i64 },
    /// Bytes `[offset, offset + len)` of `from`.
    Slice { from: usize, offset: usize, len: usize },
    /// The first `words` half-precision words of `from`, each plus one.
    PlusOne { from: usize, words: usize },
    /// Half-precision cosine table for `max_pos` positions.
    RopeCos { theta: u32, d: i64, max_pos: usize },
    /// Half-precision sine table with the rotate-half sign folded in.
    RopeSin { theta: u32, d: i64, max_pos: usize },
}

/// A tensor descriptor: a strided view bound to a range of device memory.
#[derive(Debug)]
pub struct AclTensor {
    pub buffer: DeviceBuffer,
    pub dims: Vec<i64>,
    pub strides: Vec<i64>,
    pub dtype: u32,
    pub format: u32,
    /// Storage shape, where the view declares one.
    pub storage: Option<Vec<i64>>,
    /// Names the creation of the descriptor in the error that its failure gives.
    pub op: &'static str,
}

/// What an [`AclTensor`] says.
#[verifier::ext_equal]
pub struct TensorView {
    pub buffer: DeviceBuffer,
    pub dims: Seq<i64>,
    pub strides: Seq<i64>,
    pub dtype: u32,
    pub format: u32,
    pub storage: Option<Seq<i64>>,
    pub op: Seq<char>,
}

impl View for AclTensor {
    type V = TensorView;

    open spec fn view(&self) -> TensorView {
        TensorView {
            buffer: self.buffer,
            dims: self.dims@,
            strides: self.strides@,
            dtype: self.dtype,
            format: self.format,
            storage: match self.storage {
                Some(dims) => Some(dims@),
                None => None,
            },
            op: self.op@,
        }
    }
}

/// One step of a device program. The text in `op` names the step in the
/// error that its failure gives.
#[derive(Debug)]
pub enum Command {
    /// Allocate `len` bytes of device memory.
    Malloc { base: Base, len: usize },
    /// Make sure that the pooled scratch buffer of `len` bytes exists.
    Scratch { len: usize },
    /// Give an allocation back once the stream has drained.
    Release { base: Base },
    /// Fill a buffer with one byte value.
    Fill { buffer: DeviceBuffer, value: u8 },
    /// Copy `src` to `dst`, which is as long.
    Copy { dst: DeviceBuffer, src: DeviceBuffer, op: &'static str },
    /// Copy host bytes to a buffer of the same length.
    Upload { dst: DeviceBuffer, bytes: Vec<u8> },
    /// Copy a staging slot to a buffer of the same length.
    UploadStaged { dst: DeviceBuffer, slot: usize },
    /// Copy a buffer into a new staging slot.
    Download { src: DeviceBuffer, slot: usize },
    /// Compute a new staging slot.
    Stage { slot: usize, task: HostTask },
    /// Drop a staging slot.
    Unstage { slot: usize },
    /// Wait until the stream has drained.
    Sync,
    /// Create a tensor descriptor.
    Describe { id: usize, tensor: AclTensor },
    /// Destroy a tensor descriptor.
    Undescribe { id: usize },
    /// Start a kernel.
    Launch {
        entry: Entry,
        inputs: Vec<usize>,
        outputs: Vec<usize>,
        mode: LaunchMode,
        plan_op: &'static str,
        run_op: &'static str,
    },
}

/// What a [`Command`] says.
#[verifier::ext_equal]
pub enum Call {
    Malloc { base: Base, len: usize },
    Scratch { len: usize },
    Release { base: Base },
    Fill { buffer: DeviceBuffer, value: u8 },
    Copy { dst: DeviceBuffer, src: DeviceBuffer, op: Seq<char> },
    Upload { dst: DeviceBuffer, bytes: Seq<u8> },
    UploadStaged { dst: DeviceBuffer, slot: usize },
    Download { src: DeviceBuffer, slot: usize },
    Stage { slot: usize, task: HostTask },
    Unstage { slot: usize },
    Sync,
    Describe { id: usize, tensor: TensorView },
    Undescribe { id: usize },
    Launch {
        entry: Entry,
        inputs: Seq<usize>,
        outputs: Seq<usize>,
        mode: LaunchMode,
        plan_op: Seq<char>,
        run_op: Seq<char>,
    },
}

impl View for Command {
    type V = Call;

    open spec fn view(&self) -> Call {
        match *self {
            Command::Malloc { base, len } => Call::Malloc { base, len },
            Command::Scratch { len } => Call::Scratch { len },
            Command::Release { base } => Call::Release { base },
            Command::Fill { buffer, value } => Call::Fill { buffer, value },
            Command::Copy { dst, src, op } => Call::Copy { dst, src, op: op@ },
            Command::Upload { dst, bytes } => Call::Upload { dst, bytes: bytes@ },
            Command::UploadStaged { dst, slot } => Call::UploadStaged { dst, slot },
            Command::Download { src, slot } => Call::Download { src, slot },
            Command::Stage { slot, task } => Call::Stage { slot, task },
            Command::Unstage { slot } => Call::Unstage { slot },
            Command::Sync => Call::Sync,
            Command::Describe { id, tensor } => Call::Describe { id, tensor: tensor@ },
            Command::Undescribe { id } => Call::Undescribe { id },
            Command::Launch { entry, inputs, outputs, mode, plan_op, run_op } => Call::Launch {
                entry,
                inputs: inputs@,
                outputs: outputs@,
                mode,
                plan_op: plan_op@,
                run_op: run_op@,
            },
        }
    }
}

} // verus!
