//! What a device program does to device memory.
//!
//! Memory holds symbolic bytes: a literal that the host uploaded, or byte
//! `index` of an output that a kernel computed from given inputs. Two buffers
//! with the same symbolic bytes hold the same data whatever the kernels compute.
//! Kernels that only move data leave the bytes that they move. Of the other kernels
//! a byte is known by the part of the operands that it depends on.

use vstd::prelude::*;

use crate::device::{
    Base, Call, DeviceBuffer, Entry, HostTask, Layout, TensorView, ACL_FLOAT, ACL_FLOAT16,
    ACL_INT32,
};
use crate::host::transpose_words;

verus! {

/// The content of one byte of device memory.
pub enum SymByte {
    Lit(u8),
    /// A byte of an allocation that nothing has been written to.
    Undefined { base: Base, index: int },
    /// Byte `index` of output number `output` of a kernel on these inputs, or on these
    /// parts of its inputs.
    Output { entry: Entry, inputs: Seq<TensorValue>, output: int, index: int },
    /// A byte of the half-precision word that holds one plus the word `(low, high)`.
    PlusOne { low: Box<SymByte>, high: Box<SymByte>, upper: bool },
    /// A byte of the cosine of the angle of a position and a channel.
    RopeCos { theta: u32, d: i64, pos: int, channel: int, upper: bool },
    /// A byte of the sine of the angle of a position and a channel, with the other sign
    /// where `negated`.
    RopeSin { theta: u32, d: i64, pos: int, channel: int, negated: bool, upper: bool },
}

/// What a kernel reads through a descriptor.
pub struct TensorValue {
    pub dims: Seq<i64>,
    pub strides: Seq<i64>,
    pub dtype: u32,
    pub format: u32,
    pub storage: Option<Seq<i64>>,
    pub bytes: Seq<SymByte>,
}

/// Uploaded bytes.
pub open spec fn literal(bytes: Seq<u8>) -> Seq<SymByte> {
    Seq::new(bytes.len(), |i: int| SymByte::Lit(bytes[i]))
}

/// `len` copies of one byte.
pub open spec fn filled(len: nat, value: u8) -> Seq<SymByte> {
    Seq::new(len, |i: int| SymByte::Lit(value))
}

/// The content of a new allocation.
pub open spec fn undefined(base: Base, len: nat) -> Seq<SymByte> {
    Seq::new(len, |i: int| SymByte::Undefined { base, index: i })
}

/// `len` bytes of output number `output` of a kernel.
pub open spec fn computed(
    entry: Entry,
    inputs: Seq<TensorValue>,
    output: int,
    len: nat,
) -> Seq<SymByte> {
    Seq::new(len, |i: int| made(entry, inputs, output, i))
}

/// Byte `i` of output number `output` of a kernel.
pub open spec fn made(entry: Entry, inputs: Seq<TensorValue>, output: int, i: int) -> SymByte {
    let whole = SymByte::Output { entry, inputs, output, index: i };
    match entry {
        Entry::Cat { dim } => match joined(inputs, dim, i) {
            Some(byte) => byte,
            None => whole,
        },
        Entry::GatherV2 { dim } => match gathered(inputs, dim, i) {
            Some(byte) => byte,
            None => whole,
        },
        Entry::Add { alpha } => element_made(entry, inputs, output, i),
        Entry::Mul => element_made(entry, inputs, output, i),
        Entry::Muls { factor } => element_made(entry, inputs, output, i),
        Entry::Silu => element_made(entry, inputs, output, i),
        Entry::GeluV2 { approximate } => element_made(entry, inputs, output, i),
        Entry::Matmul { cube_math } => product_made(entry, inputs, output, i),
        Entry::Mm { cube_math } => product_made(entry, inputs, output, i),
        Entry::AddRmsNorm { epsilon } => norm_made(entry, inputs, output, i),
        Entry::AddLayerNorm { epsilon } => norm_made(entry, inputs, output, i),
        Entry::PromptFlashAttentionV3 { heads, scale, layout, kv_heads } => if layout
            == Layout::Bsh {
            window_made(entry, inputs, output, i)
        } else {
            whole
        },
        _ => whole,
    }
}

/// The tensor is contiguous and row-major.
pub open spec fn is_packed(t: TensorValue) -> bool {
    t.strides == row_major(t.dims)
}

/// The number of an axis, which may be counted from the back.
pub open spec fn axis(dim: i64, rank: nat) -> int {
    if dim < 0 {
        dim + rank
    } else {
        dim as int
    }
}

/// Bytes of `t` for one index of the axes in front of `a`.
pub open spec fn stretch(t: TensorValue, a: int) -> int {
    elements(t.dims.skip(a)) * element_size(t.dtype)
}

/// Bytes of the first `n` tensors for one index of the axes in front of `a`.
pub open spec fn stretches(inputs: Seq<TensorValue>, a: int, n: nat) -> int
    decreases n,
{
    if n == 0 {
        0
    } else {
        stretches(inputs, a, (n - 1) as nat) + stretch(inputs[n - 1], a)
    }
}

/// The last of the first `n` tensors that begins at or before byte `b`.
pub open spec fn part_at(inputs: Seq<TensorValue>, a: int, b: int, n: nat) -> int
    decreases n,
{
    if n <= 1 || b >= stretches(inputs, a, (n - 1) as nat) {
        n - 1
    } else {
        part_at(inputs, a, b, (n - 1) as nat)
    }
}

/// Byte `i` of tensors laid side by side along an axis.
pub open spec fn joined(inputs: Seq<TensorValue>, dim: i64, i: int) -> Option<SymByte> {
    let a = axis(dim, inputs[0].dims.len());
    let line = stretches(inputs, a, inputs.len());
    let p = part_at(inputs, a, i % line, inputs.len());
    let t = inputs[p];
    if is_packed(t) {
        Some(t.bytes[i / line * stretch(t, a) + i % line - stretches(inputs, a, p as nat)])
    } else {
        None
    }
}

/// Index number `r` of uploaded indices.
pub open spec fn index_word(bytes: Seq<SymByte>, r: int) -> Option<int> {
    match (bytes[4 * r], bytes[4 * r + 1], bytes[4 * r + 2], bytes[4 * r + 3]) {
        (SymByte::Lit(a), SymByte::Lit(b), SymByte::Lit(c), SymByte::Lit(d)) => Some(
            a + 256 * b + 65536 * c + 16777216 * d,
        ),
        _ => None,
    }
}

/// Byte `i` of the slices of a tensor that indices choose along an axis.
pub open spec fn gathered(inputs: Seq<TensorValue>, dim: i64, i: int) -> Option<SymByte> {
    let t = inputs[0];
    let a = axis(dim, t.dims.len());
    let inner = stretch(t, a + 1);
    let n = inputs[1].dims[0] as int;
    match index_word(inputs[1].bytes, i / inner % n) {
        Some(k) => if is_packed(t) && k < t.dims[a] && k <= i32::MAX {
            Some(t.bytes[(i / inner / n * t.dims[a] + k) * inner + i % inner])
        } else {
            None
        },
        None => None,
    }
}

/// Where element number `e`, counted row by row, lies in a strided tensor.
pub open spec fn position(dims: Seq<i64>, strides: Seq<i64>, e: int) -> int
    decreases dims.len(),
{
    if dims.len() == 0 {
        0
    } else {
        let rest = elements(dims.skip(1));
        e / rest * strides[0] + position(dims.skip(1), strides.skip(1), e % rest)
    }
}

/// Element number `e` of a half-precision tensor.
pub open spec fn element_of(t: TensorValue, e: int) -> TensorValue {
    let at = 2 * position(t.dims, t.strides, e);
    scalar(t.bytes[at], t.bytes[at + 1])
}

/// One half-precision word.
pub open spec fn scalar(low: SymByte, high: SymByte) -> TensorValue {
    nd(seq![low, high], seq![], ACL_FLOAT16)
}

/// An elementwise kernel computes every element from the elements at its place.
pub open spec fn element_made(
    entry: Entry,
    inputs: Seq<TensorValue>,
    output: int,
    i: int,
) -> SymByte {
    SymByte::Output {
        entry,
        inputs: Seq::new(inputs.len(), |k: int| element_of(inputs[k], i / 2)),
        output,
        index: i % 2,
    }
}

/// `t` with the bytes of row `r` only.
pub open spec fn row_of(t: TensorValue, r: int) -> TensorValue {
    let line = t.dims[1] * 2;
    TensorValue { bytes: t.bytes.subrange(r * line, (r + 1) * line), ..t }
}

/// `t` with its elements row by row, whatever its strides.
pub open spec fn dense(t: TensorValue) -> TensorValue {
    nd(
        Seq::new((elements(t.dims) * 2) as nat, |i: int| element_of(t, i / 2).bytes[i % 2]),
        t.dims,
        t.dtype,
    )
}

/// A row of a matrix product depends on that row of the left operand and on the
/// elements of the right operand.
pub open spec fn product_made(
    entry: Entry,
    inputs: Seq<TensorValue>,
    output: int,
    i: int,
) -> SymByte {
    let r = i / (inputs[1].dims[1] * 2);
    let operands = inputs.update(1, dense(inputs[1]));
    SymByte::Output {
        entry,
        inputs: if is_packed(inputs[0]) {
            operands.update(0, row_of(inputs[0], r))
        } else {
            operands
        },
        output,
        index: i,
    }
}

/// A row of a norm depends on that row of the two addends and on the parameters.
pub open spec fn norm_made(
    entry: Entry,
    inputs: Seq<TensorValue>,
    output: int,
    i: int,
) -> SymByte {
    let r = i / (inputs[0].dims[1] * 2);
    SymByte::Output {
        entry,
        inputs: if output == 0 && is_packed(inputs[0]) && is_packed(inputs[1]) {
            inputs.update(0, row_of(inputs[0], r)).update(1, row_of(inputs[1], r))
        } else {
            inputs
        },
        output,
        index: i,
    }
}

/// Window `w` of a packed `[batch, length, width]` tensor, as a batch of one.
pub open spec fn window_of(t: TensorValue, w: int) -> TensorValue {
    let size = t.dims[1] * t.dims[2] * 2;
    nd(t.bytes.subrange(w * size, (w + 1) * size), seq![1i64, t.dims[1], t.dims[2]], t.dtype)
}

/// Attention stays within the windows of a batch: each is what the kernel computes from
/// that window alone.
pub open spec fn window_made(
    entry: Entry,
    inputs: Seq<TensorValue>,
    output: int,
    i: int,
) -> SymByte {
    let size = inputs[0].dims[1] * inputs[0].dims[2] * 2;
    SymByte::Output {
        entry,
        inputs: Seq::new(inputs.len(), |k: int| window_of(inputs[k], i / size)),
        output,
        index: i % size,
    }
}

/// `old` with `bytes` written at `offset`.
pub open spec fn splice(old: Seq<SymByte>, offset: int, bytes: Seq<SymByte>) -> Seq<SymByte> {
    Seq::new(
        old.len(),
        |i: int|
            if offset <= i < offset + bytes.len() {
                bytes[i - offset]
            } else {
                old[i]
            },
    )
}

/// The first `words` half-precision words of `s`, each plus one.
pub open spec fn plus_one(s: Seq<SymByte>, words: nat) -> Seq<SymByte> {
    Seq::new(
        2 * words,
        |i: int|
            SymByte::PlusOne {
                low: Box::new(s[i / 2 * 2]),
                high: Box::new(s[i / 2 * 2 + 1]),
                upper: i % 2 == 1,
            },
    )
}

/// The cosines of all positions: those of the `d / 2` angles of a position, twice, and
/// zero in the odd channel of an odd width.
pub open spec fn rope_cos_table(theta: u32, d: i64, max_pos: usize) -> Seq<SymByte> {
    let half = d as int / 2;
    Seq::new(
        (max_pos * d * 2) as nat,
        |i: int|
            if i / 2 % (d as int) < 2 * half {
                SymByte::RopeCos {
                    theta,
                    d,
                    pos: i / 2 / (d as int),
                    channel: i / 2 % (d as int) % half,
                    upper: i % 2 == 1,
                }
            } else {
                SymByte::Lit(0)
            },
    )
}

/// The sines of all positions: those of the `d / 2` angles of a position, first negated
/// and then as they are, and zero in the odd channel of an odd width.
pub open spec fn rope_sin_table(theta: u32, d: i64, max_pos: usize) -> Seq<SymByte> {
    let half = d as int / 2;
    Seq::new(
        (max_pos * d * 2) as nat,
        |i: int|
            if i / 2 % (d as int) < 2 * half {
                SymByte::RopeSin {
                    theta,
                    d,
                    pos: i / 2 / (d as int),
                    channel: i / 2 % (d as int) % half,
                    negated: i / 2 % (d as int) < half,
                    upper: i % 2 == 1,
                }
            } else {
                SymByte::Lit(0)
            },
    )
}

/// Bytes per element of a type code.
pub open spec fn element_size(dtype: u32) -> int {
    if dtype == ACL_FLOAT16 {
        2
    } else if dtype == ACL_FLOAT || dtype == ACL_INT32 {
        4
    } else {
        1
    }
}

/// Number of elements of a shape.
pub open spec fn elements(dims: Seq<i64>) -> int
    decreases dims.len(),
{
    if dims.len() == 0 {
        1
    } else {
        dims[0] * elements(dims.skip(1))
    }
}

/// Number of elements of a shape in which an empty axis counts as one.
pub open spec fn padded_elements(dims: Seq<i64>) -> int
    decreases dims.len(),
{
    if dims.len() == 0 {
        1
    } else {
        (if dims[0] > 1 {
            dims[0] as int
        } else {
            1
        }) * padded_elements(dims.skip(1))
    }
}

/// Strides of a contiguous row-major tensor.
pub open spec fn row_major(dims: Seq<i64>) -> Seq<i64> {
    Seq::new(dims.len(), |i: int| padded_elements(dims.skip(i + 1)) as i64)
}

/// Element offset of the last element of a strided view.
pub open spec fn reach(dims: Seq<i64>, strides: Seq<i64>) -> int
    decreases dims.len(),
{
    if dims.len() == 0 {
        0
    } else {
        (dims[0] - 1) * strides[0] + reach(dims.skip(1), strides.skip(1))
    }
}

/// Every element of the view lies inside its buffer.
pub open spec fn covered(t: TensorView) -> bool {
    &&& t.strides.len() == t.dims.len()
    &&& (forall|i: int| 0 <= i < t.dims.len() ==> #[trigger] t.dims[i] >= 0)
    &&& (forall|i: int| 0 <= i < t.strides.len() ==> #[trigger] t.strides[i] >= 0)
    &&& {
        ||| (exists|i: int| 0 <= i < t.dims.len() && #[trigger] t.dims[i] == 0)
        ||| (reach(t.dims, t.strides) + 1) * element_size(t.dtype) <= t.buffer.len
    }
}

/// A contiguous row-major descriptor over all of `buffer`.
pub open spec fn nd_view(buffer: DeviceBuffer, dims: Seq<i64>, dtype: u32) -> TensorView {
    TensorView {
        buffer,
        dims,
        strides: row_major(dims),
        dtype,
        format: crate::device::ACL_FORMAT_ND,
        storage: Some(dims),
        op: "aclCreateTensor"@,
    }
}

/// What a kernel reads through descriptor `t` over a buffer with these bytes.
pub open spec fn read_through(t: TensorView, bytes: Seq<SymByte>) -> TensorValue {
    TensorValue {
        dims: t.dims,
        strides: t.strides,
        dtype: t.dtype,
        format: t.format,
        storage: t.storage,
        bytes,
    }
}

/// A contiguous row-major tensor value.
pub open spec fn nd(bytes: Seq<SymByte>, dims: Seq<i64>, dtype: u32) -> TensorValue {
    TensorValue {
        dims,
        strides: row_major(dims),
        dtype,
        format: crate::device::ACL_FORMAT_ND,
        storage: Some(dims),
        bytes,
    }
}

/// Everything a program can observe or change.
#[verifier::ext_equal]
pub struct DeviceState {
    /// Live allocations that their creators release.
    pub fresh: Map<usize, Seq<SymByte>>,
    /// Allocations that caches hold.
    pub kept: Map<usize, Seq<SymByte>>,
    /// Pooled scratch buffers, by size.
    pub pool: Map<usize, Seq<SymByte>>,
    /// Allocations that one-entry caches hold.
    pub slots: Map<usize, Seq<SymByte>>,
    /// Live tensor descriptors.
    pub tensors: Map<usize, TensorView>,
    /// Host staging slots.
    pub staged: Map<usize, Seq<SymByte>>,
    /// Allocations that the stream may still be writing.
    pub dirty: Set<Base>,
    /// How many identifiers have been handed out.
    pub issued: nat,
}

/// `base` is scratch memory or was handed out before `issued`.
pub open spec fn issued_before(base: Base, issued: nat) -> bool {
    match base {
        Base::Fresh(id) => id < issued,
        Base::Kept(id) => id < issued,
        Base::Slot(id) => id < issued,
        Base::Pool(_) => true,
    }
}

impl DeviceState {
    /// A device on which nothing has been allocated.
    pub open spec fn initial() -> DeviceState {
        DeviceState {
            fresh: Map::empty(),
            kept: Map::empty(),
            pool: Map::empty(),
            slots: Map::empty(),
            tensors: Map::empty(),
            staged: Map::empty(),
            dirty: Set::empty(),
            issued: 0,
        }
    }

    pub open spec fn live(self, base: Base) -> bool {
        match base {
            Base::Fresh(id) => self.fresh.contains_key(id),
            Base::Kept(id) => self.kept.contains_key(id),
            Base::Pool(len) => self.pool.contains_key(len),
            Base::Slot(id) => self.slots.contains_key(id),
        }
    }

    pub open spec fn content(self, base: Base) -> Seq<SymByte> {
        match base {
            Base::Fresh(id) => self.fresh[id],
            Base::Kept(id) => self.kept[id],
            Base::Pool(len) => self.pool[len],
            Base::Slot(id) => self.slots[id],
        }
    }

    pub open spec fn with_content(self, base: Base, bytes: Seq<SymByte>) -> DeviceState {
        match base {
            Base::Fresh(id) => DeviceState { fresh: self.fresh.insert(id, bytes), ..self },
            Base::Kept(id) => DeviceState { kept: self.kept.insert(id, bytes), ..self },
            Base::Pool(len) => DeviceState { pool: self.pool.insert(len, bytes), ..self },
            Base::Slot(id) => DeviceState { slots: self.slots.insert(id, bytes), ..self },
        }
    }

    /// `b` is a range of a live allocation.
    pub open spec fn holds(self, b: DeviceBuffer) -> bool {
        self.live(b.base) && b.offset + b.len <= self.content(b.base).len()
    }

    /// `b` is all of a live allocation.
    pub open spec fn holds_whole(self, b: DeviceBuffer) -> bool {
        self.live(b.base) && b.offset == 0 && b.len == self.content(b.base).len()
    }

    /// The bytes of `b`.
    pub open spec fn value(self, b: DeviceBuffer) -> Seq<SymByte> {
        self.content(b.base).subrange(b.offset as int, b.offset + b.len)
    }

    pub open spec fn write(self, b: DeviceBuffer, bytes: Seq<SymByte>) -> DeviceState {
        self.with_content(b.base, splice(self.content(b.base), b.offset as int, bytes))
    }

    /// The stream writes `bytes` into `b`, some time before it drains.
    pub open spec fn stream_write(self, b: DeviceBuffer, bytes: Seq<SymByte>) -> DeviceState {
        DeviceState { dirty: self.dirty.insert(b.base), ..self.write(b, bytes) }
    }

    /// The stream has finished writing `b`.
    pub open spec fn settled(self, b: DeviceBuffer) -> bool {
        !self.dirty.contains(b.base)
    }

    pub open spec fn read(self, id: usize) -> TensorValue {
        read_through(self.tensors[id], self.value(self.tensors[id].buffer))
    }

    pub open spec fn operands(self, ids: Seq<usize>) -> Seq<TensorValue> {
        Seq::new(ids.len(), |i: int| self.read(ids[i]))
    }

    /// The first `n` outputs of a kernel written.
    pub open spec fn with_outputs(
        self,
        entry: Entry,
        inputs: Seq<TensorValue>,
        outputs: Seq<usize>,
        n: nat,
    ) -> DeviceState
        decreases n,
    {
        if n == 0 {
            self
        } else {
            let before = self.with_outputs(entry, inputs, outputs, (n - 1) as nat);
            let b = self.tensors[outputs[n - 1]].buffer;
            before.stream_write(b, computed(entry, inputs, n - 1, b.len as nat))
        }
    }

    /// What a host task computes.
    pub open spec fn task_value(self, task: HostTask) -> Seq<SymByte> {
        match task {
            HostTask::Transpose { from, rows, cols } => transpose_words(
                self.staged[from],
                rows as int,
                cols as int,
                SymByte::Lit(0),
            ),
            HostTask::Slice { from, offset, len } => self.staged[from].subrange(
                offset as int,
                offset + len,
            ),
            HostTask::PlusOne { from, words } => plus_one(self.staged[from], words as nat),
            HostTask::RopeCos { theta, d, max_pos } => rope_cos_table(theta, d, max_pos),
            HostTask::RopeSin { theta, d, max_pos } => rope_sin_table(theta, d, max_pos),
        }
    }

    pub open spec fn task_allowed(self, task: HostTask) -> bool {
        match task {
            HostTask::Transpose { from, rows, cols } => {
                &&& self.staged.contains_key(from)
                &&& rows >= 0
                &&& cols >= 0
                &&& 2 * (rows * cols) <= self.staged[from].len()
            },
            HostTask::Slice { from, offset, len } => {
                self.staged.contains_key(from) && offset + len <= self.staged[from].len()
            },
            HostTask::PlusOne { from, words } => {
                self.staged.contains_key(from) && 2 * words <= self.staged[from].len()
            },
            HostTask::RopeCos { theta, d, max_pos } => {
                d >= 0 && max_pos * d * 2 <= usize::MAX
            },
            HostTask::RopeSin { theta, d, max_pos } => {
                d >= 0 && max_pos * d * 2 <= usize::MAX
            },
        }
    }

    /// The state after one step.
    pub open spec fn step(self, call: Call) -> DeviceState {
        match call {
            Call::Malloc { base, len } => DeviceState {
                issued: self.issued + 1,
                ..self.with_content(base, undefined(base, len as nat))
            },
            Call::Scratch { len } => if self.pool.contains_key(len) {
                self
            } else {
                self.with_content(Base::Pool(len), undefined(Base::Pool(len), len as nat))
            },
            Call::Release { base } => match base {
                Base::Fresh(id) => DeviceState { fresh: self.fresh.remove(id), ..self },
                Base::Slot(id) => DeviceState { slots: self.slots.remove(id), ..self },
                _ => self,
            },
            Call::Fill { buffer, value } => self.stream_write(
                buffer,
                filled(buffer.len as nat, value),
            ),
            Call::Copy { dst, src, op } => self.stream_write(dst, self.value(src)),
            Call::Upload { dst, bytes } => self.write(dst, literal(bytes)),
            Call::UploadStaged { dst, slot } => self.write(dst, self.staged[slot]),
            Call::Download { src, slot } => DeviceState {
                staged: self.staged.insert(slot, self.value(src)),
                issued: self.issued + 1,
                ..self
            },
            Call::Stage { slot, task } => DeviceState {
                staged: self.staged.insert(slot, self.task_value(task)),
                issued: self.issued + 1,
                ..self
            },
            Call::Unstage { slot } => DeviceState { staged: self.staged.remove(slot), ..self },
            Call::Sync => DeviceState { dirty: Set::empty(), ..self },
            Call::Describe { id, tensor } => DeviceState {
                tensors: self.tensors.insert(id, tensor),
                issued: self.issued + 1,
                ..self
            },
            Call::Undescribe { id } => DeviceState { tensors: self.tensors.remove(id), ..self },
            Call::Launch { entry, inputs, outputs, mode, plan_op, run_op } => {
                let after = self.with_outputs(
                    entry,
                    self.operands(inputs),
                    outputs,
                    outputs.len(),
                );
                if entry is Cat {
                    DeviceState { tensors: after.tensors.remove_keys(inputs.to_set()), ..after }
                } else {
                    after
                }
            },
        }
    }

    /// The step touches only live allocations, descriptors and slots, inside
    /// their bounds, new identifiers are new, and the host neither reads nor
    /// writes memory that the stream may still be writing.
    pub open spec fn allows(self, call: Call) -> bool {
        match call {
            Call::Malloc { base, len } => match base {
                Base::Fresh(id) => id == self.issued,
                Base::Kept(id) => id == self.issued,
                Base::Slot(id) => id == self.issued,
                Base::Pool(_) => false,
            },
            Call::Scratch { len } => true,
            Call::Release { base } => {
                &&& base is Fresh || base is Slot
                &&& self.live(base)
                &&& forall|t: usize| #[trigger]
                    self.tensors.contains_key(t) ==> self.tensors[t].buffer.base != base
            },
            Call::Fill { buffer, value } => self.holds(buffer),
            Call::Copy { dst, src, op } => {
                self.holds(dst) && self.holds(src) && src.len == dst.len
            },
            Call::Upload { dst, bytes } => {
                self.holds(dst) && self.settled(dst) && bytes.len() == dst.len
            },
            Call::UploadStaged { dst, slot } => {
                &&& self.holds(dst)
                &&& self.settled(dst)
                &&& self.staged.contains_key(slot)
                &&& self.staged[slot].len() == dst.len
            },
            Call::Download { src, slot } => {
                self.holds(src) && self.settled(src) && slot == self.issued
            },
            Call::Stage { slot, task } => self.task_allowed(task) && slot == self.issued,
            Call::Unstage { slot } => self.staged.contains_key(slot),
            Call::Sync => true,
            Call::Describe { id, tensor } => {
                id == self.issued && self.holds(tensor.buffer) && covered(tensor)
            },
            Call::Undescribe { id } => self.tensors.contains_key(id),
            Call::Launch { entry, inputs, outputs, mode, plan_op, run_op } => {
                &&& forall|i: int|
                    0 <= i < inputs.len() ==> self.tensors.contains_key(#[trigger] inputs[i])
                &&& forall|i: int|
                    0 <= i < outputs.len() ==> self.tensors.contains_key(#[trigger] outputs[i])
            },
        }
    }

    /// Identifiers in use have been handed out, and every descriptor lies in
    /// a live allocation.
    pub open spec fn sane(self) -> bool {
        &&& forall|id: usize| #[trigger]
            self.fresh.contains_key(id) ==> id < self.issued && self.fresh[id].len() <= usize::MAX
        &&& forall|id: usize| #[trigger]
            self.kept.contains_key(id) ==> id < self.issued && self.kept[id].len() <= usize::MAX
        &&& forall|len: usize| #[trigger]
            self.pool.contains_key(len) ==> self.pool[len].len() == len
        &&& forall|id: usize| #[trigger]
            self.slots.contains_key(id) ==> id < self.issued && self.slots[id].len() <= usize::MAX
        &&& forall|id: usize| #[trigger]
            self.tensors.contains_key(id) ==> id < self.issued && self.holds(
                self.tensors[id].buffer,
            ) && covered(self.tensors[id])
        &&& forall|slot: usize| #[trigger]
            self.staged.contains_key(slot) ==> slot < self.issued
        &&& forall|b: Base| #[trigger] self.dirty.contains(b) ==> issued_before(b, self.issued)
    }
}

/// From `before` to `after` the program gained one allocation, `buf`, which holds
/// `bytes`. Every other allocation that someone is to release is as it was, as
/// are descriptors and staging slots; caches may have gained allocations, and
/// one-entry caches and scratch memory may hold anything.
pub open spec fn delivers(
    before: DeviceState,
    after: DeviceState,
    buf: DeviceBuffer,
    bytes: Seq<SymByte>,
) -> bool {
    &&& buf.offset == 0
    &&& buf.len == bytes.len()
    &&& buf.base matches Base::Fresh(id) && {
        &&& before.issued <= id < after.issued
        &&& after.fresh == before.fresh.insert(id, bytes)
    }
    &&& keeps(before, after)
}

/// As [`delivers`], and one-entry caches did not change.
pub open spec fn yields(
    before: DeviceState,
    after: DeviceState,
    buf: DeviceBuffer,
    bytes: Seq<SymByte>,
) -> bool {
    &&& delivers(before, after, buf, bytes)
    &&& after.slots == before.slots
}

/// As [`yields`], and neither other caches nor scratch memory changed.
pub open spec fn gains(
    before: DeviceState,
    after: DeviceState,
    buf: DeviceBuffer,
    bytes: Seq<SymByte>,
) -> bool {
    &&& yields(before, after, buf, bytes)
    &&& after.kept == before.kept
    &&& after.pool == before.pool
}

/// Descriptors and staging slots are as they were, caches lost nothing, and
/// nothing that was there before is newly being written.
pub open spec fn keeps(before: DeviceState, after: DeviceState) -> bool {
    &&& no_new_writes(before, after)
    &&& forall|id: usize| #[trigger]
        before.kept.contains_key(id) ==> after.kept.contains_key(id) && after.kept[id]
            == before.kept[id]
    &&& after.tensors == before.tensors
    &&& after.staged == before.staged
    &&& before.issued <= after.issued
}

/// The stream writes nothing that was there before.
pub open spec fn no_new_writes(before: DeviceState, after: DeviceState) -> bool {
    forall|b: Base| #[trigger]
        after.dirty.contains(b) && !(b is Pool) && issued_before(b, before.issued)
            ==> before.dirty.contains(b)
}

/// The state after a sequence of steps.
#[verifier::opaque]
pub open spec fn run(st: DeviceState, calls: Seq<Call>) -> DeviceState
    decreases calls.len(),
{
    if calls.len() == 0 {
        st
    } else {
        run(st, calls.drop_last()).step(calls.last())
    }
}

/// Every step is allowed in the state that the steps before it leave.
#[verifier::opaque]
pub open spec fn safe(st: DeviceState, calls: Seq<Call>) -> bool
    decreases calls.len(),
{
    calls.len() == 0 || {
        &&& safe(st, calls.drop_last())
        &&& run(st, calls.drop_last()).allows(calls.last())
    }
}

/// Writing outputs changes neither descriptors, slots, identifiers, nor which
/// allocations are live or how long they are.
pub proof fn lemma_outputs_frame(
    st: DeviceState,
    entry: Entry,
    inputs: Seq<TensorValue>,
    outputs: Seq<usize>,
    n: nat,
)
    requires
        st.sane(),
        n <= outputs.len(),
        forall|i: int|
            0 <= i < outputs.len() ==> st.tensors.contains_key(#[trigger] outputs[i]),
    ensures
        ({
            let after = st.with_outputs(entry, inputs, outputs, n);
            &&& after.tensors == st.tensors
            &&& after.staged == st.staged
            &&& after.issued == st.issued
            &&& forall|b: Base| #[trigger]
                after.dirty.contains(b) ==> st.dirty.contains(b) || st.live(b)
            &&& after.fresh.dom() =~= st.fresh.dom()
            &&& after.kept.dom() =~= st.kept.dom()
            &&& after.pool.dom() =~= st.pool.dom()
            &&& after.slots.dom() =~= st.slots.dom()
            &&& forall|b: Base| #[trigger]
                st.live(b) ==> after.live(b) && after.content(b).len() == st.content(b).len()
        }),
    decreases n,
{
    if n > 0 {
        lemma_outputs_frame(st, entry, inputs, outputs, (n - 1) as nat);
        let id = outputs[n - 1];
        assert(st.tensors.contains_key(id));
        assert(st.live(st.tensors[id].buffer.base));
    }
}

/// Writing outputs keeps a state sane.
proof fn lemma_outputs_sane(
    st: DeviceState,
    entry: Entry,
    inputs: Seq<TensorValue>,
    outputs: Seq<usize>,
)
    requires
        st.sane(),
        forall|i: int|
            0 <= i < outputs.len() ==> st.tensors.contains_key(#[trigger] outputs[i]),
    ensures
        st.with_outputs(entry, inputs, outputs, outputs.len()).sane(),
        st.with_outputs(entry, inputs, outputs, outputs.len()).tensors == st.tensors,
{
    let after = st.with_outputs(entry, inputs, outputs, outputs.len());
    lemma_outputs_frame(st, entry, inputs, outputs, outputs.len());
    assert forall|id: usize| #[trigger] after.tensors.contains_key(id) implies id < after.issued
        && after.holds(after.tensors[id].buffer) && covered(after.tensors[id]) by {
        assert(st.tensors.contains_key(id));
        assert(st.live(st.tensors[id].buffer.base));
    }
    assert forall|len: usize| #[trigger] after.pool.contains_key(len) implies after.pool[len].len()
        == len by {
        assert(st.live(Base::Pool(len)));
    }
    assert forall|i: usize| #[trigger] after.fresh.contains_key(i) implies i < after.issued
        && after.fresh[i].len() <= usize::MAX by {
        assert(st.live(Base::Fresh(i)));
    }
    assert forall|i: usize| #[trigger] after.kept.contains_key(i) implies i < after.issued
        && after.kept[i].len() <= usize::MAX by {
        assert(st.live(Base::Kept(i)));
    }
    assert forall|i: usize| #[trigger] after.slots.contains_key(i) implies i < after.issued
        && after.slots[i].len() <= usize::MAX by {
        assert(st.live(Base::Slot(i)));
    }
    assert forall|b: Base| #[trigger] after.dirty.contains(b) implies issued_before(
        b,
        after.issued,
    ) by {
        if !st.dirty.contains(b) {
            assert(st.live(b));
        }
    }
}

/// An allowed step keeps a state sane.
pub proof fn lemma_step_sane(st: DeviceState, call: Call)
    requires
        st.sane(),
        st.allows(call),
    ensures
        st.step(call).sane(),
{
    match call {
        Call::Launch { entry, inputs, outputs, mode, plan_op, run_op } => {
            lemma_outputs_sane(st, entry, st.operands(inputs), outputs);
        },
        _ => {},
    }
}

/// Writing all of an allocation replaces its content.
pub proof fn lemma_write_whole(st: DeviceState, b: DeviceBuffer, bytes: Seq<SymByte>)
    requires
        st.holds_whole(b),
        bytes.len() == b.len,
    ensures
        st.write(b, bytes) == st.with_content(b.base, bytes),
        st.write(b, bytes).value(b) == bytes,
{
    assert(splice(st.content(b.base), b.offset as int, bytes) =~= bytes);
    assert(bytes.subrange(0, b.len as int) =~= bytes);
}

/// The value of a whole allocation is its content.
pub proof fn lemma_whole_value(st: DeviceState, b: DeviceBuffer)
    requires
        st.holds_whole(b),
    ensures
        st.value(b) == st.content(b.base),
{
    assert(st.content(b.base).subrange(0, b.len as int) =~= st.content(b.base));
}

/// A view of a live buffer is live, and holds the part of the buffer that it covers.
pub proof fn lemma_view(st: DeviceState, backing: DeviceBuffer, view: DeviceBuffer, offset: int)
    requires
        st.holds(backing),
        offset >= 0,
        offset + view.len <= backing.len,
        view.base == backing.base,
        view.offset == backing.offset + offset,
    ensures
        st.holds(view),
        st.value(view) == st.value(backing).subrange(offset, offset + view.len),
{
    assert(st.value(view) =~= st.value(backing).subrange(offset, offset + view.len));
}

/// `b` lies in an allocation that its creator releases or that a cache holds.
pub open spec fn is_lasting(b: DeviceBuffer) -> bool {
    b.base is Fresh || b.base is Kept
}

/// What [`delivers`] means for single buffers.
pub proof fn lemma_delivers(
    before: DeviceState,
    after: DeviceState,
    buf: DeviceBuffer,
    bytes: Seq<SymByte>,
)
    requires
        before.sane(),
        delivers(before, after, buf, bytes),
    ensures
        after.holds_whole(buf),
        after.holds(buf),
        after.value(buf) == bytes,
        forall|b: DeviceBuffer| before.holds(b) && is_lasting(b) ==> #[trigger] after.holds(b),
        forall|b: DeviceBuffer|
            before.holds(b) && is_lasting(b) ==> #[trigger] after.value(b) == before.value(b),
{
    lemma_whole_value(after, buf);
    assert forall|b: DeviceBuffer| before.holds(b) && is_lasting(b) implies after.holds(b)
        && after.value(b) == before.value(b) by {
        match b.base {
            Base::Kept(id) => {
                assert(before.kept.contains_key(id));
            },
            _ => {},
        }
    }
}

/// What [`yields`] means for single buffers.
pub proof fn lemma_yields(
    before: DeviceState,
    after: DeviceState,
    buf: DeviceBuffer,
    bytes: Seq<SymByte>,
)
    requires
        before.sane(),
        yields(before, after, buf, bytes),
    ensures
        after.holds_whole(buf),
        after.holds(buf),
        after.value(buf) == bytes,
        forall|b: DeviceBuffer|
            before.holds(b) && !(b.base is Pool) ==> #[trigger] after.holds(b),
        forall|b: DeviceBuffer|
            before.holds(b) && !(b.base is Pool) ==> #[trigger] after.value(b) == before.value(b),
{
    lemma_delivers(before, after, buf, bytes);
    assert forall|b: DeviceBuffer| before.holds(b) && !(b.base is Pool) implies after.holds(b)
        && after.value(b) == before.value(b) by {
        if is_lasting(b) {
            assert(after.holds(b));
            assert(after.value(b) == before.value(b));
        }
    }
}

/// What [`gains`] means for single buffers.
pub proof fn lemma_gains(
    before: DeviceState,
    after: DeviceState,
    buf: DeviceBuffer,
    bytes: Seq<SymByte>,
)
    requires
        before.sane(),
        gains(before, after, buf, bytes),
    ensures
        after.holds_whole(buf),
        after.holds(buf),
        after.value(buf) == bytes,
        forall|b: DeviceBuffer| before.holds(b) ==> #[trigger] after.holds(b),
        forall|b: DeviceBuffer| before.holds(b) ==> #[trigger] after.value(b) == before.value(b),
{
    lemma_whole_value(after, buf);
}

/// An allocation made after every live descriptor may be released.
pub proof fn lemma_releasable(before: DeviceState, now: DeviceState, id: usize)
    requires
        before.sane(),
        before.issued <= id,
        now.tensors == before.tensors,
        now.fresh.contains_key(id),
    ensures
        now.allows(Call::Release { base: Base::Fresh(id) }),
{
    assert forall|t: usize| #[trigger] now.tensors.contains_key(t) implies now.tensors[t].buffer.base
        != Base::Fresh(id) by {
        assert(before.tensors.contains_key(t));
        assert(before.holds(before.tensors[t].buffer));
    }
}

/// Running a program in two parts.
pub proof fn lemma_run_append(st: DeviceState, first: Seq<Call>, second: Seq<Call>)
    ensures
        run(st, first + second) == run(run(st, first), second),
        safe(st, first + second) == (safe(st, first) && safe(run(st, first), second)),
    decreases second.len(),
{
    reveal(run);
    reveal(safe);
    if second.len() == 0 {
        assert(first + second =~= first);
    } else {
        assert((first + second).drop_last() =~= first + second.drop_last());
        lemma_run_append(st, first, second.drop_last());
    }
}

/// An allowed program keeps a state sane.
pub proof fn lemma_run_sane(st: DeviceState, calls: Seq<Call>)
    requires
        st.sane(),
        safe(st, calls),
    ensures
        run(st, calls).sane(),
    decreases calls.len(),
{
    reveal(run);
    reveal(safe);
    if calls.len() > 0 {
        lemma_run_sane(st, calls.drop_last());
        lemma_step_sane(run(st, calls.drop_last()), calls.last());
    }
}

} // verus!
