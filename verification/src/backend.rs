//! The tensor-level operations of the accelerator.

use vstd::prelude::*;
use vstd::string::StringExecFns;

use crate::capture::{lemma_quiet, lemma_quiet_then, quiet};
use crate::context::AscendContext;
use crate::device::{Base, Call, DeviceBuffer, Real, TensorView};
use crate::driver::action::Phase;
use crate::driver::session::{salvaged, Session};
use crate::error::{first_error, other, Device, Error, ErrorView};
use crate::model::{DType, Storage, Tensor, TensorInfo};
use crate::ops::elementwise::{
    add_fp16, add_value, mul_fp16, mul_value, muls_fp16, muls_value, silu_fp16, silu_value,
};
use crate::ops::matmul::{matmul_fp16, matmul_ready, matmul_value};
use crate::ops::norm::{
    add_rms_norm_fp16, is_row, layer_norm_fp16, layer_norm_value, rms_norm_value,
};
use crate::ops::{fp16, is_fp16, result};
use crate::semantics::{
    delivers, filled, is_lasting, keeps, lemma_releasable, lemma_whole_value, lemma_write_whole,
    literal, run, DeviceState, SymByte,
};
use crate::tensor::lemma_fits;
use crate::text::{append_bracketed, bracketed};
use crate::transfer::zero_bytes;

verus! {

/// The accelerator as a tensor backend: a recording context and the zero buffer
/// that the plain norms are computed with.
pub struct AscendBackend {
    pub ctx: AscendContext,
    pub zero_slot: Option<DeviceBuffer>,
}

/// A buffer as a half-precision tensor of `device`.
pub open spec fn wrapped(device: Device, buf: DeviceBuffer, dims: Seq<usize>) -> TensorInfo {
    TensorInfo {
        dims,
        dtype: DType::F16,
        device,
        storage: Storage::Gpu { device, buffer: Some(buf) },
    }
}

/// What is wrong with an operand of the backend.
pub open spec fn operand_error(t: TensorInfo) -> Option<ErrorView> {
    match t.storage {
        Storage::Gpu { device: Device::Ascend(_), buffer } => match buffer {
            Some(_) => None,
            None => Some(ErrorView::Other("ascend tensor storage missing DeviceBuffer"@)),
        },
        _ => Some(ErrorView::UnsupportedDevice(t.device)),
    }
}

/// The axes of a tensor as descriptor dimensions.
pub open spec fn descriptor_dims(dims: Seq<usize>) -> Seq<i64> {
    Seq::new(dims.len(), |i: int| dims[i] as i64)
}

/// Every axis is a descriptor dimension.
pub open spec fn dims_fit(dims: Seq<usize>) -> bool {
    forall|i: int| 0 <= i < dims.len() ==> #[trigger] dims[i] <= i64::MAX
}

impl AscendBackend {
    /// Between operations no descriptor and no staging slot is live. The one zero
    /// buffer, where there is one, is the only thing a one-entry cache holds, and
    /// it is zero.
    pub open spec fn wf(&self) -> bool {
        &&& self.ctx.wf()
        &&& self.ctx.state().tensors == Map::<usize, TensorView>::empty()
        &&& self.ctx.state().staged == Map::<usize, Seq<SymByte>>::empty()
        &&& match self.zero_slot {
            Some(b) => b.base matches Base::Slot(id) && b.offset == 0 && self.ctx.state().slots
                == Map::<usize, Seq<SymByte>>::empty().insert(id, filled(b.len as nat, 0)),
            None => self.ctx.state().slots == Map::<usize, Seq<SymByte>>::empty(),
        }
    }

    pub open spec fn state(&self) -> DeviceState {
        self.ctx.state()
    }

    /// The zero buffer has this size.
    pub open spec fn zeros_ready(&self, len: usize) -> bool {
        self.zero_slot matches Some(b) && b.len == len
    }

    pub open spec fn spec_device(&self) -> Device {
        Device::Ascend(self.ctx.spec_device_id())
    }

    /// A backend whose device is open and whose stream is empty.
    pub fn new(device_id: usize) -> (be: AscendBackend)
        ensures
            be.wf(),
            be.state() == DeviceState::initial(),
            be.ctx.calls() == Seq::<Call>::empty(),
            be.spec_device() == Device::Ascend(device_id),
            be.zero_slot is None,
    {
        let ctx = AscendContext::new(device_id);
        proof {
            reveal(crate::semantics::run);
        }
        AscendBackend { ctx, zero_slot: None }
    }

    /// Go on after a program of this backend broke. The zero buffer is made anew when
    /// it is next needed.
    pub fn recover(&mut self, session: &mut Session) -> (handles: Vec<usize>)
        requires
            old(self).wf(),
            old(session).wf(),
            old(session).broken(),
            old(self).ctx.start() == run(old(session).start(), old(session).calls()),
        ensures
            final(self).wf(),
            final(self).zero_slot is None,
            final(self).spec_device() == old(self).spec_device(),
            final(self).ctx.calls() == Seq::<Call>::empty(),
            final(self).ctx.start() == final(session).here(),
            final(self).state() == salvaged(
                old(session).here(),
                old(session).start().issued,
                old(session).current(),
                old(self).state().issued,
            ),
            final(session).wf(),
            final(session).finished(),
            final(session).here() == final(self).state(),
            final(session).runner() == old(session).runner().abandoned(
                old(session).start().issued,
                old(self).ctx.start().issued,
            ).at(Phase::Idle),
            handles@ == old(session).runner().live_handles(old(self).ctx.start().issued),
    {
        let handles = session.recover(&mut self.ctx);
        self.zero_slot = None;
        handles
    }

    pub fn device(&self) -> (device: Device)
        ensures
            device == self.spec_device(),
    {
        Device::Ascend(self.ctx.device_id())
    }

    /// The buffer behind an operand.
    pub(crate) fn buf(t: &Tensor) -> (r: Result<DeviceBuffer, Error>)
        ensures
            match r {
                Ok(b) => operand_error(t@) is None && t@.buffer() == Some(b),
                Err(e) => operand_error(t@) == Some(e@),
            },
    {
        match t.storage {
            Storage::Gpu { device: Device::Ascend(_), buffer } => match buffer {
                Some(b) => Ok(b),
                None => Err(other("ascend tensor storage missing DeviceBuffer")),
            },
            _ => Err(Error::UnsupportedDevice(t.device)),
        }
    }

    /// Wrap a buffer as a half-precision tensor.
    pub fn wrap_fp16(&self, buf: DeviceBuffer, dims: Vec<usize>) -> (t: Tensor)
        ensures
            t@ == wrapped(self.spec_device(), buf, dims@),
    {
        let device = self.device();
        Tensor {
            dims,
            dtype: DType::F16,
            device,
            storage: Storage::Gpu { device, buffer: Some(buf) },
        }
    }

    /// The axes of a tensor as descriptor dimensions.
    fn dims(t: &Tensor) -> (dims: Vec<i64>)
        requires
            dims_fit(t@.dims),
        ensures
            dims@ == descriptor_dims(t@.dims),
    {
        let mut dims: Vec<i64> = Vec::new();
        let mut i: usize = 0;
        while i < t.dims.len()
            invariant
                i <= t.dims@.len(),
                dims_fit(t.dims@),
                dims@.len() == i,
                forall|j: int| 0 <= j < i ==> #[trigger] dims@[j] == t.dims@[j] as i64,
            decreases t.dims@.len() - i,
        {
            dims.push(t.dims[i] as i64);
            i = i + 1;
        }
        assert(dims@ =~= descriptor_dims(t@.dims));
        dims
    }

    /// The zero buffer of `len` bytes. A request for another size replaces it.
    pub fn zeros(&mut self, len: usize) -> (z: DeviceBuffer)
        requires
            old(self).wf(),
        ensures
            final(self).wf(),
            final(self).zero_slot == Some(z),
            z.len == len,
            final(self).state().holds_whole(z),
            final(self).state().value(z) == filled(len as nat, 0),
            final(self).state().fresh == old(self).state().fresh,
            final(self).state().pool == old(self).state().pool,
            keeps(old(self).state(), final(self).state()),
            final(self).spec_device() == old(self).spec_device(),
            old(self).zeros_ready(len) ==> *final(self) == *old(self),
    {
        match self.zero_slot {
            Some(z) => {
                if z.len == len {
                    proof {
                        lemma_whole_value(self.state(), z);
                    }
                    return z;
                }
            },
            None => {},
        }
        let ghost st = self.state();
        proof {
            self.ctx.lemma_safe();
        }
        let z = self.ctx.malloc_slot(len);
        let ghost s1 = self.state();
        let bytes = zero_bytes(len);
        proof {
            assert(literal(bytes@) =~= filled(len as nat, 0));
            lemma_write_whole(s1, z, literal(bytes@));
        }
        self.ctx.copy_h2d(&z, bytes);
        let ghost s2 = self.state();
        match self.zero_slot {
            Some(previous) => {
                self.ctx.release(previous);
            },
            None => {},
        }
        self.zero_slot = Some(z);
        proof {
            let id = st.issued as usize;
            assert(self.state().slots =~= Map::<usize, Seq<SymByte>>::empty().insert(
                id,
                filled(len as nat, 0),
            ));
            lemma_whole_value(self.state(), z);
        }
        z
    }
}

/// From `before` to `after` the backend produced `t`, a half-precision tensor of
/// these axes in a new buffer that holds `bytes`.
pub open spec fn produced(
    before: AscendBackend,
    after: AscendBackend,
    t: TensorInfo,
    dims: Seq<usize>,
    bytes: Seq<SymByte>,
) -> bool {
    &&& after.wf()
    &&& after.spec_device() == before.spec_device()
    &&& t.buffer() matches Some(buf) && {
        &&& t == wrapped(before.spec_device(), buf, dims)
        &&& delivers(before.state(), after.state(), buf, bytes)
    }
}

/// `t` is a live, lasting half-precision tensor of its axes.
pub open spec fn resident(st: DeviceState, t: TensorInfo) -> bool {
    &&& dims_fit(t.dims)
    &&& t.buffer() matches Some(b) && is_fp16(st, b, descriptor_dims(t.dims)) && is_lasting(b)
}

/// What `t` holds.
pub open spec fn held(st: DeviceState, t: TensorInfo) -> Seq<SymByte> {
    st.value(t.buffer()->0)
}

/// What is wrong with the first of two operands that something is wrong with.
pub open spec fn pair_error(a: TensorInfo, b: TensorInfo) -> Option<ErrorView> {
    first_error(operand_error(a), operand_error(b))
}

/// What is wrong with an operand that is to be a matrix.
pub open spec fn matrix_error(input: TensorInfo) -> Option<ErrorView> {
    if input.dims.len() != 2 {
        Some(
            ErrorView::Other(
                "ascend rms_norm expects 2-D [seq, hidden], got "@ + bracketed(
                    descriptor_dims(input.dims),
                ) + " (flatten first)"@,
            ),
        )
    } else {
        operand_error(input)
    }
}

/// What is wrong with the operands of a norm.
pub open spec fn rms_norm_error(input: TensorInfo, weight: TensorInfo) -> Option<ErrorView> {
    first_error(matrix_error(input), operand_error(weight))
}

/// What is wrong with the operands of a product.
pub open spec fn matmul_error(a: TensorInfo, b: TensorInfo) -> Option<ErrorView> {
    let da = descriptor_dims(a.dims);
    let db = descriptor_dims(b.dims);
    if da.len() != 2 || db.len() != 2 || da[1] != db[0] {
        Some(
            ErrorView::Other(
                "ascend matmul expects 2-D [m,k]x[k,n], got "@ + bracketed(da) + "x"@ + bracketed(
                    db,
                ),
            ),
        )
    } else {
        pair_error(a, b)
    }
}

impl AscendBackend {
    /// The buffer behind an operand that is to be a matrix.
    pub(crate) fn matrix(input: &Tensor) -> (r: Result<DeviceBuffer, Error>)
        requires
            dims_fit(input@.dims),
        ensures
            match r {
                Ok(b) => matrix_error(input@) is None && input@.buffer() == Some(b),
                Err(e) => matrix_error(input@) == Some(e@),
            },
    {
        if input.dims.len() != 2 {
            let shape = Self::dims(input);
            let mut text = String::new();
            text.append("ascend rms_norm expects 2-D [seq, hidden], got ");
            append_bracketed(&mut text, &shape);
            text.append(" (flatten first)");
            assert(text@ =~= "ascend rms_norm expects 2-D [seq, hidden], got "@ + bracketed(
                descriptor_dims(input@.dims),
            ) + " (flatten first)"@);
            return Err(Error::Other(text));
        }
        Self::buf(input)
    }

    /// The norm of the rows of `x` through the fused kernel that first adds zeros.
    pub fn rms_norm_rows(
        &mut self,
        x: &DeviceBuffer,
        gamma: &DeviceBuffer,
        rows: i64,
        cols: i64,
        eps: u32,
    ) -> (out: DeviceBuffer)
        requires
            old(self).wf(),
            is_fp16(old(self).state(), *x, seq![rows, cols]),
            is_row(old(self).state(), *gamma, cols),
            is_lasting(*x),
            is_lasting(*gamma),
        ensures
            final(self).wf(),
            final(self).spec_device() == old(self).spec_device(),
            final(self).zeros_ready(x.len),
            out.len == x.len,
            delivers(
                old(self).state(),
                final(self).state(),
                out,
                rms_norm_value(
                    old(self).state().value(*x),
                    filled(x.len as nat, 0),
                    old(self).state().value(*gamma),
                    rows,
                    cols,
                    Real::Single(eps),
                ),
            ),
            old(self).zeros_ready(x.len) ==> quiet(old(self).ctx, final(self).ctx),
    {
        let ghost s0 = self.state();
        let ghost c0 = self.ctx;
        let ghost warm = self.zeros_ready(x.len);
        proof {
            lemma_fits(rows, cols);
        }
        let zeros = self.zeros(x.len);
        let ghost c1 = self.ctx;
        let ghost s1 = self.state();
        proof {
            self.ctx.lemma_safe();
            lemma_lasting(s0, s1, *x);
            lemma_lasting(s0, s1, *gamma);
            assert([rows, cols]@ =~= seq![rows, cols]);
        }
        let (y, rstd) = add_rms_norm_fp16(
            &mut self.ctx,
            x,
            &zeros,
            gamma,
            [rows, cols],
            Real::Single(eps),
        );
        let ghost c2 = self.ctx;
        let ghost s2 = self.state();
        proof {
            lemma_releasable(s1, s2, (s1.issued + 1) as usize);
        }
        self.ctx.release(rstd);
        proof {
            let value = rms_norm_value(
                s0.value(*x),
                filled(x.len as nat, 0),
                s0.value(*gamma),
                rows,
                cols,
                Real::Single(eps),
            );
            reveal(result);
            assert(self.state().fresh =~= s0.fresh.insert(s1.issued as usize, value));
            lemma_quiet(c2, self.ctx, seq![Call::Release { base: rstd.base }]);
            lemma_quiet_then(c1, c2, self.ctx);
        }
        y
    }

    /// The layer norm of the rows of `x` through the fused kernel that first adds
    /// zeros.
    pub fn layer_norm_rows(
        &mut self,
        x: &DeviceBuffer,
        gamma: &DeviceBuffer,
        beta: &DeviceBuffer,
        rows: i64,
        cols: i64,
        eps: u32,
    ) -> (out: DeviceBuffer)
        requires
            old(self).wf(),
            is_fp16(old(self).state(), *x, seq![rows, cols]),
            is_row(old(self).state(), *gamma, cols),
            is_row(old(self).state(), *beta, cols),
            is_lasting(*x),
            is_lasting(*gamma),
            is_lasting(*beta),
        ensures
            final(self).wf(),
            final(self).spec_device() == old(self).spec_device(),
            final(self).zeros_ready(x.len),
            out.len == x.len,
            delivers(
                old(self).state(),
                final(self).state(),
                out,
                layer_norm_value(
                    old(self).state().value(*x),
                    filled(x.len as nat, 0),
                    old(self).state().value(*gamma),
                    old(self).state().value(*beta),
                    rows,
                    cols,
                    Real::Single(eps),
                ),
            ),
            old(self).zeros_ready(x.len) ==> quiet(old(self).ctx, final(self).ctx),
    {
        let ghost s0 = self.state();
        proof {
            lemma_fits(rows, cols);
        }
        let zeros = self.zeros(x.len);
        let ghost s1 = self.state();
        proof {
            self.ctx.lemma_safe();
            lemma_lasting(s0, s1, *x);
            lemma_lasting(s0, s1, *gamma);
            lemma_lasting(s0, s1, *beta);
        }
        let out = layer_norm_fp16(
            &mut self.ctx,
            x,
            &zeros,
            gamma,
            beta,
            rows,
            cols,
            Real::Single(eps),
        );
        proof {
            reveal(result);
        }
        out
    }

    /// The norm of the rows of a matrix, scaled by `weight`.
    pub fn rms_norm(&mut self, input: &Tensor, weight: &Tensor, eps: u32) -> (r: Result<
        Tensor,
        Error,
    >)
        requires
            old(self).wf(),
            dims_fit(input@.dims),
            rms_norm_error(input@, weight@) is None ==> {
                &&& resident(old(self).state(), input@)
                &&& weight@.buffer() matches Some(b) && is_row(
                    old(self).state(),
                    b,
                    input@.dims[1] as i64,
                ) && is_lasting(b)
            },
        ensures
            match r {
                Err(e) => rms_norm_error(input@, weight@) == Some(e@) && *final(self) == *old(
                    self,
                ),
                Ok(t) => rms_norm_error(input@, weight@) is None && produced(
                    *old(self),
                    *final(self),
                    t@,
                    input@.dims,
                    rms_norm_value(
                        held(old(self).state(), input@),
                        filled(input@.buffer()->0.len as nat, 0),
                        held(old(self).state(), weight@),
                        input@.dims[0] as i64,
                        input@.dims[1] as i64,
                        Real::Single(eps),
                    ),
                ),
            },
    {
        let x = Self::matrix(input)?;
        let gamma = Self::buf(weight)?;
        let rows: i64 = input.dims[0] as i64;
        let cols: i64 = input.dims[1] as i64;
        assert(descriptor_dims(input@.dims) =~= seq![rows, cols]);
        let y = self.rms_norm_rows(&x, &gamma, rows, cols, eps);
        let shared = input.share();
        Ok(self.wrap_fp16(y, shared.dims))
    }

    /// `silu(input)`, elementwise.
    pub fn silu(&mut self, input: &Tensor) -> (r: Result<Tensor, Error>)
        requires
            old(self).wf(),
            dims_fit(input@.dims),
            operand_error(input@) is None ==> resident(old(self).state(), input@),
        ensures
            match r {
                Err(e) => operand_error(input@) == Some(e@) && *final(self) == *old(self),
                Ok(t) => operand_error(input@) is None && produced(
                    *old(self),
                    *final(self),
                    t@,
                    input@.dims,
                    silu_value(
                        held(old(self).state(), input@),
                        descriptor_dims(input@.dims),
                    ),
                ),
            },
    {
        let x = Self::buf(input)?;
        let shape = Self::dims(input);
        let out = silu_fp16(&mut self.ctx, &x, &shape);
        let shared = input.share();
        Ok(self.wrap_fp16(out, shared.dims))
    }

    /// `a + b`, elementwise.
    pub fn add(&mut self, a: &Tensor, b: &Tensor) -> (r: Result<Tensor, Error>)
        requires
            old(self).wf(),
            dims_fit(a@.dims),
            pair_error(a@, b@) is None ==> {
                &&& resident(old(self).state(), a@)
                &&& b@.buffer() matches Some(bb) && is_fp16(
                    old(self).state(),
                    bb,
                    descriptor_dims(a@.dims),
                )
            },
        ensures
            match r {
                Err(e) => pair_error(a@, b@) == Some(e@) && *final(self) == *old(self),
                Ok(t) => pair_error(a@, b@) is None && produced(
                    *old(self),
                    *final(self),
                    t@,
                    a@.dims,
                    add_value(
                        held(old(self).state(), a@),
                        held(old(self).state(), b@),
                        descriptor_dims(a@.dims),
                    ),
                ),
            },
    {
        let x = Self::buf(a)?;
        let y = Self::buf(b)?;
        let shape = Self::dims(a);
        let out = add_fp16(&mut self.ctx, &x, &y, &shape);
        let shared = a.share();
        Ok(self.wrap_fp16(out, shared.dims))
    }

    /// `a * b`, elementwise.
    pub fn mul(&mut self, a: &Tensor, b: &Tensor) -> (r: Result<Tensor, Error>)
        requires
            old(self).wf(),
            dims_fit(a@.dims),
            pair_error(a@, b@) is None ==> {
                &&& resident(old(self).state(), a@)
                &&& b@.buffer() matches Some(bb) && is_fp16(
                    old(self).state(),
                    bb,
                    descriptor_dims(a@.dims),
                )
            },
        ensures
            match r {
                Err(e) => pair_error(a@, b@) == Some(e@) && *final(self) == *old(self),
                Ok(t) => pair_error(a@, b@) is None && produced(
                    *old(self),
                    *final(self),
                    t@,
                    a@.dims,
                    mul_value(
                        held(old(self).state(), a@),
                        held(old(self).state(), b@),
                        descriptor_dims(a@.dims),
                    ),
                ),
            },
    {
        let x = Self::buf(a)?;
        let y = Self::buf(b)?;
        let shape = Self::dims(a);
        let out = mul_fp16(&mut self.ctx, &x, &y, &shape);
        let shared = a.share();
        Ok(self.wrap_fp16(out, shared.dims))
    }

    /// `input * factor`, elementwise. The factor is a single-precision pattern.
    pub fn scale(&mut self, input: &Tensor, factor: u32) -> (r: Result<Tensor, Error>)
        requires
            old(self).wf(),
            dims_fit(input@.dims),
            operand_error(input@) is None ==> resident(old(self).state(), input@),
        ensures
            match r {
                Err(e) => operand_error(input@) == Some(e@) && *final(self) == *old(self),
                Ok(t) => operand_error(input@) is None && produced(
                    *old(self),
                    *final(self),
                    t@,
                    input@.dims,
                    muls_value(
                        held(old(self).state(), input@),
                        factor,
                        descriptor_dims(input@.dims),
                    ),
                ),
            },
    {
        let x = Self::buf(input)?;
        let shape = Self::dims(input);
        let out = muls_fp16(&mut self.ctx, &x, factor, &shape);
        let shared = input.share();
        Ok(self.wrap_fp16(out, shared.dims))
    }

    /// `a @ b` for matrices.
    pub fn matmul(&mut self, a: &Tensor, b: &Tensor) -> (r: Result<Tensor, Error>)
        requires
            old(self).wf(),
            dims_fit(a@.dims),
            dims_fit(b@.dims),
            matmul_error(a@, b@) is None ==> {
                &&& resident(old(self).state(), b@)
                &&& a@.buffer() matches Some(ab) && matmul_ready(
                    old(self).state(),
                    ab,
                    a@.dims[0] as i64,
                    a@.dims[1] as i64,
                    b@.buffer()->0,
                    b@.dims[1] as i64,
                )
            },
        ensures
            match r {
                Err(e) => matmul_error(a@, b@) == Some(e@) && *final(self) == *old(self),
                Ok(t) => matmul_error(a@, b@) is None && produced(
                    *old(self),
                    *final(self),
                    t@,
                    seq![a@.dims[0], b@.dims[1]],
                    matmul_value(
                        held(old(self).state(), a@),
                        a@.dims[0] as i64,
                        a@.dims[1] as i64,
                        fp16(held(old(self).state(), b@), descriptor_dims(b@.dims)),
                        b@.dims[1] as i64,
                    ),
                ),
            },
    {
        let da = Self::dims(a);
        let db = Self::dims(b);
        if da.len() != 2 || db.len() != 2 || da[1] != db[0] {
            let mut text = String::new();
            text.append("ascend matmul expects 2-D [m,k]x[k,n], got ");
            append_bracketed(&mut text, &da);
            text.append("x");
            append_bracketed(&mut text, &db);
            assert(text@ =~= "ascend matmul expects 2-D [m,k]x[k,n], got "@ + bracketed(
                descriptor_dims(a@.dims),
            ) + "x"@ + bracketed(descriptor_dims(b@.dims)));
            return Err(Error::Other(text));
        }
        let x = Self::buf(a)?;
        let y = Self::buf(b)?;
        let b_shape: [i64; 2] = [db[0], db[1]];
        assert(b_shape@ =~= descriptor_dims(b@.dims));
        let out = matmul_fp16(&mut self.ctx, &x, [da[0], da[1]], &y, b_shape);
        let dims: Vec<usize> = vec![a.dims[0], b.dims[1]];
        assert(dims@ =~= seq![a@.dims[0], b@.dims[1]]);
        Ok(self.wrap_fp16(out, dims))
    }
}

/// A lasting buffer survives a change of the zero buffer.
proof fn lemma_lasting(before: DeviceState, after: DeviceState, b: DeviceBuffer)
    requires
        before.holds(b),
        is_lasting(b),
        after.fresh == before.fresh,
        keeps(before, after),
    ensures
        after.holds(b),
        after.value(b) == before.value(b),
{
    match b.base {
        Base::Kept(id) => {
            assert(before.kept.contains_key(id));
        },
        _ => {},
    }
}

} // verus!
