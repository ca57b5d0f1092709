//! Tensors on their way between the host and the device. The device holds
//! half-precision words; the host hands words in and takes words back.

use vstd::prelude::*;
use vstd::string::StringExecFns;

use crate::backend::{operand_error, produced, wrapped, AscendBackend};
use crate::device::{Base, Call, DeviceBuffer};
use crate::encode::{
    as_words, half_bytes, lemma_words_round_trip, word_at, word_bytes,
};
use crate::error::{other, Device, Error, ErrorView};
use crate::graph::{begin, end, mode_number, CaptureMode, GraphCall};
use crate::model::{DType, Storage, Tensor, TensorInfo};
use crate::kernel::whole;
use crate::semantics::{lemma_write_whole, literal, run, DeviceState, SymByte};
use crate::stream::AscendStream;
use crate::transfer::{upload, upload_calls};

verus! {

/// The bytes of half-precision words in device memory.
pub open spec fn words_value(words: Seq<u16>) -> Seq<SymByte> {
    literal(half_bytes(words.len(), as_words(words)))
}

/// The device after bringing a tensor to it, and the tensor there.
pub open spec fn sent(st: DeviceState, device: Device, tensor: TensorInfo, words: Seq<u16>) -> (
    DeviceState,
    TensorInfo,
) {
    if tensor.device == device {
        (st, tensor)
    } else {
        let bytes = half_bytes(words.len(), as_words(words));
        let buf = whole(st.issued, bytes.len() as int);
        (run(st, upload_calls(buf, bytes)), wrapped(device, buf, tensor.dims))
    }
}

/// A tensor that was asked for on the host.
#[derive(Debug)]
pub enum OnHost {
    /// It is there already.
    Held(Tensor),
    /// Its bytes are in this staging slot.
    Slot(usize),
}

/// How an element type is written in messages.
pub open spec fn element_text(dtype: DType) -> Seq<char> {
    match dtype {
        DType::F32 => "F32"@,
        DType::F16 => "F16"@,
        DType::BF16 => "BF16"@,
    }
}

/// What is wrong with a tensor that noise is to be written to.
pub open spec fn generator_error(device: Device, output: TensorInfo) -> Option<ErrorView> {
    if output.device != device {
        Some(ErrorView::UnsupportedDevice(output.device))
    } else if output.dtype != DType::F16 {
        Some(
            ErrorView::Other(
                "ascend normal generator expects F16 output, got "@ + element_text(output.dtype),
            ),
        )
    } else {
        operand_error(output)
    }
}

/// Writes generated noise to a tensor of the device, always the same one.
#[derive(Debug)]
pub struct AscendNormalGenerator {
    pub output: Tensor,
}

impl AscendBackend {
    /// Bring a tensor to the device. `words` are its elements in half precision, where
    /// the host could read them.
    pub fn to_device(&mut self, tensor: &Tensor, words: Result<Vec<u16>, Error>) -> (r: Result<
        Tensor,
        Error,
    >)
        requires
            old(self).wf(),
        ensures
            if tensor@.device == old(self).spec_device() {
                &&& *final(self) == *old(self)
                &&& r matches Ok(t) && t@ == tensor@
            } else {
                match words {
                    Err(e) => *final(self) == *old(self) && r == Err::<Tensor, Error>(e),
                    Ok(w) => r matches Ok(t) && produced(
                        *old(self),
                        *final(self),
                        t@,
                        tensor@.dims,
                        words_value(w@),
                    ) && (final(self).state(), t@) == sent(
                        old(self).state(),
                        old(self).spec_device(),
                        tensor@,
                        w@,
                    ) && final(self).zero_slot == old(self).zero_slot,
                }
            },
    {
        if tensor.device == self.device() {
            return Ok(tensor.share());
        }
        let given = words?;
        let bytes = word_bytes(&given);
        let buf = upload(&mut self.ctx, bytes);
        let shared = tensor.share();
        Ok(self.wrap_fp16(buf, shared.dims))
    }

    /// Bring a tensor to the host. The copy does not wait for the stream, which has to
    /// have finished writing the tensor. The slot is dropped by
    /// [`AscendBackend::drop_slot`] once its bytes have been read.
    pub fn to_cpu(&mut self, tensor: &Tensor) -> (r: Result<OnHost, Error>)
        requires
            old(self).wf(),
            tensor@.device != Device::Cpu && operand_error(tensor@) is None ==> {
                &&& tensor@.buffer() matches Some(b) && old(self).state().holds(b)
                    && old(self).state().settled(b)
            },
        ensures
            if tensor@.device == Device::Cpu {
                &&& *final(self) == *old(self)
                &&& r matches Ok(OnHost::Held(t)) && t@ == tensor@
            } else {
                match operand_error(tensor@) {
                    Some(e) => *final(self) == *old(self) && (r matches Err(f) && f@ == e),
                    None => {
                        let b = tensor@.on_device();
                        &&& r matches Ok(OnHost::Slot(slot)) && slot == old(self).state().issued
                            && final(self).ctx.issues(
                            &old(self).ctx,
                            Call::Download { src: b, slot },
                        ) && final(self).state().staged[slot] == old(self).state().value(b)
                        &&& final(self).zero_slot == old(self).zero_slot
                    },
                }
            },
    {
        if tensor.device == Device::Cpu {
            return Ok(OnHost::Held(tensor.share()));
        }
        let b = Self::buf(tensor)?;
        let slot: usize = self.ctx.copy_d2h(&b);
        Ok(OnHost::Slot(slot))
    }

    /// Drop the slot that a readback filled.
    pub fn drop_slot(&mut self, slot: usize)
        requires
            old(self).ctx.wf(),
            old(self).state().staged.contains_key(slot),
        ensures
            final(self).ctx.issues(&old(self).ctx, Call::Unstage { slot }),
            final(self).zero_slot == old(self).zero_slot,
    {
        self.ctx.unstage(slot);
    }

    /// Wait until the stream has drained.
    pub fn synchronize(&mut self)
        requires
            old(self).wf(),
        ensures
            final(self).wf(),
            final(self).ctx.issues(&old(self).ctx, Call::Sync),
            final(self).zero_slot == old(self).zero_slot,
    {
        self.ctx.synchronize();
    }

    /// Begin capturing what is queued on the stream from now on.
    pub fn begin_capture(&self, stream: &AscendStream) -> (call: GraphCall)
        ensures
            call == (GraphCall::CaptureBegin {
                stream: stream.raw,
                mode: mode_number(CaptureMode::ThreadLocal),
            }),
    {
        begin(stream, CaptureMode::ThreadLocal)
    }

    /// End the capture; the answer is read by [`crate::graph::captured`].
    pub fn end_capture(&self, stream: &AscendStream) -> (call: GraphCall)
        ensures
            call == (GraphCall::CaptureEnd { stream: stream.raw }),
    {
        end(stream)
    }

    /// A generator that writes noise to `output`, a half-precision tensor of this
    /// device.
    pub fn create_normal_generator(&self, output: Tensor) -> (r: Result<
        AscendNormalGenerator,
        Error,
    >)
        ensures
            match generator_error(self.spec_device(), output@) {
                Some(e) => r matches Err(f) && f@ == e,
                None => r matches Ok(g) && g.output@ == output@,
            },
    {
        let device = self.device();
        if output.device != device {
            return Err(Error::UnsupportedDevice(output.device));
        }
        if output.dtype != DType::F16 {
            let name = match output.dtype {
                DType::F32 => "F32",
                DType::F16 => "F16",
                DType::BF16 => "BF16",
            };
            let mut text = String::new();
            text.append("ascend normal generator expects F16 output, got ");
            text.append(name);
            assert(text@ =~= "ascend normal generator expects F16 output, got "@ + element_text(
                output.dtype,
            ));
            return Err(Error::Other(text));
        }
        let _ = Self::buf(&output)?;
        Ok(AscendNormalGenerator { output })
    }

    /// Rotary embedding of a tensor is not provided.
    pub fn rope(&self) -> (r: Result<Tensor, Error>)
        ensures
            r matches Err(e) && e@ == ErrorView::Other(
                "ascend rope pending (aclnnApplyRotaryPosEmbV2 queued)"@,
            ),
    {
        Err(other("ascend rope pending (aclnnApplyRotaryPosEmbV2 queued)"))
    }

    /// Table lookup of a tensor is not provided.
    pub fn embedding(&self) -> (r: Result<Tensor, Error>)
        ensures
            r matches Err(e) && e@ == ErrorView::Other(
                "ascend embedding pending (gather op queued)"@,
            ),
    {
        Err(other("ascend embedding pending (gather op queued)"))
    }

    /// Decoding with a key-value cache is not provided.
    pub fn sdpa_decode(&self) -> (r: Result<Tensor, Error>)
        ensures
            r matches Err(e) && e@ == ErrorView::Other(
                "ascend sdpa_decode pending (kv cache queued)"@,
            ),
    {
        Err(other("ascend sdpa_decode pending (kv cache queued)"))
    }

    /// Prefilling a key-value cache is not provided.
    pub fn sdpa_prefill(&self) -> (r: Result<Tensor, Error>)
        ensures
            r matches Err(e) && e@ == ErrorView::Other(
                "ascend sdpa_prefill pending (kv cache queued)"@,
            ),
    {
        Err(other("ascend sdpa_prefill pending (kv cache queued)"))
    }

    /// Appending to a key-value cache is not provided.
    pub fn kv_append(&self) -> (r: Result<(), Error>)
        ensures
            r matches Err(e) && e@ == ErrorView::Other("ascend kv_append pending"@),
    {
        Err(other("ascend kv_append pending"))
    }

    /// Sampling tokens is not provided.
    pub fn create_token_sampler(&self) -> (r: Result<(), Error>)
        ensures
            r matches Err(e) && e@ == ErrorView::Other(
                "ascend token sampler pending (flow sampling lands with the PI0.5 executor)"@,
            ),
    {
        Err(
            other(
                "ascend token sampler pending (flow sampling lands with the PI0.5 executor)",
            ),
        )
    }
}

/// What is wrong with the output of a generator when noise is written to it.
pub open spec fn output_error(output: TensorInfo) -> Option<ErrorView> {
    match output.storage {
        Storage::Gpu { device, buffer } => match buffer {
            Some(_) => None,
            None => Some(ErrorView::Other("ascend tensor storage missing DeviceBuffer"@)),
        },
        Storage::Cpu => Some(ErrorView::UnsupportedDevice(output.device)),
    }
}

impl AscendNormalGenerator {
    pub fn output(&self) -> (t: &Tensor)
        ensures
            *t == self.output,
    {
        &self.output
    }

    /// Write noise, given as half-precision words, to the output.
    pub fn generate(&self, be: &mut AscendBackend, words: &[u16]) -> (r: Result<&Tensor, Error>)
        requires
            old(be).wf(),
            output_error(self.output@) is None ==> {
                &&& self.output@.buffer() matches Some(b) && old(be).state().holds_whole(b)
                    && old(be).state().settled(b) && b.len == 2 * words@.len() && (b.base is Fresh
                    || b.base is Kept)
            },
        ensures
            match output_error(self.output@) {
                Some(e) => *final(be) == *old(be) && (r matches Err(f) && f@ == e),
                None => {
                    let b = self.output@.on_device();
                    &&& r matches Ok(t) && *t == self.output
                    &&& final(be).wf()
                    &&& final(be).zero_slot == old(be).zero_slot
                    &&& final(be).spec_device() == old(be).spec_device()
                    &&& final(be).state() == old(be).state().with_content(
                        b.base,
                        words_value(words@),
                    )
                    &&& final(be).state().value(b) == words_value(words@)
                },
            },
    {
        let b: DeviceBuffer = match self.output.storage {
            Storage::Gpu { device: _, buffer } => match buffer {
                Some(b) => b,
                None => {
                    return Err(other("ascend tensor storage missing DeviceBuffer"));
                },
            },
            Storage::Cpu => {
                return Err(Error::UnsupportedDevice(self.output.device));
            },
        };
        let bytes = word_bytes(words);
        proof {
            lemma_write_whole(be.state(), b, literal(bytes@));
        }
        be.ctx.copy_h2d(&b, bytes);
        Ok(&self.output)
    }
}

/// A tensor that was brought to the device keeps its dimensions and holds its words.
pub proof fn lemma_sent(st: DeviceState, device: Device, tensor: TensorInfo, words: Seq<u16>)
    requires
        tensor.device != device,
        2 * words.len() <= usize::MAX,
    ensures
        ({
            let (after, there) = sent(st, device, tensor, words);
            let b = there.on_device();
            &&& there == wrapped(device, b, tensor.dims)
            &&& after.holds_whole(b)
            &&& after.value(b) == words_value(words)
            &&& b.base == Base::Fresh(st.issued as usize)
            &&& after.issued == st.issued + 1
            &&& after.fresh == st.fresh.insert(st.issued as usize, words_value(words))
        }),
{
    let bytes = half_bytes(words.len(), as_words(words));
    let b = whole(st.issued, bytes.len() as int);
    let calls = upload_calls(b, bytes);
    reveal_with_fuel(run, 3);
    assert(calls.drop_last() =~= seq![calls[0]]);
    assert(calls.drop_last().drop_last() =~= Seq::<Call>::empty());
    let made = st.step(calls[0]);
    assert(run(st, calls) == made.step(calls[1]));
    lemma_write_whole(made, b, literal(bytes));
    assert(made.step(calls[1]).fresh =~= st.fresh.insert(st.issued as usize, literal(bytes)));
}

/// Words that were brought to the device come back unchanged: whatever bytes a buffer
/// that holds the words is read back as, they are the words.
pub proof fn lemma_upload_readback(words: Seq<u16>, bytes: Seq<u8>)
    requires
        literal(bytes) == words_value(words),
    ensures
        Seq::new(bytes.len() / 2, |i: int| word_at(bytes, i)) == words,
{
    lemma_words_round_trip(words);
    let sent = half_bytes(words.len(), as_words(words));
    assert(literal(bytes).len() == literal(sent).len());
    assert forall|i: int| 0 <= i < bytes.len() implies bytes[i] == sent[i] by {
        assert(literal(bytes)[i] == SymByte::Lit(bytes[i]));
        assert(literal(sent)[i] == SymByte::Lit(sent[i]));
    }
    assert(bytes =~= sent);
}

} // verus!
