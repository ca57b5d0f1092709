//! The recording context: every operation appends its steps to a program,
//! and the program is only ever extended by steps that are allowed.

use vstd::prelude::*;

use crate::device::{AclTensor, Base, Call, Command, DeviceBuffer, Entry, HostTask, LaunchMode};
use crate::semantics::{
    covered, lemma_outputs_frame, lemma_run_append, lemma_step_sane, run, safe, DeviceState,
};

verus! {

/// Hands out identifiers that are never repeated.
struct Serial {
    ticks: Vec<()>,
}

impl Serial {
    closed spec fn count(&self) -> nat {
        self.ticks@.len()
    }

    proof fn lemma_count(&self)
        ensures
            self.count() <= usize::MAX,
    {
        assert(self.ticks.len() <= usize::MAX);
    }

    fn new() -> (serial: Serial)
        ensures
            serial.count() == 0,
    {
        Serial { ticks: Vec::new() }
    }

    fn next(&mut self) -> (id: usize)
        ensures
            id == old(self).count(),
            final(self).count() == old(self).count() + 1,
    {
        let id: usize = self.ticks.len();
        self.ticks.push(());
        id
    }
}

/// What the recorded commands say.
pub open spec fn calls_of(log: Seq<Command>) -> Seq<Call> {
    Seq::new(log.len(), |i: int| log[i]@)
}

/// Records device programs for one device and one stream.
pub struct AscendContext {
    device_id: usize,
    serial: Serial,
    log: Vec<Command>,
    start: Ghost<DeviceState>,
}

impl AscendContext {
    /// The steps recorded since the program was last taken.
    pub closed spec fn calls(&self) -> Seq<Call> {
        calls_of(self.log@)
    }

    /// The state in which the recorded program starts.
    pub closed spec fn start(&self) -> DeviceState {
        self.start@
    }

    /// The state that the recorded program leaves.
    pub open spec fn state(&self) -> DeviceState {
        run(self.start(), self.calls())
    }

    pub closed spec fn spec_device_id(&self) -> usize {
        self.device_id
    }

    /// The program is safe and identifiers are in step with it.
    pub closed spec fn wf(&self) -> bool {
        &&& self.start().sane()
        &&& safe(self.start(), self.calls())
        &&& self.state().sane()
        &&& self.serial.count() == self.state().issued
    }

    /// A well-formed context has recorded a safe program.
    pub proof fn lemma_safe(&self)
        requires
            self.wf(),
        ensures
            self.start().sane(),
            safe(self.start(), self.calls()),
            self.state().sane(),
    {
    }

    /// Identifiers are machine numbers.
    pub proof fn lemma_issued(&self)
        requires
            self.wf(),
        ensures
            self.state().issued <= usize::MAX,
    {
        self.serial.lemma_count();
    }

    /// An empty program on a device with no allocations.
    pub fn new(device_id: usize) -> (ctx: AscendContext)
        ensures
            ctx.wf(),
            ctx.start() == DeviceState::initial(),
            ctx.calls() == Seq::<Call>::empty(),
            ctx.spec_device_id() == device_id,
    {
        let ctx = AscendContext {
            device_id,
            serial: Serial::new(),
            log: Vec::new(),
            start: Ghost(DeviceState::initial()),
        };
        proof {
            reveal(run);
            reveal(safe);
            assert(ctx.calls() =~= Seq::<Call>::empty());
        }
        ctx
    }

    pub fn device_id(&self) -> (id: usize)
        ensures
            id == self.spec_device_id(),
    {
        self.device_id
    }

    /// `self` is `before` with `more` recorded after it.
    pub open spec fn recorded(&self, before: &AscendContext, more: Seq<Call>) -> bool {
        &&& self.wf()
        &&& self.start() == before.start()
        &&& self.spec_device_id() == before.spec_device_id()
        &&& self.calls() == before.calls() + more
        &&& self.state() == run(before.state(), more)
    }

    /// `self` is `before` with something recorded after it.
    pub open spec fn continues(&self, before: &AscendContext) -> bool {
        &&& self.wf()
        &&& self.start() == before.start()
        &&& self.spec_device_id() == before.spec_device_id()
    }

    /// The identifier that the next allocation, descriptor or slot gets.
    fn next_id(&mut self) -> (id: usize)
        requires
            old(self).wf(),
        ensures
            id == old(self).state().issued,
            final(self).calls() == old(self).calls(),
            final(self).start() == old(self).start(),
            final(self).spec_device_id() == old(self).spec_device_id(),
            final(self).serial.count() == old(self).serial.count() + 1,
    {
        self.serial.next()
    }

    /// Record a step that needs no identifier.
    fn emit(&mut self, command: Command)
        requires
            old(self).wf(),
            old(self).state().allows(command@),
            old(self).state().step(command@).issued == old(self).state().issued,
        ensures
            final(self).recorded(old(self), seq![command@]),
            final(self).state() == old(self).state().step(command@),
    {
        self.append(command);
    }

    fn append(&mut self, command: Command)
        requires
            old(self).start().sane(),
            safe(old(self).start(), old(self).calls()),
            old(self).state().sane(),
            old(self).serial.count() == old(self).state().step(command@).issued,
            old(self).state().allows(command@),
        ensures
            final(self).recorded(old(self), seq![command@]),
            final(self).state() == old(self).state().step(command@),
    {
        let ghost before = self.calls();
        self.log.push(command);
        proof {
            let one = seq![command@];
            assert(self.calls() =~= before + one);
            assert(one.drop_last() =~= Seq::<Call>::empty());
            lemma_run_append(self.start(), before, one);
            reveal_with_fuel(run, 2);
            reveal_with_fuel(safe, 2);
            lemma_step_sane(run(self.start(), before), command@);
        }
    }

    /// Record the creation of something that gets an identifier.
    pub open spec fn issues(&self, before: &AscendContext, call: Call) -> bool {
        &&& self.recorded(before, seq![call])
        &&& self.state() == before.state().step(call)
    }

    /// Allocate `len` bytes that the caller releases.
    pub fn malloc(&mut self, len: usize) -> (buf: DeviceBuffer)
        requires
            old(self).wf(),
        ensures
            buf.base == Base::Fresh(old(self).state().issued as usize),
            old(self).state().issued <= usize::MAX,
            buf.offset == 0,
            buf.len == len,
            final(self).issues(old(self), Call::Malloc { base: buf.base, len }),
    {
        let id: usize = self.next_id();
        self.append(Command::Malloc { base: Base::Fresh(id), len });
        DeviceBuffer { base: Base::Fresh(id), offset: 0, len }
    }

    /// Allocate `len` bytes that a cache keeps.
    pub fn malloc_kept(&mut self, len: usize) -> (buf: DeviceBuffer)
        requires
            old(self).wf(),
        ensures
            buf.base == Base::Kept(old(self).state().issued as usize),
            old(self).state().issued <= usize::MAX,
            buf.offset == 0,
            buf.len == len,
            final(self).issues(old(self), Call::Malloc { base: buf.base, len }),
    {
        let id: usize = self.next_id();
        self.append(Command::Malloc { base: Base::Kept(id), len });
        DeviceBuffer { base: Base::Kept(id), offset: 0, len }
    }

    /// Allocate `len` bytes for a one-entry cache.
    pub fn malloc_slot(&mut self, len: usize) -> (buf: DeviceBuffer)
        requires
            old(self).wf(),
        ensures
            buf.base == Base::Slot(old(self).state().issued as usize),
            old(self).state().issued <= usize::MAX,
            buf.offset == 0,
            buf.len == len,
            final(self).issues(old(self), Call::Malloc { base: buf.base, len }),
    {
        let id: usize = self.next_id();
        self.append(Command::Malloc { base: Base::Slot(id), len });
        DeviceBuffer { base: Base::Slot(id), offset: 0, len }
    }

    /// The pooled scratch buffer of exactly `len` bytes. Requests for the same
    /// size share one buffer, whose content is whatever the last user left.
    pub fn scratch_buf(&mut self, len: usize) -> (buf: DeviceBuffer)
        requires
            old(self).wf(),
        ensures
            buf == (DeviceBuffer { base: Base::Pool(len), offset: 0, len }),
            final(self).issues(old(self), Call::Scratch { len }),
            final(self).state().holds_whole(buf),
    {
        self.emit(Command::Scratch { len });
        proof {
            self.lemma_safe();
        }
        DeviceBuffer { base: Base::Pool(len), offset: 0, len }
    }

    /// Give an allocation back.
    pub fn release(&mut self, buf: DeviceBuffer)
        requires
            old(self).wf(),
            old(self).state().allows(Call::Release { base: buf.base }),
        ensures
            final(self).issues(old(self), Call::Release { base: buf.base }),
    {
        self.emit(Command::Release { base: buf.base });
    }

    /// Stream-ordered fill.
    pub fn memset_async(&mut self, buf: &DeviceBuffer, value: u8)
        requires
            old(self).wf(),
            old(self).state().holds(*buf),
        ensures
            final(self).issues(old(self), Call::Fill { buffer: *buf, value }),
    {
        self.emit(Command::Fill { buffer: *buf, value });
    }

    /// Stream-ordered copy of `src` to `dst`, reported under `op`.
    pub fn copy_async(&mut self, dst: &DeviceBuffer, src: &DeviceBuffer, op: &'static str)
        requires
            old(self).wf(),
            old(self).state().holds(*dst),
            old(self).state().holds(*src),
            src.len == dst.len,
        ensures
            final(self).issues(old(self), Call::Copy { dst: *dst, src: *src, op: op@ }),
    {
        self.emit(Command::Copy { dst: *dst, src: *src, op });
    }

    /// Stream-ordered copy between buffers of one length.
    pub fn copy_d2d_async(&mut self, dst: &DeviceBuffer, src: &DeviceBuffer)
        requires
            old(self).wf(),
            old(self).state().holds(*dst),
            old(self).state().holds(*src),
            src.len == dst.len,
        ensures
            final(self).issues(
                old(self),
                Call::Copy { dst: *dst, src: *src, op: "aclrtMemcpyAsync d2d"@ },
            ),
    {
        self.copy_async(dst, src, "aclrtMemcpyAsync d2d");
    }

    /// Host to device copy.
    pub fn copy_h2d(&mut self, buf: &DeviceBuffer, host: Vec<u8>)
        requires
            old(self).wf(),
            old(self).state().holds(*buf),
            old(self).state().settled(*buf),
            host@.len() == buf.len,
        ensures
            final(self).issues(old(self), Call::Upload { dst: *buf, bytes: host@ }),
    {
        self.emit(Command::Upload { dst: *buf, bytes: host });
    }

    /// Device to host copy into a new staging slot. The copy does not wait for the
    /// stream.
    pub fn copy_d2h(&mut self, buf: &DeviceBuffer) -> (slot: usize)
        requires
            old(self).wf(),
            old(self).state().holds(*buf),
            old(self).state().settled(*buf),
        ensures
            slot == old(self).state().issued,
            final(self).issues(old(self), Call::Download { src: *buf, slot }),
    {
        let slot: usize = self.next_id();
        self.append(Command::Download { src: *buf, slot });
        slot
    }

    /// Compute a new staging slot.
    pub fn stage(&mut self, task: HostTask) -> (slot: usize)
        requires
            old(self).wf(),
            old(self).state().task_allowed(task),
        ensures
            slot == old(self).state().issued,
            final(self).issues(old(self), Call::Stage { slot, task }),
    {
        let slot: usize = self.next_id();
        self.append(Command::Stage { slot, task });
        slot
    }

    pub fn unstage(&mut self, slot: usize)
        requires
            old(self).wf(),
            old(self).state().staged.contains_key(slot),
        ensures
            final(self).issues(old(self), Call::Unstage { slot }),
    {
        self.emit(Command::Unstage { slot });
    }

    /// Host to device copy of a staging slot.
    pub fn copy_staged(&mut self, buf: &DeviceBuffer, slot: usize)
        requires
            old(self).wf(),
            old(self).state().holds(*buf),
            old(self).state().settled(*buf),
            old(self).state().staged.contains_key(slot),
            old(self).state().staged[slot].len() == buf.len,
        ensures
            final(self).issues(old(self), Call::UploadStaged { dst: *buf, slot }),
    {
        self.emit(Command::UploadStaged { dst: *buf, slot });
    }

    /// Wait until the stream has drained.
    pub fn synchronize(&mut self)
        requires
            old(self).wf(),
        ensures
            final(self).issues(old(self), Call::Sync),
    {
        self.emit(Command::Sync);
    }

    /// Create a tensor descriptor.
    pub fn describe(&mut self, tensor: AclTensor) -> (id: usize)
        requires
            old(self).wf(),
            old(self).state().holds(tensor@.buffer),
            covered(tensor@),
        ensures
            id == old(self).state().issued,
            final(self).issues(old(self), Call::Describe { id, tensor: tensor@ }),
    {
        let id: usize = self.next_id();
        self.append(Command::Describe { id, tensor });
        id
    }

    /// Destroy a tensor descriptor.
    pub fn undescribe(&mut self, id: usize)
        requires
            old(self).wf(),
            old(self).state().tensors.contains_key(id),
        ensures
            final(self).issues(old(self), Call::Undescribe { id }),
    {
        self.emit(Command::Undescribe { id });
    }

    /// Start a kernel on descriptors.
    pub fn launch(
        &mut self,
        entry: Entry,
        inputs: Vec<usize>,
        outputs: Vec<usize>,
        mode: LaunchMode,
        plan_op: &'static str,
        run_op: &'static str,
    )
        requires
            old(self).wf(),
            forall|i: int|
                0 <= i < inputs@.len() ==> old(self).state().tensors.contains_key(
                    #[trigger] inputs@[i],
                ),
            forall|i: int|
                0 <= i < outputs@.len() ==> old(self).state().tensors.contains_key(
                    #[trigger] outputs@[i],
                ),
        ensures
            final(self).issues(
                old(self),
                Call::Launch {
                    entry,
                    inputs: inputs@,
                    outputs: outputs@,
                    mode,
                    plan_op: plan_op@,
                    run_op: run_op@,
                },
            ),
    {
        proof {
            self.lemma_safe();
            lemma_outputs_frame(
                self.state(),
                entry,
                self.state().operands(inputs@),
                outputs@,
                outputs@.len(),
            );
        }
        self.emit(Command::Launch { entry, inputs, outputs, mode, plan_op, run_op });
    }

    /// Take the recorded program. Recording goes on from the state it leaves.
    pub fn take_program(&mut self) -> (program: Vec<Command>)
        requires
            old(self).wf(),
        ensures
            calls_of(program@) == old(self).calls(),
            final(self).wf(),
            final(self).start() == old(self).state(),
            final(self).state() == old(self).state(),
            final(self).calls() == Seq::<Call>::empty(),
            final(self).spec_device_id() == old(self).spec_device_id(),
    {
        let ghost after = self.state();
        let mut program: Vec<Command> = Vec::new();
        program.append(&mut self.log);
        self.start = Ghost(after);
        proof {
            reveal(run);
            reveal(safe);
            assert(self.calls() =~= Seq::<Call>::empty());
        }
        program
    }

    /// How many identifiers have been handed out.
    pub fn issued(&self) -> (n: usize)
        requires
            self.wf(),
        ensures
            n == self.state().issued,
    {
        self.serial.ticks.len()
    }

    /// Drop what has been recorded, and go on from another state. No identifier that
    /// was handed out is handed out again.
    pub fn restart(&mut self, state: Ghost<DeviceState>)
        requires
            old(self).wf(),
            state@.sane(),
            state@.issued == old(self).state().issued,
        ensures
            final(self).wf(),
            final(self).start() == state@,
            final(self).state() == state@,
            final(self).calls() == Seq::<Call>::empty(),
            final(self).spec_device_id() == old(self).spec_device_id(),
    {
        self.log = Vec::new();
        self.start = state;
        proof {
            reveal(run);
            reveal(safe);
            assert(self.calls() =~= Seq::<Call>::empty());
        }
    }
}

} // verus!
