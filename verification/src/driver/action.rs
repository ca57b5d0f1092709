//! Calls to the driver and its answers, and which call follows which answer.

use vstd::prelude::*;

use crate::device::{Base, Call, DeviceBuffer, Entry, HostTask, LaunchMode};
use crate::heap::{advanced, driver_block, exhausted, granted, parked, Arena, Block, Place};
use crate::host::transpose_words;

verus! {

/// Where the bytes of an upload are.
#[derive(Debug, Clone, Copy, PartialEq, Eq, Structural)]
pub enum HostBytes {
    /// In the command.
    Command,
    /// In a staging slot.
    Slot(usize),
}

/// One call to the driver. Descriptors, lists and executors are the driver's
/// handles.
#[derive(Debug)]
pub enum Action {
    /// Allocate device memory, huge pages first.
    Malloc { len: usize },
    /// Stream-ordered fill.
    Memset { at: Place, len: usize, value: u8 },
    /// Stream-ordered copy on the device.
    CopyAsync { dst: Place, src: Place, len: usize },
    /// Copy from the host.
    CopyIn { dst: Place, len: usize, from: HostBytes },
    /// Copy to the host.
    CopyOut { src: Place, len: usize },
    /// Compute on the host, in floating point.
    Compute { task: HostTask },
    /// Wait until the stream has drained.
    Synchronize,
    /// Free driver allocations.
    Free { addresses: Vec<usize> },
    /// Create the descriptor that the command gives, over memory at this address.
    CreateTensor { at: Place },
    DestroyTensor { handle: usize },
    CreateTensorList { handles: Vec<usize> },
    /// Destroy a list together with the descriptors in it.
    DestroyTensorList { list: usize },
    /// Ask how much workspace a kernel needs.
    Plan { entry: Entry, inputs: Vec<usize>, outputs: Vec<usize> },
    /// Start a planned kernel.
    Run { entry: Entry, workspace: Option<Place>, size: usize, executor: usize },
}

/// What an [`Action`] says.
#[verifier::ext_equal]
pub enum ActionView {
    Malloc { len: usize },
    Memset { at: Place, len: usize, value: u8 },
    CopyAsync { dst: Place, src: Place, len: usize },
    CopyIn { dst: Place, len: usize, from: HostBytes },
    CopyOut { src: Place, len: usize },
    Compute { task: HostTask },
    Synchronize,
    Free { addresses: Seq<usize> },
    CreateTensor { at: Place },
    DestroyTensor { handle: usize },
    CreateTensorList { handles: Seq<usize> },
    DestroyTensorList { list: usize },
    Plan { entry: Entry, inputs: Seq<usize>, outputs: Seq<usize> },
    Run { entry: Entry, workspace: Option<Place>, size: usize, executor: usize },
}

impl View for Action {
    type V = ActionView;

    open spec fn view(&self) -> ActionView {
        match *self {
            Action::Malloc { len } => ActionView::Malloc { len },
            Action::Memset { at, len, value } => ActionView::Memset { at, len, value },
            Action::CopyAsync { dst, src, len } => ActionView::CopyAsync { dst, src, len },
            Action::CopyIn { dst, len, from } => ActionView::CopyIn { dst, len, from },
            Action::CopyOut { src, len } => ActionView::CopyOut { src, len },
            Action::Compute { task } => ActionView::Compute { task },
            Action::Synchronize => ActionView::Synchronize,
            Action::Free { addresses } => ActionView::Free { addresses: addresses@ },
            Action::CreateTensor { at } => ActionView::CreateTensor { at },
            Action::DestroyTensor { handle } => ActionView::DestroyTensor { handle },
            Action::CreateTensorList { handles } => ActionView::CreateTensorList {
                handles: handles@,
            },
            Action::DestroyTensorList { list } => ActionView::DestroyTensorList { list },
            Action::Plan { entry, inputs, outputs } => ActionView::Plan {
                entry,
                inputs: inputs@,
                outputs: outputs@,
            },
            Action::Run { entry, workspace, size, executor } => ActionView::Run {
                entry,
                workspace,
                size,
                executor,
            },
        }
    }
}

/// The driver's answer to a call. A handle of zero is null.
#[derive(Debug)]
pub enum Reply {
    Code(i32),
    Address { code: i32, address: usize },
    Handle(usize),
    Plan { code: i32, workspace: usize, executor: usize },
    Bytes { code: i32, bytes: Vec<u8> },
}

/// What a [`Reply`] says.
#[verifier::ext_equal]
pub enum ReplyView {
    Code(i32),
    Address { code: i32, address: usize },
    Handle(usize),
    Plan { code: i32, workspace: usize, executor: usize },
    Bytes { code: i32, bytes: Seq<u8> },
}

impl View for Reply {
    type V = ReplyView;

    open spec fn view(&self) -> ReplyView {
        match *self {
            Reply::Code(code) => ReplyView::Code(code),
            Reply::Address { code, address } => ReplyView::Address { code, address },
            Reply::Handle(handle) => ReplyView::Handle(handle),
            Reply::Plan { code, workspace, executor } => ReplyView::Plan {
                code,
                workspace,
                executor,
            },
            Reply::Bytes { code, bytes } => ReplyView::Bytes { code, bytes: bytes@ },
        }
    }
}

/// What the runner waits for.
#[derive(Debug, Clone, Copy, PartialEq, Eq, Structural)]
pub enum Phase {
    /// Nothing: the next command may start.
    Idle,
    /// Memory for the allocation `base`.
    Memory { base: Base, len: usize },
    /// The code of the command's only call.
    Code,
    /// The bytes of a new staging slot.
    Bytes,
    /// The handle of a new descriptor.
    Handle,
    /// The end of the command, whatever the answer.
    Closing,
    /// The handle of a descriptor list.
    List,
    /// A plan. `list` holds the inputs, where they are in a list.
    Plan { list: Option<usize> },
    /// Memory for the workspace of a planned kernel.
    Workspace { list: Option<usize>, size: usize, executor: usize },
    /// The code of a started kernel.
    Run { list: Option<usize>, workspace: Option<Block> },
    /// Nothing any more: a call failed.
    Failed,
}

/// Everything the runner knows.
#[verifier::ext_equal]
pub struct RunState {
    pub arena: Option<Arena>,
    pub pending: Seq<usize>,
    pub blocks: Map<Base, Block>,
    pub tensors: Map<usize, usize>,
    pub staged: Map<usize, Seq<u8>>,
    pub phase: Phase,
}

/// What is to be done next.
#[verifier::ext_equal]
pub enum Move {
    Do(ActionView),
    /// The command is complete.
    Done,
    /// A call failed with this code; the text names it.
    Failed(i32, Seq<char>),
}

/// The error of an exhausted arena.
pub open spec fn refused() -> Move {
    Move::Failed(exhausted().code, exhausted().op@)
}

/// Handles of descriptors.
pub open spec fn handles(tensors: Map<usize, usize>, ids: Seq<usize>) -> Seq<usize> {
    Seq::new(ids.len(), |i: int| tensors[ids[i]])
}

/// The bytes that a host task gives without floating point.
pub open spec fn plain_task(staged: Map<usize, Seq<u8>>, task: HostTask) -> Option<Seq<u8>> {
    match task {
        HostTask::Transpose { from, rows, cols } => Some(
            transpose_words(staged[from], rows as int, cols as int, 0u8),
        ),
        HostTask::Slice { from, offset, len } => Some(
            staged[from].subrange(offset as int, offset + len),
        ),
        _ => None,
    }
}

/// How many bytes a host task in floating point gives.
pub open spec fn computed_len(task: HostTask) -> int {
    match task {
        HostTask::PlusOne { from, words } => 2 * words,
        HostTask::RopeCos { theta, d, max_pos } => max_pos * d * 2,
        HostTask::RopeSin { theta, d, max_pos } => max_pos * d * 2,
        _ => 0,
    }
}

/// The text that names a command's only call in the error that its failure gives.
pub open spec fn call_name(call: Call) -> Seq<char> {
    match call {
        Call::Fill { buffer, value } => "aclrtMemsetAsync"@,
        Call::Copy { dst, src, op } => op,
        Call::Upload { dst, bytes } => "aclrtMemcpy h2d"@,
        Call::UploadStaged { dst, slot } => "aclrtMemcpy h2d"@,
        _ => "aclrtSynchronizeStream"@,
    }
}

impl RunState {
    /// The address of a buffer.
    pub open spec fn place(self, b: DeviceBuffer) -> Place {
        let block = self.blocks[b.base];
        Place { owner: block.place.owner, offset: (block.place.offset + b.offset) as usize }
    }

    /// `b` is a range of a live block.
    pub open spec fn has(self, b: DeviceBuffer) -> bool {
        self.blocks.contains_key(b.base) && b.offset + b.len <= self.blocks[b.base].len
    }

    pub open spec fn at(self, phase: Phase) -> RunState {
        RunState { phase, ..self }
    }

    /// Placing the allocation `base`: in the arena while one is active, else with
    /// the driver.
    pub open spec fn allocate(self, base: Base, len: usize) -> (RunState, Move) {
        match self.arena {
            None => (self.at(Phase::Memory { base, len }), Move::Do(ActionView::Malloc { len })),
            Some(a) => match granted(a, len) {
                Some(b) => (
                    RunState {
                        arena: Some(advanced(a, b)),
                        blocks: self.blocks.insert(base, b),
                        ..self
                    },
                    Move::Done,
                ),
                None => (self.at(Phase::Failed), refused()),
            },
        }
    }

    /// Everything that a command names is there.
    pub open spec fn accepts(self, call: Call) -> bool {
        match call {
            Call::Malloc { base, len } => true,
            Call::Scratch { len } => true,
            Call::Release { base } => self.blocks.contains_key(base),
            Call::Fill { buffer, value } => self.has(buffer),
            Call::Copy { dst, src, op } => self.has(dst) && self.has(src) && src.len == dst.len,
            Call::Upload { dst, bytes } => self.has(dst) && bytes.len() == dst.len,
            Call::UploadStaged { dst, slot } => self.has(dst) && self.staged.contains_key(slot)
                && self.staged[slot].len() == dst.len,
            Call::Download { src, slot } => self.has(src),
            Call::Stage { slot, task } => match task {
                HostTask::Transpose { from, rows, cols } => {
                    &&& self.staged.contains_key(from)
                    &&& rows >= 0
                    &&& cols >= 0
                    &&& 2 * (rows * cols) <= self.staged[from].len()
                },
                HostTask::Slice { from, offset, len } => self.staged.contains_key(from) && offset
                    + len <= self.staged[from].len(),
                HostTask::PlusOne { from, words } => self.staged.contains_key(from) && 2 * words
                    <= self.staged[from].len(),
                _ => true,
            },
            Call::Unstage { slot } => true,
            Call::Sync => true,
            Call::Describe { id, tensor } => self.has(tensor.buffer),
            Call::Undescribe { id } => self.tensors.contains_key(id),
            Call::Launch { entry, inputs, outputs, mode, plan_op, run_op } => {
                &&& forall|i: int|
                    0 <= i < inputs.len() ==> self.tensors.contains_key(#[trigger] inputs[i])
                &&& forall|i: int|
                    0 <= i < outputs.len() ==> self.tensors.contains_key(#[trigger] outputs[i])
            },
        }
    }

    /// How a command begins.
    pub open spec fn begin(self, call: Call) -> (RunState, Move) {
        match call {
            Call::Malloc { base, len } => self.allocate(base, len),
            Call::Scratch { len } => if self.blocks.contains_key(Base::Pool(len)) {
                (self, Move::Done)
            } else {
                self.allocate(Base::Pool(len), len)
            },
            Call::Release { base } => (
                RunState {
                    pending: parked(self.pending, self.blocks[base]),
                    blocks: self.blocks.remove(base),
                    ..self
                },
                Move::Done,
            ),
            Call::Fill { buffer, value } => (
                self.at(Phase::Code),
                Move::Do(
                    ActionView::Memset { at: self.place(buffer), len: buffer.len, value },
                ),
            ),
            Call::Copy { dst, src, op } => (
                self.at(Phase::Code),
                Move::Do(
                    ActionView::CopyAsync {
                        dst: self.place(dst),
                        src: self.place(src),
                        len: dst.len,
                    },
                ),
            ),
            Call::Upload { dst, bytes } => (
                self.at(Phase::Code),
                Move::Do(
                    ActionView::CopyIn {
                        dst: self.place(dst),
                        len: dst.len,
                        from: HostBytes::Command,
                    },
                ),
            ),
            Call::UploadStaged { dst, slot } => (
                self.at(Phase::Code),
                Move::Do(
                    ActionView::CopyIn {
                        dst: self.place(dst),
                        len: dst.len,
                        from: HostBytes::Slot(slot),
                    },
                ),
            ),
            Call::Download { src, slot } => (
                self.at(Phase::Bytes),
                Move::Do(ActionView::CopyOut { src: self.place(src), len: src.len }),
            ),
            Call::Stage { slot, task } => match plain_task(self.staged, task) {
                Some(bytes) => (
                    RunState { staged: self.staged.insert(slot, bytes), ..self },
                    Move::Done,
                ),
                None => (self.at(Phase::Bytes), Move::Do(ActionView::Compute { task })),
            },
            Call::Unstage { slot } => (
                RunState { staged: self.staged.remove(slot), ..self },
                Move::Done,
            ),
            Call::Sync => (self.at(Phase::Code), Move::Do(ActionView::Synchronize)),
            Call::Describe { id, tensor } => (
                self.at(Phase::Handle),
                Move::Do(ActionView::CreateTensor { at: self.place(tensor.buffer) }),
            ),
            Call::Undescribe { id } => (
                RunState { tensors: self.tensors.remove(id), phase: Phase::Closing, ..self },
                Move::Do(ActionView::DestroyTensor { handle: self.tensors[id] }),
            ),
            Call::Launch { entry, inputs, outputs, mode, plan_op, run_op } => if entry is Cat {
                (
                    self.at(Phase::List),
                    Move::Do(
                        ActionView::CreateTensorList { handles: handles(self.tensors, inputs) },
                    ),
                )
            } else {
                (
                    self.at(Phase::Plan { list: None }),
                    Move::Do(
                        ActionView::Plan {
                            entry,
                            inputs: handles(self.tensors, inputs),
                            outputs: handles(self.tensors, outputs),
                        },
                    ),
                )
            },
        }
    }

    /// The answer is of the kind that is waited for.
    pub open spec fn expects(self, call: Call, reply: ReplyView) -> bool {
        match self.phase {
            Phase::Idle => false,
            Phase::Memory { base, len } => reply is Address,
            Phase::Code => reply is Code,
            Phase::Bytes => reply matches ReplyView::Bytes { code, bytes } && match call {
                Call::Download { src, slot } => bytes.len() == src.len,
                Call::Stage { slot, task } => code == 0 && bytes.len() == computed_len(task),
                _ => false,
            },
            Phase::Handle => reply is Handle && call is Describe,
            Phase::Closing => reply is Code,
            Phase::List => reply is Handle && call is Launch,
            Phase::Plan { list } => reply is Plan && call is Launch,
            Phase::Workspace { list, size, executor } => reply is Address && call is Launch,
            Phase::Run { list, workspace } => reply is Code && call is Launch,
            Phase::Failed => false,
        }
    }

    pub open spec fn failed(self, code: i32, op: Seq<char>) -> (RunState, Move) {
        (self.at(Phase::Failed), Move::Failed(code, op))
    }

    /// Starting a planned kernel with this workspace.
    pub open spec fn start(
        self,
        entry: Entry,
        list: Option<usize>,
        workspace: Option<Block>,
        size: usize,
        executor: usize,
    ) -> (RunState, Move) {
        (
            self.at(Phase::Run { list, workspace }),
            Move::Do(
                ActionView::Run {
                    entry,
                    workspace: match workspace {
                        Some(b) => Some(b.place),
                        None => None,
                    },
                    size,
                    executor,
                },
            ),
        )
    }

    /// A plan that succeeded: find the workspace it asks for, then start the kernel.
    pub open spec fn planned(
        self,
        entry: Entry,
        mode: LaunchMode,
        list: Option<usize>,
        size: usize,
        executor: usize,
    ) -> (RunState, Move) {
        if mode is Bare || size == 0 {
            self.start(entry, list, None, size, executor)
        } else {
            match self.arena {
                None => (
                    self.at(Phase::Workspace { list, size, executor }),
                    Move::Do(ActionView::Malloc { len: size }),
                ),
                Some(a) => match granted(a, size) {
                    Some(b) => RunState { arena: Some(advanced(a, b)), ..self }.start(
                        entry,
                        list,
                        Some(b),
                        size,
                        executor,
                    ),
                    None => (self.at(Phase::Failed), refused()),
                },
            }
        }
    }

    /// A kernel that was started: its workspace is given back.
    pub open spec fn started(self, workspace: Option<Block>) -> RunState {
        match workspace {
            Some(b) => RunState { pending: parked(self.pending, b), ..self },
            None => self,
        }
    }

    /// How a command goes on after an answer.
    pub open spec fn resume(self, call: Call, reply: ReplyView) -> (RunState, Move) {
        match (self.phase, reply) {
            (Phase::Memory { base, len }, ReplyView::Address { code, address }) => {
                match driver_block(len, code, address) {
                    Ok(b) => (
                        RunState { blocks: self.blocks.insert(base, b), ..self }.at(Phase::Idle),
                        Move::Done,
                    ),
                    Err(e) => self.failed(e.code, e.op@),
                }
            },
            (Phase::Code, ReplyView::Code(code)) => if code != 0 {
                self.failed(code, call_name(call))
            } else if call is Sync {
                (
                    RunState { pending: seq![], ..self }.at(Phase::Closing),
                    Move::Do(ActionView::Free { addresses: self.pending }),
                )
            } else {
                (self.at(Phase::Idle), Move::Done)
            },
            (Phase::Bytes, ReplyView::Bytes { code, bytes }) => {
                if code != 0 {
                    self.failed(code, "aclrtMemcpy d2h"@)
                } else {
                    let slot = match call {
                        Call::Download { src, slot } => slot,
                        Call::Stage { slot, task } => slot,
                        _ => 0,
                    };
                    (
                        RunState { staged: self.staged.insert(slot, bytes), ..self }.at(
                            Phase::Idle,
                        ),
                        Move::Done,
                    )
                }
            },
            (Phase::Handle, ReplyView::Handle(handle)) => match call {
                Call::Describe { id, tensor } => if handle == 0 {
                    self.failed((-1) as i32, tensor.op)
                } else {
                    (
                        RunState { tensors: self.tensors.insert(id, handle), ..self }.at(
                            Phase::Idle,
                        ),
                        Move::Done,
                    )
                },
                _ => (self, Move::Done),
            },
            (Phase::Closing, ReplyView::Code(_)) => (self.at(Phase::Idle), Move::Done),
            (_, reply) => match call {
                Call::Launch { entry, inputs, outputs, mode, plan_op, run_op } => self.resume_launch(
                    entry,
                    inputs,
                    outputs,
                    mode,
                    plan_op,
                    run_op,
                    reply,
                ),
                _ => (self, Move::Done),
            },
        }
    }

    /// How a kernel launch goes on after an answer.
    pub open spec fn resume_launch(
        self,
        entry: Entry,
        inputs: Seq<usize>,
        outputs: Seq<usize>,
        mode: LaunchMode,
        plan_op: Seq<char>,
        run_op: Seq<char>,
        reply: ReplyView,
    ) -> (RunState, Move) {
        match (self.phase, reply) {
            (Phase::List, ReplyView::Handle(list)) => if list == 0 {
                self.failed((-1) as i32, "aclCreateTensorList"@)
            } else {
                (
                    self.at(Phase::Plan { list: Some(list) }),
                    Move::Do(
                        ActionView::Plan {
                            entry,
                            inputs: seq![list],
                            outputs: handles(self.tensors, outputs),
                        },
                    ),
                )
            },
            (Phase::Plan { list }, ReplyView::Plan { code, workspace, executor }) => {
                if code != 0 {
                    self.failed(code, plan_op)
                } else {
                    self.planned(entry, mode, list, workspace, executor)
                }
            },
            (
                Phase::Workspace { list, size, executor },
                ReplyView::Address { code, address },
            ) => match driver_block(size, code, address) {
                Ok(b) => self.start(entry, list, Some(b), size, executor),
                Err(e) => self.failed(e.code, e.op@),
            },
            (Phase::Run { list, workspace }, ReplyView::Code(code)) => {
                let after = self.started(workspace);
                if code != 0 {
                    after.failed(code, run_op)
                } else {
                    match list {
                        Some(l) => (
                            RunState {
                                tensors: after.tensors.remove_keys(inputs.to_set()),
                                ..after
                            }.at(Phase::Closing),
                            Move::Do(ActionView::DestroyTensorList { list: l }),
                        ),
                        None => (after.at(Phase::Idle), Move::Done),
                    }
                }
            },
            _ => (self, Move::Done),
        }
    }
}

impl RunState {
    /// Giving the allocation `base` back, where it is live.
    pub open spec fn without(self, base: Base) -> RunState {
        if self.blocks.contains_key(base) {
            RunState {
                pending: parked(self.pending, self.blocks[base]),
                blocks: self.blocks.remove(base),
                ..self
            }
        } else {
            self
        }
    }

    /// Giving back what a broken program leaves: of the first `n` identifiers, the
    /// allocations that caches hold, those that were made from `mark` on, and all
    /// descriptors and staging slots.
    pub open spec fn abandoned(self, mark: nat, n: nat) -> RunState
        decreases n,
    {
        if n == 0 {
            self
        } else {
            let id = (n - 1) as usize;
            let before = self.abandoned(mark, (n - 1) as nat);
            let kept = before.without(Base::Kept(id)).without(Base::Slot(id));
            let rest = if id >= mark {
                kept.without(Base::Fresh(id))
            } else {
                kept
            };
            RunState { tensors: rest.tensors.remove(id), staged: rest.staged.remove(id), ..rest }
        }
    }

    /// The handles of the live descriptors among the first `n` identifiers.
    pub open spec fn live_handles(self, n: nat) -> Seq<usize>
        decreases n,
    {
        if n == 0 {
            seq![]
        } else {
            let before = self.live_handles((n - 1) as nat);
            let id = (n - 1) as usize;
            if self.tensors.contains_key(id) {
                before.push(self.tensors[id])
            } else {
                before
            }
        }
    }
}

/// The allocation outlives a broken program that began at identifier `mark`, as far as
/// the first `n` identifiers have been gone through.
pub open spec fn outlives(base: Base, mark: nat, n: nat) -> bool {
    match base {
        Base::Fresh(id) => id < mark || id >= n,
        Base::Kept(id) => id >= n,
        Base::Slot(id) => id >= n,
        Base::Pool(_) => true,
    }
}

/// What giving back leaves.
pub proof fn lemma_abandoned(v: RunState, mark: nat, n: nat)
    requires
        n <= usize::MAX + 1,
    ensures
        ({
            let w = v.abandoned(mark, n);
            &&& w.arena == v.arena
            &&& w.phase == v.phase
            &&& forall|base: Base| #[trigger]
                w.blocks.contains_key(base) <==> v.blocks.contains_key(base) && outlives(
                    base,
                    mark,
                    n,
                )
            &&& forall|base: Base| #[trigger]
                w.blocks.contains_key(base) ==> w.blocks[base] == v.blocks[base]
            &&& forall|id: usize| #[trigger]
                w.tensors.contains_key(id) <==> v.tensors.contains_key(id) && id >= n
            &&& forall|id: usize| #[trigger]
                w.tensors.contains_key(id) ==> w.tensors[id] == v.tensors[id]
            &&& forall|id: usize| #[trigger]
                w.staged.contains_key(id) <==> v.staged.contains_key(id) && id >= n
            &&& forall|id: usize| #[trigger]
                w.staged.contains_key(id) ==> w.staged[id] == v.staged[id]
        }),
    decreases n,
{
    if n > 0 {
        let id = (n - 1) as usize;
        let before = v.abandoned(mark, (n - 1) as nat);
        let w = v.abandoned(mark, n);
        lemma_abandoned(v, mark, (n - 1) as nat);
        assert forall|base: Base| #[trigger]
            w.blocks.contains_key(base) <==> v.blocks.contains_key(base) && outlives(
            base,
            mark,
            n,
        ) by {
            assert(before.blocks.contains_key(base) <==> v.blocks.contains_key(base) && outlives(
                base,
                mark,
                (n - 1) as nat,
            ));
        }
        assert forall|base: Base| #[trigger] w.blocks.contains_key(base) implies w.blocks[base]
            == v.blocks[base] by {
            assert(before.blocks.contains_key(base));
        }
        assert forall|k: usize| #[trigger]
            w.tensors.contains_key(k) <==> v.tensors.contains_key(k) && k >= n by {
            assert(before.tensors.contains_key(k) <==> v.tensors.contains_key(k) && k >= n - 1);
        }
        assert forall|k: usize| #[trigger] w.tensors.contains_key(k) implies w.tensors[k]
            == v.tensors[k] by {
            assert(before.tensors.contains_key(k));
        }
        assert forall|k: usize| #[trigger]
            w.staged.contains_key(k) <==> v.staged.contains_key(k) && k >= n by {
            assert(before.staged.contains_key(k) <==> v.staged.contains_key(k) && k >= n - 1);
        }
        assert forall|k: usize| #[trigger] w.staged.contains_key(k) implies w.staged[k]
            == v.staged[k] by {
            assert(before.staged.contains_key(k));
        }
    }
}

} // verus!
