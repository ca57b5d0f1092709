//! Carrying out commands.

use std::collections::HashMap;

use vstd::prelude::*;

use crate::device::{Base, Call, Command, DeviceBuffer, Entry, HostTask, LaunchMode};
use crate::driver::action::{
    call_name, handles, lemma_abandoned, Action, HostBytes, Move, Phase, Reply, RunState,
};
use crate::driver::table::Table;
use crate::error::AclError;
use crate::heap::{
    consumed, driver_block, lemma_aligned, place_block, Arena, Block, Grant, Heap, Place, ARENA_ALIGN,
};
use crate::host::{host_transpose, transpose_words};
use crate::transfer::zero_bytes;

verus! {



/// What is to be done next.
#[derive(Debug)]
pub enum Next {
    Do(Action),
    /// The command is complete.
    Done,
    Failed(AclError),
}

impl View for Next {
    type V = Move;

    open spec fn view(&self) -> Move {
        match *self {
            Next::Do(action) => Move::Do(action@),
            Next::Done => Move::Done,
            Next::Failed(e) => Move::Failed(e.code, e.op@),
        }
    }
}

/// Carries out commands, one at a time, by handing out calls to the driver and
/// taking its answers.
pub struct Runner {
    heap: Heap,
    blocks: Table,
    tensors: HashMap<usize, usize>,
    staged: HashMap<usize, Vec<u8>>,
    phase: Phase,
}

impl View for Runner {
    type V = RunState;

    closed spec fn view(&self) -> RunState {
        RunState {
            arena: self.heap.arena,
            pending: self.heap.pending@,
            blocks: self.blocks@,
            tensors: self.tensors@,
            staged: self.staged@.map_values(|bytes: Vec<u8>| bytes@),
            phase: self.phase,
        }
    }
}

impl RunState {
    /// No block reaches past the end of the address space, and the arena is in order.
    pub open spec fn wf(self) -> bool {
        &&& (self.arena matches Some(a) ==> a.wf())
        &&& forall|base: Base| #[trigger]
            self.blocks.contains_key(base) ==> self.blocks[base].place.offset
                + self.blocks[base].len <= usize::MAX
    }

    /// Nothing allocated, nothing described, nothing staged.
    pub open spec fn initial() -> RunState {
        RunState {
            arena: None,
            pending: seq![],
            blocks: Map::empty(),
            tensors: Map::empty(),
            staged: Map::empty(),
            phase: Phase::Idle,
        }
    }
}

/// Bytes `[offset, offset + len)`.
fn slice_bytes(bytes: &Vec<u8>, offset: usize, len: usize) -> (out: Vec<u8>)
    requires
        offset + len <= bytes@.len(),
    ensures
        out@ == bytes@.subrange(offset as int, offset + len),
{
    let mut out: Vec<u8> = Vec::new();
    let total: usize = bytes.len();
    let mut i: usize = 0;
    while i < len
        invariant
            i <= len,
            total == bytes@.len(),
            offset + len <= total,
            out@ == bytes@.subrange(offset as int, offset + i),
        decreases len - i,
    {
        out.push(bytes[offset + i]);
        i = i + 1;
        assert(out@ =~= bytes@.subrange(offset as int, offset + i));
    }
    out
}

/// Transpose a `[rows, cols]` half-precision matrix, which may be empty.
fn transpose_bytes(bytes: &Vec<u8>, rows: i64, cols: i64) -> (out: Vec<u8>)
    requires
        rows >= 0,
        cols >= 0,
        2 * (rows * cols) <= bytes@.len(),
    ensures
        out@ == transpose_words(bytes@, rows as int, cols as int, 0u8),
{
    let total: usize = bytes.len();
    if rows == 0 || cols == 0 {
        assert(rows * cols == 0) by (nonlinear_arith)
            requires
                rows == 0 || cols == 0,
        ;
        let out = zero_bytes(total / 2 * 2);
        assert(out@ =~= transpose_words(bytes@, rows as int, cols as int, 0u8));
        out
    } else {
        assert(rows <= rows * cols && cols <= rows * cols) by (nonlinear_arith)
            requires
                rows > 0,
                cols > 0,
        ;
        host_transpose(bytes, rows, cols)
    }
}

/// A launch that is accepted names live descriptors.
proof fn lemma_named(state: RunState, call: Call)
    requires
        state.accepts(call),
    ensures
        call matches Call::Launch { entry, inputs, outputs, mode, plan_op, run_op } ==> {
            &&& forall|i: int|
                0 <= i < inputs.len() ==> state.tensors.contains_key(#[trigger] inputs[i])
            &&& forall|i: int|
                0 <= i < outputs.len() ==> state.tensors.contains_key(#[trigger] outputs[i])
        },
{
}

/// A state stays in order with another block.
proof fn lemma_wf_insert(before: RunState, after: RunState, base: Base, block: Block)
    requires
        before.wf(),
        block.place.offset + block.len <= usize::MAX,
        after.blocks == before.blocks.insert(base, block),
        after.arena matches Some(a) ==> a.wf(),
    ensures
        after.wf(),
{
    assert forall|x: Base| #[trigger] after.blocks.contains_key(x) implies after.blocks[x].place.offset
        + after.blocks[x].len <= usize::MAX by {
        if x != base {
            assert(before.blocks.contains_key(x));
        }
    }
}

impl Runner {
    pub fn new() -> (runner: Runner)
        ensures
            runner@.wf(),
            runner@ == RunState::initial(),
    {
        let runner = Runner {
            heap: Heap::new(),
            blocks: Table::new(),
            tensors: HashMap::new(),
            staged: HashMap::new(),
            phase: Phase::Idle,
        };
        assert(runner@ =~= RunState::initial());
        runner
    }

    /// The bytes of a staging slot.
    pub fn slot(&self, slot: usize) -> (bytes: Option<&Vec<u8>>)
        ensures
            match bytes {
                Some(b) => self@.staged.contains_key(slot) && self@.staged[slot] == b@,
                None => !self@.staged.contains_key(slot),
            },
    {
        self.staged.get(&slot)
    }

    /// Start cutting allocations from one driver allocation of `bytes` bytes.
    pub fn enter_arena(&mut self, bytes: usize, code: i32, address: usize) -> (r: Result<
        Block,
        AclError,
    >)
        requires
            old(self)@.wf(),
            bytes + ARENA_ALIGN <= usize::MAX,
        ensures
            final(self)@.wf(),
            r == driver_block(bytes, code, address),
            final(self)@ == (match r {
                Ok(b) => RunState {
                    arena: Some(Arena { owner: address, cap: bytes, off: 0 }),
                    ..old(self)@
                },
                Err(e) => old(self)@,
            }),
    {
        let ghost before = self@;
        let r = self.heap.enter_arena(bytes, code, address);
        assert(self@.blocks == before.blocks);
        r
    }

    /// Leave the arena, and say how many of its bytes are in use.
    pub fn exit_arena(&mut self) -> (used: usize)
        requires
            old(self)@.wf(),
        ensures
            final(self)@.wf(),
            final(self)@ == (RunState { arena: None, ..old(self)@ }),
            used == consumed(old(self)@.arena),
    {
        let ghost before = self@;
        let used = self.heap.exit_arena();
        assert(self@.blocks == before.blocks);
        used
    }

    /// Drop the arena.
    pub fn clear_arena(&mut self)
        requires
            old(self)@.wf(),
        ensures
            final(self)@.wf(),
            final(self)@ == (RunState { arena: None, ..old(self)@ }),
    {
        let ghost before = self@;
        self.heap.clear_arena();
        assert(self@.blocks == before.blocks);
    }

    /// Everything that has been given back, to be freed.
    pub fn flush_pending_frees(&mut self) -> (addresses: Vec<usize>)
        requires
            old(self)@.wf(),
        ensures
            final(self)@.wf(),
            addresses@ == old(self)@.pending,
            final(self)@ == (RunState { pending: seq![], ..old(self)@ }),
    {
        let ghost before = self@;
        let addresses = self.heap.flush_pending_frees();
        assert(self@.blocks == before.blocks);
        addresses
    }

    /// Where a buffer is, while it is live.
    pub fn locate(&self, b: &DeviceBuffer) -> (place: Option<Place>)
        requires
            self@.wf(),
        ensures
            place == (if self@.has(*b) {
                Some(self@.place(*b))
            } else {
                None
            }),
    {
        match self.blocks.find(b.base) {
            Some(block) => {
                if b.offset <= block.len && b.len <= block.len - b.offset {
                    Some(self.place(*b))
                } else {
                    None
                }
            },
            None => None,
        }
    }

    /// The address of a buffer.
    fn place(&self, b: DeviceBuffer) -> (place: Place)
        requires
            self@.wf(),
            self@.has(b),
        ensures
            place == self@.place(b),
    {
        match self.blocks.find(b.base) {
            Some(block) => {
                assert(self@.blocks.contains_key(b.base));
                Place { owner: block.place.owner, offset: block.place.offset + b.offset }
            },
            None => Place { owner: 0, offset: 0 },
        }
    }

    /// The handles of descriptors.
    fn handles(&self, ids: &Vec<usize>) -> (list: Vec<usize>)
        requires
            forall|i: int| 0 <= i < ids@.len() ==> self@.tensors.contains_key(#[trigger] ids@[i]),
        ensures
            list@ == handles(self@.tensors, ids@),
    {
        let mut list: Vec<usize> = Vec::new();
        let mut i: usize = 0;
        while i < ids.len()
            invariant
                i <= ids@.len(),
                forall|i: int|
                    0 <= i < ids@.len() ==> self@.tensors.contains_key(#[trigger] ids@[i]),
                list@.len() == i,
                forall|j: int| 0 <= j < i ==> #[trigger] list@[j] == self@.tensors[ids@[j]],
            decreases ids@.len() - i,
        {
            let id: usize = ids[i];
            assert(self@.tensors.contains_key(ids@[i as int]));
            match self.tensors.get(&id) {
                Some(handle) => {
                    list.push(*handle);
                },
                None => {},
            }
            i = i + 1;
        }
        assert(list@ =~= handles(self@.tensors, ids@));
        list
    }

    /// Place an allocation.
    fn allocate(&mut self, base: Base, len: usize) -> (next: Next)
        requires
            old(self)@.wf(),
        ensures
            final(self)@.wf(),
            (final(self)@, next@) == old(self)@.allocate(base, len),
    {
        let ghost before = self@;
        proof {
            if let Some(a) = before.arena {
                lemma_aligned(a.off as int);
            }
        }
        match self.heap.malloc(len) {
            Grant::Driver => {
                self.phase = Phase::Memory { base, len };
                assert(self@.blocks == before.blocks);
                Next::Do(Action::Malloc { len })
            },
            Grant::Arena(b) => {
                self.blocks.insert(base, b);
                assert(self@.blocks == before.blocks.insert(base, b));
                proof {
                    lemma_wf_insert(before, self@, base, b);
                }
                Next::Done
            },
            Grant::Refused(e) => {
                self.phase = Phase::Failed;
                assert(self@.blocks == before.blocks);
                Next::Failed(e)
            },
        }
    }

    /// Compute a new staging slot.
    fn stage(&mut self, slot: usize, task: HostTask) -> (next: Next)
        requires
            old(self)@.wf(),
            old(self)@.accepts(Call::Stage { slot, task }),
        ensures
            final(self)@.wf(),
            (final(self)@, next@) == old(self)@.begin(Call::Stage { slot, task }),
    {
        let ghost before = self@;
        let bytes: Option<Vec<u8>> = match task {
            HostTask::Transpose { from, rows, cols } => match self.staged.get(&from) {
                Some(given) => Some(transpose_bytes(given, rows, cols)),
                None => None,
            },
            HostTask::Slice { from, offset, len } => match self.staged.get(&from) {
                Some(given) => Some(slice_bytes(given, offset, len)),
                None => None,
            },
            _ => None,
        };
        match bytes {
            Some(bytes) => {
                let ghost content = bytes@;
                self.staged.insert(slot, bytes);
                assert(self@.staged =~= before.staged.insert(slot, content));
                assert(self@.blocks == before.blocks);
                Next::Done
            },
            None => {
                self.phase = Phase::Bytes;
                Next::Do(Action::Compute { task })
            },
        }
    }

    /// Begin a command.
    pub fn begin(&mut self, command: &Command) -> (next: Next)
        requires
            old(self)@.wf(),
            old(self)@.accepts(command@),
        ensures
            final(self)@.wf(),
            (final(self)@, next@) == old(self)@.begin(command@),
    {
        let ghost before = self@;
        match command {
            Command::Malloc { base, len } => self.allocate(*base, *len),
            Command::Scratch { len } => match self.blocks.find(Base::Pool(*len)) {
                Some(_) => Next::Done,
                None => self.allocate(Base::Pool(*len), *len),
            },
            Command::Release { base } => {
                match self.blocks.find(*base) {
                    Some(block) => {
                        self.heap.release(block);
                        self.blocks.remove(*base);
                    },
                    None => {},
                }
                Next::Done
            },
            Command::Fill { buffer, value } => {
                let at = self.place(*buffer);
                self.phase = Phase::Code;
                Next::Do(Action::Memset { at, len: buffer.len, value: *value })
            },
            Command::Copy { dst, src, op: _ } => {
                let to = self.place(*dst);
                let from = self.place(*src);
                self.phase = Phase::Code;
                Next::Do(Action::CopyAsync { dst: to, src: from, len: dst.len })
            },
            Command::Upload { dst, bytes: _ } => {
                let to = self.place(*dst);
                self.phase = Phase::Code;
                Next::Do(Action::CopyIn { dst: to, len: dst.len, from: HostBytes::Command })
            },
            Command::UploadStaged { dst, slot } => {
                let to = self.place(*dst);
                self.phase = Phase::Code;
                Next::Do(Action::CopyIn { dst: to, len: dst.len, from: HostBytes::Slot(*slot) })
            },
            Command::Download { src, slot: _ } => {
                let from = self.place(*src);
                self.phase = Phase::Bytes;
                Next::Do(Action::CopyOut { src: from, len: src.len })
            },
            Command::Stage { slot, task } => self.stage(*slot, *task),
            Command::Unstage { slot } => {
                self.staged.remove(slot);
                assert(self@.staged =~= before.staged.remove(*slot));
                Next::Done
            },
            Command::Sync => {
                self.phase = Phase::Code;
                Next::Do(Action::Synchronize)
            },
            Command::Describe { id: _, tensor } => {
                let at = self.place(tensor.buffer);
                self.phase = Phase::Handle;
                Next::Do(Action::CreateTensor { at })
            },
            Command::Undescribe { id } => {
                let handle: usize = match self.tensors.get(id) {
                    Some(handle) => *handle,
                    None => 0,
                };
                self.tensors.remove(id);
                self.phase = Phase::Closing;
                Next::Do(Action::DestroyTensor { handle })
            },
            Command::Launch { entry, inputs, outputs, mode: _, plan_op: _, run_op: _ } => {
                proof {
                    lemma_named(before, command@);
                    let named = command@;
                    assert(named->Launch_inputs == inputs@ && named->Launch_outputs == outputs@);
                    assert forall|i: int| 0 <= i < inputs@.len() implies before.tensors.contains_key(
                        #[trigger] inputs@[i],
                    ) by {
                        let id = named->Launch_inputs[i];
                        assert(before.tensors.contains_key(id));
                    }
                }
                let given = self.handles(inputs);
                match *entry {
                    Entry::Cat { dim: _ } => {
                        self.phase = Phase::List;
                        Next::Do(Action::CreateTensorList { handles: given })
                    },
                    _ => {
                        let made = self.handles(outputs);
                        self.phase = Phase::Plan { list: None };
                        Next::Do(Action::Plan { entry: *entry, inputs: given, outputs: made })
                    },
                }
            },
        }
    }

    /// A call failed.
    fn fail(&mut self, code: i32, op: &'static str) -> (next: Next)
        requires
            old(self)@.wf(),
        ensures
            final(self)@.wf(),
            (final(self)@, next@) == old(self)@.failed(code, op@),
    {
        let ghost before = self@;
        self.phase = Phase::Failed;
        assert(self@.blocks == before.blocks);
        Next::Failed(AclError { code, op })
    }

    /// Start a planned kernel.
    fn start(
        &mut self,
        entry: Entry,
        list: Option<usize>,
        workspace: Option<Block>,
        size: usize,
        executor: usize,
    ) -> (next: Next)
        requires
            old(self)@.wf(),
        ensures
            final(self)@.wf(),
            (final(self)@, next@) == old(self)@.start(entry, list, workspace, size, executor),
    {
        let ghost before = self@;
        self.phase = Phase::Run { list, workspace };
        assert(self@.blocks == before.blocks);
        let at: Option<Place> = match workspace {
            Some(b) => Some(b.place),
            None => None,
        };
        Next::Do(Action::Run { entry, workspace: at, size, executor })
    }

    /// Find the workspace that a plan asks for, and start the kernel.
    fn planned(
        &mut self,
        entry: Entry,
        mode: LaunchMode,
        list: Option<usize>,
        size: usize,
        executor: usize,
    ) -> (next: Next)
        requires
            old(self)@.wf(),
        ensures
            final(self)@.wf(),
            (final(self)@, next@) == old(self)@.planned(entry, mode, list, size, executor),
    {
        let ghost before = self@;
        if mode == LaunchMode::Bare || size == 0 {
            return self.start(entry, list, None, size, executor);
        }
        match self.heap.malloc(size) {
            Grant::Driver => {
                self.phase = Phase::Workspace { list, size, executor };
                assert(self@.blocks == before.blocks);
                Next::Do(Action::Malloc { len: size })
            },
            Grant::Arena(b) => {
                assert(self@.blocks == before.blocks);
                self.start(entry, list, Some(b), size, executor)
            },
            Grant::Refused(e) => {
                self.phase = Phase::Failed;
                assert(self@.blocks == before.blocks);
                Next::Failed(e)
            },
        }
    }

    /// Forget descriptors that a list has taken over.
    fn forget(&mut self, ids: &Vec<usize>)
        requires
            old(self)@.wf(),
        ensures
            final(self)@ == (RunState {
                tensors: old(self)@.tensors.remove_keys(ids@.to_set()),
                ..old(self)@
            }),
            final(self)@.wf(),
    {
        let ghost before = self@;
        let mut i: usize = 0;
        assert(self@.tensors =~= before.tensors.remove_keys(ids@.take(0).to_set()));
        while i < ids.len()
            invariant
                i <= ids@.len(),
                self@ == (RunState {
                    tensors: before.tensors.remove_keys(ids@.take(i as int).to_set()),
                    ..before
                }),
            decreases ids@.len() - i,
        {
            let id: usize = ids[i];
            let ghost part = self@;
            self.tensors.remove(&id);
            proof {
                let done = ids@.take(i as int);
                let more = ids@.take(i + 1);
                assert(more =~= done.push(id));
                assert forall|k: usize| more.to_set().contains(k) == (done.to_set().contains(k) || k
                    == id) by {
                    if done.to_set().contains(k) {
                        let j = choose|j: int| 0 <= j < done.len() && done[j] == k;
                        assert(more[j] == k);
                    }
                    if k == id {
                        assert(more[i as int] == k);
                    }
                    if more.to_set().contains(k) && k != id {
                        let j = choose|j: int| 0 <= j < more.len() && more[j] == k;
                        assert(done[j] == k);
                    }
                }
                assert(self@.tensors == part.tensors.remove(id));
                assert(self@.tensors =~= before.tensors.remove_keys(more.to_set()));
            }
            i = i + 1;
        }
        assert(ids@.take(i as int) =~= ids@);
        assert(self@.blocks == before.blocks);
    }

    /// Go on with a kernel launch after an answer.
    fn resume_launch(
        &mut self,
        entry: Entry,
        inputs: &Vec<usize>,
        outputs: &Vec<usize>,
        mode: LaunchMode,
        plan_op: &'static str,
        run_op: &'static str,
        reply: Reply,
    ) -> (next: Next)
        requires
            old(self)@.wf(),
            forall|i: int|
                0 <= i < outputs@.len() ==> old(self)@.tensors.contains_key(
                    #[trigger] outputs@[i],
                ),
        ensures
            final(self)@.wf(),
            (final(self)@, next@) == old(self)@.resume_launch(
                entry,
                inputs@,
                outputs@,
                mode,
                plan_op@,
                run_op@,
                reply@,
            ),
    {
        let ghost before = self@;
        match (self.phase, reply) {
            (Phase::List, Reply::Handle(list)) => {
                if list == 0 {
                    return self.fail(-1, "aclCreateTensorList");
                }
                let made = self.handles(outputs);
                self.phase = Phase::Plan { list: Some(list) };
                assert(self@.blocks == before.blocks);
                let mut given: Vec<usize> = Vec::new();
                given.push(list);
                assert(given@ =~= seq![list]);
                Next::Do(Action::Plan { entry, inputs: given, outputs: made })
            },
            (Phase::Plan { list }, Reply::Plan { code, workspace, executor }) => {
                if code != 0 {
                    return self.fail(code, plan_op);
                }
                self.planned(entry, mode, list, workspace, executor)
            },
            (
                Phase::Workspace { list, size, executor },
                Reply::Address { code, address },
            ) => match place_block(size, code, address) {
                Ok(b) => self.start(entry, list, Some(b), size, executor),
                Err(e) => self.fail(e.code, e.op),
            },
            (Phase::Run { list, workspace }, Reply::Code(code)) => {
                match workspace {
                    Some(b) => {
                        self.heap.release(b);
                        assert(self@.blocks == before.blocks);
                    },
                    None => {},
                }
                if code != 0 {
                    return self.fail(code, run_op);
                }
                match list {
                    Some(l) => {
                        self.forget(inputs);
                        let ghost part = self@;
                        self.phase = Phase::Closing;
                        assert(self@.blocks == part.blocks);
                        Next::Do(Action::DestroyTensorList { list: l })
                    },
                    None => {
                        let ghost part = self@;
                        self.phase = Phase::Idle;
                        assert(self@.blocks == part.blocks);
                        Next::Done
                    },
                }
            },
            _ => Next::Done,
        }
    }

    /// Add a staging slot and end the command.
    fn fill_slot(&mut self, slot: usize, bytes: Vec<u8>) -> (next: Next)
        requires
            old(self)@.wf(),
        ensures
            final(self)@.wf(),
            final(self)@ == (RunState {
                staged: old(self)@.staged.insert(slot, bytes@),
                phase: Phase::Idle,
                ..old(self)@
            }),
            next is Done,
    {
        let ghost before = self@;
        let ghost content = bytes@;
        self.staged.insert(slot, bytes);
        self.phase = Phase::Idle;
        assert(self@.staged =~= before.staged.insert(slot, content));
        assert(self@.blocks == before.blocks);
        Next::Done
    }

    /// The name of a command's only call.
    fn call_name(command: &Command) -> (name: &'static str)
        ensures
            name@ == call_name(command@),
    {
        match command {
            Command::Fill { .. } => "aclrtMemsetAsync",
            Command::Copy { dst: _, src: _, op } => *op,
            Command::Upload { .. } => "aclrtMemcpy h2d",
            Command::UploadStaged { .. } => "aclrtMemcpy h2d",
            _ => "aclrtSynchronizeStream",
        }
    }

    /// Go on with a command after an answer.
    pub fn resume(&mut self, command: &Command, reply: Reply) -> (next: Next)
        requires
            old(self)@.wf(),
            old(self)@.expects(command@, reply@),
            old(self)@.phase == Phase::Closing || old(self)@.accepts(command@),
        ensures
            final(self)@.wf(),
            (final(self)@, next@) == old(self)@.resume(command@, reply@),
    {
        let ghost before = self@;
        match (self.phase, reply) {
            (Phase::Memory { base, len }, Reply::Address { code, address }) => {
                match place_block(len, code, address) {
                    Ok(b) => {
                        self.blocks.insert(base, b);
                        self.phase = Phase::Idle;
                        proof {
                            lemma_wf_insert(before, self@, base, b);
                        }
                        Next::Done
                    },
                    Err(e) => self.fail(e.code, e.op),
                }
            },
            (Phase::Code, Reply::Code(code)) => {
                if code != 0 {
                    let name = Self::call_name(command);
                    return self.fail(code, name);
                }
                match command {
                    Command::Sync => {
                        let addresses = self.heap.flush_pending_frees();
                        self.phase = Phase::Closing;
                        assert(self@.blocks == before.blocks);
                        Next::Do(Action::Free { addresses })
                    },
                    _ => {
                        self.phase = Phase::Idle;
                        assert(self@.blocks == before.blocks);
                        Next::Done
                    },
                }
            },
            (Phase::Bytes, Reply::Bytes { code, bytes }) => {
                if code != 0 {
                    return self.fail(code, "aclrtMemcpy d2h");
                }
                match command {
                    Command::Download { src: _, slot } => self.fill_slot(*slot, bytes),
                    Command::Stage { slot, task: _ } => self.fill_slot(*slot, bytes),
                    _ => Next::Done,
                }
            },
            (Phase::Handle, Reply::Handle(handle)) => match command {
                Command::Describe { id, tensor } => {
                    if handle == 0 {
                        return self.fail(-1, tensor.op);
                    }
                    self.tensors.insert(*id, handle);
                    self.phase = Phase::Idle;
                    assert(self@.blocks == before.blocks);
                    Next::Done
                },
                _ => Next::Done,
            },
            (Phase::Closing, Reply::Code(_)) => {
                self.phase = Phase::Idle;
                assert(self@.blocks == before.blocks);
                Next::Done
            },
            (_, reply) => match command {
                Command::Launch { entry, inputs, outputs, mode, plan_op, run_op } => {
                    proof {
                        lemma_named(before, command@);
                        let named = command@;
                        assert(named->Launch_outputs == outputs@);
                        assert forall|i: int|
                            0 <= i < outputs@.len() implies before.tensors.contains_key(
                            #[trigger] outputs@[i],
                        ) by {
                            let id = named->Launch_outputs[i];
                            assert(before.tensors.contains_key(id));
                        }
                    }
                    self.resume_launch(*entry, inputs, outputs, *mode, *plan_op, *run_op, reply)
                },
                _ => Next::Done,
            },
        }
    }

    /// Give an allocation back, where it is live.
    fn give_back(&mut self, base: Base)
        requires
            old(self)@.wf(),
        ensures
            final(self)@.wf(),
            final(self)@ == old(self)@.without(base),
    {
        let ghost before = self@;
        match self.blocks.find(base) {
            Some(block) => {
                self.heap.release(block);
                self.blocks.remove(base);
                proof {
                    assert forall|x: Base| #[trigger]
                        self@.blocks.contains_key(x) implies self@.blocks[x].place.offset
                        + self@.blocks[x].len <= usize::MAX by {
                        assert(before.blocks.contains_key(x));
                    }
                }
            },
            None => {},
        }
    }

    /// End a broken program that began at identifier `mark` and was given identifiers
    /// up to `end`: give back what it allocated and what caches hold, and forget
    /// descriptors and staging slots. The handles of the descriptors are to be
    /// destroyed.
    pub fn abandon(&mut self, mark: usize, end: usize) -> (handles: Vec<usize>)
        requires
            old(self)@.wf(),
        ensures
            final(self)@.wf(),
            final(self)@ == old(self)@.abandoned(mark as nat, end as nat).at(Phase::Idle),
            handles@ == old(self)@.live_handles(end as nat),
    {
        let ghost before = self@;
        let mut handles: Vec<usize> = Vec::new();
        let mut id: usize = 0;
        while id < end
            invariant
                id <= end,
                self@.wf(),
                self@ == before.abandoned(mark as nat, id as nat),
                handles@ == before.live_handles(id as nat),
            decreases end - id,
        {
            let ghost part = self@;
            proof {
                lemma_abandoned(before, mark as nat, id as nat);
                assert(part.tensors.contains_key(id) <==> before.tensors.contains_key(id));
            }
            self.give_back(Base::Kept(id));
            self.give_back(Base::Slot(id));
            if id >= mark {
                self.give_back(Base::Fresh(id));
            }
            match self.tensors.get(&id) {
                Some(handle) => {
                    handles.push(*handle);
                },
                None => {},
            }
            let ghost rest = self@;
            self.tensors.remove(&id);
            self.staged.remove(&id);
            id = id + 1;
            proof {
                assert(self@.staged =~= rest.staged.remove((id - 1) as usize));
                assert(self@.blocks == rest.blocks);
                assert(self@ =~= before.abandoned(mark as nat, id as nat));
            }
        }
        let ghost last = self@;
        self.phase = Phase::Idle;
        assert(self@.blocks == last.blocks);
        handles
    }
}

} // verus!
