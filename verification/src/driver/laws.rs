//! What running a safe program comes to: everything that a command names is there,
//! every range of memory that the driver is handed lies inside a live allocation,
//! and memory is freed only after the stream has drained.

use vstd::prelude::*;

use crate::capture::stream_ordered;
use crate::device::{Base, Call, DeviceBuffer, HostTask};
use crate::driver::action::{
    plain_task, ActionView, HostBytes, Move, Phase, ReplyView, RunState,
};
use crate::heap::{granted, Block, Place};
use crate::semantics::{lemma_outputs_frame, splice, DeviceState, SymByte};

verus! {

/// The runner has placed what the program has allocated, described and staged, in
/// the sizes that the program gave.
pub open spec fn mirrors(v: RunState, st: DeviceState) -> bool {
    &&& forall|base: Base| #[trigger] v.blocks.contains_key(base) <==> st.live(base)
    &&& forall|base: Base| #[trigger]
        v.blocks.contains_key(base) ==> v.blocks[base].len == st.content(base).len()
    &&& forall|id: usize| #[trigger] v.tensors.contains_key(id) <==> st.tensors.contains_key(id)
    &&& forall|slot: usize| #[trigger]
        v.staged.contains_key(slot) <==> st.staged.contains_key(slot)
    &&& forall|slot: usize| #[trigger]
        v.staged.contains_key(slot) ==> v.staged[slot].len() == st.staged[slot].len()
}

/// A command with one driver call that answers with a code.
pub open spec fn one_code(call: Call) -> bool {
    call is Fill || call is Copy || call is Upload || call is UploadStaged || call is Sync
}

/// The runner is in the middle of a command that the program allows in `st`.
pub open spec fn waits(v: RunState, st: DeviceState, call: Call) -> bool {
    match v.phase {
        Phase::Idle => false,
        Phase::Failed => false,
        Phase::Closing => mirrors(v, st.step(call)),
        Phase::Memory { base, len } => mirrors(v, st) && !st.live(base) && match call {
            Call::Malloc { base: b, len: l } => b == base && l == len,
            Call::Scratch { len: l } => base == Base::Pool(l) && l == len,
            _ => false,
        },
        Phase::Code => mirrors(v, st) && one_code(call),
        Phase::Bytes => mirrors(v, st) && match call {
            Call::Download { src, slot } => true,
            Call::Stage { slot, task } => plain_task(v.staged, task) is None,
            _ => false,
        },
        Phase::Handle => mirrors(v, st) && call is Describe,
        Phase::List => mirrors(v, st) && call is Launch && call->entry is Cat,
        Phase::Plan { list } => mirrors(v, st) && launches(call, list),
        Phase::Workspace { list, size, executor } => mirrors(v, st) && launches(call, list),
        Phase::Run { list, workspace } => mirrors(v, st) && launches(call, list),
    }
}

/// A kernel launch whose inputs are in a list where its kernel takes a list.
pub open spec fn launches(call: Call, list: Option<usize>) -> bool {
    call matches Call::Launch { entry, inputs, outputs, mode, plan_op, run_op } && (list is Some
        <==> entry is Cat)
}

/// Everything that an allowed command names is there.
pub proof fn lemma_accepts(v: RunState, st: DeviceState, call: Call)
    requires
        mirrors(v, st),
        st.allows(call),
    ensures
        v.accepts(call),
{
    match call {
        Call::Release { base } => {
            assert(v.blocks.contains_key(base));
        },
        Call::Fill { buffer, value } => {
            assert(v.blocks.contains_key(buffer.base));
        },
        Call::Copy { dst, src, op } => {
            assert(v.blocks.contains_key(dst.base));
            assert(v.blocks.contains_key(src.base));
        },
        Call::Upload { dst, bytes } => {
            assert(v.blocks.contains_key(dst.base));
        },
        Call::UploadStaged { dst, slot } => {
            assert(v.blocks.contains_key(dst.base));
            assert(v.staged.contains_key(slot));
        },
        Call::Download { src, slot } => {
            assert(v.blocks.contains_key(src.base));
        },
        Call::Stage { slot, task } => match task {
            HostTask::Transpose { from, rows, cols } => {
                assert(v.staged.contains_key(from));
            },
            HostTask::Slice { from, offset, len } => {
                assert(v.staged.contains_key(from));
            },
            HostTask::PlusOne { from, words } => {
                assert(v.staged.contains_key(from));
            },
            _ => {},
        },
        Call::Describe { id, tensor } => {
            assert(v.blocks.contains_key(tensor.buffer.base));
        },
        Call::Undescribe { id } => {
            assert(v.tensors.contains_key(id));
        },
        Call::Launch { entry, inputs, outputs, mode, plan_op, run_op } => {
            assert forall|i: int| 0 <= i < inputs.len() implies v.tensors.contains_key(
                #[trigger] inputs[i],
            ) by {
                assert(st.tensors.contains_key(inputs[i]));
            }
            assert forall|i: int| 0 <= i < outputs.len() implies v.tensors.contains_key(
                #[trigger] outputs[i],
            ) by {
                assert(st.tensors.contains_key(outputs[i]));
            }
        },
        _ => {},
    }
}

/// Writing changes no length.
proof fn lemma_write_lengths(v: RunState, st: DeviceState, b: DeviceBuffer, bytes: Seq<SymByte>)
    requires
        mirrors(v, st),
        st.live(b.base),
    ensures
        mirrors(v, st.write(b, bytes)),
        mirrors(v, st.stream_write(b, bytes)),
{
    let w = st.write(b, bytes);
    assert(splice(st.content(b.base), b.offset as int, bytes).len() == st.content(b.base).len());
    assert forall|base: Base| #[trigger] v.blocks.contains_key(base) <==> w.live(base) by {
        assert(v.blocks.contains_key(base) <==> st.live(base));
    }
    assert forall|base: Base| #[trigger] v.blocks.contains_key(base) implies v.blocks[base].len
        == w.content(base).len() by {
        assert(v.blocks[base].len == st.content(base).len());
    }
}

/// The runner of a state and of the state after a launch.
proof fn lemma_launch_mirrors(v: RunState, w: RunState, st: DeviceState, call: Call)
    requires
        mirrors(v, st),
        st.sane(),
        st.allows(call),
        call is Launch,
        w.blocks == v.blocks,
        w.staged == v.staged,
        w.tensors == (if call->entry is Cat {
            v.tensors.remove_keys(call->Launch_inputs.to_set())
        } else {
            v.tensors
        }),
    ensures
        mirrors(w, st.step(call)),
{
    match call {
        Call::Launch { entry, inputs, outputs, mode, plan_op, run_op } => {
            let after = st.with_outputs(entry, st.operands(inputs), outputs, outputs.len());
            lemma_outputs_frame(st, entry, st.operands(inputs), outputs, outputs.len());
            let end = st.step(call);
            assert forall|base: Base| #[trigger] w.blocks.contains_key(base) <==> end.live(base) by {
                assert(v.blocks.contains_key(base) <==> st.live(base));
                match base {
                    Base::Fresh(i) => {
                        assert(after.fresh.dom().contains(i) == st.fresh.dom().contains(i));
                    },
                    Base::Kept(i) => {
                        assert(after.kept.dom().contains(i) == st.kept.dom().contains(i));
                    },
                    Base::Pool(i) => {
                        assert(after.pool.dom().contains(i) == st.pool.dom().contains(i));
                    },
                    Base::Slot(i) => {
                        assert(after.slots.dom().contains(i) == st.slots.dom().contains(i));
                    },
                }
            }
            assert forall|base: Base| #[trigger]
                w.blocks.contains_key(base) implies w.blocks[base].len == end.content(
                base,
            ).len() by {
                assert(v.blocks.contains_key(base));
                assert(st.live(base));
            }
            assert forall|id: usize| #[trigger]
                w.tensors.contains_key(id) <==> end.tensors.contains_key(id) by {
                assert(v.tensors.contains_key(id) <==> st.tensors.contains_key(id));
            }
        },
        _ => {},
    }
}

/// A new allocation.
proof fn lemma_malloc_mirrors(v: RunState, w: RunState, st: DeviceState, call: Call, base: Base, block: Block)
    requires
        mirrors(v, st),
        call == (Call::Malloc { base, len: block.len }) || (call == (Call::Scratch {
            len: block.len,
        }) && base == Base::Pool(block.len)),
        !st.live(base),
        w.blocks == v.blocks.insert(base, block),
        w.tensors == v.tensors,
        w.staged == v.staged,
    ensures
        mirrors(w, st.step(call)),
{
    let end = st.step(call);
    assert forall|x: Base| #[trigger] w.blocks.contains_key(x) <==> end.live(x) by {
        assert(v.blocks.contains_key(x) <==> st.live(x));
    }
    assert forall|x: Base| #[trigger] w.blocks.contains_key(x) implies w.blocks[x].len
        == end.content(x).len() by {
        if x != base {
            assert(v.blocks.contains_key(x));
        }
    }
}

/// Beginning an allowed command either completes it, and the runner mirrors the
/// program's next state, or waits for the driver, or fails for want of arena space.
pub proof fn lemma_begin(v: RunState, st: DeviceState, call: Call)
    requires
        mirrors(v, st),
        st.sane(),
        st.allows(call),
        v.phase == Phase::Idle,
    ensures
        ({
            let (w, m) = v.begin(call);
            match m {
                Move::Done => w.phase == Phase::Idle && mirrors(w, st.step(call)),
                Move::Do(action) => waits(w, st, call),
                Move::Failed(code, op) => w.phase == Phase::Failed && mirrors(w, st)
                    && v.arena is Some && (call is Malloc || call is Scratch),
            }
        }),
{
    let (w, m) = v.begin(call);
    let end = st.step(call);
    lemma_accepts(v, st, call);
    match call {
        Call::Malloc { base, len } => {
            assert(!st.live(base));
            if m is Done {
                lemma_malloc_mirrors(v, w, st, call, base, granted(v.arena->0, len)->0);
            }
        },
        Call::Scratch { len } => {
            assert(v.blocks.contains_key(Base::Pool(len)) <==> st.live(Base::Pool(len)));
            if m is Done && !st.live(Base::Pool(len)) {
                lemma_malloc_mirrors(v, w, st, call, Base::Pool(len), granted(v.arena->0, len)->0);
            }
        },
        Call::Release { base } => {
            assert forall|x: Base| #[trigger] w.blocks.contains_key(x) <==> end.live(x) by {
                assert(v.blocks.contains_key(x) <==> st.live(x));
            }
            assert forall|x: Base| #[trigger] w.blocks.contains_key(x) implies w.blocks[x].len
                == end.content(x).len() by {
                assert(v.blocks.contains_key(x));
            }
        },
        Call::Stage { slot, task } => {
            if m is Done {
                match task {
                    HostTask::Transpose { from, rows, cols } => {
                        assert(v.staged.contains_key(from));
                    },
                    HostTask::Slice { from, offset, len } => {
                        assert(v.staged.contains_key(from));
                    },
                    _ => {},
                }
                assert forall|x: usize| #[trigger]
                    w.staged.contains_key(x) <==> end.staged.contains_key(x) by {
                    assert(v.staged.contains_key(x) <==> st.staged.contains_key(x));
                }
                assert forall|x: usize| #[trigger]
                    w.staged.contains_key(x) implies w.staged[x].len() == end.staged[x].len() by {
                    if x != slot {
                        assert(v.staged.contains_key(x));
                    }
                }
                assert(mirrors(w, end));
            }
        },
        Call::Unstage { slot } => {
            assert forall|x: usize| #[trigger]
                w.staged.contains_key(x) <==> end.staged.contains_key(x) by {
                assert(v.staged.contains_key(x) <==> st.staged.contains_key(x));
            }
            assert forall|x: usize| #[trigger] w.staged.contains_key(x) implies w.staged[x].len()
                == end.staged[x].len() by {
                assert(v.staged.contains_key(x));
            }
            assert(mirrors(w, end));
        },
        Call::Undescribe { id } => {
            assert forall|x: usize| #[trigger]
                w.tensors.contains_key(x) <==> end.tensors.contains_key(x) by {
                assert(v.tensors.contains_key(x) <==> st.tensors.contains_key(x));
            }
            assert(mirrors(w, end));
        },
        _ => {
            assert(mirrors(w, st));
        },
    }
}

/// Going on with a command after an answer of the kind that is waited for either
/// completes it, and the runner mirrors the program's next state, or waits for the
/// driver again, or fails.
pub proof fn lemma_resume(v: RunState, st: DeviceState, call: Call, reply: ReplyView)
    requires
        waits(v, st, call),
        st.sane(),
        st.allows(call),
        v.expects(call, reply),
    ensures
        ({
            let (w, m) = v.resume(call, reply);
            match m {
                Move::Done => w.phase == Phase::Idle && mirrors(w, st.step(call)),
                Move::Do(action) => waits(w, st, call),
                Move::Failed(code, op) => w.phase == Phase::Failed && mirrors(w, st) && code != 0,
            }
        }),
{
    let (w, m) = v.resume(call, reply);
    let end = st.step(call);
    match v.phase {
        Phase::Memory { base, len } => {
            if m is Done {
                lemma_malloc_mirrors(v, w, st, call, base, w.blocks[base]);
            }
        },
        Phase::Code => {
            match call {
                Call::Fill { buffer, value } => {
                    lemma_write_lengths(
                        v,
                        st,
                        buffer,
                        crate::semantics::filled(buffer.len as nat, value),
                    );
                },
                Call::Copy { dst, src, op } => {
                    lemma_write_lengths(v, st, dst, st.value(src));
                },
                Call::Upload { dst, bytes } => {
                    lemma_write_lengths(v, st, dst, crate::semantics::literal(bytes));
                },
                Call::UploadStaged { dst, slot } => {
                    lemma_write_lengths(v, st, dst, st.staged[slot]);
                },
                _ => {},
            }
            if !(m is Failed) {
                assert(mirrors(w, end));
            }
        },
        Phase::Bytes => {
            if m is Done {
                let slot = match call {
                    Call::Download { src, slot } => slot,
                    Call::Stage { slot, task } => slot,
                    _ => 0,
                };
                assert forall|x: usize| #[trigger]
                    w.staged.contains_key(x) <==> end.staged.contains_key(x) by {
                    assert(v.staged.contains_key(x) <==> st.staged.contains_key(x));
                }
                assert forall|x: usize| #[trigger]
                    w.staged.contains_key(x) implies w.staged[x].len() == end.staged[x].len() by {
                    if x != slot {
                        assert(v.staged.contains_key(x));
                    }
                }
                assert(mirrors(w, end));
            }
        },
        Phase::Handle => {
            if m is Done {
                assert forall|x: usize| #[trigger]
                    w.tensors.contains_key(x) <==> end.tensors.contains_key(x) by {
                    assert(v.tensors.contains_key(x) <==> st.tensors.contains_key(x));
                }
                assert(mirrors(w, end));
            }
        },
        Phase::Run { list, workspace } => {
            if !(m is Failed) {
                lemma_launch_mirrors(v, w, st, call);
            }
        },
        Phase::Closing => {
            assert(mirrors(w, end));
        },
        Phase::List => {
            assert(mirrors(w, st));
        },
        Phase::Plan { list } => {
            assert(mirrors(w, st));
        },
        Phase::Workspace { list, size, executor } => {
            assert(mirrors(w, st));
        },
        _ => {},
    }
}

/// The range at `place` lies inside the block of a live allocation.
pub open spec fn inside(v: RunState, place: Place, len: int) -> bool {
    exists|base: Base|
        {
            let block = v.blocks[base];
            &&& #[trigger] v.blocks.contains_key(base)
            &&& place.owner == block.place.owner
            &&& block.place.offset <= place.offset
            &&& place.offset + len <= block.place.offset + block.len
        }
}

/// Every range of memory that a call hands to the driver lies inside a live block.
pub open spec fn in_bounds(v: RunState, call: Call, action: ActionView) -> bool {
    match action {
        ActionView::Memset { at, len, value } => inside(v, at, len as int),
        ActionView::CopyAsync { dst, src, len } => inside(v, dst, len as int) && inside(
            v,
            src,
            len as int,
        ),
        ActionView::CopyIn { dst, len, from } => inside(v, dst, len as int),
        ActionView::CopyOut { src, len } => inside(v, src, len as int),
        ActionView::CreateTensor { at } => call matches Call::Describe { id, tensor } && inside(
            v,
            at,
            tensor.buffer.len as int,
        ),
        _ => true,
    }
}

/// Whatever an allowed command asks of the driver stays inside live allocations.
pub proof fn lemma_in_bounds(v: RunState, st: DeviceState, call: Call)
    requires
        v.wf(),
        mirrors(v, st),
        st.allows(call),
    ensures
        v.begin(call).1 matches Move::Do(action) ==> in_bounds(v.begin(call).0, call, action),
{
    lemma_accepts(v, st, call);
    assert(v.begin(call).1 is Do ==> v.begin(call).0.blocks == v.blocks);
    match call {
        Call::Fill { buffer, value } => {
            assert(v.blocks.contains_key(buffer.base));
        },
        Call::Copy { dst, src, op } => {
            assert(v.blocks.contains_key(dst.base));
            assert(v.blocks.contains_key(src.base));
        },
        Call::Upload { dst, bytes } => {
            assert(v.blocks.contains_key(dst.base));
        },
        Call::UploadStaged { dst, slot } => {
            assert(v.blocks.contains_key(dst.base));
        },
        Call::Download { src, slot } => {
            assert(v.blocks.contains_key(src.base));
        },
        Call::Describe { id, tensor } => {
            assert(v.blocks.contains_key(tensor.buffer.base));
        },
        _ => {},
    }
}

/// Whatever a command asks of the driver after an answer stays inside live
/// allocations.
pub proof fn lemma_in_bounds_after(v: RunState, call: Call, reply: ReplyView)
    ensures
        v.resume(call, reply).1 matches Move::Do(action) ==> in_bounds(
            v.resume(call, reply).0,
            call,
            action,
        ),
{
}

/// Driver allocations are freed only when the stream has just drained, and then all
/// that have been given back are, each as often as it was given back.
pub proof fn lemma_frees(v: RunState, call: Call, reply: ReplyView)
    ensures
        !(v.begin(call).1 matches Move::Do(ActionView::Free { addresses })),
        v.resume(call, reply).1 matches Move::Do(ActionView::Free { addresses }) ==> {
            &&& call is Sync
            &&& reply == ReplyView::Code(0)
            &&& addresses == v.pending
            &&& v.resume(call, reply).0.pending == Seq::<usize>::empty()
        },
{
}

/// A call that answers with a nonzero code ends the program, and the error carries
/// that code.
pub proof fn lemma_failure(v: RunState, call: Call, code: i32)
    requires
        v.expects(call, ReplyView::Code(code)),
        v.phase != Phase::Closing,
        code != 0,
    ensures
        ({
            let (w, m) = v.resume(call, ReplyView::Code(code));
            &&& w.phase == Phase::Failed
            &&& m matches Move::Failed(c, op) && c == code
        }),
{
}

/// `address` is the driver allocation of a live block that frees it when it is
/// given back.
pub open spec fn owned_by(v: RunState, address: usize) -> bool {
    ||| exists|base: Base| #[trigger]
        v.blocks.contains_key(base) && v.blocks[base].owned && v.blocks[base].place.owner == address
    ||| v.phase matches Phase::Run { list, workspace: Some(b) } && b.owned && b.place.owner
        == address
}

/// No driver allocation has two owners, none that has been given back has one, and
/// none has been given back twice.
pub open spec fn unique_owners(v: RunState) -> bool {
    &&& forall|a: Base, b: Base|
        #![trigger v.blocks.contains_key(a), v.blocks.contains_key(b)]
        v.blocks.contains_key(a) && v.blocks.contains_key(b) && v.blocks[a].owned
            && v.blocks[b].owned && a != b ==> v.blocks[a].place.owner != v.blocks[b].place.owner
    &&& forall|a: Base| #[trigger]
        v.blocks.contains_key(a) && v.blocks[a].owned ==> !v.pending.contains(
            v.blocks[a].place.owner,
        )
    &&& v.pending.no_duplicates()
    &&& match v.phase {
        Phase::Run { list, workspace: Some(w) } => w.owned ==> {
            &&& !v.pending.contains(w.place.owner)
            &&& forall|a: Base| #[trigger]
                v.blocks.contains_key(a) && v.blocks[a].owned ==> v.blocks[a].place.owner
                    != w.place.owner
        },
        _ => true,
    }
}

/// Beginning a command keeps owners unique.
pub proof fn lemma_begin_owners(v: RunState, call: Call)
    requires
        unique_owners(v),
        v.accepts(call),
        v.phase == Phase::Idle,
        call matches Call::Malloc { base, len } ==> !v.blocks.contains_key(base),
    ensures
        unique_owners(v.begin(call).0),
{
    let w = v.begin(call).0;
    assert forall|a: Base, b: Base|
        #![trigger w.blocks.contains_key(a), w.blocks.contains_key(b)]
        w.blocks.contains_key(a) && w.blocks.contains_key(b) && w.blocks[a].owned
            && w.blocks[b].owned && a != b implies w.blocks[a].place.owner
        != w.blocks[b].place.owner by {
        assert(v.blocks.contains_key(a) && v.blocks.contains_key(b));
    }
    assert forall|a: Base| #[trigger]
        w.blocks.contains_key(a) && w.blocks[a].owned implies !w.pending.contains(
        w.blocks[a].place.owner,
    ) by {
        assert(v.blocks.contains_key(a));
        match call {
            Call::Release { base } => {
                assert(v.blocks.contains_key(base));
            },
            _ => {},
        }
    }
}

/// Going on with a command keeps owners unique, as long as the driver never hands
/// out an allocation that is still in use.
pub proof fn lemma_resume_owners(v: RunState, call: Call, reply: ReplyView)
    requires
        unique_owners(v),
        v.expects(call, reply),
        reply matches ReplyView::Address { code, address } ==> !owned_by(v, address)
            && !v.pending.contains(address),
    ensures
        unique_owners(v.resume(call, reply).0),
{
    let w = v.resume(call, reply).0;
    assert forall|a: Base, b: Base|
        #![trigger w.blocks.contains_key(a), w.blocks.contains_key(b)]
        w.blocks.contains_key(a) && w.blocks.contains_key(b) && w.blocks[a].owned
            && w.blocks[b].owned && a != b implies w.blocks[a].place.owner
        != w.blocks[b].place.owner by {
        match v.phase {
            Phase::Memory { base, len } => {
                if a != base {
                    assert(v.blocks.contains_key(a));
                }
                if b != base {
                    assert(v.blocks.contains_key(b));
                }
            },
            _ => {
                assert(v.blocks.contains_key(a) && v.blocks.contains_key(b));
            },
        }
    }
    assert forall|a: Base| #[trigger]
        w.blocks.contains_key(a) && w.blocks[a].owned implies !w.pending.contains(
        w.blocks[a].place.owner,
    ) by {
        match v.phase {
            Phase::Memory { base, len } => {
                if a != base {
                    assert(v.blocks.contains_key(a));
                }
            },
            _ => {
                assert(v.blocks.contains_key(a));
            },
        }
    }
    match w.phase {
        Phase::Run { list, workspace: Some(b) } => {
            if b.owned {
                assert forall|a: Base| #[trigger]
                    w.blocks.contains_key(a) && w.blocks[a].owned implies w.blocks[a].place.owner
                    != b.place.owner by {
                    assert(v.blocks.contains_key(a));
                }
            }
        },
        _ => {},
    }
}

/// Where owners are unique, nothing that is freed belongs to a live allocation.
pub proof fn lemma_no_early_free(v: RunState, call: Call, reply: ReplyView)
    requires
        unique_owners(v),
        v.expects(call, reply),
    ensures
        v.resume(call, reply).1 matches Move::Do(ActionView::Free { addresses }) ==> forall|i: int|

            0 <= i < addresses.len() ==> !owned_by(v.resume(call, reply).0, #[trigger] addresses[i]),
{
    let (w, m) = v.resume(call, reply);
    match m {
        Move::Do(ActionView::Free { addresses }) => {
            assert forall|i: int| 0 <= i < addresses.len() implies !owned_by(
                w,
                #[trigger] addresses[i],
            ) by {
                assert(v.pending.contains(addresses[i]));
            }
        },
        _ => {},
    }
}

/// The call may be made while a capture is open: it is queued on the stream or is
/// bookkeeping. The driver allocates nothing, and the host neither moves data nor
/// waits.
pub open spec fn capturable(action: ActionView) -> bool {
    match action {
        ActionView::Memset { .. } => true,
        ActionView::CopyAsync { .. } => true,
        ActionView::CreateTensor { .. } => true,
        ActionView::DestroyTensor { .. } => true,
        ActionView::CreateTensorList { .. } => true,
        ActionView::DestroyTensorList { .. } => true,
        ActionView::Plan { .. } => true,
        ActionView::Run { .. } => true,
        _ => false,
    }
}

/// The runner waits for nothing that may not be asked while a capture is open.
pub open spec fn capture_phase(phase: Phase) -> bool {
    match phase {
        Phase::Memory { .. } => false,
        Phase::Workspace { .. } => false,
        Phase::Bytes => false,
        _ => true,
    }
}

/// Carrying out a stream-ordered command while an arena is active asks the driver only
/// for what may be captured, and the arena stays active: its beginning.
pub proof fn lemma_captured_begin(v: RunState, call: Call)
    requires
        stream_ordered(call),
        v.arena is Some,
        v.phase == Phase::Idle,
    ensures
        ({
            let (w, m) = v.begin(call);
            &&& w.arena is Some
            &&& capture_phase(w.phase)
            &&& m is Done ==> w.phase == Phase::Idle
            &&& m matches Move::Do(action) ==> capturable(action)
        }),
{
}

/// Carrying out a stream-ordered command while an arena is active asks the driver only
/// for what may be captured, and the arena stays active: after each answer.
pub proof fn lemma_captured_resume(v: RunState, call: Call, reply: ReplyView)
    requires
        stream_ordered(call),
        v.arena is Some,
        capture_phase(v.phase),
        v.expects(call, reply),
    ensures
        ({
            let (w, m) = v.resume(call, reply);
            &&& w.arena is Some
            &&& capture_phase(w.phase)
            &&& m is Done ==> w.phase == Phase::Idle
            &&& m matches Move::Do(action) ==> capturable(action)
        }),
{
}

/// Where a buffer lies: in the block of its allocation, its own offset further on.
pub open spec fn lies(v: RunState, b: DeviceBuffer) -> Place {
    Place {
        owner: v.blocks[b.base].place.owner,
        offset: (v.blocks[b.base].place.offset + b.offset) as usize,
    }
}

/// What a command that moves data or starts a kernel asks of the driver: from where the
/// source lies to where the destination lies, as many bytes as the buffers have, and for a
/// kernel the descriptors of its operands in their order.
pub proof fn lemma_asked(v: RunState, call: Call)
    requires
        v.accepts(call),
    ensures
        match call {
            Call::Fill { buffer, value } => v.begin(call).1 == Move::Do(
                ActionView::Memset { at: lies(v, buffer), len: buffer.len, value },
            ),
            Call::Copy { dst, src, op } => v.begin(call).1 == Move::Do(
                ActionView::CopyAsync { dst: lies(v, dst), src: lies(v, src), len: src.len },
            ),
            Call::Upload { dst, bytes } => v.begin(call).1 == Move::Do(
                ActionView::CopyIn { dst: lies(v, dst), len: dst.len, from: HostBytes::Command },
            ),
            Call::UploadStaged { dst, slot } => v.begin(call).1 == Move::Do(
                ActionView::CopyIn {
                    dst: lies(v, dst),
                    len: dst.len,
                    from: HostBytes::Slot(slot),
                },
            ),
            Call::Download { src, slot } => v.begin(call).1 == Move::Do(
                ActionView::CopyOut { src: lies(v, src), len: src.len },
            ),
            Call::Describe { id, tensor } => v.begin(call).1 == Move::Do(
                ActionView::CreateTensor { at: lies(v, tensor.buffer) },
            ),
            Call::Launch { entry, inputs, outputs, mode, plan_op, run_op } => match v.begin(
                call,
            ).1 {
                Move::Do(ActionView::CreateTensorList { handles }) => {
                    &&& entry is Cat
                    &&& handles.len() == inputs.len()
                    &&& forall|i: int|
                        0 <= i < inputs.len() ==> #[trigger] handles[i] == v.tensors[inputs[i]]
                },
                Move::Do(ActionView::Plan { entry: asked, inputs: given, outputs: results }) => {
                    &&& !(entry is Cat)
                    &&& asked == entry
                    &&& given.len() == inputs.len()
                    &&& results.len() == outputs.len()
                    &&& forall|i: int|
                        0 <= i < inputs.len() ==> #[trigger] given[i] == v.tensors[inputs[i]]
                    &&& forall|i: int|
                        0 <= i < outputs.len() ==> #[trigger] results[i] == v.tensors[outputs[i]]
                },
                _ => false,
            },
            _ => true,
        },
{
}

} // verus!
