//! Running the programs that a context records, in the order in which it records
//! them.

use vstd::prelude::*;
use vstd::string::StringExecFns;

use crate::capture::all_stream_ordered;
use crate::context::{calls_of, AscendContext};
use crate::device::{Base, Call, Command, DeviceBuffer, LaunchMode};
use crate::driver::action::{
    lemma_abandoned, HostBytes, Move, Phase, Reply, ReplyView, RunState,
};
use crate::driver::laws::{
    capturable, capture_phase, in_bounds, lemma_accepts, lemma_begin, lemma_captured_begin,
    lemma_captured_resume, lemma_in_bounds, lemma_in_bounds_after, lemma_resume, mirrors, waits,
};
use crate::driver::runner::{Next, Runner};
use crate::error::{acl_err, bridged, check, AclError, Error, ErrorView};
use crate::heap::{consumed, driver_block, Arena, Block, Place, ARENA_ALIGN};
use crate::semantics::{
    issued_before, lemma_outputs_frame, lemma_run_append, lemma_run_sane, run, safe, undefined,
    DeviceState, SymByte,
};
use crate::text::{append_decimal, decimal};

verus! {

/// The first command from position `at` on that does not complete at once: the
/// runner when it has begun that command, the position, and what is to be done.
/// At the end of the program nothing is.
pub open spec fn first_wait(v: RunState, calls: Seq<Call>, at: int) -> (RunState, int, Move)
    decreases calls.len() - at,
{
    if at >= calls.len() {
        (v, at, Move::Done)
    } else {
        let (w, m) = v.begin(calls[at]);
        match m {
            Move::Done => first_wait(w, calls, at + 1),
            _ => (w, at, m),
        }
    }
}

/// While an arena is active, a program of stream-ordered commands asks the driver only
/// for what may be captured: from any command on, up to the first call that it waits
/// for.
pub proof fn lemma_captured_from(v: RunState, calls: Seq<Call>, at: int)
    requires
        all_stream_ordered(calls),
        0 <= at,
        v.arena is Some,
        v.phase == Phase::Idle,
    ensures
        ({
            let (w, end, m) = first_wait(v, calls, at);
            &&& w.arena is Some
            &&& capture_phase(w.phase)
            &&& m matches Move::Do(action) ==> capturable(action)
        }),
    decreases calls.len() - at,
{
    if at < calls.len() {
        lemma_captured_begin(v, calls[at]);
        let (w, m) = v.begin(calls[at]);
        if m is Done {
            lemma_captured_from(w, calls, at + 1);
        }
    }
}

/// While an arena is active, a program of stream-ordered commands asks the driver only
/// for what may be captured: after every answer.
pub proof fn lemma_captured_after(v: RunState, calls: Seq<Call>, at: int, reply: ReplyView)
    requires
        all_stream_ordered(calls),
        0 <= at < calls.len(),
        v.arena is Some,
        capture_phase(v.phase),
        v.expects(calls[at], reply),
    ensures
        ({
            let (w, m) = v.resume(calls[at], reply);
            let (u, end, next) = match m {
                Move::Done => first_wait(w, calls, at + 1),
                _ => (w, at, m),
            };
            &&& u.arena is Some
            &&& capture_phase(u.phase)
            &&& next matches Move::Do(action) ==> capturable(action)
        }),
{
    lemma_captured_resume(v, calls[at], reply);
    let (w, m) = v.resume(calls[at], reply);
    if m is Done {
        lemma_captured_from(w, calls, at + 1);
    }
}

/// One step of a safe program: it is allowed, and leads on.
proof fn lemma_prefix(start: DeviceState, calls: Seq<Call>, at: int)
    requires
        start.sane(),
        safe(start, calls),
        0 <= at < calls.len(),
    ensures
        run(start, calls.take(at)).sane(),
        run(start, calls.take(at)).allows(calls[at]),
        run(start, calls.take(at + 1)) == run(start, calls.take(at)).step(calls[at]),
{
    let first = calls.take(at + 1);
    assert(calls =~= first + calls.skip(at + 1));
    lemma_run_append(start, first, calls.skip(at + 1));
    assert(first.drop_last() =~= calls.take(at));
    assert(first.last() == calls[at]);
    reveal(run);
    reveal(safe);
    lemma_run_sane(start, calls.take(at));
}

/// Identifiers are only ever handed out.
proof fn lemma_issued_grows(start: DeviceState, calls: Seq<Call>, at: int)
    requires
        start.sane(),
        safe(start, calls),
        0 <= at <= calls.len(),
    ensures
        run(start, calls.take(at)).issued <= run(start, calls).issued,
    decreases calls.len() - at,
{
    if at < calls.len() {
        lemma_prefix(start, calls, at);
        let st = run(start, calls.take(at));
        match calls[at] {
            Call::Launch { entry, inputs, outputs, mode, plan_op, run_op } => {
                lemma_outputs_frame(st, entry, st.operands(inputs), outputs, outputs.len());
            },
            _ => {},
        }
        lemma_issued_grows(start, calls, at + 1);
    } else {
        assert(calls.take(at) =~= calls);
    }
}

/// The allocations that a command writes.
pub open spec fn touched(st: DeviceState, call: Call) -> Set<Base> {
    match call {
        Call::Fill { buffer, value } => set![buffer.base],
        Call::Copy { dst, src, op } => set![dst.base],
        Call::Upload { dst, bytes } => set![dst.base],
        Call::UploadStaged { dst, slot } => set![dst.base],
        Call::Launch { entry, inputs, outputs, mode, plan_op, run_op } => Set::new(
            |b: Base|
                exists|i: int|
                    0 <= i < outputs.len() && st.tensors[#[trigger] outputs[i]].buffer.base == b,
        ),
        _ => Set::empty(),
    }
}

/// What is left of an allocation: nothing that can be relied on, where a command failed
/// to write it.
pub open spec fn remains(lost: Set<Base>, base: Base, bytes: Seq<SymByte>) -> Seq<SymByte> {
    if lost.contains(base) {
        undefined(base, bytes.len())
    } else {
        bytes
    }
}

/// What a program that broke at `call`, in the state `here`, leaves: the allocations
/// that were there before it began at identifier `mark`, and scratch memory. What the
/// broken command was to write holds anything.
pub open spec fn salvaged(here: DeviceState, mark: nat, call: Call, issued: nat) -> DeviceState {
    let lost = touched(here, call);
    DeviceState {
        fresh: Map::new(
            |id: usize| here.fresh.contains_key(id) && id < mark,
            |id: usize| remains(lost, Base::Fresh(id), here.fresh[id]),
        ),
        kept: Map::empty(),
        pool: Map::new(
            |len: usize| here.pool.contains_key(len),
            |len: usize| remains(lost, Base::Pool(len), here.pool[len]),
        ),
        slots: Map::empty(),
        tensors: Map::empty(),
        staged: Map::empty(),
        dirty: here.dirty.union(lost),
        issued,
    }
}

/// What is left is in order, and the runner that gave the rest back mirrors it.
proof fn lemma_salvaged(
    v: RunState,
    here: DeviceState,
    mark: nat,
    call: Call,
    end: nat,
    issued: nat,
)
    requires
        here.sane(),
        here.allows(call),
        mirrors(v, here),
        here.issued <= end <= issued,
        end <= usize::MAX,
        mark <= end,
    ensures
        salvaged(here, mark, call, issued).sane(),
        mirrors(v.abandoned(mark, end), salvaged(here, mark, call, issued)),
{
    let st = salvaged(here, mark, call, issued);
    let w = v.abandoned(mark, end);
    let lost = touched(here, call);
    lemma_abandoned(v, mark, end);
    assert forall|b: Base| #[trigger] st.dirty.contains(b) implies issued_before(b, issued) by {
        if here.dirty.contains(b) {
            assert(issued_before(b, here.issued));
        } else {
            assert(lost.contains(b));
            assert(here.live(b)) by {
                match call {
                    Call::Launch { entry, inputs, outputs, mode, plan_op, run_op } => {
                        let i = choose|i: int|
                            0 <= i < outputs.len() && here.tensors[
                            #[trigger] outputs[i]].buffer.base == b;
                        assert(here.tensors.contains_key(outputs[i]));
                        assert(here.holds(here.tensors[outputs[i]].buffer));
                    },
                    _ => {},
                }
            }
        }
    }
    assert forall|base: Base| #[trigger] w.blocks.contains_key(base) <==> st.live(base) by {
        assert(v.blocks.contains_key(base) <==> here.live(base));
        match base {
            Base::Fresh(id) => {
                assert(here.fresh.contains_key(id) ==> id < here.issued);
            },
            Base::Kept(id) => {
                assert(here.kept.contains_key(id) ==> id < here.issued);
            },
            Base::Slot(id) => {
                assert(here.slots.contains_key(id) ==> id < here.issued);
            },
            _ => {},
        }
    }
    assert forall|base: Base| #[trigger] w.blocks.contains_key(base) implies w.blocks[base].len
        == st.content(base).len() by {
        assert(v.blocks.contains_key(base));
        assert(st.live(base));
    }
    assert forall|id: usize| #[trigger] w.tensors.contains_key(id) <==> st.tensors.contains_key(
        id,
    ) by {
        assert(v.tensors.contains_key(id) <==> here.tensors.contains_key(id));
    }
    assert forall|id: usize| #[trigger] w.staged.contains_key(id) <==> st.staged.contains_key(id) by {
        assert(v.staged.contains_key(id) <==> here.staged.contains_key(id));
    }
}

/// Runs recorded programs.
pub struct Session {
    runner: Runner,
    program: Vec<Command>,
    at: usize,
    /// Identifiers that had been handed out when the program began.
    mark: usize,
    /// Identifiers that have been handed out where the program ends.
    end: usize,
    start: Ghost<DeviceState>,
}

impl Session {
    pub closed spec fn runner(&self) -> RunState {
        self.runner@
    }

    /// The program that is being run.
    pub closed spec fn calls(&self) -> Seq<Call> {
        calls_of(self.program@)
    }

    /// The command that is being carried out, or is next.
    pub closed spec fn position(&self) -> int {
        self.at as int
    }

    /// The state in which the program started.
    pub closed spec fn start(&self) -> DeviceState {
        self.start@
    }

    /// The identifiers that the program was given.
    pub closed spec fn span(&self) -> (int, int) {
        (self.mark as int, self.end as int)
    }

    /// The state before the command at the current position.
    pub open spec fn here(&self) -> DeviceState {
        run(self.start(), self.calls().take(self.position()))
    }

    /// The command at the current position.
    pub open spec fn current(&self) -> Call {
        self.calls()[self.position()]
    }

    pub open spec fn idle(&self) -> bool {
        self.runner().phase == Phase::Idle
    }

    /// The program has been run to its end.
    pub open spec fn finished(&self) -> bool {
        self.idle() && self.position() == self.calls().len()
    }

    /// A call failed, and nothing more of the program will be run.
    pub open spec fn broken(&self) -> bool {
        self.runner().phase == Phase::Failed
    }

    /// The program is safe, and the runner mirrors the state it has got to.
    pub open spec fn wf(&self) -> bool {
        &&& self.runner().wf()
        &&& self.start().sane()
        &&& safe(self.start(), self.calls())
        &&& 0 <= self.position() <= self.calls().len()
        &&& self.idle() ==> mirrors(self.runner(), self.here())
        &&& !self.idle() ==> self.position() < self.calls().len()
        &&& !self.idle() && !self.broken() ==> waits(self.runner(), self.here(), self.current())
        &&& self.broken() ==> mirrors(self.runner(), self.here())
        &&& self.span() == (
            self.start().issued as int,
            run(self.start(), self.calls()).issued as int,
        )
    }

    /// A session on a device on which nothing has been allocated.
    pub fn new() -> (session: Session)
        ensures
            session.wf(),
            session.finished(),
            session.runner() == RunState::initial(),
            session.here() == DeviceState::initial(),
    {
        let session = Session {
            runner: Runner::new(),
            program: Vec::new(),
            at: 0,
            mark: 0,
            end: 0,
            start: Ghost(DeviceState::initial()),
        };
        proof {
            reveal(run);
            reveal(safe);
            assert(session.calls() =~= Seq::<Call>::empty());
            assert(session.calls().take(0) =~= Seq::<Call>::empty());
        }
        session
    }

    /// Take the program that a context has recorded since the last one, to be run
    /// next.
    pub fn load(&mut self, ctx: &mut AscendContext)
        requires
            old(self).wf(),
            old(self).finished(),
            old(ctx).wf(),
            old(ctx).start() == old(self).here(),
        ensures
            final(self).wf(),
            final(self).idle(),
            final(self).position() == 0,
            final(self).calls() == old(ctx).calls(),
            final(self).runner() == old(self).runner(),
            final(ctx).wf(),
            final(ctx).start() == old(ctx).state(),
            final(ctx).calls() == Seq::<Call>::empty(),
            final(ctx).spec_device_id() == old(ctx).spec_device_id(),
            run(final(self).start(), final(self).calls()) == final(ctx).start(),
    {
        let ghost here = self.here();
        proof {
            ctx.lemma_safe();
        }
        proof {
            assert(self.calls().take(self.position()) =~= self.calls());
        }
        self.mark = self.end;
        self.end = ctx.issued();
        self.program = ctx.take_program();
        self.at = 0;
        self.start = Ghost(here);
        proof {
            assert(self.calls().take(0) =~= Seq::<Call>::empty());
            reveal(run);
        }
    }

    /// Drop the rest of a program that broke, so that the session and the context that
    /// recorded the program can go on. What was allocated before the program stays; what
    /// the program allocated is given back, as is what caches held, which have to start
    /// anew. The handles of the descriptors that were live are to be destroyed.
    pub fn recover(&mut self, ctx: &mut AscendContext) -> (handles: Vec<usize>)
        requires
            old(self).wf(),
            old(self).broken(),
            old(ctx).wf(),
            old(ctx).start() == run(old(self).start(), old(self).calls()),
        ensures
            final(self).wf(),
            final(self).finished(),
            final(self).calls() == Seq::<Call>::empty(),
            final(self).here() == salvaged(
                old(self).here(),
                old(self).start().issued,
                old(self).current(),
                old(ctx).state().issued,
            ),
            final(self).runner() == old(self).runner().abandoned(
                old(self).start().issued,
                old(ctx).start().issued,
            ).at(Phase::Idle),
            handles@ == old(self).runner().live_handles(old(ctx).start().issued),
            final(ctx).wf(),
            final(ctx).start() == final(self).here(),
            final(ctx).state() == final(self).here(),
            final(ctx).calls() == Seq::<Call>::empty(),
            final(ctx).spec_device_id() == old(ctx).spec_device_id(),
    {
        let ghost calls = self.calls();
        let ghost first = self.start();
        let ghost here = self.here();
        let ghost call = self.current();
        let ghost v = self.runner();
        let ghost after = salvaged(here, first.issued, call, ctx.state().issued);
        proof {
            ctx.lemma_safe();
            lemma_prefix(first, calls, self.position());
            lemma_issued_grows(first, calls, self.position());
            assert(calls.take(0) =~= Seq::<Call>::empty());
            lemma_issued_grows(first, calls, 0);
            assert(run(first, calls.take(0)) == first) by {
                reveal(run);
            }
            assert(ctx.calls().take(0) =~= Seq::<Call>::empty());
            lemma_issued_grows(ctx.start(), ctx.calls(), 0);
            assert(run(ctx.start(), ctx.calls().take(0)) == ctx.start()) by {
                reveal(run);
            }
            lemma_salvaged(v, here, first.issued, call, self.end as nat, ctx.state().issued);
        }
        let handles = self.runner.abandon(self.mark, self.end);
        let issued: usize = ctx.issued();
        ctx.restart(Ghost(after));
        self.program = Vec::new();
        self.at = 0;
        self.mark = issued;
        self.end = issued;
        self.start = Ghost(after);
        proof {
            reveal(run);
            reveal(safe);
            assert(self.calls() =~= Seq::<Call>::empty());
            assert(self.calls().take(0) =~= Seq::<Call>::empty());
        }
        handles
    }

    /// A finished session is where the context that recorded its program goes on.
    pub proof fn lemma_finished(&self)
        requires
            self.wf(),
            self.finished(),
        ensures
            self.here() == run(self.start(), self.calls()),
            mirrors(self.runner(), self.here()),
    {
        assert(self.calls().take(self.position()) =~= self.calls());
    }

    /// Begin commands until one waits for the driver, a call fails, or the program
    /// is at its end.
    pub fn advance(&mut self) -> (next: Next)
        requires
            old(self).wf(),
            old(self).idle(),
        ensures
            final(self).wf(),
            final(self).start() == old(self).start(),
            final(self).calls() == old(self).calls(),
            (final(self).runner(), final(self).position(), next@) == first_wait(
                old(self).runner(),
                old(self).calls(),
                old(self).position(),
            ),
            next is Done ==> final(self).finished(),
            next is Do ==> !final(self).idle() && !final(self).broken(),
            next matches Next::Do(action) ==> in_bounds(
                final(self).runner(),
                final(self).current(),
                action@,
            ),
            next is Failed ==> final(self).broken(),
    {
        let ghost calls = self.calls();
        let ghost v0 = self.runner();
        let ghost at0 = self.position();
        while self.at < self.program.len()
            invariant
                self.wf(),
                self.idle(),
                self.start() == old(self).start(),
                self.calls() == calls,
                calls == calls_of(self.program@),
                calls == old(self).calls(),
                first_wait(self.runner(), calls, self.position()) == first_wait(v0, calls, at0),
                v0 == old(self).runner(),
                at0 == old(self).position(),
            decreases self.program@.len() - self.at,
        {
            let ghost v = self.runner();
            let ghost here = self.here();
            let ghost call = self.current();
            proof {
                lemma_prefix(self.start(), calls, self.position());
                lemma_accepts(v, here, call);
                lemma_begin(v, here, call);
                lemma_in_bounds(v, here, call);
            }
            let next = self.runner.begin(&self.program[self.at]);
            match next {
                Next::Done => {
                    self.at = self.at + 1;
                },
                Next::Do(action) => {
                    return Next::Do(action);
                },
                Next::Failed(e) => {
                    return Next::Failed(e);
                },
            }
        }
        Next::Done
    }

    /// Take the driver's answer to the call that was handed out, and go on to the
    /// next call.
    pub fn answer(&mut self, reply: Reply) -> (next: Next)
        requires
            old(self).wf(),
            !old(self).idle(),
            !old(self).broken(),
            old(self).runner().expects(old(self).current(), reply@),
        ensures
            final(self).wf(),
            final(self).start() == old(self).start(),
            final(self).calls() == old(self).calls(),
            ({
                let (w, m) = old(self).runner().resume(old(self).current(), reply@);
                (final(self).runner(), final(self).position(), next@) == match m {
                    Move::Done => first_wait(w, old(self).calls(), old(self).position() + 1),
                    _ => (w, old(self).position(), m),
                }
            }),
            next is Done ==> final(self).finished(),
            next is Do ==> !final(self).idle() && !final(self).broken(),
            next matches Next::Do(action) ==> in_bounds(
                final(self).runner(),
                final(self).current(),
                action@,
            ),
            next is Failed ==> final(self).broken(),
    {
        let ghost calls = self.calls();
        let ghost v = self.runner();
        let ghost here = self.here();
        let ghost call = self.current();
        proof {
            lemma_prefix(self.start(), calls, self.position());
            lemma_resume(v, here, call, reply@);
            lemma_in_bounds_after(v, call, reply@);
            if v.phase != Phase::Closing {
                lemma_accepts(v, here, call);
            }
            assert(self.at < self.program.len());
        }
        let next = self.runner.resume(&self.program[self.at], reply);
        match next {
            Next::Done => {
                self.at = self.at + 1;
                self.advance()
            },
            Next::Do(action) => Next::Do(action),
            Next::Failed(e) => Next::Failed(e),
        }
    }

    /// The bytes that an upload copies: those of the command that is being carried
    /// out, or of a staging slot.
    pub fn upload_bytes(&self, from: HostBytes) -> (bytes: Option<&Vec<u8>>)
        requires
            self.wf(),
        ensures
            match from {
                HostBytes::Slot(slot) => match bytes {
                    Some(b) => self.runner().staged.contains_key(slot)
                        && self.runner().staged[slot] == b@,
                    None => !self.runner().staged.contains_key(slot),
                },
                HostBytes::Command => match bytes {
                    Some(b) => self.position() < self.calls().len() && (self.current() matches
                        Call::Upload { dst, bytes: given } && given == b@),
                    None => self.position() < self.calls().len() ==> !(self.current() is Upload),
                },
            },
    {
        match from {
            HostBytes::Slot(slot) => self.runner.slot(slot),
            HostBytes::Command => {
                if self.at < self.program.len() {
                    match &self.program[self.at] {
                        Command::Upload { dst: _, bytes } => Some(bytes),
                        _ => None,
                    }
                } else {
                    None
                }
            },
        }
    }

    /// Where a buffer is, while it is live.
    pub fn locate(&self, buffer: &DeviceBuffer) -> (place: Option<Place>)
        requires
            self.wf(),
        ensures
            place == (if self.runner().has(*buffer) {
                Some(self.runner().place(*buffer))
            } else {
                None
            }),
    {
        self.runner.locate(buffer)
    }

    /// The command that is being carried out.
    pub fn command(&self) -> (command: Option<&Command>)
        requires
            self.wf(),
        ensures
            match command {
                Some(c) => self.position() < self.calls().len() && c@ == self.current(),
                None => self.position() == self.calls().len(),
            },
    {
        if self.at < self.program.len() {
            Some(&self.program[self.at])
        } else {
            None
        }
    }

    /// Start cutting allocations from one driver allocation of `bytes` bytes.
    pub fn enter_arena(&mut self, bytes: usize, code: i32, address: usize) -> (r: Result<
        Block,
        AclError,
    >)
        requires
            old(self).wf(),
            old(self).idle(),
            bytes + ARENA_ALIGN <= usize::MAX,
        ensures
            final(self).wf(),
            final(self).calls() == old(self).calls(),
            final(self).position() == old(self).position(),
            final(self).start() == old(self).start(),
            r == driver_block(bytes, code, address),
            final(self).runner() == (match r {
                Ok(b) => RunState {
                    arena: Some(Arena { owner: address, cap: bytes, off: 0 }),
                    ..old(self).runner()
                },
                Err(e) => old(self).runner(),
            }),
    {
        self.runner.enter_arena(bytes, code, address)
    }

    /// Leave the arena, and say how many of its bytes are in use. The driver is asked
    /// for memory again from now on.
    pub fn exit_arena(&mut self) -> (used: usize)
        requires
            old(self).wf(),
        ensures
            final(self).wf(),
            final(self).calls() == old(self).calls(),
            final(self).position() == old(self).position(),
            final(self).start() == old(self).start(),
            final(self).runner() == (RunState { arena: None, ..old(self).runner() }),
            used == consumed(old(self).runner().arena),
    {
        self.runner.exit_arena()
    }

    /// Drop the arena without asking what it came to.
    pub fn clear_arena(&mut self)
        requires
            old(self).wf(),
        ensures
            final(self).wf(),
            final(self).calls() == old(self).calls(),
            final(self).position() == old(self).position(),
            final(self).start() == old(self).start(),
            final(self).runner() == (RunState { arena: None, ..old(self).runner() }),
    {
        self.runner.clear_arena();
    }

    /// Everything that has been given back, to be freed now that the caller has seen
    /// the stream drained.
    pub fn flush_pending_frees(&mut self) -> (addresses: Vec<usize>)
        requires
            old(self).wf(),
        ensures
            final(self).wf(),
            final(self).calls() == old(self).calls(),
            final(self).position() == old(self).position(),
            final(self).start() == old(self).start(),
            addresses@ == old(self).runner().pending,
            final(self).runner() == (RunState { pending: seq![], ..old(self).runner() }),
    {
        self.runner.flush_pending_frees()
    }

    /// Take the driver's answer to a wait for all queued work: once it is done,
    /// everything that has been given back is to be freed.
    pub fn drained(&mut self, code: i32, op: &'static str) -> (r: Result<Vec<usize>, AclError>)
        requires
            old(self).wf(),
        ensures
            drained(*old(self), *final(self), code, op, r),
    {
        match check(code, op) {
            Ok(_) => Ok(self.flush_pending_frees()),
            Err(e) => Err(e),
        }
    }

    /// How the model layer reports a failed call of the current command.
    pub fn report(&self, e: AclError) -> (error: Error)
        requires
            self.wf(),
            self.position() < self.calls().len(),
        ensures
            error@ == reported(self.current(), e),
    {
        match &self.program[self.at] {
            Command::Launch { entry: _, inputs: _, outputs: _, mode, plan_op: _, run_op: _ } => {
                if *mode == LaunchMode::Bare {
                    let mut text = String::new();
                    text.append(e.op);
                    text.append(" ");
                    append_decimal(&mut text, e.code as i64);
                    assert(text@ =~= e.op@ + " "@ + decimal(e.code as int));
                    Error::Other(text)
                } else {
                    acl_err(e)
                }
            },
            _ => acl_err(e),
        }
    }
}

/// What a wait for all queued work comes to: where it succeeds, the driver allocations
/// that have been given back are handed out to be freed, and else nothing changes.
pub open spec fn drained(
    before: Session,
    after: Session,
    code: i32,
    op: &'static str,
    r: Result<Vec<usize>, AclError>,
) -> bool {
    &&& after.wf()
    &&& after.calls() == before.calls()
    &&& after.position() == before.position()
    &&& after.start() == before.start()
    &&& match r {
        Ok(addresses) => {
            &&& code == 0
            &&& addresses@ == before.runner().pending
            &&& after.runner() == (RunState { pending: seq![], ..before.runner() })
        },
        Err(e) => {
            &&& code != 0
            &&& e == (AclError { code, op })
            &&& after == before
        },
    }
}

/// What was allocated before a program broke is still there, and holds what it held
/// unless the broken command was to write it.
pub proof fn lemma_salvaged_value(
    here: DeviceState,
    mark: nat,
    call: Call,
    issued: nat,
    b: DeviceBuffer,
)
    requires
        here.holds(b),
        b.base matches Base::Fresh(id) && id < mark,
    ensures
        salvaged(here, mark, call, issued).holds(b),
        !touched(here, call).contains(b.base) ==> salvaged(here, mark, call, issued).value(b)
            == here.value(b),
{
}

/// How the model layer reports a failed call of a command. A kernel that is started
/// without a workspace is reported by its own text.
pub open spec fn reported(call: Call, e: AclError) -> ErrorView {
    match call {
        Call::Launch { entry, inputs, outputs, mode, plan_op, run_op } => if mode is Bare {
            ErrorView::Other(e.op@ + " "@ + decimal(e.code as int))
        } else {
            bridged(e)
        },
        _ => bridged(e),
    }
}

} // verus!
